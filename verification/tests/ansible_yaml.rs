use semantic_code::ansible::{ans_node, inventory_data_to_quads, read_yaml_text, AnsibleLoadError, YamlFile};
use semantic_code::ansible_project::{is_playbook_candidate, ProjectLoad};
use semantic_code::inventory::InventoryData;
use semantic_code::playbook::{detect_module, parse_playbook, slugify};
use semantic_code::rdf::{Quad, Term};
use semantic_code::role::{parse_role, DirItem, NameItem, RoleFiles};
use semantic_code::yaml::{yaml_value_to_string, Yaml, YamlEntry};
use semantic_code::yaml_inventory::{load_inventory_file, load_vars_dir, parse_yaml_inventory, VarsSource};

const RDF_TYPE: &str = "http://www.w3.org/1999/02/22-rdf-syntax-ns#type";
const HOST_NS: &str = "http://www.invincea.com/ontologies/icas/1.0/host#";

fn json(v: &serde_yaml::Value) -> String {
    serde_json::to_string(v).unwrap_or_else(|_| format!("{v:?}"))
}

fn to_yaml(v: &serde_yaml::Value) -> Yaml {
    match v {
        serde_yaml::Value::Null => Yaml::Null,
        serde_yaml::Value::Bool(b) => Yaml::Bool(*b),
        serde_yaml::Value::Number(n) => Yaml::Number(n.to_string()),
        serde_yaml::Value::String(s) => Yaml::Str(s.clone()),
        serde_yaml::Value::Sequence(xs) => Yaml::Sequence(xs.iter().map(to_yaml).collect(), json(v)),
        serde_yaml::Value::Mapping(m) => Yaml::Mapping(
            m.iter().map(|(k, x)| YamlEntry { key: to_yaml(k), value: to_yaml(x) }).collect(),
            json(v),
        ),
        serde_yaml::Value::Tagged(t) => Yaml::Tagged(t.tag.to_string(), Box::new(to_yaml(&t.value)), json(v)),
    }
}

fn parse(text: &str) -> Yaml {
    to_yaml(&serde_yaml::from_str::<serde_yaml::Value>(text).unwrap())
}

fn parse_list(text: &str) -> Result<Vec<Yaml>, String> {
    serde_yaml::from_str::<Vec<serde_yaml::Value>>(text)
        .map(|xs| xs.iter().map(to_yaml).collect())
        .map_err(|e| e.to_string())
}

fn has_quad(quads: &[Quad], s: &str, p: &str, o: &Term) -> bool {
    quads.iter().any(|q| q.subject == s && q.predicate == p && &q.object == o)
}

fn iri(s: &str) -> Term {
    Term::Iri(s.to_string())
}

fn lit(s: &str) -> Term {
    Term::Literal { value: s.to_string(), datatype: None }
}

#[test]
fn test_yaml_inventory() {
    let yaml = r#"
all:
  hosts:
    web01:
      ansible_host: 10.0.0.1
    web02:
      ansible_host: 10.0.0.2
  children:
    webservers:
      hosts:
        web01:
        web02:
    dbservers:
      hosts:
        db01:
          ansible_host: 10.0.1.1
      vars:
        db_port: "5432"
"#;
    let value = parse(yaml);
    let mut data = InventoryData::default();
    parse_yaml_inventory(&value, &mut data).unwrap();

    assert!(data.has_host("web01"));
    assert!(data.has_host("db01"));
    assert_eq!(data.host_var("web01", "ansible_host").unwrap(), "10.0.0.1");
    assert!(data.group_hosts("webservers").unwrap().contains(&"web01".to_string()));
    assert!(data.group_hosts("dbservers").unwrap().contains(&"db01".to_string()));
    assert_eq!(data.group_var("dbservers", "db_port").unwrap(), "5432");
    assert!(data.group_children("all").unwrap().contains(&"webservers".to_string()));
}

#[test]
fn yaml_inventory_errors() {
    let mut data = InventoryData::default();
    let r = parse_yaml_inventory(&parse("- a\n- b\n"), &mut data);
    assert_eq!(r, Err(AnsibleLoadError::Parse("YAML inventory must be a mapping".to_string())));
    let r = parse_yaml_inventory(&parse("first: {}\n1: {}\nlast: {}\n"), &mut data);
    assert_eq!(r, Err(AnsibleLoadError::Parse("Group name must be a string".to_string())));
    assert!(data.has_group("first"));
    assert!(!data.has_group("last"));
}

#[test]
fn yaml_values_as_text() {
    assert_eq!(yaml_value_to_string(&parse("true")), "true");
    assert_eq!(yaml_value_to_string(&parse("~")), "null");
    assert_eq!(yaml_value_to_string(&parse("8080")), "8080");
    assert_eq!(yaml_value_to_string(&parse("[1, 2]")), "[1,2]");
    assert_eq!(yaml_value_to_string(&parse("{a: b}")), "{\"a\":\"b\"}");
}

#[test]
fn inventory_file_picks_its_format() {
    let mut data = InventoryData::default();
    let ini = "[web]\nweb1\n";
    load_inventory_file(ini, &mut data).unwrap();
    assert!(data.group_hosts("web").unwrap().contains(&"web1".to_string()));

    let mut data = InventoryData::default();
    let text = "all:\n  hosts:\n    h1:\n";
    load_inventory_file(text, &mut data).unwrap();
    assert!(data.group_hosts("all").unwrap().contains(&"h1".to_string()));

    let r = load_inventory_file("all: [", &mut InventoryData::default());
    assert!(matches!(r, Err(AnsibleLoadError::Yaml(_))));
    // Text that looks like YAML but is not a mapping.
    let r = load_inventory_file("---\n- a: 1\n", &mut InventoryData::default());
    assert_eq!(r, Err(AnsibleLoadError::Parse("YAML inventory must be a mapping".to_string())));
}

#[test]
fn vars_directories() {
    let mut data = InventoryData::default();
    let sources = vec![
        VarsSource::File("web01".to_string(), YamlFile::Parsed(parse("ntp: time.example.com\n"))),
        VarsSource::Dir(
            "db01".to_string(),
            vec![YamlFile::Parsed(parse("a: 1\n")), YamlFile::Parsed(parse("b: x\n"))],
        ),
    ];
    load_vars_dir(&sources, true, &mut data).unwrap();
    assert_eq!(data.host_var("web01", "ntp").unwrap(), "time.example.com");
    assert_eq!(data.host_var("db01", "a").unwrap(), "1");
    assert_eq!(data.host_var("db01", "b").unwrap(), "x");

    let mut groups = InventoryData::default();
    let sources = vec![
        VarsSource::File("all".to_string(), YamlFile::Parsed(parse("x: y\n"))),
        VarsSource::File("broken".to_string(), YamlFile::Invalid("bad yaml".to_string())),
        VarsSource::File("later".to_string(), YamlFile::Parsed(parse("z: w\n"))),
    ];
    let r = load_vars_dir(&sources, false, &mut groups);
    assert_eq!(r, Err(AnsibleLoadError::Yaml("bad yaml".to_string())));
    assert_eq!(groups.group_var("all", "x").unwrap(), "y");
    assert!(!groups.has_group("later"));
}

#[test]
fn test_inventory_quad_generation() {
    let mut data = InventoryData::default();
    data.add_host_to_group("web01", "webservers");
    data.set_host_var("web01", "ansible_host", "10.0.0.1");
    data.set_group_var("webservers", "http_port", "80");

    let (quads, host_count, group_count, var_count) = inventory_data_to_quads(&data);

    assert_eq!(host_count, 1);
    assert_eq!(group_count, 1);
    assert_eq!(var_count, 2);

    let host_type = format!("{HOST_NS}Host");
    let host_uri = ans_node("host/web01");
    assert!(has_quad(&quads, &host_uri, RDF_TYPE, &iri(&host_type)));
    assert!(has_quad(&quads, &host_uri, &ans_node("ansibleHost"), &lit("10.0.0.1")));
    let group_uri = ans_node("group/webservers");
    assert!(has_quad(&quads, &host_uri, &ans_node("memberOf"), &iri(&group_uri)));
}

#[test]
fn inventory_quads_exact_count_and_iris() {
    let mut data = InventoryData::default();
    data.set_host_var("h 1", "k", "v");
    let (quads, h, g, v) = inventory_data_to_quads(&data);
    assert_eq!((h, g, v), (1, 0, 1));
    // type, hostName, name, then four quads for the variable
    assert_eq!(quads.len(), 7);
    assert_eq!(quads[0].subject, "https://ds-labs.org/ansible#host/h%201");
    assert_eq!(quads[3].subject, "https://ds-labs.org/ansible#var/host/h%201/k");
}

const PLAYBOOK: &str = r#"
---
- name: Configure webservers
  hosts: webservers
  tasks:
    - name: Install nginx
      apt:
        name: nginx
        state: present
    - name: Start nginx
      service:
        name: nginx
        state: started
      notify: restart nginx
  handlers:
    - name: restart nginx
      service:
        name: nginx
        state: restarted
  roles:
    - nginx
    - { role: common, tags: ['common'] }
"#;

#[test]
fn test_playbook_parsing() {
    let result = parse_playbook("site.yml", &parse_list(PLAYBOOK)).unwrap();
    assert_eq!(result.play_count, 1);
    assert_eq!(result.task_count, 2);
    assert!(result.role_refs.contains(&"nginx".to_string()));
    assert!(result.role_refs.contains(&"common".to_string()));

    let playbook_uri = ans_node("playbook/site.yml");
    assert!(has_quad(&result.quads, &playbook_uri, RDF_TYPE, &iri(&ans_node("Playbook"))));
    let module_pred = ans_node("module");
    assert!(result.quads.iter().any(|q| q.predicate == module_pred && q.object == lit("apt")));
    assert!(result.quads.iter().any(|q| q.predicate == module_pred && q.object == lit("service")));
    let handler_type = ans_node("Handler");
    assert!(result.quads.iter().any(|q| q.predicate == RDF_TYPE && q.object == iri(&handler_type)));
}

#[test]
fn playbook_iris_and_errors() {
    let result = parse_playbook("site.yml", &parse_list(PLAYBOOK)).unwrap();
    assert!(has_quad(
        &result.quads,
        &ans_node("play/site.yml/0"),
        &ans_node("targetHosts"),
        &lit("webservers")
    ));
    assert!(has_quad(
        &result.quads,
        &ans_node("play/site.yml/0"),
        &ans_node("hasTask"),
        &iri(&ans_node("task/site.yml/0/1"))
    ));
    assert!(has_quad(
        &result.quads,
        &ans_node("play/site.yml/0"),
        &ans_node("hasHandler"),
        &iri(&ans_node("handler/site.yml/0/restart_nginx"))
    ));
    assert_eq!(result.role_refs, vec!["nginx".to_string(), "common".to_string()]);
    let err = parse_playbook("x.yml", &Err("invalid type".to_string()));
    assert!(matches!(err, Err(AnsibleLoadError::Yaml(m)) if m == "invalid type"));
}

#[test]
fn module_detection_and_slugs() {
    let task = match parse("{name: t, become: true, copy: {src: a}, shell: ls}") {
        Yaml::Mapping(es, _) => es,
        _ => panic!("mapping expected"),
    };
    assert_eq!(detect_module(&task), Some("copy".to_string()));
    let none = match parse("{name: t, when: x}") {
        Yaml::Mapping(es, _) => es,
        _ => panic!("mapping expected"),
    };
    assert_eq!(detect_module(&none), None);
    assert_eq!(slugify("Restart Nginx!"), "restart_nginx_");
    assert_eq!(slugify("a-b_C"), "a-b_c");
}

#[test]
fn test_role_parsing() {
    let tasks = r#"---
- name: Install nginx
  apt:
    name: nginx
- name: Copy config
  template:
    src: nginx.conf.j2
    dest: /etc/nginx/nginx.conf
"#;
    let handlers = r#"---
- name: restart nginx
  service:
    name: nginx
    state: restarted
"#;
    let defaults = "nginx_port: 80\nnginx_user: www-data\n";
    let meta = "dependencies:\n  - common\n  - { role: ssl }\n";
    let files = RoleFiles {
        tasks: vec![DirItem::File("main.yml".to_string(), YamlFile::Parsed(parse(tasks)))],
        handlers: vec![DirItem::File("main.yml".to_string(), YamlFile::Parsed(parse(handlers)))],
        templates: vec![NameItem::Name("nginx.conf.j2".to_string())],
        defaults: Some(YamlFile::Parsed(parse(defaults))),
        meta: Some(YamlFile::Parsed(parse(meta))),
    };
    let result = parse_role("nginx", &files).unwrap();
    assert_eq!(result.task_count, 2);
    assert_eq!(result.handler_count, 1);
    assert_eq!(result.template_count, 1);
    let role = ans_node("role/nginx");
    assert!(has_quad(&result.quads, &role, RDF_TYPE, &iri(&ans_node("Role"))));
    assert!(has_quad(&result.quads, &role, &ans_node("dependsOn"), &iri(&ans_node("role/common"))));
    assert!(has_quad(&result.quads, &role, &ans_node("dependsOn"), &iri(&ans_node("role/ssl"))));
    assert!(has_quad(
        &result.quads,
        &ans_node("var/role/nginx/nginx_port"),
        &ans_node("variableValue"),
        &lit("80")
    ));
    assert!(has_quad(
        &result.quads,
        &ans_node("task/roles/nginx/tasks/main.yml/1"),
        &ans_node("module"),
        &lit("template")
    ));
}

#[test]
fn role_errors_come_in_order() {
    let files = RoleFiles {
        tasks: vec![DirItem::File("main.yml".to_string(), YamlFile::Parsed(parse("a: b\n")))],
        handlers: vec![DirItem::Failed("denied".to_string())],
        templates: vec![],
        defaults: None,
        meta: None,
    };
    assert!(matches!(parse_role("r", &files), Err(AnsibleLoadError::Parse(m)) if m == "Task file must be a YAML list"));
    let files = RoleFiles {
        tasks: vec![],
        handlers: vec![DirItem::Failed("denied".to_string())],
        templates: vec![],
        defaults: Some(YamlFile::Invalid("bad".to_string())),
        meta: None,
    };
    assert!(matches!(parse_role("r", &files), Err(AnsibleLoadError::Io(m)) if m == "denied"));
}

#[test]
fn project_adds_role_stubs_once() {
    let mut load = ProjectLoad::new();
    assert!(is_playbook_candidate("site.yml"));
    assert!(!is_playbook_candidate(".hidden.yml"));
    assert!(!is_playbook_candidate("requirements.yml"));
    assert!(load.add_playbook_text("site.yml", PLAYBOOK));
    assert!(!load.add_playbook_text("vars.yml", "a: b\n"));
    assert!(!load.add_playbook_text("broken.yml", "- [\n"));
    assert!(!load.add_playbook("vars.yml", "a: b\n", &parse_list("a: b\n")));
    let role = RoleFiles { tasks: vec![], handlers: vec![], templates: vec![], defaults: None, meta: None };
    load.add_role(parse_role("nginx", &role).unwrap());
    let result = load.finish();
    assert_eq!(result.playbook_count, 1);
    assert_eq!(result.play_count, 1);
    assert_eq!(result.task_count, 2);
    // nginx was read; common gets a stub
    assert_eq!(result.role_count, 2);
    let role_type = iri(&ans_node("Role"));
    let nginx_types = result
        .quads
        .iter()
        .filter(|q| q.subject == ans_node("role/nginx") && q.predicate == RDF_TYPE && q.object == role_type)
        .count();
    assert_eq!(nginx_types, 1);
    assert!(has_quad(&result.quads, &ans_node("role/common"), RDF_TYPE, &role_type));
    assert!(has_quad(&result.quads, &ans_node("role/common"), &ans_node("name"), &lit("common")));
}

#[test]
fn yaml_text_read_as_a_file() {
    match read_yaml_text("a: 1\n") {
        YamlFile::Parsed(v) => assert_eq!(yaml_value_to_string(&v), "{\"a\":1}"),
        _ => panic!("expected a parsed document"),
    }
    assert!(matches!(read_yaml_text("a: [\n"), YamlFile::Invalid(m) if !m.is_empty()));
}
