use semantic_code::host_pattern::expand_host_pattern;
use semantic_code::ini_inventory::{is_yaml_content, parse_ini_inventory};
use semantic_code::inventory::InventoryData;

// --- Range expansion tests ---

#[test]
fn test_expand_numeric_range() {
    let result = expand_host_pattern("web[01:03]");
    assert_eq!(result, vec!["web01", "web02", "web03"]);
}

#[test]
fn test_expand_no_range() {
    let result = expand_host_pattern("web01");
    assert_eq!(result, vec!["web01"]);
}

#[test]
fn test_expand_alpha_range() {
    let result = expand_host_pattern("db-[a:c]");
    assert_eq!(result, vec!["db-a", "db-b", "db-c"]);
}

#[test]
fn test_expand_with_suffix() {
    let result = expand_host_pattern("web[1:3].example.com");
    assert_eq!(result, vec!["web1.example.com", "web2.example.com", "web3.example.com"]);
}

#[test]
fn expand_two_ranges_and_odd_patterns() {
    assert_eq!(expand_host_pattern("h[1:2]-[a:b]"), vec!["h1-a", "h1-b", "h2-a", "h2-b"]);
    assert_eq!(expand_host_pattern("h[2:1]"), Vec::<String>::new());
    assert_eq!(expand_host_pattern("h[1:x]"), vec!["h[1:x]"]);
    assert_eq!(expand_host_pattern("h[12]"), vec!["h[12]"]);
    assert_eq!(expand_host_pattern("h[1:2"), vec!["h[1:2"]);
    assert_eq!(expand_host_pattern("n[8:10]"), vec!["n8", "n9", "n10"]);
    assert_eq!(expand_host_pattern("n[+1:2]"), vec!["n01", "n02"]);
}

// --- INI parser tests ---

#[test]
fn test_ini_basic_groups() {
    let ini = r#"
[webservers]
web01 ansible_host=10.0.0.1
web02 ansible_host=10.0.0.2

[dbservers]
db01

[all:children]
webservers
dbservers

[webservers:vars]
http_port=80
"#;
    let mut data = InventoryData::default();
    parse_ini_inventory(ini, &mut data);

    assert!(data.has_host("web01"));
    assert!(data.has_host("web02"));
    assert!(data.has_host("db01"));
    assert_eq!(data.host_var("web01", "ansible_host").unwrap(), "10.0.0.1");
    assert!(data.group_hosts("webservers").unwrap().contains(&"web01".into()));
    assert!(data.group_hosts("webservers").unwrap().contains(&"web02".into()));
    assert!(data.group_hosts("dbservers").unwrap().contains(&"db01".into()));
    assert!(data.group_children("all").unwrap().contains(&"webservers".into()));
    assert!(data.group_children("all").unwrap().contains(&"dbservers".into()));
    assert_eq!(data.group_var("webservers", "http_port").unwrap(), "80");
}

#[test]
fn test_ini_range_expansion() {
    let ini = "[web]\nweb[01:03]\n";
    let mut data = InventoryData::default();
    parse_ini_inventory(ini, &mut data);

    assert!(data.has_host("web01"));
    assert!(data.has_host("web02"));
    assert!(data.has_host("web03"));
    assert_eq!(data.group_hosts("web").unwrap().len(), 3);
}

#[test]
fn ini_comments_ungrouped_hosts_and_crlf() {
    let ini = "# comment\r\n; another\r\nsolo x=1 y\r\n[g:other]\r\nh1\r\n[g:vars]\r\n a = b \r\nnoequals\r\n";
    let mut data = InventoryData::default();
    parse_ini_inventory(ini, &mut data);
    assert!(data.has_host("solo"));
    assert_eq!(data.host_var("solo", "x").unwrap(), "1");
    assert_eq!(data.host_var("solo", "y"), None);
    // An unknown qualifier makes the whole bracket text the group name.
    assert!(data.has_group("g:other"));
    assert_eq!(data.group_hosts("g:other").unwrap(), vec!["h1".to_string()]);
    assert_eq!(data.group_var("g", "a").unwrap(), "b");
    assert!(!data.has_group("noequals"));
}

#[test]
fn inventory_updates_replace_and_dedupe() {
    let mut data = InventoryData::default();
    data.set_host_var("h", "k", "1");
    data.set_host_var("h", "k", "2");
    data.add_host_to_group("h", "g");
    data.add_host_to_group("h", "g");
    data.add_child_group("p", "g");
    data.add_child_group("p", "g");
    assert_eq!(data.host_var("h", "k").unwrap(), "2");
    assert_eq!(data.group_hosts("g").unwrap(), vec!["h".to_string()]);
    assert_eq!(data.group_children("p").unwrap(), vec!["g".to_string()]);
    assert_eq!(data.hosts.len(), 1);
    assert_eq!(data.groups.len(), 2);
}

#[test]
fn yaml_content_detection() {
    assert!(is_yaml_content("---\nall:\n"));
    assert!(is_yaml_content("  all:\n  hosts:"));
    assert!(is_yaml_content("ungrouped:"));
    assert!(is_yaml_content("web:\n  hosts:"));
    assert!(!is_yaml_content("[web]\nhost ansible_port=22"));
    assert!(!is_yaml_content("host1\nhost2\n"));
    assert!(!is_yaml_content("[g:vars]\na=b"));
}

#[test]
fn comment_and_blank_lines_change_nothing() {
    let plain = "[web]\nweb1\nweb2\n[db]\ndb1 port=5432\n";
    let noisy = "# inventory\n\n[web]\n; first\nweb1\n\n   \nweb2\n# databases\n[db]\ndb1 port=5432\n\n";
    let mut a = InventoryData::default();
    let mut b = InventoryData::default();
    parse_ini_inventory(plain, &mut a);
    parse_ini_inventory(noisy, &mut b);
    assert_eq!(semantic_code::ansible::inventory_data_to_quads(&a).0, semantic_code::ansible::inventory_data_to_quads(&b).0);
}
