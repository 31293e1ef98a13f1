//! Ansible inventories as RDF: the vocabulary, and the quads that describe
//! hosts, groups and their variables.
use vstd::prelude::*;
use vstd::string::StringExecFns;

use crate::inventory::{GroupModel, InventoryData, InventoryModel, VarsModel};
use crate::rdf::{
    lit, q, q_link, q_type, quads_model, sanitize_iri_local, spec_sanitize, string_literal,
    GraphName, Quad, QuadModel, Term, TermModel,
};
use crate::text::{clone_string, push_str, to_owned_string};
use crate::yaml::{parse_yaml, yaml_doc, Yaml};

verus! {

broadcast use vstd::string::group_string_axioms;

/// Why loading Ansible content failed.
#[derive(Debug, Clone, PartialEq, Eq)]
pub enum AnsibleLoadError {
    /// A file or directory could not be read.
    Io(String),
    /// A file is not valid YAML.
    Yaml(String),
    /// A file is valid YAML but not shaped as Ansible expects.
    Parse(String),
}

/// The model of a load error: its kind and message.
pub enum ErrorModel {
    Io(Seq<char>),
    Yaml(Seq<char>),
    Parse(Seq<char>),
}

impl View for AnsibleLoadError {
    type V = ErrorModel;

    open spec fn view(&self) -> ErrorModel {
        match self {
            AnsibleLoadError::Io(m) => ErrorModel::Io(m@),
            AnsibleLoadError::Yaml(m) => ErrorModel::Yaml(m@),
            AnsibleLoadError::Parse(m) => ErrorModel::Parse(m@),
        }
    }
}

/// The contents of a YAML file as read: its document, the YAML parser's
/// message, or the message of the failed read.
pub enum YamlFile {
    Parsed(Yaml),
    Invalid(String),
    Unreadable(String),
}

/// A file's text read as YAML: its document, or the parser's message.
pub fn read_yaml_text(content: &str) -> (r: YamlFile)
    ensures
        match yaml_doc(content@) {
            Ok(v) => r == YamlFile::Parsed(v),
            Err(m) => r matches YamlFile::Invalid(s) && s@ == m,
        },
{
    match parse_yaml(content) {
        Ok(v) => YamlFile::Parsed(v),
        Err(m) => YamlFile::Invalid(m),
    }
}

/// The error a file gives, if it gives one.
pub open spec fn file_error(f: YamlFile) -> Option<ErrorModel> {
    match f {
        YamlFile::Parsed(_) => None,
        YamlFile::Invalid(m) => Some(ErrorModel::Yaml(m@)),
        YamlFile::Unreadable(m) => Some(ErrorModel::Io(m@)),
    }
}

/// The error of a file that gives one.
pub fn file_error_of(f: &YamlFile) -> (r: AnsibleLoadError)
    requires
        file_error(*f) is Some,
    ensures
        file_error(*f) == Some(r@),
{
    match f {
        YamlFile::Parsed(_) => AnsibleLoadError::Parse(String::new()),
        YamlFile::Invalid(m) => AnsibleLoadError::Yaml(clone_string(m)),
        YamlFile::Unreadable(m) => AnsibleLoadError::Io(clone_string(m)),
    }
}

/// The namespace of Ansible terms.
pub open spec fn ans_ns() -> Seq<char> {
    "https://ds-labs.org/ansible#"@
}

/// The namespace of host terms.
pub open spec fn host_ns() -> Seq<char> {
    "http://www.invincea.com/ontologies/icas/1.0/host#"@
}

/// The IRI of an Ansible term.
pub open spec fn ans(local: Seq<char>) -> Seq<char> {
    ans_ns() + spec_sanitize(local)
}

/// The IRI of a host term.
pub open spec fn host_term(local: Seq<char>) -> Seq<char> {
    host_ns() + spec_sanitize(local)
}

/// The IRI of an Ansible term: the namespace and the sanitized local name.
pub fn ans_node(local: &str) -> (r: String)
    ensures
        r@ == ans(local@),
{
    let mut out = to_owned_string("https://ds-labs.org/ansible#");
    let s = sanitize_iri_local(local);
    out.append(s.as_str());
    out
}

/// The IRI of a host term.
fn host_node(local: &str) -> (r: String)
    ensures
        r@ == host_term(local@),
{
    let mut out = to_owned_string("http://www.invincea.com/ontologies/icas/1.0/host#");
    let s = sanitize_iri_local(local);
    out.append(s.as_str());
    out
}

/// A quad of the default graph.
pub fn plain_quad(subject: &String, predicate: &String, object: Term) -> (r: Quad)
    ensures
        r@ == q(subject@, predicate@, object@),
{
    Quad {
        subject: clone_string(subject),
        predicate: clone_string(predicate),
        object,
        graph: GraphName::DefaultGraph,
    }
}

/// A quad of the default graph linking two named nodes.
pub fn link_quad(subject: &String, predicate: &String, object: &String) -> (r: Quad)
    ensures
        r@ == q_link(subject@, predicate@, object@),
{
    plain_quad(subject, predicate, Term::Iri(clone_string(object)))
}

/// A quad of the default graph giving the class of a named node.
pub fn type_quad(subject: &String, class: &String) -> (r: Quad)
    ensures
        r@ == q_type(subject@, class@),
{
    let p = crate::rdf::rdf_type();
    plain_quad(subject, &p, Term::Iri(clone_string(class)))
}

/// A quad of the default graph with a simple literal object.
pub fn literal_quad(subject: &String, predicate: &String, value: &str) -> (r: Quad)
    ensures
        r@ == q(subject@, predicate@, lit(value@)),
{
    plain_quad(subject, predicate, string_literal(value))
}

/// `a` followed by `b`.
pub fn concat(a: &str, b: &str) -> (r: String)
    ensures
        r@ == a@ + b@,
{
    let mut out = to_owned_string(a);
    out.append(b);
    out
}

/// The quads describing one variable of the entity `owner`, named by `local`.
pub open spec fn var_quads(owner: Seq<char>, local: Seq<char>, k: Seq<char>, v: Seq<char>) -> Seq<QuadModel> {
    let var_uri = ans(local);
    seq![
        q_type(var_uri, ans("Variable"@)),
        q(var_uri, ans("variableName"@), lit(k)),
        q(var_uri, ans("variableValue"@), lit(v)),
        q_link(owner, ans("hasVariable"@), var_uri),
    ]
}

/// The IRI of host `h`.
pub open spec fn host_uri(h: Seq<char>) -> Seq<char> {
    ans("host/"@ + h)
}

/// The IRI of group `g`.
pub open spec fn group_uri(g: Seq<char>) -> Seq<char> {
    ans("group/"@ + g)
}

/// The quads of the variables of host `h`; `ansible_host` also gives the
/// host's address.
pub open spec fn host_var_quads(h: Seq<char>, vars: VarsModel) -> Seq<QuadModel>
    decreases vars.len(),
{
    if vars.len() == 0 {
        Seq::empty()
    } else {
        let (k, v) = vars.last();
        let addr = if k == "ansible_host"@ {
            seq![q(host_uri(h), ans("ansibleHost"@), lit(v))]
        } else {
            Seq::empty()
        };
        host_var_quads(h, vars.drop_last()) + addr + var_quads(
            host_uri(h),
            "var/host/"@ + h + "/"@ + k,
            k,
            v,
        )
    }
}

/// The quads of host `h`.
pub open spec fn host_quads(h: Seq<char>, vars: VarsModel) -> Seq<QuadModel> {
    let u = host_uri(h);
    seq![
        q_type(u, host_term("Host"@)),
        q(u, host_term("hostName"@), lit(h)),
        q(u, ans("name"@), lit(h)),
    ] + host_var_quads(h, vars)
}

/// The quads of all hosts, in order.
pub open spec fn hosts_quads(hosts: Seq<(Seq<char>, VarsModel)>) -> Seq<QuadModel>
    decreases hosts.len(),
{
    if hosts.len() == 0 {
        Seq::empty()
    } else {
        hosts_quads(hosts.drop_last()) + host_quads(hosts.last().0, hosts.last().1)
    }
}

/// The membership quads of group `g`, both ways.
pub open spec fn member_quads(g: Seq<char>, hosts: Seq<Seq<char>>) -> Seq<QuadModel>
    decreases hosts.len(),
{
    if hosts.len() == 0 {
        Seq::empty()
    } else {
        let h = hosts.last();
        member_quads(g, hosts.drop_last()) + seq![
            q_link(group_uri(g), ans("hasHost"@), host_uri(h)),
            q_link(host_uri(h), ans("memberOf"@), group_uri(g)),
        ]
    }
}

/// The child-group quads of group `g`.
pub open spec fn child_quads(g: Seq<char>, children: Seq<Seq<char>>) -> Seq<QuadModel>
    decreases children.len(),
{
    if children.len() == 0 {
        Seq::empty()
    } else {
        child_quads(g, children.drop_last()) + seq![
            q_link(group_uri(g), ans("childGroup"@), group_uri(children.last())),
        ]
    }
}

/// The quads of the variables of group `g`.
pub open spec fn group_var_quads(g: Seq<char>, vars: VarsModel) -> Seq<QuadModel>
    decreases vars.len(),
{
    if vars.len() == 0 {
        Seq::empty()
    } else {
        let (k, v) = vars.last();
        group_var_quads(g, vars.drop_last()) + var_quads(group_uri(g), "var/group/"@ + g + "/"@ + k, k, v)
    }
}

/// The quads of group `g`.
pub open spec fn group_quads(g: Seq<char>, gm: GroupModel) -> Seq<QuadModel> {
    seq![q_type(group_uri(g), ans("HostGroup"@)), q(group_uri(g), ans("name"@), lit(g))]
        + member_quads(g, gm.hosts) + child_quads(g, gm.children) + group_var_quads(g, gm.vars)
}

/// The quads of all groups, in order.
pub open spec fn groups_quads(groups: Seq<(Seq<char>, GroupModel)>) -> Seq<QuadModel>
    decreases groups.len(),
{
    if groups.len() == 0 {
        Seq::empty()
    } else {
        groups_quads(groups.drop_last()) + group_quads(groups.last().0, groups.last().1)
    }
}

/// The quads describing an inventory: its hosts, then its groups.
pub open spec fn inventory_quads(m: InventoryModel) -> Seq<QuadModel> {
    hosts_quads(m.hosts) + groups_quads(m.groups)
}

/// The number of host variables.
pub open spec fn host_var_total(hosts: Seq<(Seq<char>, VarsModel)>) -> int
    decreases hosts.len(),
{
    if hosts.len() == 0 {
        0
    } else {
        host_var_total(hosts.drop_last()) + hosts.last().1.len()
    }
}

/// The number of group variables.
pub open spec fn group_var_total(groups: Seq<(Seq<char>, GroupModel)>) -> int
    decreases groups.len(),
{
    if groups.len() == 0 {
        0
    } else {
        group_var_total(groups.drop_last()) + groups.last().1.vars.len()
    }
}

/// The number of variables of an inventory.
pub open spec fn var_total(m: InventoryModel) -> int {
    host_var_total(m.hosts) + group_var_total(m.groups)
}

/// The totals are never negative.
pub proof fn lemma_totals_nonneg(m: InventoryModel)
    ensures
        host_var_total(m.hosts) >= 0,
        group_var_total(m.groups) >= 0,
{
    lemma_host_var_total_nonneg(m.hosts);
    lemma_group_var_total_nonneg(m.groups);
}

proof fn lemma_host_var_total_nonneg(hosts: Seq<(Seq<char>, VarsModel)>)
    ensures
        host_var_total(hosts) >= 0,
    decreases hosts.len(),
{
    if hosts.len() > 0 {
        lemma_host_var_total_nonneg(hosts.drop_last());
    }
}

proof fn lemma_group_var_total_nonneg(groups: Seq<(Seq<char>, GroupModel)>)
    ensures
        group_var_total(groups) >= 0,
    decreases groups.len(),
{
    if groups.len() > 0 {
        lemma_group_var_total_nonneg(groups.drop_last());
    }
}

/// Appends the quads of one variable.
fn emit_var(out: &mut Vec<Quad>, owner: &String, local: &str, k: &str, v: &str)
    ensures
        quads_model(final(out)@) == quads_model(old(out)@) + var_quads(owner@, local@, k@, v@),
{
    let var_uri = ans_node(local);
    let ghost start = quads_model(out@);
    crate::rdf::emit(out, type_quad(&var_uri, &ans_node("Variable")));
    crate::rdf::emit(out, literal_quad(&var_uri, &ans_node("variableName"), k));
    crate::rdf::emit(out, literal_quad(&var_uri, &ans_node("variableValue"), v));
    crate::rdf::emit(out, link_quad(owner, &ans_node("hasVariable"), &var_uri));
    assert(quads_model(out@) =~= start + var_quads(owner@, local@, k@, v@));
}

/// `a`, `b`, `"/"` and `c` joined.
fn path3(a: &str, b: &str, c: &str) -> (r: String)
    ensures
        r@ == a@ + b@ + "/"@ + c@,
{
    let mut out = to_owned_string(a);
    out.append(b);
    out.append("/");
    out.append(c);
    out
}

/// Appends the quads of host `h`.
fn emit_host(out: &mut Vec<Quad>, h: &String, vars: &Vec<(String, String)>)
    ensures
        quads_model(final(out)@) == quads_model(old(out)@)
            + host_quads(h@, crate::inventory::vars_model(vars@)),
{
    let ghost start = quads_model(out@);
    let ghost vm = crate::inventory::vars_model(vars@);
    let u = ans_node(concat("host/", h.as_str()).as_str());
    crate::rdf::emit(out, type_quad(&u, &host_node("Host")));
    crate::rdf::emit(out, literal_quad(&u, &host_node("hostName"), h.as_str()));
    crate::rdf::emit(out, literal_quad(&u, &ans_node("name"), h.as_str()));
    let ghost head = quads_model(out@);
    assert(head =~= start + seq![
        q_type(host_uri(h@), host_term("Host"@)),
        q(host_uri(h@), host_term("hostName"@), lit(h@)),
        q(host_uri(h@), ans("name"@), lit(h@)),
    ]);
    let mut i: usize = 0;
    while i < vars.len()
        invariant
            0 <= i <= vars@.len(),
            vm == crate::inventory::vars_model(vars@),
            u@ == host_uri(h@),
            quads_model(out@) == head + host_var_quads(h@, vm.take(i as int)),
        decreases vars.len() - i,
    {
        assert(vm.take(i + 1).drop_last() =~= vm.take(i as int));
        let ghost before = quads_model(out@);
        let k = &vars[i].0;
        let v = &vars[i].1;
        if crate::text::str_eq(k.as_str(), "ansible_host") {
            crate::rdf::emit(out, literal_quad(&u, &ans_node("ansibleHost"), v.as_str()));
        }
        let local = path3("var/host/", h.as_str(), k.as_str());
        emit_var(out, &u, local.as_str(), k.as_str(), v.as_str());
        proof {
            let addr = if k@ == "ansible_host"@ {
                seq![q(host_uri(h@), ans("ansibleHost"@), lit(v@))]
            } else {
                Seq::empty()
            };
            assert(quads_model(out@) =~= before + addr + var_quads(u@, local@, k@, v@));
        }
        i += 1;
    }
    assert(vm.take(vm.len() as int) =~= vm);
    assert(quads_model(out@) =~= start + host_quads(h@, vm));
}

/// Appends the quads of group `g`.
fn emit_group(out: &mut Vec<Quad>, g: &String, gd: &crate::inventory::GroupData)
    ensures
        quads_model(final(out)@) == quads_model(old(out)@)
            + group_quads(g@, crate::inventory::group_model(*gd)),
{
    let ghost start = quads_model(out@);
    let ghost gm = crate::inventory::group_model(*gd);
    let gu = ans_node(concat("group/", g.as_str()).as_str());
    crate::rdf::emit(out, type_quad(&gu, &ans_node("HostGroup")));
    crate::rdf::emit(out, literal_quad(&gu, &ans_node("name"), g.as_str()));
    let ghost head = quads_model(out@);
    let has_host = ans_node("hasHost");
    let member_of = ans_node("memberOf");
    let mut i: usize = 0;
    while i < gd.hosts.len()
        invariant
            0 <= i <= gd.hosts@.len(),
            gm == crate::inventory::group_model(*gd),
            gu@ == group_uri(g@),
            has_host@ == ans("hasHost"@),
            member_of@ == ans("memberOf"@),
            quads_model(out@) == head + member_quads(g@, gm.hosts.take(i as int)),
        decreases gd.hosts.len() - i,
    {
        assert(gm.hosts.take(i + 1).drop_last() =~= gm.hosts.take(i as int));
        let hu = ans_node(concat("host/", gd.hosts[i].as_str()).as_str());
        crate::rdf::emit(out, link_quad(&gu, &has_host, &hu));
        crate::rdf::emit(out, link_quad(&hu, &member_of, &gu));
        i += 1;
    }
    assert(gm.hosts.take(gm.hosts.len() as int) =~= gm.hosts);
    let ghost mid = quads_model(out@);
    let child_group = ans_node("childGroup");
    let mut j: usize = 0;
    while j < gd.children.len()
        invariant
            0 <= j <= gd.children@.len(),
            gm == crate::inventory::group_model(*gd),
            gu@ == group_uri(g@),
            child_group@ == ans("childGroup"@),
            quads_model(out@) == mid + child_quads(g@, gm.children.take(j as int)),
        decreases gd.children.len() - j,
    {
        assert(gm.children.take(j + 1).drop_last() =~= gm.children.take(j as int));
        let cu = ans_node(concat("group/", gd.children[j].as_str()).as_str());
        crate::rdf::emit(out, link_quad(&gu, &child_group, &cu));
        j += 1;
    }
    assert(gm.children.take(gm.children.len() as int) =~= gm.children);
    let ghost late = quads_model(out@);
    let mut k: usize = 0;
    while k < gd.vars.len()
        invariant
            0 <= k <= gd.vars@.len(),
            gm == crate::inventory::group_model(*gd),
            gu@ == group_uri(g@),
            quads_model(out@) == late + group_var_quads(g@, gm.vars.take(k as int)),
        decreases gd.vars.len() - k,
    {
        assert(gm.vars.take(k + 1).drop_last() =~= gm.vars.take(k as int));
        let key = &gd.vars[k].0;
        let local = path3("var/group/", g.as_str(), key.as_str());
        emit_var(out, &gu, local.as_str(), key.as_str(), gd.vars[k].1.as_str());
        k += 1;
    }
    assert(gm.vars.take(gm.vars.len() as int) =~= gm.vars);
    assert(quads_model(out@) =~= start + group_quads(g@, gm));
}

/// The quads describing an inventory, with the numbers of hosts, groups and
/// variables described.
pub fn inventory_data_to_quads(data: &InventoryData) -> (r: (Vec<Quad>, u32, u32, u32))
    requires
        data@.hosts.len() <= u32::MAX,
        data@.groups.len() <= u32::MAX,
        var_total(data@) <= u32::MAX,
    ensures
        quads_model(r.0@) == inventory_quads(data@),
        r.1 == data@.hosts.len(),
        r.2 == data@.groups.len(),
        r.3 == var_total(data@),
{
    let ghost m = data@;
    let mut quads: Vec<Quad> = Vec::new();
    let mut host_count: u32 = 0;
    let mut group_count: u32 = 0;
    let mut var_count: u32 = 0;
    proof {
        lemma_totals_nonneg(m);
    }
    let mut i: usize = 0;
    while i < data.hosts.len()
        invariant
            0 <= i <= m.hosts.len(),
            m == data@,
            m.hosts.len() <= u32::MAX,
            var_total(m) <= u32::MAX,
            group_var_total(m.groups) >= 0,
            quads_model(quads@) == hosts_quads(m.hosts.take(i as int)),
            host_count == i,
            var_count == host_var_total(m.hosts.take(i as int)),
        decreases data.hosts.len() - i,
    {
        assert(m.hosts.take(i + 1).drop_last() =~= m.hosts.take(i as int));
        proof {
            lemma_host_var_total_prefix(m.hosts, i as int + 1);
        }
        emit_host(&mut quads, &data.hosts[i].0, &data.hosts[i].1.vars);
        host_count = host_count + 1;
        var_count = var_count + data.hosts[i].1.vars.len() as u32;
        i += 1;
    }
    assert(m.hosts.take(m.hosts.len() as int) =~= m.hosts);
    let mut j: usize = 0;
    while j < data.groups.len()
        invariant
            0 <= j <= m.groups.len(),
            m == data@,
            m.groups.len() <= u32::MAX,
            var_total(m) <= u32::MAX,
            quads_model(quads@) == hosts_quads(m.hosts) + groups_quads(m.groups.take(j as int)),
            host_count == m.hosts.len(),
            group_count == j,
            var_count == host_var_total(m.hosts) + group_var_total(m.groups.take(j as int)),
        decreases data.groups.len() - j,
    {
        assert(m.groups.take(j + 1).drop_last() =~= m.groups.take(j as int));
        proof {
            lemma_group_var_total_prefix(m.groups, j as int + 1);
        }
        let ghost before = quads_model(quads@);
        emit_group(&mut quads, &data.groups[j].0, &data.groups[j].1);
        assert(quads_model(quads@) =~= hosts_quads(m.hosts) + groups_quads(m.groups.take(j + 1)));
        group_count = group_count + 1;
        var_count = var_count + data.groups[j].1.vars.len() as u32;
        j += 1;
    }
    assert(m.groups.take(m.groups.len() as int) =~= m.groups);
    (quads, host_count, group_count, var_count)
}

/// A prefix never has more host variables than the whole.
proof fn lemma_host_var_total_prefix(hosts: Seq<(Seq<char>, VarsModel)>, n: int)
    requires
        0 <= n <= hosts.len(),
    ensures
        host_var_total(hosts.take(n)) <= host_var_total(hosts),
    decreases hosts.len(),
{
    if n < hosts.len() {
        assert(hosts.drop_last().take(n) =~= hosts.take(n));
        lemma_host_var_total_prefix(hosts.drop_last(), n);
    } else {
        assert(hosts.take(n) =~= hosts);
    }
}

/// A prefix never has more group variables than the whole.
proof fn lemma_group_var_total_prefix(groups: Seq<(Seq<char>, GroupModel)>, n: int)
    requires
        0 <= n <= groups.len(),
    ensures
        group_var_total(groups.take(n)) <= group_var_total(groups),
    decreases groups.len(),
{
    if n < groups.len() {
        assert(groups.drop_last().take(n) =~= groups.take(n));
        lemma_group_var_total_prefix(groups.drop_last(), n);
    } else {
        assert(groups.take(n) =~= groups);
    }
}

} // verus!
