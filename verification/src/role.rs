//! Ansible roles as RDF: a role's tasks, handlers, templates, default
//! variables and the roles it depends on.
use vstd::prelude::*;
use vstd::string::StringExecFns;

use crate::ansible::{
    ans, ans_node, concat, file_error, file_error_of, link_quad, literal_quad, type_quad,
    AnsibleLoadError, ErrorModel, YamlFile,
};
use crate::decimal::dec;
use crate::playbook::{
    detect_module, handler_name, module_quads, name_quads, slugify, spec_slugify, used_role,
};
use crate::rdf::{emit, lit, push_decimal_u64, q, q_link, q_type, quads_model, Quad, QuadModel};
use crate::text::{clone_string, to_owned_string};
use crate::yaml::{
    as_mapping, as_sequence, as_str, entries_of, get, items_of, spec_get, str_of, yaml_text,
    yaml_value_to_string, Yaml, YamlEntry,
};

verus! {

broadcast use vstd::string::group_string_axioms;

/// An entry of a role directory as read: a YAML file with its name, or a
/// failure to go on listing the directory.
pub enum DirItem {
    File(String, YamlFile),
    Failed(String),
}

/// An entry of a role's `templates` directory: a file name, or a failure to
/// go on listing the directory.
pub enum NameItem {
    Name(String),
    Failed(String),
}

/// The files of a role, as read from its directory.
pub struct RoleFiles {
    /// The YAML files of `tasks/`, in directory order.
    pub tasks: Vec<DirItem>,
    /// The YAML files of `handlers/`, in directory order.
    pub handlers: Vec<DirItem>,
    /// The files of `templates/`, in directory order.
    pub templates: Vec<NameItem>,
    /// `defaults/main.yml`, when it is a file.
    pub defaults: Option<YamlFile>,
    /// `meta/main.yml`, when it is a file.
    pub meta: Option<YamlFile>,
}

/// A role read: its quads and how many tasks, handlers and templates it has.
pub struct RoleParseResult {
    pub quads: Vec<Quad>,
    pub task_count: u32,
    pub handler_count: u32,
    pub template_count: u32,
}

/// The mappings among the items, in order.
pub open spec fn mappings_of(xs: Seq<Yaml>) -> Seq<Seq<YamlEntry>>
    decreases xs.len(),
{
    if xs.len() == 0 {
        Seq::empty()
    } else {
        let a = mappings_of(xs.drop_last());
        match xs.last() {
            Yaml::Mapping(es, _) => a.push(es@),
            _ => a,
        }
    }
}

/// The entries of a task list: the mappings of a sequence, nothing for an
/// empty document, and no list at all for anything else.
pub open spec fn task_list(v: Yaml) -> Option<Seq<Seq<YamlEntry>>> {
    match v {
        Yaml::Sequence(xs, _) => Some(mappings_of(xs@)),
        Yaml::Null => Some(Seq::empty()),
        _ => None,
    }
}

/// The mappings of a task file.
pub fn parse_yaml_task_list(v: &Yaml) -> (r: Result<Vec<&Vec<YamlEntry>>, AnsibleLoadError>)
    ensures
        match task_list(*v) {
            Some(ts) => r matches Ok(l) && l@.len() == ts.len() && forall|i: int| 0 <= i < ts.len() ==> (#[trigger] l@[i])@ == ts[i],
            None => r matches Err(AnsibleLoadError::Parse(m)) && m@ == "Task file must be a YAML list"@,
        },
{
    match v {
        Yaml::Sequence(xs, _) => {
            let mut out: Vec<&Vec<YamlEntry>> = Vec::new();
            let mut i: usize = 0;
            while i < xs.len()
                invariant
                    0 <= i <= xs@.len(),
                    out@.len() == mappings_of(xs@.take(i as int)).len(),
                    forall|j: int| 0 <= j < out@.len() ==> (#[trigger] out@[j])@ == mappings_of(xs@.take(i as int))[j],
                decreases xs.len() - i,
            {
                assert(xs@.take(i + 1).drop_last() =~= xs@.take(i as int));
                match &xs[i] {
                    Yaml::Mapping(es, _) => out.push(es),
                    _ => {},
                }
                i += 1;
            }
            assert(xs@.take(xs@.len() as int) =~= xs@);
            Ok(out)
        },
        Yaml::Null => Ok(Vec::new()),
        _ => Err(AnsibleLoadError::Parse(to_owned_string("Task file must be a YAML list"))),
    }
}

/// The first error of a list of items, each given by `f`.
pub open spec fn first_error<T>(xs: Seq<T>, f: spec_fn(T) -> Option<ErrorModel>) -> Option<ErrorModel>
    decreases xs.len(),
{
    if xs.len() == 0 {
        None
    } else {
        let e = first_error(xs.drop_last(), f);
        if e is Some {
            e
        } else {
            f(xs.last())
        }
    }
}

/// Once an item gives an error, the later ones do not matter.
pub proof fn lemma_first_error_stop<T>(xs: Seq<T>, f: spec_fn(T) -> Option<ErrorModel>, k: int)
    requires
        0 <= k <= xs.len(),
        first_error(xs.take(k), f) is Some,
    ensures
        first_error(xs, f) == first_error(xs.take(k), f),
    decreases xs.len(),
{
    if k == xs.len() {
        assert(xs.take(k) =~= xs);
    } else {
        assert(xs.drop_last().take(k) =~= xs.take(k));
        lemma_first_error_stop(xs.drop_last(), f, k);
    }
}

/// The error a task or handler file gives: it cannot be read, is not YAML,
/// or is not a list.
pub open spec fn task_file_error(item: DirItem) -> Option<ErrorModel> {
    match item {
        DirItem::Failed(e) => Some(ErrorModel::Io(e@)),
        DirItem::File(_, YamlFile::Parsed(v)) => if task_list(v) is Some {
            None
        } else {
            Some(ErrorModel::Parse("Task file must be a YAML list"@))
        },
        DirItem::File(_, f) => file_error(f),
    }
}

/// The error a template entry gives.
pub open spec fn template_error(item: NameItem) -> Option<ErrorModel> {
    match item {
        NameItem::Name(_) => None,
        NameItem::Failed(e) => Some(ErrorModel::Io(e@)),
    }
}

/// The error an optional file gives.
pub open spec fn opt_file_error(f: Option<YamlFile>) -> Option<ErrorModel> {
    match f {
        Some(y) => file_error(y),
        None => None,
    }
}

/// The first error reading a role gives, in the order tasks, handlers,
/// templates, defaults, meta.
pub open spec fn role_error(files: RoleFiles) -> Option<ErrorModel> {
    let e1 = first_error(files.tasks@, |i: DirItem| task_file_error(i));
    let e2 = first_error(files.handlers@, |i: DirItem| task_file_error(i));
    let e3 = first_error(files.templates@, |i: NameItem| template_error(i));
    if e1 is Some {
        e1
    } else if e2 is Some {
        e2
    } else if e3 is Some {
        e3
    } else if opt_file_error(files.defaults) is Some {
        opt_file_error(files.defaults)
    } else {
        opt_file_error(files.meta)
    }
}

/// The IRI of role `n`.
pub open spec fn role_uri(n: Seq<char>) -> Seq<char> {
    ans("role/"@ + n)
}

/// The quads of task `idx` of file `f` of role `n`.
pub open spec fn role_task_quads(n: Seq<char>, f: Seq<char>, idx: nat, es: Seq<YamlEntry>) -> Seq<QuadModel> {
    let file = "roles/"@ + n + "/tasks/"@ + f;
    let t = ans("task/"@ + file + "/"@ + dec(idx));
    seq![
        q_type(t, ans("Task"@)),
        q_link(role_uri(n), ans("hasTask"@), t),
        q(t, ans("sourceFile"@), lit(file)),
    ] + name_quads(t, spec_get(es, "name"@)) + module_quads(t, es)
}

/// The quads of the tasks of file `f` of role `n`.
pub open spec fn role_task_file_quads(n: Seq<char>, f: Seq<char>, ts: Seq<Seq<YamlEntry>>) -> Seq<QuadModel>
    decreases ts.len(),
{
    if ts.len() == 0 {
        Seq::empty()
    } else {
        role_task_file_quads(n, f, ts.drop_last()) + role_task_quads(n, f, (ts.len() - 1) as nat, ts.last())
    }
}

/// The task lists of the files, each with its file name, of files that give one.
pub open spec fn file_tasks(item: DirItem) -> Seq<Seq<YamlEntry>> {
    match item {
        DirItem::File(_, YamlFile::Parsed(v)) => match task_list(v) {
            Some(ts) => ts,
            None => Seq::empty(),
        },
        _ => Seq::empty(),
    }
}

/// The name of a file entry.
pub open spec fn item_name(item: DirItem) -> Seq<char> {
    match item {
        DirItem::File(f, _) => f@,
        DirItem::Failed(_) => Seq::empty(),
    }
}

/// The quads of the task files of role `n`.
pub open spec fn role_tasks_quads(n: Seq<char>, items: Seq<DirItem>) -> Seq<QuadModel>
    decreases items.len(),
{
    if items.len() == 0 {
        Seq::empty()
    } else {
        role_tasks_quads(n, items.drop_last())
            + role_task_file_quads(n, item_name(items.last()), file_tasks(items.last()))
    }
}

/// How many tasks or handlers the files hold.
pub open spec fn entry_total(items: Seq<DirItem>) -> nat
    decreases items.len(),
{
    if items.len() == 0 {
        0
    } else {
        entry_total(items.drop_last()) + file_tasks(items.last()).len()
    }
}

/// The quads of a handler of role `n`.
pub open spec fn role_handler_quads(n: Seq<char>, es: Seq<YamlEntry>) -> Seq<QuadModel> {
    let name = handler_name(es);
    let h = ans("handler/"@ + n + "/"@ + spec_slugify(name));
    seq![
        q_type(h, ans("Handler"@)),
        q(h, ans("name"@), lit(name)),
        q(h, ans("sourceFile"@), lit("roles/"@ + n + "/handlers/main.yml"@)),
    ] + module_quads(h, es) + seq![q_link(role_uri(n), ans("hasHandler"@), h)]
}

/// The quads of the handlers of one file of role `n`.
pub open spec fn role_handler_file_quads(n: Seq<char>, hs: Seq<Seq<YamlEntry>>) -> Seq<QuadModel>
    decreases hs.len(),
{
    if hs.len() == 0 {
        Seq::empty()
    } else {
        role_handler_file_quads(n, hs.drop_last()) + role_handler_quads(n, hs.last())
    }
}

/// The quads of the handler files of role `n`.
pub open spec fn role_handlers_quads(n: Seq<char>, items: Seq<DirItem>) -> Seq<QuadModel>
    decreases items.len(),
{
    if items.len() == 0 {
        Seq::empty()
    } else {
        role_handlers_quads(n, items.drop_last()) + role_handler_file_quads(n, file_tasks(items.last()))
    }
}

/// The quads of the templates of role `n`.
pub open spec fn role_templates_quads(n: Seq<char>, items: Seq<NameItem>) -> Seq<QuadModel>
    decreases items.len(),
{
    if items.len() == 0 {
        Seq::empty()
    } else {
        role_templates_quads(n, items.drop_last()) + match items.last() {
            NameItem::Name(f) => {
                let t = ans("template/"@ + n + "/"@ + f@);
                seq![
                    q_type(t, ans("Template"@)),
                    q(t, ans("name"@), lit(f@)),
                    q(t, ans("sourceFile"@), lit("roles/"@ + n + "/templates/"@ + f@)),
                    q_link(role_uri(n), ans("hasTemplate"@), t),
                ]
            },
            NameItem::Failed(_) => Seq::empty(),
        }
    }
}

/// How many templates there are.
pub open spec fn template_total(items: Seq<NameItem>) -> nat
    decreases items.len(),
{
    if items.len() == 0 {
        0
    } else {
        template_total(items.drop_last()) + if items.last() is Name { 1nat } else { 0nat }
    }
}

/// The quads of the default variables of role `n`, from the entries of `defaults/main.yml`.
pub open spec fn role_defaults_quads(n: Seq<char>, es: Seq<YamlEntry>) -> Seq<QuadModel>
    decreases es.len(),
{
    if es.len() == 0 {
        Seq::empty()
    } else {
        role_defaults_quads(n, es.drop_last()) + match str_of(es.last().key) {
            Some(k) => {
                let v = ans("var/role/"@ + n + "/"@ + k);
                seq![
                    q_type(v, ans("Variable"@)),
                    q(v, ans("variableName"@), lit(k)),
                    q(v, ans("variableValue"@), lit(yaml_text(es.last().value))),
                    q_link(role_uri(n), ans("hasVariable"@), v),
                ]
            },
            None => Seq::empty(),
        }
    }
}

/// The entries of a parsed optional file that is a mapping, or none.
pub open spec fn file_entries(f: Option<YamlFile>) -> Seq<YamlEntry> {
    match f {
        Some(YamlFile::Parsed(v)) => match entries_of(v) {
            Some(es) => es,
            None => Seq::empty(),
        },
        _ => Seq::empty(),
    }
}

/// The quads of the dependencies of role `n`.
pub open spec fn role_deps_quads(n: Seq<char>, deps: Seq<Yaml>) -> Seq<QuadModel>
    decreases deps.len(),
{
    if deps.len() == 0 {
        Seq::empty()
    } else {
        role_deps_quads(n, deps.drop_last()) + match used_role(deps.last()) {
            Some(d) => seq![q_link(role_uri(n), ans("dependsOn"@), role_uri(d))],
            None => Seq::empty(),
        }
    }
}

/// The dependencies listed in the entries of `meta/main.yml`.
pub open spec fn meta_deps(es: Seq<YamlEntry>) -> Seq<Yaml> {
    match spec_get(es, "dependencies"@) {
        Some(d) => match items_of(d) {
            Some(xs) => xs,
            None => Seq::empty(),
        },
        None => Seq::empty(),
    }
}

/// The quads of role `n`.
pub open spec fn role_quads(n: Seq<char>, files: RoleFiles) -> Seq<QuadModel> {
    let r = role_uri(n);
    seq![
        q_type(r, ans("Role"@)),
        q(r, ans("name"@), lit(n)),
        q(r, ans("sourceFile"@), lit("roles/"@ + n)),
    ] + role_tasks_quads(n, files.tasks@)
        + role_handlers_quads(n, files.handlers@)
        + role_templates_quads(n, files.templates@)
        + role_defaults_quads(n, file_entries(files.defaults))
        + role_deps_quads(n, meta_deps(file_entries(files.meta)))
}

/// Appends the quads of the tasks of file `f` of role `n`, counting them.
fn emit_task_file(out: &mut Vec<Quad>, n: &str, f: &str, ts: &Vec<&Vec<YamlEntry>>, ghost_ts: Ghost<Seq<Seq<YamlEntry>>>, count: &mut u32)
    requires
        ts@.len() == ghost_ts@.len(),
        forall|i: int| 0 <= i < ts@.len() ==> (#[trigger] ts@[i])@ == ghost_ts@[i],
        *old(count) + ts@.len() <= u32::MAX,
    ensures
        quads_model(final(out)@) == quads_model(old(out)@) + role_task_file_quads(n@, f@, ghost_ts@),
        *final(count) == *old(count) + ts@.len(),
{
    let ghost start = quads_model(out@);
    let ghost gts = ghost_ts@;
    let r = ans_node(concat("role/", n).as_str());
    let mut file = concat("roles/", n);
    file.append("/tasks/");
    file.append(f);
    let mut j: usize = 0;
    while j < ts.len()
        invariant
            0 <= j <= ts@.len(),
            ts@.len() == gts.len(),
            forall|i: int| 0 <= i < ts@.len() ==> (#[trigger] ts@[i])@ == gts[i],
            r@ == role_uri(n@),
            file@ == "roles/"@ + n@ + "/tasks/"@ + f@,
            *old(count) + ts@.len() <= u32::MAX,
            quads_model(out@) == start + role_task_file_quads(n@, f@, gts.take(j as int)),
            *count == *old(count) + j,
        decreases ts.len() - j,
    {
        assert(gts.take(j + 1).drop_last() =~= gts.take(j as int));
        let es = ts[j];
        let ghost before = quads_model(out@);
        let mut local = concat("task/", file.as_str());
        local.append("/");
        push_decimal_u64(&mut local, j as u64);
        let t = ans_node(local.as_str());
        emit(out, type_quad(&t, &ans_node("Task")));
        emit(out, link_quad(&r, &ans_node("hasTask"), &t));
        emit(out, literal_quad(&t, &ans_node("sourceFile"), file.as_str()));
        let ghost mid = quads_model(out@);
        match get(es, "name") {
            Some(y) => match as_str(y) {
                Some(nm) => emit(out, literal_quad(&t, &ans_node("name"), nm.as_str())),
                None => {},
            },
            None => {},
        }
        assert(quads_model(out@) =~= mid + name_quads(t@, spec_get(es@, "name"@)));
        let ghost mid2 = quads_model(out@);
        match detect_module(es) {
            Some(m) => emit(out, literal_quad(&t, &ans_node("module"), m.as_str())),
            None => {},
        }
        assert(quads_model(out@) =~= mid2 + module_quads(t@, es@));
        assert(quads_model(out@) =~= before + role_task_quads(n@, f@, j as nat, gts[j as int]));
        *count = *count + 1;
        j += 1;
    }
    assert(gts.take(gts.len() as int) =~= gts);
}

/// Appends the quads of the handlers of one file of role `n`, counting them.
fn emit_handler_file(out: &mut Vec<Quad>, n: &str, hs: &Vec<&Vec<YamlEntry>>, ghost_hs: Ghost<Seq<Seq<YamlEntry>>>, count: &mut u32)
    requires
        hs@.len() == ghost_hs@.len(),
        forall|i: int| 0 <= i < hs@.len() ==> (#[trigger] hs@[i])@ == ghost_hs@[i],
        *old(count) + hs@.len() <= u32::MAX,
    ensures
        quads_model(final(out)@) == quads_model(old(out)@) + role_handler_file_quads(n@, ghost_hs@),
        *final(count) == *old(count) + hs@.len(),
{
    let ghost start = quads_model(out@);
    let ghost ghs = ghost_hs@;
    let r = ans_node(concat("role/", n).as_str());
    let mut file = concat("roles/", n);
    file.append("/handlers/main.yml");
    let mut j: usize = 0;
    while j < hs.len()
        invariant
            0 <= j <= hs@.len(),
            hs@.len() == ghs.len(),
            forall|i: int| 0 <= i < hs@.len() ==> (#[trigger] hs@[i])@ == ghs[i],
            r@ == role_uri(n@),
            file@ == "roles/"@ + n@ + "/handlers/main.yml"@,
            *old(count) + hs@.len() <= u32::MAX,
            quads_model(out@) == start + role_handler_file_quads(n@, ghs.take(j as int)),
            *count == *old(count) + j,
        decreases hs.len() - j,
    {
        assert(ghs.take(j + 1).drop_last() =~= ghs.take(j as int));
        let es = hs[j];
        let ghost before = quads_model(out@);
        let name = crate::playbook::handler_name_exec(es);
        let mut local = concat("handler/", n);
        local.append("/");
        let slug = slugify(name.as_str());
        local.append(slug.as_str());
        let h = ans_node(local.as_str());
        emit(out, type_quad(&h, &ans_node("Handler")));
        emit(out, literal_quad(&h, &ans_node("name"), name.as_str()));
        emit(out, literal_quad(&h, &ans_node("sourceFile"), file.as_str()));
        let ghost mid = quads_model(out@);
        match detect_module(es) {
            Some(m) => emit(out, literal_quad(&h, &ans_node("module"), m.as_str())),
            None => {},
        }
        assert(quads_model(out@) =~= mid + module_quads(h@, es@));
        emit(out, link_quad(&r, &ans_node("hasHandler"), &h));
        assert(quads_model(out@) =~= before + role_handler_quads(n@, ghs[j as int]));
        *count = *count + 1;
        j += 1;
    }
    assert(ghs.take(ghs.len() as int) =~= ghs);
}

/// A prefix never holds more entries than the whole.
proof fn lemma_entry_total_prefix(items: Seq<DirItem>, k: int)
    requires
        0 <= k <= items.len(),
    ensures
        entry_total(items.take(k)) <= entry_total(items),
    decreases items.len(),
{
    if k < items.len() {
        assert(items.drop_last().take(k) =~= items.take(k));
        lemma_entry_total_prefix(items.drop_last(), k);
    } else {
        assert(items.take(k) =~= items);
    }
}

/// Appends the quads of the task files (`handlers` unset) or handler files
/// (`handlers` set) of role `n`, counting their entries; the first file that
/// gives an error stops the reading.
fn emit_entry_files(out: &mut Vec<Quad>, n: &str, items: &Vec<DirItem>, handlers: bool, count: &mut u32) -> (r: Result<(), AnsibleLoadError>)
    requires
        *old(count) + entry_total(items@) <= u32::MAX,
    ensures
        match first_error(items@, |i: DirItem| task_file_error(i)) {
            Some(e) => r matches Err(err) && err@ == e,
            None => {
                &&& r is Ok
                &&& quads_model(final(out)@) == quads_model(old(out)@) + if handlers {
                    role_handlers_quads(n@, items@)
                } else {
                    role_tasks_quads(n@, items@)
                }
                &&& *final(count) == *old(count) + entry_total(items@)
            },
        },
{
    let ghost f = |i: DirItem| task_file_error(i);
    let ghost start = quads_model(out@);
    let mut i: usize = 0;
    while i < items.len()
        invariant
            0 <= i <= items@.len(),
            f == (|i: DirItem| task_file_error(i)),
            *old(count) + entry_total(items@) <= u32::MAX,
            first_error(items@.take(i as int), f) is None,
            quads_model(out@) == start + if handlers {
                role_handlers_quads(n@, items@.take(i as int))
            } else {
                role_tasks_quads(n@, items@.take(i as int))
            },
            *count == *old(count) + entry_total(items@.take(i as int)),
        decreases items.len() - i,
    {
        assert(items@.take(i + 1).drop_last() =~= items@.take(i as int));
        proof {
            lemma_entry_total_prefix(items@, i + 1);
        }
        match &items[i] {
            DirItem::Failed(e) => {
                proof {
                    lemma_first_error_stop(items@, f, i + 1);
                }
                return Err(AnsibleLoadError::Io(clone_string(e)));
            },
            DirItem::File(fname, yf) => match yf {
                YamlFile::Parsed(v) => match parse_yaml_task_list(v) {
                    Err(e) => {
                        proof {
                            lemma_first_error_stop(items@, f, i + 1);
                        }
                        return Err(e);
                    },
                    Ok(ts) => {
                        let ghost gts = task_list(*v).unwrap();
                        if handlers {
                            emit_handler_file(out, n, &ts, Ghost(gts), count);
                        } else {
                            emit_task_file(out, n, fname.as_str(), &ts, Ghost(gts), count);
                        }
                    },
                },
                _ => {
                    proof {
                        lemma_first_error_stop(items@, f, i + 1);
                    }
                    return Err(file_error_of(yf));
                },
            },
        }
        i += 1;
    }
    assert(items@.take(items@.len() as int) =~= items@);
    Ok(())
}

/// A prefix never has more templates than the whole.
proof fn lemma_template_total_prefix(items: Seq<NameItem>, k: int)
    requires
        0 <= k <= items.len(),
    ensures
        template_total(items.take(k)) <= template_total(items),
    decreases items.len(),
{
    if k < items.len() {
        assert(items.drop_last().take(k) =~= items.take(k));
        lemma_template_total_prefix(items.drop_last(), k);
    } else {
        assert(items.take(k) =~= items);
    }
}

/// Appends the quads of the templates of role `n`, counting them; a failure
/// to list them stops the reading.
fn emit_templates(out: &mut Vec<Quad>, n: &str, items: &Vec<NameItem>, count: &mut u32) -> (r: Result<(), AnsibleLoadError>)
    requires
        *old(count) + template_total(items@) <= u32::MAX,
    ensures
        match first_error(items@, |i: NameItem| template_error(i)) {
            Some(e) => r matches Err(err) && err@ == e,
            None => {
                &&& r is Ok
                &&& quads_model(final(out)@) == quads_model(old(out)@) + role_templates_quads(n@, items@)
                &&& *final(count) == *old(count) + template_total(items@)
            },
        },
{
    let ghost f = |i: NameItem| template_error(i);
    let ghost start = quads_model(out@);
    let r = ans_node(concat("role/", n).as_str());
    let mut i: usize = 0;
    while i < items.len()
        invariant
            0 <= i <= items@.len(),
            f == (|i: NameItem| template_error(i)),
            r@ == role_uri(n@),
            *old(count) + template_total(items@) <= u32::MAX,
            first_error(items@.take(i as int), f) is None,
            quads_model(out@) == start + role_templates_quads(n@, items@.take(i as int)),
            *count == *old(count) + template_total(items@.take(i as int)),
        decreases items.len() - i,
    {
        assert(items@.take(i + 1).drop_last() =~= items@.take(i as int));
        proof {
            lemma_template_total_prefix(items@, i + 1);
        }
        let ghost before = quads_model(out@);
        match &items[i] {
            NameItem::Failed(e) => {
                proof {
                    lemma_first_error_stop(items@, f, i + 1);
                }
                return Err(AnsibleLoadError::Io(clone_string(e)));
            },
            NameItem::Name(fname) => {
                let mut local = concat("template/", n);
                local.append("/");
                local.append(fname.as_str());
                let t = ans_node(local.as_str());
                let mut file = concat("roles/", n);
                file.append("/templates/");
                file.append(fname.as_str());
                emit(out, type_quad(&t, &ans_node("Template")));
                emit(out, literal_quad(&t, &ans_node("name"), fname.as_str()));
                emit(out, literal_quad(&t, &ans_node("sourceFile"), file.as_str()));
                emit(out, link_quad(&r, &ans_node("hasTemplate"), &t));
                *count = *count + 1;
            },
        }
        assert(quads_model(out@) =~= start + role_templates_quads(n@, items@.take(i + 1)));
        i += 1;
    }
    assert(items@.take(items@.len() as int) =~= items@);
    Ok(())
}

/// Appends the quads of the default variables of role `n`.
fn emit_defaults(out: &mut Vec<Quad>, n: &str, es: &Vec<YamlEntry>)
    ensures
        quads_model(final(out)@) == quads_model(old(out)@) + role_defaults_quads(n@, es@),
{
    let ghost start = quads_model(out@);
    let r = ans_node(concat("role/", n).as_str());
    let mut i: usize = 0;
    while i < es.len()
        invariant
            0 <= i <= es@.len(),
            r@ == role_uri(n@),
            quads_model(out@) == start + role_defaults_quads(n@, es@.take(i as int)),
        decreases es.len() - i,
    {
        assert(es@.take(i + 1).drop_last() =~= es@.take(i as int));
        let ghost before = quads_model(out@);
        match as_str(&es[i].key) {
            Some(k) => {
                let mut local = concat("var/role/", n);
                local.append("/");
                local.append(k.as_str());
                let v = ans_node(local.as_str());
                let value = yaml_value_to_string(&es[i].value);
                emit(out, type_quad(&v, &ans_node("Variable")));
                emit(out, literal_quad(&v, &ans_node("variableName"), k.as_str()));
                emit(out, literal_quad(&v, &ans_node("variableValue"), value.as_str()));
                emit(out, link_quad(&r, &ans_node("hasVariable"), &v));
            },
            None => {},
        }
        assert(quads_model(out@) =~= start + role_defaults_quads(n@, es@.take(i + 1)));
        i += 1;
    }
    assert(es@.take(es@.len() as int) =~= es@);
}

/// Appends the quads of the dependencies of role `n`.
fn emit_deps(out: &mut Vec<Quad>, n: &str, deps: &Vec<Yaml>)
    ensures
        quads_model(final(out)@) == quads_model(old(out)@) + role_deps_quads(n@, deps@),
{
    let ghost start = quads_model(out@);
    let r = ans_node(concat("role/", n).as_str());
    let mut i: usize = 0;
    while i < deps.len()
        invariant
            0 <= i <= deps@.len(),
            r@ == role_uri(n@),
            quads_model(out@) == start + role_deps_quads(n@, deps@.take(i as int)),
        decreases deps.len() - i,
    {
        assert(deps@.take(i + 1).drop_last() =~= deps@.take(i as int));
        match crate::playbook::role_name_exec(&deps[i]) {
            Some(d) => {
                if !d.as_str().is_empty() {
                    let u = ans_node(concat("role/", d.as_str()).as_str());
                    emit(out, link_quad(&r, &ans_node("dependsOn"), &u));
                }
            },
            None => {},
        }
        assert(quads_model(out@) =~= start + role_deps_quads(n@, deps@.take(i + 1)));
        i += 1;
    }
    assert(deps@.take(deps@.len() as int) =~= deps@);
}

/// The entries of a parsed file that is a mapping.
fn file_entries_exec(f: &Option<YamlFile>) -> (r: Option<&Vec<YamlEntry>>)
    ensures
        match r {
            Some(es) => file_entries(*f) == es@,
            None => file_entries(*f) == Seq::<YamlEntry>::empty(),
        },
{
    match f {
        Some(YamlFile::Parsed(v)) => as_mapping(v),
        _ => None,
    }
}

/// The error an optional file gives, if any.
fn opt_file_error_exec(f: &Option<YamlFile>) -> (r: Option<AnsibleLoadError>)
    ensures
        match r {
            Some(e) => opt_file_error(*f) == Some(e@),
            None => opt_file_error(*f) is None,
        },
{
    match f {
        Some(YamlFile::Parsed(_)) => None,
        Some(y) => Some(file_error_of(y)),
        None => None,
    }
}

/// Reads role `role_name` from its files: the role, its tasks, handlers,
/// templates, default variables and dependencies become quads, and tasks,
/// handlers and templates are counted. The first file that cannot be read, is
/// not YAML, or (for tasks and handlers) is not a list gives the error.
pub fn parse_role(role_name: &str, files: &RoleFiles) -> (r: Result<RoleParseResult, AnsibleLoadError>)
    requires
        entry_total(files.tasks@) <= u32::MAX,
        entry_total(files.handlers@) <= u32::MAX,
        template_total(files.templates@) <= u32::MAX,
    ensures
        match role_error(*files) {
            Some(e) => r matches Err(err) && err@ == e,
            None => r matches Ok(res) && {
                &&& quads_model(res.quads@) == role_quads(role_name@, *files)
                &&& res.task_count == entry_total(files.tasks@)
                &&& res.handler_count == entry_total(files.handlers@)
                &&& res.template_count == template_total(files.templates@)
            },
        },
{
    let mut quads: Vec<Quad> = Vec::new();
    let r = ans_node(concat("role/", role_name).as_str());
    emit(&mut quads, type_quad(&r, &ans_node("Role")));
    emit(&mut quads, literal_quad(&r, &ans_node("name"), role_name));
    let src = concat("roles/", role_name);
    emit(&mut quads, literal_quad(&r, &ans_node("sourceFile"), src.as_str()));
    let mut task_count: u32 = 0;
    let mut handler_count: u32 = 0;
    let mut template_count: u32 = 0;
    let r1 = emit_entry_files(&mut quads, role_name, &files.tasks, false, &mut task_count);
    if let Err(e) = r1 {
        return Err(e);
    }
    let r2 = emit_entry_files(&mut quads, role_name, &files.handlers, true, &mut handler_count);
    if let Err(e) = r2 {
        return Err(e);
    }
    let r3 = emit_templates(&mut quads, role_name, &files.templates, &mut template_count);
    if let Err(e) = r3 {
        return Err(e);
    }
    if let Some(e) = opt_file_error_exec(&files.defaults) {
        return Err(e);
    }
    match file_entries_exec(&files.defaults) {
        Some(es) => emit_defaults(&mut quads, role_name, es),
        None => {},
    }
    if let Some(e) = opt_file_error_exec(&files.meta) {
        return Err(e);
    }
    let es = file_entries_exec(&files.meta);
    let deps = match es {
        Some(es) => match get(es, "dependencies") {
            Some(d) => as_sequence(d),
            None => None,
        },
        None => None,
    };
    match deps {
        Some(ds) => emit_deps(&mut quads, role_name, ds),
        None => {},
    }
    proof {
        assert(quads_model(quads@) =~= role_quads(role_name@, *files));
    }
    Ok(RoleParseResult { quads, task_count, handler_count, template_count })
}

} // verus!
