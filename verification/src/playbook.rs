//! Ansible playbooks as RDF: plays, their tasks and handlers, and the roles they use.
use vstd::prelude::*;
use vstd::string::StringExecFns;

use crate::ansible::{
    ans, ans_node, concat, link_quad, literal_quad, type_quad, AnsibleLoadError,
};
use crate::decimal::dec;
use crate::inventory::push_new;
use crate::rdf::{emit, lit, push_decimal_u64, q, q_link, q_type, quads_model, Quad, QuadModel};
use crate::text::{ascii_lower, clone_string, push_char, str_eq, to_ascii_lowercase, to_owned_string};
use crate::yaml::{
    as_mapping, as_sequence, as_str, entries_of, get, items_of, spec_get, str_of, yaml_text,
    yaml_value_to_string, Yaml, YamlEntry,
};

verus! {

broadcast use vstd::string::group_string_axioms;

/// Keys of a task that are not the name of its module.
pub open spec fn spec_is_task_keyword(k: Seq<char>) -> bool {
    ||| k == "name"@ ||| k == "when"@ ||| k == "register"@ ||| k == "notify"@
    ||| k == "tags"@ ||| k == "become"@ ||| k == "become_user"@ ||| k == "become_method"@
    ||| k == "ignore_errors"@ ||| k == "changed_when"@ ||| k == "failed_when"@ ||| k == "loop"@
    ||| k == "with_items"@ ||| k == "with_dict"@ ||| k == "with_fileglob"@
    ||| k == "with_first_found"@ ||| k == "with_together"@ ||| k == "with_flattened"@
    ||| k == "with_indexed_items"@ ||| k == "with_nested"@ ||| k == "with_random_choice"@
    ||| k == "with_sequence"@ ||| k == "with_subelements"@ ||| k == "until"@ ||| k == "retries"@
    ||| k == "delay"@ ||| k == "no_log"@ ||| k == "environment"@ ||| k == "vars"@
    ||| k == "delegate_to"@ ||| k == "delegate_facts"@ ||| k == "any_errors_fatal"@
    ||| k == "run_once"@ ||| k == "serial"@ ||| k == "throttle"@ ||| k == "timeout"@
    ||| k == "check_mode"@ ||| k == "diff"@ ||| k == "connection"@ ||| k == "collections"@
    ||| k == "module_defaults"@ ||| k == "listen"@ ||| k == "block"@ ||| k == "rescue"@
    ||| k == "always"@ ||| k == "args"@ ||| k == "async"@ ||| k == "poll"@
    ||| k == "local_action"@ ||| k == "action"@
}

/// Whether a task key is one of the task keywords rather than a module name.
pub fn is_task_keyword(k: &str) -> (r: bool)
    ensures
        r == spec_is_task_keyword(k@),
{
    str_eq(k, "name") || str_eq(k, "when") || str_eq(k, "register") || str_eq(k, "notify")
        || str_eq(k, "tags") || str_eq(k, "become") || str_eq(k, "become_user")
        || str_eq(k, "become_method") || str_eq(k, "ignore_errors") || str_eq(k, "changed_when")
        || str_eq(k, "failed_when") || str_eq(k, "loop") || str_eq(k, "with_items")
        || str_eq(k, "with_dict") || str_eq(k, "with_fileglob") || str_eq(k, "with_first_found")
        || str_eq(k, "with_together") || str_eq(k, "with_flattened")
        || str_eq(k, "with_indexed_items") || str_eq(k, "with_nested")
        || str_eq(k, "with_random_choice") || str_eq(k, "with_sequence")
        || str_eq(k, "with_subelements") || str_eq(k, "until") || str_eq(k, "retries")
        || str_eq(k, "delay") || str_eq(k, "no_log") || str_eq(k, "environment")
        || str_eq(k, "vars") || str_eq(k, "delegate_to") || str_eq(k, "delegate_facts")
        || str_eq(k, "any_errors_fatal") || str_eq(k, "run_once") || str_eq(k, "serial")
        || str_eq(k, "throttle") || str_eq(k, "timeout") || str_eq(k, "check_mode")
        || str_eq(k, "diff") || str_eq(k, "connection") || str_eq(k, "collections")
        || str_eq(k, "module_defaults") || str_eq(k, "listen") || str_eq(k, "block")
        || str_eq(k, "rescue") || str_eq(k, "always") || str_eq(k, "args") || str_eq(k, "async")
        || str_eq(k, "poll") || str_eq(k, "local_action") || str_eq(k, "action")
}

/// The first string key from `i` on that is not a task keyword.
pub open spec fn module_from(es: Seq<YamlEntry>, i: int) -> Option<Seq<char>>
    decreases es.len() - i,
{
    if i < 0 || i >= es.len() {
        None
    } else {
        match str_of(es[i].key) {
            Some(k) => if !spec_is_task_keyword(k) {
                Some(k)
            } else {
                module_from(es, i + 1)
            },
            None => module_from(es, i + 1),
        }
    }
}

/// The module a task runs: its first string key that is not a task keyword.
pub open spec fn spec_detect_module(es: Seq<YamlEntry>) -> Option<Seq<char>> {
    module_from(es, 0)
}

/// The task keywords of Ansible: keys of a task that name no module.
pub open spec fn ansible_task_keywords() -> Seq<Seq<char>> {
    seq![
        "name"@,
        "when"@,
        "register"@,
        "notify"@,
        "tags"@,
        "become"@,
        "become_user"@,
        "become_method"@,
        "ignore_errors"@,
        "changed_when"@,
        "failed_when"@,
        "loop"@,
        "with_items"@,
        "with_dict"@,
        "with_fileglob"@,
        "with_first_found"@,
        "with_together"@,
        "with_flattened"@,
        "with_indexed_items"@,
        "with_nested"@,
        "with_random_choice"@,
        "with_sequence"@,
        "with_subelements"@,
        "until"@,
        "retries"@,
        "delay"@,
        "no_log"@,
        "environment"@,
        "vars"@,
        "delegate_to"@,
        "delegate_facts"@,
        "any_errors_fatal"@,
        "run_once"@,
        "serial"@,
        "throttle"@,
        "timeout"@,
        "check_mode"@,
        "diff"@,
        "connection"@,
        "collections"@,
        "module_defaults"@,
        "listen"@,
        "block"@,
        "rescue"@,
        "always"@,
        "args"@,
        "async"@,
        "poll"@,
        "local_action"@,
        "action"@
    ]
}

/// A key is a task keyword exactly when it is in Ansible's list.
proof fn lemma_task_keyword_listed(k: Seq<char>)
    ensures
        spec_is_task_keyword(k) == ansible_task_keywords().contains(k),
{
    let kw = ansible_task_keywords();
    assert(kw.len() == 50);
    if k == "name"@ {
        assert(kw[0] == k);
    }
    if k == "when"@ {
        assert(kw[1] == k);
    }
    if k == "register"@ {
        assert(kw[2] == k);
    }
    if k == "notify"@ {
        assert(kw[3] == k);
    }
    if k == "tags"@ {
        assert(kw[4] == k);
    }
    if k == "become"@ {
        assert(kw[5] == k);
    }
    if k == "become_user"@ {
        assert(kw[6] == k);
    }
    if k == "become_method"@ {
        assert(kw[7] == k);
    }
    if k == "ignore_errors"@ {
        assert(kw[8] == k);
    }
    if k == "changed_when"@ {
        assert(kw[9] == k);
    }
    if k == "failed_when"@ {
        assert(kw[10] == k);
    }
    if k == "loop"@ {
        assert(kw[11] == k);
    }
    if k == "with_items"@ {
        assert(kw[12] == k);
    }
    if k == "with_dict"@ {
        assert(kw[13] == k);
    }
    if k == "with_fileglob"@ {
        assert(kw[14] == k);
    }
    if k == "with_first_found"@ {
        assert(kw[15] == k);
    }
    if k == "with_together"@ {
        assert(kw[16] == k);
    }
    if k == "with_flattened"@ {
        assert(kw[17] == k);
    }
    if k == "with_indexed_items"@ {
        assert(kw[18] == k);
    }
    if k == "with_nested"@ {
        assert(kw[19] == k);
    }
    if k == "with_random_choice"@ {
        assert(kw[20] == k);
    }
    if k == "with_sequence"@ {
        assert(kw[21] == k);
    }
    if k == "with_subelements"@ {
        assert(kw[22] == k);
    }
    if k == "until"@ {
        assert(kw[23] == k);
    }
    if k == "retries"@ {
        assert(kw[24] == k);
    }
    if k == "delay"@ {
        assert(kw[25] == k);
    }
    if k == "no_log"@ {
        assert(kw[26] == k);
    }
    if k == "environment"@ {
        assert(kw[27] == k);
    }
    if k == "vars"@ {
        assert(kw[28] == k);
    }
    if k == "delegate_to"@ {
        assert(kw[29] == k);
    }
    if k == "delegate_facts"@ {
        assert(kw[30] == k);
    }
    if k == "any_errors_fatal"@ {
        assert(kw[31] == k);
    }
    if k == "run_once"@ {
        assert(kw[32] == k);
    }
    if k == "serial"@ {
        assert(kw[33] == k);
    }
    if k == "throttle"@ {
        assert(kw[34] == k);
    }
    if k == "timeout"@ {
        assert(kw[35] == k);
    }
    if k == "check_mode"@ {
        assert(kw[36] == k);
    }
    if k == "diff"@ {
        assert(kw[37] == k);
    }
    if k == "connection"@ {
        assert(kw[38] == k);
    }
    if k == "collections"@ {
        assert(kw[39] == k);
    }
    if k == "module_defaults"@ {
        assert(kw[40] == k);
    }
    if k == "listen"@ {
        assert(kw[41] == k);
    }
    if k == "block"@ {
        assert(kw[42] == k);
    }
    if k == "rescue"@ {
        assert(kw[43] == k);
    }
    if k == "always"@ {
        assert(kw[44] == k);
    }
    if k == "args"@ {
        assert(kw[45] == k);
    }
    if k == "async"@ {
        assert(kw[46] == k);
    }
    if k == "poll"@ {
        assert(kw[47] == k);
    }
    if k == "local_action"@ {
        assert(kw[48] == k);
    }
    if k == "action"@ {
        assert(kw[49] == k);
    }
    if kw.contains(k) {
        let i = choose|i: int| 0 <= i < kw.len() && kw[i] == k;
        if i == 0 {
            assert(kw[0] == "name"@);
        }
        if i == 1 {
            assert(kw[1] == "when"@);
        }
        if i == 2 {
            assert(kw[2] == "register"@);
        }
        if i == 3 {
            assert(kw[3] == "notify"@);
        }
        if i == 4 {
            assert(kw[4] == "tags"@);
        }
        if i == 5 {
            assert(kw[5] == "become"@);
        }
        if i == 6 {
            assert(kw[6] == "become_user"@);
        }
        if i == 7 {
            assert(kw[7] == "become_method"@);
        }
        if i == 8 {
            assert(kw[8] == "ignore_errors"@);
        }
        if i == 9 {
            assert(kw[9] == "changed_when"@);
        }
        if i == 10 {
            assert(kw[10] == "failed_when"@);
        }
        if i == 11 {
            assert(kw[11] == "loop"@);
        }
        if i == 12 {
            assert(kw[12] == "with_items"@);
        }
        if i == 13 {
            assert(kw[13] == "with_dict"@);
        }
        if i == 14 {
            assert(kw[14] == "with_fileglob"@);
        }
        if i == 15 {
            assert(kw[15] == "with_first_found"@);
        }
        if i == 16 {
            assert(kw[16] == "with_together"@);
        }
        if i == 17 {
            assert(kw[17] == "with_flattened"@);
        }
        if i == 18 {
            assert(kw[18] == "with_indexed_items"@);
        }
        if i == 19 {
            assert(kw[19] == "with_nested"@);
        }
        if i == 20 {
            assert(kw[20] == "with_random_choice"@);
        }
        if i == 21 {
            assert(kw[21] == "with_sequence"@);
        }
        if i == 22 {
            assert(kw[22] == "with_subelements"@);
        }
        if i == 23 {
            assert(kw[23] == "until"@);
        }
        if i == 24 {
            assert(kw[24] == "retries"@);
        }
        if i == 25 {
            assert(kw[25] == "delay"@);
        }
        if i == 26 {
            assert(kw[26] == "no_log"@);
        }
        if i == 27 {
            assert(kw[27] == "environment"@);
        }
        if i == 28 {
            assert(kw[28] == "vars"@);
        }
        if i == 29 {
            assert(kw[29] == "delegate_to"@);
        }
        if i == 30 {
            assert(kw[30] == "delegate_facts"@);
        }
        if i == 31 {
            assert(kw[31] == "any_errors_fatal"@);
        }
        if i == 32 {
            assert(kw[32] == "run_once"@);
        }
        if i == 33 {
            assert(kw[33] == "serial"@);
        }
        if i == 34 {
            assert(kw[34] == "throttle"@);
        }
        if i == 35 {
            assert(kw[35] == "timeout"@);
        }
        if i == 36 {
            assert(kw[36] == "check_mode"@);
        }
        if i == 37 {
            assert(kw[37] == "diff"@);
        }
        if i == 38 {
            assert(kw[38] == "connection"@);
        }
        if i == 39 {
            assert(kw[39] == "collections"@);
        }
        if i == 40 {
            assert(kw[40] == "module_defaults"@);
        }
        if i == 41 {
            assert(kw[41] == "listen"@);
        }
        if i == 42 {
            assert(kw[42] == "block"@);
        }
        if i == 43 {
            assert(kw[43] == "rescue"@);
        }
        if i == 44 {
            assert(kw[44] == "always"@);
        }
        if i == 45 {
            assert(kw[45] == "args"@);
        }
        if i == 46 {
            assert(kw[46] == "async"@);
        }
        if i == 47 {
            assert(kw[47] == "poll"@);
        }
        if i == 48 {
            assert(kw[48] == "local_action"@);
        }
        if i == 49 {
            assert(kw[49] == "action"@);
        }
    }
}

/// A task's module is never one of Ansible's task keywords: it is its first
/// string key outside that list, and a task whose string keys all are task
/// keywords runs no module.
pub proof fn law_module_is_first_non_keyword(es: Seq<YamlEntry>)
    ensures
        spec_detect_module(es) matches Some(m) ==> {
            &&& !ansible_task_keywords().contains(m)
            &&& exists|i: int| {
                &&& 0 <= i < es.len()
                &&& str_of(es[i].key) == Some(m)
                &&& forall|j: int| 0 <= j < i ==> (#[trigger] str_of(es[j].key) matches Some(k) ==> ansible_task_keywords().contains(k))
            }
        },
        spec_detect_module(es) is None ==> forall|j: int|
            0 <= j < es.len() ==> (#[trigger] str_of(es[j].key) matches Some(k) ==> ansible_task_keywords().contains(k)),
{
    lemma_module_from(es, 0);
}

/// What `module_from(es, i)` finds: the first string key from `i` on that is
/// not a task keyword.
proof fn lemma_module_from(es: Seq<YamlEntry>, i: int)
    requires
        0 <= i,
    ensures
        module_from(es, i) matches Some(m) ==> {
            &&& !ansible_task_keywords().contains(m)
            &&& exists|x: int| {
                &&& i <= x < es.len()
                &&& str_of(es[x].key) == Some(m)
                &&& forall|j: int| i <= j < x ==> (#[trigger] str_of(es[j].key) matches Some(k) ==> ansible_task_keywords().contains(k))
            }
        },
        module_from(es, i) is None ==> forall|j: int|
            i <= j < es.len() ==> (#[trigger] str_of(es[j].key) matches Some(k) ==> ansible_task_keywords().contains(k)),
    decreases es.len() - i,
{
    if i < es.len() {
        lemma_module_from(es, i + 1);
        match str_of(es[i].key) {
            Some(k) => {
                lemma_task_keyword_listed(k);
                if spec_is_task_keyword(k) {
                    if let Some(m) = module_from(es, i + 1) {
                        let x = choose|x: int| {
                            &&& i + 1 <= x < es.len()
                            &&& str_of(es[x].key) == Some(m)
                            &&& forall|j: int| i + 1 <= j < x ==> (#[trigger] str_of(es[j].key) matches Some(k) ==> ansible_task_keywords().contains(k))
                        };
                        assert forall|j: int| i <= j < x implies (#[trigger] str_of(es[j].key) matches Some(k) ==> ansible_task_keywords().contains(k)) by {}
                    }
                }
            },
            None => {
                if let Some(m) = module_from(es, i + 1) {
                    let x = choose|x: int| {
                        &&& i + 1 <= x < es.len()
                        &&& str_of(es[x].key) == Some(m)
                        &&& forall|j: int| i + 1 <= j < x ==> (#[trigger] str_of(es[j].key) matches Some(k) ==> ansible_task_keywords().contains(k))
                    };
                    assert forall|j: int| i <= j < x implies (#[trigger] str_of(es[j].key) matches Some(k) ==> ansible_task_keywords().contains(k)) by {}
                }
            },
        }
    }
}

/// The module a task runs: its first string key that is not a task keyword.
pub fn detect_module(task: &Vec<YamlEntry>) -> (r: Option<String>)
    ensures
        match r {
            Some(m) => spec_detect_module(task@) == Some(m@),
            None => spec_detect_module(task@) is None,
        },
{
    let mut i: usize = 0;
    while i < task.len()
        invariant
            0 <= i <= task@.len(),
            module_from(task@, 0) == module_from(task@, i as int),
        decreases task.len() - i,
    {
        match as_str(&task[i].key) {
            Some(k) => {
                if !is_task_keyword(k.as_str()) {
                    return Some(clone_string(k));
                }
            },
            None => {},
        }
        i += 1;
    }
    None
}

/// Whether a character is alphanumeric in Unicode's sense.
pub uninterp spec fn spec_is_alphanumeric(c: char) -> bool;

/// `char::is_alphanumeric`.
#[verifier::external_body]
fn is_alphanumeric(c: char) -> (r: bool)
    ensures
        r == spec_is_alphanumeric(c),
{
    c.is_alphanumeric()
}

/// The slug of one character.
pub open spec fn slug_char(c: char) -> char {
    if spec_is_alphanumeric(c) || c == '_' || c == '-' {
        ascii_lower(c)
    } else {
        '_'
    }
}

/// A name made safe for an IRI: letters, digits, `_` and `-` kept (ASCII
/// letters lower-cased), anything else replaced by `_`.
pub open spec fn spec_slugify(s: Seq<char>) -> Seq<char> {
    Seq::new(s.len(), |i: int| slug_char(s[i]))
}

/// A name made safe for an IRI: letters, digits, `_` and `-` kept (ASCII
/// letters lower-cased), anything else replaced by `_`.
pub fn slugify(s: &str) -> (r: String)
    ensures
        r@ == spec_slugify(s@),
{
    let cs = crate::text::chars_of(s);
    let mut out = String::new();
    let mut i: usize = 0;
    while i < cs.len()
        invariant
            0 <= i <= cs@.len(),
            cs@ == s@,
            out@ == spec_slugify(s@).take(i as int),
        decreases cs.len() - i,
    {
        let c = cs[i];
        let d = if is_alphanumeric(c) || c == '_' || c == '-' {
            to_ascii_lowercase(c)
        } else {
            '_'
        };
        push_char(&mut out, d);
        assert(out@ =~= spec_slugify(s@).take(i + 1));
        i += 1;
    }
    assert(spec_slugify(s@).take(cs@.len() as int) =~= spec_slugify(s@));
    out
}

/// A playbook read: its quads, how many plays and tasks it has, and the roles
/// its plays use, each once, in order of first use.
pub struct PlaybookParseResult {
    pub quads: Vec<Quad>,
    pub play_count: u32,
    pub task_count: u32,
    pub role_refs: Vec<String>,
}

/// The plays of a playbook: the document's items, or the items of its only
/// item when that is itself a sequence.
pub open spec fn plays_of(docs: Seq<Yaml>) -> Seq<Yaml> {
    if docs.len() == 1 && docs[0] is Sequence {
        match docs[0] {
            Yaml::Sequence(xs, _) => xs@,
            _ => docs,
        }
    } else {
        docs
    }
}

/// `kind`, `rel`, `"/"` and the numeral of `a`.
pub open spec fn path1(kind: Seq<char>, rel: Seq<char>, a: nat) -> Seq<char> {
    kind + rel + "/"@ + dec(a)
}

/// The IRI of a playbook.
pub open spec fn playbook_uri(rel: Seq<char>) -> Seq<char> {
    ans("playbook/"@ + rel)
}

/// The IRI of play `pi` of a playbook.
pub open spec fn play_uri(rel: Seq<char>, pi: nat) -> Seq<char> {
    ans(path1("play/"@, rel, pi))
}

/// The name quad of `subject` when `v` holds a string.
pub open spec fn name_quads(subject: Seq<char>, v: Option<Yaml>) -> Seq<QuadModel> {
    match v {
        Some(y) => match str_of(y) {
            Some(n) => seq![q(subject, ans("name"@), lit(n))],
            None => Seq::empty(),
        },
        None => Seq::empty(),
    }
}

/// The module quad of a task or handler that runs a module.
pub open spec fn module_quads(subject: Seq<char>, es: Seq<YamlEntry>) -> Seq<QuadModel> {
    match spec_detect_module(es) {
        Some(m) => seq![q(subject, ans("module"@), lit(m))],
        None => Seq::empty(),
    }
}

/// The quads of task `ti` of play `pi`.
pub open spec fn task_quads(rel: Seq<char>, pi: nat, ti: nat, es: Seq<YamlEntry>) -> Seq<QuadModel> {
    let t = ans(path1("task/"@, rel, pi) + "/"@ + dec(ti));
    seq![
        q_type(t, ans("Task"@)),
        q_link(play_uri(rel, pi), ans("hasTask"@), t),
        q(t, ans("sourceFile"@), lit(rel)),
    ] + name_quads(t, spec_get(es, "name"@)) + module_quads(t, es)
}

/// The quads of the tasks of play `pi`; items that are not mappings are skipped.
pub open spec fn tasks_quads(rel: Seq<char>, pi: nat, tasks: Seq<Yaml>) -> Seq<QuadModel>
    decreases tasks.len(),
{
    if tasks.len() == 0 {
        Seq::empty()
    } else {
        tasks_quads(rel, pi, tasks.drop_last()) + match entries_of(tasks.last()) {
            Some(es) => task_quads(rel, pi, (tasks.len() - 1) as nat, es),
            None => Seq::empty(),
        }
    }
}

/// How many of the items are mappings.
pub open spec fn mapping_count(xs: Seq<Yaml>) -> nat
    decreases xs.len(),
{
    if xs.len() == 0 {
        0
    } else {
        mapping_count(xs.drop_last()) + if entries_of(xs.last()) is Some { 1nat } else { 0nat }
    }
}

/// The name of a handler: its `name` when that is a string, else `unnamed`.
pub open spec fn handler_name(es: Seq<YamlEntry>) -> Seq<char> {
    match spec_get(es, "name"@) {
        Some(v) => match str_of(v) {
            Some(n) => n,
            None => "unnamed"@,
        },
        None => "unnamed"@,
    }
}

/// The quads of a handler of play `pi`.
pub open spec fn handler_quads(rel: Seq<char>, pi: nat, es: Seq<YamlEntry>) -> Seq<QuadModel> {
    let name = handler_name(es);
    let h = ans(path1("handler/"@, rel, pi) + "/"@ + spec_slugify(name));
    seq![
        q_type(h, ans("Handler"@)),
        q(h, ans("name"@), lit(name)),
        q(h, ans("sourceFile"@), lit(rel)),
    ] + module_quads(h, es) + seq![q_link(play_uri(rel, pi), ans("hasHandler"@), h)]
}

/// The quads of the handlers of play `pi`.
pub open spec fn handlers_quads(rel: Seq<char>, pi: nat, hs: Seq<Yaml>) -> Seq<QuadModel>
    decreases hs.len(),
{
    if hs.len() == 0 {
        Seq::empty()
    } else {
        handlers_quads(rel, pi, hs.drop_last()) + match entries_of(hs.last()) {
            Some(es) => handler_quads(rel, pi, es),
            None => Seq::empty(),
        }
    }
}

/// The string of a value that holds one, or the empty string.
pub open spec fn str_or_empty(v: Option<Yaml>) -> Seq<char> {
    match v {
        Some(y) => match str_of(y) {
            Some(s) => s,
            None => Seq::empty(),
        },
        None => Seq::empty(),
    }
}

/// The role an entry of `roles` names: a plain string, or the `role` (else
/// `name`) of a mapping; other entries name none.
pub open spec fn role_name_of(v: Yaml) -> Option<Seq<char>> {
    match v {
        Yaml::Str(s) => Some(s@),
        Yaml::Mapping(es, _) => Some(
            if spec_get(es@, "role"@) is Some {
                str_or_empty(spec_get(es@, "role"@))
            } else {
                str_or_empty(spec_get(es@, "name"@))
            },
        ),
        _ => None,
    }
}

/// The role a `roles` entry uses, if it names a non-empty one.
pub open spec fn used_role(v: Yaml) -> Option<Seq<char>> {
    match role_name_of(v) {
        Some(n) => if n.len() > 0 { Some(n) } else { None },
        None => None,
    }
}

/// The quads linking play `pi` to the roles it uses.
pub open spec fn roles_quads(rel: Seq<char>, pi: nat, rs: Seq<Yaml>) -> Seq<QuadModel>
    decreases rs.len(),
{
    if rs.len() == 0 {
        Seq::empty()
    } else {
        roles_quads(rel, pi, rs.drop_last()) + match used_role(rs.last()) {
            Some(n) => seq![q_link(play_uri(rel, pi), ans("usesRole"@), ans("role/"@ + n))],
            None => Seq::empty(),
        }
    }
}

/// The roles used, added in order to `acc` unless already there.
pub open spec fn roles_refs(acc: Seq<Seq<char>>, rs: Seq<Yaml>) -> Seq<Seq<char>>
    decreases rs.len(),
{
    if rs.len() == 0 {
        acc
    } else {
        let a = roles_refs(acc, rs.drop_last());
        match used_role(rs.last()) {
            Some(n) => push_new(a, n),
            None => a,
        }
    }
}

/// The items of the sequence under `k`, or none.
pub open spec fn list_under(es: Seq<YamlEntry>, k: Seq<char>) -> Seq<Yaml> {
    match spec_get(es, k) {
        Some(v) => match items_of(v) {
            Some(xs) => xs,
            None => Seq::empty(),
        },
        None => Seq::empty(),
    }
}

/// The quads that describe play `pi` itself, whose mapping has entries `es`.
pub open spec fn play_head_quads(rel: Seq<char>, pi: nat, es: Seq<YamlEntry>) -> Seq<QuadModel> {
    let p = play_uri(rel, pi);
    let hosts = match spec_get(es, "hosts"@) {
        Some(h) => seq![q(p, ans("targetHosts"@), lit(yaml_text(h)))],
        None => Seq::empty(),
    };
    seq![
        q_type(p, ans("Play"@)),
        q_link(playbook_uri(rel), ans("hasPlay"@), p),
        q(p, ans("sourceFile"@), lit(rel)),
    ] + name_quads(p, spec_get(es, "name"@)) + hosts
}

/// The quads of play `pi`, whose mapping has entries `es`.
pub open spec fn play_quads(rel: Seq<char>, pi: nat, es: Seq<YamlEntry>) -> Seq<QuadModel> {
    play_head_quads(rel, pi, es)
        + tasks_quads(rel, pi, list_under(es, "tasks"@))
        + handlers_quads(rel, pi, list_under(es, "handlers"@))
        + roles_quads(rel, pi, list_under(es, "roles"@))
}

/// The quads of the plays; items that are not mappings are skipped but counted
/// in the numbering.
pub open spec fn plays_quads(rel: Seq<char>, plays: Seq<Yaml>) -> Seq<QuadModel>
    decreases plays.len(),
{
    if plays.len() == 0 {
        Seq::empty()
    } else {
        plays_quads(rel, plays.drop_last()) + match entries_of(plays.last()) {
            Some(es) => play_quads(rel, (plays.len() - 1) as nat, es),
            None => Seq::empty(),
        }
    }
}

/// The quads of a playbook.
pub open spec fn playbook_quads(rel: Seq<char>, plays: Seq<Yaml>) -> Seq<QuadModel> {
    let b = playbook_uri(rel);
    seq![
        q_type(b, ans("Playbook"@)),
        q(b, ans("name"@), lit(rel)),
        q(b, ans("sourceFile"@), lit(rel)),
    ] + plays_quads(rel, plays)
}

/// How many tasks the plays have.
pub open spec fn plays_task_count(plays: Seq<Yaml>) -> nat
    decreases plays.len(),
{
    if plays.len() == 0 {
        0
    } else {
        plays_task_count(plays.drop_last()) + match entries_of(plays.last()) {
            Some(es) => mapping_count(list_under(es, "tasks"@)),
            None => 0,
        }
    }
}

/// The roles the plays use, each once, in order of first use.
pub open spec fn plays_role_refs(plays: Seq<Yaml>) -> Seq<Seq<char>>
    decreases plays.len(),
{
    if plays.len() == 0 {
        Seq::empty()
    } else {
        let a = plays_role_refs(plays.drop_last());
        match entries_of(plays.last()) {
            Some(es) => roles_refs(a, list_under(es, "roles"@)),
            None => a,
        }
    }
}

/// `kind`, `rel`, `"/"` and the numeral of `a`.
fn path_idx(kind: &str, rel: &str, a: usize) -> (r: String)
    ensures
        r@ == path1(kind@, rel@, a as nat),
{
    let mut out = concat(kind, rel);
    out.append("/");
    push_decimal_u64(&mut out, a as u64);
    out
}

/// Appends the name quad of `subject` when `v` holds a string.
fn emit_name(out: &mut Vec<Quad>, subject: &String, v: Option<&Yaml>)
    ensures
        quads_model(final(out)@) == quads_model(old(out)@) + name_quads(subject@, match v {
            Some(y) => Some(*y),
            None => None,
        }),
{
    let ghost start = quads_model(out@);
    match v {
        Some(y) => match as_str(y) {
            Some(n) => {
                emit(out, literal_quad(subject, &ans_node("name"), n.as_str()));
            },
            None => {},
        },
        None => {},
    }
    assert(quads_model(out@) =~= start + name_quads(subject@, match v {
        Some(y) => Some(*y),
        None => None,
    }));
}

/// Appends the module quad of a task or handler that runs a module.
fn emit_module(out: &mut Vec<Quad>, subject: &String, es: &Vec<YamlEntry>)
    ensures
        quads_model(final(out)@) == quads_model(old(out)@) + module_quads(subject@, es@),
{
    let ghost start = quads_model(out@);
    match detect_module(es) {
        Some(m) => {
            emit(out, literal_quad(subject, &ans_node("module"), m.as_str()));
        },
        None => {},
    }
    assert(quads_model(out@) =~= start + module_quads(subject@, es@));
}

/// The items of the sequence under `k`, if there is one.
fn list_under_exec<'a>(es: &'a Vec<YamlEntry>, k: &str) -> (r: Option<&'a Vec<Yaml>>)
    ensures
        match r {
            Some(xs) => list_under(es@, k@) == xs@,
            None => list_under(es@, k@) == Seq::<Yaml>::empty(),
        },
{
    match get(es, k) {
        Some(v) => as_sequence(v),
        None => None,
    }
}

/// Appends the quads of the tasks of play `pi`, counting them.
fn emit_tasks(out: &mut Vec<Quad>, rel: &str, pi: usize, tasks: &Vec<Yaml>, count: &mut u32)
    requires
        *old(count) + mapping_count(tasks@) <= u32::MAX,
    ensures
        quads_model(final(out)@) == quads_model(old(out)@) + tasks_quads(rel@, pi as nat, tasks@),
        *final(count) == *old(count) + mapping_count(tasks@),
{
    let ghost start = quads_model(out@);
    let play = ans_node(path_idx("play/", rel, pi).as_str());
    let mut i: usize = 0;
    while i < tasks.len()
        invariant
            0 <= i <= tasks@.len(),
            play@ == play_uri(rel@, pi as nat),
            *old(count) + mapping_count(tasks@) <= u32::MAX,
            quads_model(out@) == start + tasks_quads(rel@, pi as nat, tasks@.take(i as int)),
            *count == *old(count) + mapping_count(tasks@.take(i as int)),
        decreases tasks.len() - i,
    {
        assert(tasks@.take(i + 1).drop_last() =~= tasks@.take(i as int));
        proof {
            lemma_mapping_count_prefix(tasks@, i as int + 1);
        }
        let ghost before = quads_model(out@);
        match as_mapping(&tasks[i]) {
            Some(es) => {
                let mut local = path_idx("task/", rel, pi);
                local.append("/");
                push_decimal_u64(&mut local, i as u64);
                let t = ans_node(local.as_str());
                emit(out, type_quad(&t, &ans_node("Task")));
                emit(out, link_quad(&play, &ans_node("hasTask"), &t));
                emit(out, literal_quad(&t, &ans_node("sourceFile"), rel));
                emit_name(out, &t, get(es, "name"));
                emit_module(out, &t, es);
                assert(quads_model(out@) =~= before + task_quads(rel@, pi as nat, i as nat, es@));
                *count = *count + 1;
            },
            None => {},
        }
        assert(quads_model(out@) =~= start + tasks_quads(rel@, pi as nat, tasks@.take(i + 1)));
        i += 1;
    }
    assert(tasks@.take(tasks@.len() as int) =~= tasks@);
}

/// A prefix never has more mappings than the whole.
proof fn lemma_mapping_count_prefix(xs: Seq<Yaml>, n: int)
    requires
        0 <= n <= xs.len(),
    ensures
        mapping_count(xs.take(n)) <= mapping_count(xs),
    decreases xs.len(),
{
    if n < xs.len() {
        assert(xs.drop_last().take(n) =~= xs.take(n));
        lemma_mapping_count_prefix(xs.drop_last(), n);
    } else {
        assert(xs.take(n) =~= xs);
    }
}

/// The name of a handler: its `name` when that is a string, else `unnamed`.
pub fn handler_name_exec(es: &Vec<YamlEntry>) -> (r: String)
    ensures
        r@ == handler_name(es@),
{
    match get(es, "name") {
        Some(v) => match as_str(v) {
            Some(n) => clone_string(n),
            None => to_owned_string("unnamed"),
        },
        None => to_owned_string("unnamed"),
    }
}

/// Appends the quads of the handlers of play `pi`.
fn emit_handlers(out: &mut Vec<Quad>, rel: &str, pi: usize, hs: &Vec<Yaml>)
    ensures
        quads_model(final(out)@) == quads_model(old(out)@) + handlers_quads(rel@, pi as nat, hs@),
{
    let ghost start = quads_model(out@);
    let play = ans_node(path_idx("play/", rel, pi).as_str());
    let mut i: usize = 0;
    while i < hs.len()
        invariant
            0 <= i <= hs@.len(),
            play@ == play_uri(rel@, pi as nat),
            quads_model(out@) == start + handlers_quads(rel@, pi as nat, hs@.take(i as int)),
        decreases hs.len() - i,
    {
        assert(hs@.take(i + 1).drop_last() =~= hs@.take(i as int));
        let ghost before = quads_model(out@);
        match as_mapping(&hs[i]) {
            Some(es) => {
                let name = handler_name_exec(es);
                let mut local = path_idx("handler/", rel, pi);
                local.append("/");
                let slug = slugify(name.as_str());
                local.append(slug.as_str());
                let h = ans_node(local.as_str());
                emit(out, type_quad(&h, &ans_node("Handler")));
                emit(out, literal_quad(&h, &ans_node("name"), name.as_str()));
                emit(out, literal_quad(&h, &ans_node("sourceFile"), rel));
                emit_module(out, &h, es);
                emit(out, link_quad(&play, &ans_node("hasHandler"), &h));
                assert(quads_model(out@) =~= before + handler_quads(rel@, pi as nat, es@));
            },
            None => {},
        }
        assert(quads_model(out@) =~= start + handlers_quads(rel@, pi as nat, hs@.take(i + 1)));
        i += 1;
    }
    assert(hs@.take(hs@.len() as int) =~= hs@);
}

/// The string a value holds, or the empty string.
fn str_or_empty_exec(v: Option<&Yaml>) -> (r: String)
    ensures
        r@ == str_or_empty(match v {
            Some(y) => Some(*y),
            None => None,
        }),
{
    match v {
        Some(y) => match as_str(y) {
            Some(s) => clone_string(s),
            None => String::new(),
        },
        None => String::new(),
    }
}

/// The role an entry of `roles` names, if any.
pub fn role_name_exec(v: &Yaml) -> (r: Option<String>)
    ensures
        match r {
            Some(n) => role_name_of(*v) == Some(n@),
            None => role_name_of(*v) is None,
        },
{
    match v {
        Yaml::Str(s) => Some(clone_string(s)),
        Yaml::Mapping(es, _) => {
            let role = get(es, "role");
            if role.is_some() {
                Some(str_or_empty_exec(role))
            } else {
                Some(str_or_empty_exec(get(es, "name")))
            }
        },
        _ => None,
    }
}

/// Appends the quads linking play `pi` to the roles it uses, and adds each
/// role to `refs` unless already there.
fn emit_roles(out: &mut Vec<Quad>, rel: &str, pi: usize, rs: &Vec<Yaml>, refs: &mut Vec<String>)
    ensures
        quads_model(final(out)@) == quads_model(old(out)@) + roles_quads(rel@, pi as nat, rs@),
        crate::inventory::names_model(final(refs)@) == roles_refs(crate::inventory::names_model(old(refs)@), rs@),
{
    let ghost start = quads_model(out@);
    let ghost r0 = crate::inventory::names_model(refs@);
    let play = ans_node(path_idx("play/", rel, pi).as_str());
    let mut i: usize = 0;
    while i < rs.len()
        invariant
            0 <= i <= rs@.len(),
            play@ == play_uri(rel@, pi as nat),
            r0 == crate::inventory::names_model(old(refs)@),
            quads_model(out@) == start + roles_quads(rel@, pi as nat, rs@.take(i as int)),
            crate::inventory::names_model(refs@) == roles_refs(r0, rs@.take(i as int)),
        decreases rs.len() - i,
    {
        assert(rs@.take(i + 1).drop_last() =~= rs@.take(i as int));
        let ghost before = quads_model(out@);
        match role_name_exec(&rs[i]) {
            Some(n) => {
                if !n.as_str().is_empty() {
                    let u = ans_node(concat("role/", n.as_str()).as_str());
                    emit(out, link_quad(&play, &ans_node("usesRole"), &u));
                    crate::inventory::push_name_new(refs, n.as_str());
                }
            },
            None => {},
        }
        assert(quads_model(out@) =~= start + roles_quads(rel@, pi as nat, rs@.take(i + 1)));
        i += 1;
    }
    assert(rs@.take(rs@.len() as int) =~= rs@);
}

/// Appends the quads that describe play `pi` itself.
fn emit_play_head(out: &mut Vec<Quad>, rel: &str, pi: usize, es: &Vec<YamlEntry>)
    ensures
        quads_model(final(out)@) == quads_model(old(out)@) + play_head_quads(rel@, pi as nat, es@),
{
    let ghost start = quads_model(out@);
    let p = ans_node(path_idx("play/", rel, pi).as_str());
    let b = ans_node(concat("playbook/", rel).as_str());
    emit(out, type_quad(&p, &ans_node("Play")));
    emit(out, link_quad(&b, &ans_node("hasPlay"), &p));
    emit(out, literal_quad(&p, &ans_node("sourceFile"), rel));
    emit_name(out, &p, get(es, "name"));
    let ghost mid = quads_model(out@);
    match get(es, "hosts") {
        Some(h) => {
            let t = yaml_value_to_string(h);
            emit(out, literal_quad(&p, &ans_node("targetHosts"), t.as_str()));
        },
        None => {},
    }
    assert(quads_model(out@) =~= start + play_head_quads(rel@, pi as nat, es@));
}

/// Appends the quads of play `pi`, counting its tasks and collecting its roles.
fn emit_play(out: &mut Vec<Quad>, rel: &str, pi: usize, es: &Vec<YamlEntry>, task_count: &mut u32, refs: &mut Vec<String>)
    requires
        *old(task_count) + mapping_count(list_under(es@, "tasks"@)) <= u32::MAX,
    ensures
        quads_model(final(out)@) == quads_model(old(out)@) + play_quads(rel@, pi as nat, es@),
        *final(task_count) == *old(task_count) + mapping_count(list_under(es@, "tasks"@)),
        crate::inventory::names_model(final(refs)@) == roles_refs(crate::inventory::names_model(old(refs)@), list_under(es@, "roles"@)),
{
    let ghost start = quads_model(out@);
    emit_play_head(out, rel, pi, es);
    let empty: Vec<Yaml> = Vec::new();
    let tasks = match list_under_exec(es, "tasks") {
        Some(xs) => xs,
        None => &empty,
    };
    emit_tasks(out, rel, pi, tasks, task_count);
    let handlers = match list_under_exec(es, "handlers") {
        Some(xs) => xs,
        None => &empty,
    };
    emit_handlers(out, rel, pi, handlers);
    let roles = match list_under_exec(es, "roles") {
        Some(xs) => xs,
        None => &empty,
    };
    emit_roles(out, rel, pi, roles, refs);
    assert(quads_model(out@) =~= start + play_quads(rel@, pi as nat, es@));
}

/// A prefix never has more tasks than the whole.
proof fn lemma_plays_task_count_prefix(plays: Seq<Yaml>, n: int)
    requires
        0 <= n <= plays.len(),
    ensures
        plays_task_count(plays.take(n)) <= plays_task_count(plays),
    decreases plays.len(),
{
    if n < plays.len() {
        assert(plays.drop_last().take(n) =~= plays.take(n));
        lemma_plays_task_count_prefix(plays.drop_last(), n);
    } else {
        assert(plays.take(n) =~= plays);
    }
}

/// A prefix never has more plays than the whole.
proof fn lemma_mapping_count_le_len(xs: Seq<Yaml>)
    ensures
        mapping_count(xs) <= xs.len(),
    decreases xs.len(),
{
    if xs.len() > 0 {
        lemma_mapping_count_le_len(xs.drop_last());
    }
}

/// Reads a playbook: `docs` is its file read as a YAML list, or the parser's
/// message. The playbook, its plays and their tasks, handlers and role uses
/// become quads; plays and tasks are counted, and the roles used collected.
pub fn parse_playbook(rel_path: &str, docs: &Result<Vec<Yaml>, String>) -> (r: Result<PlaybookParseResult, AnsibleLoadError>)
    requires
        docs is Ok ==> plays_task_count(plays_of(docs->Ok_0@)) <= u32::MAX,
        docs is Ok ==> plays_of(docs->Ok_0@).len() <= u32::MAX,
    ensures
        match docs {
            Err(e) => r matches Err(AnsibleLoadError::Yaml(m)) && m@ == e@,
            Ok(d) => r matches Ok(res) && {
                let plays = plays_of(d@);
                &&& quads_model(res.quads@) == playbook_quads(rel_path@, plays)
                &&& res.play_count == mapping_count(plays)
                &&& res.task_count == plays_task_count(plays)
                &&& crate::inventory::names_model(res.role_refs@) == plays_role_refs(plays)
            },
        },
{
    let d = match docs {
        Err(e) => {
            return Err(AnsibleLoadError::Yaml(clone_string(e)));
        },
        Ok(d) => d,
    };
    let plays: &Vec<Yaml> = if d.len() == 1 {
        match &d[0] {
            Yaml::Sequence(xs, _) => xs,
            _ => d,
        }
    } else {
        d
    };
    assert(plays@ == plays_of(d@));
    let ghost ps = plays@;
    let mut quads: Vec<Quad> = Vec::new();
    let b = ans_node(concat("playbook/", rel_path).as_str());
    emit(&mut quads, type_quad(&b, &ans_node("Playbook")));
    emit(&mut quads, literal_quad(&b, &ans_node("name"), rel_path));
    emit(&mut quads, literal_quad(&b, &ans_node("sourceFile"), rel_path));
    let ghost head = quads_model(quads@);
    let mut play_count: u32 = 0;
    let mut task_count: u32 = 0;
    let mut role_refs: Vec<String> = Vec::new();
    proof {
        lemma_mapping_count_le_len(ps);
    }
    let mut i: usize = 0;
    while i < plays.len()
        invariant
            0 <= i <= ps.len(),
            ps == plays@,
            ps.len() <= u32::MAX,
            plays_task_count(ps) <= u32::MAX,
            mapping_count(ps) <= ps.len(),
            quads_model(quads@) == head + plays_quads(rel_path@, ps.take(i as int)),
            play_count == mapping_count(ps.take(i as int)),
            task_count == plays_task_count(ps.take(i as int)),
            crate::inventory::names_model(role_refs@) == plays_role_refs(ps.take(i as int)),
        decreases plays.len() - i,
    {
        assert(ps.take(i + 1).drop_last() =~= ps.take(i as int));
        proof {
            lemma_plays_task_count_prefix(ps, i as int + 1);
            lemma_mapping_count_prefix(ps, i as int + 1);
        }
        match as_mapping(&plays[i]) {
            Some(es) => {
                emit_play(&mut quads, rel_path, i, es, &mut task_count, &mut role_refs);
                play_count = play_count + 1;
            },
            None => {},
        }
        assert(quads_model(quads@) =~= head + plays_quads(rel_path@, ps.take(i + 1)));
        i += 1;
    }
    assert(ps.take(ps.len() as int) =~= ps);
    Ok(PlaybookParseResult { quads, play_count, task_count, role_refs })
}

/// How many of the values are mappings.
fn count_mappings(xs: &Vec<Yaml>) -> (r: usize)
    ensures
        r == mapping_count(xs@),
{
    let mut n: usize = 0;
    let mut i: usize = 0;
    while i < xs.len()
        invariant
            0 <= i <= xs@.len(),
            n == mapping_count(xs@.take(i as int)),
            n <= i,
        decreases xs.len() - i,
    {
        assert(xs@.take(i + 1).drop_last() =~= xs@.take(i as int));
        if as_mapping(&xs[i]).is_some() {
            n = n + 1;
        }
        i += 1;
    }
    assert(xs@.take(xs@.len() as int) =~= xs@);
    n
}

/// The number of plays and of their tasks, when the plays and the tasks
/// can be counted in a `u32`.
pub fn playbook_counts(docs: &Vec<Yaml>) -> (r: Option<(u32, u32)>)
    ensures
        match r {
            Some((p, t)) => {
                &&& p == mapping_count(plays_of(docs@))
                &&& t == plays_task_count(plays_of(docs@))
                &&& plays_of(docs@).len() <= u32::MAX
            },
            None => plays_of(docs@).len() > u32::MAX || plays_task_count(plays_of(docs@)) > u32::MAX,
        },
{
    let plays: &Vec<Yaml> = if docs.len() == 1 {
        match &docs[0] {
            Yaml::Sequence(xs, _) => xs,
            _ => docs,
        }
    } else {
        docs
    };
    assert(plays@ == plays_of(docs@));
    if plays.len() > u32::MAX as usize {
        return None;
    }
    let p = count_mappings(plays);
    proof {
        lemma_mapping_count_le_len(plays@);
    }
    let mut t: u64 = 0;
    let mut i: usize = 0;
    while i < plays.len()
        invariant
            0 <= i <= plays@.len(),
            t == plays_task_count(plays@.take(i as int)),
            t <= u32::MAX,
            plays@ == plays_of(docs@),
            p == mapping_count(plays@),
            p <= u32::MAX,
            plays@.len() <= u32::MAX,
        decreases plays.len() - i,
    {
        assert(plays@.take(i + 1).drop_last() =~= plays@.take(i as int));
        let n: usize = match as_mapping(&plays[i]) {
            Some(es) => match list_under_exec(es, "tasks") {
                Some(tasks) => count_mappings(tasks),
                None => 0,
            },
            None => 0,
        };
        if n as u64 > u32::MAX as u64 - t {
            proof {
                lemma_plays_task_count_prefix(plays@, i + 1);
            }
            return None;
        }
        t = t + n as u64;
        i += 1;
    }
    assert(plays@.take(plays@.len() as int) =~= plays@);
    Some((p as u32, t as u32))
}


} // verus!
