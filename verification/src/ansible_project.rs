//! A whole Ansible project as RDF: its inventory, playbooks and roles, with
//! stubs for roles that playbooks use but the project does not hold.
use vstd::prelude::*;
use vstd::string::StringExecFns;

use crate::ansible::{
    ans, ans_node, concat, inventory_data_to_quads, inventory_quads, link_quad, literal_quad,
    type_quad, var_total,
};
use crate::inventory::{names_model, push_new, InventoryData, InventoryModel};
use crate::playbook::{
    mapping_count, parse_playbook, playbook_quads, plays_of, plays_role_refs, plays_task_count,
    PlaybookParseResult, playbook_counts,
};
use crate::rdf::{
    emit, emit_all, lit, q, q_type, quads_model, rdf_type_iri, GraphModel, Quad, QuadModel, Term,
    TermModel,
};
use crate::role::{role_uri, RoleParseResult};
use crate::text::{chars_of, starts_with, starts_with_exec, str_eq, trim, trim_exec};
use crate::yaml::{parse_yaml_list, yaml_docs, Yaml};

verus! {

broadcast use vstd::string::group_string_axioms;

/// An inventory read: its quads and how many hosts, groups and variables it describes.
pub struct InventoryResult {
    pub quads: Vec<Quad>,
    pub host_count: u32,
    pub group_count: u32,
    pub var_count: u32,
}

/// The quads and counts of an inventory.
pub fn inventory_result(data: &InventoryData) -> (r: InventoryResult)
    requires
        data@.hosts.len() <= u32::MAX,
        data@.groups.len() <= u32::MAX,
        var_total(data@) <= u32::MAX,
    ensures
        quads_model(r.quads@) == inventory_quads(data@),
        r.host_count == data@.hosts.len(),
        r.group_count == data@.groups.len(),
        r.var_count == var_total(data@),
{
    let (quads, host_count, group_count, var_count) = inventory_data_to_quads(data);
    InventoryResult { quads, host_count, group_count, var_count }
}

/// Everything read from an Ansible project, with the counts of what it holds.
pub struct AnsibleProjectResult {
    pub quads: Vec<Quad>,
    pub host_count: u32,
    pub group_count: u32,
    pub var_count: u32,
    pub playbook_count: u32,
    pub play_count: u32,
    pub task_count: u32,
    pub role_count: u32,
    pub handler_count: u32,
    pub template_count: u32,
}

/// The inventory counts of two results agree.
pub open spec fn same_inventory_counts(a: AnsibleProjectResult, b: AnsibleProjectResult) -> bool {
    a.host_count == b.host_count && a.group_count == b.group_count && a.var_count == b.var_count
}

/// The playbook and play counts of two results agree.
pub open spec fn same_playbook_counts(a: AnsibleProjectResult, b: AnsibleProjectResult) -> bool {
    a.playbook_count == b.playbook_count && a.play_count == b.play_count
}

/// The handler and template counts of two results agree.
pub open spec fn same_role_part_counts(a: AnsibleProjectResult, b: AnsibleProjectResult) -> bool {
    a.handler_count == b.handler_count && a.template_count == b.template_count
}

/// A project being read: what has been read so far, and the roles its
/// playbooks use, each once, in order of first use.
pub struct ProjectLoad {
    pub result: AnsibleProjectResult,
    pub role_refs: Vec<String>,
}

/// Whether a file at the project root may be a playbook: not `ansible.cfg`,
/// not hidden, not `requirements.yml`.
pub open spec fn spec_is_playbook_candidate(file_name: Seq<char>) -> bool {
    !(file_name == "ansible.cfg"@ || starts_with(file_name, "."@) || file_name == "requirements.yml"@)
}

/// Whether a file at the project root may be a playbook: not `ansible.cfg`,
/// not hidden, not `requirements.yml`.
pub fn is_playbook_candidate(file_name: &str) -> (r: bool)
    ensures
        r == spec_is_playbook_candidate(file_name@),
{
    let f = chars_of(file_name);
    !(str_eq(file_name, "ansible.cfg") || starts_with_exec(&f, &chars_of(".")) || str_eq(
        file_name,
        "requirements.yml",
    ))
}

/// Whether a file's text looks like a list of plays: trimmed, it starts with
/// `-` (a `---` document start included).
pub open spec fn spec_looks_like_playbook(content: Seq<char>) -> bool {
    starts_with(trim(content), "-"@) || starts_with(trim(content), "---"@)
}

/// Whether a file is read as a playbook, and if so what it gives.
pub open spec fn playbook_read(file_name: Seq<char>, content: Seq<char>, docs: Result<Vec<Yaml>, String>) -> bool {
    spec_is_playbook_candidate(file_name) && spec_looks_like_playbook(content) && docs is Ok
}

/// Whether a playbook's text is read: the file may be a playbook, its text
/// parses as a YAML list, and its plays and tasks can still be counted in the
/// counters of `res`.
pub open spec fn playbook_text_read(file_name: Seq<char>, content: Seq<char>, res: AnsibleProjectResult) -> bool {
    &&& spec_is_playbook_candidate(file_name)
    &&& spec_looks_like_playbook(content)
    &&& yaml_docs(content) is Ok
    &&& {
        let plays = plays_of(yaml_docs(content)->Ok_0);
        &&& plays.len() <= u32::MAX
        &&& plays_task_count(plays) <= u32::MAX
        &&& res.playbook_count + 1 <= u32::MAX
        &&& res.play_count + mapping_count(plays) <= u32::MAX
        &&& res.task_count + plays_task_count(plays) <= u32::MAX
    }
}

/// The role stubs still missing from `qs` for the roles `refs`.
pub open spec fn has_role_quad(qs: Seq<QuadModel>, n: Seq<char>) -> bool {
    exists|i: int| 0 <= i < qs.len() && #[trigger] is_role_quad(qs[i], n)
}

/// A quad saying that role `n` is a role, in any graph.
pub open spec fn is_role_quad(x: QuadModel, n: Seq<char>) -> bool {
    &&& x.subject == role_uri(n)
    &&& x.predicate == rdf_type_iri()
    &&& x.object == TermModel::Iri(ans("Role"@))
}

/// The quads with a stub added for each role of `refs` that has no role quad yet.
pub open spec fn with_stubs(qs: Seq<QuadModel>, refs: Seq<Seq<char>>) -> Seq<QuadModel>
    decreases refs.len(),
{
    if refs.len() == 0 {
        qs
    } else {
        let a = with_stubs(qs, refs.drop_last());
        let n = refs.last();
        if has_role_quad(a, n) {
            a
        } else {
            a + seq![q_type(role_uri(n), ans("Role"@)), q(role_uri(n), ans("name"@), lit(n))]
        }
    }
}

/// How many stubs `with_stubs` adds.
pub open spec fn stub_count(qs: Seq<QuadModel>, refs: Seq<Seq<char>>) -> nat
    decreases refs.len(),
{
    if refs.len() == 0 {
        0
    } else {
        stub_count(qs, refs.drop_last()) + if has_role_quad(with_stubs(qs, refs.drop_last()), refs.last()) {
            0nat
        } else {
            1nat
        }
    }
}

impl ProjectLoad {
    /// Nothing read yet.
    pub fn new() -> (r: Self)
        ensures
            r.result.quads@.len() == 0,
            r.result.host_count == 0 && r.result.group_count == 0 && r.result.var_count == 0,
            r.result.playbook_count == 0 && r.result.play_count == 0 && r.result.task_count == 0,
            r.result.role_count == 0 && r.result.handler_count == 0 && r.result.template_count == 0,
            r.role_refs@.len() == 0,
    {
        ProjectLoad {
            result: AnsibleProjectResult {
                quads: Vec::new(),
                host_count: 0,
                group_count: 0,
                var_count: 0,
                playbook_count: 0,
                play_count: 0,
                task_count: 0,
                role_count: 0,
                handler_count: 0,
                template_count: 0,
            },
            role_refs: Vec::new(),
        }
    }

    /// Adds an inventory read.
    pub fn add_inventory(&mut self, inv: InventoryResult)
        requires
            old(self).result.host_count + inv.host_count <= u32::MAX,
            old(self).result.group_count + inv.group_count <= u32::MAX,
            old(self).result.var_count + inv.var_count <= u32::MAX,
        ensures
            quads_model(final(self).result.quads@) == quads_model(old(self).result.quads@) + quads_model(inv.quads@),
            final(self).result.host_count == old(self).result.host_count + inv.host_count,
            final(self).result.group_count == old(self).result.group_count + inv.group_count,
            final(self).result.var_count == old(self).result.var_count + inv.var_count,
            same_playbook_counts(final(self).result, old(self).result),
            final(self).result.task_count == old(self).result.task_count,
            final(self).result.role_count == old(self).result.role_count,
            same_role_part_counts(final(self).result, old(self).result),
            final(self).role_refs == old(self).role_refs,
    {
        self.result.host_count = self.result.host_count + inv.host_count;
        self.result.group_count = self.result.group_count + inv.group_count;
        self.result.var_count = self.result.var_count + inv.var_count;
        emit_all(&mut self.result.quads, inv.quads);
    }

    /// Reads a file at the project root as a playbook when it may be one:
    /// `docs` is the file read as a YAML list, or the parser's message. A
    /// file that is not a playbook is skipped. Returns whether it was read.
    pub fn add_playbook(&mut self, file_name: &str, content: &str, docs: &Result<Vec<Yaml>, String>) -> (r: bool)
        requires
            playbook_read(file_name@, content@, *docs) ==> {
                let plays = plays_of(docs->Ok_0@);
                &&& plays.len() <= u32::MAX
                &&& plays_task_count(plays) <= u32::MAX
                &&& old(self).result.playbook_count + 1 <= u32::MAX
                &&& old(self).result.play_count + mapping_count(plays) <= u32::MAX
                &&& old(self).result.task_count + plays_task_count(plays) <= u32::MAX
            },
        ensures
            r == playbook_read(file_name@, content@, *docs),
            !r ==> *final(self) == *old(self),
            r ==> {
                let plays = plays_of(docs->Ok_0@);
                &&& quads_model(final(self).result.quads@) == quads_model(old(self).result.quads@)
                    + playbook_quads(file_name@, plays)
                &&& final(self).result.playbook_count == old(self).result.playbook_count + 1
                &&& final(self).result.play_count == old(self).result.play_count + mapping_count(plays)
                &&& final(self).result.task_count == old(self).result.task_count + plays_task_count(plays)
                &&& same_inventory_counts(final(self).result, old(self).result)
                &&& final(self).result.role_count == old(self).result.role_count
                &&& same_role_part_counts(final(self).result, old(self).result)
                &&& names_model(final(self).role_refs@) == push_all_new(names_model(old(self).role_refs@), plays_role_refs(plays))
            },
    {
        if !is_playbook_candidate(file_name) {
            return false;
        }
        let t = trim_exec(&chars_of(content));
        if !starts_with_exec(&t, &chars_of("-")) && !starts_with_exec(&t, &chars_of("---")) {
            return false;
        }
        match parse_playbook(file_name, docs) {
            Ok(res) => {
                let PlaybookParseResult { quads, play_count, task_count, role_refs } = res;
                self.result.playbook_count = self.result.playbook_count + 1;
                self.result.play_count = self.result.play_count + play_count;
                self.result.task_count = self.result.task_count + task_count;
                emit_all(&mut self.result.quads, quads);
                let ghost acc0 = names_model(self.role_refs@);
                let ghost res1 = self.result;
                let mut i: usize = 0;
                while i < role_refs.len()
                    invariant
                        0 <= i <= role_refs@.len(),
                        self.result == res1,
                        names_model(self.role_refs@) == push_all_new(acc0, names_model(role_refs@).take(i as int)),
                    decreases role_refs.len() - i,
                {
                    assert(names_model(role_refs@).take(i + 1).drop_last() =~= names_model(role_refs@).take(i as int));
                    crate::inventory::push_name_new(&mut self.role_refs, role_refs[i].as_str());
                    i += 1;
                }
                assert(names_model(role_refs@).take(role_refs@.len() as int) =~= names_model(role_refs@));
                true
            },
            Err(_) => false,
        }
    }

    /// Reads a file at the project root as a playbook when it may be one,
    /// parsing its text as a YAML list (`yaml_docs`). A file that is not a
    /// playbook, does not parse, or whose plays and tasks cannot be counted
    /// further in the `u32` counters, is skipped. Returns whether it was read.
    pub fn add_playbook_text(&mut self, file_name: &str, content: &str) -> (r: bool)
        ensures
            r == playbook_text_read(file_name@, content@, old(self).result),
            !r ==> *final(self) == *old(self),
            r ==> {
                let plays = plays_of(yaml_docs(content@)->Ok_0);
                &&& quads_model(final(self).result.quads@) == quads_model(old(self).result.quads@)
                    + playbook_quads(file_name@, plays)
                &&& final(self).result.playbook_count == old(self).result.playbook_count + 1
                &&& final(self).result.play_count == old(self).result.play_count + mapping_count(plays)
                &&& final(self).result.task_count == old(self).result.task_count + plays_task_count(plays)
                &&& same_inventory_counts(final(self).result, old(self).result)
                &&& final(self).result.role_count == old(self).result.role_count
                &&& same_role_part_counts(final(self).result, old(self).result)
                &&& names_model(final(self).role_refs@) == push_all_new(names_model(old(self).role_refs@), plays_role_refs(plays))
            },
    {
        if !is_playbook_candidate(file_name) {
            return false;
        }
        let t = trim_exec(&chars_of(content));
        if !starts_with_exec(&t, &chars_of("-")) && !starts_with_exec(&t, &chars_of("---")) {
            return false;
        }
        let docs = parse_yaml_list(content);
        let fits = match &docs {
            Ok(d) => match playbook_counts(d) {
                Some((p, tc)) => self.result.playbook_count < u32::MAX && p <= u32::MAX - self.result.play_count
                    && tc <= u32::MAX - self.result.task_count,
                None => false,
            },
            Err(_) => false,
        };
        if !fits {
            return false;
        }
        self.add_playbook(file_name, content, &docs)
    }

    /// Adds a role read.
    pub fn add_role(&mut self, role: RoleParseResult)
        requires
            old(self).result.role_count + 1 <= u32::MAX,
            old(self).result.task_count + role.task_count <= u32::MAX,
            old(self).result.handler_count + role.handler_count <= u32::MAX,
            old(self).result.template_count + role.template_count <= u32::MAX,
        ensures
            quads_model(final(self).result.quads@) == quads_model(old(self).result.quads@) + quads_model(role.quads@),
            final(self).result.task_count == old(self).result.task_count + role.task_count,
            final(self).result.role_count == old(self).result.role_count + 1,
            final(self).result.handler_count == old(self).result.handler_count + role.handler_count,
            final(self).result.template_count == old(self).result.template_count + role.template_count,
            same_inventory_counts(final(self).result, old(self).result),
            same_playbook_counts(final(self).result, old(self).result),
            final(self).role_refs == old(self).role_refs,
    {
        self.result.role_count = self.result.role_count + 1;
        self.result.task_count = self.result.task_count + role.task_count;
        self.result.handler_count = self.result.handler_count + role.handler_count;
        self.result.template_count = self.result.template_count + role.template_count;
        emit_all(&mut self.result.quads, role.quads);
    }

    /// The project read: a stub (its type and name) is added for each role
    /// used by a playbook that nothing has described as a role.
    pub fn finish(self) -> (r: AnsibleProjectResult)
        requires
            self.result.role_count + self.role_refs@.len() <= u32::MAX,
        ensures
            quads_model(r.quads@) == with_stubs(quads_model(self.result.quads@), names_model(self.role_refs@)),
            r.role_count == self.result.role_count + stub_count(
                quads_model(self.result.quads@),
                names_model(self.role_refs@),
            ),
            same_inventory_counts(r, self.result),
            same_playbook_counts(r, self.result),
            r.task_count == self.result.task_count,
            same_role_part_counts(r, self.result),
    {
        let ProjectLoad { result, role_refs } = self;
        let mut result = result;
        let ghost q0 = quads_model(result.quads@);
        let ghost r0 = result;
        let ghost rc0 = result.role_count;
        let ghost refs = names_model(role_refs@);
        let role_type = ans_node("Role");
        let name_pred = ans_node("name");
        proof {
            lemma_stub_count_le(q0, refs);
        }
        let mut i: usize = 0;
        while i < role_refs.len()
            invariant
                0 <= i <= role_refs@.len(),
                refs == names_model(role_refs@),
                role_type@ == ans("Role"@),
                name_pred@ == ans("name"@),
                rc0 + role_refs@.len() <= u32::MAX,
                stub_count(q0, refs.take(i as int)) <= i,
                quads_model(result.quads@) == with_stubs(q0, refs.take(i as int)),
                same_inventory_counts(result, r0),
                same_playbook_counts(result, r0),
                result.task_count == r0.task_count,
                same_role_part_counts(result, r0),
                result.role_count == rc0 + stub_count(q0, refs.take(i as int)),
            decreases role_refs.len() - i,
        {
            assert(refs.take(i + 1).drop_last() =~= refs.take(i as int));
            let n = role_refs[i].as_str();
            let u = ans_node(concat("role/", n).as_str());
            let exists = has_role_quad_exec(&result.quads, &u, &role_type);
            if !exists {
                emit(&mut result.quads, type_quad(&u, &role_type));
                emit(&mut result.quads, literal_quad(&u, &name_pred, n));
                result.role_count = result.role_count + 1;
            }
            assert(quads_model(result.quads@) =~= with_stubs(q0, refs.take(i + 1)));
            i += 1;
        }
        assert(refs.take(refs.len() as int) =~= refs);
        result
    }
}

/// Adding role stubs keeps every quad already read, in place, and leaves every
/// role that the playbooks use described as a role.
pub proof fn law_used_roles_are_described(qs: Seq<QuadModel>, refs: Seq<Seq<char>>)
    ensures
        with_stubs(qs, refs).len() >= qs.len(),
        forall|i: int| 0 <= i < qs.len() ==> #[trigger] with_stubs(qs, refs)[i] == qs[i],
        forall|i: int| 0 <= i < refs.len() ==> has_role_quad(with_stubs(qs, refs), #[trigger] refs[i]),
    decreases refs.len(),
{
    if refs.len() > 0 {
        let pre = refs.drop_last();
        law_used_roles_are_described(qs, pre);
        let a = with_stubs(qs, pre);
        let n = refs.last();
        let r = with_stubs(qs, refs);
        if !has_role_quad(a, n) {
            let stub = seq![q_type(role_uri(n), ans("Role"@)), q(role_uri(n), ans("name"@), lit(n))];
            assert(r == a + stub);
            assert(is_role_quad(r[a.len() as int], n));
        }
        assert forall|i: int| 0 <= i < refs.len() implies has_role_quad(r, #[trigger] refs[i]) by {
            if i < pre.len() {
                assert(pre[i] == refs[i]);
                assert(has_role_quad(a, pre[i]));
                let j = choose|j: int| 0 <= j < a.len() && #[trigger] is_role_quad(a[j], pre[i]);
                assert(r[j] == a[j]);
                assert(is_role_quad(r[j], refs[i]));
            } else {
                assert(refs[i] == n);
                if has_role_quad(a, n) {
                    let j = choose|j: int| 0 <= j < a.len() && #[trigger] is_role_quad(a[j], n);
                    assert(r[j] == a[j]);
                    assert(is_role_quad(r[j], n));
                }
            }
        }
    }
}

/// `acc` with each of `xs` added in order unless already there.
pub open spec fn push_all_new(acc: Seq<Seq<char>>, xs: Seq<Seq<char>>) -> Seq<Seq<char>>
    decreases xs.len(),
{
    if xs.len() == 0 {
        acc
    } else {
        push_new(push_all_new(acc, xs.drop_last()), xs.last())
    }
}

/// No more stubs than roles.
proof fn lemma_stub_count_le(qs: Seq<QuadModel>, refs: Seq<Seq<char>>)
    ensures
        stub_count(qs, refs) <= refs.len(),
        forall|k: int| 0 <= k <= refs.len() ==> #[trigger] stub_count(qs, refs.take(k)) <= k,
    decreases refs.len(),
{
    if refs.len() > 0 {
        lemma_stub_count_le(qs, refs.drop_last());
        assert forall|k: int| 0 <= k <= refs.len() implies #[trigger] stub_count(qs, refs.take(k)) <= k by {
            if k < refs.len() {
                assert(refs.drop_last().take(k) =~= refs.take(k));
            } else {
                assert(refs.take(k) =~= refs);
            }
        }
    } else {
        assert forall|k: int| 0 <= k <= refs.len() implies #[trigger] stub_count(qs, refs.take(k)) <= k by {
            assert(refs.take(k) =~= refs);
        }
    }
}

/// Whether some quad says that the node `u` is of class `role_type`.
fn has_role_quad_exec(qs: &Vec<Quad>, u: &String, role_type: &String) -> (r: bool)
    ensures
        forall|n: Seq<char>| u@ == role_uri(n) && role_type@ == ans("Role"@) ==> (r == #[trigger] has_role_quad(quads_model(qs@), n)),
{
    let p = crate::rdf::rdf_type();
    let mut i: usize = 0;
    while i < qs.len()
        invariant
            0 <= i <= qs@.len(),
            p@ == rdf_type_iri(),
            forall|j: int| 0 <= j < i ==> !(#[trigger] qs@[j]@.subject == u@ && qs@[j]@.predicate == p@
                && qs@[j]@.object == TermModel::Iri(role_type@)),
        decreases qs.len() - i,
    {
        let x = &qs[i];
        let hit = str_eq(x.subject.as_str(), u.as_str()) && str_eq(x.predicate.as_str(), p.as_str())
            && match &x.object {
            Term::Iri(o) => str_eq(o.as_str(), role_type.as_str()),
            Term::Literal { .. } => false,
        };
        if hit {
            proof {
                assert forall|n: Seq<char>| u@ == role_uri(n) && role_type@ == ans("Role"@) implies #[trigger] has_role_quad(quads_model(qs@), n) by {
                    assert(quads_model(qs@)[i as int] == qs@[i as int]@);
                    assert(is_role_quad(quads_model(qs@)[i as int], n));
                }
            }
            return true;
        }
        i += 1;
    }
    proof {
        assert forall|n: Seq<char>| u@ == role_uri(n) && role_type@ == ans("Role"@) implies !#[trigger] has_role_quad(quads_model(qs@), n) by {
            if has_role_quad(quads_model(qs@), n) {
                let j = choose|j: int| 0 <= j < quads_model(qs@).len() && #[trigger] is_role_quad(quads_model(qs@)[j], n);
                assert(quads_model(qs@)[j] == qs@[j]@);
            }
        }
    }
    false
}

/// A file at the project root is read as a playbook unless it is
/// `ansible.cfg`, `requirements.yml`, or hidden (its name starts with a dot).
pub proof fn law_playbook_candidates(file_name: Seq<char>)
    ensures
        spec_is_playbook_candidate(file_name) == !(file_name == "ansible.cfg"@ || file_name == "requirements.yml"@
            || (file_name.len() > 0 && file_name[0] == '.')),
{
    reveal_strlit(".");
    if file_name.len() > 0 && file_name[0] == '.' {
        assert(file_name.subrange(0, 1) =~= "."@);
    }
    if starts_with(file_name, "."@) {
        assert(file_name.subrange(0, 1)[0] == file_name[0]);
    }
}

} // verus!
