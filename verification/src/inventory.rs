//! The Ansible inventory data model: hosts, groups, their variables and memberships.
//!
//! Hosts and groups are kept in the order they were first mentioned; a name
//! occurs at most once, and setting a variable again replaces its value.
use vstd::prelude::*;

use crate::text::{clone_string, str_eq, to_owned_string};

verus! {

/// The model of a variable list: `(name, value)` pairs.
pub type VarsModel = Seq<(Seq<char>, Seq<char>)>;

/// The model of a group.
pub struct GroupModel {
    pub hosts: Seq<Seq<char>>,
    pub children: Seq<Seq<char>>,
    pub vars: VarsModel,
}

/// The model of an inventory: hosts with their variables, groups.
pub struct InventoryModel {
    pub hosts: Seq<(Seq<char>, VarsModel)>,
    pub groups: Seq<(Seq<char>, GroupModel)>,
}

/// Variables of one host.
#[derive(Debug, Clone, Default)]
pub struct HostData {
    pub vars: Vec<(String, String)>,
}

/// Members, child groups and variables of one group.
#[derive(Debug, Clone, Default)]
pub struct GroupData {
    pub hosts: Vec<String>,
    pub children: Vec<String>,
    pub vars: Vec<(String, String)>,
}

/// Everything an inventory says about hosts and groups.
#[derive(Debug, Clone, Default)]
pub struct InventoryData {
    pub hosts: Vec<(String, HostData)>,
    pub groups: Vec<(String, GroupData)>,
}

pub open spec fn names_model(v: Seq<String>) -> Seq<Seq<char>> {
    v.map_values(|s: String| s@)
}

pub open spec fn vars_model(v: Seq<(String, String)>) -> VarsModel {
    v.map_values(|e: (String, String)| (e.0@, e.1@))
}

pub open spec fn group_model(g: GroupData) -> GroupModel {
    GroupModel {
        hosts: names_model(g.hosts@),
        children: names_model(g.children@),
        vars: vars_model(g.vars@),
    }
}

pub open spec fn hosts_model(v: Seq<(String, HostData)>) -> Seq<(Seq<char>, VarsModel)> {
    v.map_values(|e: (String, HostData)| (e.0@, vars_model(e.1.vars@)))
}

pub open spec fn groups_model(v: Seq<(String, GroupData)>) -> Seq<(Seq<char>, GroupModel)> {
    v.map_values(|e: (String, GroupData)| (e.0@, group_model(e.1)))
}

impl View for InventoryData {
    type V = InventoryModel;

    open spec fn view(&self) -> InventoryModel {
        InventoryModel { hosts: hosts_model(self.hosts@), groups: groups_model(self.groups@) }
    }
}

/// The empty group.
pub open spec fn empty_group() -> GroupModel {
    GroupModel { hosts: Seq::empty(), children: Seq::empty(), vars: Seq::empty() }
}

/// Position of the first entry at or after `i` keyed `k`, or the length.
pub open spec fn find_key_from<V>(l: Seq<(Seq<char>, V)>, k: Seq<char>, i: int) -> int
    decreases l.len() - i,
{
    if i < 0 {
        0
    } else if i >= l.len() {
        l.len() as int
    } else if l[i].0 == k {
        i
    } else {
        find_key_from(l, k, i + 1)
    }
}

/// Position of the entry keyed `k`, or the length when there is none.
pub open spec fn find_key<V>(l: Seq<(Seq<char>, V)>, k: Seq<char>) -> int {
    find_key_from(l, k, 0)
}

/// The value of `k`, or `d` when it has no entry.
pub open spec fn assoc_get<V>(l: Seq<(Seq<char>, V)>, k: Seq<char>, d: V) -> V {
    let i = find_key(l, k);
    if 0 <= i < l.len() {
        l[i].1
    } else {
        d
    }
}

/// `k` has an entry.
pub open spec fn assoc_has<V>(l: Seq<(Seq<char>, V)>, k: Seq<char>) -> bool {
    find_key(l, k) < l.len()
}

/// `l` with `k` set to `v`: the entry of `k` is replaced in place, or a new
/// entry is added at the end.
pub open spec fn assoc_set<V>(l: Seq<(Seq<char>, V)>, k: Seq<char>, v: V) -> Seq<(Seq<char>, V)> {
    let i = find_key(l, k);
    if 0 <= i < l.len() {
        l.update(i, (k, v))
    } else {
        l.push((k, v))
    }
}

/// `l` with an entry `(k, d)` added at the end unless `k` has one.
pub open spec fn assoc_ensure<V>(l: Seq<(Seq<char>, V)>, k: Seq<char>, d: V) -> Seq<(Seq<char>, V)> {
    if assoc_has(l, k) {
        l
    } else {
        l.push((k, d))
    }
}

/// `s` with `x` added at the end unless already there.
pub open spec fn push_new(s: Seq<Seq<char>>, x: Seq<char>) -> Seq<Seq<char>> {
    if s.contains(x) {
        s
    } else {
        s.push(x)
    }
}

/// The inventory with host `h` known.
pub open spec fn spec_ensure_host(m: InventoryModel, h: Seq<char>) -> InventoryModel {
    InventoryModel { hosts: assoc_ensure(m.hosts, h, Seq::empty()), ..m }
}

/// The inventory with group `g` known.
pub open spec fn spec_ensure_group(m: InventoryModel, g: Seq<char>) -> InventoryModel {
    InventoryModel { groups: assoc_ensure(m.groups, g, empty_group()), ..m }
}

/// The inventory with host `h` a member of group `g`.
pub open spec fn spec_add_host_to_group(m: InventoryModel, h: Seq<char>, g: Seq<char>) -> InventoryModel {
    let m1 = spec_ensure_group(spec_ensure_host(m, h), g);
    let gm = assoc_get(m1.groups, g, empty_group());
    InventoryModel {
        groups: assoc_set(m1.groups, g, GroupModel { hosts: push_new(gm.hosts, h), ..gm }),
        ..m1
    }
}

/// The inventory with variable `k` of host `h` set to `v`.
pub open spec fn spec_set_host_var(m: InventoryModel, h: Seq<char>, k: Seq<char>, v: Seq<char>) -> InventoryModel {
    let m1 = spec_ensure_host(m, h);
    let vars = assoc_get(m1.hosts, h, Seq::empty());
    InventoryModel { hosts: assoc_set(m1.hosts, h, assoc_set(vars, k, v)), ..m1 }
}

/// The inventory with variable `k` of group `g` set to `v`.
pub open spec fn spec_set_group_var(m: InventoryModel, g: Seq<char>, k: Seq<char>, v: Seq<char>) -> InventoryModel {
    let m1 = spec_ensure_group(m, g);
    let gm = assoc_get(m1.groups, g, empty_group());
    InventoryModel {
        groups: assoc_set(m1.groups, g, GroupModel { vars: assoc_set(gm.vars, k, v), ..gm }),
        ..m1
    }
}

/// The inventory with group `c` a child of group `p`.
pub open spec fn spec_add_child_group(m: InventoryModel, p: Seq<char>, c: Seq<char>) -> InventoryModel {
    let m1 = spec_ensure_group(spec_ensure_group(m, p), c);
    let gm = assoc_get(m1.groups, p, empty_group());
    InventoryModel {
        groups: assoc_set(m1.groups, p, GroupModel { children: push_new(gm.children, c), ..gm }),
        ..m1
    }
}

/// What a search finds: the first entry of the key, or the length when none has it.
pub proof fn lemma_find_key_from<V>(l: Seq<(Seq<char>, V)>, k: Seq<char>, i: int)
    requires
        0 <= i <= l.len(),
    ensures
        i <= find_key_from(l, k, i) <= l.len(),
        find_key_from(l, k, i) < l.len() ==> l[find_key_from(l, k, i)].0 == k,
        forall|j: int| i <= j < find_key_from(l, k, i) ==> #[trigger] l[j].0 != k,
    decreases l.len() - i,
{
    if i < l.len() && l[i].0 != k {
        lemma_find_key_from(l, k, i + 1);
    }
}

/// Searching after adding an entry at the end.
pub proof fn lemma_find_key_push<V>(l: Seq<(Seq<char>, V)>, k: Seq<char>, x: (Seq<char>, V), i: int)
    requires
        0 <= i <= l.len(),
    ensures
        find_key_from(l.push(x), k, i) == if find_key_from(l, k, i) < l.len() {
            find_key_from(l, k, i)
        } else if x.0 == k {
            l.len() as int
        } else {
            (l.len() + 1) as int
        },
    decreases l.len() - i,
{
    if i < l.len() {
        assert(l.push(x)[i] == l[i]);
        if l[i].0 != k {
            lemma_find_key_push(l, k, x, i + 1);
        }
    } else {
        assert(l.push(x)[i] == x);
        if x.0 != k {
            assert(find_key_from(l.push(x), k, i + 1) == l.push(x).len());
        }
    }
}

/// After `assoc_ensure`, the key has an entry.
pub proof fn lemma_ensure_has<V>(l: Seq<(Seq<char>, V)>, k: Seq<char>, d: V)
    ensures
        assoc_has(assoc_ensure(l, k, d), k),
        find_key(assoc_ensure(l, k, d), k) < assoc_ensure(l, k, d).len(),
        assoc_ensure(l, k, d)[find_key(assoc_ensure(l, k, d), k)].0 == k,
{
    lemma_find_key_from(l, k, 0);
    if !assoc_has(l, k) {
        lemma_find_key_push(l, k, (k, d), 0);
    }
    lemma_find_key_from(assoc_ensure(l, k, d), k, 0);
}

/// Ensuring another key keeps a key that has an entry.
pub proof fn lemma_ensure_keeps<V>(l: Seq<(Seq<char>, V)>, k: Seq<char>, d: V, other: Seq<char>)
    requires
        assoc_has(l, other),
    ensures
        assoc_has(assoc_ensure(l, k, d), other),
        find_key(assoc_ensure(l, k, d), other) == find_key(l, other),
{
    lemma_find_key_from(l, other, 0);
    if !assoc_has(l, k) {
        lemma_find_key_push(l, other, (k, d), 0);
    }
}

/// No key has two entries.
pub open spec fn unique_keys<V>(l: Seq<(Seq<char>, V)>) -> bool {
    forall|i: int, j: int| 0 <= i < j < l.len() ==> #[trigger] l[i].0 != #[trigger] l[j].0
}

/// No name occurs twice.
pub open spec fn no_dups(s: Seq<Seq<char>>) -> bool {
    forall|i: int, j: int| 0 <= i < j < s.len() ==> #[trigger] s[i] != #[trigger] s[j]
}

/// A group lists each member, child and variable once.
pub open spec fn group_wf(g: GroupModel) -> bool {
    no_dups(g.hosts) && no_dups(g.children) && unique_keys(g.vars)
}

/// Each host and group has one entry, and each host, group and their
/// variables is listed once.
pub open spec fn inventory_wf(m: InventoryModel) -> bool {
    &&& unique_keys(m.hosts)
    &&& forall|i: int| 0 <= i < m.hosts.len() ==> unique_keys(#[trigger] m.hosts[i].1)
    &&& unique_keys(m.groups)
    &&& forall|i: int| 0 <= i < m.groups.len() ==> group_wf(#[trigger] m.groups[i].1)
}

/// Setting a key keeps keys unique, and replaces the entry of the key in
/// place or adds it at the end.
pub proof fn lemma_assoc_set_unique<V>(l: Seq<(Seq<char>, V)>, k: Seq<char>, v: V)
    requires
        unique_keys(l),
    ensures
        unique_keys(assoc_set(l, k, v)),
        find_key(l, k) < l.len() ==> assoc_set(l, k, v) == l.update(find_key(l, k), (k, v)),
        find_key(l, k) >= l.len() ==> assoc_set(l, k, v) == l.push((k, v)),
{
    lemma_find_key_from(l, k, 0);
    let i = find_key(l, k);
    let r = assoc_set(l, k, v);
    if i < l.len() {
        assert forall|a: int, b: int| 0 <= a < b < r.len() implies #[trigger] r[a].0 != #[trigger] r[b].0 by {
            assert(l[a].0 != l[b].0);
        }
    } else {
        assert forall|a: int, b: int| 0 <= a < b < r.len() implies #[trigger] r[a].0 != #[trigger] r[b].0 by {
            if b < l.len() {
                assert(l[a].0 != l[b].0);
            } else {
                assert(l[a].0 != k);
            }
        }
    }
}

/// Ensuring a key keeps keys unique.
pub proof fn lemma_assoc_ensure_unique<V>(l: Seq<(Seq<char>, V)>, k: Seq<char>, d: V)
    requires
        unique_keys(l),
    ensures
        unique_keys(assoc_ensure(l, k, d)),
{
    lemma_find_key_from(l, k, 0);
    let r = assoc_ensure(l, k, d);
    assert forall|a: int, b: int| 0 <= a < b < r.len() implies #[trigger] r[a].0 != #[trigger] r[b].0 by {
        if b < l.len() {
            assert(l[a].0 != l[b].0);
        } else {
            assert(l[a].0 != k);
        }
    }
}

/// Adding a name unless present keeps names unique.
pub proof fn lemma_push_new_no_dups(s: Seq<Seq<char>>, x: Seq<char>)
    requires
        no_dups(s),
    ensures
        no_dups(push_new(s, x)),
{
    let r = push_new(s, x);
    assert forall|a: int, b: int| 0 <= a < b < r.len() implies #[trigger] r[a] != #[trigger] r[b] by {
        if !s.contains(x) && b == s.len() {
            assert(r[a] == s[a]);
            if s[a] == x {
                assert(s.contains(x));
            }
        }
    }
}

/// Ensuring a host keeps the inventory well formed.
proof fn lemma_ensure_host_wf(m: InventoryModel, h: Seq<char>)
    requires
        inventory_wf(m),
    ensures
        inventory_wf(spec_ensure_host(m, h)),
{
    lemma_assoc_ensure_unique(m.hosts, h, Seq::empty());
    let r = spec_ensure_host(m, h);
    assert forall|i: int| 0 <= i < r.hosts.len() implies unique_keys(#[trigger] r.hosts[i].1) by {
        if i >= m.hosts.len() {
            assert(r.hosts[i].1 =~= Seq::<(Seq<char>, Seq<char>)>::empty());
        }
    }
}

/// Ensuring a group keeps the inventory well formed.
proof fn lemma_ensure_group_wf(m: InventoryModel, g: Seq<char>)
    requires
        inventory_wf(m),
    ensures
        inventory_wf(spec_ensure_group(m, g)),
{
    lemma_assoc_ensure_unique(m.groups, g, empty_group());
    let r = spec_ensure_group(m, g);
    assert forall|i: int| 0 <= i < r.groups.len() implies group_wf(#[trigger] r.groups[i].1) by {
        if i >= m.groups.len() {
            assert(r.groups[i].1 == empty_group());
        }
    }
}

/// Changing the group of an existing entry to a well-formed one keeps the
/// inventory well formed.
proof fn lemma_set_group_wf(m: InventoryModel, g: Seq<char>, gm: GroupModel)
    requires
        inventory_wf(m),
        assoc_has(m.groups, g),
        group_wf(gm),
    ensures
        inventory_wf(InventoryModel { groups: assoc_set(m.groups, g, gm), ..m }),
{
    lemma_assoc_set_unique(m.groups, g, gm);
    lemma_find_key_from(m.groups, g, 0);
}

/// The group of a known name in a well-formed inventory is well formed.
proof fn lemma_get_group_wf(m: InventoryModel, g: Seq<char>)
    requires
        inventory_wf(m),
        assoc_has(m.groups, g),
    ensures
        group_wf(assoc_get(m.groups, g, empty_group())),
{
    lemma_find_key_from(m.groups, g, 0);
    assert(group_wf(m.groups[find_key(m.groups, g)].1));
}

/// Every inventory operation keeps each host and group listed once, each
/// group's members, children and variables listed once, and each host's
/// variables listed once.
pub proof fn law_inventory_stays_well_formed(m: InventoryModel, a: Seq<char>, b: Seq<char>, k: Seq<char>, v: Seq<char>)
    requires
        inventory_wf(m),
    ensures
        inventory_wf(spec_ensure_host(m, a)),
        inventory_wf(spec_ensure_group(m, a)),
        inventory_wf(spec_add_host_to_group(m, a, b)),
        inventory_wf(spec_set_host_var(m, a, k, v)),
        inventory_wf(spec_set_group_var(m, a, k, v)),
        inventory_wf(spec_add_child_group(m, a, b)),
{
    lemma_ensure_host_wf(m, a);
    lemma_ensure_group_wf(m, a);
    // add_host_to_group
    let m1 = spec_ensure_group(spec_ensure_host(m, a), b);
    lemma_ensure_host_wf(m, a);
    lemma_ensure_group_wf(spec_ensure_host(m, a), b);
    lemma_ensure_has(spec_ensure_host(m, a).groups, b, empty_group());
    lemma_get_group_wf(m1, b);
    let gm1 = assoc_get(m1.groups, b, empty_group());
    lemma_push_new_no_dups(gm1.hosts, a);
    lemma_set_group_wf(m1, b, GroupModel { hosts: push_new(gm1.hosts, a), ..gm1 });
    // set_host_var
    let m2 = spec_ensure_host(m, a);
    lemma_ensure_has(m.hosts, a, Seq::empty());
    lemma_find_key_from(m2.hosts, a, 0);
    let vars = assoc_get(m2.hosts, a, Seq::empty());
    assert(unique_keys(m2.hosts[find_key(m2.hosts, a)].1));
    lemma_assoc_set_unique(vars, k, v);
    lemma_assoc_set_unique(m2.hosts, a, assoc_set(vars, k, v));
    let r2 = spec_set_host_var(m, a, k, v);
    assert forall|i: int| 0 <= i < r2.hosts.len() implies unique_keys(#[trigger] r2.hosts[i].1) by {
        if i != find_key(m2.hosts, a) {
            assert(r2.hosts[i] == m2.hosts[i]);
        }
    }
    // set_group_var
    let m3 = spec_ensure_group(m, a);
    lemma_ensure_has(m.groups, a, empty_group());
    lemma_get_group_wf(m3, a);
    let gm3 = assoc_get(m3.groups, a, empty_group());
    lemma_assoc_set_unique(gm3.vars, k, v);
    lemma_set_group_wf(m3, a, GroupModel { vars: assoc_set(gm3.vars, k, v), ..gm3 });
    // add_child_group
    let m4a = spec_ensure_group(m, a);
    let m4 = spec_ensure_group(m4a, b);
    lemma_ensure_group_wf(m4a, b);
    lemma_ensure_keeps(m4a.groups, b, empty_group(), a);
    lemma_get_group_wf(m4, a);
    let gm4 = assoc_get(m4.groups, a, empty_group());
    lemma_push_new_no_dups(gm4.children, b);
    lemma_set_group_wf(m4, a, GroupModel { children: push_new(gm4.children, b), ..gm4 });
}

/// Position of the entry keyed `k`, or the length when there is none.
pub fn find_key_exec<V>(l: &Vec<(String, V)>, k: &str) -> (r: usize)
    ensures
        r as int == find_key(l@.map_values(|e: (String, V)| (e.0@, e.1)), k@),
        r <= l@.len(),
{
    let ghost m = l@.map_values(|e: (String, V)| (e.0@, e.1));
    let mut i: usize = 0;
    while i < l.len()
        invariant
            0 <= i <= l@.len(),
            m == l@.map_values(|e: (String, V)| (e.0@, e.1)),
            find_key(m, k@) == find_key_from(m, k@, i as int),
        decreases l.len() - i,
    {
        if str_eq(l[i].0.as_str(), k) {
            return i;
        }
        i += 1;
    }
    i
}

/// Whether `v` holds `x`.
pub fn contains_name(v: &Vec<String>, x: &str) -> (r: bool)
    ensures
        r == names_model(v@).contains(x@),
{
    let mut i: usize = 0;
    while i < v.len()
        invariant
            0 <= i <= v@.len(),
            forall|k: int| 0 <= k < i ==> v@[k]@ != x@,
        decreases v.len() - i,
    {
        if str_eq(v[i].as_str(), x) {
            assert(names_model(v@)[i as int] == x@);
            return true;
        }
        i += 1;
    }
    assert(!names_model(v@).contains(x@)) by {
        if names_model(v@).contains(x@) {
            let k = choose|k: int| 0 <= k < names_model(v@).len() && names_model(v@)[k] == x@;
            assert(v@[k]@ == x@);
        }
    }
    false
}

/// Adds `x` at the end of `v` unless already there.
pub fn push_name_new(v: &mut Vec<String>, x: &str)
    ensures
        names_model(final(v)@) == push_new(names_model(old(v)@), x@),
{
    if !contains_name(v, x) {
        v.push(to_owned_string(x));
        assert(names_model(v@) =~= names_model(old(v)@).push(x@));
    }
}

/// Sets `k` to `v` in a variable list.
pub fn set_var(vars: &mut Vec<(String, String)>, k: &str, v: &str)
    ensures
        vars_model(final(vars)@) == assoc_set(vars_model(old(vars)@), k@, v@),
{
    let ghost m = vars_model(vars@);
    let i = find_key_exec(vars, k);
    assert(vars@.map_values(|e: (String, String)| (e.0@, e.1)).map_values(|e: (Seq<char>, String)| (e.0, e.1@)) =~= m);
    assert(find_key(m, k@) == find_key(vars@.map_values(|e: (String, String)| (e.0@, e.1)), k@)) by {
        lemma_find_key_same_keys(m, vars@.map_values(|e: (String, String)| (e.0@, e.1)), k@, 0);
    }
    if i < vars.len() {
        vars.set(i, (to_owned_string(k), to_owned_string(v)));
        assert(vars_model(vars@) =~= m.update(i as int, (k@, v@)));
    } else {
        vars.push((to_owned_string(k), to_owned_string(v)));
        assert(vars_model(vars@) =~= m.push((k@, v@)));
    }
}

/// Searching two lists with the same keys gives the same position.
pub proof fn lemma_find_key_same_keys<A, B>(a: Seq<(Seq<char>, A)>, b: Seq<(Seq<char>, B)>, k: Seq<char>, i: int)
    requires
        a.len() == b.len(),
        forall|j: int| 0 <= j < a.len() ==> #[trigger] a[j].0 == b[j].0,
        0 <= i,
    ensures
        find_key_from(a, k, i) == find_key_from(b, k, i),
    decreases a.len() - i,
{
    if i < a.len() {
        assert(a[i].0 == b[i].0);
        lemma_find_key_same_keys(a, b, k, i + 1);
    }
}

/// The value of `k` in a variable list, if it has one.
pub fn get_var(vars: &Vec<(String, String)>, k: &str) -> (r: Option<String>)
    ensures
        match r {
            Some(v) => assoc_has(vars_model(vars@), k@) && v@ == assoc_get(vars_model(vars@), k@, Seq::empty()),
            None => !assoc_has(vars_model(vars@), k@),
        },
{
    let ghost m = vars_model(vars@);
    let i = find_key_exec(vars, k);
    proof {
        lemma_find_key_same_keys(m, vars@.map_values(|e: (String, String)| (e.0@, e.1)), k@, 0);
    }
    if i < vars.len() {
        Some(clone_string(&vars[i].1))
    } else {
        None
    }
}

impl InventoryData {
    /// Position of host `name`, or the number of hosts.
    fn host_index(&self, name: &str) -> (r: usize)
        ensures
            r as int == find_key(self@.hosts, name@),
            r <= self.hosts@.len(),
    {
        let i = find_key_exec(&self.hosts, name);
        proof {
            lemma_find_key_same_keys(self@.hosts, self.hosts@.map_values(|e: (String, HostData)| (e.0@, e.1)), name@, 0);
        }
        i
    }

    /// Position of group `name`, or the number of groups.
    fn group_index(&self, name: &str) -> (r: usize)
        ensures
            r as int == find_key(self@.groups, name@),
            r <= self.groups@.len(),
    {
        let i = find_key_exec(&self.groups, name);
        proof {
            lemma_find_key_same_keys(self@.groups, self.groups@.map_values(|e: (String, GroupData)| (e.0@, e.1)), name@, 0);
        }
        i
    }

    /// Makes host `name` known.
    pub fn ensure_host(&mut self, name: &str)
        ensures
            final(self)@ == spec_ensure_host(old(self)@, name@),
    {
        let i = self.host_index(name);
        if i == self.hosts.len() {
            let h = HostData { vars: Vec::new() };
            assert(vars_model(h.vars@) =~= Seq::<(Seq<char>, Seq<char>)>::empty());
            self.hosts.push((to_owned_string(name), h));
            assert(self@.hosts =~= old(self)@.hosts.push((name@, Seq::empty())));
        }
    }

    /// Makes group `name` known.
    pub fn ensure_group(&mut self, name: &str)
        ensures
            final(self)@ == spec_ensure_group(old(self)@, name@),
    {
        let i = self.group_index(name);
        if i == self.groups.len() {
            let g = GroupData { hosts: Vec::new(), children: Vec::new(), vars: Vec::new() };
            assert(group_model(g) =~= empty_group()) by {
                assert(names_model(g.hosts@) =~= Seq::<Seq<char>>::empty());
                assert(names_model(g.children@) =~= Seq::<Seq<char>>::empty());
                assert(vars_model(g.vars@) =~= Seq::<(Seq<char>, Seq<char>)>::empty());
            }
            self.groups.push((to_owned_string(name), g));
            assert(self@.groups =~= old(self)@.groups.push((name@, empty_group())));
        }
    }

    /// Makes host `host` a member of group `group`, knowing both.
    pub fn add_host_to_group(&mut self, host: &str, group: &str)
        ensures
            final(self)@ == spec_add_host_to_group(old(self)@, host@, group@),
    {
        self.ensure_host(host);
        self.ensure_group(group);
        let ghost m1 = self@;
        proof {
            lemma_ensure_has(spec_ensure_host(old(self)@, host@).groups, group@, empty_group());
        }
        let i = self.group_index(group);
        assert(i < self.groups@.len());
        let (k, mut g) = self.groups.remove(i);
        push_name_new(&mut g.hosts, host);
        self.groups.insert(i, (k, g));
        assert(self@.groups =~= m1.groups.update(i as int, (group@, GroupModel { hosts: push_new(m1.groups[i as int].1.hosts, host@), ..m1.groups[i as int].1 })));
    }

    /// Sets variable `key` of host `host` to `value`, knowing the host.
    pub fn set_host_var(&mut self, host: &str, key: &str, value: &str)
        ensures
            final(self)@ == spec_set_host_var(old(self)@, host@, key@, value@),
    {
        self.ensure_host(host);
        let ghost m1 = self@;
        proof {
            lemma_ensure_has(old(self)@.hosts, host@, Seq::empty());
        }
        let i = self.host_index(host);
        assert(i < self.hosts@.len());
        let (k, mut h) = self.hosts.remove(i);
        set_var(&mut h.vars, key, value);
        self.hosts.insert(i, (k, h));
        assert(self@.hosts =~= m1.hosts.update(i as int, (host@, assoc_set(m1.hosts[i as int].1, key@, value@))));
    }

    /// Sets variable `key` of group `group` to `value`, knowing the group.
    pub fn set_group_var(&mut self, group: &str, key: &str, value: &str)
        ensures
            final(self)@ == spec_set_group_var(old(self)@, group@, key@, value@),
    {
        self.ensure_group(group);
        let ghost m1 = self@;
        proof {
            lemma_ensure_has(old(self)@.groups, group@, empty_group());
        }
        let i = self.group_index(group);
        assert(i < self.groups@.len());
        let (k, mut g) = self.groups.remove(i);
        set_var(&mut g.vars, key, value);
        self.groups.insert(i, (k, g));
        assert(self@.groups =~= m1.groups.update(i as int, (group@, GroupModel { vars: assoc_set(m1.groups[i as int].1.vars, key@, value@), ..m1.groups[i as int].1 })));
    }

    /// Makes group `child` a child of group `parent`, knowing both.
    pub fn add_child_group(&mut self, parent: &str, child: &str)
        ensures
            final(self)@ == spec_add_child_group(old(self)@, parent@, child@),
    {
        self.ensure_group(parent);
        let ghost m0 = self@;
        self.ensure_group(child);
        let ghost m1 = self@;
        proof {
            lemma_ensure_has(old(self)@.groups, parent@, empty_group());
            lemma_ensure_keeps(m0.groups, child@, empty_group(), parent@);
            lemma_find_key_from(m1.groups, parent@, 0);
        }
        let i = self.group_index(parent);
        assert(i < self.groups@.len());
        let (k, mut g) = self.groups.remove(i);
        push_name_new(&mut g.children, child);
        self.groups.insert(i, (k, g));
        assert(self@.groups =~= m1.groups.update(i as int, (parent@, GroupModel { children: push_new(m1.groups[i as int].1.children, child@), ..m1.groups[i as int].1 })));
    }

    /// Whether host `name` is known.
    pub fn has_host(&self, name: &str) -> (r: bool)
        ensures
            r == assoc_has(self@.hosts, name@),
    {
        self.host_index(name) < self.hosts.len()
    }

    /// Whether group `name` is known.
    pub fn has_group(&self, name: &str) -> (r: bool)
        ensures
            r == assoc_has(self@.groups, name@),
    {
        self.group_index(name) < self.groups.len()
    }

    /// The value of variable `key` of host `host`, if set.
    pub fn host_var(&self, host: &str, key: &str) -> (r: Option<String>)
        ensures
            match r {
                Some(v) => assoc_has(self@.hosts, host@) && assoc_has(assoc_get(self@.hosts, host@, Seq::empty()), key@)
                    && v@ == assoc_get(assoc_get(self@.hosts, host@, Seq::empty()), key@, Seq::empty()),
                None => !assoc_has(self@.hosts, host@) || !assoc_has(assoc_get(self@.hosts, host@, Seq::empty()), key@),
            },
    {
        let i = self.host_index(host);
        if i < self.hosts.len() {
            get_var(&self.hosts[i].1.vars, key)
        } else {
            None
        }
    }

    /// The value of variable `key` of group `group`, if set.
    pub fn group_var(&self, group: &str, key: &str) -> (r: Option<String>)
        ensures
            match r {
                Some(v) => assoc_has(self@.groups, group@) && assoc_has(assoc_get(self@.groups, group@, empty_group()).vars, key@)
                    && v@ == assoc_get(assoc_get(self@.groups, group@, empty_group()).vars, key@, Seq::empty()),
                None => !assoc_has(self@.groups, group@) || !assoc_has(assoc_get(self@.groups, group@, empty_group()).vars, key@),
            },
    {
        let i = self.group_index(group);
        if i < self.groups.len() {
            get_var(&self.groups[i].1.vars, key)
        } else {
            None
        }
    }

    /// The members of group `group`, if it is known.
    pub fn group_hosts(&self, group: &str) -> (r: Option<Vec<String>>)
        ensures
            match r {
                Some(v) => assoc_has(self@.groups, group@) && names_model(v@) == assoc_get(self@.groups, group@, empty_group()).hosts,
                None => !assoc_has(self@.groups, group@),
            },
    {
        let i = self.group_index(group);
        if i < self.groups.len() {
            Some(copy_names(&self.groups[i].1.hosts))
        } else {
            None
        }
    }

    /// The child groups of group `group`, if it is known.
    pub fn group_children(&self, group: &str) -> (r: Option<Vec<String>>)
        ensures
            match r {
                Some(v) => assoc_has(self@.groups, group@) && names_model(v@) == assoc_get(self@.groups, group@, empty_group()).children,
                None => !assoc_has(self@.groups, group@),
            },
    {
        let i = self.group_index(group);
        if i < self.groups.len() {
            Some(copy_names(&self.groups[i].1.children))
        } else {
            None
        }
    }
}

/// A copy of a list of names.
pub fn copy_names(v: &Vec<String>) -> (r: Vec<String>)
    ensures
        names_model(r@) == names_model(v@),
{
    let mut r: Vec<String> = Vec::new();
    let mut i: usize = 0;
    while i < v.len()
        invariant
            0 <= i <= v@.len(),
            names_model(r@) == names_model(v@).take(i as int),
        decreases v.len() - i,
    {
        r.push(clone_string(&v[i]));
        assert(names_model(v@).take(i + 1) =~= names_model(v@).take(i as int).push(v@[i as int]@));
        assert(names_model(r@) =~= names_model(v@).take(i + 1));
        i += 1;
    }
    assert(names_model(v@).take(v@.len() as int) =~= names_model(v@));
    r
}

} // verus!
