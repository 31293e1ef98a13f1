//! Reading an Ansible inventory written in YAML.
//!
//! The document maps group names to groups. A group may list `hosts` (a host
//! pattern mapped to that host's variables), `vars`, and `children`, which are
//! groups again, nested to any depth.
use vstd::prelude::*;

use crate::ini_inventory::{is_yaml_content, parse_ini_inventory, spec_is_yaml_content, spec_parse_ini};
use crate::text::{clone_string, to_owned_string};

use crate::ansible::{file_error, file_error_of, AnsibleLoadError, ErrorModel, YamlFile};
use crate::host_pattern::{expand_host_pattern, spec_expand};
use crate::inventory::{
    spec_add_child_group, spec_add_host_to_group, spec_ensure_group, spec_set_group_var,
    spec_set_host_var, InventoryData, InventoryModel,
};
use crate::yaml::{
    as_mapping, as_str, entries_of, get, lemma_untag_decreases, spec_get, str_of, untag,
    yaml_text, yaml_value_to_string, Yaml, YamlEntry, parse_yaml, yaml_doc,
};

verus! {

/// The variables of host `h` set from the entries `vs`, in order; entries with
/// a key that is not a string are skipped.
pub open spec fn host_vars_effect(m: InventoryModel, h: Seq<char>, vs: Seq<YamlEntry>) -> InventoryModel
    decreases vs.len(),
{
    if vs.len() == 0 {
        m
    } else {
        let m1 = host_vars_effect(m, h, vs.drop_last());
        match str_of(vs.last().key) {
            Some(k) => spec_set_host_var(m1, h, k, yaml_text(vs.last().value)),
            None => m1,
        }
    }
}

/// The variables of group `g` set from the entries `vs`, in order.
pub open spec fn group_vars_effect(m: InventoryModel, g: Seq<char>, vs: Seq<YamlEntry>) -> InventoryModel
    decreases vs.len(),
{
    if vs.len() == 0 {
        m
    } else {
        let m1 = group_vars_effect(m, g, vs.drop_last());
        match str_of(vs.last().key) {
            Some(k) => spec_set_group_var(m1, g, k, yaml_text(vs.last().value)),
            None => m1,
        }
    }
}

/// Each of `hosts` made a member of `g`, with the variables of `hv` when it is a mapping.
pub open spec fn expanded_hosts_effect(m: InventoryModel, g: Seq<char>, hosts: Seq<Seq<char>>, hv: Yaml) -> InventoryModel
    decreases hosts.len(),
{
    if hosts.len() == 0 {
        m
    } else {
        let m1 = expanded_hosts_effect(m, g, hosts.drop_last(), hv);
        let m2 = spec_add_host_to_group(m1, hosts.last(), g);
        match entries_of(hv) {
            Some(vs) => host_vars_effect(m2, hosts.last(), vs),
            None => m2,
        }
    }
}

/// The `hosts` entries of group `g`: each string key is a host pattern.
pub open spec fn hosts_effect(m: InventoryModel, g: Seq<char>, hes: Seq<YamlEntry>) -> InventoryModel
    decreases hes.len(),
{
    if hes.len() == 0 {
        m
    } else {
        let m1 = hosts_effect(m, g, hes.drop_last());
        match str_of(hes.last().key) {
            Some(p) => expanded_hosts_effect(m1, g, spec_expand(p), hes.last().value),
            None => m1,
        }
    }
}

/// The `hosts` and `vars` of group `g` whose mapping has entries `es`.
pub open spec fn own_effect(m: InventoryModel, g: Seq<char>, es: Seq<YamlEntry>) -> InventoryModel {
    let m1 = match spec_get(es, "hosts"@) {
        Some(hv) => match entries_of(hv) {
            Some(hes) => hosts_effect(m, g, hes),
            None => m,
        },
        None => m,
    };
    match spec_get(es, "vars"@) {
        Some(vv) => match entries_of(vv) {
            Some(vs) => group_vars_effect(m1, g, vs),
            None => m1,
        },
        None => m1,
    }
}

/// Group `g` read from value `v`: nothing unless `v` is a mapping.
pub open spec fn group_effect(m: InventoryModel, g: Seq<char>, v: Yaml) -> InventoryModel
    decreases v,
{
    match untag(v) {
        Yaml::Mapping(es, _) => {
            let m2 = own_effect(m, g, es@);
            let i = crate::yaml::lookup(es@, "children"@);
            if 0 <= i < es@.len() {
                match untag(es@[i].value) {
                    Yaml::Mapping(ces, _) => {
                        proof {
                            lemma_untag_decreases(v);
                            lemma_untag_decreases(es@[i].value);
                            assert(decreases_to!(es => es@));
                            assert(decreases_to!(es@ => es@[i]));
                            assert(decreases_to!(ces => ces@));
                        }
                        children_effect(m2, g, ces@)
                    },
                    _ => m2,
                }
            } else {
                m2
            }
        },
        _ => m,
    }
}

/// The `children` entries of group `g`: each string key is a child group, read in turn.
pub open spec fn children_effect(m: InventoryModel, g: Seq<char>, ces: Seq<YamlEntry>) -> InventoryModel
    decreases ces,
{
    if ces.len() == 0 {
        m
    } else {
        proof {
            assert(decreases_to!(ces => ces[ces.len() - 1]));
            assert(decreases_to!(ces => ces.subrange(0, ces.len() - 1)));
        }
        let m1 = children_effect(m, g, ces.subrange(0, ces.len() - 1));
        match str_of(ces[ces.len() - 1].key) {
            Some(c) => group_effect(spec_add_child_group(m1, g, c), c, ces[ces.len() - 1].value),
            None => m1,
        }
    }
}

/// The top-level entries read in order: each string key names a group, read from its value.
pub open spec fn top_effect(m: InventoryModel, es: Seq<YamlEntry>) -> InventoryModel
    decreases es.len(),
{
    if es.len() == 0 {
        m
    } else {
        let m1 = top_effect(m, es.drop_last());
        match str_of(es.last().key) {
            Some(g) => group_effect(spec_ensure_group(m1, g), g, es.last().value),
            None => m1,
        }
    }
}

/// Position of the first entry from `i` whose key is not a string, or the length.
pub open spec fn first_non_string_key_from(es: Seq<YamlEntry>, i: int) -> int
    decreases es.len() - i,
{
    if i < 0 {
        0
    } else if i >= es.len() {
        es.len() as int
    } else if str_of(es[i].key) is None {
        i
    } else {
        first_non_string_key_from(es, i + 1)
    }
}

/// Position of the first entry whose key is not a string, or the length.
pub open spec fn first_non_string_key(es: Seq<YamlEntry>) -> int {
    first_non_string_key_from(es, 0)
}

proof fn lemma_first_non_string_key_from(es: Seq<YamlEntry>, i: int)
    requires
        0 <= i <= es.len(),
    ensures
        i <= first_non_string_key_from(es, i) <= es.len(),
        first_non_string_key_from(es, i) < es.len()
            ==> str_of(es[first_non_string_key_from(es, i)].key) is None,
        forall|j: int| i <= j < first_non_string_key_from(es, i) ==> #[trigger] str_of(es[j].key) is Some,
    decreases es.len() - i,
{
    if i < es.len() && str_of(es[i].key) is Some {
        lemma_first_non_string_key_from(es, i + 1);
    }
}

/// Whether `r` is the error `Parse` with message `msg`.
pub open spec fn is_parse_error(r: Result<(), AnsibleLoadError>, msg: Seq<char>) -> bool {
    match r {
        Err(AnsibleLoadError::Parse(m)) => m@ == msg,
        _ => false,
    }
}

/// Reads a YAML inventory: a mapping from group names to groups.
///
/// The inventory must be a mapping, and every group name a string; groups
/// before a name that is not a string have been read when that error is returned.
pub fn parse_yaml_inventory(value: &Yaml, data: &mut InventoryData) -> (r: Result<(), AnsibleLoadError>)
    ensures
        match entries_of(*value) {
            None => is_parse_error(r, "YAML inventory must be a mapping"@) && final(data)@ == old(data)@,
            Some(es) => {
                &&& final(data)@ == top_effect(old(data)@, es.take(first_non_string_key(es)))
                &&& r is Ok <==> first_non_string_key(es) == es.len()
                &&& r is Err ==> is_parse_error(r, "Group name must be a string"@)
            },
        },
{
    let es = match as_mapping(value) {
        Some(es) => es,
        None => return Err(AnsibleLoadError::Parse(to_owned_string("YAML inventory must be a mapping"))),
    };
    proof {
        lemma_first_non_string_key_from(es@, 0);
    }
    let mut i: usize = 0;
    while i < es.len()
        invariant
            0 <= i <= es@.len(),
            i <= first_non_string_key(es@),
            entries_of(*value) == Some(es@),
            first_non_string_key(es@) <= es@.len(),
            first_non_string_key(es@) < es@.len()
                ==> str_of(es@[first_non_string_key(es@)].key) is None,
            forall|j: int| 0 <= j < first_non_string_key(es@) ==> #[trigger] str_of(es@[j].key) is Some,
            data@ == top_effect(old(data)@, es@.take(i as int)),
        decreases es.len() - i,
    {
        assert(es@.take(i + 1).drop_last() =~= es@.take(i as int));
        let g = match as_str(&es[i].key) {
            Some(g) => g,
            None => {
                return Err(AnsibleLoadError::Parse(to_owned_string("Group name must be a string")));
            },
        };
        data.ensure_group(g.as_str());
        parse_yaml_group(g.as_str(), &es[i].value, data);
        i += 1;
    }
    assert(es@.take(es@.len() as int) =~= es@);
    Ok(())
}

/// Reads an inventory file: YAML when its text looks like YAML, INI otherwise.
pub fn load_inventory_file(content: &str, data: &mut InventoryData) -> (r: Result<(), AnsibleLoadError>)
    ensures
        !spec_is_yaml_content(content@) ==> r is Ok && final(data)@ == spec_parse_ini(content@, old(data)@),
        spec_is_yaml_content(content@) ==> match yaml_doc(content@) {
            Err(e) => (r matches Err(AnsibleLoadError::Yaml(msg)) && msg@ == e) && final(data)@ == old(data)@,
            Ok(v) => match entries_of(v) {
                None => is_parse_error(r, "YAML inventory must be a mapping"@) && final(data)@ == old(data)@,
                Some(es) => {
                    &&& final(data)@ == top_effect(old(data)@, es.take(first_non_string_key(es)))
                    &&& r is Ok <==> first_non_string_key(es) == es.len()
                    &&& r is Err ==> is_parse_error(r, "Group name must be a string"@)
                },
            },
        },
{
    if is_yaml_content(content) {
        match parse_yaml(content) {
            Err(e) => Err(AnsibleLoadError::Yaml(e)),
            Ok(v) => parse_yaml_inventory(&v, data),
        }
    } else {
        parse_ini_inventory(content, data);
        Ok(())
    }
}

/// Where variables come from in a `host_vars` or `group_vars` directory: a
/// YAML file named after its host or group, a directory of YAML files named
/// after its host or group (a failure to list it ends its files), or a failure
/// to go on listing the directory.
pub enum VarsSource {
    File(String, YamlFile),
    Dir(String, Vec<YamlFile>),
    Failed(String),
}

/// Host `name`, or group `name`, known.
pub open spec fn ensure_owner(m: InventoryModel, host: bool, name: Seq<char>) -> InventoryModel {
    if host {
        crate::inventory::spec_ensure_host(m, name)
    } else {
        spec_ensure_group(m, name)
    }
}

/// The variables of a document set on host or group `name`, when it is a mapping.
pub open spec fn vars_doc_effect(m: InventoryModel, host: bool, name: Seq<char>, v: Yaml) -> InventoryModel {
    match entries_of(v) {
        Some(vs) => if host { host_vars_effect(m, name, vs) } else { group_vars_effect(m, name, vs) },
        None => m,
    }
}

/// The files of a variables directory read in order; the first that cannot
/// be read or is not YAML stops the reading with its error.
pub open spec fn docs_effect(m: InventoryModel, host: bool, name: Seq<char>, docs: Seq<YamlFile>) -> (InventoryModel, Option<ErrorModel>)
    decreases docs.len(),
{
    if docs.len() == 0 {
        (m, None)
    } else {
        let (m1, e1) = docs_effect(m, host, name, docs.drop_last());
        if e1 is Some {
            (m1, e1)
        } else {
            match docs.last() {
                YamlFile::Parsed(v) => (vars_doc_effect(m1, host, name, v), None),
                f => (m1, file_error(f)),
            }
        }
    }
}

/// One source of variables read.
pub open spec fn source_effect(m: InventoryModel, host: bool, src: VarsSource) -> (InventoryModel, Option<ErrorModel>) {
    match src {
        VarsSource::File(name, doc) => if name@.len() == 0 {
            (m, None)
        } else {
            match doc {
                YamlFile::Parsed(v) => match entries_of(v) {
                    Some(_) => (vars_doc_effect(ensure_owner(m, host, name@), host, name@, v), None),
                    None => (m, None),
                },
                f => (m, file_error(f)),
            }
        },
        VarsSource::Dir(name, docs) => if name@.len() == 0 {
            (m, None)
        } else {
            docs_effect(ensure_owner(m, host, name@), host, name@, docs@)
        },
        VarsSource::Failed(e) => (m, Some(ErrorModel::Io(e@))),
    }
}

/// The sources of a variables directory read in order; the first error stops
/// the reading.
pub open spec fn sources_effect(m: InventoryModel, host: bool, srcs: Seq<VarsSource>) -> (InventoryModel, Option<ErrorModel>)
    decreases srcs.len(),
{
    if srcs.len() == 0 {
        (m, None)
    } else {
        let (m1, e1) = sources_effect(m, host, srcs.drop_last());
        if e1 is Some {
            (m1, e1)
        } else {
            source_effect(m1, host, srcs.last())
        }
    }
}

/// Once a file stops the reading, later ones change nothing.
proof fn lemma_docs_stop(m: InventoryModel, host: bool, name: Seq<char>, docs: Seq<YamlFile>, k: int)
    requires
        0 <= k <= docs.len(),
        docs_effect(m, host, name, docs.take(k)).1 is Some,
    ensures
        docs_effect(m, host, name, docs) == docs_effect(m, host, name, docs.take(k)),
    decreases docs.len(),
{
    if k == docs.len() {
        assert(docs.take(k) =~= docs);
    } else {
        assert(docs.drop_last().take(k) =~= docs.take(k));
        lemma_docs_stop(m, host, name, docs.drop_last(), k);
    }
}

/// Once a source stops the reading, later ones change nothing.
proof fn lemma_sources_stop(m: InventoryModel, host: bool, srcs: Seq<VarsSource>, k: int)
    requires
        0 <= k <= srcs.len(),
        sources_effect(m, host, srcs.take(k)).1 is Some,
    ensures
        sources_effect(m, host, srcs) == sources_effect(m, host, srcs.take(k)),
    decreases srcs.len(),
{
    if k == srcs.len() {
        assert(srcs.take(k) =~= srcs);
    } else {
        assert(srcs.drop_last().take(k) =~= srcs.take(k));
        lemma_sources_stop(m, host, srcs.drop_last(), k);
    }
}

/// Sets the variables of a document on host or group `name`.
fn apply_vars_doc(data: &mut InventoryData, host: bool, name: &str, v: &Yaml)
    ensures
        final(data)@ == vars_doc_effect(old(data)@, host, name@, *v),
{
    match as_mapping(v) {
        Some(vs) => if host {
            set_host_vars_from(data, name, vs)
        } else {
            set_group_vars_from(data, name, vs)
        },
        None => {},
    }
}

/// Reads the files of a variables directory of host or group `name`.
fn apply_vars_docs(data: &mut InventoryData, host: bool, name: &str, docs: &Vec<YamlFile>) -> (r: Result<(), AnsibleLoadError>)
    ensures
        final(data)@ == docs_effect(old(data)@, host, name@, docs@).0,
        match docs_effect(old(data)@, host, name@, docs@).1 {
            Some(e) => r matches Err(err) && err@ == e,
            None => r is Ok,
        },
{
    let mut i: usize = 0;
    while i < docs.len()
        invariant
            0 <= i <= docs@.len(),
            docs_effect(old(data)@, host, name@, docs@.take(i as int)).1 is None,
            data@ == docs_effect(old(data)@, host, name@, docs@.take(i as int)).0,
        decreases docs.len() - i,
    {
        assert(docs@.take(i + 1).drop_last() =~= docs@.take(i as int));
        match &docs[i] {
            YamlFile::Parsed(v) => apply_vars_doc(data, host, name, v),
            f => {
                proof {
                    lemma_docs_stop(old(data)@, host, name@, docs@, i + 1);
                }
                return Err(file_error_of(f));
            },
        }
        i += 1;
    }
    assert(docs@.take(docs@.len() as int) =~= docs@);
    Ok(())
}

/// Reads a `host_vars` (`host` set) or `group_vars` directory, given its
/// sources in directory order. The first error stops the reading.
pub fn load_vars_dir(sources: &Vec<VarsSource>, host: bool, data: &mut InventoryData) -> (r: Result<(), AnsibleLoadError>)
    ensures
        final(data)@ == sources_effect(old(data)@, host, sources@).0,
        match sources_effect(old(data)@, host, sources@).1 {
            Some(e) => r matches Err(err) && err@ == e,
            None => r is Ok,
        },
{
    let mut i: usize = 0;
    while i < sources.len()
        invariant
            0 <= i <= sources@.len(),
            sources_effect(old(data)@, host, sources@.take(i as int)).1 is None,
            data@ == sources_effect(old(data)@, host, sources@.take(i as int)).0,
        decreases sources.len() - i,
    {
        assert(sources@.take(i + 1).drop_last() =~= sources@.take(i as int));
        match &sources[i] {
            VarsSource::File(name, doc) => {
                if !name.as_str().is_empty() {
                    match doc {
                        YamlFile::Parsed(v) => {
                            if as_mapping(v).is_some() {
                                if host {
                                    data.ensure_host(name.as_str());
                                } else {
                                    data.ensure_group(name.as_str());
                                }
                                apply_vars_doc(data, host, name.as_str(), v);
                            }
                        },
                        f => {
                            proof {
                                lemma_sources_stop(old(data)@, host, sources@, i + 1);
                            }
                            return Err(file_error_of(f));
                        },
                    }
                }
            },
            VarsSource::Dir(name, docs) => {
                if !name.as_str().is_empty() {
                    if host {
                        data.ensure_host(name.as_str());
                    } else {
                        data.ensure_group(name.as_str());
                    }
                    let r = apply_vars_docs(data, host, name.as_str(), docs);
                    if r.is_err() {
                        proof {
                            lemma_sources_stop(old(data)@, host, sources@, i + 1);
                        }
                        return r;
                    }
                }
            },
            VarsSource::Failed(e) => {
                proof {
                    lemma_sources_stop(old(data)@, host, sources@, i + 1);
                }
                return Err(AnsibleLoadError::Io(clone_string(e)));
            },
        }
        i += 1;
    }
    assert(sources@.take(sources@.len() as int) =~= sources@);
    Ok(())
}

/// Sets the variables of host `h` from the entries of a mapping.
fn set_host_vars_from(data: &mut InventoryData, h: &str, vs: &Vec<YamlEntry>)
    ensures
        final(data)@ == host_vars_effect(old(data)@, h@, vs@),
{
    let mut i: usize = 0;
    while i < vs.len()
        invariant
            0 <= i <= vs@.len(),
            data@ == host_vars_effect(old(data)@, h@, vs@.take(i as int)),
        decreases vs.len() - i,
    {
        assert(vs@.take(i + 1).drop_last() =~= vs@.take(i as int));
        match as_str(&vs[i].key) {
            Some(k) => {
                let v = yaml_value_to_string(&vs[i].value);
                data.set_host_var(h, k.as_str(), v.as_str());
            },
            None => {},
        }
        i += 1;
    }
    assert(vs@.take(vs@.len() as int) =~= vs@);
}

/// Sets the variables of group `g` from the entries of a mapping.
fn set_group_vars_from(data: &mut InventoryData, g: &str, vs: &Vec<YamlEntry>)
    ensures
        final(data)@ == group_vars_effect(old(data)@, g@, vs@),
{
    let mut i: usize = 0;
    while i < vs.len()
        invariant
            0 <= i <= vs@.len(),
            data@ == group_vars_effect(old(data)@, g@, vs@.take(i as int)),
        decreases vs.len() - i,
    {
        assert(vs@.take(i + 1).drop_last() =~= vs@.take(i as int));
        match as_str(&vs[i].key) {
            Some(k) => {
                let v = yaml_value_to_string(&vs[i].value);
                data.set_group_var(g, k.as_str(), v.as_str());
            },
            None => {},
        }
        i += 1;
    }
    assert(vs@.take(vs@.len() as int) =~= vs@);
}

/// Reads the `hosts` entries of group `g`.
fn add_hosts_from(data: &mut InventoryData, g: &str, hes: &Vec<YamlEntry>)
    ensures
        final(data)@ == hosts_effect(old(data)@, g@, hes@),
{
    let mut i: usize = 0;
    while i < hes.len()
        invariant
            0 <= i <= hes@.len(),
            data@ == hosts_effect(old(data)@, g@, hes@.take(i as int)),
        decreases hes.len() - i,
    {
        assert(hes@.take(i + 1).drop_last() =~= hes@.take(i as int));
        match as_str(&hes[i].key) {
            Some(p) => {
                let hosts = expand_host_pattern(p.as_str());
                let hv = &hes[i].value;
                let ghost base = data@;
                let mut k: usize = 0;
                while k < hosts.len()
                    invariant
                        0 <= k <= hosts@.len(),
                        crate::canonicalize::strs(hosts@) == spec_expand(p@),
                        data@ == expanded_hosts_effect(base, g@, crate::canonicalize::strs(hosts@).take(k as int), *hv),
                    decreases hosts.len() - k,
                {
                    assert(crate::canonicalize::strs(hosts@).take(k + 1).drop_last()
                        =~= crate::canonicalize::strs(hosts@).take(k as int));
                    let host = hosts[k].as_str();
                    data.add_host_to_group(host, g);
                    match as_mapping(hv) {
                        Some(vs) => set_host_vars_from(data, host, vs),
                        None => {},
                    }
                    k += 1;
                }
                assert(crate::canonicalize::strs(hosts@).take(hosts@.len() as int)
                    =~= crate::canonicalize::strs(hosts@));
            },
            None => {},
        }
        i += 1;
    }
    assert(hes@.take(hes@.len() as int) =~= hes@);
}

/// Reads group `group_name` from `value`: its hosts with their variables, its
/// variables, and its children, each read in turn as a group.
pub fn parse_yaml_group(group_name: &str, value: &Yaml, data: &mut InventoryData)
    ensures
        final(data)@ == group_effect(old(data)@, group_name@, *value),
    decreases value,
{
    proof {
        lemma_untag_decreases(*value);
    }
    let es = match crate::yaml::untag_ref(value) {
        Yaml::Mapping(es, _) => es,
        _ => return,
    };
    match get(es, "hosts") {
        Some(hv) => match as_mapping(hv) {
            Some(hes) => add_hosts_from(data, group_name, hes),
            None => {},
        },
        None => {},
    }
    match get(es, "vars") {
        Some(vv) => match as_mapping(vv) {
            Some(vs) => set_group_vars_from(data, group_name, vs),
            None => {},
        },
        None => {},
    }
    let ghost m2 = data@;
    assert(m2 == own_effect(old(data)@, group_name@, es@));
    let cv = match get(es, "children") {
        Some(cv) => cv,
        None => return,
    };
    proof {
        crate::yaml::lemma_lookup_from(es@, "children"@, 0);
        lemma_untag_decreases(*cv);
    }
    let ces = match crate::yaml::untag_ref(cv) {
        Yaml::Mapping(ces, _) => ces,
        _ => return,
    };
    let mut j: usize = 0;
    while j < ces.len()
        invariant
            0 <= j <= ces@.len(),
            decreases_to!(*value => ces@),
            data@ == children_effect(m2, group_name@, ces@.subrange(0, j as int)),
        decreases ces.len() - j,
    {
        let ghost prefix = ces@.subrange(0, j + 1);
        assert(prefix.subrange(0, prefix.len() - 1) =~= ces@.subrange(0, j as int));
        assert(prefix[prefix.len() - 1] == ces@[j as int]);
        match as_str(&ces[j].key) {
            Some(c) => {
                data.add_child_group(group_name, c.as_str());
                proof {
                    assert(decreases_to!(ces@ => ces@[j as int]));
                }
                parse_yaml_group(c.as_str(), &ces[j].value, data);
            },
            None => {},
        }
        j += 1;
    }
    assert(ces@.subrange(0, ces@.len() as int) =~= ces@);
}

} // verus!
