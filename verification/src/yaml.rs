//! A parsed YAML document as plain data, and the accessors the loaders read it with.
//!
//! Accessors look through tags, as YAML libraries do: a tagged string is a string.
//! Mapping lookup compares keys exactly, so a tagged key is not a plain key.
use vstd::prelude::*;

use crate::text::{clone_string, str_eq, to_owned_string};
use serde_yaml::Value;

verus! {

/// A YAML value.
#[derive(Debug)]
pub enum Yaml {
    Null,
    Bool(bool),
    /// A number, held as the text it prints as.
    Number(String),
    Str(String),
    /// A sequence, with its JSON rendering.
    Sequence(Vec<Yaml>, String),
    /// A mapping in document order, with its JSON rendering.
    Mapping(Vec<YamlEntry>, String),
    /// A tagged value: the tag, the value, and the JSON rendering of the whole.
    Tagged(String, Box<Yaml>, String),
}

/// One key/value pair of a mapping.
#[derive(Debug)]
pub struct YamlEntry {
    pub key: Yaml,
    pub value: Yaml,
}

/// The value with all tags removed.
pub open spec fn untag(v: Yaml) -> Yaml
    decreases v,
{
    match v {
        Yaml::Tagged(_, b, _) => untag(*b),
        _ => v,
    }
}

/// Removing tags gives the value itself or something it holds.
pub proof fn lemma_untag_decreases(v: Yaml)
    ensures
        untag(v) == v || decreases_to!(v => untag(v)),
    decreases v,
{
    if let Yaml::Tagged(_, b, _) = v {
        lemma_untag_decreases(*b);
        assert(decreases_to!(v => *b));
    }
}

/// The string a value holds, looking through tags.
pub open spec fn str_of(v: Yaml) -> Option<Seq<char>> {
    match untag(v) {
        Yaml::Str(s) => Some(s@),
        _ => None,
    }
}

/// The entries of a mapping, looking through tags.
pub open spec fn entries_of(v: Yaml) -> Option<Seq<YamlEntry>> {
    match untag(v) {
        Yaml::Mapping(es, _) => Some(es@),
        _ => None,
    }
}

/// The items of a sequence, looking through tags.
pub open spec fn items_of(v: Yaml) -> Option<Seq<Yaml>> {
    match untag(v) {
        Yaml::Sequence(xs, _) => Some(xs@),
        _ => None,
    }
}

/// Whether a key is exactly the plain string `k`.
pub open spec fn key_is(key: Yaml, k: Seq<char>) -> bool {
    match key {
        Yaml::Str(s) => s@ == k,
        _ => false,
    }
}

/// Position of the first entry keyed by the plain string `k`, or the length.
pub open spec fn lookup_from(es: Seq<YamlEntry>, k: Seq<char>, i: int) -> int
    decreases es.len() - i,
{
    if i < 0 {
        0
    } else if i >= es.len() {
        es.len() as int
    } else if key_is(es[i].key, k) {
        i
    } else {
        lookup_from(es, k, i + 1)
    }
}

/// Position of the entry keyed by the plain string `k`, or the length.
pub open spec fn lookup(es: Seq<YamlEntry>, k: Seq<char>) -> int {
    lookup_from(es, k, 0)
}

/// The value of the entry keyed by the plain string `k`.
pub open spec fn spec_get(es: Seq<YamlEntry>, k: Seq<char>) -> Option<Yaml> {
    let i = lookup(es, k);
    if 0 <= i < es.len() {
        Some(es[i].value)
    } else {
        None
    }
}

/// A value as variable text: strings as they are, scalars as they print,
/// and other values as JSON.
pub open spec fn yaml_text(v: Yaml) -> Seq<char> {
    match v {
        Yaml::Str(s) => s@,
        Yaml::Bool(b) => if b { "true"@ } else { "false"@ },
        Yaml::Number(n) => n@,
        Yaml::Null => "null"@,
        Yaml::Sequence(_, j) => j@,
        Yaml::Mapping(_, j) => j@,
        Yaml::Tagged(_, _, j) => j@,
    }
}

/// What a search from `i` finds.
pub proof fn lemma_lookup_from(es: Seq<YamlEntry>, k: Seq<char>, i: int)
    requires
        0 <= i <= es.len(),
    ensures
        i <= lookup_from(es, k, i) <= es.len(),
        lookup_from(es, k, i) < es.len() ==> key_is(es[lookup_from(es, k, i)].key, k),
        forall|j: int| i <= j < lookup_from(es, k, i) ==> !key_is(#[trigger] es[j].key, k),
    decreases es.len() - i,
{
    if i < es.len() && !key_is(es[i].key, k) {
        lemma_lookup_from(es, k, i + 1);
    }
}

/// The value with all tags removed.
pub fn untag_ref(v: &Yaml) -> (r: &Yaml)
    ensures
        *r == untag(*v),
    decreases v,
{
    match v {
        Yaml::Tagged(_, b, _) => untag_ref(b),
        _ => v,
    }
}

/// The string a value holds, looking through tags.
pub fn as_str(v: &Yaml) -> (r: Option<&String>)
    ensures
        match r {
            Some(s) => str_of(*v) == Some(s@),
            None => str_of(*v) is None,
        },
{
    match untag_ref(v) {
        Yaml::Str(s) => Some(s),
        _ => None,
    }
}

/// The entries of a mapping, looking through tags.
pub fn as_mapping(v: &Yaml) -> (r: Option<&Vec<YamlEntry>>)
    ensures
        match r {
            Some(es) => entries_of(*v) == Some(es@),
            None => entries_of(*v) is None,
        },
{
    match untag_ref(v) {
        Yaml::Mapping(es, _) => Some(es),
        _ => None,
    }
}

/// The items of a sequence, looking through tags.
pub fn as_sequence(v: &Yaml) -> (r: Option<&Vec<Yaml>>)
    ensures
        match r {
            Some(xs) => items_of(*v) == Some(xs@),
            None => items_of(*v) is None,
        },
{
    match untag_ref(v) {
        Yaml::Sequence(xs, _) => Some(xs),
        _ => None,
    }
}

/// The value of the entry keyed by the plain string `k`.
pub fn get<'a>(es: &'a Vec<YamlEntry>, k: &str) -> (r: Option<&'a Yaml>)
    ensures
        match r {
            Some(v) => spec_get(es@, k@) == Some(*v),
            None => spec_get(es@, k@) is None,
        },
{
    let mut i: usize = 0;
    while i < es.len()
        invariant
            0 <= i <= es@.len(),
            forall|j: int| 0 <= j < i ==> !key_is(#[trigger] es@[j].key, k@),
        decreases es.len() - i,
    {
        let hit = match &es[i].key {
            Yaml::Str(s) => str_eq(s.as_str(), k),
            _ => false,
        };
        if hit {
            proof {
                lemma_lookup_from(es@, k@, 0);
                if lookup(es@, k@) < i {
                    assert(!key_is(es@[lookup(es@, k@)].key, k@));
                }
            }
            return Some(&es[i].value);
        }
        i += 1;
    }
    proof {
        lemma_lookup_from(es@, k@, 0);
    }
    None
}

/// A value as variable text: strings as they are, scalars as they print,
/// and other values as JSON.
pub fn yaml_value_to_string(v: &Yaml) -> (r: String)
    ensures
        r@ == yaml_text(*v),
{
    match v {
        Yaml::Str(s) => clone_string(s),
        Yaml::Bool(b) => if *b { to_owned_string("true") } else { to_owned_string("false") },
        Yaml::Number(n) => clone_string(n),
        Yaml::Null => to_owned_string("null"),
        Yaml::Sequence(_, j) => clone_string(j),
        Yaml::Mapping(_, j) => clone_string(j),
        Yaml::Tagged(_, _, j) => clone_string(j),
    }
}


// ---------------------------------------------------------------------------
// Parsing YAML text
// ---------------------------------------------------------------------------

#[verifier::external_type_specification]
#[verifier::external_body]
pub struct ExSerdeYamlValue(serde_yaml::Value);

/// A text parsed as one YAML document, or the parser's message.
pub uninterp spec fn yaml_doc(text: Seq<char>) -> Result<Yaml, Seq<char>>;

/// A text parsed as a YAML list of documents, or the parser's message.
pub uninterp spec fn yaml_docs(text: Seq<char>) -> Result<Seq<Yaml>, Seq<char>>;

/// A parse result as plain values.
pub open spec fn doc_model(d: Result<Yaml, String>) -> Result<Yaml, Seq<char>> {
    match d {
        Ok(v) => Ok(v),
        Err(m) => Err(m@),
    }
}

/// A list parse result as plain values.
pub open spec fn docs_model(d: Result<Vec<Yaml>, String>) -> Result<Seq<Yaml>, Seq<char>> {
    match d {
        Ok(v) => Ok(v@),
        Err(m) => Err(m@),
    }
}

/// `serde_json::to_string` of a parsed YAML value (the JSON rendering the
/// loaders record), or its debug text where JSON cannot hold it.
#[verifier::external_body]
fn json_rendering(v: &serde_yaml::Value) -> String {
    serde_json::to_string(v).unwrap_or_else(|_| format!("{v:?}"))
}

/// A `serde_yaml::Value` as a `Yaml`, variant for variant: numbers by their
/// printed text, tags by theirs, collections with their JSON rendering.
#[verifier::external_body]
fn yaml_of(v: &serde_yaml::Value) -> Yaml {
    match v {
        Value::Null => Yaml::Null,
        Value::Bool(b) => Yaml::Bool(*b),
        Value::Number(n) => Yaml::Number(n.to_string()),
        Value::String(s) => Yaml::Str(s.clone()),
        Value::Sequence(xs) => Yaml::Sequence(xs.iter().map(yaml_of).collect(), json_rendering(v)),
        Value::Mapping(m) => Yaml::Mapping(
            m.iter().map(|(k, x)| YamlEntry { key: yaml_of(k), value: yaml_of(x) }).collect(),
            json_rendering(v),
        ),
        Value::Tagged(t) => Yaml::Tagged(t.tag.to_string(), Box::new(yaml_of(&t.value)), json_rendering(v)),
    }
}

/// `serde_yaml::from_str::<serde_yaml::Value>`: the text parsed as one
/// document, named `yaml_doc`; an error gives the parser's message.
#[verifier::external_body]
pub(crate) fn parse_yaml(content: &str) -> (r: Result<Yaml, String>)
    ensures
        doc_model(r) == yaml_doc(content@),
{
    serde_yaml::from_str::<serde_yaml::Value>(content).map(|v| yaml_of(&v)).map_err(|e| e.to_string())
}

/// `serde_yaml::from_str::<Vec<serde_yaml::Value>>`: the text parsed as a
/// list of documents, named `yaml_docs`; an error gives the parser's message.
#[verifier::external_body]
pub(crate) fn parse_yaml_list(content: &str) -> (r: Result<Vec<Yaml>, String>)
    ensures
        docs_model(r) == yaml_docs(content@),
{
    serde_yaml::from_str::<Vec<serde_yaml::Value>>(content).map(|vs| vs.iter().map(yaml_of).collect()).map_err(|e| e.to_string())
}

} // verus!
