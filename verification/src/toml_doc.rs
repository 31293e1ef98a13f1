//! A parsed TOML document as plain data, as far as project manifests are read.
use vstd::prelude::*;

use crate::text::str_eq;

verus! {

/// A TOML value.
pub enum TomlValue {
    Str(String),
    /// A table's entries in the document's order, each key once.
    Table(Vec<(String, TomlValue)>),
    Array(Vec<TomlValue>),
    /// Numbers, booleans and dates.
    Other,
}

/// The value under `k` in table entries: the first entry with that key.
pub open spec fn entry_get(es: Seq<(String, TomlValue)>, k: Seq<char>) -> Option<TomlValue>
    decreases es.len(),
{
    if es.len() == 0 {
        None
    } else if es[0].0@ == k {
        Some(es[0].1)
    } else {
        entry_get(es.skip(1), k)
    }
}

/// The value under `k` when `v` is a table.
pub open spec fn toml_get(v: TomlValue, k: Seq<char>) -> Option<TomlValue> {
    match v {
        TomlValue::Table(es) => entry_get(es@, k),
        _ => None,
    }
}

/// The value under `k` of an optional value that is a table.
pub open spec fn opt_get(v: Option<TomlValue>, k: Seq<char>) -> Option<TomlValue> {
    match v {
        Some(x) => toml_get(x, k),
        None => None,
    }
}

/// The string an optional value holds.
pub open spec fn opt_str(v: Option<TomlValue>) -> Option<Seq<char>> {
    match v {
        Some(TomlValue::Str(s)) => Some(s@),
        _ => None,
    }
}

/// The value under `k` when `v` is a table.
pub fn get<'a>(v: &'a TomlValue, k: &str) -> (r: Option<&'a TomlValue>)
    ensures
        match r {
            Some(x) => toml_get(*v, k@) == Some(*x),
            None => toml_get(*v, k@) is None,
        },
{
    match v {
        TomlValue::Table(es) => {
            let mut i: usize = 0;
            assert(es@.skip(0) =~= es@);
            while i < es.len()
                invariant
                    0 <= i <= es@.len(),
                    toml_get(*v, k@) == entry_get(es@, k@),
                    entry_get(es@, k@) == entry_get(es@.skip(i as int), k@),
                decreases es.len() - i,
            {
                assert(es@.skip(i as int).skip(1) =~= es@.skip(i + 1));
                assert(es@.skip(i as int)[0] == es@[i as int]);
                if str_eq(es[i].0.as_str(), k) {
                    assert(entry_get(es@.skip(i as int), k@) == Some(es@[i as int].1));
                    return Some(&es[i].1);
                }
                i += 1;
            }
            None
        },
        _ => None,
    }
}

/// The value under `k` of an optional value that is a table.
pub fn get_opt<'a>(v: Option<&'a TomlValue>, k: &str) -> (r: Option<&'a TomlValue>)
    ensures
        match r {
            Some(x) => opt_get(match v {
                Some(y) => Some(*y),
                None => None,
            }, k@) == Some(*x),
            None => opt_get(match v {
                Some(y) => Some(*y),
                None => None,
            }, k@) is None,
        },
{
    match v {
        Some(x) => get(x, k),
        None => None,
    }
}

/// The string an optional value holds.
pub fn as_str_opt(v: Option<&TomlValue>) -> (r: Option<&String>)
    ensures
        match r {
            Some(s) => opt_str(match v {
                Some(y) => Some(*y),
                None => None,
            }) == Some(s@),
            None => opt_str(match v {
                Some(y) => Some(*y),
                None => None,
            }) is None,
        },
{
    match v {
        Some(TomlValue::Str(s)) => Some(s),
        _ => None,
    }
}

// ---------------------------------------------------------------------------
// Parsing TOML text
// ---------------------------------------------------------------------------

#[verifier::external_type_specification]
#[verifier::external_body]
pub struct ExTomlValue(toml::Value);

/// A text parsed as a TOML document, or the parser's message.
pub uninterp spec fn toml_doc(text: Seq<char>) -> Result<TomlValue, Seq<char>>;

/// A parse result as plain values.
pub open spec fn toml_model(d: Result<TomlValue, String>) -> Result<TomlValue, Seq<char>> {
    match d {
        Ok(v) => Ok(v),
        Err(m) => Err(m@),
    }
}

/// A `toml::Value` as a `TomlValue`: strings, tables (in the parser's key
/// order) and arrays kept, anything else `Other`.
#[verifier::external_body]
fn toml_of(v: &toml::Value) -> TomlValue {
    match v {
        toml::Value::String(s) => TomlValue::Str(s.clone()),
        toml::Value::Table(t) => TomlValue::Table(t.iter().map(|(k, x)| (k.clone(), toml_of(x))).collect()),
        toml::Value::Array(xs) => TomlValue::Array(xs.iter().map(toml_of).collect()),
        _ => TomlValue::Other,
    }
}

/// `toml::from_str::<toml::Value>`: the text parsed, named `toml_doc`; an
/// error gives the parser's message.
#[verifier::external_body]
pub(crate) fn parse_toml(content: &str) -> (r: Result<TomlValue, String>)
    ensures
        toml_model(r) == toml_doc(content@),
{
    toml::from_str::<toml::Value>(content).map(|v| toml_of(&v)).map_err(|e| e.to_string())
}

} // verus!
