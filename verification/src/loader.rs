//! What the source-code loaders share: their error type, and the rules that
//! choose a loader for a path and report what loading did.
use vstd::prelude::*;
use vstd::string::StringExecFns;

use crate::text::{clone_string, str_eq, to_owned_string};

verus! {

broadcast use vstd::string::group_string_axioms;

/// Why loading source code failed.
#[derive(Debug, Clone, PartialEq, Eq)]
pub enum LoadError {
    /// A file could not be read.
    Io(String),
    /// A file could not be parsed: the file, the line when known, and the parser's message.
    Parse { file: String, line: Option<usize>, message: String },
}

/// The model of a load error.
pub enum LoadErrorModel {
    Io(Seq<char>),
    Parse(Seq<char>, Option<usize>, Seq<char>),
}

impl View for LoadError {
    type V = LoadErrorModel;

    open spec fn view(&self) -> LoadErrorModel {
        match self {
            LoadError::Io(m) => LoadErrorModel::Io(m@),
            LoadError::Parse { file, line, message } => LoadErrorModel::Parse(file@, *line, message@),
        }
    }
}

/// A parse error without a line.
pub fn parse_error(file: &str, message: &String) -> (r: LoadError)
    ensures
        r@ == LoadErrorModel::Parse(file@, None, message@),
{
    LoadError::Parse { file: to_owned_string(file), line: None, message: clone_string(message) }
}

/// The language whose loader reads files with extension `ext`.
pub open spec fn extension_language(ext: Seq<char>) -> Option<Seq<char>> {
    if ext == "py"@ {
        Some("python"@)
    } else if ext == "rs"@ {
        Some("rust"@)
    } else if ext == "ts"@ || ext == "tsx"@ || ext == "js"@ || ext == "jsx"@ {
        Some("typescript"@)
    } else {
        None
    }
}

/// The language whose loader reads files with extension `ext`.
pub fn language_for_extension(ext: &str) -> (r: Option<&'static str>)
    ensures
        match r {
            Some(l) => extension_language(ext@) == Some(l@),
            None => extension_language(ext@) is None,
        },
{
    if str_eq(ext, "py") {
        Some("python")
    } else if str_eq(ext, "rs") {
        Some("rust")
    } else if str_eq(ext, "ts") || str_eq(ext, "tsx") || str_eq(ext, "js") || str_eq(ext, "jsx") {
        Some("typescript")
    } else {
        None
    }
}

/// The marker files a project directory holds.
pub struct ProjectMarkers {
    pub cargo_toml: bool,
    pub pyproject_toml: bool,
    pub setup_py: bool,
    pub package_json: bool,
    pub tsconfig_json: bool,
}

/// The language of a project directory, by its marker files: Rust first, then
/// Python, then TypeScript.
pub open spec fn markers_language(m: ProjectMarkers) -> Option<Seq<char>> {
    if m.cargo_toml {
        Some("rust"@)
    } else if m.pyproject_toml || m.setup_py {
        Some("python"@)
    } else if m.package_json || m.tsconfig_json {
        Some("typescript"@)
    } else {
        None
    }
}

/// The language of a project directory, by its marker files: Rust first, then
/// Python, then TypeScript.
pub fn language_for_markers(m: &ProjectMarkers) -> (r: Option<&'static str>)
    ensures
        match r {
            Some(l) => markers_language(*m) == Some(l@),
            None => markers_language(*m) is None,
        },
{
    if m.cargo_toml {
        Some("rust")
    } else if m.pyproject_toml || m.setup_py {
        Some("python")
    } else if m.package_json || m.tsconfig_json {
        Some("typescript")
    } else {
        None
    }
}

/// Moves quads into the named graph `g`.
pub fn into_graph(quads: Vec<crate::rdf::Quad>, g: &str) -> (r: Vec<crate::rdf::Quad>)
    ensures
        r@.len() == quads@.len(),
        forall|i: int| 0 <= i < r@.len() ==> (#[trigger] r@[i])@ == (crate::rdf::QuadModel {
            graph: crate::rdf::GraphModel::Named(g@),
            ..quads@[i]@
        }),
{
    let mut out: Vec<crate::rdf::Quad> = Vec::new();
    let mut quads = quads;
    let ghost all = quads@;
    let mut rest: Vec<crate::rdf::Quad> = Vec::new();
    while quads.len() > 0
        invariant
            rest@.len() + quads@.len() == all.len(),
            quads@ == all.take(quads@.len() as int),
            forall|i: int| 0 <= i < rest@.len() ==> rest@[i] == all[all.len() - 1 - i],
        decreases quads.len(),
    {
        let q = quads.pop().unwrap();
        rest.push(q);
    }
    while rest.len() > 0
        invariant
            out@.len() + rest@.len() == all.len(),
            forall|i: int| 0 <= i < rest@.len() ==> rest@[i] == all[all.len() - 1 - i],
            forall|i: int| 0 <= i < out@.len() ==> (#[trigger] out@[i])@ == (crate::rdf::QuadModel {
                graph: crate::rdf::GraphModel::Named(g@),
                ..all[i]@
            }),
        decreases rest.len(),
    {
        let q = rest.pop().unwrap();
        let crate::rdf::Quad { subject, predicate, object, graph: _ } = q;
        out.push(crate::rdf::Quad { subject, predicate, object, graph: crate::rdf::GraphName::Named(to_owned_string(g)) });
    }
    out
}

/// Whether a text is an IRI as the store's parser accepts it.
pub uninterp spec fn iri_valid(s: Seq<char>) -> bool;

/// `oxigraph::model::NamedNode::new`: whether `g` parses as an IRI, named `iri_valid`.
#[verifier::external_body]
fn graph_iri_ok(g: &str) -> (r: bool)
    ensures
        r == iri_valid(g@),
{
    oxigraph::model::NamedNode::new(g).is_ok()
}

/// Moves quads into the named graph `g` when `g` is an IRI; otherwise the
/// message saying that it is not.
pub fn into_named_graph(quads: Vec<crate::rdf::Quad>, g: &str) -> (r: Result<Vec<crate::rdf::Quad>, String>)
    ensures
        !iri_valid(g@) ==> (r matches Err(m) && m@ == "Invalid graph URI: "@ + g@),
        iri_valid(g@) ==> (r matches Ok(v) && v@.len() == quads@.len() && forall|i: int| 0 <= i < v@.len() ==> (#[trigger] v@[i])@ == (crate::rdf::QuadModel {
            graph: crate::rdf::GraphModel::Named(g@),
            ..quads@[i]@
        })),
{
    if !graph_iri_ok(g) {
        let mut m = to_owned_string("Invalid graph URI: ");
        m.append(g);
        return Err(m);
    }
    Ok(into_graph(quads, g))
}

/// The loader for a file is picked by its extension: `py` files are Python,
/// `rs` files Rust, and `ts`, `tsx`, `js` and `jsx` files TypeScript; every
/// other extension has no loader.
pub proof fn law_extension_picks_loader(ext: Seq<char>)
    ensures
        ext == "py"@ ==> extension_language(ext) == Some("python"@),
        ext == "rs"@ ==> extension_language(ext) == Some("rust"@),
        ext == "ts"@ || ext == "tsx"@ || ext == "js"@ || ext == "jsx"@ ==> extension_language(ext) == Some(
            "typescript"@,
        ),
        !(ext == "py"@ || ext == "rs"@ || ext == "ts"@ || ext == "tsx"@ || ext == "js"@ || ext == "jsx"@)
            ==> extension_language(ext) is None,
{
    reveal_strlit("py");
    reveal_strlit("rs");
    reveal_strlit("ts");
    reveal_strlit("tsx");
    reveal_strlit("js");
    reveal_strlit("jsx");
    if ext == "rs"@ || ext == "ts"@ || ext == "tsx"@ || ext == "js"@ || ext == "jsx"@ {
        assert(ext[0] != "py"@[0]);
        if ext != "rs"@ {
            assert(ext[0] != "rs"@[0]);
        }
    }
}

/// A project's language follows its marker files: a `Cargo.toml` makes it
/// Rust whatever else is there; otherwise a `pyproject.toml` or `setup.py`
/// makes it Python; otherwise a `package.json` or `tsconfig.json` makes it
/// TypeScript; a directory with none of them has no language.
pub proof fn law_markers_pick_language(m: ProjectMarkers)
    ensures
        m.cargo_toml ==> markers_language(m) == Some("rust"@),
        !m.cargo_toml && (m.pyproject_toml || m.setup_py) ==> markers_language(m) == Some("python"@),
        !m.cargo_toml && !m.pyproject_toml && !m.setup_py && (m.package_json || m.tsconfig_json)
            ==> markers_language(m) == Some("typescript"@),
        !(m.cargo_toml || m.pyproject_toml || m.setup_py || m.package_json || m.tsconfig_json)
            ==> markers_language(m) is None,
{
}

} // verus!


