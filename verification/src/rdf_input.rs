//! Choosing the syntax of RDF input to load, and the answer of a load.
use vstd::prelude::*;
use vstd::string::StringExecFns;

use crate::decimal::dec;
use crate::rdf::push_decimal_u64;
use crate::router::{lowercase, spec_lowercase};
use crate::text::{str_eq, to_owned_string};

verus! {

broadcast use vstd::string::group_string_axioms;

/// An RDF syntax the loader reads by name or file extension.
#[derive(Debug, Clone, Copy, PartialEq, Eq, Structural)]
pub enum RdfSyntax {
    Turtle,
    NTriples,
    NQuads,
    TriG,
    RdfXml,
    N3,
}

/// How a requested format is resolved: one of the names the loader knows, or
/// a media type (lowercased) for the RDF parser to recognise.
pub enum FormatRequest {
    Named(RdfSyntax),
    MediaType(String),
}

/// The syntax a lowercased format name stands for.
pub open spec fn name_syntax(n: Seq<char>) -> Option<RdfSyntax> {
    if n == "turtle"@ || n == "ttl"@ {
        Some(RdfSyntax::Turtle)
    } else if n == "ntriples"@ || n == "nt"@ {
        Some(RdfSyntax::NTriples)
    } else if n == "nquads"@ || n == "nq"@ {
        Some(RdfSyntax::NQuads)
    } else if n == "trig"@ {
        Some(RdfSyntax::TriG)
    } else if n == "rdfxml"@ || n == "rdf/xml"@ {
        Some(RdfSyntax::RdfXml)
    } else if n == "n3"@ {
        Some(RdfSyntax::N3)
    } else {
        None
    }
}

/// The syntax a lowercased format name stands for.
fn name_syntax_exec(n: &str) -> (r: Option<RdfSyntax>)
    ensures
        r == name_syntax(n@),
{
    if str_eq(n, "turtle") || str_eq(n, "ttl") {
        Some(RdfSyntax::Turtle)
    } else if str_eq(n, "ntriples") || str_eq(n, "nt") {
        Some(RdfSyntax::NTriples)
    } else if str_eq(n, "nquads") || str_eq(n, "nq") {
        Some(RdfSyntax::NQuads)
    } else if str_eq(n, "trig") {
        Some(RdfSyntax::TriG)
    } else if str_eq(n, "rdfxml") || str_eq(n, "rdf/xml") {
        Some(RdfSyntax::RdfXml)
    } else if str_eq(n, "n3") {
        Some(RdfSyntax::N3)
    } else {
        None
    }
}

/// Resolves a requested format, compared in lowercase: `turtle`/`ttl`,
/// `ntriples`/`nt`, `nquads`/`nq`, `trig`, `rdfxml`/`rdf/xml` and `n3` by
/// name; anything else as a media type.
pub fn resolve_format(fmt: &str) -> (r: FormatRequest)
    ensures
        match name_syntax(spec_lowercase(fmt@)) {
            Some(s) => r == FormatRequest::Named(s),
            None => r matches FormatRequest::MediaType(m) && m@ == spec_lowercase(fmt@),
        },
{
    let lower = lowercase(fmt);
    match name_syntax_exec(lower.as_str()) {
        Some(s) => FormatRequest::Named(s),
        None => FormatRequest::MediaType(lower),
    }
}

/// The syntax of a file by its extension.
pub open spec fn extension_syntax(ext: Seq<char>) -> Option<RdfSyntax> {
    if ext == "ttl"@ {
        Some(RdfSyntax::Turtle)
    } else if ext == "nt"@ {
        Some(RdfSyntax::NTriples)
    } else if ext == "nq"@ {
        Some(RdfSyntax::NQuads)
    } else if ext == "trig"@ {
        Some(RdfSyntax::TriG)
    } else if ext == "rdf"@ || ext == "xml"@ {
        Some(RdfSyntax::RdfXml)
    } else if ext == "n3"@ {
        Some(RdfSyntax::N3)
    } else {
        None
    }
}

/// The syntax of a file by its extension (case sensitive): `ttl`, `nt`, `nq`,
/// `trig`, `rdf` or `xml`, `n3`.
pub fn format_from_extension(ext: &str) -> (r: Option<RdfSyntax>)
    ensures
        r == extension_syntax(ext@),
{
    if str_eq(ext, "ttl") {
        Some(RdfSyntax::Turtle)
    } else if str_eq(ext, "nt") {
        Some(RdfSyntax::NTriples)
    } else if str_eq(ext, "nq") {
        Some(RdfSyntax::NQuads)
    } else if str_eq(ext, "trig") {
        Some(RdfSyntax::TriG)
    } else if str_eq(ext, "rdf") || str_eq(ext, "xml") {
        Some(RdfSyntax::RdfXml)
    } else if str_eq(ext, "n3") {
        Some(RdfSyntax::N3)
    } else {
        None
    }
}

/// The syntax of input given without a format: that of a file's extension,
/// else Turtle; inline data is Turtle.
pub fn default_syntax(is_file: bool, ext: Option<&str>) -> (r: RdfSyntax)
    ensures
        r == if is_file {
            match ext {
                Some(e) => match extension_syntax(e@) {
                    Some(s) => s,
                    None => RdfSyntax::Turtle,
                },
                None => RdfSyntax::Turtle,
            }
        } else {
            RdfSyntax::Turtle
        },
{
    if is_file {
        match ext {
            Some(e) => match format_from_extension(e) {
                Some(s) => s,
                None => RdfSyntax::Turtle,
            },
            None => RdfSyntax::Turtle,
        }
    } else {
        RdfSyntax::Turtle
    }
}

/// The message for a format that is neither a known name nor a media type.
pub open spec fn unknown_format_text(fmt: Seq<char>) -> Seq<char> {
    "Unknown RDF format: '"@ + fmt
        + "'. Supported: turtle, ntriples, nquads, trig, rdfxml, n3, or a MIME type."@
}

/// The message for a format that is neither a known name nor a media type.
pub fn unknown_format_message(fmt: &str) -> (r: String)
    ensures
        r@ == unknown_format_text(fmt@),
{
    let mut out = to_owned_string("Unknown RDF format: '");
    out.append(fmt);
    out.append("'. Supported: turtle, ntriples, nquads, trig, rdfxml, n3, or a MIME type.");
    out
}

/// The answer of a load: how many triples or quads the store gained.
pub open spec fn load_summary_text(before: u64, after: u64) -> Seq<char> {
    let loaded: nat = if after >= before { (after - before) as nat } else { 0 };
    "Successfully loaded "@ + dec(loaded) + " triples/quads."@
}

/// The answer of a load, from the store's size before and after (a store that
/// shrank counts as nothing loaded).
pub fn load_summary(before: u64, after: u64) -> (r: String)
    ensures
        r@ == load_summary_text(before, after),
{
    let loaded = after.saturating_sub(before);
    let mut out = to_owned_string("Successfully loaded ");
    push_decimal_u64(&mut out, loaded);
    out.append(" triples/quads.");
    out
}

/// A file's syntax follows its extension: `ttl` is Turtle, `nt` N-Triples,
/// `nq` N-Quads, `trig` TriG, `rdf` and `xml` RDF/XML, `n3` N3; no other
/// extension names a syntax. Each of these extensions but `rdf` and `xml` is
/// also a format name of the same syntax.
pub proof fn law_extension_syntax(ext: Seq<char>)
    ensures
        ext == "ttl"@ ==> extension_syntax(ext) == Some(RdfSyntax::Turtle),
        ext == "nt"@ ==> extension_syntax(ext) == Some(RdfSyntax::NTriples),
        ext == "nq"@ ==> extension_syntax(ext) == Some(RdfSyntax::NQuads),
        ext == "trig"@ ==> extension_syntax(ext) == Some(RdfSyntax::TriG),
        ext == "rdf"@ || ext == "xml"@ ==> extension_syntax(ext) == Some(RdfSyntax::RdfXml),
        ext == "n3"@ ==> extension_syntax(ext) == Some(RdfSyntax::N3),
        !(ext == "ttl"@ || ext == "nt"@ || ext == "nq"@ || ext == "trig"@ || ext == "rdf"@ || ext == "xml"@
            || ext == "n3"@) ==> extension_syntax(ext) is None,
        extension_syntax(ext) is Some && ext != "rdf"@ && ext != "xml"@ ==> name_syntax(ext) == extension_syntax(ext),
{
    reveal_strlit("ttl");
    reveal_strlit("nt");
    reveal_strlit("nq");
    reveal_strlit("trig");
    reveal_strlit("rdf");
    reveal_strlit("xml");
    reveal_strlit("n3");
    reveal_strlit("turtle");
    reveal_strlit("ntriples");
    reveal_strlit("nquads");
    reveal_strlit("rdfxml");
    reveal_strlit("rdf/xml");
    if ext == "n3"@ {
        assert(ext[1] != "nq"@[1]);
        assert(ext.len() != "nquads"@.len());
        assert(ext[1] != "nt"@[1]);
        assert(ext.len() != "ntriples"@.len());
        assert(ext.len() != "rdf"@.len());
        assert(ext.len() != "rdf/xml"@.len());
        assert(ext.len() != "rdfxml"@.len());
        assert(ext.len() != "trig"@.len());
        assert(ext.len() != "ttl"@.len());
        assert(ext.len() != "turtle"@.len());
        assert(ext.len() != "xml"@.len());
    }
    if ext == "nq"@ {
        assert(ext[1] != "n3"@[1]);
        assert(ext.len() != "nquads"@.len());
        assert(ext[1] != "nt"@[1]);
        assert(ext.len() != "ntriples"@.len());
        assert(ext.len() != "rdf"@.len());
        assert(ext.len() != "rdf/xml"@.len());
        assert(ext.len() != "rdfxml"@.len());
        assert(ext.len() != "trig"@.len());
        assert(ext.len() != "ttl"@.len());
        assert(ext.len() != "turtle"@.len());
        assert(ext.len() != "xml"@.len());
    }
    if ext == "nquads"@ {
        assert(ext.len() != "n3"@.len());
        assert(ext.len() != "nq"@.len());
        assert(ext.len() != "nt"@.len());
        assert(ext.len() != "ntriples"@.len());
        assert(ext.len() != "rdf"@.len());
        assert(ext.len() != "rdf/xml"@.len());
        assert(ext[0] != "rdfxml"@[0]);
        assert(ext.len() != "trig"@.len());
        assert(ext.len() != "ttl"@.len());
        assert(ext[0] != "turtle"@[0]);
        assert(ext.len() != "xml"@.len());
    }
    if ext == "nt"@ {
        assert(ext[1] != "n3"@[1]);
        assert(ext[1] != "nq"@[1]);
        assert(ext.len() != "nquads"@.len());
        assert(ext.len() != "ntriples"@.len());
        assert(ext.len() != "rdf"@.len());
        assert(ext.len() != "rdf/xml"@.len());
        assert(ext.len() != "rdfxml"@.len());
        assert(ext.len() != "trig"@.len());
        assert(ext.len() != "ttl"@.len());
        assert(ext.len() != "turtle"@.len());
        assert(ext.len() != "xml"@.len());
    }
    if ext == "ntriples"@ {
        assert(ext.len() != "n3"@.len());
        assert(ext.len() != "nq"@.len());
        assert(ext.len() != "nquads"@.len());
        assert(ext.len() != "nt"@.len());
        assert(ext.len() != "rdf"@.len());
        assert(ext.len() != "rdf/xml"@.len());
        assert(ext.len() != "rdfxml"@.len());
        assert(ext.len() != "trig"@.len());
        assert(ext.len() != "ttl"@.len());
        assert(ext.len() != "turtle"@.len());
        assert(ext.len() != "xml"@.len());
    }
    if ext == "rdf"@ {
        assert(ext.len() != "n3"@.len());
        assert(ext.len() != "nq"@.len());
        assert(ext.len() != "nquads"@.len());
        assert(ext.len() != "nt"@.len());
        assert(ext.len() != "ntriples"@.len());
        assert(ext.len() != "rdf/xml"@.len());
        assert(ext.len() != "rdfxml"@.len());
        assert(ext.len() != "trig"@.len());
        assert(ext[0] != "ttl"@[0]);
        assert(ext.len() != "turtle"@.len());
        assert(ext[0] != "xml"@[0]);
    }
    if ext == "rdf/xml"@ {
        assert(ext.len() != "n3"@.len());
        assert(ext.len() != "nq"@.len());
        assert(ext.len() != "nquads"@.len());
        assert(ext.len() != "nt"@.len());
        assert(ext.len() != "ntriples"@.len());
        assert(ext.len() != "rdf"@.len());
        assert(ext.len() != "rdfxml"@.len());
        assert(ext.len() != "trig"@.len());
        assert(ext.len() != "ttl"@.len());
        assert(ext.len() != "turtle"@.len());
        assert(ext.len() != "xml"@.len());
    }
    if ext == "rdfxml"@ {
        assert(ext.len() != "n3"@.len());
        assert(ext.len() != "nq"@.len());
        assert(ext[0] != "nquads"@[0]);
        assert(ext.len() != "nt"@.len());
        assert(ext.len() != "ntriples"@.len());
        assert(ext.len() != "rdf"@.len());
        assert(ext.len() != "rdf/xml"@.len());
        assert(ext.len() != "trig"@.len());
        assert(ext.len() != "ttl"@.len());
        assert(ext[0] != "turtle"@[0]);
        assert(ext.len() != "xml"@.len());
    }
    if ext == "trig"@ {
        assert(ext.len() != "n3"@.len());
        assert(ext.len() != "nq"@.len());
        assert(ext.len() != "nquads"@.len());
        assert(ext.len() != "nt"@.len());
        assert(ext.len() != "ntriples"@.len());
        assert(ext.len() != "rdf"@.len());
        assert(ext.len() != "rdf/xml"@.len());
        assert(ext.len() != "rdfxml"@.len());
        assert(ext.len() != "ttl"@.len());
        assert(ext.len() != "turtle"@.len());
        assert(ext.len() != "xml"@.len());
    }
    if ext == "ttl"@ {
        assert(ext.len() != "n3"@.len());
        assert(ext.len() != "nq"@.len());
        assert(ext.len() != "nquads"@.len());
        assert(ext.len() != "nt"@.len());
        assert(ext.len() != "ntriples"@.len());
        assert(ext[0] != "rdf"@[0]);
        assert(ext.len() != "rdf/xml"@.len());
        assert(ext.len() != "rdfxml"@.len());
        assert(ext.len() != "trig"@.len());
        assert(ext.len() != "turtle"@.len());
        assert(ext[0] != "xml"@[0]);
    }
    if ext == "turtle"@ {
        assert(ext.len() != "n3"@.len());
        assert(ext.len() != "nq"@.len());
        assert(ext[0] != "nquads"@[0]);
        assert(ext.len() != "nt"@.len());
        assert(ext.len() != "ntriples"@.len());
        assert(ext.len() != "rdf"@.len());
        assert(ext.len() != "rdf/xml"@.len());
        assert(ext[0] != "rdfxml"@[0]);
        assert(ext.len() != "trig"@.len());
        assert(ext.len() != "ttl"@.len());
        assert(ext.len() != "xml"@.len());
    }
    if ext == "xml"@ {
        assert(ext.len() != "n3"@.len());
        assert(ext.len() != "nq"@.len());
        assert(ext.len() != "nquads"@.len());
        assert(ext.len() != "nt"@.len());
        assert(ext.len() != "ntriples"@.len());
        assert(ext[0] != "rdf"@[0]);
        assert(ext.len() != "rdf/xml"@.len());
        assert(ext.len() != "rdfxml"@.len());
        assert(ext.len() != "trig"@.len());
        assert(ext[0] != "ttl"@[0]);
        assert(ext.len() != "turtle"@.len());
    }
}

/// A format name, once lowercased, picks its syntax: `turtle` or `ttl` is
/// Turtle, `ntriples` or `nt` N-Triples, `nquads` or `nq` N-Quads, `trig`
/// TriG, `rdfxml` or `rdf/xml` RDF/XML, `n3` N3; any other name is no syntax
/// of the loader's own.
pub proof fn law_name_syntax(n: Seq<char>)
    ensures
        n == "turtle"@ || n == "ttl"@ ==> name_syntax(n) == Some(RdfSyntax::Turtle),
        n == "ntriples"@ || n == "nt"@ ==> name_syntax(n) == Some(RdfSyntax::NTriples),
        n == "nquads"@ || n == "nq"@ ==> name_syntax(n) == Some(RdfSyntax::NQuads),
        n == "trig"@ ==> name_syntax(n) == Some(RdfSyntax::TriG),
        n == "rdfxml"@ || n == "rdf/xml"@ ==> name_syntax(n) == Some(RdfSyntax::RdfXml),
        n == "n3"@ ==> name_syntax(n) == Some(RdfSyntax::N3),
        !(n == "turtle"@ || n == "ttl"@ || n == "ntriples"@ || n == "nt"@ || n == "nquads"@ || n == "nq"@
            || n == "trig"@ || n == "rdfxml"@ || n == "rdf/xml"@ || n == "n3"@) ==> name_syntax(n) is None,
{
    reveal_strlit("ttl");
    reveal_strlit("nt");
    reveal_strlit("nq");
    reveal_strlit("trig");
    reveal_strlit("n3");
    reveal_strlit("turtle");
    reveal_strlit("ntriples");
    reveal_strlit("nquads");
    reveal_strlit("rdfxml");
    reveal_strlit("rdf/xml");
    if n == "turtle"@ {
        assert(n.len() != "ttl"@.len());
        assert(n.len() != "ntriples"@.len());
        assert(n.len() != "nt"@.len());
        assert(n[0] != "nquads"@[0]);
        assert(n.len() != "nq"@.len());
        assert(n.len() != "trig"@.len());
        assert(n[0] != "rdfxml"@[0]);
        assert(n.len() != "rdf/xml"@.len());
        assert(n.len() != "n3"@.len());
    }
    if n == "ttl"@ {
        assert(n.len() != "turtle"@.len());
        assert(n.len() != "ntriples"@.len());
        assert(n.len() != "nt"@.len());
        assert(n.len() != "nquads"@.len());
        assert(n.len() != "nq"@.len());
        assert(n.len() != "trig"@.len());
        assert(n.len() != "rdfxml"@.len());
        assert(n.len() != "rdf/xml"@.len());
        assert(n.len() != "n3"@.len());
    }
    if n == "ntriples"@ {
        assert(n.len() != "turtle"@.len());
        assert(n.len() != "ttl"@.len());
        assert(n.len() != "nt"@.len());
        assert(n.len() != "nquads"@.len());
        assert(n.len() != "nq"@.len());
        assert(n.len() != "trig"@.len());
        assert(n.len() != "rdfxml"@.len());
        assert(n.len() != "rdf/xml"@.len());
        assert(n.len() != "n3"@.len());
    }
    if n == "nt"@ {
        assert(n.len() != "turtle"@.len());
        assert(n.len() != "ttl"@.len());
        assert(n.len() != "ntriples"@.len());
        assert(n.len() != "nquads"@.len());
        assert(n[1] != "nq"@[1]);
        assert(n.len() != "trig"@.len());
        assert(n.len() != "rdfxml"@.len());
        assert(n.len() != "rdf/xml"@.len());
        assert(n[1] != "n3"@[1]);
    }
    if n == "nquads"@ {
        assert(n[0] != "turtle"@[0]);
        assert(n.len() != "ttl"@.len());
        assert(n.len() != "ntriples"@.len());
        assert(n.len() != "nt"@.len());
        assert(n.len() != "nq"@.len());
        assert(n.len() != "trig"@.len());
        assert(n[0] != "rdfxml"@[0]);
        assert(n.len() != "rdf/xml"@.len());
        assert(n.len() != "n3"@.len());
    }
    if n == "nq"@ {
        assert(n.len() != "turtle"@.len());
        assert(n.len() != "ttl"@.len());
        assert(n.len() != "ntriples"@.len());
        assert(n[1] != "nt"@[1]);
        assert(n.len() != "nquads"@.len());
        assert(n.len() != "trig"@.len());
        assert(n.len() != "rdfxml"@.len());
        assert(n.len() != "rdf/xml"@.len());
        assert(n[1] != "n3"@[1]);
    }
    if n == "trig"@ {
        assert(n.len() != "turtle"@.len());
        assert(n.len() != "ttl"@.len());
        assert(n.len() != "ntriples"@.len());
        assert(n.len() != "nt"@.len());
        assert(n.len() != "nquads"@.len());
        assert(n.len() != "nq"@.len());
        assert(n.len() != "rdfxml"@.len());
        assert(n.len() != "rdf/xml"@.len());
        assert(n.len() != "n3"@.len());
    }
    if n == "rdfxml"@ {
        assert(n[0] != "turtle"@[0]);
        assert(n.len() != "ttl"@.len());
        assert(n.len() != "ntriples"@.len());
        assert(n.len() != "nt"@.len());
        assert(n[0] != "nquads"@[0]);
        assert(n.len() != "nq"@.len());
        assert(n.len() != "trig"@.len());
        assert(n.len() != "rdf/xml"@.len());
        assert(n.len() != "n3"@.len());
    }
    if n == "rdf/xml"@ {
        assert(n.len() != "turtle"@.len());
        assert(n.len() != "ttl"@.len());
        assert(n.len() != "ntriples"@.len());
        assert(n.len() != "nt"@.len());
        assert(n.len() != "nquads"@.len());
        assert(n.len() != "nq"@.len());
        assert(n.len() != "trig"@.len());
        assert(n.len() != "rdfxml"@.len());
        assert(n.len() != "n3"@.len());
    }
    if n == "n3"@ {
        assert(n.len() != "turtle"@.len());
        assert(n.len() != "ttl"@.len());
        assert(n.len() != "ntriples"@.len());
        assert(n[1] != "nt"@[1]);
        assert(n.len() != "nquads"@.len());
        assert(n[1] != "nq"@[1]);
        assert(n.len() != "trig"@.len());
        assert(n.len() != "rdfxml"@.len());
        assert(n.len() != "rdf/xml"@.len());
    }
}

} // verus!
