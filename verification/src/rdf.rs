//! RDF terms and quads as plain strings, and the IRI helpers the loaders share.
use vstd::prelude::*;
use vstd::string::StringExecFns;

use crate::decimal::{dec, push_decimal};
use crate::text::{chars_of, push_char, to_owned_string};

verus! {

broadcast use vstd::string::group_string_axioms;

/// The namespace of code entities.
pub open spec fn code_ns_iri() -> Seq<char> {
    "https://ds-labs.org/code#"@
}

/// The IRI of `rdf:type`.
pub open spec fn rdf_type_iri() -> Seq<char> {
    "http://www.w3.org/1999/02/22-rdf-syntax-ns#type"@
}

/// The IRI of `xsd:integer`.
pub open spec fn xsd_integer_iri() -> Seq<char> {
    "http://www.w3.org/2001/XMLSchema#integer"@
}

/// The IRI of `xsd:dateTime`.
pub open spec fn xsd_datetime_iri() -> Seq<char> {
    "http://www.w3.org/2001/XMLSchema#dateTime"@
}

/// An RDF term in object position.
#[derive(Debug, Clone, PartialEq, Eq)]
pub enum Term {
    /// A named node.
    Iri(String),
    /// A literal; with no datatype it is a simple (`xsd:string`) literal.
    Literal { value: String, datatype: Option<String> },
}

/// The graph a quad belongs to.
#[derive(Debug, Clone, PartialEq, Eq)]
pub enum GraphName {
    DefaultGraph,
    Named(String),
}

/// A quad whose subject is a named node.
#[derive(Debug, Clone, PartialEq, Eq)]
pub struct Quad {
    pub subject: String,
    pub predicate: String,
    pub object: Term,
    pub graph: GraphName,
}

pub enum TermModel {
    Iri(Seq<char>),
    Literal(Seq<char>, Option<Seq<char>>),
}

pub enum GraphModel {
    DefaultGraph,
    Named(Seq<char>),
}

pub struct QuadModel {
    pub subject: Seq<char>,
    pub predicate: Seq<char>,
    pub object: TermModel,
    pub graph: GraphModel,
}

impl View for Term {
    type V = TermModel;

    open spec fn view(&self) -> TermModel {
        match self {
            Term::Iri(s) => TermModel::Iri(s@),
            Term::Literal { value, datatype } => TermModel::Literal(
                value@,
                match datatype {
                    Some(d) => Some(d@),
                    None => None,
                },
            ),
        }
    }
}

impl View for GraphName {
    type V = GraphModel;

    open spec fn view(&self) -> GraphModel {
        match self {
            GraphName::DefaultGraph => GraphModel::DefaultGraph,
            GraphName::Named(s) => GraphModel::Named(s@),
        }
    }
}

impl View for Quad {
    type V = QuadModel;

    open spec fn view(&self) -> QuadModel {
        QuadModel {
            subject: self.subject@,
            predicate: self.predicate@,
            object: self.object@,
            graph: self.graph@,
        }
    }
}

/// The models of a list of quads.
pub open spec fn quads_model(v: Seq<Quad>) -> Seq<QuadModel> {
    v.map_values(|q: Quad| q@)
}

/// A quad of graph `g` with a code-namespace predicate.
pub open spec fn code_quad(s: Seq<char>, p: Seq<char>, o: TermModel, g: GraphModel) -> QuadModel {
    QuadModel { subject: s, predicate: spec_code_ns(p), object: o, graph: g }
}

/// A quad of graph `g` giving a code-namespace class.
pub open spec fn code_type(s: Seq<char>, class: Seq<char>, g: GraphModel) -> QuadModel {
    QuadModel {
        subject: s,
        predicate: rdf_type_iri(),
        object: TermModel::Iri(spec_code_ns(class)),
        graph: g,
    }
}

/// A quad of the default graph with a code-namespace predicate.
pub open spec fn cq(s: Seq<char>, p: Seq<char>, o: TermModel) -> QuadModel {
    code_quad(s, p, o, GraphModel::DefaultGraph)
}

/// A quad of the default graph giving a code-namespace class.
pub open spec fn ctype(s: Seq<char>, class: Seq<char>) -> QuadModel {
    code_type(s, class, GraphModel::DefaultGraph)
}

/// An `xsd:integer` literal of a natural number.
pub open spec fn int_lit(n: nat) -> TermModel {
    TermModel::Literal(dec(n), Some(xsd_integer_iri()))
}

/// Appends a quad to a list.
pub fn emit(out: &mut Vec<Quad>, x: Quad)
    ensures
        quads_model(final(out)@) == quads_model(old(out)@).push(x@),
{
    let ghost v = x@;
    out.push(x);
    assert(quads_model(out@) =~= quads_model(old(out)@).push(v));
}

/// Appends a list of quads to another.
pub fn emit_all(out: &mut Vec<Quad>, xs: Vec<Quad>)
    ensures
        quads_model(final(out)@) == quads_model(old(out)@) + quads_model(xs@),
{
    let mut xs = xs;
    let ghost all = quads_model(xs@);
    let mut rest: Vec<Quad> = Vec::new();
    while xs.len() > 0
        invariant
            quads_model(rest@) + quads_model(xs@).reverse() == all.reverse(),
        decreases xs.len(),
    {
        let x = xs.pop().unwrap();
        rest.push(x);
        assert(quads_model(rest@) + quads_model(xs@).reverse() =~= all.reverse());
    }
    assert(quads_model(rest@) =~= all.reverse());
    let ghost start = quads_model(out@);
    while rest.len() > 0
        invariant
            quads_model(out@) + quads_model(rest@).reverse() == start + all,
        decreases rest.len(),
    {
        let x = rest.pop().unwrap();
        emit(out, x);
        assert(quads_model(out@) + quads_model(rest@).reverse() =~= start + all);
    }
    assert(quads_model(out@) =~= start + all);
}

/// The percent-encoding of one character that IRIs do not allow, or the character itself.
pub open spec fn sanitize_char(c: char) -> Seq<char> {
    if c == '<' {
        "%3C"@
    } else if c == '>' {
        "%3E"@
    } else if c == '{' {
        "%7B"@
    } else if c == '}' {
        "%7D"@
    } else if c == ' ' {
        "%20"@
    } else if c == '"' {
        "%22"@
    } else if c == '|' {
        "%7C"@
    } else if c == '\\' {
        "%5C"@
    } else if c == '^' {
        "%5E"@
    } else if c == '`' {
        "%60"@
    } else {
        seq![c]
    }
}

/// `s` with the characters IRIs do not allow percent-encoded.
pub open spec fn spec_sanitize(s: Seq<char>) -> Seq<char>
    decreases s.len(),
{
    if s.len() == 0 {
        Seq::empty()
    } else {
        spec_sanitize(s.drop_last()) + sanitize_char(s.last())
    }
}

/// A character that IRIs do not allow and sanitizing percent-encodes.
pub open spec fn iri_forbidden(c: char) -> bool {
    c == '<' || c == '>' || c == '{' || c == '}' || c == ' ' || c == '"' || c == '|' || c == '\\'
        || c == '^' || c == '`'
}

/// One character's encoding holds no forbidden character, is one to three
/// characters long, and is the character itself when it is allowed.
proof fn lemma_sanitize_char(c: char)
    ensures
        1 <= sanitize_char(c).len() <= 3,
        forall|i: int| 0 <= i < sanitize_char(c).len() ==> !iri_forbidden(#[trigger] sanitize_char(c)[i]),
        !iri_forbidden(c) ==> sanitize_char(c) == seq![c],
{
    reveal_strlit("%3C");
    reveal_strlit("%3E");
    reveal_strlit("%7B");
    reveal_strlit("%7D");
    reveal_strlit("%20");
    reveal_strlit("%22");
    reveal_strlit("%7C");
    reveal_strlit("%5C");
    reveal_strlit("%5E");
    reveal_strlit("%60");
}

/// Sanitizing leaves no forbidden character, at most triples the length,
/// never shortens, and leaves a text without forbidden characters as it is.
pub proof fn law_sanitize_shape(s: Seq<char>)
    ensures
        s.len() <= spec_sanitize(s).len() <= 3 * s.len(),
        forall|i: int| 0 <= i < spec_sanitize(s).len() ==> !iri_forbidden(#[trigger] spec_sanitize(s)[i]),
        (forall|i: int| 0 <= i < s.len() ==> !iri_forbidden(#[trigger] s[i])) ==> spec_sanitize(s) == s,
    decreases s.len(),
{
    if s.len() > 0 {
        let d = s.drop_last();
        law_sanitize_shape(d);
        lemma_sanitize_char(s.last());
        let a = spec_sanitize(d);
        let b = sanitize_char(s.last());
        assert forall|i: int| 0 <= i < (a + b).len() implies !iri_forbidden(#[trigger] (a + b)[i]) by {
            if i >= a.len() {
                assert((a + b)[i] == b[i - a.len()]);
            }
        }
        if forall|i: int| 0 <= i < s.len() ==> !iri_forbidden(#[trigger] s[i]) {
            assert forall|i: int| 0 <= i < d.len() implies !iri_forbidden(#[trigger] d[i]) by {
                assert(d[i] == s[i]);
            }
            assert(!iri_forbidden(s[s.len() - 1]));
            assert(d + seq![s.last()] =~= s);
        }
    }
}

/// The character an encoding stands for, if it is one of sanitizing's.
pub open spec fn decode_code(k: Seq<char>) -> Option<char> {
    if k == "%3C"@ {
        Some('<')
    } else if k == "%3E"@ {
        Some('>')
    } else if k == "%7B"@ {
        Some('{')
    } else if k == "%7D"@ {
        Some('}')
    } else if k == "%20"@ {
        Some(' ')
    } else if k == "%22"@ {
        Some('"')
    } else if k == "%7C"@ {
        Some('|')
    } else if k == "%5C"@ {
        Some('\\')
    } else if k == "%5E"@ {
        Some('^')
    } else if k == "%60"@ {
        Some('`')
    } else {
        None
    }
}

/// A sanitized text decoded: each of sanitizing's encodings back to its character.
pub open spec fn desanitize(t: Seq<char>) -> Seq<char>
    decreases t.len(),
{
    if t.len() == 0 {
        Seq::empty()
    } else if t.len() >= 3 && decode_code(t.subrange(t.len() - 3, t.len() as int)) is Some {
        desanitize(t.subrange(0, t.len() - 3)).push(decode_code(t.subrange(t.len() - 3, t.len() as int))->Some_0)
    } else {
        desanitize(t.drop_last()).push(t.last())
    }
}

/// How many characters of `s` sanitizing encodes.
pub open spec fn forbidden_count(s: Seq<char>) -> nat
    decreases s.len(),
{
    if s.len() == 0 {
        0
    } else {
        forbidden_count(s.drop_last()) + if iri_forbidden(s.last()) { 1nat } else { 0nat }
    }
}

/// A forbidden character's encoding is three characters, `%` first and not
/// after, and decodes back to it.
proof fn lemma_code_shape(c: char)
    ensures
        iri_forbidden(c) ==> {
            &&& sanitize_char(c).len() == 3
            &&& sanitize_char(c)[0] == '%'
            &&& sanitize_char(c)[1] != '%'
            &&& sanitize_char(c)[2] != '%'
            &&& decode_code(sanitize_char(c)) == Some(c)
        },
{
    reveal_strlit("%3C");
    reveal_strlit("%3E");
    reveal_strlit("%7B");
    reveal_strlit("%7D");
    reveal_strlit("%20");
    reveal_strlit("%22");
    reveal_strlit("%7C");
    reveal_strlit("%5C");
    reveal_strlit("%5E");
    reveal_strlit("%60");
}

/// A three-character text whose first character is not `%` is no encoding.
proof fn lemma_not_code(k: Seq<char>)
    requires
        k.len() == 3,
        k[0] != '%',
    ensures
        decode_code(k) is None,
{
    reveal_strlit("%3C");
    reveal_strlit("%3E");
    reveal_strlit("%7B");
    reveal_strlit("%7D");
    reveal_strlit("%20");
    reveal_strlit("%22");
    reveal_strlit("%7C");
    reveal_strlit("%5C");
    reveal_strlit("%5E");
    reveal_strlit("%60");
    if k == "%3C"@ || k == "%3E"@ || k == "%7B"@ || k == "%7D"@ || k == "%20"@ || k == "%22"@
        || k == "%7C"@ || k == "%5C"@ || k == "%5E"@ || k == "%60"@ {
        assert(k[0] == '%');
    }
}

/// Without `%` in the text, its sanitized form has no `%` in its last two places.
proof fn lemma_sanitize_tail(s: Seq<char>)
    requires
        !s.contains('%'),
    ensures
        spec_sanitize(s).len() >= 1 ==> spec_sanitize(s)[spec_sanitize(s).len() - 1] != '%',
        spec_sanitize(s).len() >= 2 ==> spec_sanitize(s)[spec_sanitize(s).len() - 2] != '%',
    decreases s.len(),
{
    if s.len() > 0 {
        let d = s.drop_last();
        let c = s.last();
        assert(!d.contains('%')) by {
            if d.contains('%') {
                let i = choose|i: int| 0 <= i < d.len() && d[i] == '%';
                assert(s[i] == '%');
            }
        }
        assert(c != '%') by {
            assert(s[s.len() - 1] == c);
        }
        lemma_sanitize_tail(d);
        lemma_code_shape(c);
        lemma_sanitize_char(c);
        let a = spec_sanitize(d);
        let b = sanitize_char(c);
        let t = a + b;
        if !iri_forbidden(c) {
            assert(b == seq![c]);
            if t.len() >= 2 {
                assert(t[t.len() - 2] == a[a.len() - 1]);
            }
        }
    }
}

/// Sanitizing a text without `%` encodes exactly its forbidden characters,
/// each in three characters, and decoding gives the text back.
pub proof fn law_sanitize_decodes(s: Seq<char>)
    requires
        !s.contains('%'),
    ensures
        spec_sanitize(s).len() == s.len() + 2 * forbidden_count(s),
        desanitize(spec_sanitize(s)) == s,
    decreases s.len(),
{
    if s.len() > 0 {
        let d = s.drop_last();
        let c = s.last();
        assert(!d.contains('%')) by {
            if d.contains('%') {
                let i = choose|i: int| 0 <= i < d.len() && d[i] == '%';
                assert(s[i] == '%');
            }
        }
        law_sanitize_decodes(d);
        lemma_sanitize_tail(d);
        lemma_code_shape(c);
        lemma_sanitize_char(c);
        let a = spec_sanitize(d);
        let b = sanitize_char(c);
        let t = a + b;
        assert(spec_sanitize(s) == t);
        if iri_forbidden(c) {
            assert(t.subrange(t.len() - 3, t.len() as int) =~= b);
            assert(t.subrange(0, t.len() - 3) =~= a);
        } else {
            assert(b == seq![c]);
            if t.len() >= 3 {
                let k = t.subrange(t.len() - 3, t.len() as int);
                assert(k[0] == a[a.len() - 2]);
                lemma_not_code(k);
            }
            assert(t.drop_last() =~= a);
        }
        assert(d.push(c) =~= s);
    }
}

/// The IRI of a code entity.
pub open spec fn spec_code_ns(local: Seq<char>) -> Seq<char> {
    code_ns_iri() + spec_sanitize(local)
}

/// A simple literal.
pub open spec fn lit(value: Seq<char>) -> TermModel {
    TermModel::Literal(value, None)
}

/// A quad of the default graph.
pub open spec fn q(s: Seq<char>, p: Seq<char>, o: TermModel) -> QuadModel {
    QuadModel { subject: s, predicate: p, object: o, graph: GraphModel::DefaultGraph }
}

/// A quad of the default graph linking two named nodes.
pub open spec fn q_link(s: Seq<char>, p: Seq<char>, o: Seq<char>) -> QuadModel {
    q(s, p, TermModel::Iri(o))
}

/// A quad of the default graph giving the type of a named node.
pub open spec fn q_type(s: Seq<char>, class: Seq<char>) -> QuadModel {
    q_link(s, rdf_type_iri(), class)
}

/// Percent-encode characters that are invalid in IRIs.
pub fn sanitize_iri_local(s: &str) -> (r: String)
    ensures
        r@ == spec_sanitize(s@),
{
    let c = chars_of(s);
    let mut out = String::new();
    let mut i: usize = 0;
    while i < c.len()
        invariant
            0 <= i <= c@.len(),
            c@ == s@,
            out@ == spec_sanitize(c@.take(i as int)),
        decreases c.len() - i,
    {
        let ch = c[i];
        if ch == '<' {
            out.append("%3C");
        } else if ch == '>' {
            out.append("%3E");
        } else if ch == '{' {
            out.append("%7B");
        } else if ch == '}' {
            out.append("%7D");
        } else if ch == ' ' {
            out.append("%20");
        } else if ch == '"' {
            out.append("%22");
        } else if ch == '|' {
            out.append("%7C");
        } else if ch == '\\' {
            out.append("%5C");
        } else if ch == '^' {
            out.append("%5E");
        } else if ch == '`' {
            out.append("%60");
        } else {
            push_char(&mut out, ch);
        }
        assert(c@.take(i + 1).drop_last() =~= c@.take(i as int));
        i += 1;
    }
    assert(c@.take(c@.len() as int) =~= c@);
    out
}

/// The IRI of a code entity: the code namespace and the sanitized local name.
pub fn code_ns(local: &str) -> (r: String)
    ensures
        r@ == spec_code_ns(local@),
{
    let mut out = String::new();
    out.append("https://ds-labs.org/code#");
    let s = sanitize_iri_local(local);
    out.append(s.as_str());
    out
}

/// The IRI of `rdf:type`.
pub fn rdf_type() -> (r: String)
    ensures
        r@ == rdf_type_iri(),
{
    to_owned_string("http://www.w3.org/1999/02/22-rdf-syntax-ns#type")
}

/// A simple literal.
pub fn string_literal(value: &str) -> (r: Term)
    ensures
        r@ == lit(value@),
{
    Term::Literal { value: to_owned_string(value), datatype: None }
}

/// The decimal numeral of an `i64`.
pub open spec fn dec_i64(v: i64) -> Seq<char> {
    if v < 0 {
        seq!['-'] + dec((-(v as int)) as nat)
    } else {
        dec(v as nat)
    }
}

/// Appends the decimal numeral of a `u64`.
pub fn push_decimal_u64(out: &mut String, n: u64)
    ensures
        final(out)@ == old(out)@ + dec(n as nat),
    decreases n,
{
    if n < 10 {
        push_char(out, ((48 + n) as u8) as char);
        assert(dec(n as nat) =~= seq![((48 + n) as u8) as char]);
    } else {
        push_decimal_u64(out, n / 10);
        push_char(out, ((48 + n % 10) as u8) as char);
        assert(dec(n as nat) == dec((n / 10) as nat).push(((48 + n % 10) as u8) as char));
    }
}

/// An `xsd:integer` literal.
pub fn integer_literal(value: i64) -> (r: Term)
    ensures
        r@ == TermModel::Literal(dec_i64(value), Some(xsd_integer_iri())),
{
    let mut s = String::new();
    if value < 0 {
        push_char(&mut s, '-');
        let magnitude: u64 = if value == i64::MIN {
            9223372036854775808u64
        } else {
            (-value) as u64
        };
        push_decimal_u64(&mut s, magnitude);
    } else {
        push_decimal_u64(&mut s, value as u64);
    }
    Term::Literal {
        value: s,
        datatype: Some(to_owned_string("http://www.w3.org/2001/XMLSchema#integer")),
    }
}

/// A quad whose predicate is a code-namespace term.
pub fn quad(subject: &str, predicate: &str, object: Term, graph: GraphName) -> (r: Quad)
    ensures
        r@ == (QuadModel {
            subject: subject@,
            predicate: spec_code_ns(predicate@),
            object: object@,
            graph: graph@,
        }),
{
    Quad { subject: to_owned_string(subject), predicate: code_ns(predicate), object, graph }
}

/// A quad giving a subject a code-namespace class.
pub fn quad_type(subject: &str, class: &str, graph: GraphName) -> (r: Quad)
    ensures
        r@ == (QuadModel {
            subject: subject@,
            predicate: rdf_type_iri(),
            object: TermModel::Iri(spec_code_ns(class@)),
            graph: graph@,
        }),
{
    Quad { subject: to_owned_string(subject), predicate: rdf_type(), object: Term::Iri(code_ns(class)), graph }
}

} // verus!
