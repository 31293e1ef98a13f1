//! Python sources as RDF: modules, functions, classes, fields and imports,
//! read from a parsed module, and project metadata from `pyproject.toml` or
//! `requirements.txt`.
use vstd::prelude::*;
use vstd::string::StringExecFns;
use vstd::string::StringSliceAdditionalSpecFns;

use crate::loader::{parse_error, LoadError, LoadErrorModel};
use crate::rdf::{
    code_ns, cq, ctype, emit, int_lit, integer_literal, lit, quad, quad_type, quads_model,
    spec_code_ns, string_literal, GraphName, Quad, QuadModel, Term, TermModel,
};
use crate::toml_doc::{as_str_opt, entry_get, get, get_opt, opt_get, opt_str, parse_toml, toml_doc, toml_get, TomlValue};
use crate::text::{
    chars_of, clone_string, ends_with, push_char, spec_join, starts_with, str_eq, string_of,
    to_owned_string, trim, trim_exec, find_from, occurs_at, lemma_trim_idempotent, lemma_trim_chars,
    lemma_find_from_absent, lemma_find_from_first, lemma_find_char_from_bounds,
};
use rustpython_parser::ast::{self, Ranged};
use rustpython_parser::Parse;

verus! {

broadcast use vstd::string::group_string_axioms;

/// Reads Python sources.
pub struct PythonLoader;

/// A constant of a Python expression.
pub enum PyConst {
    Str(String),
    /// An integer, as it prints.
    Int(String),
    /// A float, as it prints.
    Float(String),
    Bool(bool),
    NoneValue,
    Ellipsis,
    /// Any other constant (bytes, tuples, complex numbers).
    Other,
}

/// A Python expression, as far as the loader reads it.
pub enum PyExpr {
    Name(String),
    Attribute(Box<PyExpr>, String),
    Subscript(Box<PyExpr>, Box<PyExpr>),
    Constant(PyConst),
    Tuple(Vec<PyExpr>),
    List(Vec<PyExpr>),
    BinOp(Box<PyExpr>, Box<PyExpr>),
    Call(Box<PyExpr>, Vec<PyExpr>),
    Starred(Box<PyExpr>),
    /// Any other expression.
    Other,
}

/// A positional parameter and its annotation.
pub struct PyParam {
    pub name: String,
    pub annotation: Option<PyExpr>,
}

/// A function or method definition.
pub struct PyFunction {
    pub name: String,
    /// The positional parameters, in order.
    pub params: Vec<PyParam>,
    pub returns: Option<PyExpr>,
    pub decorators: Vec<PyExpr>,
    pub body: Vec<PyStmt>,
    /// Byte offsets of the definition's start and end.
    pub start: u32,
    pub end: u32,
    pub is_async: bool,
}

/// A class definition.
pub struct PyClass {
    pub name: String,
    pub bases: Vec<PyExpr>,
    pub decorators: Vec<PyExpr>,
    pub body: Vec<PyStmt>,
    /// Byte offsets of the definition's start and end.
    pub start: u32,
    pub end: u32,
}

/// A Python statement, as far as the loader reads it.
pub enum PyStmt {
    Function(PyFunction),
    Class(PyClass),
    /// `import a.b, c`: the imported module names.
    Import(Vec<String>),
    /// `from m import a, b`: the module, if named, and the imported names.
    ImportFrom(Option<String>, Vec<String>),
    /// An assignment: its targets and starting byte offset.
    Assign(Vec<PyExpr>, u32),
    /// An annotated assignment: target, annotation and starting byte offset.
    AnnAssign(PyExpr, PyExpr, u32),
    /// An expression statement.
    Expr(PyExpr),
    /// Any other statement.
    Other,
}

/// The text of a constant.
pub open spec fn const_text(c: PyConst) -> Seq<char> {
    match c {
        PyConst::Str(s) => "\""@ + s@ + "\""@,
        PyConst::Int(i) => i@,
        PyConst::Float(f) => f@,
        PyConst::Bool(b) => if b { "true"@ } else { "false"@ },
        PyConst::NoneValue => "None"@,
        PyConst::Ellipsis => "..."@,
        PyConst::Other => "..."@,
    }
}

/// A readable text of an expression: names, attributes, subscripts, constants,
/// tuples, lists, unions, calls and starred expressions; `...` for anything else.
pub open spec fn expr_text(e: PyExpr) -> Seq<char>
    decreases e,
{
    match e {
        PyExpr::Name(n) => n@,
        PyExpr::Attribute(v, a) => expr_text(*v) + "."@ + a@,
        PyExpr::Subscript(v, s) => expr_text(*v) + "["@ + expr_text(*s) + "]"@,
        PyExpr::Constant(c) => const_text(c),
        PyExpr::Tuple(xs) => {
            proof {
                assert(decreases_to!(xs => xs@));
            }
            "("@ + spec_join(exprs_text(xs@), ", "@) + ")"@
        },
        PyExpr::List(xs) => {
            proof {
                assert(decreases_to!(xs => xs@));
            }
            "["@ + spec_join(exprs_text(xs@), ", "@) + "]"@
        },
        PyExpr::BinOp(l, r) => expr_text(*l) + " | "@ + expr_text(*r),
        PyExpr::Call(f, xs) => {
            proof {
                assert(decreases_to!(xs => xs@));
            }
            expr_text(*f) + "("@ + spec_join(exprs_text(xs@), ", "@) + ")"@
        },
        PyExpr::Starred(v) => "*"@ + expr_text(*v),
        PyExpr::Other => "..."@,
    }
}

/// The texts of expressions, in order.
pub open spec fn exprs_text(es: Seq<PyExpr>) -> Seq<Seq<char>>
    decreases es,
{
    if es.len() == 0 {
        Seq::empty()
    } else {
        proof {
            assert(decreases_to!(es => es[es.len() - 1]));
            assert(decreases_to!(es => es.subrange(0, es.len() - 1)));
        }
        exprs_text(es.subrange(0, es.len() - 1)).push(expr_text(es[es.len() - 1]))
    }
}

/// The text of a constant.
fn const_to_string(c: &PyConst) -> (r: String)
    ensures
        r@ == const_text(*c),
{
    match c {
        PyConst::Str(s) => {
            let mut out = to_owned_string("\"");
            out.append(s.as_str());
            out.append("\"");
            out
        },
        PyConst::Int(i) => clone_string(i),
        PyConst::Float(f) => clone_string(f),
        PyConst::Bool(b) => if *b { to_owned_string("true") } else { to_owned_string("false") },
        PyConst::NoneValue => to_owned_string("None"),
        PyConst::Ellipsis => to_owned_string("..."),
        PyConst::Other => to_owned_string("..."),
    }
}

/// The texts of `es` joined by `", "`, appended to `out`.
fn push_joined(out: &mut String, es: &Vec<PyExpr>)
    ensures
        final(out)@ == old(out)@ + spec_join(exprs_text(es@), ", "@),
    decreases es@, 0int,
{
    let ghost start = out@;
    let mut i: usize = 0;
    while i < es.len()
        invariant
            0 <= i <= es@.len(),
            out@ == start + spec_join(exprs_text(es@.subrange(0, i as int)), ", "@),
        decreases es.len() - i,
    {
        proof {
            assert(decreases_to!(es@ => es@[i as int]));
            lemma_exprs_text_prefix(es@, i as int);
        }
        if i > 0 {
            out.append(", ");
        }
        let t = expr_to_string(&es[i]);
        out.append(t.as_str());
        proof {
            lemma_exprs_text_prefix(es@, i + 1);
            let parts = exprs_text(es@.subrange(0, i + 1));
            assert(parts.drop_last() =~= exprs_text(es@.subrange(0, i as int)));
            assert(parts.last() == expr_text(es@[i as int]));
        }
        i += 1;
    }
    assert(es@.subrange(0, es@.len() as int) =~= es@);
}

/// The texts of a prefix are the prefix of the texts.
proof fn lemma_exprs_text_prefix(es: Seq<PyExpr>, k: int)
    requires
        0 <= k <= es.len(),
    ensures
        exprs_text(es.subrange(0, k)).len() == k,
        k > 0 ==> exprs_text(es.subrange(0, k)) == exprs_text(es.subrange(0, k - 1)).push(expr_text(es[k - 1])),
{
    lemma_exprs_text_len(es.subrange(0, k));
    if k > 0 {
        let p = es.subrange(0, k);
        assert(p.subrange(0, p.len() - 1) =~= es.subrange(0, k - 1));
    }
}

proof fn lemma_exprs_text_len(es: Seq<PyExpr>)
    ensures
        exprs_text(es).len() == es.len(),
    decreases es.len(),
{
    if es.len() > 0 {
        lemma_exprs_text_len(es.subrange(0, es.len() - 1));
    }
}

/// A readable text of an expression: names, attributes, subscripts, constants,
/// tuples, lists, unions, calls and starred expressions; `...` for anything else.
pub fn expr_to_string(e: &PyExpr) -> (r: String)
    ensures
        r@ == expr_text(*e),
    decreases e, 1int,
{
    match e {
        PyExpr::Name(n) => clone_string(n),
        PyExpr::Attribute(v, a) => {
            let mut out = expr_to_string(v);
            out.append(".");
            out.append(a.as_str());
            out
        },
        PyExpr::Subscript(v, s) => {
            let mut out = expr_to_string(v);
            out.append("[");
            let t = expr_to_string(s);
            out.append(t.as_str());
            out.append("]");
            out
        },
        PyExpr::Constant(c) => const_to_string(c),
        PyExpr::Tuple(xs) => {
            proof {
                assert(decreases_to!(xs => xs@));
            }
            let mut out = to_owned_string("(");
            push_joined(&mut out, xs);
            out.append(")");
            out
        },
        PyExpr::List(xs) => {
            proof {
                assert(decreases_to!(xs => xs@));
            }
            let mut out = to_owned_string("[");
            push_joined(&mut out, xs);
            out.append("]");
            out
        },
        PyExpr::BinOp(l, r) => {
            let mut out = expr_to_string(l);
            out.append(" | ");
            let t = expr_to_string(r);
            out.append(t.as_str());
            out
        },
        PyExpr::Call(f, xs) => {
            proof {
                assert(decreases_to!(xs => xs@));
            }
            let mut out = expr_to_string(f);
            out.append("(");
            push_joined(&mut out, xs);
            out.append(")");
            out
        },
        PyExpr::Starred(v) => {
            let mut out = to_owned_string("*");
            let t = expr_to_string(v);
            out.append(t.as_str());
            out
        },
        PyExpr::Other => to_owned_string("..."),
    }
}

/// The docstring of a body: its first statement, when a non-blank string
/// constant, trimmed.
pub open spec fn docstring(body: Seq<PyStmt>) -> Option<Seq<char>> {
    if body.len() > 0 {
        match body[0] {
            PyStmt::Expr(PyExpr::Constant(PyConst::Str(s))) => if trim(s@).len() > 0 {
                Some(trim(s@))
            } else {
                None
            },
            _ => None,
        }
    } else {
        None
    }
}

/// The docstring of a body: its first statement, when a non-blank string
/// constant, trimmed.
pub fn extract_docstring(body: &Vec<PyStmt>) -> (r: Option<String>)
    ensures
        match r {
            Some(d) => docstring(body@) == Some(d@),
            None => docstring(body@) is None,
        },
{
    if body.len() == 0 {
        return None;
    }
    match &body[0] {
        PyStmt::Expr(PyExpr::Constant(PyConst::Str(s))) => {
            let t = trim_exec(&chars_of(s.as_str()));
            if t.len() > 0 {
                Some(string_of(&t))
            } else {
                None
            }
        },
        _ => None,
    }
}

/// Whether a name is private by Python convention: it starts with `_` and
/// is not a dunder name.
pub open spec fn spec_is_private(name: Seq<char>) -> bool {
    starts_with(name, "_"@) && !(starts_with(name, "__"@) && ends_with(name, "__"@))
}

/// The visibility of a name by Python convention.
pub open spec fn visibility_text(name: Seq<char>) -> Seq<char> {
    if spec_is_private(name) { "private"@ } else { "public"@ }
}

/// The visibility of a name by Python convention: `private` when it starts
/// with `_` and is not a dunder name, `public` otherwise.
pub fn python_visibility(name: &str) -> (r: &'static str)
    ensures
        r@ == visibility_text(name@),
{
    let c = chars_of(name);
    let under = crate::text::starts_with_exec(&c, &chars_of("_"));
    let dunder = crate::text::starts_with_exec(&c, &chars_of("__"))
        && crate::text::ends_with_exec(&c, &chars_of("__"));
    if under && !dunder {
        "private"
    } else {
        "public"
    }
}

// --- Line numbers ---

/// The byte offsets at which lines start: 0, and just after each newline.
pub open spec fn line_table(bytes: Seq<u8>) -> Seq<int>
    decreases bytes.len(),
{
    if bytes.len() == 0 {
        seq![0int]
    } else {
        let t = line_table(bytes.drop_last());
        if bytes.last() == 10u8 { t.push(bytes.len() as int) } else { t }
    }
}

/// How many entries are at most `off`.
pub open spec fn count_le(t: Seq<u32>, off: int) -> nat
    decreases t.len(),
{
    if t.len() == 0 {
        0
    } else {
        count_le(t.drop_last(), off) + if t.last() <= off { 1nat } else { 0nat }
    }
}

/// Entries strictly increase.
pub open spec fn strictly_increasing(t: Seq<u32>) -> bool {
    forall|i: int, j: int| 0 <= i < j < t.len() ==> #[trigger] t[i] < #[trigger] t[j]
}

/// The line starts of a source, as `u32` byte offsets.
pub fn build_line_table(source: &str) -> (r: Vec<u32>)
    requires
        source.spec_bytes().len() < u32::MAX,
    ensures
        r@.len() == line_table(source.spec_bytes()).len(),
        forall|i: int| 0 <= i < r@.len() ==> r@[i] as int == #[trigger] line_table(source.spec_bytes())[i],
        strictly_increasing(r@),
{
    let bytes = source.as_bytes();
    let ghost b = source.spec_bytes();
    let mut table: Vec<u32> = Vec::new();
    table.push(0);
    let mut i: usize = 0;
    while i < bytes.len()
        invariant
            0 <= i <= b.len(),
            bytes@ == b,
            b.len() < u32::MAX,
            table@.len() == line_table(b.take(i as int)).len(),
            forall|k: int| 0 <= k < table@.len() ==> table@[k] as int == #[trigger] line_table(b.take(i as int))[k],
            strictly_increasing(table@),
            table@.len() > 0,
            table@[table@.len() - 1] <= i,
        decreases bytes.len() - i,
    {
        assert(b.take(i + 1).drop_last() =~= b.take(i as int));
        if bytes[i] == 10u8 {
            table.push((i + 1) as u32);
        }
        i += 1;
    }
    assert(b.take(b.len() as int) =~= b);
    table
}

/// A source has at most one line more than it has bytes.
pub proof fn lemma_line_table_len(b: Seq<u8>)
    ensures
        line_table(b).len() <= b.len() + 1,
    decreases b.len(),
{
    if b.len() > 0 {
        lemma_line_table_len(b.drop_last());
    }
}

/// How many entries of a strictly increasing table lie at or below `off`,
/// split at the first entry above it.
proof fn lemma_count_le_split(t: Seq<u32>, off: int, k: int)
    requires
        0 <= k <= t.len(),
        forall|j: int| 0 <= j < k ==> t[j] <= off,
        forall|j: int| k <= j < t.len() ==> t[j] > off,
    ensures
        count_le(t, off) == k,
    decreases t.len(),
{
    if t.len() > 0 {
        if k == t.len() {
            lemma_count_le_split(t.drop_last(), off, k - 1);
        } else {
            lemma_count_le_split(t.drop_last(), off, k);
        }
    }
}

/// The 1-based line of a byte offset: how many line starts lie at or before it.
pub fn offset_to_line(line_table: &Vec<u32>, offset: u32) -> (r: usize)
    requires
        strictly_increasing(line_table@),
    ensures
        r == count_le(line_table@, offset as int),
{
    let mut lo: usize = 0;
    let mut hi: usize = line_table.len();
    while lo < hi
        invariant
            0 <= lo <= hi <= line_table@.len(),
            strictly_increasing(line_table@),
            forall|j: int| 0 <= j < lo ==> line_table@[j] <= offset,
            forall|j: int| hi <= j < line_table@.len() ==> line_table@[j] > offset,
        decreases hi - lo,
    {
        let mid = lo + (hi - lo) / 2;
        if line_table[mid] <= offset {
            lo = mid + 1;
        } else {
            hi = mid;
        }
    }
    proof {
        lemma_count_le_split(line_table@, offset as int, lo as int);
    }
    lo
}

// --- Dependencies ---

/// `s` up to the first `c`, or all of it.
pub open spec fn before_char(s: Seq<char>, c: char) -> Seq<char> {
    match crate::text::find_char(s, c) {
        Some(i) => s.take(i),
        None => s,
    }
}

/// The version operators of PEP 508, in the order they are tried.
pub open spec fn pep508_op(i: int) -> Seq<char> {
    if i == 0 { ">="@ } else if i == 1 { "<="@ } else if i == 2 { "=="@ } else if i == 3 { "!="@ }
    else if i == 4 { "~="@ } else if i == 5 { ">"@ } else { "<"@ }
}

/// A dependency string split at the first operator (tried in order) that
/// occurs in it, from operator `i` on.
pub open spec fn pep508_from(spec: Seq<char>, i: int) -> (Seq<char>, Option<Seq<char>>)
    decreases 7 - i,
{
    if i < 0 || i >= 7 {
        (trim(before_char(before_char(spec, '['), ';')), None)
    } else {
        let op = pep508_op(i);
        match crate::text::find_from(spec, op, 0) {
            Some(idx) => (
                trim(before_char(trim(spec.take(idx)), '[')),
                Some(trim(before_char(trim(spec.skip(idx + op.len())), ';'))),
            ),
            None => pep508_from(spec, i + 1),
        }
    }
}

/// The name and version of a PEP 508 dependency such as `requests>=2.28`:
/// split at the first of `>=`, `<=`, `==`, `!=`, `~=`, `>`, `<` that occurs,
/// extras (`[...]`) dropped from the name and markers (`;...`) from the version.
pub open spec fn spec_pep508(spec: Seq<char>) -> (Seq<char>, Option<Seq<char>>) {
    pep508_from(spec, 0)
}

/// A character that can be part of a PEP 508 version operator.
pub open spec fn is_operator_char(c: char) -> bool {
    c == '<' || c == '>' || c == '=' || c == '!' || c == '~'
}

/// A name or version of a dependency string with no operator character, no
/// `[` and no `;`.
pub open spec fn plain_part(x: Seq<char>) -> bool {
    forall|k: int| 0 <= k < x.len() ==> !is_operator_char(#[trigger] x[k]) && x[k] != '[' && x[k] != ';'
}

/// In `name + op + version`, text made of operator characters only occurs
/// within `op`.
proof fn lemma_only_in_operator(name: Seq<char>, op: Seq<char>, version: Seq<char>, q: Seq<char>, p: int)
    requires
        plain_part(name),
        plain_part(version),
        q.len() >= 1,
        forall|k: int| 0 <= k < q.len() ==> is_operator_char(#[trigger] q[k]),
        occurs_at(name + op + version, q, p),
    ensures
        name.len() <= p,
        p + q.len() <= name.len() + op.len(),
{
    let s = name + op + version;
    let n = name.len() as int;
    assert(s.subrange(p, p + q.len())[0] == s[p]);
    assert(is_operator_char(s[p]));
    if p < n {
        assert(s[p] == name[p]);
    }
    if p >= n + op.len() {
        assert(s[p] == version[p - n - op.len()]);
    }
    let e = p + q.len() - 1;
    assert(s.subrange(p, p + q.len())[q.len() - 1] == s[e]);
    assert(is_operator_char(s[e]));
    if e >= n + op.len() {
        assert(s[e] == version[e - n - op.len()]);
    }
}

/// An operator other than `op`, at least as long and either longer or
/// starting differently, is not found in `name + op + version`.
proof fn lemma_other_operator_absent(name: Seq<char>, op: Seq<char>, version: Seq<char>, q: Seq<char>)
    requires
        plain_part(name),
        plain_part(version),
        op.len() >= 1,
        q.len() >= 1,
        forall|k: int| 0 <= k < q.len() ==> is_operator_char(#[trigger] q[k]),
        q.len() >= op.len(),
        q.len() > op.len() || q[0] != op[0],
    ensures
        find_from(name + op + version, q, 0) is None,
{
    let s = name + op + version;
    assert forall|p: int| 0 <= p implies !occurs_at(s, q, p) by {
        if occurs_at(s, q, p) {
            lemma_only_in_operator(name, op, version, q, p);
            if q.len() <= op.len() {
                assert(p == name.len());
                assert(s.subrange(p, p + q.len())[0] == s[p]);
                assert(s[p] == op[0]);
            }
        }
    }
    lemma_find_from_absent(s, q, 0);
}

/// Operators from `j` up to `i` that are not found leave the split to
/// operator `i`.
proof fn lemma_pep508_skip(s: Seq<char>, j: int, i: int)
    requires
        0 <= j <= i <= 7,
        forall|m: int| j <= m < i ==> find_from(s, #[trigger] pep508_op(m), 0) is None,
    ensures
        pep508_from(s, j) == pep508_from(s, i),
    decreases i - j,
{
    if j < i {
        lemma_pep508_skip(s, j + 1, i);
    }
}

/// Text with no `c` is all there is before its first `c`.
proof fn lemma_before_absent_char(x: Seq<char>, c: char)
    requires
        forall|k: int| 0 <= k < x.len() ==> x[k] != c,
    ensures
        before_char(x, c) == x,
{
    lemma_find_char_from_bounds(x, c, 0);
}

/// A dependency written as a name, one of the version operators `>=`, `<=`,
/// `==`, `!=`, `~=`, `>`, `<`, and a version, none of them holding an operator
/// character, `[` or `;`, reads as the trimmed name and the trimmed version.
pub proof fn law_pep508_name_and_version(name: Seq<char>, op: Seq<char>, version: Seq<char>)
    requires
        op == ">="@ || op == "<="@ || op == "=="@ || op == "!="@ || op == "~="@ || op == ">"@ || op == "<"@,
        plain_part(name),
        plain_part(version),
    ensures
        spec_pep508(name + op + version) == (trim(name), Some(trim(version))),
{
    reveal_strlit(">=");
    reveal_strlit("<=");
    reveal_strlit("==");
    reveal_strlit("!=");
    reveal_strlit("~=");
    reveal_strlit(">");
    reveal_strlit("<");
    let s = name + op + version;
    let n = name.len() as int;
    let i: int = if op == ">="@ { 0 } else if op == "<="@ { 1 } else if op == "=="@ { 2 } else if op == "!="@ {
        3
    } else if op == "~="@ { 4 } else if op == ">"@ { 5 } else { 6 };
    assert(pep508_op(i) == op);
    assert forall|m: int| 0 <= m < i implies find_from(s, #[trigger] pep508_op(m), 0) is None by {
        let q = pep508_op(m);
        assert forall|k: int| 0 <= k < q.len() implies is_operator_char(#[trigger] q[k]) by {}
        lemma_other_operator_absent(name, op, version, q);
    }
    lemma_pep508_skip(s, 0, i);
    assert(s.subrange(n, n + op.len()) =~= op);
    assert forall|p: int| 0 <= p < n implies !occurs_at(s, op, p) by {
        if occurs_at(s, op, p) {
            lemma_only_in_operator(name, op, version, op, p);
        }
    }
    lemma_find_from_first(s, op, 0, n);
    assert(s.take(n) =~= name);
    assert(s.skip(n + op.len()) =~= version);
    assert forall|k: int| 0 <= k < trim(name).len() implies trim(name)[k] != '[' by {
        lemma_trim_chars(name, k);
    }
    assert forall|k: int| 0 <= k < trim(version).len() implies trim(version)[k] != ';' by {
        lemma_trim_chars(version, k);
    }
    lemma_before_absent_char(trim(name), '[');
    lemma_before_absent_char(trim(version), ';');
    lemma_trim_idempotent(name);
    lemma_trim_idempotent(version);
}

/// Before the first `c` of `x + [c] + rest`, where `x` holds no `c`, is `x`.
proof fn lemma_before_first_char(x: Seq<char>, c: char, rest: Seq<char>)
    requires
        forall|k: int| 0 <= k < x.len() ==> x[k] != c,
    ensures
        before_char(x + seq![c] + rest, c) == x,
{
    let s = x + seq![c] + rest;
    lemma_find_char_from_bounds(s, c, 0);
    assert(s[x.len() as int] == c);
    assert(s.take(x.len() as int) =~= x);
}

/// Text with no operator character holds no version operator.
proof fn lemma_no_operator_found(s: Seq<char>)
    requires
        forall|k: int| 0 <= k < s.len() ==> !is_operator_char(#[trigger] s[k]),
    ensures
        pep508_from(s, 0) == pep508_from(s, 7),
{
    reveal_strlit(">=");
    reveal_strlit("<=");
    reveal_strlit("==");
    reveal_strlit("!=");
    reveal_strlit("~=");
    reveal_strlit(">");
    reveal_strlit("<");
    assert forall|m: int| 0 <= m < 7 implies find_from(s, #[trigger] pep508_op(m), 0) is None by {
        let q = pep508_op(m);
        assert(is_operator_char(q[0]));
        assert forall|p: int| 0 <= p implies !occurs_at(s, q, p) by {
            if occurs_at(s, q, p) {
                assert(s.subrange(p, p + q.len())[0] == s[p]);
            }
        }
        lemma_find_from_absent(s, q, 0);
    }
    lemma_pep508_skip(s, 0, 7);
}

/// A dependency with no version operator reads as its trimmed name and no
/// version; extras after a `[`, or a marker after a `;`, are left out of the
/// name.
pub proof fn law_pep508_without_version(name: Seq<char>, extras: Seq<char>, marker: Seq<char>)
    requires
        plain_part(name),
        forall|k: int| 0 <= k < extras.len() ==> !is_operator_char(#[trigger] extras[k]),
        forall|k: int| 0 <= k < marker.len() ==> !is_operator_char(#[trigger] marker[k]) && marker[k] != '[',
    ensures
        spec_pep508(name) == (trim(name), None::<Seq<char>>),
        spec_pep508(name + "["@ + extras) == (trim(name), None::<Seq<char>>),
        spec_pep508(name + ";"@ + marker) == (trim(name), None::<Seq<char>>),
{
    reveal_strlit("[");
    reveal_strlit(";");
    assert("["@ =~= seq!['[']);
    assert(";"@ =~= seq![';']);
    lemma_no_operator_found(name);
    lemma_before_absent_char(name, '[');
    lemma_before_absent_char(name, ';');
    let a = name + "["@ + extras;
    assert forall|k: int| 0 <= k < a.len() implies !is_operator_char(#[trigger] a[k]) by {
        if k > name.len() {
            assert(a[k] == extras[k - name.len() - 1]);
        }
    }
    lemma_no_operator_found(a);
    lemma_before_first_char(name, '[', extras);
    assert(before_char(a, '[') == name);
    assert(pep508_from(a, 7) == (trim(before_char(before_char(a, '['), ';')), None::<Seq<char>>));
    let b = name + ";"@ + marker;
    assert forall|k: int| 0 <= k < b.len() implies !is_operator_char(#[trigger] b[k]) && b[k] != '[' by {
        if k > name.len() {
            assert(b[k] == marker[k - name.len() - 1]);
        }
    }
    lemma_no_operator_found(b);
    lemma_before_absent_char(b, '[');
    lemma_before_first_char(name, ';', marker);
    assert(before_char(b, ';') == name);
    assert(pep508_from(b, 7) == (trim(before_char(before_char(b, '['), ';')), None::<Seq<char>>));
}

/// `s` up to the first `c`, or all of it.
fn before_char_exec(s: &Vec<char>, c: char) -> (r: Vec<char>)
    ensures
        r@ == before_char(s@, c),
{
    proof {
        crate::text::lemma_find_char_from_bounds(s@, c, 0);
    }
    match crate::text::find_char_from_exec(s, c, 0) {
        Some(i) => crate::text::slice_vec(s, 0, i),
        None => crate::text::slice_vec(s, 0, s.len()),
    }
}

/// The operator of PEP 508 tried `i`-th.
fn pep508_op_exec(i: usize) -> (r: &'static str)
    requires
        i < 7,
    ensures
        r@ == pep508_op(i as int),
{
    if i == 0 { ">=" } else if i == 1 { "<=" } else if i == 2 { "==" } else if i == 3 { "!=" }
    else if i == 4 { "~=" } else if i == 5 { ">" } else { "<" }
}

/// The name and version of a PEP 508 dependency such as `requests>=2.28`:
/// split at the first of `>=`, `<=`, `==`, `!=`, `~=`, `>`, `<` that occurs,
/// extras (`[...]`) dropped from the name and markers (`;...`) from the version.
pub fn parse_pep508(spec: &str) -> (r: (String, Option<String>))
    ensures
        r.0@ == spec_pep508(spec@).0,
        match r.1 {
            Some(v) => spec_pep508(spec@).1 == Some(v@),
            None => spec_pep508(spec@).1 is None,
        },
{
    let s = chars_of(spec);
    let mut i: usize = 0;
    while i < 7
        invariant
            0 <= i <= 7,
            s@ == spec@,
            spec_pep508(spec@) == pep508_from(spec@, i as int),
        decreases 7 - i,
    {
        let op = chars_of(pep508_op_exec(i));
        proof {
            crate::text::lemma_find_from_bounds(s@, op@, 0);
        }
        match crate::text::find_from_exec(&s, &op, 0) {
            Some(idx) => {
                let head = trim_exec(&crate::text::slice_vec(&s, 0, idx));
                let name = trim_exec(&before_char_exec(&head, '['));
                assert(crate::text::find_from(s@, op@, 0) == Some(idx as int));
                assert(idx as int + op@.len() <= s@.len());
                assert(op.len() == op@.len());
                assert(s.len() == s@.len());
                let after: usize = idx + op.len();
                let tail = trim_exec(&crate::text::slice_vec(&s, after, s.len()));
                let version = trim_exec(&before_char_exec(&tail, ';'));
                proof {
                    assert(s@.subrange(0, idx as int) =~= spec@.take(idx as int));
                    assert(s@.subrange(idx + op@.len(), s@.len() as int) =~= spec@.skip(idx + op@.len()));
                }
                return (string_of(&name), Some(string_of(&version)));
            },
            None => {},
        }
        i += 1;
    }
    let name = trim_exec(&before_char_exec(&before_char_exec(&s, '['), ';'));
    (string_of(&name), None)
}

// --- Quads of a module ---

/// A literal quad when the value is present.
pub open spec fn opt_lit(s: Seq<char>, p: Seq<char>, v: Option<Seq<char>>) -> Seq<QuadModel> {
    match v {
        Some(x) => seq![cq(s, p, lit(x))],
        None => Seq::empty(),
    }
}

/// One literal quad for the text of each expression.
pub open spec fn expr_lits(s: Seq<char>, p: Seq<char>, es: Seq<PyExpr>) -> Seq<QuadModel>
    decreases es.len(),
{
    if es.len() == 0 {
        Seq::empty()
    } else {
        expr_lits(s, p, es.drop_last()) + seq![cq(s, p, lit(expr_text(es.last())))]
    }
}

/// The IRI of a function, or of a method of class `parent`.
pub open spec fn fn_uri(rel: Seq<char>, parent: Option<Seq<char>>, name: Seq<char>) -> Seq<char> {
    spec_code_ns(match parent {
        Some(c) => rel + "/"@ + c + "/"@ + name,
        None => rel + "/"@ + name,
    })
}

/// The parameter quads of a function; methods leave out `self` and `cls`.
pub open spec fn param_quads(f: Seq<char>, method: bool, ps: Seq<PyParam>) -> Seq<QuadModel>
    decreases ps.len(),
{
    if ps.len() == 0 {
        Seq::empty()
    } else {
        let n = ps.last().name@;
        param_quads(f, method, ps.drop_last()) + if method && (n == "self"@ || n == "cls"@) {
            Seq::empty()
        } else {
            seq![cq(f, "parameter"@, lit(n))]
        }
    }
}

/// A parameter other than `self` and `cls`.
pub open spec fn not_receiver(p: PyParam) -> bool {
    p.name@ != "self"@ && p.name@ != "cls"@
}

/// A function lists each of its parameters by name, in order; a method lists
/// the same but for those named `self` or `cls`.
pub proof fn law_parameters_listed(f: Seq<char>, ps: Seq<PyParam>)
    ensures
        param_quads(f, false, ps).len() == ps.len(),
        forall|k: int| 0 <= k < ps.len() ==> #[trigger] param_quads(f, false, ps)[k] == cq(f, "parameter"@, lit(ps[k].name@)),
        param_quads(f, true, ps) == param_quads(f, false, ps.filter(|p: PyParam| not_receiver(p))),
    decreases ps.len(),
{
    reveal(Seq::filter);
    if ps.len() > 0 {
        law_parameters_listed(f, ps.drop_last());
        let front = param_quads(f, false, ps.drop_last());
        let x = cq(f, "parameter"@, lit(ps.last().name@));
        assert(param_quads(f, false, ps) == front + seq![x]);
        assert forall|k: int| 0 <= k < ps.len() implies #[trigger] param_quads(f, false, ps)[k] == cq(
            f,
            "parameter"@,
            lit(ps[k].name@),
        ) by {
            if k < ps.len() - 1 {
                assert((front + seq![x])[k] == front[k]);
                assert(ps.drop_last()[k] == ps[k]);
            }
        }
        let sub = ps.drop_last().filter(|p: PyParam| not_receiver(p));
        assert(ps.filter(|p: PyParam| not_receiver(p)) == if not_receiver(ps.last()) {
            sub.push(ps.last())
        } else {
            sub
        });
        if not_receiver(ps.last()) {
            assert(sub.push(ps.last()).drop_last() =~= sub);
            assert(sub.push(ps.last()).last() == ps.last());
        }
    }
}

/// The quads naming a function, or a method of class `parent`, and placing it.
pub open spec fn function_head_quads(rel: Seq<char>, f: PyFunction, parent: Option<Seq<char>>) -> Seq<QuadModel> {
    let fu = fn_uri(rel, parent, f.name@);
    let m = spec_code_ns(rel);
    seq![
        ctype(fu, "Function"@),
        cq(fu, "name"@, lit(f.name@)),
        cq(fu, "definedIn"@, TermModel::Iri(m)),
        cq(fu, "visibility"@, lit(visibility_text(f.name@))),
    ] + (if parent is None { seq![cq(m, "hasFunction"@, TermModel::Iri(fu))] } else { Seq::empty() })
}

/// The quads of a function's signature details, docstring, lines and kind.
pub open spec fn function_tail_quads(table: Seq<u32>, fu: Seq<char>, f: PyFunction) -> Seq<QuadModel> {
    (match f.returns {
        Some(r) => seq![cq(fu, "returnType"@, lit(expr_text(r)))],
        None => Seq::empty(),
    }) + expr_lits(fu, "decorator"@, f.decorators@) + opt_lit(fu, "docstring"@, docstring(f.body@))
        + seq![
        cq(fu, "startLine"@, int_lit(count_le(table, f.start as int))),
        cq(fu, "endLine"@, int_lit(count_le(table, f.end as int))),
    ] + (if f.is_async { seq![cq(fu, "async"@, lit("true"@))] } else { Seq::empty() })
}

/// The quads of a function, or of a method of class `parent`.
pub open spec fn function_quads(rel: Seq<char>, table: Seq<u32>, f: PyFunction, parent: Option<Seq<char>>) -> Seq<QuadModel> {
    let fu = fn_uri(rel, parent, f.name@);
    function_head_quads(rel, f, parent) + param_quads(fu, parent is Some, f.params@)
        + function_tail_quads(table, fu, f)
}

/// The annotation of the last parameter named `name` that has one.
pub open spec fn param_type(ps: Seq<PyParam>, name: Seq<char>) -> Option<Seq<char>>
    decreases ps.len(),
{
    if ps.len() == 0 {
        None
    } else if ps.last().name@ == name && ps.last().annotation is Some {
        Some(expr_text(ps.last().annotation->Some_0))
    } else {
        param_type(ps.drop_last(), name)
    }
}

/// The field an assignment target `self.<field>` names.
pub open spec fn self_field(e: PyExpr) -> Option<Seq<char>> {
    match e {
        PyExpr::Attribute(v, a) => match *v {
            PyExpr::Name(n) => if n@ == "self"@ { Some(a@) } else { None },
            _ => None,
        },
        _ => None,
    }
}

/// The IRI of class `cls`.
pub open spec fn class_uri(rel: Seq<char>, cls: Seq<char>) -> Seq<char> {
    spec_code_ns(rel + "/"@ + cls)
}

/// The quads of a field of class `cls`.
pub open spec fn field_quads(rel: Seq<char>, cls: Seq<char>, field: Seq<char>, ftype: Option<Seq<char>>, line: nat) -> Seq<QuadModel> {
    let fd = spec_code_ns(rel + "/"@ + cls + "/"@ + field);
    seq![
        ctype(fd, "Field"@),
        cq(fd, "name"@, lit(field)),
        cq(class_uri(rel, cls), "hasField"@, TermModel::Iri(fd)),
    ] + opt_lit(fd, "fieldType"@, ftype) + seq![cq(fd, "startLine"@, int_lit(line))]
}

/// The fields that the targets of an assignment in `__init__` set on `self`.
pub open spec fn assign_fields(rel: Seq<char>, table: Seq<u32>, ps: Seq<PyParam>, cls: Seq<char>, ts: Seq<PyExpr>, start: u32) -> Seq<QuadModel>
    decreases ts.len(),
{
    if ts.len() == 0 {
        Seq::empty()
    } else {
        assign_fields(rel, table, ps, cls, ts.drop_last(), start) + match self_field(ts.last()) {
            Some(f) => field_quads(rel, cls, f, param_type(ps, f), count_le(table, start as int)),
            None => Seq::empty(),
        }
    }
}

/// The fields a statement of `__init__` sets on `self`; the type of a plain
/// assignment comes from the parameter of the same name.
pub open spec fn init_stmt_fields(rel: Seq<char>, table: Seq<u32>, ps: Seq<PyParam>, cls: Seq<char>, st: PyStmt) -> Seq<QuadModel> {
    match st {
        PyStmt::Assign(ts, start) => assign_fields(rel, table, ps, cls, ts@, start),
        PyStmt::AnnAssign(t, ann, start) => match self_field(t) {
            Some(f) => field_quads(rel, cls, f, Some(expr_text(ann)), count_le(table, start as int)),
            None => Seq::empty(),
        },
        _ => Seq::empty(),
    }
}

/// The fields the statements of `__init__` set on `self`.
pub open spec fn init_fields(rel: Seq<char>, table: Seq<u32>, ps: Seq<PyParam>, cls: Seq<char>, body: Seq<PyStmt>) -> Seq<QuadModel>
    decreases body.len(),
{
    if body.len() == 0 {
        Seq::empty()
    } else {
        init_fields(rel, table, ps, cls, body.drop_last()) + init_stmt_fields(rel, table, ps, cls, body.last())
    }
}

/// The quads of a statement of the body of class `cls`: methods (with the
/// fields `__init__` sets) and annotated class attributes.
pub open spec fn member_quads(rel: Seq<char>, table: Seq<u32>, cls: Seq<char>, st: PyStmt) -> Seq<QuadModel> {
    match st {
        PyStmt::Function(f) => seq![cq(class_uri(rel, cls), "hasFunction"@, TermModel::Iri(fn_uri(rel, Some(cls), f.name@)))]
            + function_quads(rel, table, f, Some(cls)) + if !f.is_async && f.name@ == "__init__"@ {
            init_fields(rel, table, f.params@, cls, f.body@)
        } else {
            Seq::empty()
        },
        PyStmt::AnnAssign(PyExpr::Name(field), ann, start) => field_quads(rel, cls, field@, Some(expr_text(ann)), count_le(table, start as int)),
        _ => Seq::empty(),
    }
}

/// The quads of the body of class `cls`.
pub open spec fn members_quads(rel: Seq<char>, table: Seq<u32>, cls: Seq<char>, body: Seq<PyStmt>) -> Seq<QuadModel>
    decreases body.len(),
{
    if body.len() == 0 {
        Seq::empty()
    } else {
        members_quads(rel, table, cls, body.drop_last()) + member_quads(rel, table, cls, body.last())
    }
}

/// The quads of a class.
pub open spec fn class_quads(rel: Seq<char>, table: Seq<u32>, c: PyClass) -> Seq<QuadModel> {
    let cu = class_uri(rel, c.name@);
    seq![
        ctype(cu, "Class"@),
        cq(cu, "name"@, lit(c.name@)),
        cq(cu, "definedIn"@, TermModel::Iri(spec_code_ns(rel))),
        cq(cu, "visibility"@, lit(visibility_text(c.name@))),
    ] + expr_lits(cu, "extends"@, c.bases@) + expr_lits(cu, "decorator"@, c.decorators@)
        + opt_lit(cu, "docstring"@, docstring(c.body@)) + seq![
        cq(cu, "startLine"@, int_lit(count_le(table, c.start as int))),
        cq(cu, "endLine"@, int_lit(count_le(table, c.end as int))),
    ] + members_quads(rel, table, c.name@, c.body@)
}

/// `s` with each `.` replaced by `_`.
pub open spec fn dots_to_underscores(s: Seq<char>) -> Seq<char> {
    Seq::new(s.len(), |i: int| if s[i] == '.' { '_' } else { s[i] })
}

/// The IRI of an import of `path` in the module at `rel`.
pub open spec fn import_uri(rel: Seq<char>, path: Seq<char>) -> Seq<char> {
    spec_code_ns(rel + "/import/"@ + dots_to_underscores(path))
}

/// The quads of `import a, b`.
pub open spec fn import_quads(rel: Seq<char>, names: Seq<String>) -> Seq<QuadModel>
    decreases names.len(),
{
    if names.len() == 0 {
        Seq::empty()
    } else {
        let n = names.last()@;
        let iu = import_uri(rel, n);
        import_quads(rel, names.drop_last()) + seq![
            ctype(iu, "Import"@),
            cq(iu, "importPath"@, lit(n)),
            cq(spec_code_ns(rel), "hasImport"@, TermModel::Iri(iu)),
            cq(iu, "importedSymbol"@, lit(n)),
        ]
    }
}

/// One `importedSymbol` quad for each name.
pub open spec fn symbol_quads(iu: Seq<char>, names: Seq<String>) -> Seq<QuadModel>
    decreases names.len(),
{
    if names.len() == 0 {
        Seq::empty()
    } else {
        symbol_quads(iu, names.drop_last()) + seq![cq(iu, "importedSymbol"@, lit(names.last()@))]
    }
}

/// The module path of `from m import ...`, or `.` when unnamed.
pub open spec fn from_path(m: Option<String>) -> Seq<char> {
    match m {
        Some(x) => x@,
        None => "."@,
    }
}

/// The quads of `from m import a, b`.
pub open spec fn from_quads(rel: Seq<char>, m: Option<String>, names: Seq<String>) -> Seq<QuadModel> {
    let p = from_path(m);
    let iu = import_uri(rel, p);
    seq![
        ctype(iu, "Import"@),
        cq(iu, "importPath"@, lit(p)),
        cq(spec_code_ns(rel), "hasImport"@, TermModel::Iri(iu)),
    ] + symbol_quads(iu, names)
}

/// The quads of a top-level statement.
pub open spec fn top_quads(rel: Seq<char>, table: Seq<u32>, st: PyStmt) -> Seq<QuadModel> {
    match st {
        PyStmt::Function(f) => function_quads(rel, table, f, None),
        PyStmt::Class(c) => class_quads(rel, table, c),
        PyStmt::Import(ns) => import_quads(rel, ns@),
        PyStmt::ImportFrom(m, ns) => from_quads(rel, m, ns@),
        _ => Seq::empty(),
    }
}

/// The quads of the top-level statements.
pub open spec fn tops_quads(rel: Seq<char>, table: Seq<u32>, sts: Seq<PyStmt>) -> Seq<QuadModel>
    decreases sts.len(),
{
    if sts.len() == 0 {
        Seq::empty()
    } else {
        tops_quads(rel, table, sts.drop_last()) + top_quads(rel, table, sts.last())
    }
}

/// The quads of a Python module at path `path` (`rel` within its project).
pub open spec fn module_quads(path: Seq<char>, rel: Seq<char>, table: Seq<u32>, sts: Seq<PyStmt>) -> Seq<QuadModel> {
    let m = spec_code_ns(rel);
    seq![
        ctype(m, "Module"@),
        cq(m, "filePath"@, lit(path)),
        cq(m, "relativePath"@, lit(rel)),
        cq(m, "language"@, lit("python"@)),
    ] + tops_quads(rel, table, sts)
}

/// What the quads of one module are built from: its path within the project,
/// its IRI, and its line starts.
pub struct PyCtx<'a> {
    pub rel: &'a str,
    pub module: String,
    pub table: &'a Vec<u32>,
}

impl<'a> PyCtx<'a> {
    /// The module IRI is that of `rel`, and the line starts increase.
    pub open spec fn wf(&self) -> bool {
        &&& self.module@ == spec_code_ns(self.rel@)
        &&& strictly_increasing(self.table@)
        &&& self.table@.len() <= u32::MAX
    }
}

/// How many entries are at most `off`, never more than all of them.
pub proof fn lemma_count_le_bound(t: Seq<u32>, off: int)
    ensures
        count_le(t, off) <= t.len(),
    decreases t.len(),
{
    if t.len() > 0 {
        lemma_count_le_bound(t.drop_last(), off);
    }
}

/// The line of a byte offset as an integer literal.
fn line_literal(ctx: &PyCtx, off: u32) -> (r: Term)
    requires
        ctx.wf(),
    ensures
        r@ == int_lit(count_le(ctx.table@, off as int)),
{
    let line = offset_to_line(ctx.table, off);
    proof {
        lemma_count_le_bound(ctx.table@, off as int);
    }
    integer_literal(line as i64)
}

/// Appends one literal quad for the text of each expression.
fn emit_expr_lits(out: &mut Vec<Quad>, s: &str, p: &str, es: &Vec<PyExpr>)
    ensures
        quads_model(final(out)@) == quads_model(old(out)@) + expr_lits(s@, p@, es@),
{
    let ghost start = quads_model(out@);
    let mut i: usize = 0;
    while i < es.len()
        invariant
            0 <= i <= es@.len(),
            quads_model(out@) == start + expr_lits(s@, p@, es@.take(i as int)),
        decreases es.len() - i,
    {
        assert(es@.take(i + 1).drop_last() =~= es@.take(i as int));
        let t = expr_to_string(&es[i]);
        emit(out, quad(s, p, string_literal(t.as_str()), GraphName::DefaultGraph));
        assert(quads_model(out@) =~= start + expr_lits(s@, p@, es@.take(i + 1)));
        i += 1;
    }
    assert(es@.take(es@.len() as int) =~= es@);
}

/// Appends a literal quad when the value is present.
fn emit_opt_lit(out: &mut Vec<Quad>, s: &str, p: &str, v: &Option<String>)
    ensures
        quads_model(final(out)@) == quads_model(old(out)@) + opt_lit(s@, p@, match v {
            Some(x) => Some(x@),
            None => None,
        }),
{
    let ghost start = quads_model(out@);
    match v {
        Some(x) => emit(out, quad(s, p, string_literal(x.as_str()), GraphName::DefaultGraph)),
        None => {},
    }
    assert(quads_model(out@) =~= start + opt_lit(s@, p@, match v {
        Some(x) => Some(x@),
        None => None,
    }));
}

/// `a`, `"/"` and `b` joined.
fn slash2(a: &str, b: &str) -> (r: String)
    ensures
        r@ == a@ + "/"@ + b@,
{
    let mut out = to_owned_string(a);
    out.append("/");
    out.append(b);
    out
}

/// Appends the quads naming a function and placing it; returns its IRI.
fn emit_function_head(out: &mut Vec<Quad>, ctx: &PyCtx, f: &PyFunction, parent: Option<&str>) -> (fu: String)
    requires
        ctx.wf(),
    ensures
        fu@ == fn_uri(ctx.rel@, match parent {
            Some(c) => Some(c@),
            None => None,
        }, f.name@),
        quads_model(final(out)@) == quads_model(old(out)@) + function_head_quads(ctx.rel@, *f, match parent {
            Some(c) => Some(c@),
            None => None,
        }),
{
    let ghost start = quads_model(out@);
    let local = match parent {
        Some(c) => slash2(slash2(ctx.rel, c).as_str(), f.name.as_str()),
        None => slash2(ctx.rel, f.name.as_str()),
    };
    let fu = code_ns(local.as_str());
    let m = ctx.module.as_str();
    emit(out, quad_type(fu.as_str(), "Function", GraphName::DefaultGraph));
    emit(out, quad(fu.as_str(), "name", string_literal(f.name.as_str()), GraphName::DefaultGraph));
    emit(out, quad(fu.as_str(), "definedIn", Term::Iri(clone_string(&ctx.module)), GraphName::DefaultGraph));
    emit(out, quad(fu.as_str(), "visibility", string_literal(python_visibility(f.name.as_str())), GraphName::DefaultGraph));
    if parent.is_none() {
        emit(out, quad(m, "hasFunction", Term::Iri(clone_string(&fu)), GraphName::DefaultGraph));
    }
    assert(quads_model(out@) =~= start + function_head_quads(ctx.rel@, *f, match parent {
        Some(c) => Some(c@),
        None => None,
    }));
    fu
}

/// Appends the quads of a function's signature details, docstring, lines and kind.
fn emit_function_tail(out: &mut Vec<Quad>, ctx: &PyCtx, fu: &str, f: &PyFunction)
    requires
        ctx.wf(),
    ensures
        quads_model(final(out)@) == quads_model(old(out)@) + function_tail_quads(ctx.table@, fu@, *f),
{
    let ghost start = quads_model(out@);
    match &f.returns {
        Some(r) => {
            let t = expr_to_string(r);
            emit(out, quad(fu, "returnType", string_literal(t.as_str()), GraphName::DefaultGraph));
        },
        None => {},
    }
    let ghost mid = quads_model(out@);
    emit_expr_lits(out, fu, "decorator", &f.decorators);
    let doc = extract_docstring(&f.body);
    emit_opt_lit(out, fu, "docstring", &doc);
    let ghost mid2 = quads_model(out@);
    emit(out, quad(fu, "startLine", line_literal(ctx, f.start), GraphName::DefaultGraph));
    emit(out, quad(fu, "endLine", line_literal(ctx, f.end), GraphName::DefaultGraph));
    if f.is_async {
        emit(out, quad(fu, "async", string_literal("true"), GraphName::DefaultGraph));
    }
    assert(quads_model(out@) =~= start + function_tail_quads(ctx.table@, fu@, *f));
}

/// Appends the quads of a function, or of a method of class `parent`.
fn emit_function(out: &mut Vec<Quad>, ctx: &PyCtx, f: &PyFunction, parent: Option<&str>)
    requires
        ctx.wf(),
    ensures
        quads_model(final(out)@) == quads_model(old(out)@) + function_quads(ctx.rel@, ctx.table@, *f, match parent {
            Some(c) => Some(c@),
            None => None,
        }),
{
    let ghost start = quads_model(out@);
    let fu = emit_function_head(out, ctx, f, parent);
    let ghost head = quads_model(out@);
    let method = parent.is_some();
    let mut i: usize = 0;
    while i < f.params.len()
        invariant
            0 <= i <= f.params@.len(),
            quads_model(out@) == head + param_quads(fu@, method, f.params@.take(i as int)),
        decreases f.params.len() - i,
    {
        assert(f.params@.take(i + 1).drop_last() =~= f.params@.take(i as int));
        let n = f.params[i].name.as_str();
        if !(method && (str_eq(n, "self") || str_eq(n, "cls"))) {
            emit(out, quad(fu.as_str(), "parameter", string_literal(n), GraphName::DefaultGraph));
        }
        assert(quads_model(out@) =~= head + param_quads(fu@, method, f.params@.take(i + 1)));
        i += 1;
    }
    assert(f.params@.take(f.params@.len() as int) =~= f.params@);
    emit_function_tail(out, ctx, fu.as_str(), f);
    assert(quads_model(out@) =~= start + function_quads(ctx.rel@, ctx.table@, *f, match parent {
        Some(c) => Some(c@),
        None => None,
    }));
}

/// The annotation of the last parameter named `name` that has one.
fn param_type_exec(ps: &Vec<PyParam>, name: &str) -> (r: Option<String>)
    ensures
        match r {
            Some(t) => param_type(ps@, name@) == Some(t@),
            None => param_type(ps@, name@) is None,
        },
{
    let mut i: usize = ps.len();
    assert(ps@.take(ps@.len() as int) =~= ps@);
    while i > 0
        invariant
            0 <= i <= ps@.len(),
            param_type(ps@, name@) == param_type(ps@.take(i as int), name@),
        decreases i,
    {
        assert(ps@.take(i as int).drop_last() =~= ps@.take(i - 1));
        if str_eq(ps[i - 1].name.as_str(), name) {
            match &ps[i - 1].annotation {
                Some(a) => {
                    return Some(expr_to_string(a));
                },
                None => {},
            }
        }
        i -= 1;
    }
    None
}

/// The field an assignment target `self.<field>` names.
fn self_field_exec(e: &PyExpr) -> (r: Option<&String>)
    ensures
        match r {
            Some(f) => self_field(*e) == Some(f@),
            None => self_field(*e) is None,
        },
{
    match e {
        PyExpr::Attribute(v, a) => match &**v {
            PyExpr::Name(n) => if str_eq(n.as_str(), "self") { Some(a) } else { None },
            _ => None,
        },
        _ => None,
    }
}

/// Appends the quads of a field of class `cls`.
fn emit_field(out: &mut Vec<Quad>, ctx: &PyCtx, cls: &str, field: &str, ftype: &Option<String>, off: u32)
    requires
        ctx.wf(),
    ensures
        quads_model(final(out)@) == quads_model(old(out)@) + field_quads(ctx.rel@, cls@, field@, match ftype {
            Some(t) => Some(t@),
            None => None,
        }, count_le(ctx.table@, off as int)),
{
    let ghost start = quads_model(out@);
    let fd = code_ns(slash2(slash2(ctx.rel, cls).as_str(), field).as_str());
    let cu = code_ns(slash2(ctx.rel, cls).as_str());
    emit(out, quad_type(fd.as_str(), "Field", GraphName::DefaultGraph));
    emit(out, quad(fd.as_str(), "name", string_literal(field), GraphName::DefaultGraph));
    emit(out, quad(cu.as_str(), "hasField", Term::Iri(clone_string(&fd)), GraphName::DefaultGraph));
    emit_opt_lit(out, fd.as_str(), "fieldType", ftype);
    emit(out, quad(fd.as_str(), "startLine", line_literal(ctx, off), GraphName::DefaultGraph));
    assert(quads_model(out@) =~= start + field_quads(ctx.rel@, cls@, field@, match ftype {
        Some(t) => Some(t@),
        None => None,
    }, count_le(ctx.table@, off as int)));
}

/// Appends the fields the statements of `__init__` set on `self`.
fn emit_init_fields(out: &mut Vec<Quad>, ctx: &PyCtx, ps: &Vec<PyParam>, cls: &str, body: &Vec<PyStmt>)
    requires
        ctx.wf(),
    ensures
        quads_model(final(out)@) == quads_model(old(out)@) + init_fields(ctx.rel@, ctx.table@, ps@, cls@, body@),
{
    let ghost start = quads_model(out@);
    let mut i: usize = 0;
    while i < body.len()
        invariant
            0 <= i <= body@.len(),
            ctx.wf(),
            quads_model(out@) == start + init_fields(ctx.rel@, ctx.table@, ps@, cls@, body@.take(i as int)),
        decreases body.len() - i,
    {
        assert(body@.take(i + 1).drop_last() =~= body@.take(i as int));
        let ghost before = quads_model(out@);
        match &body[i] {
            PyStmt::Assign(ts, st) => {
                let mut k: usize = 0;
                while k < ts.len()
                    invariant
                        0 <= k <= ts@.len(),
                        ctx.wf(),
                        quads_model(out@) == before + assign_fields(ctx.rel@, ctx.table@, ps@, cls@, ts@.take(k as int), *st),
                    decreases ts.len() - k,
                {
                    assert(ts@.take(k + 1).drop_last() =~= ts@.take(k as int));
                    match self_field_exec(&ts[k]) {
                        Some(f) => {
                            let t = param_type_exec(ps, f.as_str());
                            emit_field(out, ctx, cls, f.as_str(), &t, *st);
                        },
                        None => {},
                    }
                    assert(quads_model(out@) =~= before + assign_fields(ctx.rel@, ctx.table@, ps@, cls@, ts@.take(k + 1), *st));
                    k += 1;
                }
                assert(ts@.take(ts@.len() as int) =~= ts@);
            },
            PyStmt::AnnAssign(t, ann, st) => {
                match self_field_exec(t) {
                    Some(f) => {
                        let ty = Some(expr_to_string(ann));
                        emit_field(out, ctx, cls, f.as_str(), &ty, *st);
                    },
                    None => {},
                }
            },
            _ => {},
        }
        assert(quads_model(out@) =~= start + init_fields(ctx.rel@, ctx.table@, ps@, cls@, body@.take(i + 1)));
        i += 1;
    }
    assert(body@.take(body@.len() as int) =~= body@);
}

/// Appends the quads of a statement of the body of class `cls`.
fn emit_member(out: &mut Vec<Quad>, ctx: &PyCtx, cls: &str, st: &PyStmt)
    requires
        ctx.wf(),
    ensures
        quads_model(final(out)@) == quads_model(old(out)@) + member_quads(ctx.rel@, ctx.table@, cls@, *st),
{
    let ghost start = quads_model(out@);
    match st {
        PyStmt::Function(f) => {
            let cu = code_ns(slash2(ctx.rel, cls).as_str());
            let mu = code_ns(slash2(slash2(ctx.rel, cls).as_str(), f.name.as_str()).as_str());
            emit(out, quad(cu.as_str(), "hasFunction", Term::Iri(mu), GraphName::DefaultGraph));
            emit_function(out, ctx, f, Some(cls));
            if !f.is_async && str_eq(f.name.as_str(), "__init__") {
                emit_init_fields(out, ctx, &f.params, cls, &f.body);
            }
        },
        PyStmt::AnnAssign(PyExpr::Name(field), ann, off) => {
            let ty = Some(expr_to_string(ann));
            emit_field(out, ctx, cls, field.as_str(), &ty, *off);
        },
        _ => {},
    }
    assert(quads_model(out@) =~= start + member_quads(ctx.rel@, ctx.table@, cls@, *st));
}

/// Appends the quads of a class.
fn emit_class(out: &mut Vec<Quad>, ctx: &PyCtx, c: &PyClass)
    requires
        ctx.wf(),
    ensures
        quads_model(final(out)@) == quads_model(old(out)@) + class_quads(ctx.rel@, ctx.table@, *c),
{
    let ghost start = quads_model(out@);
    let name = c.name.as_str();
    let cu = code_ns(slash2(ctx.rel, name).as_str());
    emit(out, quad_type(cu.as_str(), "Class", GraphName::DefaultGraph));
    emit(out, quad(cu.as_str(), "name", string_literal(name), GraphName::DefaultGraph));
    emit(out, quad(cu.as_str(), "definedIn", Term::Iri(clone_string(&ctx.module)), GraphName::DefaultGraph));
    emit(out, quad(cu.as_str(), "visibility", string_literal(python_visibility(name)), GraphName::DefaultGraph));
    emit_expr_lits(out, cu.as_str(), "extends", &c.bases);
    emit_expr_lits(out, cu.as_str(), "decorator", &c.decorators);
    let doc = extract_docstring(&c.body);
    emit_opt_lit(out, cu.as_str(), "docstring", &doc);
    emit(out, quad(cu.as_str(), "startLine", line_literal(ctx, c.start), GraphName::DefaultGraph));
    emit(out, quad(cu.as_str(), "endLine", line_literal(ctx, c.end), GraphName::DefaultGraph));
    let ghost head = quads_model(out@);
    let mut i: usize = 0;
    while i < c.body.len()
        invariant
            0 <= i <= c.body@.len(),
            ctx.wf(),
            name@ == c.name@,
            quads_model(out@) == head + members_quads(ctx.rel@, ctx.table@, c.name@, c.body@.take(i as int)),
        decreases c.body.len() - i,
    {
        assert(c.body@.take(i + 1).drop_last() =~= c.body@.take(i as int));
        let ghost before = quads_model(out@);
        emit_member(out, ctx, name, &c.body[i]);
        assert(c.body@.take(i + 1).last() == c.body@[i as int]);
        assert(members_quads(ctx.rel@, ctx.table@, c.name@, c.body@.take(i + 1))
            == members_quads(ctx.rel@, ctx.table@, c.name@, c.body@.take(i as int))
            + member_quads(ctx.rel@, ctx.table@, c.name@, c.body@[i as int]));
        assert(quads_model(out@) =~= head + members_quads(ctx.rel@, ctx.table@, c.name@, c.body@.take(i + 1)));
        i += 1;
    }
    assert(c.body@.take(c.body@.len() as int) =~= c.body@);
    assert(quads_model(out@) =~= start + class_quads(ctx.rel@, ctx.table@, *c));
}

/// `s` with each `.` replaced by `_`.
fn dots_to_underscores_exec(s: &str) -> (r: String)
    ensures
        r@ == dots_to_underscores(s@),
{
    let cs = chars_of(s);
    let mut out = String::new();
    let mut i: usize = 0;
    while i < cs.len()
        invariant
            0 <= i <= cs@.len(),
            cs@ == s@,
            out@ == dots_to_underscores(s@).take(i as int),
        decreases cs.len() - i,
    {
        push_char(&mut out, if cs[i] == '.' { '_' } else { cs[i] });
        assert(out@ =~= dots_to_underscores(s@).take(i + 1));
        i += 1;
    }
    assert(dots_to_underscores(s@).take(cs@.len() as int) =~= dots_to_underscores(s@));
    out
}

/// The IRI of an import of `path` in the module at `rel`.
fn import_node(rel: &str, path: &str) -> (r: String)
    ensures
        r@ == import_uri(rel@, path@),
{
    let mut local = to_owned_string(rel);
    local.append("/import/");
    let d = dots_to_underscores_exec(path);
    local.append(d.as_str());
    code_ns(local.as_str())
}

/// Appends the quads of a top-level statement.
fn emit_top(out: &mut Vec<Quad>, ctx: &PyCtx, st: &PyStmt)
    requires
        ctx.wf(),
    ensures
        quads_model(final(out)@) == quads_model(old(out)@) + top_quads(ctx.rel@, ctx.table@, *st),
{
    let ghost start = quads_model(out@);
    match st {
        PyStmt::Function(f) => emit_function(out, ctx, f, None),
        PyStmt::Class(c) => emit_class(out, ctx, c),
        PyStmt::Import(ns) => {
            let mut i: usize = 0;
            while i < ns.len()
                invariant
                    0 <= i <= ns@.len(),
                    ctx.wf(),
                    quads_model(out@) == start + import_quads(ctx.rel@, ns@.take(i as int)),
                decreases ns.len() - i,
            {
                assert(ns@.take(i + 1).drop_last() =~= ns@.take(i as int));
                let n = ns[i].as_str();
                let iu = import_node(ctx.rel, n);
                emit(out, quad_type(iu.as_str(), "Import", GraphName::DefaultGraph));
                emit(out, quad(iu.as_str(), "importPath", string_literal(n), GraphName::DefaultGraph));
                emit(out, quad(ctx.module.as_str(), "hasImport", Term::Iri(clone_string(&iu)), GraphName::DefaultGraph));
                emit(out, quad(iu.as_str(), "importedSymbol", string_literal(n), GraphName::DefaultGraph));
                assert(quads_model(out@) =~= start + import_quads(ctx.rel@, ns@.take(i + 1)));
                i += 1;
            }
            assert(ns@.take(ns@.len() as int) =~= ns@);
        },
        PyStmt::ImportFrom(m, ns) => {
            let p: &str = match m {
                Some(x) => x.as_str(),
                None => ".",
            };
            assert(p@ == from_path(*m));
            let iu = import_node(ctx.rel, p);
            emit(out, quad_type(iu.as_str(), "Import", GraphName::DefaultGraph));
            emit(out, quad(iu.as_str(), "importPath", string_literal(p), GraphName::DefaultGraph));
            emit(out, quad(ctx.module.as_str(), "hasImport", Term::Iri(clone_string(&iu)), GraphName::DefaultGraph));
            let ghost head = quads_model(out@);
            let mut i: usize = 0;
            while i < ns.len()
                invariant
                    0 <= i <= ns@.len(),
                    quads_model(out@) == head + symbol_quads(iu@, ns@.take(i as int)),
                decreases ns.len() - i,
            {
                assert(ns@.take(i + 1).drop_last() =~= ns@.take(i as int));
                emit(out, quad(iu.as_str(), "importedSymbol", string_literal(ns[i].as_str()), GraphName::DefaultGraph));
                i += 1;
            }
            assert(ns@.take(ns@.len() as int) =~= ns@);
        },
        _ => {},
    }
    assert(quads_model(out@) =~= start + top_quads(ctx.rel@, ctx.table@, *st));
}

/// `s` with each `\\` replaced by `/`.
pub open spec fn forward_slashes(s: Seq<char>) -> Seq<char> {
    Seq::new(s.len(), |i: int| if s[i] == '\\' { '/' } else { s[i] })
}

/// `s` with each `\\` replaced by `/`.
fn forward_slashes_exec(s: &str) -> (r: String)
    ensures
        r@ == forward_slashes(s@),
{
    let cs = chars_of(s);
    let mut out = String::new();
    let mut i: usize = 0;
    while i < cs.len()
        invariant
            0 <= i <= cs@.len(),
            cs@ == s@,
            out@ == forward_slashes(s@).take(i as int),
        decreases cs.len() - i,
    {
        push_char(&mut out, if cs[i] == '\\' { '/' } else { cs[i] });
        assert(out@ =~= forward_slashes(s@).take(i + 1));
        i += 1;
    }
    assert(forward_slashes(s@).take(cs@.len() as int) =~= forward_slashes(s@));
    out
}

/// The line starts of a source, as offsets that fit `u32`.
pub open spec fn table_of(source: &str) -> Seq<u32> {
    Seq::new(line_table(source.spec_bytes()).len(), |i: int| line_table(source.spec_bytes())[i] as u32)
}

// ---------------------------------------------------------------------------
// Parsing Python source text
// ---------------------------------------------------------------------------

#[verifier::external_type_specification]
#[verifier::external_body]
pub struct ExPyTextRange(rustpython_parser::text_size::TextRange);

#[verifier::external_type_specification]
#[verifier::external_body]
#[verifier::reject_recursive_types(R)]
pub struct ExPyAstExpr<R>(ast::Expr<R>);

#[verifier::external_type_specification]
#[verifier::external_body]
#[verifier::reject_recursive_types(R)]
pub struct ExPyAstStmt<R>(ast::Stmt<R>);

#[verifier::external_type_specification]
#[verifier::external_body]
#[verifier::reject_recursive_types(R)]
pub struct ExPyAstArguments<R>(ast::Arguments<R>);

#[verifier::external_type_specification]
#[verifier::external_body]
#[verifier::reject_recursive_types(R)]
pub struct ExPyAstFunctionDef<R>(ast::StmtFunctionDef<R>);

#[verifier::external_type_specification]
#[verifier::external_body]
#[verifier::reject_recursive_types(R)]
pub struct ExPyAstAsyncFunctionDef<R>(ast::StmtAsyncFunctionDef<R>);

#[verifier::external_type_specification]
#[verifier::external_body]
#[verifier::reject_recursive_types(R)]
pub struct ExPyAstClassDef<R>(ast::StmtClassDef<R>);

#[verifier::external_type_specification]
#[verifier::external_body]
pub struct ExPyAstConstant(ast::Constant);

/// A source text parsed as a module, given the path the parser names in its
/// messages, or the parser's message.
pub uninterp spec fn python_tree(source: Seq<char>, source_path: Seq<char>) -> Result<Seq<PyStmt>, Seq<char>>;

/// A parse result as plain values.
pub open spec fn python_tree_model(r: Result<Vec<PyStmt>, String>) -> Result<Seq<PyStmt>, Seq<char>> {
    match r {
        Ok(sts) => Ok(sts@),
        Err(m) => Err(m@),
    }
}

/// A constant as a `PyConst`; numbers by their printed text.
#[verifier::external_body]
fn py_const_of(c: &ast::Constant) -> PyConst {
    match c {
        ast::Constant::Str(s) => PyConst::Str(s.clone()),
        ast::Constant::Int(i) => PyConst::Int(i.to_string()),
        ast::Constant::Float(x) => PyConst::Float(x.to_string()),
        ast::Constant::Bool(b) => PyConst::Bool(*b),
        ast::Constant::None => PyConst::NoneValue,
        ast::Constant::Ellipsis => PyConst::Ellipsis,
        _ => PyConst::Other,
    }
}

/// An expression as a boxed `PyExpr`.
#[verifier::external_body]
fn py_boxed_of(e: &ast::Expr) -> Box<PyExpr> {
    Box::new(py_expr_of(e))
}

/// Expressions, each as a `PyExpr`.
#[verifier::external_body]
fn py_exprs_of(es: &[ast::Expr]) -> Vec<PyExpr> {
    es.iter().map(py_expr_of).collect()
}

/// An expression as a `PyExpr`: names, attributes, subscripts, constants
/// and tuples here, the other kinds in `py_expr_rest_of`.
#[verifier::external_body]
fn py_expr_of(e: &ast::Expr) -> PyExpr {
    match e {
        ast::Expr::Name(n) => PyExpr::Name(n.id.to_string()),
        ast::Expr::Attribute(a) => PyExpr::Attribute(py_boxed_of(&a.value), a.attr.to_string()),
        ast::Expr::Subscript(s) => PyExpr::Subscript(py_boxed_of(&s.value), py_boxed_of(&s.slice)),
        ast::Expr::Constant(c) => PyExpr::Constant(py_const_of(&c.value)),
        ast::Expr::Tuple(t) => PyExpr::Tuple(py_exprs_of(&t.elts)),
        _ => py_expr_rest_of(e),
    }
}

/// Lists, binary operations, calls and starred expressions as `PyExpr`s;
/// any other kind `Other`.
#[verifier::external_body]
fn py_expr_rest_of(e: &ast::Expr) -> PyExpr {
    match e {
        ast::Expr::List(l) => PyExpr::List(py_exprs_of(&l.elts)),
        ast::Expr::BinOp(b) => PyExpr::BinOp(py_boxed_of(&b.left), py_boxed_of(&b.right)),
        ast::Expr::Call(c) => PyExpr::Call(py_boxed_of(&c.func), py_exprs_of(&c.args)),
        ast::Expr::Starred(s) => PyExpr::Starred(py_boxed_of(&s.value)),
        _ => PyExpr::Other,
    }
}

/// The positional parameters with their annotations.
#[verifier::external_body]
fn py_params_of(args: &ast::Arguments) -> Vec<PyParam> {
    args.args
        .iter()
        .map(|a| PyParam { name: a.def.arg.to_string(), annotation: a.def.annotation.as_deref().map(py_expr_of) })
        .collect()
}

/// A function definition.
#[verifier::external_body]
fn py_def_of(f: &ast::StmtFunctionDef) -> PyFunction {
    PyFunction {
        name: f.name.to_string(),
        params: py_params_of(&f.args),
        returns: f.returns.as_deref().map(py_expr_of),
        decorators: py_exprs_of(&f.decorator_list),
        body: py_stmts_of(&f.body),
        start: f.start().to_u32(),
        end: f.end().to_u32(),
        is_async: false,
    }
}

/// An `async` function definition.
#[verifier::external_body]
fn py_async_def_of(f: &ast::StmtAsyncFunctionDef) -> PyFunction {
    PyFunction {
        name: f.name.to_string(),
        params: py_params_of(&f.args),
        returns: f.returns.as_deref().map(py_expr_of),
        decorators: py_exprs_of(&f.decorator_list),
        body: py_stmts_of(&f.body),
        start: f.start().to_u32(),
        end: f.end().to_u32(),
        is_async: true,
    }
}

/// A class definition.
#[verifier::external_body]
fn py_class_of(c: &ast::StmtClassDef) -> PyClass {
    PyClass {
        name: c.name.to_string(),
        bases: py_exprs_of(&c.bases),
        decorators: py_exprs_of(&c.decorator_list),
        body: py_stmts_of(&c.body),
        start: c.start().to_u32(),
        end: c.end().to_u32(),
    }
}

/// Statements, each as a `PyStmt`.
#[verifier::external_body]
fn py_stmts_of(body: &[ast::Stmt]) -> Vec<PyStmt> {
    body.iter().map(py_stmt_of).collect()
}

/// A statement as a `PyStmt`: definitions and imports here, the other kinds
/// in `py_stmt_rest_of`.
#[verifier::external_body]
fn py_stmt_of(s: &ast::Stmt) -> PyStmt {
    match s {
        ast::Stmt::FunctionDef(f) => PyStmt::Function(py_def_of(f)),
        ast::Stmt::AsyncFunctionDef(f) => PyStmt::Function(py_async_def_of(f)),
        ast::Stmt::ClassDef(c) => PyStmt::Class(py_class_of(c)),
        ast::Stmt::Import(i) => PyStmt::Import(i.names.iter().map(|a| a.name.to_string()).collect()),
        ast::Stmt::ImportFrom(i) => PyStmt::ImportFrom(
            i.module.as_ref().map(|m| m.to_string()),
            i.names.iter().map(|a| a.name.to_string()).collect(),
        ),
        _ => py_stmt_rest_of(s),
    }
}

/// Assignments and expression statements as `PyStmt`s; any other kind `Other`.
#[verifier::external_body]
fn py_stmt_rest_of(s: &ast::Stmt) -> PyStmt {
    match s {
        ast::Stmt::Assign(a) => PyStmt::Assign(py_exprs_of(&a.targets), a.start().to_u32()),
        ast::Stmt::AnnAssign(a) => PyStmt::AnnAssign(py_expr_of(&a.target), py_expr_of(&a.annotation), a.start().to_u32()),
        ast::Stmt::Expr(e) => PyStmt::Expr(py_expr_of(&e.value)),
        _ => PyStmt::Other,
    }
}

/// `ast::Suite::parse` (rustpython-parser): the text parsed as a module,
/// named `python_tree`; an error gives the parser's message.
#[verifier::external_body]
fn parse_python_source(source: &str, source_path: &str) -> (r: Result<Vec<PyStmt>, String>)
    ensures
        python_tree_model(r) == python_tree(source@, source_path@),
{
    ast::Suite::parse(source, source_path).map(|sts| py_stmts_of(&sts)).map_err(|e| e.to_string())
}

impl PythonLoader {
    /// The quads of a Python source file at `path` (`rel_path` within its
    /// project, backslashes read as slashes), from its text: the text is
    /// parsed (`python_tree`, named by the slashed relative path), and the
    /// module, its top-level functions and classes (with methods and fields)
    /// and its imports become quads; a parse error gives the parser's message.
    pub fn load_file(&self, path: &str, rel_path: &str, source: &str) -> (r: Result<Vec<Quad>, LoadError>)
        requires
            source.spec_bytes().len() < u32::MAX,
        ensures
            match python_tree(source@, forward_slashes(rel_path@)) {
                Err(e) => r matches Err(err) && err@ == LoadErrorModel::Parse(path@, None, e),
                Ok(sts) => r matches Ok(qs) && quads_model(qs@) == module_quads(path@, forward_slashes(rel_path@), table_of(source), sts),
            },
    {
        let rel = forward_slashes_exec(rel_path);
        let parsed = parse_python_source(source, rel.as_str());
        self.load_parsed(path, rel_path, source, &parsed)
    }

    /// The quads of a Python source file at `path` (`rel_path` within its
    /// project, backslashes read as slashes): the module, its top-level
    /// functions and classes (with methods and fields) and its imports.
    /// `parsed` is the parsed source, or the parser's message.
    pub fn load_parsed(&self, path: &str, rel_path: &str, source: &str, parsed: &Result<Vec<PyStmt>, String>) -> (r: Result<Vec<Quad>, LoadError>)
        requires
            source.spec_bytes().len() < u32::MAX,
        ensures
            match parsed {
                Err(e) => r matches Err(err) && err@ == LoadErrorModel::Parse(path@, None, e@),
                Ok(sts) => r matches Ok(qs) && quads_model(qs@) == module_quads(path@, forward_slashes(rel_path@), table_of(source), sts@),
            },
    {
        let rel = forward_slashes_exec(rel_path);
        let table = build_line_table(source);
        let sts = match parsed {
            Err(e) => {
                return Err(parse_error(path, e));
            },
            Ok(sts) => sts,
        };
        assert(table@ =~= table_of(source));
        proof {
            lemma_line_table_len(source.spec_bytes());
        }
        let ctx = PyCtx { rel: rel.as_str(), module: code_ns(rel.as_str()), table: &table };
        let mut quads: Vec<Quad> = Vec::new();
        let m = ctx.module.as_str();
        emit(&mut quads, quad_type(m, "Module", GraphName::DefaultGraph));
        emit(&mut quads, quad(m, "filePath", string_literal(path), GraphName::DefaultGraph));
        emit(&mut quads, quad(m, "relativePath", string_literal(rel.as_str()), GraphName::DefaultGraph));
        emit(&mut quads, quad(m, "language", string_literal("python"), GraphName::DefaultGraph));
        let ghost head = quads_model(quads@);
        let mut i: usize = 0;
        while i < sts.len()
            invariant
                0 <= i <= sts@.len(),
                ctx.wf(),
                ctx.rel@ == forward_slashes(rel_path@),
                ctx.table@ == table_of(source),
                quads_model(quads@) == head + tops_quads(ctx.rel@, ctx.table@, sts@.take(i as int)),
            decreases sts.len() - i,
        {
            assert(sts@.take(i + 1).drop_last() =~= sts@.take(i as int));
            emit_top(&mut quads, &ctx, &sts[i]);
            i += 1;
        }
        assert(sts@.take(sts@.len() as int) =~= sts@);
        assert(quads_model(quads@) =~= module_quads(path@, forward_slashes(rel_path@), table_of(source), sts@));
        Ok(quads)
    }
}

// --- Project metadata ---

/// The IRI of a dependency.
pub open spec fn dep_uri(name: Seq<char>) -> Seq<char> {
    spec_code_ns("dep/"@ + name)
}

/// The quads of a dependency of project `p`.
pub open spec fn dep_quads(p: Seq<char>, name: Seq<char>, version: Option<Seq<char>>) -> Seq<QuadModel> {
    let d = dep_uri(name);
    seq![ctype(d, "Dependency"@), cq(d, "name"@, lit(name))] + opt_lit(d, "version"@, version)
        + seq![cq(p, "hasDependency"@, TermModel::Iri(d))]
}

/// The dependencies of a `dependencies` array of PEP 508 strings.
pub open spec fn array_deps(p: Seq<char>, xs: Seq<TomlValue>) -> Seq<QuadModel>
    decreases xs.len(),
{
    if xs.len() == 0 {
        Seq::empty()
    } else {
        array_deps(p, xs.drop_last()) + match xs.last() {
            TomlValue::Str(s) => dep_quads(p, spec_pep508(s@).0, spec_pep508(s@).1),
            _ => Seq::empty(),
        }
    }
}

/// The version in a dependency table entry: a string, or the `version` of a table.
pub open spec fn entry_version(v: TomlValue) -> Option<Seq<char>> {
    match v {
        TomlValue::Str(s) => Some(s@),
        TomlValue::Table(t) => opt_str(entry_get(t@, "version"@)),
        _ => None,
    }
}

/// The dependencies of a `dependencies` table (Poetry style).
pub open spec fn table_deps(p: Seq<char>, es: Seq<(String, TomlValue)>) -> Seq<QuadModel>
    decreases es.len(),
{
    if es.len() == 0 {
        Seq::empty()
    } else {
        table_deps(p, es.drop_last()) + dep_quads(p, es.last().0@, entry_version(es.last().1))
    }
}

/// The dependencies of a `dependencies` value.
pub open spec fn toml_deps(p: Seq<char>, v: TomlValue) -> Seq<QuadModel> {
    match v {
        TomlValue::Array(xs) => array_deps(p, xs@),
        TomlValue::Table(es) => table_deps(p, es@),
        _ => Seq::empty(),
    }
}

/// The project table of `pyproject.toml`: `[project]`, else `[tool.poetry]`.
pub open spec fn project_table(doc: TomlValue) -> Option<Seq<(String, TomlValue)>> {
    match toml_get(doc, "project"@) {
        Some(TomlValue::Table(es)) => Some(es@),
        _ => match opt_get(toml_get(doc, "tool"@), "poetry"@) {
            Some(TomlValue::Table(es)) => Some(es@),
            _ => None,
        },
    }
}

/// The IRI of project `name`.
pub open spec fn project_uri_of(name: Seq<char>) -> Seq<char> {
    spec_code_ns("project/"@ + name)
}

/// The quads of `pyproject.toml`: the project, its version, description and dependencies.
pub open spec fn pyproject_quads(doc: TomlValue) -> Seq<QuadModel> {
    match project_table(doc) {
        None => Seq::empty(),
        Some(es) => {
            let name = match opt_str(entry_get(es, "name"@)) {
                Some(n) => n,
                None => "unknown"@,
            };
            let p = project_uri_of(name);
            seq![ctype(p, "Project"@), cq(p, "name"@, lit(name)), cq(p, "language"@, lit("python"@))]
                + opt_lit(p, "version"@, opt_str(entry_get(es, "version"@)))
                + opt_lit(p, "description"@, opt_str(entry_get(es, "description"@)))
                + match entry_get(es, "dependencies"@) {
                Some(d) => toml_deps(p, d),
                None => Seq::empty(),
            }
        },
    }
}

/// Appends the quads of a dependency.
fn emit_dependency(out: &mut Vec<Quad>, p: &str, name: &str, version: &Option<String>)
    ensures
        quads_model(final(out)@) == quads_model(old(out)@) + dep_quads(p@, name@, match version {
            Some(v) => Some(v@),
            None => None,
        }),
{
    let ghost start = quads_model(out@);
    let mut local = to_owned_string("dep/");
    local.append(name);
    let d = code_ns(local.as_str());
    emit(out, quad_type(d.as_str(), "Dependency", GraphName::DefaultGraph));
    emit(out, quad(d.as_str(), "name", string_literal(name), GraphName::DefaultGraph));
    emit_opt_lit(out, d.as_str(), "version", version);
    emit(out, quad(p, "hasDependency", Term::Iri(d), GraphName::DefaultGraph));
    assert(quads_model(out@) =~= start + dep_quads(p@, name@, match version {
        Some(v) => Some(v@),
        None => None,
    }));
}

/// Appends the quads of a `dependencies` value.
fn emit_toml_deps(out: &mut Vec<Quad>, p: &str, v: &TomlValue)
    ensures
        quads_model(final(out)@) == quads_model(old(out)@) + toml_deps(p@, *v),
{
    let ghost start = quads_model(out@);
    match v {
        TomlValue::Array(xs) => {
            let mut i: usize = 0;
            while i < xs.len()
                invariant
                    0 <= i <= xs@.len(),
                    quads_model(out@) == start + array_deps(p@, xs@.take(i as int)),
                decreases xs.len() - i,
            {
                assert(xs@.take(i + 1).drop_last() =~= xs@.take(i as int));
                let ghost before = quads_model(out@);
                match &xs[i] {
                    TomlValue::Str(s) => {
                        let (n, ver) = parse_pep508(s.as_str());
                        emit_dependency(out, p, n.as_str(), &ver);
                    },
                    _ => {},
                }
                assert(quads_model(out@) =~= start + array_deps(p@, xs@.take(i + 1)));
                i += 1;
            }
            assert(xs@.take(xs@.len() as int) =~= xs@);
        },
        TomlValue::Table(es) => {
            let mut i: usize = 0;
            while i < es.len()
                invariant
                    0 <= i <= es@.len(),
                    quads_model(out@) == start + table_deps(p@, es@.take(i as int)),
                decreases es.len() - i,
            {
                assert(es@.take(i + 1).drop_last() =~= es@.take(i as int));
                let ver: Option<String> = match &es[i].1 {
                    TomlValue::Str(v) => Some(clone_string(v)),
                    TomlValue::Table(_) => match as_str_opt(get(&es[i].1, "version")) {
                        Some(v) => Some(clone_string(v)),
                        None => None,
                    },
                    _ => None,
                };
                emit_dependency(out, p, es[i].0.as_str(), &ver);
                assert(quads_model(out@) =~= start + table_deps(p@, es@.take(i + 1)));
                i += 1;
            }
            assert(es@.take(es@.len() as int) =~= es@);
        },
        _ => {},
    }
}

/// The quads of `pyproject.toml` at `file`, given as parsed or with the parser's
/// message: the project (`[project]`, else `[tool.poetry]`; none when neither
/// is a table), its version, description and dependencies.
pub fn parse_pyproject_toml(file: &str, content: &str) -> (r: Result<Vec<Quad>, LoadError>)
    ensures
        match toml_doc(content@) {
            Err(e) => r matches Err(err) && err@ == LoadErrorModel::Parse(file@, None, e),
            Ok(d) => r matches Ok(qs) && quads_model(qs@) == pyproject_quads(d),
        },
{
    let doc = parse_toml(content);
    let d = match &doc {
        Err(e) => {
            return Err(parse_error(file, e));
        },
        Ok(d) => d,
    };
    let mut quads: Vec<Quad> = Vec::new();
    let proj = match get(d, "project") {
        Some(TomlValue::Table(es)) => Some(es),
        _ => match get_opt(get(d, "tool"), "poetry") {
            Some(TomlValue::Table(es)) => Some(es),
            _ => None,
        },
    };
    let es = match proj {
        None => {
            assert(quads_model(quads@) =~= pyproject_quads(*d));
            return Ok(quads);
        },
        Some(es) => es,
    };
    assert(project_table(*d) == Some(es@));
    let table = TomlValue::Table(Vec::new());
    let name: String = match get_entry(es, "name") {
        Some(TomlValue::Str(n)) => clone_string(n),
        _ => to_owned_string("unknown"),
    };
    let mut local = to_owned_string("project/");
    local.append(name.as_str());
    let p = code_ns(local.as_str());
    emit(&mut quads, quad_type(p.as_str(), "Project", GraphName::DefaultGraph));
    emit(&mut quads, quad(p.as_str(), "name", string_literal(name.as_str()), GraphName::DefaultGraph));
    emit(&mut quads, quad(p.as_str(), "language", string_literal("python"), GraphName::DefaultGraph));
    let version: Option<String> = match get_entry(es, "version") {
        Some(TomlValue::Str(v)) => Some(clone_string(v)),
        _ => None,
    };
    emit_opt_lit(&mut quads, p.as_str(), "version", &version);
    let description: Option<String> = match get_entry(es, "description") {
        Some(TomlValue::Str(v)) => Some(clone_string(v)),
        _ => None,
    };
    emit_opt_lit(&mut quads, p.as_str(), "description", &description);
    let ghost mid = quads_model(quads@);
    match get_entry(es, "dependencies") {
        Some(dv) => emit_toml_deps(&mut quads, p.as_str(), dv),
        None => {},
    }
    assert(quads_model(quads@) =~= pyproject_quads(*d));
    Ok(quads)
}

/// The value under `k` in table entries.
pub fn get_entry<'a>(es: &'a Vec<(String, TomlValue)>, k: &str) -> (r: Option<&'a TomlValue>)
    ensures
        match r {
            Some(x) => entry_get(es@, k@) == Some(*x),
            None => entry_get(es@, k@) is None,
        },
{
    let mut i: usize = 0;
    assert(es@.skip(0) =~= es@);
    while i < es.len()
        invariant
            0 <= i <= es@.len(),
            entry_get(es@, k@) == entry_get(es@.skip(i as int), k@),
        decreases es.len() - i,
    {
        assert(es@.skip(i as int).skip(1) =~= es@.skip(i + 1));
        assert(es@.skip(i as int)[0] == es@[i as int]);
        if str_eq(es[i].0.as_str(), k) {
            return Some(&es[i].1);
        }
        i += 1;
    }
    None
}

/// Whether a `requirements.txt` line is a requirement: not blank, not a
/// comment, not an option.
pub open spec fn is_requirement(line: Seq<char>) -> bool {
    trim(line).len() > 0 && !starts_with(trim(line), "#"@) && !starts_with(trim(line), "-"@)
}

/// The dependency quads of `requirements.txt` lines.
pub open spec fn requirement_quads(p: Seq<char>, lines: Seq<Seq<char>>) -> Seq<QuadModel>
    decreases lines.len(),
{
    if lines.len() == 0 {
        Seq::empty()
    } else {
        let l = lines.last();
        requirement_quads(p, lines.drop_last()) + if is_requirement(l) && spec_pep508(trim(l)).0.len() > 0 {
            dep_quads(p, spec_pep508(trim(l)).0, spec_pep508(trim(l)).1)
        } else {
            Seq::empty()
        }
    }
}

/// The quads of `requirements.txt`: a project with no name, and one dependency a requirement.
pub open spec fn requirements_quads(content: Seq<char>) -> Seq<QuadModel> {
    let p = project_uri_of("unknown"@);
    seq![ctype(p, "Project"@), cq(p, "language"@, lit("python"@))]
        + requirement_quads(p, crate::text::spec_lines(content))
}

/// The quads of `requirements.txt`: a project with no name, and one dependency a requirement.
pub fn parse_requirements_txt(content: &str) -> (r: Vec<Quad>)
    ensures
        quads_model(r@) == requirements_quads(content@),
{
    let mut quads: Vec<Quad> = Vec::new();
    let mut local = to_owned_string("project/");
    local.append("unknown");
    let p = code_ns(local.as_str());
    emit(&mut quads, quad_type(p.as_str(), "Project", GraphName::DefaultGraph));
    emit(&mut quads, quad(p.as_str(), "language", string_literal("python"), GraphName::DefaultGraph));
    let ghost head = quads_model(quads@);
    let lines = crate::text::lines_of(&chars_of(content));
    let ghost ls = crate::text::char_seqs(lines@);
    let mut i: usize = 0;
    while i < lines.len()
        invariant
            0 <= i <= lines@.len(),
            ls == crate::text::char_seqs(lines@),
            ls == crate::text::spec_lines(content@),
            p@ == project_uri_of("unknown"@),
            quads_model(quads@) == head + requirement_quads(p@, ls.take(i as int)),
        decreases lines.len() - i,
    {
        assert(ls.take(i + 1).drop_last() =~= ls.take(i as int));
        let t = trim_exec(&lines[i]);
        assert(ls[i as int] == lines@[i as int]@);
        let keep = t.len() > 0 && !crate::text::starts_with_exec(&t, &chars_of("#"))
            && !crate::text::starts_with_exec(&t, &chars_of("-"));
        if keep {
            let line = string_of(&t);
            let (n, ver) = parse_pep508(line.as_str());
            if !n.as_str().is_empty() {
                emit_dependency(&mut quads, p.as_str(), n.as_str(), &ver);
            }
        }
        assert(quads_model(quads@) =~= head + requirement_quads(p@, ls.take(i + 1)));
        i += 1;
    }
    assert(ls.take(ls.len() as int) =~= ls);
    quads
}

impl PythonLoader {
    /// The IRI of the project `pyproject.toml` names: `project.name`, else
    /// `tool.poetry.name`, when a string.
    pub fn project_uri(&self, content: &str) -> (r: Option<String>)
        ensures
            match toml_doc(content@) {
                Ok(doc) => match r {
                    Some(u) => python_project_name(doc) matches Some(n) && u@ == project_uri_of(n),
                    None => python_project_name(doc) is None,
                },
                Err(_) => r is None,
            },
    {
        let parsed = parse_toml(content);
        let doc = match &parsed {
            Ok(d) => d,
            Err(_) => {
                return None;
            },
        };
        let named = match get_opt(get(doc, "project"), "name") {
            Some(v) => Some(v),
            None => get_opt(get_opt(get(doc, "tool"), "poetry"), "name"),
        };
        match as_str_opt(named) {
            Some(n) => {
                let mut local = to_owned_string("project/");
                local.append(n.as_str());
                Some(code_ns(local.as_str()))
            },
            None => None,
        }
    }
}

/// The project name in `pyproject.toml`: `project.name`, else `tool.poetry.name`, when a string.
pub open spec fn python_project_name(doc: TomlValue) -> Option<Seq<char>> {
    opt_str(match opt_get(toml_get(doc, "project"@), "name"@) {
        Some(v) => Some(v),
        None => opt_get(opt_get(toml_get(doc, "tool"@), "poetry"@), "name"@),
    })
}

/// A Python name is private when it begins with an underscore, unless it is a
/// dunder name (two underscores at each end); every other name is public.
pub proof fn law_python_visibility(name: Seq<char>)
    ensures
        visibility_text(name) == if name.len() >= 1 && name[0] == '_' && !(name.len() >= 2 && name[1] == '_'
            && name[name.len() - 2] == '_' && name[name.len() - 1] == '_') {
            "private"@
        } else {
            "public"@
        },
{
    reveal_strlit("_");
    reveal_strlit("__");
    let n = name.len() as int;
    if n >= 1 {
        assert(starts_with(name, "_"@) == (name[0] == '_')) by {
            if name[0] == '_' {
                assert(name.subrange(0, 1) =~= "_"@);
            }
            if starts_with(name, "_"@) {
                assert(name.subrange(0, 1)[0] == name[0]);
            }
        }
    }
    if n >= 2 {
        assert(starts_with(name, "__"@) == (name[0] == '_' && name[1] == '_')) by {
            if name[0] == '_' && name[1] == '_' {
                assert(name.subrange(0, 2) =~= "__"@);
            }
            if starts_with(name, "__"@) {
                assert(name.subrange(0, 2)[0] == name[0]);
                assert(name.subrange(0, 2)[1] == name[1]);
            }
        }
        assert(ends_with(name, "__"@) == (name[n - 2] == '_' && name[n - 1] == '_')) by {
            if name[n - 2] == '_' && name[n - 1] == '_' {
                assert(name.subrange(n - 2, n) =~= "__"@);
            }
            if ends_with(name, "__"@) {
                assert(name.subrange(n - 2, n)[0] == name[n - 2]);
                assert(name.subrange(n - 2, n)[1] == name[n - 1]);
            }
        }
    }
}

/// A line of `requirements.txt` is a requirement when, trimmed, it is not
/// empty and starts with neither `#` (a comment) nor `-` (an option).
pub proof fn law_requirement_lines(line: Seq<char>)
    ensures
        is_requirement(line) == (trim(line).len() > 0 && trim(line)[0] != '#' && trim(line)[0] != '-'),
{
    reveal_strlit("#");
    reveal_strlit("-");
    let t = trim(line);
    if t.len() > 0 {
        if t[0] == '#' {
            assert(t.subrange(0, 1) =~= "#"@);
        }
        if t[0] == '-' {
            assert(t.subrange(0, 1) =~= "-"@);
        }
        if starts_with(t, "#"@) || starts_with(t, "-"@) {
            assert(t.subrange(0, 1)[0] == t[0]);
        }
    }
}

} // verus!
