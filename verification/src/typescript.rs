//! TypeScript and JavaScript sources as RDF: modules, functions (declared or
//! bound to a variable), classes, interfaces, type aliases, enums and imports,
//! read from a parsed program, with JSDoc comments as docstrings; and project
//! metadata from `package.json`. All of it goes to the named graph of
//! TypeScript code.
use vstd::prelude::*;
use vstd::string::StringExecFns;
use vstd::string::StringSliceAdditionalSpecFns;

use crate::loader::{LoadError, LoadErrorModel};
use crate::python::{
    build_line_table, count_le, lemma_count_le_bound, offset_to_line, strictly_increasing, table_of,
};
use crate::rdf::{
    code_ns, code_quad, code_type, emit, int_lit, integer_literal, lit, quad, quad_type, quads_model,
    spec_code_ns, string_literal, GraphModel, GraphName, Quad, QuadModel, Term, TermModel,
};
use crate::retrieval::{blen, char_len};
use crate::text::{
    chars_of, char_seqs, clone_string, ends_with, lines_of, push_char, push_chars, slice_vec, spec_join, spec_lines,
    starts_with, starts_with_exec, string_of, to_owned_string, trim, trim_exec,
};

verus! {

broadcast use vstd::string::group_string_axioms;

/// Reads TypeScript and JavaScript sources.
pub struct TypeScriptLoader;

/// A keyword type.
pub enum TsKeyword {
    String,
    Number,
    Boolean,
    Void,
    Any,
    Null,
    Undefined,
    Never,
    Unknown,
    Object,
    BigInt,
    Symbol,
}

/// A type annotation, as far as the loader prints it.
pub enum TsType {
    Keyword(TsKeyword),
    /// A named type as written, with its type arguments when it has some.
    Reference(String, Option<Vec<TsType>>),
    Array(Box<TsType>),
    Union(Vec<TsType>),
    Intersection(Vec<TsType>),
    StringLiteral(String),
    /// A numeric literal type, as the number prints.
    NumberLiteral(String),
    BooleanLiteral(bool),
    /// Any other literal type.
    OtherLiteral,
    /// A function type.
    Function,
    /// Any other type.
    Other,
}

/// A name in an `extends` clause: an identifier, a member of a name, or anything else.
pub enum TsName {
    Ident(String),
    Member(Box<TsName>, String),
    Other,
}

/// A function: its name if it has one, its span (byte offsets), the names of
/// its parameters (none for a destructuring pattern), and its return type.
pub struct TsFunc {
    pub name: Option<String>,
    pub start: u32,
    pub end: u32,
    pub params: Vec<Option<String>>,
    pub return_type: Option<TsType>,
}

/// A member of a class body.
pub enum TsClassMember {
    /// A method: its key when it is a name, a string or a number, and the function.
    Method(Option<String>, TsFunc),
    /// A property: its key when it is a name, a string or a number.
    Property(Option<String>),
    Other,
}

/// A class: its name if it has one, its span, the implemented interfaces as
/// written, its superclass, and its members.
pub struct TsClass {
    pub name: Option<String>,
    pub start: u32,
    pub end: u32,
    pub implements: Vec<String>,
    pub super_class: Option<TsName>,
    pub members: Vec<TsClassMember>,
}

/// A member of an interface body: a method or property signature with its key, or anything else.
pub enum TsSignature {
    Method(Option<String>),
    Property(Option<String>),
    Other,
}

/// An interface: name, span, extended names and members.
pub struct TsInterface {
    pub name: String,
    pub start: u32,
    pub end: u32,
    pub extends: Vec<TsName>,
    pub members: Vec<TsSignature>,
}

/// A type alias: name and span.
pub struct TsTypeAlias {
    pub name: String,
    pub start: u32,
    pub end: u32,
}

/// An enum: name, span, and the name of each member that is an identifier or a string.
pub struct TsEnum {
    pub name: String,
    pub start: u32,
    pub end: u32,
    pub members: Vec<Option<String>>,
}

/// What a variable is initialized with, parentheses removed.
pub enum TsInit {
    Arrow(TsFunc),
    Function(TsFunc),
    Other,
}

/// One variable of a declaration: its name when it is an identifier, and its initializer.
pub struct TsDeclarator {
    pub name: Option<String>,
    pub init: Option<TsInit>,
}

/// A variable declaration: where it starts, and its variables.
pub struct TsVarDecl {
    pub start: u32,
    pub declarators: Vec<TsDeclarator>,
}

/// A declaration.
pub enum TsDecl {
    Function(TsFunc),
    Class(TsClass),
    TypeAlias(TsTypeAlias),
    Interface(TsInterface),
    Enum(TsEnum),
    Var(TsVarDecl),
    Other,
}

/// A top-level statement: a declaration and whether it is exported (by
/// `export` or `export default`), an import of a module path, or anything else.
pub enum TsStmt {
    Decl(TsDecl, bool),
    Import(String),
    Other,
}

/// A comment: whether it is a block comment, and its span.
pub struct TsComment {
    pub is_block: bool,
    pub start: u32,
    pub end: u32,
}

/// A parsed program: its statements and comments.
pub struct TsProgram {
    pub body: Vec<TsStmt>,
    pub comments: Vec<TsComment>,
}

/// Why a file was not parsed: its extension is not one the parser reads, or
/// the first syntax error, with the byte offset it points at when known.
pub enum TsParseFailure {
    UnsupportedExtension,
    Syntax(Option<u32>, String),
}

// --- Printing types ---

/// The text of a keyword type.
pub open spec fn keyword_text(k: TsKeyword) -> Seq<char> {
    match k {
        TsKeyword::String => "string"@,
        TsKeyword::Number => "number"@,
        TsKeyword::Boolean => "boolean"@,
        TsKeyword::Void => "void"@,
        TsKeyword::Any => "any"@,
        TsKeyword::Null => "null"@,
        TsKeyword::Undefined => "undefined"@,
        TsKeyword::Never => "never"@,
        TsKeyword::Unknown => "unknown"@,
        TsKeyword::Object => "object"@,
        TsKeyword::BigInt => "bigint"@,
        TsKeyword::Symbol => "symbol"@,
    }
}

/// The text of a type: keywords by name, references with their arguments in
/// angle brackets, arrays with `[]`, unions joined by ` | `, intersections by
/// ` & `, literals as written (strings quoted), `Function` for function types
/// and `literal` or `unknown` for the rest.
pub open spec fn type_text(t: TsType) -> Seq<char>
    decreases t,
{
    match t {
        TsType::Keyword(k) => keyword_text(k),
        TsType::Reference(n, args) => match args {
            Some(xs) => {
                proof {
                    assert(decreases_to!(xs => xs@));
                }
                n@ + "<"@ + spec_join(types_text(xs@), ", "@) + ">"@
            },
            None => n@,
        },
        TsType::Array(e) => type_text(*e) + "[]"@,
        TsType::Union(xs) => {
            proof {
                assert(decreases_to!(xs => xs@));
            }
            spec_join(types_text(xs@), " | "@)
        },
        TsType::Intersection(xs) => {
            proof {
                assert(decreases_to!(xs => xs@));
            }
            spec_join(types_text(xs@), " & "@)
        },
        TsType::StringLiteral(s) => "\""@ + s@ + "\""@,
        TsType::NumberLiteral(n) => n@,
        TsType::BooleanLiteral(b) => if b { "true"@ } else { "false"@ },
        TsType::OtherLiteral => "literal"@,
        TsType::Function => "Function"@,
        TsType::Other => "unknown"@,
    }
}

/// The texts of types, in order.
pub open spec fn types_text(ts: Seq<TsType>) -> Seq<Seq<char>>
    decreases ts,
{
    if ts.len() == 0 {
        Seq::empty()
    } else {
        proof {
            assert(decreases_to!(ts => ts[ts.len() - 1]));
            assert(decreases_to!(ts => ts.subrange(0, ts.len() - 1)));
        }
        types_text(ts.subrange(0, ts.len() - 1)).push(type_text(ts[ts.len() - 1]))
    }
}

/// The text of a keyword type.
fn keyword_str(k: &TsKeyword) -> (r: &'static str)
    ensures
        r@ == keyword_text(*k),
{
    match k {
        TsKeyword::String => "string",
        TsKeyword::Number => "number",
        TsKeyword::Boolean => "boolean",
        TsKeyword::Void => "void",
        TsKeyword::Any => "any",
        TsKeyword::Null => "null",
        TsKeyword::Undefined => "undefined",
        TsKeyword::Never => "never",
        TsKeyword::Unknown => "unknown",
        TsKeyword::Object => "object",
        TsKeyword::BigInt => "bigint",
        TsKeyword::Symbol => "symbol",
    }
}

/// The texts of a prefix are the prefix of the texts.
proof fn lemma_types_text_prefix(ts: Seq<TsType>, k: int)
    requires
        0 <= k <= ts.len(),
    ensures
        types_text(ts.subrange(0, k)).len() == k,
        k > 0 ==> types_text(ts.subrange(0, k)) == types_text(ts.subrange(0, k - 1)).push(type_text(ts[k - 1])),
{
    lemma_types_text_len(ts.subrange(0, k));
    if k > 0 {
        let p = ts.subrange(0, k);
        assert(p.subrange(0, p.len() - 1) =~= ts.subrange(0, k - 1));
    }
}

proof fn lemma_types_text_len(ts: Seq<TsType>)
    ensures
        types_text(ts).len() == ts.len(),
    decreases ts.len(),
{
    if ts.len() > 0 {
        lemma_types_text_len(ts.subrange(0, ts.len() - 1));
    }
}

/// The texts of `ts` joined by `sep`, appended to `out`.
fn push_types_joined(out: &mut String, ts: &Vec<TsType>, sep: &str)
    ensures
        final(out)@ == old(out)@ + spec_join(types_text(ts@), sep@),
    decreases ts@, 0int,
{
    let ghost start = out@;
    let mut i: usize = 0;
    while i < ts.len()
        invariant
            0 <= i <= ts@.len(),
            out@ == start + spec_join(types_text(ts@.subrange(0, i as int)), sep@),
        decreases ts.len() - i,
    {
        proof {
            assert(decreases_to!(ts@ => ts@[i as int]));
            lemma_types_text_prefix(ts@, i as int);
        }
        if i > 0 {
            out.append(sep);
        }
        let t = format_ts_type(&ts[i]);
        out.append(t.as_str());
        proof {
            lemma_types_text_prefix(ts@, i + 1);
            let parts = types_text(ts@.subrange(0, i + 1));
            assert(parts.drop_last() =~= types_text(ts@.subrange(0, i as int)));
            assert(parts.last() == type_text(ts@[i as int]));
        }
        i += 1;
    }
    assert(ts@.subrange(0, ts@.len() as int) =~= ts@);
}

/// The text of a type annotation.
pub fn format_ts_type(t: &TsType) -> (r: String)
    ensures
        r@ == type_text(*t),
    decreases t, 1int,
{
    match t {
        TsType::Keyword(k) => to_owned_string(keyword_str(k)),
        TsType::Reference(n, args) => match args {
            Some(xs) => {
                let mut out = clone_string(n);
                out.append("<");
                push_types_joined(&mut out, xs, ", ");
                out.append(">");
                out
            },
            None => clone_string(n),
        },
        TsType::Array(e) => {
            let mut out = format_ts_type(e);
            out.append("[]");
            out
        },
        TsType::Union(xs) => {
            let mut out = String::new();
            push_types_joined(&mut out, xs, " | ");
            out
        },
        TsType::Intersection(xs) => {
            let mut out = String::new();
            push_types_joined(&mut out, xs, " & ");
            out
        },
        TsType::StringLiteral(s) => {
            let mut out = to_owned_string("\"");
            out.append(s.as_str());
            out.append("\"");
            out
        },
        TsType::NumberLiteral(n) => clone_string(n),
        TsType::BooleanLiteral(b) => if *b { to_owned_string("true") } else { to_owned_string("false") },
        TsType::OtherLiteral => to_owned_string("literal"),
        TsType::Function => to_owned_string("Function"),
        TsType::Other => to_owned_string("unknown"),
    }
}

/// The text of a name in an `extends` clause: members joined by `.`, `unknown` for anything else.
pub open spec fn name_text(n: TsName) -> Seq<char>
    decreases n,
{
    match n {
        TsName::Ident(s) => s@,
        TsName::Member(o, p) => name_text(*o) + "."@ + p@,
        TsName::Other => "unknown"@,
    }
}

/// The text of a name in an `extends` clause.
pub fn expr_to_name(n: &TsName) -> (r: String)
    ensures
        r@ == name_text(*n),
    decreases n,
{
    match n {
        TsName::Ident(s) => clone_string(s),
        TsName::Member(o, p) => {
            let mut out = expr_to_name(o);
            out.append(".");
            out.append(p.as_str());
            out
        },
        TsName::Other => to_owned_string("unknown"),
    }
}


// --- Source positions ---

/// The character index at byte offset `off` of `cs` in UTF-8, when a character starts (or the text ends) there.
pub open spec fn char_index(cs: Seq<char>, off: int) -> Option<int> {
    if exists|k: int| 0 <= k <= cs.len() && blen(cs.take(k)) == off {
        Some(choose|k: int| 0 <= k <= cs.len() && blen(cs.take(k)) == off)
    } else {
        None
    }
}

/// The characters between byte offsets `a` and `b`.
pub open spec fn span_chars(cs: Seq<char>, a: int, b: int) -> Seq<char> {
    cs.subrange(char_index(cs, a)->Some_0, char_index(cs, b)->Some_0)
}

/// Each character takes at least one byte, so byte offsets of prefixes grow strictly.
proof fn lemma_blen_take_strict(cs: Seq<char>, a: int, b: int)
    requires
        0 <= a < b <= cs.len(),
    ensures
        blen(cs.take(a)) < blen(cs.take(b)),
    decreases b - a,
{
    assert(cs.take(b).drop_last() =~= cs.take(b - 1));
    if a < b - 1 {
        lemma_blen_take_strict(cs, a, b - 1);
    }
}

/// The byte offset at which each character starts, and that of the end.
fn char_offsets(cs: &Vec<char>) -> (r: Vec<usize>)
    requires
        cs@.len() * 4 < usize::MAX,
    ensures
        r@.len() == cs@.len() + 1,
        forall|k: int| 0 <= k < r@.len() ==> r@[k] as int == blen(#[trigger] cs@.take(k)),
{
    let mut r: Vec<usize> = Vec::new();
    r.push(0);
    assert(cs@.take(0) =~= Seq::<char>::empty());
    let mut n: usize = 0;
    let mut i: usize = 0;
    while i < cs.len()
        invariant
            0 <= i <= cs@.len(),
            cs@.len() * 4 < usize::MAX,
            r@.len() == i + 1,
            n == blen(cs@.take(i as int)),
            n <= i * 4,
            forall|k: int| 0 <= k < r@.len() ==> r@[k] as int == blen(#[trigger] cs@.take(k)),
        decreases cs.len() - i,
    {
        assert(cs@.take(i + 1).drop_last() =~= cs@.take(i as int));
        let c = cs[i];
        let w: usize = if (c as u32) < 0x80 {
            1
        } else if (c as u32) < 0x800 {
            2
        } else if (c as u32) < 0x10000 {
            3
        } else {
            4
        };
        assert(w == char_len(cs@[i as int]));
        n = n + w;
        r.push(n);
        i += 1;
    }
    r
}

/// The character index at byte offset `off`, found in the offsets of a text.
fn char_index_exec(offs: &Vec<usize>, cs: Ghost<Seq<char>>, off: u32) -> (r: Option<usize>)
    requires
        offs@.len() == cs@.len() + 1,
        forall|k: int| 0 <= k < offs@.len() ==> offs@[k] as int == blen(#[trigger] cs@.take(k)),
    ensures
        match r {
            Some(k) => char_index(cs@, off as int) == Some(k as int) && k <= cs@.len(),
            None => char_index(cs@, off as int) is None,
        },
{
    let mut lo: usize = 0;
    let mut hi: usize = offs.len();
    while lo < hi
        invariant
            0 <= lo <= hi <= offs@.len(),
            offs@.len() == cs@.len() + 1,
            forall|k: int| 0 <= k < offs@.len() ==> offs@[k] as int == blen(#[trigger] cs@.take(k)),
            forall|k: int| 0 <= k < lo ==> offs@[k] < off,
            forall|k: int| hi <= k < offs@.len() ==> offs@[k] >= off,
        decreases hi - lo,
    {
        let mid = lo + (hi - lo) / 2;
        if offs[mid] < off as usize {
            proof {
                assert forall|k: int| 0 <= k <= mid implies offs@[k] < off by {
                    if k < mid {
                        lemma_blen_take_strict(cs@, k, mid as int);
                        assert(offs@[k] as int == blen(cs@.take(k)));
                        assert(offs@[mid as int] as int == blen(cs@.take(mid as int)));
                    }
                }
            }
            lo = mid + 1;
        } else {
            proof {
                assert forall|k: int| mid <= k < offs@.len() implies offs@[k] >= off by {
                    if k > mid {
                        lemma_blen_take_strict(cs@, mid as int, k);
                        assert(offs@[k] as int == blen(cs@.take(k)));
                        assert(offs@[mid as int] as int == blen(cs@.take(mid as int)));
                    }
                }
            }
            hi = mid;
        }
    }
    if lo < offs.len() && offs[lo] == off as usize {
        proof {
            let k = lo as int;
            assert(blen(cs@.take(k)) == off);
            assert forall|j: int| 0 <= j <= cs@.len() && blen(cs@.take(j)) == off implies j == k by {
                if j < k {
                    lemma_blen_take_strict(cs@, j, k);
                } else if j > k {
                    lemma_blen_take_strict(cs@, k, j);
                }
            }
        }
        Some(lo)
    } else {
        proof {
            assert forall|j: int| 0 <= j <= cs@.len() implies blen(#[trigger] cs@.take(j)) != off by {
                assert(offs@[j] as int == blen(cs@.take(j)));
                if j >= lo as int {
                    if j > lo as int {
                        lemma_blen_take_strict(cs@, lo as int, j);
                        assert(offs@[lo as int] as int == blen(cs@.take(lo as int)));
                    }
                }
            }
        }
        None
    }
}

// --- JSDoc comments ---

/// A block comment is well formed in the text: it starts and ends between
/// characters, ends with `*/`, and if it opens with `/**` it is longer than `/**/`.
pub open spec fn comment_ok(cs: Seq<char>, c: TsComment) -> bool {
    c.is_block ==> {
        &&& char_index(cs, c.start as int) is Some
        &&& char_index(cs, c.end as int) is Some
        &&& char_index(cs, c.start as int)->Some_0 <= char_index(cs, c.end as int)->Some_0
        &&& ends_with(span_chars(cs, c.start as int, c.end as int), "*/"@)
        &&& starts_with(span_chars(cs, c.start as int, c.end as int), "/**"@) ==> span_chars(
            cs,
            c.start as int,
            c.end as int,
        ).len() >= 5
    }
}

/// Every comment is well formed in the text.
pub open spec fn comments_ok(cs: Seq<char>, comments: Seq<TsComment>) -> bool {
    forall|i: int| 0 <= i < comments.len() ==> comment_ok(cs, #[trigger] comments[i])
}

/// A byte offset at which a character starts or the text ends.
pub open spec fn at_boundary(cs: Seq<char>, d: int) -> bool {
    char_index(cs, d) is Some
}

/// A comment that may document a declaration starting at byte `d`: a block
/// comment ending before it, with only whitespace in between, that opens with `/**`.
pub open spec fn jsdoc_candidate(cs: Seq<char>, c: TsComment, d: int) -> bool {
    &&& c.is_block
    &&& (c.end as int) < d
    &&& trim(span_chars(cs, c.end as int, d)).len() == 0
    &&& starts_with(span_chars(cs, c.start as int, c.end as int), "/**"@)
}

/// The candidate that ends last; of two ending together, the first.
pub open spec fn best_jsdoc(cs: Seq<char>, comments: Seq<TsComment>, d: int) -> Option<TsComment>
    decreases comments.len(),
{
    if comments.len() == 0 {
        None
    } else {
        let b = best_jsdoc(cs, comments.drop_last(), d);
        let c = comments.last();
        if jsdoc_candidate(cs, c, d) && (b is None || c.end > b->Some_0.end) {
            Some(c)
        } else {
            b
        }
    }
}

/// A line of a JSDoc comment, trimmed, without its leading `* ` or `*`.
pub open spec fn clean_line(l: Seq<char>) -> Seq<char> {
    let t = trim(l);
    if starts_with(t, "* "@) {
        t.skip(2)
    } else if starts_with(t, "*"@) {
        t.skip(1)
    } else {
        t
    }
}

/// Each line cleaned.
pub open spec fn clean_lines(ls: Seq<Seq<char>>) -> Seq<Seq<char>>
    decreases ls.len(),
{
    if ls.len() == 0 {
        Seq::empty()
    } else {
        clean_lines(ls.drop_last()).push(clean_line(ls.last()))
    }
}

/// The first non-empty line at or after `i`.
pub open spec fn first_nonempty(ls: Seq<Seq<char>>, i: int) -> Option<int>
    decreases ls.len() - i,
{
    if i < 0 || i >= ls.len() {
        None
    } else if ls[i].len() > 0 {
        Some(i)
    } else {
        first_nonempty(ls, i + 1)
    }
}

/// The last non-empty line.
pub open spec fn last_nonempty(ls: Seq<Seq<char>>) -> Option<int>
    decreases ls.len(),
{
    if ls.len() == 0 {
        None
    } else if ls.last().len() > 0 {
        Some(ls.len() - 1)
    } else {
        last_nonempty(ls.drop_last())
    }
}

/// The text of a JSDoc comment's content: its lines cleaned, from the first
/// non-empty one to the last, joined by newlines.
pub open spec fn jsdoc_body(raw: Seq<char>) -> Seq<char> {
    let ls = clean_lines(spec_lines(raw));
    let s = match first_nonempty(ls, 0) {
        Some(i) => i,
        None => 0,
    };
    let e = match last_nonempty(ls) {
        Some(j) => j + 1,
        None => s,
    };
    spec_join(ls.subrange(s, e), "\n"@)
}

/// The JSDoc text documenting a declaration that starts at byte `d`: that of
/// the candidate comment ending last, between its `/**` and `*/`.
pub open spec fn jsdoc_text(cs: Seq<char>, comments: Seq<TsComment>, d: int) -> Option<Seq<char>> {
    match best_jsdoc(cs, comments, d) {
        None => None,
        Some(c) => {
            let t = span_chars(cs, c.start as int, c.end as int);
            Some(jsdoc_body(t.subrange(3, t.len() - 2)))
        },
    }
}


/// A line of a JSDoc comment, cleaned.
fn clean_line_exec(l: &Vec<char>) -> (r: Vec<char>)
    ensures
        r@ == clean_line(l@),
{
    proof {
        reveal_strlit("* ");
        reveal_strlit("*");
    }
    let t = trim_exec(l);
    let star_space = chars_of("* ");
    let star = chars_of("*");
    if starts_with_exec(&t, &star_space) {
        slice_vec(&t, 2, t.len())
    } else if starts_with_exec(&t, &star) {
        slice_vec(&t, 1, t.len())
    } else {
        t
    }
}

/// Every line, cleaned.
fn clean_all(ls: &Vec<Vec<char>>) -> (r: Vec<Vec<char>>)
    ensures
        char_seqs(r@) == clean_lines(char_seqs(ls@)),
{
    let ghost all = char_seqs(ls@);
    let mut out: Vec<Vec<char>> = Vec::new();
    let mut i: usize = 0;
    while i < ls.len()
        invariant
            0 <= i <= ls@.len(),
            all == char_seqs(ls@),
            char_seqs(out@) == clean_lines(all.take(i as int)),
        decreases ls.len() - i,
    {
        assert(all.take(i + 1).drop_last() =~= all.take(i as int));
        let c = clean_line_exec(&ls[i]);
        let ghost before = out@;
        out.push(c);
        assert(char_seqs(out@) =~= char_seqs(before).push(c@));
        i += 1;
    }
    assert(all.take(all.len() as int) =~= all);
    out
}

/// The first non-empty line at or after `from`.
fn first_nonempty_exec(ls: &Vec<Vec<char>>, from: usize) -> (r: Option<usize>)
    ensures
        match r {
            Some(i) => first_nonempty(char_seqs(ls@), from as int) == Some(i as int),
            None => first_nonempty(char_seqs(ls@), from as int) is None,
        },
{
    let ghost all = char_seqs(ls@);
    let mut i = from;
    while i < ls.len()
        invariant
            from <= i,
            all == char_seqs(ls@),
            first_nonempty(all, from as int) == first_nonempty(all, i as int),
        decreases ls.len() - i,
    {
        assert(all[i as int] == ls@[i as int]@);
        if ls[i].len() > 0 {
            return Some(i);
        }
        i += 1;
    }
    None
}

/// The last non-empty line.
fn last_nonempty_exec(ls: &Vec<Vec<char>>) -> (r: Option<usize>)
    ensures
        match r {
            Some(i) => last_nonempty(char_seqs(ls@)) == Some(i as int),
            None => last_nonempty(char_seqs(ls@)) is None,
        },
{
    let ghost all = char_seqs(ls@);
    let mut i = ls.len();
    assert(all.take(all.len() as int) =~= all);
    while i > 0
        invariant
            i <= ls@.len(),
            all == char_seqs(ls@),
            last_nonempty(all) == last_nonempty(all.take(i as int)),
        decreases i,
    {
        assert(all.take(i as int).drop_last() =~= all.take(i - 1));
        assert(all.take(i as int).last() == ls@[i - 1]@);
        if ls[i - 1].len() > 0 {
            return Some(i - 1);
        }
        i -= 1;
    }
    None
}

/// Lines `s` to `e` joined by newlines.
fn join_lines(ls: &Vec<Vec<char>>, s: usize, e: usize) -> (r: String)
    requires
        s <= e <= ls@.len(),
    ensures
        r@ == spec_join(char_seqs(ls@).subrange(s as int, e as int), "\n"@),
{
    let ghost parts = char_seqs(ls@).subrange(s as int, e as int);
    let mut out = String::new();
    let mut i = s;
    while i < e
        invariant
            s <= i <= e <= ls@.len(),
            parts == char_seqs(ls@).subrange(s as int, e as int),
            out@ == spec_join(parts.take(i - s), "\n"@),
        decreases e - i,
    {
        assert(parts.take(i - s + 1).drop_last() =~= parts.take(i - s));
        assert(parts[i - s] == ls@[i as int]@);
        if i > s {
            out.append("\n");
        }
        let ghost before = out@;
        push_chars(&mut out, &ls[i], 0, ls[i].len());
        assert(ls@[i as int]@.subrange(0, ls@[i as int]@.len() as int) =~= ls@[i as int]@);
        proof {
            if i == s {
                assert(parts.take(1) =~= seq![parts[0]]);
            }
        }
        i += 1;
    }
    assert(parts.take(e - s) =~= parts);
    out
}

/// The text of a JSDoc comment's content.
fn jsdoc_body_exec(raw: &Vec<char>) -> (r: String)
    ensures
        r@ == jsdoc_body(raw@),
{
    let lines = lines_of(raw);
    let ls = clean_all(&lines);
    proof {
        lemma_nonempty_bounds(char_seqs(ls@));
    }
    let s = match first_nonempty_exec(&ls, 0) {
        Some(i) => i,
        None => 0,
    };
    let e = match last_nonempty_exec(&ls) {
        Some(j) => j + 1,
        None => s,
    };
    join_lines(&ls, s, e)
}

/// The first non-empty line comes no later than the last, and both lie within the lines.
proof fn lemma_nonempty_bounds(ls: Seq<Seq<char>>)
    ensures
        first_nonempty(ls, 0) matches Some(i) ==> 0 <= i < ls.len() && (last_nonempty(ls) matches Some(j) && i <= j < ls.len()),
        first_nonempty(ls, 0) is None ==> last_nonempty(ls) is None,
        last_nonempty(ls) matches Some(j) ==> 0 <= j < ls.len(),
{
    lemma_first_nonempty(ls, 0);
    lemma_last_nonempty(ls);
}

proof fn lemma_first_nonempty(ls: Seq<Seq<char>>, i: int)
    requires
        0 <= i,
    ensures
        first_nonempty(ls, i) matches Some(k) ==> i <= k < ls.len() && ls[k].len() > 0,
        first_nonempty(ls, i) is None ==> forall|k: int| i <= k < ls.len() ==> ls[k].len() == 0,
    decreases ls.len() - i,
{
    if i < ls.len() && ls[i].len() == 0 {
        lemma_first_nonempty(ls, i + 1);
    }
}

proof fn lemma_last_nonempty(ls: Seq<Seq<char>>)
    ensures
        last_nonempty(ls) matches Some(k) ==> 0 <= k < ls.len() && ls[k].len() > 0 && forall|j: int|
            k < j < ls.len() ==> ls[j].len() == 0,
        last_nonempty(ls) is None ==> forall|k: int| 0 <= k < ls.len() ==> ls[k].len() == 0,
    decreases ls.len(),
{
    if ls.len() > 0 {
        lemma_last_nonempty(ls.drop_last());
        if ls.last().len() == 0 {
            assert forall|k: int| 0 <= k < ls.len() - 1 implies ls[k] == ls.drop_last()[k] by {}
        }
    }
}


/// The characters between two byte offsets at which characters start.
fn span_exec(cs: &Vec<char>, offs: &Vec<usize>, a: u32, b: u32) -> (r: Vec<char>)
    requires
        offs@.len() == cs@.len() + 1,
        forall|k: int| 0 <= k < offs@.len() ==> offs@[k] as int == blen(#[trigger] cs@.take(k)),
        at_boundary(cs@, a as int),
        at_boundary(cs@, b as int),
        char_index(cs@, a as int)->Some_0 <= char_index(cs@, b as int)->Some_0,
    ensures
        r@ == span_chars(cs@, a as int, b as int),
{
    let i = char_index_exec(offs, Ghost(cs@), a);
    let j = char_index_exec(offs, Ghost(cs@), b);
    match (i, j) {
        (Some(i), Some(j)) => slice_vec(cs, i, j),
        _ => Vec::new(),
    }
}

/// Whether a comment may document the declaration starting at byte `d`.
fn is_jsdoc_candidate(cs: &Vec<char>, offs: &Vec<usize>, c: &TsComment, d: u32) -> (r: bool)
    requires
        offs@.len() == cs@.len() + 1,
        forall|k: int| 0 <= k < offs@.len() ==> offs@[k] as int == blen(#[trigger] cs@.take(k)),
        comment_ok(cs@, *c),
        at_boundary(cs@, d as int),
    ensures
        r == jsdoc_candidate(cs@, *c, d as int),
{
    if !c.is_block || c.end >= d {
        return false;
    }
    proof {
        lemma_char_index_order(cs@, c.end as int, d as int);
    }
    let between = span_exec(cs, offs, c.end, d);
    if trim_exec(&between).len() > 0 {
        return false;
    }
    let text = span_exec(cs, offs, c.start, c.end);
    proof {
        reveal_strlit("/**");
    }
    starts_with_exec(&text, &chars_of("/**"))
}

/// Character indices follow byte offsets.
proof fn lemma_char_index_order(cs: Seq<char>, a: int, b: int)
    requires
        at_boundary(cs, a),
        at_boundary(cs, b),
        a <= b,
    ensures
        char_index(cs, a)->Some_0 <= char_index(cs, b)->Some_0,
{
    let i = char_index(cs, a)->Some_0;
    let j = char_index(cs, b)->Some_0;
    assert(0 <= i <= cs.len() && blen(cs.take(i)) == a);
    assert(0 <= j <= cs.len() && blen(cs.take(j)) == b);
    if j < i {
        lemma_blen_take_strict(cs, j, i);
    }
}

/// The position of the comment that documents the declaration starting at byte `d`.
fn best_jsdoc_exec(cs: &Vec<char>, offs: &Vec<usize>, comments: &Vec<TsComment>, d: u32) -> (r: Option<usize>)
    requires
        offs@.len() == cs@.len() + 1,
        forall|k: int| 0 <= k < offs@.len() ==> offs@[k] as int == blen(#[trigger] cs@.take(k)),
        comments_ok(cs@, comments@),
        at_boundary(cs@, d as int),
    ensures
        match r {
            Some(i) => i < comments@.len() && best_jsdoc(cs@, comments@, d as int) == Some(comments@[i as int]),
            None => best_jsdoc(cs@, comments@, d as int) is None,
        },
{
    let mut best: Option<usize> = None;
    let mut i: usize = 0;
    while i < comments.len()
        invariant
            0 <= i <= comments@.len(),
            offs@.len() == cs@.len() + 1,
            forall|k: int| 0 <= k < offs@.len() ==> offs@[k] as int == blen(#[trigger] cs@.take(k)),
            comments_ok(cs@, comments@),
            at_boundary(cs@, d as int),
            match best {
                Some(b) => b < i && best_jsdoc(cs@, comments@.take(i as int), d as int) == Some(comments@[b as int]),
                None => best_jsdoc(cs@, comments@.take(i as int), d as int) is None,
            },
        decreases comments.len() - i,
    {
        assert(comments@.take(i + 1).drop_last() =~= comments@.take(i as int));
        assert(comments@.take(i + 1).last() == comments@[i as int]);
        let c = &comments[i];
        assert(comment_ok(cs@, comments@[i as int]));
        if is_jsdoc_candidate(cs, offs, c, d) {
            let better = match best {
                None => true,
                Some(b) => c.end > comments[b].end,
            };
            if better {
                best = Some(i);
            }
        }
        i += 1;
    }
    assert(comments@.take(comments@.len() as int) =~= comments@);
    best
}

/// The comment chosen is a candidate.
proof fn lemma_best_is_candidate(cs: Seq<char>, comments: Seq<TsComment>, d: int)
    ensures
        best_jsdoc(cs, comments, d) matches Some(c) ==> jsdoc_candidate(cs, c, d),
    decreases comments.len(),
{
    if comments.len() > 0 {
        lemma_best_is_candidate(cs, comments.drop_last(), d);
    }
}

/// The JSDoc text documenting the declaration starting at byte `d`.
fn jsdoc_exec(cs: &Vec<char>, offs: &Vec<usize>, comments: &Vec<TsComment>, d: u32) -> (r: Option<String>)
    requires
        offs@.len() == cs@.len() + 1,
        forall|k: int| 0 <= k < offs@.len() ==> offs@[k] as int == blen(#[trigger] cs@.take(k)),
        comments_ok(cs@, comments@),
        at_boundary(cs@, d as int),
    ensures
        match r {
            Some(t) => jsdoc_text(cs@, comments@, d as int) == Some(t@),
            None => jsdoc_text(cs@, comments@, d as int) is None,
        },
{
    match best_jsdoc_exec(cs, offs, comments, d) {
        None => None,
        Some(b) => {
            let c = &comments[b];
            assert(comment_ok(cs@, comments@[b as int]));
            proof {
                lemma_best_is_candidate(cs@, comments@, d as int);
            }
            let t = span_exec(cs, offs, c.start, c.end);
            proof {
                reveal_strlit("/**");
            }
            let raw = slice_vec(&t, 3, t.len() - 2);
            Some(jsdoc_body_exec(&raw))
        },
    }
}

/// Extract and clean the JSDoc comment (`/** ... */`) immediately preceding a
/// declaration that starts at byte `decl_start` of `source`: of the block
/// comments that end before it with only whitespace in between and open with
/// `/**`, the one ending last; its lines trimmed and stripped of a leading
/// `* ` or `*`, blank lines at either end dropped, joined by newlines.
pub fn extract_jsdoc(comments: &Vec<TsComment>, decl_start: u32, source: &str) -> (r: Option<String>)
    requires
        source@.len() * 4 < usize::MAX,
        comments_ok(source@, comments@),
        at_boundary(source@, decl_start as int),
    ensures
        match r {
            Some(t) => jsdoc_text(source@, comments@, decl_start as int) == Some(t@),
            None => jsdoc_text(source@, comments@, decl_start as int) is None,
        },
{
    let cs = chars_of(source);
    let offs = char_offsets(&cs);
    jsdoc_exec(&cs, &offs, comments, decl_start)
}


// --- Quads of a file ---

/// What the quads of one file depend on besides its statements: its path
/// within the project, its text, its line starts and its comments.
pub struct TsSrc {
    pub rel: Seq<char>,
    pub text: Seq<char>,
    pub table: Seq<u32>,
    pub comments: Seq<TsComment>,
}

/// The graph of TypeScript code.
pub open spec fn ts_graph() -> GraphModel {
    GraphModel::Named(spec_code_ns("typescript"@))
}

/// A quad of the TypeScript graph.
pub open spec fn tq(s: Seq<char>, p: Seq<char>, o: TermModel) -> QuadModel {
    code_quad(s, p, o, ts_graph())
}

/// A type quad of the TypeScript graph.
pub open spec fn ttype(s: Seq<char>, class: Seq<char>) -> QuadModel {
    code_type(s, class, ts_graph())
}

/// The visibility of a declaration.
pub open spec fn vis_text(exported: bool) -> Seq<char> {
    if exported { "export"@ } else { "private"@ }
}

/// The line of a byte offset, as an integer literal.
pub open spec fn line_at(src: TsSrc, off: u32) -> TermModel {
    int_lit(count_le(src.table, off as int))
}

/// The IRI of the module.
pub open spec fn module_of(src: TsSrc) -> Seq<char> {
    spec_code_ns(src.rel)
}

/// The IRI of a top-level declaration called `name`.
pub open spec fn item_uri(src: TsSrc, name: Seq<char>) -> Seq<char> {
    spec_code_ns(src.rel + "/"@ + name)
}

/// A `docstring` quad when there is a docstring.
pub open spec fn doc_quads(u: Seq<char>, doc: Option<Seq<char>>) -> Seq<QuadModel> {
    match doc {
        Some(d) => seq![tq(u, "docstring"@, lit(d))],
        None => Seq::empty(),
    }
}

/// One `parameter` quad for each named parameter.
pub open spec fn param_quads(u: Seq<char>, ps: Seq<Option<String>>) -> Seq<QuadModel>
    decreases ps.len(),
{
    if ps.len() == 0 {
        Seq::empty()
    } else {
        param_quads(u, ps.drop_last()) + match ps.last() {
            Some(n) => seq![tq(u, "parameter"@, lit(n@))],
            None => Seq::empty(),
        }
    }
}

/// A `returnType` quad when the return type is written.
pub open spec fn ret_quads(u: Seq<char>, rt: Option<TsType>) -> Seq<QuadModel> {
    match rt {
        Some(t) => seq![tq(u, "returnType"@, lit(type_text(t)))],
        None => Seq::empty(),
    }
}

/// The quads naming a module-level function and placing it.
pub open spec fn fn_head(src: TsSrc, name: Seq<char>, exported: bool, f: TsFunc) -> Seq<QuadModel> {
    let fu = item_uri(src, name);
    let m = module_of(src);
    seq![
        ttype(fu, "Function"@),
        tq(fu, "name"@, lit(name)),
        tq(fu, "definedIn"@, TermModel::Iri(m)),
        tq(m, "hasFunction"@, TermModel::Iri(fu)),
        tq(fu, "visibility"@, lit(vis_text(exported))),
        tq(fu, "startLine"@, line_at(src, f.start)),
        tq(fu, "endLine"@, line_at(src, f.end)),
    ] + param_quads(fu, f.params@) + ret_quads(fu, f.return_type)
}

/// The quads of a function declaration; none when it has no name.
pub open spec fn function_quads(src: TsSrc, f: TsFunc, exported: bool) -> Seq<QuadModel> {
    match f.name {
        None => Seq::empty(),
        Some(n) => fn_head(src, n@, exported, f) + doc_quads(
            item_uri(src, n@),
            jsdoc_text(src.text, src.comments, f.start as int),
        ),
    }
}

/// The quads of a method of class `cls` (IRI `cu`).
pub open spec fn method_quads(src: TsSrc, cls: Seq<char>, cu: Seq<char>, name: Seq<char>, f: TsFunc) -> Seq<QuadModel> {
    let mu = spec_code_ns(src.rel + "/"@ + cls + "/"@ + name);
    seq![
        ttype(mu, "Function"@),
        tq(mu, "name"@, lit(name)),
        tq(mu, "definedIn"@, TermModel::Iri(module_of(src))),
        tq(cu, "hasFunction"@, TermModel::Iri(mu)),
        tq(mu, "startLine"@, line_at(src, f.start)),
        tq(mu, "endLine"@, line_at(src, f.end)),
    ] + param_quads(mu, f.params@) + ret_quads(mu, f.return_type)
}

/// The quads of the members of class `cls`: methods and fields with a name.
pub open spec fn members_quads(src: TsSrc, cls: Seq<char>, cu: Seq<char>, ms: Seq<TsClassMember>) -> Seq<QuadModel>
    decreases ms.len(),
{
    if ms.len() == 0 {
        Seq::empty()
    } else {
        members_quads(src, cls, cu, ms.drop_last()) + match ms.last() {
            TsClassMember::Method(Some(n), f) => method_quads(src, cls, cu, n@, f),
            TsClassMember::Property(Some(n)) => seq![tq(cu, "hasField"@, lit(n@))],
            _ => Seq::empty(),
        }
    }
}

/// One literal quad per text.
pub open spec fn str_lits(u: Seq<char>, p: Seq<char>, xs: Seq<String>) -> Seq<QuadModel>
    decreases xs.len(),
{
    if xs.len() == 0 {
        Seq::empty()
    } else {
        str_lits(u, p, xs.drop_last()) + seq![tq(u, p, lit(xs.last()@))]
    }
}

/// One literal quad per present text.
pub open spec fn opt_lits(u: Seq<char>, p: Seq<char>, xs: Seq<Option<String>>) -> Seq<QuadModel>
    decreases xs.len(),
{
    if xs.len() == 0 {
        Seq::empty()
    } else {
        opt_lits(u, p, xs.drop_last()) + match xs.last() {
            Some(x) => seq![tq(u, p, lit(x@))],
            None => Seq::empty(),
        }
    }
}

/// One `extends` quad per extended name.
pub open spec fn extends_quads(u: Seq<char>, ns: Seq<TsName>) -> Seq<QuadModel>
    decreases ns.len(),
{
    if ns.len() == 0 {
        Seq::empty()
    } else {
        extends_quads(u, ns.drop_last()) + seq![tq(u, "extends"@, lit(name_text(ns.last())))]
    }
}

/// The quads naming a declaration and placing it: its class, name, module,
/// visibility and lines.
pub open spec fn decl_head(src: TsSrc, class: Seq<char>, name: Seq<char>, exported: bool, start: u32, end: u32) -> Seq<QuadModel> {
    let u = item_uri(src, name);
    seq![
        ttype(u, class),
        tq(u, "name"@, lit(name)),
        tq(u, "definedIn"@, TermModel::Iri(module_of(src))),
        tq(u, "visibility"@, lit(vis_text(exported))),
        tq(u, "startLine"@, line_at(src, start)),
        tq(u, "endLine"@, line_at(src, end)),
    ]
}

/// The quads of a class declaration; none when it has no name.
pub open spec fn class_quads(src: TsSrc, c: TsClass, exported: bool) -> Seq<QuadModel> {
    match c.name {
        None => Seq::empty(),
        Some(n) => {
            let cu = item_uri(src, n@);
            decl_head(src, "Class"@, n@, exported, c.start, c.end) + str_lits(cu, "implements"@, c.implements@)
                + match c.super_class {
                Some(sc) => seq![tq(cu, "extends"@, lit(name_text(sc)))],
                None => Seq::empty(),
            } + members_quads(src, n@, cu, c.members@) + doc_quads(
                cu,
                jsdoc_text(src.text, src.comments, c.start as int),
            )
        },
    }
}

/// The quads of the members of an interface: methods and properties with a name.
pub open spec fn sigs_quads(u: Seq<char>, ss: Seq<TsSignature>) -> Seq<QuadModel>
    decreases ss.len(),
{
    if ss.len() == 0 {
        Seq::empty()
    } else {
        sigs_quads(u, ss.drop_last()) + match ss.last() {
            TsSignature::Method(Some(n)) => seq![tq(u, "hasMethod"@, lit(n@))],
            TsSignature::Property(Some(n)) => seq![tq(u, "hasField"@, lit(n@))],
            _ => Seq::empty(),
        }
    }
}

/// The quads of an interface, as a trait.
pub open spec fn interface_quads(src: TsSrc, i: TsInterface, exported: bool) -> Seq<QuadModel> {
    let u = item_uri(src, i.name@);
    decl_head(src, "Trait"@, i.name@, exported, i.start, i.end) + extends_quads(u, i.extends@)
        + sigs_quads(u, i.members@) + doc_quads(u, jsdoc_text(src.text, src.comments, i.start as int))
}

/// The quads of a type alias, as a class of kind `type_alias`.
pub open spec fn alias_quads(src: TsSrc, a: TsTypeAlias, exported: bool) -> Seq<QuadModel> {
    let u = item_uri(src, a.name@);
    seq![
        ttype(u, "Class"@),
        tq(u, "name"@, lit(a.name@)),
        tq(u, "kind"@, lit("type_alias"@)),
        tq(u, "definedIn"@, TermModel::Iri(module_of(src))),
        tq(u, "visibility"@, lit(vis_text(exported))),
        tq(u, "startLine"@, line_at(src, a.start)),
        tq(u, "endLine"@, line_at(src, a.end)),
    ] + doc_quads(u, jsdoc_text(src.text, src.comments, a.start as int))
}

/// The quads of an enum.
pub open spec fn enum_quads(src: TsSrc, e: TsEnum, exported: bool) -> Seq<QuadModel> {
    let u = item_uri(src, e.name@);
    decl_head(src, "Enum"@, e.name@, exported, e.start, e.end) + opt_lits(u, "hasVariant"@, e.members@)
        + doc_quads(u, jsdoc_text(src.text, src.comments, e.start as int))
}

/// `s` with each `/` replaced by `_`.
pub open spec fn slashes_to_underscores(s: Seq<char>) -> Seq<char> {
    Seq::new(s.len(), |i: int| if s[i] == '/' { '_' } else { s[i] })
}

/// The quads of an import of a module path.
pub open spec fn import_quads(src: TsSrc, path: Seq<char>) -> Seq<QuadModel> {
    let iu = spec_code_ns("import/"@ + slashes_to_underscores(path));
    seq![
        ttype(iu, "Import"@),
        tq(iu, "importPath"@, lit(path)),
        tq(module_of(src), "hasImport"@, TermModel::Iri(iu)),
    ]
}

/// The quads of one variable: a function when it is initialized with an arrow
/// function (documented by the comment before the declaration) or a function
/// expression (undocumented).
pub open spec fn declarator_quads(src: TsSrc, d: TsDeclarator, exported: bool, decl_start: u32) -> Seq<QuadModel> {
    match d.name {
        None => Seq::empty(),
        Some(n) => match d.init {
            Some(TsInit::Arrow(f)) => fn_head(src, n@, exported, f) + doc_quads(
                item_uri(src, n@),
                jsdoc_text(src.text, src.comments, decl_start as int),
            ),
            Some(TsInit::Function(f)) => fn_head(src, n@, exported, f),
            _ => Seq::empty(),
        },
    }
}

/// The quads of the variables of a declaration.
pub open spec fn declarators_quads(src: TsSrc, ds: Seq<TsDeclarator>, exported: bool, decl_start: u32) -> Seq<QuadModel>
    decreases ds.len(),
{
    if ds.len() == 0 {
        Seq::empty()
    } else {
        declarators_quads(src, ds.drop_last(), exported, decl_start) + declarator_quads(
            src,
            ds.last(),
            exported,
            decl_start,
        )
    }
}

/// The quads of a declaration.
pub open spec fn decl_quads(src: TsSrc, d: TsDecl, exported: bool) -> Seq<QuadModel> {
    match d {
        TsDecl::Function(f) => function_quads(src, f, exported),
        TsDecl::Class(c) => class_quads(src, c, exported),
        TsDecl::TypeAlias(a) => alias_quads(src, a, exported),
        TsDecl::Interface(i) => interface_quads(src, i, exported),
        TsDecl::Enum(e) => enum_quads(src, e, exported),
        TsDecl::Var(v) => declarators_quads(src, v.declarators@, exported, v.start),
        TsDecl::Other => Seq::empty(),
    }
}

/// The quads of a top-level statement.
pub open spec fn stmt_quads(src: TsSrc, st: TsStmt) -> Seq<QuadModel> {
    match st {
        TsStmt::Decl(d, exported) => decl_quads(src, d, exported),
        TsStmt::Import(p) => import_quads(src, p@),
        TsStmt::Other => Seq::empty(),
    }
}

/// The quads of the statements, in order.
pub open spec fn stmts_quads(src: TsSrc, sts: Seq<TsStmt>) -> Seq<QuadModel>
    decreases sts.len(),
{
    if sts.len() == 0 {
        Seq::empty()
    } else {
        stmts_quads(src, sts.drop_last()) + stmt_quads(src, sts.last())
    }
}

/// The quads of a source file at `path`: the module, then those of its statements.
pub open spec fn ts_file_quads(path: Seq<char>, src: TsSrc, sts: Seq<TsStmt>) -> Seq<QuadModel> {
    let m = module_of(src);
    seq![
        ttype(m, "Module"@),
        tq(m, "filePath"@, lit(path)),
        tq(m, "relativePath"@, lit(src.rel)),
        tq(m, "language"@, lit("typescript"@)),
    ] + stmts_quads(src, sts)
}

/// A named variable initialized with an arrow function.
pub open spec fn declares_arrow(d: TsDeclarator) -> bool {
    d.name is Some && (d.init matches Some(TsInit::Arrow(_)))
}

/// Every declaration that may carry a JSDoc comment starts between characters.
pub open spec fn decl_ok(cs: Seq<char>, d: TsDecl) -> bool {
    match d {
        TsDecl::Function(f) => f.name is Some ==> at_boundary(cs, f.start as int),
        TsDecl::Class(c) => c.name is Some ==> at_boundary(cs, c.start as int),
        TsDecl::TypeAlias(a) => at_boundary(cs, a.start as int),
        TsDecl::Interface(i) => at_boundary(cs, i.start as int),
        TsDecl::Enum(e) => at_boundary(cs, e.start as int),
        TsDecl::Var(v) => forall|j: int| 0 <= j < v.declarators@.len() ==> declares_arrow(#[trigger] v.declarators@[j])
            ==> at_boundary(cs, v.start as int),
        TsDecl::Other => true,
    }
}

/// Every statement's declaration that may carry a JSDoc comment starts between characters.
pub open spec fn stmts_ok(cs: Seq<char>, sts: Seq<TsStmt>) -> bool {
    forall|i: int| 0 <= i < sts.len() ==> match #[trigger] sts[i] {
        TsStmt::Decl(d, _) => decl_ok(cs, d),
        _ => true,
    }
}


/// What the quads of one file are built from.
struct TsCtx<'a> {
    rel: &'a str,
    module: String,
    cs: Vec<char>,
    offs: Vec<usize>,
    table: Vec<u32>,
    comments: &'a Vec<TsComment>,
}

impl<'a> TsCtx<'a> {
    spec fn src(&self) -> TsSrc {
        TsSrc { rel: self.rel@, text: self.cs@, table: self.table@, comments: self.comments@ }
    }

    spec fn wf(&self) -> bool {
        &&& self.module@ == spec_code_ns(self.rel@)
        &&& self.offs@.len() == self.cs@.len() + 1
        &&& forall|k: int| 0 <= k < self.offs@.len() ==> self.offs@[k] as int == blen(#[trigger] self.cs@.take(k))
        &&& strictly_increasing(self.table@)
        &&& self.table@.len() <= u32::MAX
        &&& comments_ok(self.cs@, self.comments@)
    }
}

/// The graph of TypeScript code.
fn ts_graph_exec() -> (r: GraphName)
    ensures
        r@ == ts_graph(),
{
    GraphName::Named(code_ns("typescript"))
}

/// A quad of the TypeScript graph.
fn tquad(s: &str, p: &str, o: Term) -> (r: Quad)
    ensures
        r@ == tq(s@, p@, o@),
{
    quad(s, p, o, ts_graph_exec())
}

/// A type quad of the TypeScript graph.
fn ttype_quad(s: &str, class: &str) -> (r: Quad)
    ensures
        r@ == ttype(s@, class@),
{
    quad_type(s, class, ts_graph_exec())
}

/// The visibility of a declaration.
fn vis_str(exported: bool) -> (r: &'static str)
    ensures
        r@ == vis_text(exported),
{
    if exported { "export" } else { "private" }
}

/// The line of a byte offset, as an integer literal.
fn line_term(ctx: &TsCtx, off: u32) -> (r: Term)
    requires
        ctx.wf(),
    ensures
        r@ == line_at(ctx.src(), off),
{
    let line = offset_to_line(&ctx.table, off);
    proof {
        lemma_count_le_bound(ctx.table@, off as int);
    }
    integer_literal(line as i64)
}

/// The IRI of a top-level declaration called `name`.
fn item_node(ctx: &TsCtx, name: &str) -> (r: String)
    ensures
        r@ == item_uri(ctx.src(), name@),
{
    let mut local = to_owned_string(ctx.rel);
    local.append("/");
    local.append(name);
    code_ns(local.as_str())
}

/// Appends a `docstring` quad for the JSDoc of the declaration starting at byte `d`, if any.
fn emit_doc(out: &mut Vec<Quad>, ctx: &TsCtx, u: &str, d: u32)
    requires
        ctx.wf(),
        at_boundary(ctx.cs@, d as int),
    ensures
        quads_model(final(out)@) == quads_model(old(out)@) + doc_quads(u@, jsdoc_text(ctx.cs@, ctx.comments@, d as int)),
{
    let ghost start = quads_model(out@);
    let doc = jsdoc_exec(&ctx.cs, &ctx.offs, ctx.comments, d);
    match doc {
        Some(t) => emit(out, tquad(u, "docstring", string_literal(t.as_str()))),
        None => {},
    }
    assert(quads_model(out@) =~= start + doc_quads(u@, jsdoc_text(ctx.cs@, ctx.comments@, d as int)));
}

/// Appends one `parameter` quad for each named parameter.
fn emit_params(out: &mut Vec<Quad>, u: &str, ps: &Vec<Option<String>>)
    ensures
        quads_model(final(out)@) == quads_model(old(out)@) + param_quads(u@, ps@),
{
    let ghost start = quads_model(out@);
    let mut i: usize = 0;
    while i < ps.len()
        invariant
            0 <= i <= ps@.len(),
            quads_model(out@) == start + param_quads(u@, ps@.take(i as int)),
        decreases ps.len() - i,
    {
        assert(ps@.take(i + 1).drop_last() =~= ps@.take(i as int));
        match &ps[i] {
            Some(n) => emit(out, tquad(u, "parameter", string_literal(n.as_str()))),
            None => {},
        }
        assert(quads_model(out@) =~= start + param_quads(u@, ps@.take(i + 1)));
        i += 1;
    }
    assert(ps@.take(ps@.len() as int) =~= ps@);
}

/// Appends a `returnType` quad when the return type is written.
fn emit_ret(out: &mut Vec<Quad>, u: &str, rt: &Option<TsType>)
    ensures
        quads_model(final(out)@) == quads_model(old(out)@) + ret_quads(u@, *rt),
{
    let ghost start = quads_model(out@);
    match rt {
        Some(t) => {
            let text = format_ts_type(t);
            emit(out, tquad(u, "returnType", string_literal(text.as_str())));
        },
        None => {},
    }
    assert(quads_model(out@) =~= start + ret_quads(u@, *rt));
}

/// Appends the quads naming a module-level function and placing it; returns its IRI.
fn emit_fn_head(out: &mut Vec<Quad>, ctx: &TsCtx, name: &str, exported: bool, f: &TsFunc) -> (fu: String)
    requires
        ctx.wf(),
    ensures
        fu@ == item_uri(ctx.src(), name@),
        quads_model(final(out)@) == quads_model(old(out)@) + fn_head(ctx.src(), name@, exported, *f),
{
    let ghost start = quads_model(out@);
    let fu = item_node(ctx, name);
    let m = ctx.module.as_str();
    emit(out, ttype_quad(fu.as_str(), "Function"));
    emit(out, tquad(fu.as_str(), "name", string_literal(name)));
    emit(out, tquad(fu.as_str(), "definedIn", Term::Iri(to_owned_string(m))));
    emit(out, tquad(m, "hasFunction", Term::Iri(clone_string(&fu))));
    emit(out, tquad(fu.as_str(), "visibility", string_literal(vis_str(exported))));
    emit(out, tquad(fu.as_str(), "startLine", line_term(ctx, f.start)));
    emit(out, tquad(fu.as_str(), "endLine", line_term(ctx, f.end)));
    let ghost mid = quads_model(out@);
    emit_params(out, fu.as_str(), &f.params);
    emit_ret(out, fu.as_str(), &f.return_type);
    assert(quads_model(out@) =~= start + fn_head(ctx.src(), name@, exported, *f));
    fu
}

/// Appends the quads of a function declaration.
fn emit_function(out: &mut Vec<Quad>, ctx: &TsCtx, f: &TsFunc, exported: bool)
    requires
        ctx.wf(),
        f.name is Some ==> at_boundary(ctx.cs@, f.start as int),
    ensures
        quads_model(final(out)@) == quads_model(old(out)@) + function_quads(ctx.src(), *f, exported),
{
    let ghost start = quads_model(out@);
    match &f.name {
        None => {},
        Some(n) => {
            let fu = emit_fn_head(out, ctx, n.as_str(), exported, f);
            emit_doc(out, ctx, fu.as_str(), f.start);
        },
    }
    assert(quads_model(out@) =~= start + function_quads(ctx.src(), *f, exported));
}

/// Appends the quads of a method of class `cls` (IRI `cu`).
fn emit_method(out: &mut Vec<Quad>, ctx: &TsCtx, cls: &str, cu: &str, name: &str, f: &TsFunc)
    requires
        ctx.wf(),
    ensures
        quads_model(final(out)@) == quads_model(old(out)@) + method_quads(ctx.src(), cls@, cu@, name@, *f),
{
    let ghost start = quads_model(out@);
    let mut local = to_owned_string(ctx.rel);
    local.append("/");
    local.append(cls);
    local.append("/");
    local.append(name);
    let mu = code_ns(local.as_str());
    emit(out, ttype_quad(mu.as_str(), "Function"));
    emit(out, tquad(mu.as_str(), "name", string_literal(name)));
    emit(out, tquad(mu.as_str(), "definedIn", Term::Iri(clone_string(&ctx.module))));
    emit(out, tquad(cu, "hasFunction", Term::Iri(clone_string(&mu))));
    emit(out, tquad(mu.as_str(), "startLine", line_term(ctx, f.start)));
    emit(out, tquad(mu.as_str(), "endLine", line_term(ctx, f.end)));
    emit_params(out, mu.as_str(), &f.params);
    emit_ret(out, mu.as_str(), &f.return_type);
    assert(quads_model(out@) =~= start + method_quads(ctx.src(), cls@, cu@, name@, *f));
}

/// Appends the quads of the members of class `cls`.
fn emit_members(out: &mut Vec<Quad>, ctx: &TsCtx, cls: &str, cu: &str, ms: &Vec<TsClassMember>)
    requires
        ctx.wf(),
    ensures
        quads_model(final(out)@) == quads_model(old(out)@) + members_quads(ctx.src(), cls@, cu@, ms@),
{
    let ghost start = quads_model(out@);
    let mut i: usize = 0;
    while i < ms.len()
        invariant
            0 <= i <= ms@.len(),
            ctx.wf(),
            quads_model(out@) == start + members_quads(ctx.src(), cls@, cu@, ms@.take(i as int)),
        decreases ms.len() - i,
    {
        assert(ms@.take(i + 1).drop_last() =~= ms@.take(i as int));
        let ghost before = quads_model(out@);
        match &ms[i] {
            TsClassMember::Method(Some(n), f) => emit_method(out, ctx, cls, cu, n.as_str(), f),
            TsClassMember::Property(Some(n)) => emit(out, tquad(cu, "hasField", string_literal(n.as_str()))),
            _ => {},
        }
        assert(quads_model(out@) =~= start + members_quads(ctx.src(), cls@, cu@, ms@.take(i + 1)));
        i += 1;
    }
    assert(ms@.take(ms@.len() as int) =~= ms@);
}

/// Appends one literal quad per text.
fn emit_str_lits(out: &mut Vec<Quad>, u: &str, p: &str, xs: &Vec<String>)
    ensures
        quads_model(final(out)@) == quads_model(old(out)@) + str_lits(u@, p@, xs@),
{
    let ghost start = quads_model(out@);
    let mut i: usize = 0;
    while i < xs.len()
        invariant
            0 <= i <= xs@.len(),
            quads_model(out@) == start + str_lits(u@, p@, xs@.take(i as int)),
        decreases xs.len() - i,
    {
        assert(xs@.take(i + 1).drop_last() =~= xs@.take(i as int));
        emit(out, tquad(u, p, string_literal(xs[i].as_str())));
        assert(quads_model(out@) =~= start + str_lits(u@, p@, xs@.take(i + 1)));
        i += 1;
    }
    assert(xs@.take(xs@.len() as int) =~= xs@);
}

/// Appends one literal quad per present text.
fn emit_opt_lits(out: &mut Vec<Quad>, u: &str, p: &str, xs: &Vec<Option<String>>)
    ensures
        quads_model(final(out)@) == quads_model(old(out)@) + opt_lits(u@, p@, xs@),
{
    let ghost start = quads_model(out@);
    let mut i: usize = 0;
    while i < xs.len()
        invariant
            0 <= i <= xs@.len(),
            quads_model(out@) == start + opt_lits(u@, p@, xs@.take(i as int)),
        decreases xs.len() - i,
    {
        assert(xs@.take(i + 1).drop_last() =~= xs@.take(i as int));
        match &xs[i] {
            Some(x) => emit(out, tquad(u, p, string_literal(x.as_str()))),
            None => {},
        }
        assert(quads_model(out@) =~= start + opt_lits(u@, p@, xs@.take(i + 1)));
        i += 1;
    }
    assert(xs@.take(xs@.len() as int) =~= xs@);
}

/// Appends one `extends` quad per extended name.
fn emit_extends(out: &mut Vec<Quad>, u: &str, ns: &Vec<TsName>)
    ensures
        quads_model(final(out)@) == quads_model(old(out)@) + extends_quads(u@, ns@),
{
    let ghost start = quads_model(out@);
    let mut i: usize = 0;
    while i < ns.len()
        invariant
            0 <= i <= ns@.len(),
            quads_model(out@) == start + extends_quads(u@, ns@.take(i as int)),
        decreases ns.len() - i,
    {
        assert(ns@.take(i + 1).drop_last() =~= ns@.take(i as int));
        let t = expr_to_name(&ns[i]);
        emit(out, tquad(u, "extends", string_literal(t.as_str())));
        assert(quads_model(out@) =~= start + extends_quads(u@, ns@.take(i + 1)));
        i += 1;
    }
    assert(ns@.take(ns@.len() as int) =~= ns@);
}

/// Appends the quads of the members of an interface.
fn emit_sigs(out: &mut Vec<Quad>, u: &str, ss: &Vec<TsSignature>)
    ensures
        quads_model(final(out)@) == quads_model(old(out)@) + sigs_quads(u@, ss@),
{
    let ghost start = quads_model(out@);
    let mut i: usize = 0;
    while i < ss.len()
        invariant
            0 <= i <= ss@.len(),
            quads_model(out@) == start + sigs_quads(u@, ss@.take(i as int)),
        decreases ss.len() - i,
    {
        assert(ss@.take(i + 1).drop_last() =~= ss@.take(i as int));
        match &ss[i] {
            TsSignature::Method(Some(n)) => emit(out, tquad(u, "hasMethod", string_literal(n.as_str()))),
            TsSignature::Property(Some(n)) => emit(out, tquad(u, "hasField", string_literal(n.as_str()))),
            _ => {},
        }
        assert(quads_model(out@) =~= start + sigs_quads(u@, ss@.take(i + 1)));
        i += 1;
    }
    assert(ss@.take(ss@.len() as int) =~= ss@);
}

/// Appends the quads naming a declaration and placing it; returns its IRI.
fn emit_decl_head(out: &mut Vec<Quad>, ctx: &TsCtx, class: &str, name: &str, exported: bool, start_off: u32, end_off: u32) -> (u: String)
    requires
        ctx.wf(),
    ensures
        u@ == item_uri(ctx.src(), name@),
        quads_model(final(out)@) == quads_model(old(out)@) + decl_head(ctx.src(), class@, name@, exported, start_off, end_off),
{
    let ghost start = quads_model(out@);
    let u = item_node(ctx, name);
    emit(out, ttype_quad(u.as_str(), class));
    emit(out, tquad(u.as_str(), "name", string_literal(name)));
    emit(out, tquad(u.as_str(), "definedIn", Term::Iri(clone_string(&ctx.module))));
    emit(out, tquad(u.as_str(), "visibility", string_literal(vis_str(exported))));
    emit(out, tquad(u.as_str(), "startLine", line_term(ctx, start_off)));
    emit(out, tquad(u.as_str(), "endLine", line_term(ctx, end_off)));
    assert(quads_model(out@) =~= start + decl_head(ctx.src(), class@, name@, exported, start_off, end_off));
    u
}

/// Appends the quads of a class declaration.
fn emit_class(out: &mut Vec<Quad>, ctx: &TsCtx, c: &TsClass, exported: bool)
    requires
        ctx.wf(),
        c.name is Some ==> at_boundary(ctx.cs@, c.start as int),
    ensures
        quads_model(final(out)@) == quads_model(old(out)@) + class_quads(ctx.src(), *c, exported),
{
    let ghost start = quads_model(out@);
    match &c.name {
        None => {},
        Some(n) => {
            let cu = emit_decl_head(out, ctx, "Class", n.as_str(), exported, c.start, c.end);
            emit_str_lits(out, cu.as_str(), "implements", &c.implements);
            let ghost mid = quads_model(out@);
            match &c.super_class {
                Some(sc) => {
                    let t = expr_to_name(sc);
                    emit(out, tquad(cu.as_str(), "extends", string_literal(t.as_str())));
                },
                None => {},
            }
            emit_members(out, ctx, n.as_str(), cu.as_str(), &c.members);
            emit_doc(out, ctx, cu.as_str(), c.start);
        },
    }
    assert(quads_model(out@) =~= start + class_quads(ctx.src(), *c, exported));
}

/// Appends the quads of an interface.
fn emit_interface(out: &mut Vec<Quad>, ctx: &TsCtx, i: &TsInterface, exported: bool)
    requires
        ctx.wf(),
        at_boundary(ctx.cs@, i.start as int),
    ensures
        quads_model(final(out)@) == quads_model(old(out)@) + interface_quads(ctx.src(), *i, exported),
{
    let ghost start = quads_model(out@);
    let u = emit_decl_head(out, ctx, "Trait", i.name.as_str(), exported, i.start, i.end);
    emit_extends(out, u.as_str(), &i.extends);
    emit_sigs(out, u.as_str(), &i.members);
    emit_doc(out, ctx, u.as_str(), i.start);
    assert(quads_model(out@) =~= start + interface_quads(ctx.src(), *i, exported));
}

/// Appends the quads of a type alias.
fn emit_alias(out: &mut Vec<Quad>, ctx: &TsCtx, a: &TsTypeAlias, exported: bool)
    requires
        ctx.wf(),
        at_boundary(ctx.cs@, a.start as int),
    ensures
        quads_model(final(out)@) == quads_model(old(out)@) + alias_quads(ctx.src(), *a, exported),
{
    let ghost start = quads_model(out@);
    let u = item_node(ctx, a.name.as_str());
    emit(out, ttype_quad(u.as_str(), "Class"));
    emit(out, tquad(u.as_str(), "name", string_literal(a.name.as_str())));
    emit(out, tquad(u.as_str(), "kind", string_literal("type_alias")));
    emit(out, tquad(u.as_str(), "definedIn", Term::Iri(clone_string(&ctx.module))));
    emit(out, tquad(u.as_str(), "visibility", string_literal(vis_str(exported))));
    emit(out, tquad(u.as_str(), "startLine", line_term(ctx, a.start)));
    emit(out, tquad(u.as_str(), "endLine", line_term(ctx, a.end)));
    emit_doc(out, ctx, u.as_str(), a.start);
    assert(quads_model(out@) =~= start + alias_quads(ctx.src(), *a, exported));
}

/// Appends the quads of an enum.
fn emit_enum(out: &mut Vec<Quad>, ctx: &TsCtx, e: &TsEnum, exported: bool)
    requires
        ctx.wf(),
        at_boundary(ctx.cs@, e.start as int),
    ensures
        quads_model(final(out)@) == quads_model(old(out)@) + enum_quads(ctx.src(), *e, exported),
{
    let ghost start = quads_model(out@);
    let u = emit_decl_head(out, ctx, "Enum", e.name.as_str(), exported, e.start, e.end);
    emit_opt_lits(out, u.as_str(), "hasVariant", &e.members);
    emit_doc(out, ctx, u.as_str(), e.start);
    assert(quads_model(out@) =~= start + enum_quads(ctx.src(), *e, exported));
}

/// `s` with each `/` replaced by `_`.
fn slashes_to_underscores_exec(s: &str) -> (r: String)
    ensures
        r@ == slashes_to_underscores(s@),
{
    let cs = chars_of(s);
    let mut out = String::new();
    let mut i: usize = 0;
    while i < cs.len()
        invariant
            0 <= i <= cs@.len(),
            cs@ == s@,
            out@ == slashes_to_underscores(s@).take(i as int),
        decreases cs.len() - i,
    {
        push_char(&mut out, if cs[i] == '/' { '_' } else { cs[i] });
        assert(out@ =~= slashes_to_underscores(s@).take(i + 1));
        i += 1;
    }
    assert(slashes_to_underscores(s@).take(cs@.len() as int) =~= slashes_to_underscores(s@));
    out
}

/// Appends the quads of an import.
fn emit_import(out: &mut Vec<Quad>, ctx: &TsCtx, path: &str)
    requires
        ctx.wf(),
    ensures
        quads_model(final(out)@) == quads_model(old(out)@) + import_quads(ctx.src(), path@),
{
    let ghost start = quads_model(out@);
    let mut local = to_owned_string("import/");
    let u = slashes_to_underscores_exec(path);
    local.append(u.as_str());
    let iu = code_ns(local.as_str());
    emit(out, ttype_quad(iu.as_str(), "Import"));
    emit(out, tquad(iu.as_str(), "importPath", string_literal(path)));
    emit(out, tquad(ctx.module.as_str(), "hasImport", Term::Iri(iu)));
    assert(quads_model(out@) =~= start + import_quads(ctx.src(), path@));
}

/// Appends the quads of the variables of a declaration.
fn emit_var(out: &mut Vec<Quad>, ctx: &TsCtx, v: &TsVarDecl, exported: bool)
    requires
        ctx.wf(),
        forall|j: int| 0 <= j < v.declarators@.len() ==> declares_arrow(#[trigger] v.declarators@[j])
            ==> at_boundary(ctx.cs@, v.start as int),
    ensures
        quads_model(final(out)@) == quads_model(old(out)@) + declarators_quads(ctx.src(), v.declarators@, exported, v.start),
{
    let ghost start = quads_model(out@);
    let ds = &v.declarators;
    let mut i: usize = 0;
    while i < ds.len()
        invariant
            0 <= i <= ds@.len(),
            ctx.wf(),
            ds == &v.declarators,
            forall|j: int| 0 <= j < v.declarators@.len() ==> declares_arrow(#[trigger] v.declarators@[j])
                ==> at_boundary(ctx.cs@, v.start as int),
            quads_model(out@) == start + declarators_quads(ctx.src(), ds@.take(i as int), exported, v.start),
        decreases ds.len() - i,
    {
        assert(ds@.take(i + 1).drop_last() =~= ds@.take(i as int));
        let ghost before = quads_model(out@);
        let d = &ds[i];
        match &d.name {
            None => {},
            Some(n) => match &d.init {
                Some(TsInit::Arrow(f)) => {
                    assert(declares_arrow(ds@[i as int]));
                    let fu = emit_fn_head(out, ctx, n.as_str(), exported, f);
                    emit_doc(out, ctx, fu.as_str(), v.start);
                },
                Some(TsInit::Function(f)) => {
                    let _fu = emit_fn_head(out, ctx, n.as_str(), exported, f);
                },
                _ => {},
            },
        }
        assert(quads_model(out@) =~= start + declarators_quads(ctx.src(), ds@.take(i + 1), exported, v.start));
        i += 1;
    }
    assert(ds@.take(ds@.len() as int) =~= ds@);
}

/// Appends the quads of a declaration.
fn emit_decl(out: &mut Vec<Quad>, ctx: &TsCtx, d: &TsDecl, exported: bool)
    requires
        ctx.wf(),
        decl_ok(ctx.cs@, *d),
    ensures
        quads_model(final(out)@) == quads_model(old(out)@) + decl_quads(ctx.src(), *d, exported),
{
    match d {
        TsDecl::Function(f) => emit_function(out, ctx, f, exported),
        TsDecl::Class(c) => emit_class(out, ctx, c, exported),
        TsDecl::TypeAlias(a) => emit_alias(out, ctx, a, exported),
        TsDecl::Interface(i) => emit_interface(out, ctx, i, exported),
        TsDecl::Enum(e) => emit_enum(out, ctx, e, exported),
        TsDecl::Var(v) => emit_var(out, ctx, v, exported),
        TsDecl::Other => {
            assert(quads_model(out@) =~= quads_model(old(out)@) + decl_quads(ctx.src(), *d, exported));
        },
    }
}



/// Whether a comment is well formed in the text.
fn comment_ok_exec(cs: &Vec<char>, offs: &Vec<usize>, c: &TsComment) -> (r: bool)
    requires
        offs@.len() == cs@.len() + 1,
        forall|k: int| 0 <= k < offs@.len() ==> offs@[k] as int == blen(#[trigger] cs@.take(k)),
    ensures
        r == comment_ok(cs@, *c),
{
    if !c.is_block {
        return true;
    }
    let i = char_index_exec(offs, Ghost(cs@), c.start);
    let j = char_index_exec(offs, Ghost(cs@), c.end);
    match (i, j) {
        (Some(i), Some(j)) => {
            if i > j {
                return false;
            }
            let t = slice_vec(cs, i, j);
            assert(t@ == span_chars(cs@, c.start as int, c.end as int));
            proof {
                reveal_strlit("*/");
                reveal_strlit("/**");
            }
            let closes = crate::text::ends_with_exec(&t, &chars_of("*/"));
            let opens = starts_with_exec(&t, &chars_of("/**"));
            closes && (!opens || t.len() >= 5)
        },
        _ => false,
    }
}

/// Whether a byte offset falls between characters.
fn at_boundary_exec(offs: &Vec<usize>, cs: Ghost<Seq<char>>, d: u32) -> (r: bool)
    requires
        offs@.len() == cs@.len() + 1,
        forall|k: int| 0 <= k < offs@.len() ==> offs@[k] as int == blen(#[trigger] cs@.take(k)),
    ensures
        r == at_boundary(cs@, d as int),
{
    char_index_exec(offs, cs, d).is_some()
}

/// Whether a declaration that may carry a JSDoc comment starts between characters.
fn decl_ok_exec(offs: &Vec<usize>, cs: Ghost<Seq<char>>, d: &TsDecl) -> (r: bool)
    requires
        offs@.len() == cs@.len() + 1,
        forall|k: int| 0 <= k < offs@.len() ==> offs@[k] as int == blen(#[trigger] cs@.take(k)),
    ensures
        r == decl_ok(cs@, *d),
{
    match d {
        TsDecl::Function(f) => f.name.is_none() || at_boundary_exec(offs, cs, f.start),
        TsDecl::Class(c) => c.name.is_none() || at_boundary_exec(offs, cs, c.start),
        TsDecl::TypeAlias(a) => at_boundary_exec(offs, cs, a.start),
        TsDecl::Interface(i) => at_boundary_exec(offs, cs, i.start),
        TsDecl::Enum(e) => at_boundary_exec(offs, cs, e.start),
        TsDecl::Var(v) => {
            let mut any_arrow = false;
            let mut j: usize = 0;
            while j < v.declarators.len()
                invariant
                    0 <= j <= v.declarators@.len(),
                    any_arrow <==> exists|k: int| 0 <= k < j && declares_arrow(#[trigger] v.declarators@[k]),
                decreases v.declarators.len() - j,
            {
                let d = &v.declarators[j];
                let arrow = d.name.is_some() && match &d.init {
                    Some(TsInit::Arrow(_)) => true,
                    _ => false,
                };
                assert(arrow == declares_arrow(v.declarators@[j as int]));
                any_arrow = any_arrow || arrow;
                j += 1;
            }
            !any_arrow || at_boundary_exec(offs, cs, v.start)
        },
        TsDecl::Other => true,
    }
}

/// Whether a parsed program fits its text as the loader needs: the text's
/// sizes fit the machine, its comments are well formed, and every declaration
/// that may carry a JSDoc comment starts between characters. A parser gives
/// such programs; `TypeScriptLoader::load_file` is called on them only.
pub fn program_ok(source: &str, prog: &TsProgram) -> (r: bool)
    ensures
        r == (source.spec_bytes().len() < u32::MAX && source@.len() * 4 < usize::MAX && comments_ok(source@, prog.comments@)
            && stmts_ok(source@, prog.body@)),
{
    if source.as_bytes().len() >= u32::MAX as usize {
        return false;
    }
    let cs = chars_of(source);
    if cs.len() > (usize::MAX - 1) / 4 {
        assert(cs@.len() * 4 >= usize::MAX) by (nonlinear_arith)
            requires
                cs@.len() > (usize::MAX - 1) / 4,
        ;
        return false;
    }
    assert(cs@.len() * 4 < usize::MAX) by (nonlinear_arith)
        requires
            cs@.len() <= (usize::MAX - 1) / 4,
    ;
    let offs = char_offsets(&cs);
    let mut i: usize = 0;
    while i < prog.comments.len()
        invariant
            0 <= i <= prog.comments@.len(),
            cs@ == source@,
            offs@.len() == cs@.len() + 1,
            forall|k: int| 0 <= k < offs@.len() ==> offs@[k] as int == blen(#[trigger] cs@.take(k)),
            forall|k: int| 0 <= k < i ==> comment_ok(source@, #[trigger] prog.comments@[k]),
        decreases prog.comments.len() - i,
    {
        if !comment_ok_exec(&cs, &offs, &prog.comments[i]) {
            return false;
        }
        i += 1;
    }
    let mut j: usize = 0;
    while j < prog.body.len()
        invariant
            0 <= j <= prog.body@.len(),
            cs@ == source@,
            offs@.len() == cs@.len() + 1,
            forall|k: int| 0 <= k < offs@.len() ==> offs@[k] as int == blen(#[trigger] cs@.take(k)),
            forall|k: int| 0 <= k < j ==> match #[trigger] prog.body@[k] {
                TsStmt::Decl(d, _) => decl_ok(source@, d),
                _ => true,
            },
        decreases prog.body.len() - j,
    {
        let ok = match &prog.body[j] {
            TsStmt::Decl(d, _) => decl_ok_exec(&offs, Ghost(cs@), d),
            _ => true,
        };
        if !ok {
            return false;
        }
        j += 1;
    }
    assert(comments_ok(source@, prog.comments@));
    assert(stmts_ok(source@, prog.body@));
    true
}

/// The line a parser error points at: the line of its offset, when it gives one.
pub open spec fn error_line(source: &str, off: Option<u32>) -> Option<usize> {
    match off {
        Some(o) => Some(count_le(table_of(source), o as int) as usize),
        None => None,
    }
}

impl TypeScriptLoader {
    /// The quads of a TypeScript or JavaScript source file at `path`
    /// (`rel_path` within its project): the module and its top-level
    /// declarations and imports, in the graph of TypeScript code. `parsed` is
    /// the parsed program, or why it could not be parsed.
    pub fn load_file(&self, path: &str, rel_path: &str, source: &str, parsed: &Result<TsProgram, TsParseFailure>) -> (r: Result<Vec<Quad>, LoadError>)
        requires
            source.spec_bytes().len() < u32::MAX,
            source@.len() * 4 < usize::MAX,
            parsed matches Ok(p) ==> comments_ok(source@, p.comments@) && stmts_ok(source@, p.body@),
        ensures
            match parsed {
                Err(TsParseFailure::UnsupportedExtension) => r matches Err(e) && e@ == LoadErrorModel::Parse(
                    path@,
                    None,
                    "Unsupported file extension: "@ + path@,
                ),
                Err(TsParseFailure::Syntax(off, msg)) => r matches Err(e) && e@ == LoadErrorModel::Parse(
                    path@,
                    error_line(source, *off),
                    msg@,
                ),
                Ok(p) => r matches Ok(qs) && quads_model(qs@) == ts_file_quads(
                    path@,
                    TsSrc { rel: rel_path@, text: source@, table: table_of(source), comments: p.comments@ },
                    p.body@,
                ),
            },
    {
        let table = build_line_table(source);
        assert(table@ =~= table_of(source));
        proof {
            crate::python::lemma_line_table_len(source.spec_bytes());
        }
        let prog = match parsed {
            Err(TsParseFailure::UnsupportedExtension) => {
                let mut message = to_owned_string("Unsupported file extension: ");
                message.append(path);
                return Err(LoadError::Parse { file: to_owned_string(path), line: None, message });
            },
            Err(TsParseFailure::Syntax(off, msg)) => {
                let line = match off {
                    Some(o) => {
                        proof {
                            lemma_count_le_bound(table@, *o as int);
                        }
                        Some(offset_to_line(&table, *o))
                    },
                    None => None,
                };
                return Err(LoadError::Parse { file: to_owned_string(path), line, message: clone_string(msg) });
            },
            Ok(p) => p,
        };
        let cs = chars_of(source);
        let offs = char_offsets(&cs);
        let ctx = TsCtx { rel: rel_path, module: code_ns(rel_path), cs, offs, table, comments: &prog.comments };
        let mut quads: Vec<Quad> = Vec::new();
        let m = ctx.module.as_str();
        emit(&mut quads, ttype_quad(m, "Module"));
        emit(&mut quads, tquad(m, "filePath", string_literal(path)));
        emit(&mut quads, tquad(m, "relativePath", string_literal(rel_path)));
        emit(&mut quads, tquad(m, "language", string_literal("typescript")));
        let ghost head = quads_model(quads@);
        let sts = &prog.body;
        let mut i: usize = 0;
        while i < sts.len()
            invariant
                0 <= i <= sts@.len(),
                ctx.wf(),
                ctx.src() == (TsSrc { rel: rel_path@, text: source@, table: table_of(source), comments: prog.comments@ }),
                stmts_ok(source@, sts@),
                quads_model(quads@) == head + stmts_quads(ctx.src(), sts@.take(i as int)),
            decreases sts.len() - i,
        {
            assert(sts@.take(i + 1).drop_last() =~= sts@.take(i as int));
            let ghost before = quads_model(quads@);
            match &sts[i] {
                TsStmt::Decl(d, exported) => {
                    assert(decl_ok(source@, *d));
                    emit_decl(&mut quads, &ctx, d, *exported);
                },
                TsStmt::Import(p) => emit_import(&mut quads, &ctx, p.as_str()),
                TsStmt::Other => {},
            }
            assert(quads_model(quads@) =~= head + stmts_quads(ctx.src(), sts@.take(i + 1)));
            i += 1;
        }
        assert(sts@.take(sts@.len() as int) =~= sts@);
        assert(quads_model(quads@) =~= ts_file_quads(path@, ctx.src(), sts@));
        Ok(quads)
    }
}

// --- package.json ---

/// A JSON value, as far as `package.json` is read: strings, objects (entries
/// in the order the parser gives them, each key once) and anything else.
pub enum JsonValue {
    Str(String),
    Object(Vec<(String, JsonValue)>),
    Other,
}

#[verifier::external_type_specification]
#[verifier::external_body]
pub struct ExJsonValue(serde_json::Value);

/// A text parsed as a JSON document, or the parser's message.
pub uninterp spec fn json_doc(text: Seq<char>) -> Result<JsonValue, Seq<char>>;

/// A parse result as plain values.
pub open spec fn json_model(d: Result<JsonValue, String>) -> Result<JsonValue, Seq<char>> {
    match d {
        Ok(v) => Ok(v),
        Err(m) => Err(m@),
    }
}

/// A `serde_json::Value` as a `JsonValue`: strings and objects (in the
/// parser's key order) kept, anything else `Other`.
#[verifier::external_body]
fn json_of(v: &serde_json::Value) -> JsonValue {
    match v {
        serde_json::Value::String(s) => JsonValue::Str(s.clone()),
        serde_json::Value::Object(m) => JsonValue::Object(m.iter().map(|(k, x)| (k.clone(), json_of(x))).collect()),
        _ => JsonValue::Other,
    }
}

/// `serde_json::from_str::<serde_json::Value>`: the text parsed, named
/// `json_doc`; an error gives the parser's message.
#[verifier::external_body]
pub(crate) fn parse_json(content: &str) -> (r: Result<JsonValue, String>)
    ensures
        json_model(r) == json_doc(content@),
{
    serde_json::from_str::<serde_json::Value>(content).map(|v| json_of(&v)).map_err(|e| e.to_string())
}

/// The value under `k` of an object; none for anything else.
pub open spec fn json_get(v: JsonValue, k: Seq<char>) -> Option<JsonValue> {
    match v {
        JsonValue::Object(es) => json_entry(es@, k),
        _ => None,
    }
}

/// The value under `k` in object entries: the first with that key.
pub open spec fn json_entry(es: Seq<(String, JsonValue)>, k: Seq<char>) -> Option<JsonValue>
    decreases es.len(),
{
    if es.len() == 0 {
        None
    } else if es[0].0@ == k {
        Some(es[0].1)
    } else {
        json_entry(es.skip(1), k)
    }
}

/// The string under `k`, if it is one.
pub open spec fn json_str(v: JsonValue, k: Seq<char>) -> Option<Seq<char>> {
    match json_get(v, k) {
        Some(JsonValue::Str(s)) => Some(s@),
        _ => None,
    }
}

/// A literal quad of the TypeScript graph when the value is present.
pub open spec fn opt_quad(s: Seq<char>, p: Seq<char>, v: Option<Seq<char>>) -> Seq<QuadModel> {
    match v {
        Some(x) => seq![tq(s, p, lit(x))],
        None => Seq::empty(),
    }
}

/// The quads of dependency entries of project `name` (IRI `p`).
pub open spec fn json_deps(name: Seq<char>, p: Seq<char>, es: Seq<(String, JsonValue)>) -> Seq<QuadModel>
    decreases es.len(),
{
    if es.len() == 0 {
        Seq::empty()
    } else {
        let (dn, dv) = es.last();
        let d = spec_code_ns("project/"@ + name + "/dep/"@ + dn@);
        json_deps(name, p, es.drop_last()) + seq![
            ttype(d, "Dependency"@),
            tq(d, "name"@, lit(dn@)),
            tq(p, "hasDependency"@, TermModel::Iri(d)),
        ] + match dv {
            JsonValue::Str(v) => seq![tq(d, "version"@, lit(v@))],
            _ => Seq::empty(),
        }
    }
}

/// The dependency quads of the object under `k`, if it is one.
pub open spec fn deps_under(name: Seq<char>, p: Seq<char>, doc: JsonValue, k: Seq<char>) -> Seq<QuadModel> {
    match json_get(doc, k) {
        Some(JsonValue::Object(es)) => json_deps(name, p, es@),
        _ => Seq::empty(),
    }
}

/// The quads of `package.json`: the project (named `unknown` when the name is
/// not a string), its version and description, and its dependencies and
/// development dependencies.
pub open spec fn package_quads(doc: JsonValue) -> Seq<QuadModel> {
    let name = match json_str(doc, "name"@) {
        Some(n) => n,
        None => "unknown"@,
    };
    let p = spec_code_ns("project/"@ + name);
    seq![
        ttype(p, "Project"@),
        tq(p, "name"@, lit(name)),
        tq(p, "language"@, lit("typescript"@)),
    ] + opt_quad(p, "version"@, json_str(doc, "version"@)) + opt_quad(
        p,
        "description"@,
        json_str(doc, "description"@),
    ) + deps_under(name, p, doc, "dependencies"@) + deps_under(name, p, doc, "devDependencies"@)
}

/// The value under `k` of an object.
fn json_get_exec<'a>(v: &'a JsonValue, k: &str) -> (r: Option<&'a JsonValue>)
    ensures
        match r {
            Some(x) => json_get(*v, k@) == Some(*x),
            None => json_get(*v, k@) is None,
        },
{
    match v {
        JsonValue::Object(es) => {
            let mut i: usize = 0;
            assert(es@.skip(0) =~= es@);
            while i < es.len()
                invariant
                    0 <= i <= es@.len(),
                    json_get(*v, k@) == json_entry(es@, k@),
                    json_entry(es@, k@) == json_entry(es@.skip(i as int), k@),
                decreases es.len() - i,
            {
                assert(es@.skip(i as int).skip(1) =~= es@.skip(i + 1));
                assert(es@.skip(i as int)[0] == es@[i as int]);
                if crate::text::str_eq(es[i].0.as_str(), k) {
                    assert(json_entry(es@.skip(i as int), k@) == Some(es@[i as int].1));
                    return Some(&es[i].1);
                }
                i += 1;
            }
            None
        },
        _ => None,
    }
}

/// The string under `k`, if it is one.
fn json_str_exec(v: &JsonValue, k: &str) -> (r: Option<String>)
    ensures
        match r {
            Some(s) => json_str(*v, k@) == Some(s@),
            None => json_str(*v, k@) is None,
        },
{
    match json_get_exec(v, k) {
        Some(JsonValue::Str(s)) => Some(clone_string(s)),
        _ => None,
    }
}

/// Appends a literal quad when the value is present.
fn emit_opt(out: &mut Vec<Quad>, s: &str, p: &str, v: &Option<String>)
    ensures
        quads_model(final(out)@) == quads_model(old(out)@) + opt_quad(s@, p@, match v {
            Some(x) => Some(x@),
            None => None,
        }),
{
    let ghost start = quads_model(out@);
    match v {
        Some(x) => emit(out, tquad(s, p, string_literal(x.as_str()))),
        None => {},
    }
    assert(quads_model(out@) =~= start + opt_quad(s@, p@, match v {
        Some(x) => Some(x@),
        None => None,
    }));
}

/// Appends the dependency quads of the object under `k`, if it is one.
fn emit_deps_under(out: &mut Vec<Quad>, name: &str, p: &str, doc: &JsonValue, k: &str)
    ensures
        quads_model(final(out)@) == quads_model(old(out)@) + deps_under(name@, p@, *doc, k@),
{
    let ghost start = quads_model(out@);
    match json_get_exec(doc, k) {
        Some(JsonValue::Object(es)) => {
            let mut i: usize = 0;
            while i < es.len()
                invariant
                    0 <= i <= es@.len(),
                    quads_model(out@) == start + json_deps(name@, p@, es@.take(i as int)),
                decreases es.len() - i,
            {
                assert(es@.take(i + 1).drop_last() =~= es@.take(i as int));
                let dn = es[i].0.as_str();
                let mut local = to_owned_string("project/");
                local.append(name);
                local.append("/dep/");
                local.append(dn);
                let d = code_ns(local.as_str());
                emit(out, ttype_quad(d.as_str(), "Dependency"));
                emit(out, tquad(d.as_str(), "name", string_literal(dn)));
                emit(out, tquad(p, "hasDependency", Term::Iri(clone_string(&d))));
                match &es[i].1 {
                    JsonValue::Str(v) => emit(out, tquad(d.as_str(), "version", string_literal(v.as_str()))),
                    _ => {},
                }
                assert(quads_model(out@) =~= start + json_deps(name@, p@, es@.take(i + 1)));
                i += 1;
            }
            assert(es@.take(es@.len() as int) =~= es@);
        },
        _ => {},
    }
}

/// The quads of `package.json` at `file`, given as parsed or with the parser's message.
pub fn parse_package_json(file: &str, content: &str) -> (r: Result<Vec<Quad>, LoadError>)
    ensures
        match json_doc(content@) {
            Err(e) => r matches Err(err) && err@ == LoadErrorModel::Parse(file@, None, e),
            Ok(d) => r matches Ok(qs) && quads_model(qs@) == package_quads(d),
        },
{
    let doc = parse_json(content);
    let d = match &doc {
        Err(e) => {
            return Err(crate::loader::parse_error(file, e));
        },
        Ok(d) => d,
    };
    let name = match json_str_exec(d, "name") {
        Some(n) => n,
        None => to_owned_string("unknown"),
    };
    let mut local = to_owned_string("project/");
    local.append(name.as_str());
    let p = code_ns(local.as_str());
    let mut quads: Vec<Quad> = Vec::new();
    emit(&mut quads, ttype_quad(p.as_str(), "Project"));
    emit(&mut quads, tquad(p.as_str(), "name", string_literal(name.as_str())));
    emit(&mut quads, tquad(p.as_str(), "language", string_literal("typescript")));
    emit_opt(&mut quads, p.as_str(), "version", &json_str_exec(d, "version"));
    emit_opt(&mut quads, p.as_str(), "description", &json_str_exec(d, "description"));
    emit_deps_under(&mut quads, name.as_str(), p.as_str(), d, "dependencies");
    emit_deps_under(&mut quads, name.as_str(), p.as_str(), d, "devDependencies");
    assert(quads_model(quads@) =~= package_quads(*d));
    Ok(quads)
}

} // verus!
