//! Rust sources as RDF: modules, functions, structs, enums, traits, impl
//! blocks, imports and submodules, read from a parsed file, and project
//! metadata from `Cargo.toml`. All of it goes to the named graph of Rust code.
use vstd::prelude::*;
use vstd::string::StringExecFns;

use crate::loader::{parse_error, LoadError, LoadErrorModel};
use crate::rdf::{
    code_ns, code_quad, code_type, emit, int_lit, integer_literal, lit, quad, quad_type, quads_model,
    spec_code_ns, string_literal, GraphModel, GraphName, Quad, QuadModel, Term, TermModel,
};
use crate::text::{
    chars_of, clone_string, push_char, spec_join, starts_with, str_eq, string_of, to_owned_string,
    trim, trim_exec,
};
use crate::toml_doc::{entry_get, get, opt_str, parse_toml, toml_doc, toml_get, TomlValue};
use quote::ToTokens;
use syn::{Item, Visibility};

verus! {

broadcast use vstd::string::group_string_axioms;

/// Reads Rust sources.
pub struct RustLoader;

/// The visibility of an item.
#[derive(Debug, Clone, Copy, PartialEq, Eq, Structural)]
pub enum RsVis {
    /// `pub`
    Public,
    /// `pub(crate)`, `pub(super)`, `pub(in ...)`
    Restricted,
    /// No visibility written.
    Inherited,
}

/// An attribute: a doc comment with its text, or anything else.
pub enum RsAttr {
    Doc(String),
    Other,
}

/// A parameter: `self` in any form, or a typed pattern written as tokens.
pub enum RsParam {
    SelfParam,
    Typed(String),
}

/// A function or method: its visibility, name and the line of the name, its
/// parameters, its return type as tokens, the line of its closing brace, and
/// its attributes.
pub struct RsFn {
    pub vis: RsVis,
    pub name: String,
    pub line: usize,
    pub params: Vec<RsParam>,
    pub output: Option<String>,
    pub end_line: usize,
    pub attrs: Vec<RsAttr>,
}

/// A struct: visibility, name, line of the name, its named fields with the
/// line of each name (none for tuple and unit structs), and attributes.
pub struct RsStruct {
    pub vis: RsVis,
    pub name: String,
    pub line: usize,
    pub named_fields: Option<Vec<(String, usize)>>,
    pub attrs: Vec<RsAttr>,
}

/// An enum: visibility, name, line of the name, its variants with the line
/// of each name, and attributes.
pub struct RsEnum {
    pub vis: RsVis,
    pub name: String,
    pub line: usize,
    pub variants: Vec<(String, usize)>,
    pub attrs: Vec<RsAttr>,
}

/// A trait: visibility, name, line of the name, the names of its methods, and attributes.
pub struct RsTrait {
    pub vis: RsVis,
    pub name: String,
    pub line: usize,
    pub methods: Vec<String>,
    pub attrs: Vec<RsAttr>,
}

/// An impl block: the implementing type and the trait as tokens, and its methods.
pub struct RsImpl {
    pub self_ty: String,
    pub trait_path: Option<String>,
    pub methods: Vec<RsFn>,
}

/// A top-level item of a Rust file, as far as the loader reads it.
pub enum RsItem {
    Fn(RsFn),
    Struct(RsStruct),
    Enum(RsEnum),
    Trait(RsTrait),
    Impl(RsImpl),
    /// A `use` item: its tree as tokens.
    Use(String),
    /// A `mod` item: its name, and whether its body is inline.
    Mod(String, bool),
    Other,
}

/// The graph of Rust code.
pub open spec fn rust_graph() -> GraphModel {
    GraphModel::Named(spec_code_ns("rust"@))
}

/// A quad of the Rust graph.
pub open spec fn rq(s: Seq<char>, p: Seq<char>, o: TermModel) -> QuadModel {
    code_quad(s, p, o, rust_graph())
}

/// A type quad of the Rust graph.
pub open spec fn rtype(s: Seq<char>, class: Seq<char>) -> QuadModel {
    code_type(s, class, rust_graph())
}

/// The text of a visibility.
pub open spec fn vis_text(v: RsVis) -> Seq<char> {
    match v {
        RsVis::Public => "pub"@,
        RsVis::Restricted => "restricted"@,
        RsVis::Inherited => "private"@,
    }
}

/// The doc comments among the attributes, each trimmed.
pub open spec fn doc_lines(attrs: Seq<RsAttr>) -> Seq<Seq<char>>
    decreases attrs.len(),
{
    if attrs.len() == 0 {
        Seq::empty()
    } else {
        let d = doc_lines(attrs.drop_last());
        match attrs.last() {
            RsAttr::Doc(s) => d.push(trim(s@)),
            RsAttr::Other => d,
        }
    }
}

/// The docstring of an item: its doc comments, trimmed and joined by newlines.
pub open spec fn rs_docstring(attrs: Seq<RsAttr>) -> Option<Seq<char>> {
    if doc_lines(attrs).len() == 0 {
        None
    } else {
        Some(spec_join(doc_lines(attrs), "\n"@))
    }
}

/// A literal quad of the Rust graph when the value is present.
pub open spec fn ropt(s: Seq<char>, p: Seq<char>, v: Option<Seq<char>>) -> Seq<QuadModel> {
    match v {
        Some(x) => seq![rq(s, p, lit(x))],
        None => Seq::empty(),
    }
}

/// The text of a parameter.
pub open spec fn param_text(p: RsParam) -> Seq<char> {
    match p {
        RsParam::SelfParam => "self"@,
        RsParam::Typed(t) => t@,
    }
}

/// The parameter quads of a function.
pub open spec fn rs_param_quads(f: Seq<char>, ps: Seq<RsParam>) -> Seq<QuadModel>
    decreases ps.len(),
{
    if ps.len() == 0 {
        Seq::empty()
    } else {
        rs_param_quads(f, ps.drop_last()) + seq![rq(f, "parameter"@, lit(param_text(ps.last())))]
    }
}

/// The quads after a function's position: parameters, return type, docstring.
pub open spec fn fn_detail_quads(fu: Seq<char>, f: RsFn) -> Seq<QuadModel> {
    rs_param_quads(fu, f.params@) + ropt(fu, "returnType"@, match f.output {
        Some(o) => Some(o@),
        None => None,
    }) + ropt(fu, "docstring"@, rs_docstring(f.attrs@))
}

/// The quads of a free function.
pub open spec fn rs_fn_quads(rel: Seq<char>, f: RsFn) -> Seq<QuadModel> {
    let fu = spec_code_ns(rel + "/"@ + f.name@);
    seq![
        rtype(fu, "Function"@),
        rq(fu, "name"@, lit(f.name@)),
        rq(fu, "definedIn"@, TermModel::Iri(spec_code_ns(rel))),
        rq(fu, "visibility"@, lit(vis_text(f.vis))),
        rq(fu, "startLine"@, int_lit(f.line as nat)),
        rq(fu, "endLine"@, int_lit(f.end_line as nat)),
    ] + fn_detail_quads(fu, f)
}

/// The head quads of a struct, enum or trait: its class, name, module,
/// visibility and first line.
pub open spec fn item_head(rel: Seq<char>, class: Seq<char>, name: Seq<char>, vis: RsVis, line: usize) -> Seq<QuadModel> {
    let u = spec_code_ns(rel + "/"@ + name);
    seq![
        rtype(u, class),
        rq(u, "name"@, lit(name)),
        rq(u, "definedIn"@, TermModel::Iri(spec_code_ns(rel))),
        rq(u, "visibility"@, lit(vis_text(vis))),
        rq(u, "startLine"@, int_lit(line as nat)),
    ]
}

/// One literal quad per name.
pub open spec fn name_lits(u: Seq<char>, p: Seq<char>, ns: Seq<(String, usize)>) -> Seq<QuadModel>
    decreases ns.len(),
{
    if ns.len() == 0 {
        Seq::empty()
    } else {
        name_lits(u, p, ns.drop_last()) + seq![rq(u, p, lit(ns.last().0@))]
    }
}

/// The last line of a struct or enum: the line after its last field or variant, if any.
pub open spec fn end_after(u: Seq<char>, ns: Seq<(String, usize)>) -> Seq<QuadModel> {
    if ns.len() > 0 {
        seq![rq(u, "endLine"@, int_lit((ns.last().1 + 1) as nat))]
    } else {
        Seq::empty()
    }
}

/// The quads of a struct.
pub open spec fn rs_struct_quads(rel: Seq<char>, s: RsStruct) -> Seq<QuadModel> {
    let u = spec_code_ns(rel + "/"@ + s.name@);
    item_head(rel, "Class"@, s.name@, s.vis, s.line) + match s.named_fields {
        Some(fs) => end_after(u, fs@) + name_lits(u, "hasField"@, fs@),
        None => Seq::empty(),
    } + ropt(u, "docstring"@, rs_docstring(s.attrs@))
}

/// The quads of an enum.
pub open spec fn rs_enum_quads(rel: Seq<char>, e: RsEnum) -> Seq<QuadModel> {
    let u = spec_code_ns(rel + "/"@ + e.name@);
    item_head(rel, "Enum"@, e.name@, e.vis, e.line) + name_lits(u, "hasVariant"@, e.variants@)
        + end_after(u, e.variants@) + ropt(u, "docstring"@, rs_docstring(e.attrs@))
}

/// One `hasMethod` quad per method name.
pub open spec fn method_lits(u: Seq<char>, ms: Seq<String>) -> Seq<QuadModel>
    decreases ms.len(),
{
    if ms.len() == 0 {
        Seq::empty()
    } else {
        method_lits(u, ms.drop_last()) + seq![rq(u, "hasMethod"@, lit(ms.last()@))]
    }
}

/// The quads of a trait.
pub open spec fn rs_trait_quads(rel: Seq<char>, t: RsTrait) -> Seq<QuadModel> {
    let u = spec_code_ns(rel + "/"@ + t.name@);
    item_head(rel, "Trait"@, t.name@, t.vis, t.line) + method_lits(u, t.methods@)
        + ropt(u, "docstring"@, rs_docstring(t.attrs@))
}

/// The part of `s` after the last `::`, or all of it.
pub open spec fn last_segment(s: Seq<char>) -> Seq<char>
    decreases s.len(),
{
    if s.len() < 2 {
        s
    } else if s[s.len() - 2] == ':' && s[s.len() - 1] == ':' {
        Seq::empty()
    } else {
        last_segment(s.drop_last()).push(s.last())
    }
}

/// The local name of an implemented type: the last path segment of its tokens, trimmed.
pub open spec fn type_local(self_ty: Seq<char>) -> Seq<char> {
    trim(last_segment(self_ty))
}

/// The quads of a method of type `tl`.
pub open spec fn rs_method_quads(rel: Seq<char>, tl: Seq<char>, f: RsFn) -> Seq<QuadModel> {
    let tu = spec_code_ns(rel + "/"@ + tl);
    let fu = spec_code_ns(rel + "/"@ + tl + "/"@ + f.name@);
    seq![
        rtype(fu, "Function"@),
        rq(fu, "name"@, lit(f.name@)),
        rq(fu, "definedIn"@, TermModel::Iri(spec_code_ns(rel))),
        rq(fu, "visibility"@, lit(vis_text(f.vis))),
        rq(tu, "hasFunction"@, TermModel::Iri(fu)),
        rq(fu, "startLine"@, int_lit(f.line as nat)),
        rq(fu, "endLine"@, int_lit(f.end_line as nat)),
    ] + fn_detail_quads(fu, f)
}

/// The quads of the methods of an impl block.
pub open spec fn rs_methods_quads(rel: Seq<char>, tl: Seq<char>, ms: Seq<RsFn>) -> Seq<QuadModel>
    decreases ms.len(),
{
    if ms.len() == 0 {
        Seq::empty()
    } else {
        rs_methods_quads(rel, tl, ms.drop_last()) + rs_method_quads(rel, tl, ms.last())
    }
}

/// The quads of an impl block: the trait implemented, and the methods.
pub open spec fn rs_impl_quads(rel: Seq<char>, i: RsImpl) -> Seq<QuadModel> {
    let tl = type_local(i.self_ty@);
    let tu = spec_code_ns(rel + "/"@ + tl);
    ropt(tu, "implements"@, match i.trait_path {
        Some(t) => Some(t@),
        None => None,
    }) + rs_methods_quads(rel, tl, i.methods@)
}

/// `s` with every `::` replaced by `/`, left to right.
pub open spec fn colons_to_slashes(s: Seq<char>) -> Seq<char>
    decreases s.len(),
{
    if s.len() == 0 {
        Seq::empty()
    } else if s.len() >= 2 && s[0] == ':' && s[1] == ':' {
        seq!['/'] + colons_to_slashes(s.skip(2))
    } else {
        seq![s[0]] + colons_to_slashes(s.skip(1))
    }
}

/// `s` without its spaces.
pub open spec fn without_spaces(s: Seq<char>) -> Seq<char> {
    s.filter(|c: char| c != ' ')
}

/// The quads of a `use` item.
pub open spec fn rs_use_quads(rel: Seq<char>, path: Seq<char>) -> Seq<QuadModel> {
    let iu = spec_code_ns("import/"@ + without_spaces(colons_to_slashes(path)));
    seq![
        rtype(iu, "Import"@),
        rq(iu, "importPath"@, lit(path)),
        rq(spec_code_ns(rel), "hasImport"@, TermModel::Iri(iu)),
    ]
}

/// The quads of a `mod` item: nothing when its body is inline.
pub open spec fn rs_mod_quads(rel: Seq<char>, name: Seq<char>, inline: bool) -> Seq<QuadModel> {
    if inline {
        Seq::empty()
    } else {
        let mu = spec_code_ns(rel + "/"@ + name);
        seq![rtype(mu, "Module"@), rq(mu, "name"@, lit(name)), rq(spec_code_ns(rel), "hasModule"@, TermModel::Iri(mu))]
    }
}

/// The quads of a top-level item.
pub open spec fn rs_item_quads(rel: Seq<char>, it: RsItem) -> Seq<QuadModel> {
    match it {
        RsItem::Fn(f) => rs_fn_quads(rel, f),
        RsItem::Struct(s) => rs_struct_quads(rel, s),
        RsItem::Enum(e) => rs_enum_quads(rel, e),
        RsItem::Trait(t) => rs_trait_quads(rel, t),
        RsItem::Impl(i) => rs_impl_quads(rel, i),
        RsItem::Use(p) => rs_use_quads(rel, p@),
        RsItem::Mod(n, inline) => rs_mod_quads(rel, n@, inline),
        RsItem::Other => Seq::empty(),
    }
}

/// The quads of the items.
pub open spec fn rs_items_quads(rel: Seq<char>, its: Seq<RsItem>) -> Seq<QuadModel>
    decreases its.len(),
{
    if its.len() == 0 {
        Seq::empty()
    } else {
        rs_items_quads(rel, its.drop_last()) + rs_item_quads(rel, its.last())
    }
}

/// The quads of a Rust file at `path` (`rel` within its project).
pub open spec fn rs_file_quads(path: Seq<char>, rel: Seq<char>, its: Seq<RsItem>) -> Seq<QuadModel> {
    let m = spec_code_ns(rel);
    seq![
        rtype(m, "Module"@),
        rq(m, "filePath"@, lit(path)),
        rq(m, "relativePath"@, lit(rel)),
        rq(m, "language"@, lit("rust"@)),
    ] + rs_items_quads(rel, its)
}

/// Every line number fits an `xsd:integer` with room for one more.
pub open spec fn fn_lines_ok(f: RsFn) -> bool {
    f.line < i64::MAX && f.end_line < i64::MAX
}

/// Every line number of an item fits an `xsd:integer` with room for one more.
pub open spec fn item_lines_ok(it: RsItem) -> bool {
    match it {
        RsItem::Fn(f) => fn_lines_ok(f),
        RsItem::Struct(s) => s.line < i64::MAX && match s.named_fields {
            Some(fs) => forall|i: int| 0 <= i < fs@.len() ==> (#[trigger] fs@[i]).1 < i64::MAX,
            None => true,
        },
        RsItem::Enum(e) => e.line < i64::MAX && forall|i: int| 0 <= i < e.variants@.len() ==> (#[trigger] e.variants@[i]).1 < i64::MAX,
        RsItem::Trait(t) => t.line < i64::MAX,
        RsItem::Impl(im) => forall|i: int| 0 <= i < im.methods@.len() ==> fn_lines_ok(#[trigger] im.methods@[i]),
        _ => true,
    }
}

/// The graph of Rust code.
fn rust_graph_exec() -> (r: GraphName)
    ensures
        r@ == rust_graph(),
{
    GraphName::Named(code_ns("rust"))
}

/// A quad of the Rust graph.
fn rquad(s: &str, p: &str, o: Term) -> (r: Quad)
    ensures
        r@ == rq(s@, p@, o@),
{
    quad(s, p, o, rust_graph_exec())
}

/// A type quad of the Rust graph.
fn rtype_quad(s: &str, class: &str) -> (r: Quad)
    ensures
        r@ == rtype(s@, class@),
{
    quad_type(s, class, rust_graph_exec())
}

/// The text of a visibility.
pub fn visibility_str(v: RsVis) -> (r: &'static str)
    ensures
        r@ == vis_text(v),
{
    match v {
        RsVis::Public => "pub",
        RsVis::Restricted => "restricted",
        RsVis::Inherited => "private",
    }
}

/// The parts joined by `sep`.
fn join_parts(parts: &Vec<String>, sep: &str) -> (r: String)
    ensures
        r@ == spec_join(parts@.map_values(|x: String| x@), sep@),
{
    let ghost ps = parts@.map_values(|x: String| x@);
    let mut out = String::new();
    let mut i: usize = 0;
    while i < parts.len()
        invariant
            0 <= i <= parts@.len(),
            ps == parts@.map_values(|x: String| x@),
            out@ == spec_join(ps.take(i as int), sep@),
        decreases parts.len() - i,
    {
        assert(ps.take(i + 1).drop_last() =~= ps.take(i as int));
        if i > 0 {
            out.append(sep);
        }
        out.append(parts[i].as_str());
        proof {
            if i == 0 {
                assert(ps.take(1) =~= seq![ps[0]]);
                assert(out@ =~= ps[0]);
            }
        }
        i += 1;
    }
    assert(ps.take(ps.len() as int) =~= ps);
    out
}

/// The docstring of an item: its doc comments, trimmed and joined by newlines.
pub fn extract_docstring(attrs: &Vec<RsAttr>) -> (r: Option<String>)
    ensures
        match r {
            Some(d) => rs_docstring(attrs@) == Some(d@),
            None => rs_docstring(attrs@) is None,
        },
{
    let mut docs: Vec<String> = Vec::new();
    let mut i: usize = 0;
    while i < attrs.len()
        invariant
            0 <= i <= attrs@.len(),
            docs@.map_values(|x: String| x@) == doc_lines(attrs@.take(i as int)),
        decreases attrs.len() - i,
    {
        assert(attrs@.take(i + 1).drop_last() =~= attrs@.take(i as int));
        match &attrs[i] {
            RsAttr::Doc(d) => {
                let t = trim_exec(&chars_of(d.as_str()));
                docs.push(string_of(&t));
            },
            RsAttr::Other => {},
        }
        assert(docs@.map_values(|x: String| x@) =~= doc_lines(attrs@.take(i + 1)));
        i += 1;
    }
    assert(attrs@.take(attrs@.len() as int) =~= attrs@);
    if docs.len() == 0 {
        None
    } else {
        Some(join_parts(&docs, "\n"))
    }
}

/// Appends a literal quad of the Rust graph when the value is present.
fn emit_ropt(out: &mut Vec<Quad>, s: &str, p: &str, v: &Option<String>)
    ensures
        quads_model(final(out)@) == quads_model(old(out)@) + ropt(s@, p@, match v {
            Some(x) => Some(x@),
            None => None,
        }),
{
    let ghost start = quads_model(out@);
    match v {
        Some(x) => emit(out, rquad(s, p, string_literal(x.as_str()))),
        None => {},
    }
    assert(quads_model(out@) =~= start + ropt(s@, p@, match v {
        Some(x) => Some(x@),
        None => None,
    }));
}

/// Appends the quads after a function's position: parameters, return type, docstring.
fn emit_fn_details(out: &mut Vec<Quad>, fu: &str, f: &RsFn)
    ensures
        quads_model(final(out)@) == quads_model(old(out)@) + fn_detail_quads(fu@, *f),
{
    let ghost start = quads_model(out@);
    let mut i: usize = 0;
    while i < f.params.len()
        invariant
            0 <= i <= f.params@.len(),
            quads_model(out@) == start + rs_param_quads(fu@, f.params@.take(i as int)),
        decreases f.params.len() - i,
    {
        assert(f.params@.take(i + 1).drop_last() =~= f.params@.take(i as int));
        let t: &str = match &f.params[i] {
            RsParam::SelfParam => "self",
            RsParam::Typed(t) => t.as_str(),
        };
        emit(out, rquad(fu, "parameter", string_literal(t)));
        assert(quads_model(out@) =~= start + rs_param_quads(fu@, f.params@.take(i + 1)));
        i += 1;
    }
    assert(f.params@.take(f.params@.len() as int) =~= f.params@);
    let ghost mid = quads_model(out@);
    emit_ropt(out, fu, "returnType", &f.output);
    let doc = extract_docstring(&f.attrs);
    emit_ropt(out, fu, "docstring", &doc);
    assert(quads_model(out@) =~= start + fn_detail_quads(fu@, *f));
}

/// An `xsd:integer` literal of a line number.
fn line_lit(n: usize) -> (r: Term)
    requires
        n <= i64::MAX,
    ensures
        r@ == int_lit(n as nat),
{
    integer_literal(n as i64)
}

/// `a`, `"/"` and `b` joined.
fn slash2(a: &str, b: &str) -> (r: String)
    ensures
        r@ == a@ + "/"@ + b@,
{
    let mut out = to_owned_string(a);
    out.append("/");
    out.append(b);
    out
}

/// Appends the quads of a free function.
fn emit_fn(out: &mut Vec<Quad>, rel: &str, m: &String, f: &RsFn)
    requires
        m@ == spec_code_ns(rel@),
        fn_lines_ok(*f),
    ensures
        quads_model(final(out)@) == quads_model(old(out)@) + rs_fn_quads(rel@, *f),
{
    let ghost start = quads_model(out@);
    let fu = code_ns(slash2(rel, f.name.as_str()).as_str());
    emit(out, rtype_quad(fu.as_str(), "Function"));
    emit(out, rquad(fu.as_str(), "name", string_literal(f.name.as_str())));
    emit(out, rquad(fu.as_str(), "definedIn", Term::Iri(clone_string(m))));
    emit(out, rquad(fu.as_str(), "visibility", string_literal(visibility_str(f.vis))));
    emit(out, rquad(fu.as_str(), "startLine", line_lit(f.line)));
    emit(out, rquad(fu.as_str(), "endLine", line_lit(f.end_line)));
    emit_fn_details(out, fu.as_str(), f);
    assert(quads_model(out@) =~= start + rs_fn_quads(rel@, *f));
}

/// Appends the head quads of a struct, enum or trait; returns its IRI.
fn emit_item_head(out: &mut Vec<Quad>, rel: &str, m: &String, class: &str, name: &str, vis: RsVis, line: usize) -> (u: String)
    requires
        m@ == spec_code_ns(rel@),
        line < i64::MAX,
    ensures
        u@ == spec_code_ns(rel@ + "/"@ + name@),
        quads_model(final(out)@) == quads_model(old(out)@) + item_head(rel@, class@, name@, vis, line),
{
    let ghost start = quads_model(out@);
    let u = code_ns(slash2(rel, name).as_str());
    emit(out, rtype_quad(u.as_str(), class));
    emit(out, rquad(u.as_str(), "name", string_literal(name)));
    emit(out, rquad(u.as_str(), "definedIn", Term::Iri(clone_string(m))));
    emit(out, rquad(u.as_str(), "visibility", string_literal(visibility_str(vis))));
    emit(out, rquad(u.as_str(), "startLine", line_lit(line)));
    assert(quads_model(out@) =~= start + item_head(rel@, class@, name@, vis, line));
    u
}

/// Appends one literal quad per name.
fn emit_name_lits(out: &mut Vec<Quad>, u: &str, p: &str, ns: &Vec<(String, usize)>)
    ensures
        quads_model(final(out)@) == quads_model(old(out)@) + name_lits(u@, p@, ns@),
{
    let ghost start = quads_model(out@);
    let mut i: usize = 0;
    while i < ns.len()
        invariant
            0 <= i <= ns@.len(),
            quads_model(out@) == start + name_lits(u@, p@, ns@.take(i as int)),
        decreases ns.len() - i,
    {
        assert(ns@.take(i + 1).drop_last() =~= ns@.take(i as int));
        emit(out, rquad(u, p, string_literal(ns[i].0.as_str())));
        assert(quads_model(out@) =~= start + name_lits(u@, p@, ns@.take(i + 1)));
        i += 1;
    }
    assert(ns@.take(ns@.len() as int) =~= ns@);
}

/// Appends the end line of a struct or enum: the line after its last field or variant.
fn emit_end_after(out: &mut Vec<Quad>, u: &str, ns: &Vec<(String, usize)>)
    requires
        forall|i: int| 0 <= i < ns@.len() ==> (#[trigger] ns@[i]).1 < i64::MAX,
    ensures
        quads_model(final(out)@) == quads_model(old(out)@) + end_after(u@, ns@),
{
    let ghost start = quads_model(out@);
    if ns.len() > 0 {
        let last = ns[ns.len() - 1].1;
        assert(last == ns@[ns@.len() - 1].1);
        emit(out, rquad(u, "endLine", integer_literal((last as i64) + 1)));
    }
    assert(quads_model(out@) =~= start + end_after(u@, ns@));
}

/// Appends the quads of a top-level item other than a function.
fn emit_item(out: &mut Vec<Quad>, rel: &str, m: &String, it: &RsItem)
    requires
        m@ == spec_code_ns(rel@),
        item_lines_ok(*it),
    ensures
        quads_model(final(out)@) == quads_model(old(out)@) + rs_item_quads(rel@, *it),
{
    let ghost start = quads_model(out@);
    match it {
        RsItem::Fn(f) => emit_fn(out, rel, m, f),
        RsItem::Struct(s) => {
            let u = emit_item_head(out, rel, m, "Class", s.name.as_str(), s.vis, s.line);
            match &s.named_fields {
                Some(fs) => {
                    emit_end_after(out, u.as_str(), fs);
                    emit_name_lits(out, u.as_str(), "hasField", fs);
                },
                None => {},
            }
            let doc = extract_docstring(&s.attrs);
            emit_ropt(out, u.as_str(), "docstring", &doc);
        },
        RsItem::Enum(e) => {
            let u = emit_item_head(out, rel, m, "Enum", e.name.as_str(), e.vis, e.line);
            emit_name_lits(out, u.as_str(), "hasVariant", &e.variants);
            emit_end_after(out, u.as_str(), &e.variants);
            let doc = extract_docstring(&e.attrs);
            emit_ropt(out, u.as_str(), "docstring", &doc);
        },
        RsItem::Trait(t) => {
            let u = emit_item_head(out, rel, m, "Trait", t.name.as_str(), t.vis, t.line);
            let ghost mid = quads_model(out@);
            let mut i: usize = 0;
            while i < t.methods.len()
                invariant
                    0 <= i <= t.methods@.len(),
                    quads_model(out@) == mid + method_lits(u@, t.methods@.take(i as int)),
                decreases t.methods.len() - i,
            {
                assert(t.methods@.take(i + 1).drop_last() =~= t.methods@.take(i as int));
                emit(out, rquad(u.as_str(), "hasMethod", string_literal(t.methods[i].as_str())));
                assert(quads_model(out@) =~= mid + method_lits(u@, t.methods@.take(i + 1)));
                i += 1;
            }
            assert(t.methods@.take(t.methods@.len() as int) =~= t.methods@);
            let doc = extract_docstring(&t.attrs);
            emit_ropt(out, u.as_str(), "docstring", &doc);
        },
        RsItem::Impl(im) => emit_impl(out, rel, m, im),
        RsItem::Use(p) => {
            let path = p.as_str();
            let mut local = to_owned_string("import/");
            let slashed = without_spaces_exec(colons_to_slashes_exec(path).as_str());
            local.append(slashed.as_str());
            let iu = code_ns(local.as_str());
            emit(out, rtype_quad(iu.as_str(), "Import"));
            emit(out, rquad(iu.as_str(), "importPath", string_literal(path)));
            emit(out, rquad(m.as_str(), "hasImport", Term::Iri(iu)));
        },
        RsItem::Mod(n, inline) => {
            if !*inline {
                let mu = code_ns(slash2(rel, n.as_str()).as_str());
                emit(out, rtype_quad(mu.as_str(), "Module"));
                emit(out, rquad(mu.as_str(), "name", string_literal(n.as_str())));
                emit(out, rquad(m.as_str(), "hasModule", Term::Iri(mu)));
            }
        },
        RsItem::Other => {},
    }
    assert(quads_model(out@) =~= start + rs_item_quads(rel@, *it));
}

/// Appends the quads of an impl block.
fn emit_impl(out: &mut Vec<Quad>, rel: &str, m: &String, im: &RsImpl)
    requires
        m@ == spec_code_ns(rel@),
        forall|i: int| 0 <= i < im.methods@.len() ==> fn_lines_ok(#[trigger] im.methods@[i]),
    ensures
        quads_model(final(out)@) == quads_model(old(out)@) + rs_impl_quads(rel@, *im),
{
    let ghost start = quads_model(out@);
    let tl = type_local_exec(im.self_ty.as_str());
    let tu = code_ns(slash2(rel, tl.as_str()).as_str());
    match &im.trait_path {
        Some(t) => emit(out, rquad(tu.as_str(), "implements", string_literal(t.as_str()))),
        None => {},
    }
    assert(quads_model(out@) =~= start + ropt(tu@, "implements"@, match im.trait_path {
        Some(t) => Some(t@),
        None => None,
    }));
    let ghost mid = quads_model(out@);
    let mut i: usize = 0;
    while i < im.methods.len()
        invariant
            0 <= i <= im.methods@.len(),
            m@ == spec_code_ns(rel@),
            tl@ == type_local(im.self_ty@),
            tu@ == spec_code_ns(rel@ + "/"@ + tl@),
            forall|j: int| 0 <= j < im.methods@.len() ==> fn_lines_ok(#[trigger] im.methods@[j]),
            quads_model(out@) == mid + rs_methods_quads(rel@, tl@, im.methods@.take(i as int)),
        decreases im.methods.len() - i,
    {
        assert(im.methods@.take(i + 1).drop_last() =~= im.methods@.take(i as int));
        let f = &im.methods[i];
        assert(fn_lines_ok(im.methods@[i as int]));
        let ghost before = quads_model(out@);
        let fu = code_ns(slash2(slash2(rel, tl.as_str()).as_str(), f.name.as_str()).as_str());
        emit(out, rtype_quad(fu.as_str(), "Function"));
        emit(out, rquad(fu.as_str(), "name", string_literal(f.name.as_str())));
        emit(out, rquad(fu.as_str(), "definedIn", Term::Iri(clone_string(m))));
        emit(out, rquad(fu.as_str(), "visibility", string_literal(visibility_str(f.vis))));
        emit(out, rquad(tu.as_str(), "hasFunction", Term::Iri(clone_string(&fu))));
        emit(out, rquad(fu.as_str(), "startLine", line_lit(f.line)));
        emit(out, rquad(fu.as_str(), "endLine", line_lit(f.end_line)));
        emit_fn_details(out, fu.as_str(), f);
        assert(quads_model(out@) =~= before + rs_method_quads(rel@, tl@, *f));
        assert(quads_model(out@) =~= mid + rs_methods_quads(rel@, tl@, im.methods@.take(i + 1)));
        i += 1;
    }
    assert(im.methods@.take(im.methods@.len() as int) =~= im.methods@);
}

/// The part of `s` after the last `::`, trimmed.
fn type_local_exec(s: &str) -> (r: String)
    ensures
        r@ == type_local(s@),
{
    let cs = chars_of(s);
    let mut k: usize = cs.len();
    assert(cs@.take(k as int) =~= cs@);
    assert(cs@.subrange(k as int, cs@.len() as int) =~= Seq::<char>::empty());
    assert(last_segment(s@) =~= last_segment(cs@.take(k as int)) + cs@.subrange(k as int, cs@.len() as int));
    while k >= 2 && !(cs[k - 2] == ':' && cs[k - 1] == ':')
        invariant
            k <= cs@.len(),
            cs@ == s@,
            last_segment(s@) == last_segment(cs@.take(k as int)) + cs@.subrange(k as int, cs@.len() as int),
        decreases k,
    {
        assert(cs@.take(k as int).drop_last() =~= cs@.take(k - 1));
        assert(cs@.subrange(k - 1, cs@.len() as int) =~= seq![cs@[k - 1]] + cs@.subrange(k as int, cs@.len() as int));
        k -= 1;
    }
    proof {
        if k >= 2 {
            assert(last_segment(cs@.take(k as int)) == Seq::<char>::empty());
        } else {
            assert(last_segment(cs@.take(k as int)) == cs@.take(k as int));
            assert(cs@.take(k as int) + cs@.subrange(k as int, cs@.len() as int) =~= cs@);
        }
    }
    let tail = crate::text::slice_vec(&cs, k, cs.len());
    proof {
        if k >= 2 {
            assert(last_segment(s@) =~= tail@);
        } else {
            assert(last_segment(s@) =~= cs@);
            assert(tail@ =~= cs@.subrange(k as int, cs@.len() as int));
        }
    }
    if k < 2 {
        let t = trim_exec(&cs);
        assert(last_segment(s@) =~= cs@);
        return string_of(&t);
    }
    let t = trim_exec(&tail);
    string_of(&t)
}

/// `s` with every `::` replaced by `/`, left to right.
fn colons_to_slashes_exec(s: &str) -> (r: String)
    ensures
        r@ == colons_to_slashes(s@),
{
    let cs = chars_of(s);
    let mut out = String::new();
    let mut i: usize = 0;
    assert(cs@.skip(0) =~= cs@);
    assert(out@ + colons_to_slashes(cs@.skip(0)) =~= colons_to_slashes(s@));
    while i < cs.len()
        invariant
            0 <= i <= cs@.len(),
            cs@ == s@,
            out@ + colons_to_slashes(cs@.skip(i as int)) == colons_to_slashes(s@),
        decreases cs.len() - i,
    {
        if i + 1 < cs.len() && cs[i] == ':' && cs[i + 1] == ':' {
            assert(cs@.skip(i as int).skip(2) =~= cs@.skip(i + 2));
            push_char(&mut out, '/');
            assert(out@ + colons_to_slashes(cs@.skip(i + 2)) =~= colons_to_slashes(s@));
            i += 2;
        } else {
            assert(cs@.skip(i as int).skip(1) =~= cs@.skip(i + 1));
            push_char(&mut out, cs[i]);
            assert(out@ + colons_to_slashes(cs@.skip(i + 1)) =~= colons_to_slashes(s@));
            i += 1;
        }
    }
    assert(colons_to_slashes(cs@.skip(i as int)) =~= Seq::<char>::empty());
    assert(out@ =~= colons_to_slashes(s@));
    out
}

/// `s` without its spaces.
fn without_spaces_exec(s: &str) -> (r: String)
    ensures
        r@ == without_spaces(s@),
{
    let cs = chars_of(s);
    let mut out = String::new();
    let mut i: usize = 0;
    while i < cs.len()
        invariant
            0 <= i <= cs@.len(),
            cs@ == s@,
            out@ == without_spaces(cs@.take(i as int)),
        decreases cs.len() - i,
    {
        assert(cs@.take(i + 1) =~= cs@.take(i as int).push(cs@[i as int]));
        proof {
            cs@.take(i as int).lemma_filter_push(cs@[i as int], |c: char| c != ' ');
        }
        if cs[i] != ' ' {
            push_char(&mut out, cs[i]);
        }
        assert(out@ =~= without_spaces(cs@.take(i + 1)));
        i += 1;
    }
    assert(cs@.take(cs@.len() as int) =~= cs@);
    out
}

/// The dependency quads of `Cargo.toml` for project `name`.
pub open spec fn cargo_deps(name: Seq<char>, p: Seq<char>, deps: Seq<(String, TomlValue)>) -> Seq<QuadModel>
    decreases deps.len(),
{
    if deps.len() == 0 {
        Seq::empty()
    } else {
        let dn = deps.last().0@;
        let d = spec_code_ns("project/"@ + name + "/dep/"@ + dn);
        cargo_deps(name, p, deps.drop_last()) + seq![
            rtype(d, "Dependency"@),
            rq(d, "name"@, lit(dn)),
            rq(p, "hasDependency"@, TermModel::Iri(d)),
        ] + ropt(d, "version"@, crate::python::entry_version(deps.last().1))
    }
}

/// The quads of `Cargo.toml`: the package, its version, description, edition and dependencies.
pub open spec fn cargo_quads(doc: TomlValue) -> Seq<QuadModel> {
    let table = match doc {
        TomlValue::Table(es) => es@,
        _ => Seq::empty(),
    };
    match entry_get(table, "package"@) {
        Some(TomlValue::Table(pkg)) => {
            let name = match opt_str(entry_get(pkg@, "name"@)) {
                Some(n) => n,
                None => "unknown"@,
            };
            let p = spec_code_ns("project/"@ + name);
            seq![rtype(p, "Project"@), rq(p, "name"@, lit(name))]
                + ropt(p, "version"@, opt_str(entry_get(pkg@, "version"@)))
                + ropt(p, "description"@, opt_str(entry_get(pkg@, "description"@)))
                + ropt(p, "edition"@, opt_str(entry_get(pkg@, "edition"@)))
                + match entry_get(table, "dependencies"@) {
                Some(TomlValue::Table(deps)) => cargo_deps(name, p, deps@),
                _ => Seq::empty(),
            }
        },
        _ => Seq::empty(),
    }
}

/// The string of a value that is one.
fn str_of_value(v: Option<&TomlValue>) -> (r: Option<String>)
    ensures
        match r {
            Some(s) => opt_str(match v {
                Some(x) => Some(*x),
                None => None,
            }) == Some(s@),
            None => opt_str(match v {
                Some(x) => Some(*x),
                None => None,
            }) is None,
        },
{
    match v {
        Some(TomlValue::Str(s)) => Some(clone_string(s)),
        _ => None,
    }
}

/// The quads of `Cargo.toml` at `file`, given as parsed or with the parser's
/// message: the package, its version, description, edition and dependencies.
#[verifier::rlimit(40)]
pub fn parse_cargo_toml(file: &str, content: &str) -> (r: Result<Vec<Quad>, LoadError>)
    ensures
        match toml_doc(content@) {
            Err(e) => r matches Err(err) && err@ == LoadErrorModel::Parse(file@, None, e),
            Ok(d) => r matches Ok(qs) && quads_model(qs@) == cargo_quads(d),
        },
{
    let doc = parse_toml(content);
    let d = match &doc {
        Err(e) => {
            return Err(parse_error(file, e));
        },
        Ok(d) => d,
    };
    let mut quads: Vec<Quad> = Vec::new();
    let empty: Vec<(String, TomlValue)> = Vec::new();
    let table: &Vec<(String, TomlValue)> = match d {
        TomlValue::Table(es) => es,
        _ => &empty,
    };
    let pkg = match crate::python::get_entry(table, "package") {
        Some(TomlValue::Table(pkg)) => pkg,
        _ => {
            assert(quads_model(quads@) =~= cargo_quads(*d));
            return Ok(quads);
        },
    };
    let name = match str_of_value(crate::python::get_entry(pkg, "name")) {
        Some(n) => n,
        None => to_owned_string("unknown"),
    };
    let mut local = to_owned_string("project/");
    local.append(name.as_str());
    let p = code_ns(local.as_str());
    emit(&mut quads, rtype_quad(p.as_str(), "Project"));
    emit(&mut quads, rquad(p.as_str(), "name", string_literal(name.as_str())));
    emit_ropt(&mut quads, p.as_str(), "version", &str_of_value(crate::python::get_entry(pkg, "version")));
    emit_ropt(&mut quads, p.as_str(), "description", &str_of_value(crate::python::get_entry(pkg, "description")));
    emit_ropt(&mut quads, p.as_str(), "edition", &str_of_value(crate::python::get_entry(pkg, "edition")));
    let ghost head = quads_model(quads@);
    match crate::python::get_entry(table, "dependencies") {
        Some(TomlValue::Table(deps)) => {
            let mut i: usize = 0;
            while i < deps.len()
                invariant
                    0 <= i <= deps@.len(),
                    p@ == spec_code_ns("project/"@ + name@),
                    quads_model(quads@) == head + cargo_deps(name@, p@, deps@.take(i as int)),
                decreases deps.len() - i,
            {
                assert(deps@.take(i + 1).drop_last() =~= deps@.take(i as int));
                let dn = deps[i].0.as_str();
                let mut dl = to_owned_string("project/");
                dl.append(name.as_str());
                dl.append("/dep/");
                dl.append(dn);
                let dd = code_ns(dl.as_str());
                emit(&mut quads, rtype_quad(dd.as_str(), "Dependency"));
                emit(&mut quads, rquad(dd.as_str(), "name", string_literal(dn)));
                emit(&mut quads, rquad(p.as_str(), "hasDependency", Term::Iri(clone_string(&dd))));
                let ver: Option<String> = match &deps[i].1 {
                    TomlValue::Str(v) => Some(clone_string(v)),
                    TomlValue::Table(t) => str_of_value(crate::python::get_entry(t, "version")),
                    _ => None,
                };
                emit_ropt(&mut quads, dd.as_str(), "version", &ver);
                assert(quads_model(quads@) =~= head + cargo_deps(name@, p@, deps@.take(i + 1)));
                i += 1;
            }
            assert(deps@.take(deps@.len() as int) =~= deps@);
        },
        _ => {},
    }
    assert(quads_model(quads@) =~= cargo_quads(*d));
    Ok(quads)
}

// ---------------------------------------------------------------------------
// Parsing Rust source text
// ---------------------------------------------------------------------------

#[verifier::external_type_specification]
#[verifier::external_body]
pub struct ExSynItem(syn::Item);

#[verifier::external_type_specification]
#[verifier::external_body]
pub struct ExSynVisibility(syn::Visibility);

#[verifier::external_type_specification]
#[verifier::external_body]
pub struct ExSynAttribute(syn::Attribute);

#[verifier::external_type_specification]
#[verifier::external_body]
pub struct ExSynSignature(syn::Signature);

#[verifier::external_type_specification]
#[verifier::external_body]
pub struct ExSynBlock(syn::Block);

#[verifier::external_type_specification]
#[verifier::external_body]
pub struct ExSynItemStruct(syn::ItemStruct);

#[verifier::external_type_specification]
#[verifier::external_body]
pub struct ExSynItemEnum(syn::ItemEnum);

#[verifier::external_type_specification]
#[verifier::external_body]
pub struct ExSynItemTrait(syn::ItemTrait);

#[verifier::external_type_specification]
#[verifier::external_body]
pub struct ExSynItemImpl(syn::ItemImpl);

/// A source text parsed into its top-level items, or the line and message
/// of the parser's error.
pub uninterp spec fn rust_tree(content: Seq<char>) -> Result<Seq<RsItem>, (usize, Seq<char>)>;

/// A parse result as plain values.
pub open spec fn rust_tree_model(r: Result<Vec<RsItem>, (usize, String)>) -> Result<Seq<RsItem>, (usize, Seq<char>)> {
    match r {
        Ok(its) => Ok(its@),
        Err((line, m)) => Err((line, m@)),
    }
}

/// A `syn::Visibility` as an `RsVis`.
#[verifier::external_body]
fn rs_vis_of(v: &Visibility) -> RsVis {
    match v {
        Visibility::Public(_) => RsVis::Public,
        Visibility::Restricted(_) => RsVis::Restricted,
        Visibility::Inherited => RsVis::Inherited,
    }
}

/// A `syn::Attribute` as an `RsAttr`: a `doc` attribute with a string value
/// gives its text, anything else `Other`.
#[verifier::external_body]
fn rs_attr_of(attr: &syn::Attribute) -> RsAttr {
    match &attr.meta {
        syn::Meta::NameValue(nv) if nv.path.is_ident("doc") => match &nv.value {
            syn::Expr::Lit(syn::ExprLit { lit: syn::Lit::Str(s), .. }) => RsAttr::Doc(s.value()),
            _ => RsAttr::Other,
        },
        _ => RsAttr::Other,
    }
}

/// The attributes, each as an `RsAttr`.
#[verifier::external_body]
fn rs_attrs_of(attrs: &[syn::Attribute]) -> Vec<RsAttr> {
    attrs.iter().map(rs_attr_of).collect()
}

/// A signature's parameters: `self` in any form, or the pattern as tokens.
#[verifier::external_body]
fn rs_params_of(sig: &syn::Signature) -> Vec<RsParam> {
    sig.inputs
        .iter()
        .map(|p| match p {
            syn::FnArg::Receiver(_) => RsParam::SelfParam,
            syn::FnArg::Typed(t) => RsParam::Typed(t.pat.to_token_stream().to_string()),
        })
        .collect()
}

/// A function: visibility, name and its line, parameters, return type as
/// tokens, the line of its closing brace, attributes.
#[verifier::external_body]
fn rs_fn_of(vis: &Visibility, sig: &syn::Signature, block: &syn::Block, attrs: &[syn::Attribute]) -> RsFn {
    RsFn {
        vis: rs_vis_of(vis),
        name: sig.ident.to_string(),
        line: sig.ident.span().start().line,
        params: rs_params_of(sig),
        output: match &sig.output {
            syn::ReturnType::Default => None,
            syn::ReturnType::Type(_, ty) => Some(ty.to_token_stream().to_string()),
        },
        end_line: block.brace_token.span.close().start().line,
        attrs: rs_attrs_of(attrs),
    }
}

/// A struct: its named fields with the line of each name, when it has named fields.
#[verifier::external_body]
fn rs_struct_of(s: &syn::ItemStruct) -> RsStruct {
    let named_fields = match &s.fields {
        syn::Fields::Named(fs) => {
            Some(fs.named.iter().filter_map(|f| f.ident.as_ref().map(|i| (i.to_string(), i.span().start().line))).collect())
        },
        _ => None,
    };
    RsStruct { vis: rs_vis_of(&s.vis), name: s.ident.to_string(), line: s.ident.span().start().line, named_fields, attrs: rs_attrs_of(&s.attrs) }
}

/// An enum: its variants with the line of each name.
#[verifier::external_body]
fn rs_enum_of(e: &syn::ItemEnum) -> RsEnum {
    RsEnum {
        vis: rs_vis_of(&e.vis),
        name: e.ident.to_string(),
        line: e.ident.span().start().line,
        variants: e.variants.iter().map(|v| (v.ident.to_string(), v.ident.span().start().line)).collect(),
        attrs: rs_attrs_of(&e.attrs),
    }
}

/// A trait: the names of its methods.
#[verifier::external_body]
fn rs_trait_of(t: &syn::ItemTrait) -> RsTrait {
    let methods = t.items.iter().filter_map(|i| match i {
        syn::TraitItem::Fn(m) => Some(m.sig.ident.to_string()),
        _ => None,
    }).collect();
    RsTrait { vis: rs_vis_of(&t.vis), name: t.ident.to_string(), line: t.ident.span().start().line, methods, attrs: rs_attrs_of(&t.attrs) }
}

/// An impl block: the type and the trait as tokens, and its methods.
#[verifier::external_body]
fn rs_impl_of(i: &syn::ItemImpl) -> RsImpl {
    let methods = i.items.iter().filter_map(|it| match it {
        syn::ImplItem::Fn(m) => Some(rs_fn_of(&m.vis, &m.sig, &m.block, &m.attrs)),
        _ => None,
    }).collect();
    RsImpl { self_ty: i.self_ty.to_token_stream().to_string(), trait_path: i.trait_.as_ref().map(|(_, p, _)| p.to_token_stream().to_string()), methods }
}

/// A top-level `syn::Item` as an `RsItem`.
#[verifier::external_body]
fn rs_item_of(item: &Item) -> RsItem {
    match item {
        Item::Fn(f) => RsItem::Fn(rs_fn_of(&f.vis, &f.sig, &f.block, &f.attrs)),
        Item::Struct(s) => RsItem::Struct(rs_struct_of(s)),
        Item::Enum(e) => RsItem::Enum(rs_enum_of(e)),
        Item::Trait(t) => RsItem::Trait(rs_trait_of(t)),
        Item::Impl(i) => RsItem::Impl(rs_impl_of(i)),
        Item::Use(u) => RsItem::Use(u.tree.to_token_stream().to_string()),
        Item::Mod(m) => RsItem::Mod(m.ident.to_string(), m.content.is_some()),
        _ => RsItem::Other,
    }
}

/// `syn::parse_file`: the text's top-level items, named `rust_tree`; an
/// error gives the line it points at and the parser's message.
#[verifier::external_body]
fn parse_rust_source(content: &str) -> (r: Result<Vec<RsItem>, (usize, String)>)
    ensures
        rust_tree_model(r) == rust_tree(content@),
{
    match syn::parse_file(content) {
        Ok(file) => Ok(file.items.iter().map(rs_item_of).collect()),
        Err(e) => Err((e.span().start().line, e.to_string())),
    }
}

/// What loading a Rust file at `path` (`rel_path` within its project) gives
/// for the parse `tree` of its text: the parser's line and message; an error
/// when a line number is too large to be written; otherwise the quads of the
/// module and its items.
pub open spec fn rust_load_result(
    path: Seq<char>,
    rel_path: Seq<char>,
    tree: Result<Seq<RsItem>, (usize, Seq<char>)>,
    r: Result<Vec<Quad>, LoadError>,
) -> bool {
    match tree {
        Err((ln, m)) => r matches Err(err) && err@ == LoadErrorModel::Parse(path, Some(ln), m),
        Ok(items) => if all_item_lines_ok(items) {
            r matches Ok(qs) && quads_model(qs@) == rs_file_quads(path, rel_path, items)
        } else {
            r matches Err(err) && err@ == LoadErrorModel::Parse(path, None, "line number out of range"@)
        },
    }
}

/// Every line number of the items fits an `xsd:integer` with room for one more.
pub open spec fn all_item_lines_ok(items: Seq<RsItem>) -> bool {
    forall|i: int| 0 <= i < items.len() ==> item_lines_ok(#[trigger] items[i])
}

/// Whether every line number of the items fits an `xsd:integer` with room for one more.
fn items_lines_ok(its: &Vec<RsItem>) -> (r: bool)
    ensures
        r == all_item_lines_ok(its@),
{
    let mut i: usize = 0;
    while i < its.len()
        invariant
            0 <= i <= its@.len(),
            forall|k: int| 0 <= k < i ==> item_lines_ok(#[trigger] its@[k]),
        decreases its.len() - i,
    {
        if !item_lines_ok_exec(&its[i]) {
            return false;
        }
        i += 1;
    }
    true
}

/// A line number fits an `xsd:integer` with room for one more.
fn line_ok(n: usize) -> (r: bool)
    ensures
        r == (n < i64::MAX),
{
    (n as u64) < 0x7fff_ffff_ffff_ffffu64
}

fn fn_lines_ok_exec(f: &RsFn) -> (r: bool)
    ensures
        r == fn_lines_ok(*f),
{
    line_ok(f.line) && line_ok(f.end_line)
}

fn named_lines_ok(v: &Vec<(String, usize)>) -> (r: bool)
    ensures
        r == forall|i: int| 0 <= i < v@.len() ==> (#[trigger] v@[i]).1 < i64::MAX,
{
    let mut i: usize = 0;
    while i < v.len()
        invariant
            0 <= i <= v@.len(),
            forall|k: int| 0 <= k < i ==> (#[trigger] v@[k]).1 < i64::MAX,
        decreases v.len() - i,
    {
        if !line_ok(v[i].1) {
            return false;
        }
        i += 1;
    }
    true
}

fn methods_lines_ok(ms: &Vec<RsFn>) -> (r: bool)
    ensures
        r == forall|i: int| 0 <= i < ms@.len() ==> fn_lines_ok(#[trigger] ms@[i]),
{
    let mut i: usize = 0;
    while i < ms.len()
        invariant
            0 <= i <= ms@.len(),
            forall|k: int| 0 <= k < i ==> fn_lines_ok(#[trigger] ms@[k]),
        decreases ms.len() - i,
    {
        if !fn_lines_ok_exec(&ms[i]) {
            return false;
        }
        i += 1;
    }
    true
}

fn item_lines_ok_exec(it: &RsItem) -> (r: bool)
    ensures
        r == item_lines_ok(*it),
{
    match it {
        RsItem::Fn(f) => fn_lines_ok_exec(f),
        RsItem::Struct(s) => line_ok(s.line) && match &s.named_fields {
            Some(fs) => named_lines_ok(fs),
            None => true,
        },
        RsItem::Enum(e) => line_ok(e.line) && named_lines_ok(&e.variants),
        RsItem::Trait(t) => line_ok(t.line),
        RsItem::Impl(im) => methods_lines_ok(&im.methods),
        _ => true,
    }
}

impl RustLoader {
    /// The quads of a Rust source file at `path` (`rel_path` within its
    /// project), from its text: the text is parsed (`rust_tree`), and the
    /// module and its top-level items become quads. A parse error gives its
    /// line and message; a line number too large to be written gives an
    /// error as well.
    pub fn load_file(&self, path: &str, rel_path: &str, content: &str) -> (r: Result<Vec<Quad>, LoadError>)
        ensures
            rust_load_result(path@, rel_path@, rust_tree(content@), r),
    {
        let parsed = parse_rust_source(content);
        if let Ok(its) = &parsed {
            if !items_lines_ok(its) {
                let r = Err(LoadError::Parse {
                    file: to_owned_string(path),
                    line: None,
                    message: to_owned_string("line number out of range"),
                });
                assert(rust_tree(content@) == Ok::<Seq<RsItem>, (usize, Seq<char>)>(its@));
                assert(rust_load_result(path@, rel_path@, rust_tree(content@), r));
                return r;
            }
        }
        self.load_items(path, rel_path, &parsed)
    }

    /// The quads of a Rust source file at `path` (`rel_path` within its
    /// project): the module and its top-level items. `parsed` is the parsed
    /// file, or the line and message of the parser's error.
    pub fn load_items(&self, path: &str, rel_path: &str, parsed: &Result<Vec<RsItem>, (usize, String)>) -> (r: Result<Vec<Quad>, LoadError>)
        requires
            parsed matches Ok(its) ==> forall|i: int| 0 <= i < its@.len() ==> item_lines_ok(#[trigger] its@[i]),
        ensures
            match parsed {
                Err((line, msg)) => r matches Err(err) && err@ == LoadErrorModel::Parse(path@, Some(*line), msg@),
                Ok(its) => r matches Ok(qs) && quads_model(qs@) == rs_file_quads(path@, rel_path@, its@),
            },
    {
        let its = match parsed {
            Err((line, msg)) => {
                return Err(LoadError::Parse { file: to_owned_string(path), line: Some(*line), message: clone_string(msg) });
            },
            Ok(its) => its,
        };
        let m = code_ns(rel_path);
        let mut quads: Vec<Quad> = Vec::new();
        emit(&mut quads, rtype_quad(m.as_str(), "Module"));
        emit(&mut quads, rquad(m.as_str(), "filePath", string_literal(path)));
        emit(&mut quads, rquad(m.as_str(), "relativePath", string_literal(rel_path)));
        emit(&mut quads, rquad(m.as_str(), "language", string_literal("rust")));
        let ghost head = quads_model(quads@);
        let mut i: usize = 0;
        while i < its.len()
            invariant
                0 <= i <= its@.len(),
                m@ == spec_code_ns(rel_path@),
                forall|j: int| 0 <= j < its@.len() ==> item_lines_ok(#[trigger] its@[j]),
                quads_model(quads@) == head + rs_items_quads(rel_path@, its@.take(i as int)),
            decreases its.len() - i,
        {
            assert(its@.take(i + 1).drop_last() =~= its@.take(i as int));
            assert(item_lines_ok(its@[i as int]));
            emit_item(&mut quads, rel_path, &m, &its[i]);
            i += 1;
        }
        assert(its@.take(its@.len() as int) =~= its@);
        assert(quads_model(quads@) =~= rs_file_quads(path@, rel_path@, its@));
        Ok(quads)
    }
}

} // verus!
