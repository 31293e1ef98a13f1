use semantic_code::loader::{into_graph, into_named_graph, language_for_extension, language_for_markers, parse_error, LoadError, ProjectMarkers};
use semantic_code::rdf::{GraphName, Quad, Term};
use semantic_code::rust_source::{
    extract_docstring, parse_cargo_toml, visibility_str, RsAttr, RsEnum, RsFn, RsImpl, RsItem, RsParam,
    RsStruct, RsTrait, RsVis, RustLoader,
};

const NS: &str = "https://ds-labs.org/code#";
const RDF_TYPE: &str = "http://www.w3.org/1999/02/22-rdf-syntax-ns#type";
const XSD_INT: &str = "http://www.w3.org/2001/XMLSchema#integer";

fn code(local: &str) -> String {
    format!("{NS}{local}")
}

fn lit(v: &str) -> Term {
    Term::Literal { value: v.to_string(), datatype: None }
}

fn int_lit(v: usize) -> Term {
    Term::Literal { value: v.to_string(), datatype: Some(XSD_INT.to_string()) }
}

fn rust_graph() -> GraphName {
    GraphName::Named(code("rust"))
}

fn rq(s: &str, p: &str, o: Term) -> Quad {
    Quad { subject: s.to_string(), predicate: code(p), object: o, graph: rust_graph() }
}

fn rtype(s: &str, class: &str) -> Quad {
    Quad { subject: s.to_string(), predicate: RDF_TYPE.to_string(), object: Term::Iri(code(class)), graph: rust_graph() }
}

fn s(v: &str) -> String {
    v.to_string()
}

#[test]
fn test_cargo_toml_parsing() {
    let doc = r#"
[package]
name = "test-project"
version = "1.0.0"
edition = "2021"
description = "A test project"

[dependencies]
serde = "1.0"
tokio = { version = "1", features = ["full"] }
"#;
    let quads = parse_cargo_toml("Cargo.toml", doc).unwrap();
    let p = code("project/test-project");
    let serde = code("project/test-project/dep/serde");
    let tokio = code("project/test-project/dep/tokio");
    assert_eq!(
        quads,
        vec![
            rtype(&p, "Project"),
            rq(&p, "name", lit("test-project")),
            rq(&p, "version", lit("1.0.0")),
            rq(&p, "description", lit("A test project")),
            rq(&p, "edition", lit("2021")),
            rtype(&serde, "Dependency"),
            rq(&serde, "name", lit("serde")),
            rq(&p, "hasDependency", Term::Iri(serde.clone())),
            rq(&serde, "version", lit("1.0")),
            rtype(&tokio, "Dependency"),
            rq(&tokio, "name", lit("tokio")),
            rq(&p, "hasDependency", Term::Iri(tokio.clone())),
            rq(&tokio, "version", lit("1")),
        ]
    );
    assert!(parse_cargo_toml("Cargo.toml", "").unwrap().is_empty());
    assert!(matches!(parse_cargo_toml("Cargo.toml", "[package\nname"), Err(LoadError::Parse { line: None, .. })));
}

fn f(name: &str, vis: RsVis, line: usize, end: usize, params: Vec<RsParam>, out: Option<&str>, attrs: Vec<RsAttr>) -> RsFn {
    RsFn { vis, name: s(name), line, params, output: out.map(s), end_line: end, attrs }
}

#[test]
fn test_rs_ast_extraction() {
    let items = vec![
        RsItem::Fn(f(
            "greet",
            RsVis::Public,
            3,
            5,
            vec![RsParam::Typed(s("name : & str"))],
            Some("String"),
            vec![RsAttr::Doc(s(" A greeting function"))],
        )),
        RsItem::Struct(RsStruct {
            vis: RsVis::Public,
            name: s("Config"),
            line: 7,
            named_fields: Some(vec![(s("host"), 8), (s("port"), 9)]),
            attrs: vec![],
        }),
        RsItem::Enum(RsEnum {
            vis: RsVis::Public,
            name: s("Status"),
            line: 12,
            variants: vec![(s("Active"), 13), (s("Inactive"), 14)],
            attrs: vec![],
        }),
        RsItem::Trait(RsTrait { vis: RsVis::Public, name: s("Handler"), line: 18, methods: vec![s("handle")], attrs: vec![] }),
        RsItem::Impl(RsImpl {
            self_ty: s("Config"),
            trait_path: None,
            methods: vec![f("new", RsVis::Public, 24, 26, vec![RsParam::Typed(s("host : String"))], Some("Self"), vec![])],
        }),
        RsItem::Use(s("std :: collections :: HashMap")),
        RsItem::Mod(s("utils"), false),
        RsItem::Mod(s("inline_mod"), true),
        RsItem::Other,
    ];
    let quads = RustLoader.load_items("/p/src/lib.rs", "src/lib.rs", &Ok(items)).unwrap();
    let m = code("src/lib.rs");
    let g = code("src/lib.rs/greet");
    let c = code("src/lib.rs/Config");
    let e = code("src/lib.rs/Status");
    let t = code("src/lib.rs/Handler");
    let n = code("src/lib.rs/Config/new");
    let imp = code("import/std/collections/HashMap");
    let md = code("src/lib.rs/utils");
    let expected = vec![
        rtype(&m, "Module"),
        rq(&m, "filePath", lit("/p/src/lib.rs")),
        rq(&m, "relativePath", lit("src/lib.rs")),
        rq(&m, "language", lit("rust")),
        rtype(&g, "Function"),
        rq(&g, "name", lit("greet")),
        rq(&g, "definedIn", Term::Iri(m.clone())),
        rq(&g, "visibility", lit("pub")),
        rq(&g, "startLine", int_lit(3)),
        rq(&g, "endLine", int_lit(5)),
        rq(&g, "parameter", lit("name : & str")),
        rq(&g, "returnType", lit("String")),
        rq(&g, "docstring", lit("A greeting function")),
        rtype(&c, "Class"),
        rq(&c, "name", lit("Config")),
        rq(&c, "definedIn", Term::Iri(m.clone())),
        rq(&c, "visibility", lit("pub")),
        rq(&c, "startLine", int_lit(7)),
        rq(&c, "endLine", int_lit(10)),
        rq(&c, "hasField", lit("host")),
        rq(&c, "hasField", lit("port")),
        rtype(&e, "Enum"),
        rq(&e, "name", lit("Status")),
        rq(&e, "definedIn", Term::Iri(m.clone())),
        rq(&e, "visibility", lit("pub")),
        rq(&e, "startLine", int_lit(12)),
        rq(&e, "hasVariant", lit("Active")),
        rq(&e, "hasVariant", lit("Inactive")),
        rq(&e, "endLine", int_lit(15)),
        rtype(&t, "Trait"),
        rq(&t, "name", lit("Handler")),
        rq(&t, "definedIn", Term::Iri(m.clone())),
        rq(&t, "visibility", lit("pub")),
        rq(&t, "startLine", int_lit(18)),
        rq(&t, "hasMethod", lit("handle")),
        rtype(&n, "Function"),
        rq(&n, "name", lit("new")),
        rq(&n, "definedIn", Term::Iri(m.clone())),
        rq(&n, "visibility", lit("pub")),
        rq(&c, "hasFunction", Term::Iri(n.clone())),
        rq(&n, "startLine", int_lit(24)),
        rq(&n, "endLine", int_lit(26)),
        rq(&n, "parameter", lit("host : String")),
        rq(&n, "returnType", lit("Self")),
        rtype(&imp, "Import"),
        rq(&imp, "importPath", lit("std :: collections :: HashMap")),
        rq(&m, "hasImport", Term::Iri(imp.clone())),
        rtype(&md, "Module"),
        rq(&md, "name", lit("utils")),
        rq(&m, "hasModule", Term::Iri(md.clone())),
    ];
    assert_eq!(quads, expected);
    match RustLoader.load_items("/p/src/bad.rs", "src/bad.rs", &Err((4, s("expected item")))) {
        Err(err) => assert_eq!(err.message(), "Parse error in /p/src/bad.rs at line 4: expected item"),
        Ok(_) => panic!("expected a parse error"),
    }
}

#[test]
fn rust_visibility_and_docs() {
    assert_eq!(visibility_str(RsVis::Public), "pub");
    assert_eq!(visibility_str(RsVis::Restricted), "restricted");
    assert_eq!(visibility_str(RsVis::Inherited), "private");
    assert_eq!(extract_docstring(&vec![RsAttr::Doc(s(" one ")), RsAttr::Other, RsAttr::Doc(s("two"))]), Some(s("one\ntwo")));
    assert_eq!(extract_docstring(&vec![RsAttr::Other]), None);
}

#[test]
fn languages_by_extension_and_markers() {
    assert_eq!(language_for_extension("py"), Some("python"));
    assert_eq!(language_for_extension("rs"), Some("rust"));
    assert_eq!(language_for_extension("tsx"), Some("typescript"));
    assert_eq!(language_for_extension("jsx"), Some("typescript"));
    assert_eq!(language_for_extension("md"), None);
    let none = ProjectMarkers { cargo_toml: false, pyproject_toml: false, setup_py: false, package_json: false, tsconfig_json: false };
    assert_eq!(language_for_markers(&none), None);
    assert_eq!(language_for_markers(&ProjectMarkers { setup_py: true, package_json: true, ..none }), Some("python"));
    assert_eq!(language_for_markers(&ProjectMarkers { cargo_toml: true, pyproject_toml: true, ..none }), Some("rust"));
    assert_eq!(language_for_markers(&ProjectMarkers { tsconfig_json: true, ..none }), Some("typescript"));
}

#[test]
fn quads_move_into_a_graph() {
    let q = Quad { subject: s("a"), predicate: s("p"), object: lit("o"), graph: GraphName::DefaultGraph };
    let moved = into_graph(vec![q.clone(), q.clone()], "urn:g");
    assert_eq!(moved, vec![Quad { graph: GraphName::Named(s("urn:g")), ..q.clone() }; 2]);
    let e = parse_error("f.py", &s("boom"));
    assert_eq!(e.message(), "Parse error in f.py: boom");
    assert_eq!(LoadError::Io(s("denied")).message(), "I/O error: denied");
}

#[test]
fn quads_move_only_into_a_graph_named_by_an_iri() {
    let q = Quad { subject: s("a"), predicate: s("p"), object: lit("o"), graph: GraphName::DefaultGraph };
    let moved = into_named_graph(vec![q.clone()], "http://example.org/my-graph").unwrap();
    assert_eq!(moved, vec![Quad { graph: GraphName::Named(s("http://example.org/my-graph")), ..q.clone() }]);
    assert_eq!(into_named_graph(vec![q.clone()], "not an iri"), Err(s("Invalid graph URI: not an iri")));
}

#[test]
fn sanitizing_encodes_only_forbidden_characters() {
    use_sanitize();
}

fn use_sanitize() {
    let out = semantic_code::rdf::sanitize_iri_local("a b<c>{d}|e\\f^g`h\"");
    assert_eq!(out, "a%20b%3Cc%3E%7Bd%7D%7Ce%5Cf%5Eg%60h%22");
    assert_eq!(semantic_code::rdf::sanitize_iri_local("src/main.rs"), "src/main.rs");
    assert!(out.len() <= 3 * 19 && out.len() >= 19);
}

const AST_SOURCE: &str = r#"
/// A greeting function
pub fn greet(name: &str) -> String {
    format!("Hello, {name}!")
}

pub struct Config {
    pub host: String,
    pub port: u16,
}

pub enum Status {
    Active,
    Inactive,
    Pending,
}

pub trait Handler {
    fn handle(&self);
    fn name(&self) -> &str;
}

impl Config {
    pub fn new(host: String, port: u16) -> Self {
        Self { host, port }
    }
}

use std::collections::HashMap;

mod utils;
"#;

#[test]
fn rust_source_text_is_parsed_and_loaded() {
    let quads = RustLoader.load_file("/p/src/lib.rs", "src/lib.rs", AST_SOURCE).unwrap();
    let has = |s: &str, p: &str, o: Term| quads.contains(&rq(s, p, o));
    let g = code("src/lib.rs/greet");
    let c = code("src/lib.rs/Config");
    assert!(has(&g, "name", lit("greet")));
    assert!(has(&g, "visibility", lit("pub")));
    assert!(has(&g, "startLine", int_lit(3)));
    assert!(has(&g, "endLine", int_lit(5)));
    assert!(has(&g, "docstring", lit("A greeting function")));
    assert!(has(&c, "hasField", lit("host")));
    assert!(has(&code("src/lib.rs/Status"), "hasVariant", lit("Pending")));
    assert!(has(&code("src/lib.rs/Handler"), "hasMethod", lit("handle")));
    assert!(has(&code("src/lib.rs/Handler"), "hasMethod", lit("name")));
    assert!(has(&c, "hasFunction", Term::Iri(code("src/lib.rs/Config/new"))));
    assert!(has(&code("import/std/collections/HashMap"), "importPath", lit("std :: collections :: HashMap")));
    assert!(has(&code("src/lib.rs/utils"), "name", lit("utils")));
    match RustLoader.load_file("/p/src/bad.rs", "src/bad.rs", "fn broken( {") {
        Err(LoadError::Parse { file, line: Some(_), .. }) => assert_eq!(file, "/p/src/bad.rs"),
        _ => panic!("expected a parse error with a line"),
    }
}
