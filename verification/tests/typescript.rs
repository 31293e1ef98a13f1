use semantic_code::typescript::program_ok;
use semantic_code::loader::LoadError;
use semantic_code::rdf::{GraphName, Quad, Term};
use semantic_code::typescript::{
    expr_to_name, extract_jsdoc, format_ts_type, parse_package_json, TsClass,
    TsClassMember, TsComment, TsDecl, TsDeclarator, TsEnum, TsFunc, TsInit, TsInterface, TsKeyword,
    TsName, TsParseFailure, TsProgram, TsSignature, TsStmt, TsType, TsTypeAlias, TsVarDecl,
    TypeScriptLoader,
};

const NS: &str = "https://ds-labs.org/code#";
const RDF_TYPE: &str = "http://www.w3.org/1999/02/22-rdf-syntax-ns#type";
const XSD_INT: &str = "http://www.w3.org/2001/XMLSchema#integer";

fn code(local: &str) -> String {
    format!("{NS}{local}")
}

fn lit(v: &str) -> Term {
    Term::Literal { value: v.to_string(), datatype: None }
}

fn line(v: u32) -> Term {
    Term::Literal { value: v.to_string(), datatype: Some(XSD_INT.to_string()) }
}

fn tq(s: &str, p: &str, o: Term) -> Quad {
    Quad { subject: s.to_string(), predicate: code(p), object: o, graph: GraphName::Named(code("typescript")) }
}

fn ttype(s: &str, class: &str) -> Quad {
    Quad {
        subject: s.to_string(),
        predicate: RDF_TYPE.to_string(),
        object: Term::Iri(code(class)),
        graph: GraphName::Named(code("typescript")),
    }
}

fn s(v: &str) -> String {
    v.to_string()
}

fn block(source: &str, text: &str) -> TsComment {
    let start = source.find(text).unwrap() as u32;
    TsComment { is_block: true, start, end: start + text.len() as u32 }
}

#[test]
fn type_texts() {
    let t = TsType::Reference(
        s("Map"),
        Some(vec![TsType::Keyword(TsKeyword::String), TsType::Array(Box::new(TsType::Keyword(TsKeyword::Number)))]),
    );
    assert_eq!(format_ts_type(&t), "Map<string, number[]>");
    let u = TsType::Union(vec![TsType::StringLiteral(s("a")), TsType::Keyword(TsKeyword::Null), TsType::BooleanLiteral(false)]);
    assert_eq!(format_ts_type(&u), "\"a\" | null | false");
    let i = TsType::Intersection(vec![TsType::Reference(s("A"), None), TsType::Function, TsType::Other]);
    assert_eq!(format_ts_type(&i), "A & Function & unknown");
    assert_eq!(format_ts_type(&TsType::NumberLiteral(s("42"))), "42");
    assert_eq!(format_ts_type(&TsType::OtherLiteral), "literal");
    assert_eq!(format_ts_type(&TsType::Keyword(TsKeyword::BigInt)), "bigint");
    let n = TsName::Member(Box::new(TsName::Member(Box::new(TsName::Ident(s("a"))), s("b"))), s("C"));
    assert_eq!(expr_to_name(&n), "a.b.C");
    assert_eq!(expr_to_name(&TsName::Other), "unknown");
}

#[test]
fn jsdoc_of_declarations() {
    let source = "/* plain */\n/** Old. */\n/**\n * Adds two numbers.\n *\n * @returns the sum\n */\nfunction add() {}\n// line\nlet x = 1;\n";
    let comments = vec![
        block(source, "/* plain */"),
        block(source, "/** Old. */"),
        block(source, "/**\n * Adds two numbers.\n *\n * @returns the sum\n */"),
        TsComment { is_block: false, start: source.find("// line").unwrap() as u32, end: source.find("// line").unwrap() as u32 + 7 },
    ];
    let add = source.find("function").unwrap() as u32;
    assert_eq!(extract_jsdoc(&comments, add, source), Some(s("Adds two numbers.\n\n@returns the sum")));
    let let_x = source.find("let x").unwrap() as u32;
    assert_eq!(extract_jsdoc(&comments, let_x, source), None);
    // Only whitespace may stand between the comment and the declaration.
    let src2 = "/** Doc. */ export function f() {}";
    let c2 = vec![block(src2, "/** Doc. */")];
    assert_eq!(extract_jsdoc(&c2, src2.find("function").unwrap() as u32, src2), None);
    assert_eq!(extract_jsdoc(&c2, src2.find("export").unwrap() as u32, src2), Some(s("Doc.")));
    // Non-ASCII text before the comment keeps byte offsets and characters apart.
    let src3 = "// é\n/** Größe */\nclass K {}";
    let c3 = vec![block(src3, "/** Größe */")];
    assert_eq!(extract_jsdoc(&c3, src3.find("class").unwrap() as u32, src3), Some(s("Größe")));
}

fn func(name: Option<&str>, start: u32, end: u32, params: Vec<Option<&str>>, ret: Option<TsType>) -> TsFunc {
    TsFunc {
        name: name.map(s),
        start,
        end,
        params: params.into_iter().map(|p| p.map(s)).collect(),
        return_type: ret,
    }
}

#[test]
fn file_quads() {
    let source = "import { x } from './lib/util';\n/** Greets. */\nexport function greet(name: string): string { return name; }\nclass Box extends Base implements Shape {\n  size: number;\n  area(): number { return 1; }\n}\ninterface Shape { area(): number; name: string }\ntype Id = string;\nenum Color { Red, Green }\nconst twice = (n: number) => n * 2;\n";
    let off = |t: &str| source.find(t).unwrap() as u32;
    let program = TsProgram {
        body: vec![
            TsStmt::Import(s("./lib/util")),
            TsStmt::Decl(
                TsDecl::Function(func(Some("greet"), off("function greet"), off("\nclass") , vec![Some("name")], Some(TsType::Keyword(TsKeyword::String)))),
                true,
            ),
            TsStmt::Decl(
                TsDecl::Class(TsClass {
                    name: Some(s("Box")),
                    start: off("class Box"),
                    end: off("\ninterface"),
                    implements: vec![s("Shape")],
                    super_class: Some(TsName::Ident(s("Base"))),
                    members: vec![
                        TsClassMember::Property(Some(s("size"))),
                        TsClassMember::Method(Some(s("area")), func(None, off("area()"), off("area()") + 28, vec![], Some(TsType::Keyword(TsKeyword::Number)))),
                        TsClassMember::Other,
                    ],
                }),
                false,
            ),
            TsStmt::Decl(
                TsDecl::Interface(TsInterface {
                    name: s("Shape"),
                    start: off("interface"),
                    end: off("\ntype"),
                    extends: vec![],
                    members: vec![TsSignature::Method(Some(s("area"))), TsSignature::Property(Some(s("name"))), TsSignature::Other],
                }),
                false,
            ),
            TsStmt::Decl(TsDecl::TypeAlias(TsTypeAlias { name: s("Id"), start: off("type Id"), end: off("\nenum") }), true),
            TsStmt::Decl(
                TsDecl::Enum(TsEnum { name: s("Color"), start: off("enum"), end: off("\nconst"), members: vec![Some(s("Red")), None, Some(s("Green"))] }),
                false,
            ),
            TsStmt::Decl(
                TsDecl::Var(TsVarDecl {
                    start: off("const"),
                    declarators: vec![TsDeclarator {
                        name: Some(s("twice")),
                        init: Some(TsInit::Arrow(func(None, off("(n: number)"), off(" * 2;") + 4, vec![Some("n")], None))),
                    }],
                }),
                false,
            ),
            TsStmt::Other,
        ],
        comments: vec![block(source, "/** Greets. */")],
    };
    let quads = TypeScriptLoader.load_file("/p/src/app.ts", "src/app.ts", source, &Ok(program)).unwrap();
    let m = code("src/app.ts");
    let imp = code("import/._lib_util");
    let g = code("src/app.ts/greet");
    let b = code("src/app.ts/Box");
    let area = code("src/app.ts/Box/area");
    let sh = code("src/app.ts/Shape");
    let id = code("src/app.ts/Id");
    let col = code("src/app.ts/Color");
    let tw = code("src/app.ts/twice");
    let expected = vec![
        ttype(&m, "Module"),
        tq(&m, "filePath", lit("/p/src/app.ts")),
        tq(&m, "relativePath", lit("src/app.ts")),
        tq(&m, "language", lit("typescript")),
        ttype(&imp, "Import"),
        tq(&imp, "importPath", lit("./lib/util")),
        tq(&m, "hasImport", Term::Iri(imp.clone())),
        ttype(&g, "Function"),
        tq(&g, "name", lit("greet")),
        tq(&g, "definedIn", Term::Iri(m.clone())),
        tq(&m, "hasFunction", Term::Iri(g.clone())),
        tq(&g, "visibility", lit("export")),
        tq(&g, "startLine", line(3)),
        tq(&g, "endLine", line(3)),
        tq(&g, "parameter", lit("name")),
        tq(&g, "returnType", lit("string")),
        ttype(&b, "Class"),
        tq(&b, "name", lit("Box")),
        tq(&b, "definedIn", Term::Iri(m.clone())),
        tq(&b, "visibility", lit("private")),
        tq(&b, "startLine", line(4)),
        tq(&b, "endLine", line(7)),
        tq(&b, "implements", lit("Shape")),
        tq(&b, "extends", lit("Base")),
        tq(&b, "hasField", lit("size")),
        ttype(&area, "Function"),
        tq(&area, "name", lit("area")),
        tq(&area, "definedIn", Term::Iri(m.clone())),
        tq(&b, "hasFunction", Term::Iri(area.clone())),
        tq(&area, "startLine", line(6)),
        tq(&area, "endLine", line(6)),
        tq(&area, "returnType", lit("number")),
        ttype(&sh, "Trait"),
        tq(&sh, "name", lit("Shape")),
        tq(&sh, "definedIn", Term::Iri(m.clone())),
        tq(&sh, "visibility", lit("private")),
        tq(&sh, "startLine", line(8)),
        tq(&sh, "endLine", line(8)),
        tq(&sh, "hasMethod", lit("area")),
        tq(&sh, "hasField", lit("name")),
        ttype(&id, "Class"),
        tq(&id, "name", lit("Id")),
        tq(&id, "kind", lit("type_alias")),
        tq(&id, "definedIn", Term::Iri(m.clone())),
        tq(&id, "visibility", lit("export")),
        tq(&id, "startLine", line(9)),
        tq(&id, "endLine", line(9)),
        ttype(&col, "Enum"),
        tq(&col, "name", lit("Color")),
        tq(&col, "definedIn", Term::Iri(m.clone())),
        tq(&col, "visibility", lit("private")),
        tq(&col, "startLine", line(10)),
        tq(&col, "endLine", line(10)),
        tq(&col, "hasVariant", lit("Red")),
        tq(&col, "hasVariant", lit("Green")),
        ttype(&tw, "Function"),
        tq(&tw, "name", lit("twice")),
        tq(&tw, "definedIn", Term::Iri(m.clone())),
        tq(&m, "hasFunction", Term::Iri(tw.clone())),
        tq(&tw, "visibility", lit("private")),
        tq(&tw, "startLine", line(11)),
        tq(&tw, "endLine", line(11)),
        tq(&tw, "parameter", lit("n")),
    ];
    assert_eq!(quads, expected);
}

#[test]
fn documented_function_and_errors() {
    let source = "/** Greets. */\nfunction greet() {}\n";
    let program = TsProgram {
        body: vec![TsStmt::Decl(TsDecl::Function(func(Some("greet"), 15, 34, vec![None], None)), false)],
        comments: vec![block(source, "/** Greets. */")],
    };
    let quads = TypeScriptLoader.load_file("/p/a.ts", "a.ts", source, &Ok(program)).unwrap();
    assert_eq!(quads.last(), Some(&tq(&code("a.ts/greet"), "docstring", lit("Greets."))));
    assert!(!quads.iter().any(|q| q.predicate == code("parameter")));
    match TypeScriptLoader.load_file("/p/a.txt", "a.txt", "x", &Err(TsParseFailure::UnsupportedExtension)) {
        Err(LoadError::Parse { file, line, message }) => {
            assert_eq!(file, "/p/a.txt");
            assert_eq!(line, None);
            assert_eq!(message, "Unsupported file extension: /p/a.txt");
        }
        _ => panic!("expected a parse error"),
    }
    match TypeScriptLoader.load_file("/p/b.ts", "b.ts", "let a\nlet b = ;\n", &Err(TsParseFailure::Syntax(Some(14), s("Unexpected token")))) {
        Err(LoadError::Parse { line, message, .. }) => {
            assert_eq!(line, Some(2));
            assert_eq!(message, "Unexpected token");
        }
        _ => panic!("expected a parse error"),
    }
}

#[test]
fn package_json_project() {
    let doc = r#"{"name": "web", "version": "1.2.3",
        "dependencies": {"react": "^18.0.0", "zz-odd": 3},
        "devDependencies": {"typescript": "5.0"}}"#;
    let quads = parse_package_json("package.json", doc).unwrap();
    let p = code("project/web");
    let react = code("project/web/dep/react");
    let odd = code("project/web/dep/zz-odd");
    let ts = code("project/web/dep/typescript");
    assert_eq!(
        quads,
        vec![
            ttype(&p, "Project"),
            tq(&p, "name", lit("web")),
            tq(&p, "language", lit("typescript")),
            tq(&p, "version", lit("1.2.3")),
            ttype(&react, "Dependency"),
            tq(&react, "name", lit("react")),
            tq(&p, "hasDependency", Term::Iri(react.clone())),
            tq(&react, "version", lit("^18.0.0")),
            ttype(&odd, "Dependency"),
            tq(&odd, "name", lit("zz-odd")),
            tq(&p, "hasDependency", Term::Iri(odd.clone())),
            ttype(&ts, "Dependency"),
            tq(&ts, "name", lit("typescript")),
            tq(&p, "hasDependency", Term::Iri(ts.clone())),
            tq(&ts, "version", lit("5.0")),
        ]
    );
    let unnamed = parse_package_json("package.json", "[1, 2]").unwrap();
    assert_eq!(unnamed[1], tq(&code("project/unknown"), "name", lit("unknown")));
    assert!(matches!(parse_package_json("package.json", "{"), Err(LoadError::Parse { line: None, .. })));
}

#[test]
fn programs_whose_spans_fit_the_source() {
    let source = "/** doc */ let x = 1;";
    assert!(program_ok(source, &TsProgram { body: vec![], comments: vec![] }));
    let doc = TsComment { is_block: true, start: 0, end: 10 };
    assert!(program_ok(source, &TsProgram { body: vec![], comments: vec![doc] }));
    // A block comment running past the end of the source.
    let past = TsComment { is_block: true, start: 0, end: 40 };
    assert!(!program_ok(source, &TsProgram { body: vec![], comments: vec![past] }));
    // A block comment span that does not end with its closing marker.
    let short = TsComment { is_block: true, start: 0, end: 5 };
    assert!(!program_ok(source, &TsProgram { body: vec![], comments: vec![short] }));
}
