use semantic_code::loader::LoadError;
use semantic_code::python::{
    build_line_table, expr_to_string, extract_docstring, offset_to_line, parse_pep508,
    parse_pyproject_toml, parse_requirements_txt, python_visibility, PyClass, PyConst, PyExpr,
    PyFunction, PyParam, PyStmt, PythonLoader,
};
use semantic_code::rdf::{GraphName, Quad, Term};

const NS: &str = "https://ds-labs.org/code#";
const RDF_TYPE: &str = "http://www.w3.org/1999/02/22-rdf-syntax-ns#type";
const XSD_INT: &str = "http://www.w3.org/2001/XMLSchema#integer";

fn code(local: &str) -> String {
    format!("{NS}{local}")
}

fn lit(v: &str) -> Term {
    Term::Literal { value: v.to_string(), datatype: None }
}

fn int_lit(v: u32) -> Term {
    Term::Literal { value: v.to_string(), datatype: Some(XSD_INT.to_string()) }
}

fn cq(s: &str, p: &str, o: Term) -> Quad {
    Quad { subject: s.to_string(), predicate: code(p), object: o, graph: GraphName::DefaultGraph }
}

fn ctype(s: &str, class: &str) -> Quad {
    Quad {
        subject: s.to_string(),
        predicate: RDF_TYPE.to_string(),
        object: Term::Iri(code(class)),
        graph: GraphName::DefaultGraph,
    }
}

fn name(n: &str) -> PyExpr {
    PyExpr::Name(n.into())
}

fn s(v: &str) -> String {
    v.to_string()
}

#[test]
fn pep508_dependencies() {
    assert_eq!(parse_pep508("requests>=2.28"), (s("requests"), Some(s("2.28"))));
    assert_eq!(parse_pep508("flask"), (s("flask"), None));
    assert_eq!(parse_pep508("uvicorn[standard] == 0.22 ; python_version<'3.9'"), (s("uvicorn"), Some(s("0.22"))));
    assert_eq!(parse_pep508("pkg[extra]; os_name == 'nt'"), (s("pkg"), Some(s("'nt'"))));
    assert_eq!(parse_pep508("a<1"), (s("a"), Some(s("1"))));
}

#[test]
fn visibility_by_convention() {
    assert_eq!(python_visibility("run"), "public");
    assert_eq!(python_visibility("_helper"), "private");
    assert_eq!(python_visibility("__init__"), "public");
    assert_eq!(python_visibility("__secret"), "private");
}

#[test]
fn lines_of_offsets() {
    let table = build_line_table("a\nbc\n\nd");
    assert_eq!(table, vec![0, 2, 5, 6]);
    assert_eq!(offset_to_line(&table, 0), 1);
    assert_eq!(offset_to_line(&table, 1), 1);
    assert_eq!(offset_to_line(&table, 2), 2);
    assert_eq!(offset_to_line(&table, 5), 3);
    assert_eq!(offset_to_line(&table, 100), 4);
    assert_eq!(build_line_table(""), vec![0]);
}

#[test]
fn expression_texts() {
    let e = PyExpr::Subscript(
        Box::new(PyExpr::Attribute(Box::new(name("typing")), "Dict".into())),
        Box::new(PyExpr::Tuple(vec![name("str"), PyExpr::Constant(PyConst::Int("1".into()))])),
    );
    assert_eq!(expr_to_string(&e), "typing.Dict[(str, 1)]");
    let u = PyExpr::BinOp(Box::new(name("int")), Box::new(PyExpr::Constant(PyConst::NoneValue)));
    assert_eq!(expr_to_string(&u), "int | None");
    let c = PyExpr::Call(
        Box::new(name("field")),
        vec![PyExpr::Starred(Box::new(name("args"))), PyExpr::Constant(PyConst::Str("x".into()))],
    );
    assert_eq!(expr_to_string(&c), "field(*args, \"x\")");
    assert_eq!(expr_to_string(&PyExpr::List(vec![])), "[]");
    assert_eq!(expr_to_string(&PyExpr::Other), "...");
    assert_eq!(expr_to_string(&PyExpr::Constant(PyConst::Bool(true))), "true");
}

#[test]
fn docstrings_are_first_string_trimmed() {
    let doc = |t: &str| PyStmt::Expr(PyExpr::Constant(PyConst::Str(t.into())));
    assert_eq!(extract_docstring(&vec![doc("  Says hi.\n  ")]), Some(s("Says hi.")));
    assert_eq!(extract_docstring(&vec![doc("   ")]), None);
    assert_eq!(extract_docstring(&vec![PyStmt::Other, doc("late")]), None);
    assert_eq!(extract_docstring(&vec![]), None);
}

#[test]
fn requirements_file() {
    let quads = parse_requirements_txt("requests>=2.0\n# comment\n-r other.txt\n\nflask\n");
    let p = code("project/unknown");
    let req = code("dep/requests");
    let flask = code("dep/flask");
    assert_eq!(
        quads,
        vec![
            ctype(&p, "Project"),
            cq(&p, "language", lit("python")),
            ctype(&req, "Dependency"),
            cq(&req, "name", lit("requests")),
            cq(&req, "version", lit("2.0")),
            cq(&p, "hasDependency", Term::Iri(req.clone())),
            ctype(&flask, "Dependency"),
            cq(&flask, "name", lit("flask")),
            cq(&p, "hasDependency", Term::Iri(flask.clone())),
        ]
    );
}

#[test]
fn pyproject_project_table() {
    let doc = "[project]\nname = \"demo\"\nversion = \"0.1.0\"\ndependencies = [\"httpx>=0.24\"]\n";
    let quads = parse_pyproject_toml("pyproject.toml", doc).unwrap();
    let p = code("project/demo");
    let d = code("dep/httpx");
    assert_eq!(
        quads,
        vec![
            ctype(&p, "Project"),
            cq(&p, "name", lit("demo")),
            cq(&p, "language", lit("python")),
            cq(&p, "version", lit("0.1.0")),
            ctype(&d, "Dependency"),
            cq(&d, "name", lit("httpx")),
            cq(&d, "version", lit("0.24")),
            cq(&p, "hasDependency", Term::Iri(d.clone())),
        ]
    );
    let poetry = "[tool.poetry]\nname = \"po\"\n";
    assert_eq!(PythonLoader.project_uri(poetry), Some(code("project/po")));
    assert!(parse_pyproject_toml("x.toml", "").unwrap().is_empty());
    assert_eq!(PythonLoader.project_uri("name = 1\n"), None);
    assert_eq!(PythonLoader.project_uri("[[["), None);
    match parse_pyproject_toml("x.toml", "[[[") {
        Err(LoadError::Parse { file, line, message }) => {
            assert_eq!((file.as_str(), line), ("x.toml", None));
            assert!(!message.is_empty());
        }
        _ => panic!("expected a parse error"),
    }
}

#[test]
fn module_with_function_and_class() {
    let source = "import os\n\ndef greet(name: str) -> str:\n    \"\"\"Say hi.\"\"\"\n    return name\n\nclass Config:\n    def __init__(self, host):\n        self.host = host\n";
    let greet = PyFunction {
        name: s("greet"),
        params: vec![PyParam { name: s("name"), annotation: Some(name("str")) }],
        returns: Some(name("str")),
        decorators: vec![],
        body: vec![PyStmt::Expr(PyExpr::Constant(PyConst::Str(s("Say hi."))))],
        start: 11,
        end: 70,
        is_async: false,
    };
    let init = PyFunction {
        name: s("__init__"),
        params: vec![
            PyParam { name: s("self"), annotation: None },
            PyParam { name: s("host"), annotation: None },
        ],
        returns: None,
        decorators: vec![],
        body: vec![PyStmt::Assign(
            vec![PyExpr::Attribute(Box::new(name("self")), s("host"))],
            120,
        )],
        start: 89,
        end: 140,
        is_async: false,
    };
    let config = PyClass { name: s("Config"), bases: vec![], decorators: vec![], body: vec![PyStmt::Function(init)], start: 75, end: 140 };
    let sts = vec![PyStmt::Import(vec![s("os")]), PyStmt::Function(greet), PyStmt::Class(config)];
    let quads = PythonLoader.load_parsed("/p/app/main.py", "app\\main.py", source, &Ok(sts)).unwrap();
    let m = code("app/main.py");
    let f = code("app/main.py/greet");
    let c = code("app/main.py/Config");
    let imp = code("app/main.py/import/os");
    for expected in [
        ctype(&m, "Module"),
        cq(&m, "filePath", lit("/p/app/main.py")),
        cq(&m, "relativePath", lit("app/main.py")),
        cq(&m, "language", lit("python")),
        ctype(&imp, "Import"),
        cq(&m, "hasImport", Term::Iri(imp.clone())),
        ctype(&f, "Function"),
        cq(&f, "parameter", lit("name")),
        cq(&f, "returnType", lit("str")),
        cq(&f, "docstring", lit("Say hi.")),
        cq(&f, "startLine", int_lit(3)),
        cq(&m, "hasFunction", Term::Iri(f.clone())),
        ctype(&c, "Class"),
        cq(&c, "startLine", int_lit(7)),
    ] {
        assert!(quads.contains(&expected), "missing {expected:?}");
    }
    assert_eq!(&quads[..4], &[
        ctype(&m, "Module"),
        cq(&m, "filePath", lit("/p/app/main.py")),
        cq(&m, "relativePath", lit("app/main.py")),
        cq(&m, "language", lit("python")),
    ]);
    let method = code("app/main.py/Config/__init__");
    assert!(quads.contains(&ctype(&method, "Function")));
    assert!(quads.contains(&cq(&method, "parameter", lit("host"))));
    assert!(!quads.contains(&cq(&method, "parameter", lit("self"))));
    assert!(!quads.contains(&cq(&m, "hasFunction", Term::Iri(method.clone()))));
    match PythonLoader.load_parsed("/p/x.py", "x.py", "def (", &Err(s("invalid syntax"))) {
        Err(LoadError::Parse { file, line: None, message }) => {
            assert_eq!(file, "/p/x.py");
            assert_eq!(message, "invalid syntax");
        }
        _ => panic!("expected a parse error"),
    }
}

#[test]
fn python_source_text_is_parsed_and_loaded() {
    let source = "import os\n\ndef greet(name: str) -> str:\n    \"\"\"Say hi.\"\"\"\n    return name\n\nclass Config:\n    def __init__(self, host):\n        self.host = host\n";
    let quads = PythonLoader.load_file("/p/app/main.py", "app\\main.py", source).unwrap();
    let m = code("app/main.py");
    let f = code("app/main.py/greet");
    let c = code("app/main.py/Config");
    let method = code("app/main.py/Config/__init__");
    for expected in [
        ctype(&m, "Module"),
        cq(&m, "relativePath", lit("app/main.py")),
        ctype(&code("app/main.py/import/os"), "Import"),
        cq(&f, "parameter", lit("name")),
        cq(&f, "returnType", lit("str")),
        cq(&f, "docstring", lit("Say hi.")),
        cq(&f, "startLine", int_lit(3)),
        cq(&c, "startLine", int_lit(7)),
        cq(&method, "parameter", lit("host")),
    ] {
        assert!(quads.contains(&expected), "missing {expected:?}");
    }
    match PythonLoader.load_file("/p/x.py", "x.py", "def (") {
        Err(LoadError::Parse { file, line: None, message }) => {
            assert_eq!(file, "/p/x.py");
            assert!(!message.is_empty());
        }
        _ => panic!("expected a parse error"),
    }
}
