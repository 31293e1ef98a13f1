use semantic_code::codegen_tool::{CodegenTool, MockLlmClient};
use semantic_code::retrieval::{RagTool, RetrievalConfig, RetrievalResult, Retriever, SearchHit};
use semantic_code::router::{accumulate, combine_outputs, step_input, AgentRouter};
use semantic_code::sparql_tool::{QueryEngine, QueryOutput, ResultTerm, SparqlTool};
use semantic_code::types::{AgentTool, Citation, ToolError, ToolInput, ToolOutput};

/// Answers every query with two names, citing who they name.
struct NamesEngine;

impl QueryEngine for NamesEngine {
    fn run_query(&self, query: &str) -> Result<QueryOutput, ToolError> {
        if query.contains("bad") {
            return Err(ToolError::Failed("SPARQL parse error".into()));
        }
        Ok(QueryOutput::Solutions(
            "Alice\nBob".into(),
            vec![
                vec![ResultTerm::Iri("http://example.org/alice".into()), ResultTerm::Other],
                vec![ResultTerm::Iri("http://example.org/bob".into()), ResultTerm::Other],
            ],
        ))
    }
}

/// Returns one fixed hit as context, and records the hit limit it was asked for.
struct FixedRetriever {
    text: &'static str,
}

impl Retriever for FixedRetriever {
    fn retrieve(&self, _query: &str, config: &RetrievalConfig) -> Result<RetrievalResult, ToolError> {
        Ok(RetrievalResult {
            hits: vec![SearchHit { id: format!("c{}", config.top_k), text: self.text.into(), metadata: vec![] }],
            context: self.text.to_string(),
        })
    }
}

fn make_sparql_router() -> AgentRouter {
    let mut router = AgentRouter::new();
    router.register(Box::new(SparqlTool::new(NamesEngine)));
    router
}

#[test]
fn plan_sparql_query() {
    let router = make_sparql_router();
    let plan = router.plan("SELECT ?name WHERE { ?s <http://example.org/name> ?name }");
    assert_eq!(plan.len(), 1);
    assert!(matches!(&plan[0], ToolInput::Sparql { .. }));
}

#[test]
fn plan_retrieval_query() {
    let router = make_sparql_router();
    let plan = router.plan("find functions related to authentication");
    assert_eq!(plan.len(), 1);
    assert!(matches!(&plan[0], ToolInput::Rag { .. }));
}

#[test]
fn plan_generation_query() {
    let mut router = make_sparql_router();
    router.register(Box::new(RagTool::new(FixedRetriever { text: "context" })));
    router.register(Box::new(CodegenTool::new(MockLlmClient)));

    let plan = router.plan("explain the authentication flow");
    assert_eq!(plan.len(), 2); // RAG + Codegen
    assert!(matches!(&plan[0], ToolInput::Rag { .. }));
    assert!(matches!(&plan[1], ToolInput::Codegen { .. }));
}

#[test]
fn plan_details() {
    let mut router = AgentRouter::new();
    // Without tools, an unclassified query has no plan.
    assert!(router.plan("hello there").is_empty());
    router.register(Box::new(CodegenTool::new(MockLlmClient)));
    // Generation without a RAG tool is a single step.
    let plan = router.plan("Write a parser");
    assert_eq!(plan.len(), 1);
    match &plan[0] {
        ToolInput::Codegen { prompt, context } => {
            assert_eq!(prompt, "Write a parser");
            assert_eq!(context, "");
        }
        _ => panic!("expected a codegen step"),
    }
    // An unclassified query falls back to codegen when that is all there is.
    assert!(matches!(&router.plan("hello there")[0], ToolInput::Codegen { .. }));
    router.register(Box::new(RagTool::new(FixedRetriever { text: "ctx" })));
    match &router.plan("hello there")[0] {
        ToolInput::Rag { query, top_k } => {
            assert_eq!(query, "hello there");
            assert_eq!(*top_k, Some(10));
        }
        _ => panic!("expected a retrieval step"),
    }
    // Leading whitespace and case do not hide a SPARQL query.
    assert!(matches!(&router.plan("  ask { ?s ?p ?o }")[0], ToolInput::Sparql { .. }));
    assert!(matches!(&router.plan("PREFIX ex: <http://e/> SELECT * {}")[0], ToolInput::Sparql { .. }));
}

#[test]
fn registering_twice_keeps_one_tool() {
    let mut router = AgentRouter::new();
    router.register(Box::new(RagTool::new(FixedRetriever { text: "first" })));
    router.register(Box::new(RagTool::new(FixedRetriever { text: "second" })));
    assert!(router.has_tool("rag"));
    assert!(!router.has_tool("codegen"));
    let out = router.execute("find things").unwrap();
    assert_eq!(out.content, "second");
}

#[test]
fn empty_router_returns_error() {
    let router = AgentRouter::new();
    assert!(matches!(router.execute("hello"), Err(ToolError::NoToolsAvailable)));
}

#[test]
fn execute_runs_retrieval_then_generation() {
    let mut router = AgentRouter::new();
    router.register(Box::new(RagTool::new(FixedRetriever { text: "[chunk:c1] retrieved text" })));
    router.register(Box::new(CodegenTool::new(MockLlmClient)));
    let out = router.execute("explain the login").unwrap();
    assert!(out.content.starts_with("[chunk:c1] retrieved text\n\n[generated] "));
    assert!(out.content.contains("explain the login"));
    // c10: the retrieval step asks for ten hits.
    assert!(out.citations.contains(&Citation::ChunkId("c10".into())));
    assert!(out.citations.contains(&Citation::ChunkId("c1".into())));
}

#[test]
fn sparql_plan_without_tool_is_not_registered() {
    let mut router = AgentRouter::new();
    router.register(Box::new(RagTool::new(FixedRetriever { text: "x" })));
    let err = router.execute("select * where { ?s ?p ?o }").unwrap_err();
    assert_eq!(err, ToolError::NotRegistered("sparql".into()));
}

#[test]
fn step_input_fills_empty_context_only() {
    let step = ToolInput::Codegen { prompt: "p".into(), context: String::new() };
    match step_input(&step, "acc") {
        ToolInput::Codegen { prompt, context } => {
            assert_eq!(prompt, "p");
            assert_eq!(context, "acc");
        }
        _ => panic!("kind changed"),
    }
    let given = ToolInput::Codegen { prompt: "p".into(), context: "own".into() };
    match step_input(&given, "acc") {
        ToolInput::Codegen { context, .. } => assert_eq!(context, "own"),
        _ => panic!("kind changed"),
    }
    match step_input(&ToolInput::Sparql { query: "q".into() }, "acc") {
        ToolInput::Sparql { query } => assert_eq!(query, "q"),
        _ => panic!("kind changed"),
    }
}

#[test]
fn accumulate_joins_with_blank_line() {
    let mut acc = String::new();
    accumulate(&mut acc, "");
    assert_eq!(acc, "");
    accumulate(&mut acc, "one");
    assert_eq!(acc, "one");
    accumulate(&mut acc, "");
    assert_eq!(acc, "one");
    accumulate(&mut acc, "two");
    assert_eq!(acc, "one\n\ntwo");
}

#[test]
fn combine_outputs_joins_and_merges() {
    let outs = vec![
        ToolOutput { content: "first".into(), citations: vec![Citation::Iri("a".into())] },
        ToolOutput {
            content: "second [iri:b] [chunk:k]".into(),
            citations: vec![Citation::Iri("a".into())],
        },
    ];
    let r = combine_outputs(&outs);
    assert_eq!(r.content, "first\n\nsecond [iri:b] [chunk:k]");
    assert_eq!(
        r.citations,
        vec![Citation::Iri("a".into()), Citation::Iri("b".into()), Citation::ChunkId("k".into())]
    );
}

#[test]
fn execute_sparql() {
    let router = make_sparql_router();
    let result = router
        .execute("SELECT ?s ?name WHERE { ?s <http://example.org/name> ?name } ORDER BY ?name")
        .unwrap();
    assert!(result.content.contains("Alice"));
    assert!(result.content.contains("Bob"));
    assert!(!result.citations.is_empty());
    assert!(matches!(router.execute("select bad"), Err(ToolError::Failed(_))));
}

#[test]
fn tools_refuse_other_inputs() {
    let sparql = SparqlTool::new(NamesEngine);
    assert_eq!(sparql.name(), "sparql");
    assert!(matches!(
        sparql.call(ToolInput::Rag { query: "q".into(), top_k: None }),
        Err(ToolError::WrongInput(k)) if k == "sparql"
    ));
    let rag = RagTool::new(FixedRetriever { text: "t" });
    assert_eq!(rag.name(), "rag");
    assert!(matches!(
        rag.call(ToolInput::Sparql { query: "q".into() }),
        Err(ToolError::WrongInput(k)) if k == "rag"
    ));
    let out = rag.call(ToolInput::Rag { query: "q".into(), top_k: None }).unwrap();
    assert_eq!(out.content, "t");
    assert_eq!(out.citations, vec![Citation::ChunkId("c20".into())]);
}

#[test]
fn question_without_retrieval_keyword_goes_to_generation() {
    let mut router = AgentRouter::new();
    router.register(Box::new(CodegenTool::new(MockLlmClient)));
    let plan = router.plan("what is rdf?");
    assert_eq!(plan.len(), 1);
    assert!(matches!(&plan[0], ToolInput::Codegen { prompt, context } if prompt == "what is rdf?" && context.is_empty()));
}

#[test]
fn unregistered_step_is_reported_by_name() {
    let mut router = AgentRouter::new();
    router.register(Box::new(CodegenTool::new(MockLlmClient)));
    assert!(matches!(router.execute("find things"), Err(ToolError::NotRegistered(n)) if n == "rag"));
}
