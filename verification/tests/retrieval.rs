use semantic_code::retrieval::{finish_retrieval_with, ContextCompressor, Reranker};
use semantic_code::types::ToolError;
use semantic_code::retrieval::compress_input_ok;
use semantic_code::canonicalize::RawTriple;
use semantic_code::retrieval::{
    chunk_metas, finish_retrieval, rag_config, rag_output, term_to_string, triples_query, ChunkMeta,
    Filter, MockEmbeddingProvider, PassThroughReranker, RetrievalConfig, SearchHit, SolutionTerm,
    TruncatingCompressor,
};
use semantic_code::hash::stable_id;
use semantic_code::types::Citation;

fn make_hit(id: &str, text: &str) -> SearchHit {
    SearchHit { id: id.into(), text: text.into(), metadata: Vec::new() }
}

#[test]
fn empty_input() {
    let c = TruncatingCompressor;
    assert_eq!(c.compress(&vec![], 100), "");
}

#[test]
fn within_budget() {
    let c = TruncatingCompressor;
    let hits = vec![make_hit("a", "hello"), make_hit("b", "world")];
    let result = c.compress(&hits, 100);
    assert!(result.contains("[chunk:a]"));
    assert!(result.contains("[chunk:b]"));
    assert!(result.contains("hello"));
    assert!(result.contains("world"));
}

#[test]
fn exceeding_budget_truncation() {
    let c = TruncatingCompressor;
    // Create hits that exceed a small budget
    let hits = vec![make_hit("a", &"x".repeat(100)), make_hit("b", &"y".repeat(100))];
    // Budget of 10 tokens = 40 chars — should not include all content
    let result = c.compress(&hits, 10);
    assert!(result.len() <= 40);
}

#[test]
fn citation_headers_present() {
    let c = TruncatingCompressor;
    let hits = vec![make_hit("chunk-42", "some text")];
    let result = c.compress(&hits, 100);
    assert!(result.contains("[chunk:chunk-42]"));
}

#[test]
fn compress_exact_text() {
    let c = TruncatingCompressor;
    let hits = vec![make_hit("a", "hello"), make_hit("b", "world")];
    assert_eq!(c.compress(&hits, 100), "[chunk:a]\nhello\n\n[chunk:b]\nworld");
    // 4 tokens = 16 bytes: the first block (17 bytes) does not fit; its first
    // 16 bytes do, and they are longer than the header.
    assert_eq!(c.compress(&hits, 4), "[chunk:a]\nhello");
    // 2 tokens = 8 bytes: not even the header fits, so nothing is added.
    assert_eq!(c.compress(&hits, 2), "");
    // The second block is cut to what is left and the trailing blank removed.
    assert_eq!(c.compress(&hits, 7), "[chunk:a]\nhello\n\n[chunk:b]\nw");
}

#[test]
fn filters_check_graph_prefix_and_metadata() {
    let chunk = ChunkMeta {
        id: "1".into(),
        iri: Some("http://example.org/alice".into()),
        text: "Alice".into(),
        graph: Some("urn:g".into()),
        metadata: vec![("rdf:type".into(), "Person".into()), ("rdf:type".into(), "Other".into())],
    };
    assert!(Filter::Graph("urn:g".into()).matches(&chunk));
    assert!(!Filter::Graph("urn:h".into()).matches(&chunk));
    assert!(Filter::IriPrefix("http://example.org/".into()).matches(&chunk));
    assert!(!Filter::IriPrefix("http://other/".into()).matches(&chunk));
    assert!(Filter::MetadataEq("rdf:type".into(), "Person".into()).matches(&chunk));
    assert!(!Filter::MetadataEq("rdf:type".into(), "Other".into()).matches(&chunk));
    let bare = ChunkMeta { id: "2".into(), iri: None, text: String::new(), graph: None, metadata: vec![] };
    assert!(!Filter::Graph("urn:g".into()).matches(&bare));
    assert!(!Filter::IriPrefix("".into()).matches(&bare));
    assert!(!Filter::MetadataEq("k".into(), "v".into()).matches(&bare));
}

#[test]
fn zero_budget_skips_compression() {
    let config = RetrievalConfig { top_k: 5, filter: None, token_budget: 0 };
    let r = finish_retrieval("q", vec![make_hit("a", "text")], &config);
    assert_eq!(r.hits.len(), 1);
    assert_eq!(r.context, "");
}

#[test]
fn retrieval_result_becomes_rag_output() {
    let config = rag_config(None);
    assert_eq!(config.top_k, 20);
    assert_eq!(config.token_budget, 4096);
    assert!(config.filter.is_none());
    assert_eq!(rag_config(Some(3)).top_k, 3);
    let r = finish_retrieval("q", vec![make_hit("a", "one"), make_hit("b", "two")], &config);
    assert_eq!(r.context, "[chunk:a]\none\n\n[chunk:b]\ntwo");
    let out = rag_output(&r);
    assert_eq!(out.content, r.context);
    assert_eq!(out.citations, vec![Citation::ChunkId("a".into()), Citation::ChunkId("b".into())]);
}

#[test]
fn reranker_and_provider_basics() {
    let hits = PassThroughReranker.rerank("q", vec![1, 2, 3]);
    assert_eq!(hits, vec![1, 2, 3]);
    let p = MockEmbeddingProvider::new(8);
    assert_eq!(p.dimension(), Some(8));
    let d = RetrievalConfig::default();
    assert_eq!((d.top_k, d.token_budget), (20, 4096));
}

#[test]
fn triples_query_text() {
    assert_eq!(triples_query(None, None), "SELECT ?s ?p ?o WHERE { ?s ?p ?o }");
    assert_eq!(
        triples_query(Some("urn:g"), Some("http://e/")),
        "SELECT ?s ?p ?o WHERE { GRAPH <urn:g> { ?s ?p ?o } FILTER(STRSTARTS(STR(?s), \"http://e/\")) }"
    );
}

#[test]
fn solution_terms_as_text() {
    assert_eq!(term_to_string(&SolutionTerm::Named("http://e/a".into())), "http://e/a");
    assert_eq!(term_to_string(&SolutionTerm::Blank("b0".into())), "_:b0");
    assert_eq!(
        term_to_string(&SolutionTerm::Literal {
            value: "hi".into(),
            datatype: "http://www.w3.org/2001/XMLSchema#string".into()
        }),
        "\"hi\""
    );
    assert_eq!(
        term_to_string(&SolutionTerm::Literal {
            value: "5".into(),
            datatype: "http://www.w3.org/2001/XMLSchema#integer".into()
        }),
        "\"5\"^^http://www.w3.org/2001/XMLSchema#integer"
    );
}

#[test]
fn chunk_metas_carry_type_and_graph() {
    let rdf_type = "http://www.w3.org/1999/02/22-rdf-syntax-ns#type";
    let triples = vec![
        RawTriple { subject: "http://e/a".into(), predicate: rdf_type.into(), object: "http://e/T1".into() },
        RawTriple { subject: "http://e/a".into(), predicate: rdf_type.into(), object: "http://e/T2".into() },
        RawTriple { subject: "http://e/b".into(), predicate: "http://e/p".into(), object: "x".into() },
    ];
    let batch = vec![("http://e/a".to_string(), "text a".to_string()), ("http://e/b".to_string(), "text b".to_string())];
    let metas = chunk_metas(&batch, &triples, rdf_type, Some("urn:g"));
    assert_eq!(metas.len(), 2);
    assert_eq!(metas[0].id, stable_id("http://e/a"));
    assert_eq!(metas[0].iri.as_deref(), Some("http://e/a"));
    assert_eq!(metas[0].text, "text a");
    assert_eq!(metas[0].graph.as_deref(), Some("urn:g"));
    assert_eq!(metas[0].metadata, vec![("rdf:type".to_string(), "http://e/T2".to_string())]);
    assert!(metas[1].metadata.is_empty());
    let plain = chunk_metas(&batch, &triples, rdf_type, None);
    assert!(plain[1].graph.is_none());
}

#[test]
fn compression_inputs_that_cut_between_characters() {
    let hits = vec![make_hit("a", "h\u{e9}llo")];
    // 4 tokens = 16 bytes: the header and the whole text, without the blank line.
    assert!(compress_input_ok(&hits, 4));
    assert_eq!(TruncatingCompressor.compress(&hits, 4), "[chunk:a]\nh\u{e9}llo");
    // 3 tokens = 12 bytes would end inside the two bytes of the accented letter.
    assert!(!compress_input_ok(&hits, 3));
    assert!(compress_input_ok(&hits, 100));
    assert!(compress_input_ok(&vec![], 0));
    // A budget whose bytes overflow the machine.
    assert!(!compress_input_ok(&hits, usize::MAX));
}

/// Puts the hits in reverse order.
struct ReversingReranker;

impl Reranker for ReversingReranker {
    fn rerank(&self, _query: &str, mut hits: Vec<SearchHit>) -> Result<Vec<SearchHit>, ToolError> {
        hits.reverse();
        Ok(hits)
    }
}

/// Always fails.
struct FailingReranker;

impl Reranker for FailingReranker {
    fn rerank(&self, _query: &str, _hits: Vec<SearchHit>) -> Result<Vec<SearchHit>, ToolError> {
        Err(ToolError::Failed("rerank failed".into()))
    }
}

#[test]
fn retrieval_finishes_with_the_pipelines_own_parts() {
    let hits = vec![make_hit("a", "hello"), make_hit("b", "world")];
    let config = RetrievalConfig { top_k: 2, filter: None, token_budget: 100 };
    let r = finish_retrieval_with("q", hits.clone(), &config, &ReversingReranker, &TruncatingCompressor).unwrap();
    assert_eq!(r.hits.iter().map(|h| h.id.as_str()).collect::<Vec<_>>(), vec!["b", "a"]);
    assert_eq!(r.context, "[chunk:b]\nworld\n\n[chunk:a]\nhello");
    let zero = RetrievalConfig { top_k: 2, filter: None, token_budget: 0 };
    let r = finish_retrieval_with("q", hits.clone(), &zero, &FailingReranker, &TruncatingCompressor).unwrap();
    assert_eq!((r.hits.len(), r.context.as_str()), (2, ""));
    let e = finish_retrieval_with("q", hits.clone(), &config, &FailingReranker, &TruncatingCompressor);
    assert!(matches!(e, Err(ToolError::Failed(m)) if m == "rerank failed"));
    let bad = vec![make_hit("a", "h\u{e9}llo")];
    assert!(matches!(TruncatingCompressor.compress_hits(&bad, 3), Err(ToolError::Failed(_))));
    assert_eq!(Reranker::rerank(&PassThroughReranker, "q", hits.clone()).unwrap().len(), 2);
}
