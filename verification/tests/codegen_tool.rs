use semantic_code::codegen_tool::{extract_citations_from_text, CodegenTool, LlmClient, MockLlmClient};
use semantic_code::types::{AgentTool, Citation, ToolError, ToolInput};

#[test]
fn extract_iri_citations() {
    let text = "Based on [iri:http://example.org/alice] and [iri:http://example.org/bob], the answer is clear.";
    let citations = extract_citations_from_text(text);
    assert_eq!(citations.len(), 2);
    assert!(citations.contains(&Citation::Iri("http://example.org/alice".into())));
    assert!(citations.contains(&Citation::Iri("http://example.org/bob".into())));
}

#[test]
fn extract_chunk_citations() {
    let text = "See [chunk:abc123] for details. Also [chunk:def456].";
    let citations = extract_citations_from_text(text);
    assert_eq!(citations.len(), 2);
    assert!(citations.contains(&Citation::ChunkId("abc123".into())));
    assert!(citations.contains(&Citation::ChunkId("def456".into())));
}

#[test]
fn extract_mixed_citations() {
    let text = "[iri:http://example.org/x] and [chunk:y] together.";
    let citations = extract_citations_from_text(text);
    assert_eq!(citations.len(), 2);
}

#[test]
fn no_citations_in_plain_text() {
    let citations = extract_citations_from_text("Just plain text.");
    assert!(citations.is_empty());
}

#[test]
fn deduplicates_citations() {
    let text = "[iri:http://example.org/x] and again [iri:http://example.org/x]";
    let citations = extract_citations_from_text(text);
    assert_eq!(citations.len(), 1);
}

#[test]
fn iris_come_before_chunks_and_unclosed_markers_are_skipped() {
    let text = "[chunk:c1] [iri:a] [iri:b [chunk:c2]";
    let citations = extract_citations_from_text(text);
    assert_eq!(
        citations,
        vec![
            Citation::Iri("a".into()),
            Citation::Iri("b [chunk:c2".into()),
            Citation::ChunkId("c1".into()),
            Citation::ChunkId("c2".into()),
        ]
    );
    assert!(extract_citations_from_text("[iri:open").is_empty());
}

#[test]
fn codegen_echoes_prompt() {
    let tool = CodegenTool::new(MockLlmClient);
    let output = tool
        .call(ToolInput::Codegen { prompt: "What is RDF?".into(), context: String::new() })
        .unwrap();
    assert!(output.content.contains("What is RDF?"));
}

#[test]
fn codegen_includes_context() {
    let tool = CodegenTool::new(MockLlmClient);
    let output = tool
        .call(ToolInput::Codegen { prompt: "Summarize".into(), context: "RDF is a graph data model.".into() })
        .unwrap();
    assert!(output.content.contains("RDF is a graph data model."));
    assert!(output.content.contains("Summarize"));
}

#[test]
fn codegen_tool_wrong_input_type_returns_error() {
    let tool = CodegenTool::new(MockLlmClient);
    let result = tool.call(ToolInput::Sparql { query: "SELECT".into() });
    assert!(result.is_err());
    assert_eq!(result.unwrap_err(), ToolError::WrongInput("codegen".into()));
}

#[test]
fn mock_client_prefixes_prompt() {
    assert_eq!(MockLlmClient.generate("hi").unwrap(), "[generated] hi");
}

#[test]
fn codegen_output_cites_instruction_markers() {
    let tool = CodegenTool::new(MockLlmClient);
    let output = tool
        .call(ToolInput::Codegen { prompt: "q".into(), context: String::new() })
        .unwrap();
    assert_eq!(output.citations, vec![Citation::Iri("...".into()), Citation::ChunkId("...".into())]);
    assert_eq!(tool.name(), "codegen");
}
