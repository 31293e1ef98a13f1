use semantic_code::prompt_contract::{assemble_prompt, extract_citations, merge_citations, validate_citations};
use semantic_code::types::{Citation, ToolOutput};

#[test]
fn valid_with_citations() {
    let output = ToolOutput {
        content: "Alice is a person.".into(),
        citations: vec![Citation::Iri("http://example.org/alice".into())],
    };
    assert!(validate_citations(&output));
}

#[test]
fn invalid_without_citations() {
    let output = ToolOutput {
        content: "Some claim without evidence.".into(),
        citations: vec![],
    };
    assert!(!validate_citations(&output));
}

#[test]
fn empty_content_is_valid() {
    let output = ToolOutput {
        content: String::new(),
        citations: vec![],
    };
    assert!(validate_citations(&output));
}

#[test]
fn prompt_assembly_with_context() {
    let citations = vec![
        Citation::Iri("http://example.org/alice".into()),
        Citation::ChunkId("chunk1".into()),
    ];
    let prompt = assemble_prompt("Who is Alice?", "Alice is a person.", &citations);
    assert!(prompt.contains("## Retrieved Context"));
    assert!(prompt.contains("Alice is a person."));
    assert!(prompt.contains("[iri:http://example.org/alice]"));
    assert!(prompt.contains("[chunk:chunk1]"));
    assert!(prompt.contains("## Question"));
    assert!(prompt.contains("Who is Alice?"));
}

#[test]
fn prompt_assembly_without_context() {
    let prompt = assemble_prompt("What is RDF?", "", &[]);
    assert!(!prompt.contains("## Retrieved Context"));
    assert!(!prompt.contains("## Source Citations"));
    assert!(prompt.contains("## Question"));
    assert!(prompt.contains("What is RDF?"));
}

#[test]
fn extract_citations_roundtrip() {
    let citations = vec![
        Citation::Iri("http://example.org/x".into()),
        Citation::ChunkId("abc".into()),
    ];
    let prompt = assemble_prompt("test", "ctx", &citations);
    let extracted = extract_citations(&prompt);
    // The assembled prompt contains the cited sources plus instruction examples
    assert!(extracted.contains(&Citation::Iri("http://example.org/x".into())));
    assert!(extracted.contains(&Citation::ChunkId("abc".into())));
}

#[test]
fn merge_deduplicates() {
    let outputs = vec![
        ToolOutput {
            content: "a".into(),
            citations: vec![
                Citation::Iri("http://example.org/x".into()),
                Citation::ChunkId("c1".into()),
            ],
        },
        ToolOutput {
            content: "b".into(),
            citations: vec![
                Citation::Iri("http://example.org/x".into()),
                Citation::ChunkId("c2".into()),
            ],
        },
    ];
    let merged = merge_citations(&outputs);
    assert_eq!(merged.len(), 3); // x, c1, c2
}

#[test]
fn prompt_exact_layout_with_everything() {
    let citations = vec![Citation::Iri("i".into()), Citation::ChunkId("c".into())];
    let prompt = assemble_prompt("Q?", "ctx", &citations);
    let expected = "## Retrieved Context\n\nctx\n\n## Source Citations\n\n- [iri:i]\n- [chunk:c]\n\n## Instructions\n\nAnswer the question below using ONLY the retrieved context above.\nCite your sources using [iri:...] for RDF IRIs and [chunk:...] for chunk IDs.\nIf the context does not contain enough information, say so explicitly.\n\n## Question\n\nQ?";
    assert_eq!(prompt, expected);
}

#[test]
fn merge_keeps_first_appearance_order() {
    let outputs = vec![
        ToolOutput { content: "a".into(), citations: vec![Citation::ChunkId("b".into()), Citation::Iri("a".into())] },
        ToolOutput { content: "b".into(), citations: vec![Citation::Iri("a".into()), Citation::ChunkId("c".into())] },
    ];
    let merged = merge_citations(&outputs);
    assert_eq!(
        merged,
        vec![Citation::ChunkId("b".into()), Citation::Iri("a".into()), Citation::ChunkId("c".into())]
    );
}

#[test]
fn iri_and_chunk_with_same_text_are_distinct() {
    let outputs = vec![ToolOutput {
        content: "a".into(),
        citations: vec![Citation::Iri("x".into()), Citation::ChunkId("x".into())],
    }];
    assert_eq!(merge_citations(&outputs).len(), 2);
}

#[test]
fn cited_sources_come_back_from_the_prompt() {
    let citations = vec![Citation::Iri("http://e/x".into()), Citation::ChunkId("c-7".into())];
    let extracted = extract_citations(&assemble_prompt("q", "", &citations));
    assert!(extracted.contains(&citations[0]));
    assert!(extracted.contains(&citations[1]));
    // A citation holding a closing bracket ends early in the prompt text.
    let odd = vec![Citation::Iri("a]b".into())];
    let extracted = extract_citations(&assemble_prompt("q", "", &odd));
    assert!(!extracted.contains(&odd[0]));
    assert!(extracted.contains(&Citation::Iri("a".into())));
}

#[test]
fn merged_citations_hold_no_duplicates() {
    let a = ToolOutput { content: "x".into(), citations: vec![Citation::ChunkId("1".into()), Citation::ChunkId("1".into())] };
    let b = ToolOutput { content: "y".into(), citations: vec![Citation::Iri("1".into()), Citation::ChunkId("1".into())] };
    let merged = merge_citations(&[a, b]);
    assert_eq!(merged, vec![Citation::ChunkId("1".into()), Citation::Iri("1".into())]);
}

#[test]
fn merging_merged_citations_changes_nothing() {
    let a = ToolOutput { content: "x".into(), citations: vec![Citation::Iri("i".into()), Citation::ChunkId("c".into())] };
    let b = ToolOutput { content: "y".into(), citations: vec![Citation::ChunkId("c".into()), Citation::Iri("j".into())] };
    let once = merge_citations(&[a, b]);
    let again = merge_citations(&[ToolOutput { content: String::new(), citations: once.clone() }]);
    assert_eq!(again, once);
}
