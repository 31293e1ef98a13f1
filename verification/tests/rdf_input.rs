use semantic_code::rdf_input::{
    default_syntax, format_from_extension, load_summary, resolve_format, unknown_format_message, FormatRequest,
    RdfSyntax,
};

#[test]
fn format_names_in_any_case() {
    assert!(matches!(resolve_format("Turtle"), FormatRequest::Named(RdfSyntax::Turtle)));
    assert!(matches!(resolve_format("TTL"), FormatRequest::Named(RdfSyntax::Turtle)));
    assert!(matches!(resolve_format("nt"), FormatRequest::Named(RdfSyntax::NTriples)));
    assert!(matches!(resolve_format("NQuads"), FormatRequest::Named(RdfSyntax::NQuads)));
    assert!(matches!(resolve_format("trig"), FormatRequest::Named(RdfSyntax::TriG)));
    assert!(matches!(resolve_format("RDF/XML"), FormatRequest::Named(RdfSyntax::RdfXml)));
    assert!(matches!(resolve_format("n3"), FormatRequest::Named(RdfSyntax::N3)));
    match resolve_format("Text/Turtle") {
        FormatRequest::MediaType(m) => assert_eq!(m, "text/turtle"),
        FormatRequest::Named(_) => panic!("a media type is not a name"),
    }
}

#[test]
fn syntax_by_extension() {
    assert_eq!(format_from_extension("ttl"), Some(RdfSyntax::Turtle));
    assert_eq!(format_from_extension("nq"), Some(RdfSyntax::NQuads));
    assert_eq!(format_from_extension("xml"), Some(RdfSyntax::RdfXml));
    assert_eq!(format_from_extension("rdf"), Some(RdfSyntax::RdfXml));
    assert_eq!(format_from_extension("TTL"), None);
    assert_eq!(format_from_extension("json"), None);
    assert_eq!(default_syntax(true, Some("nt")), RdfSyntax::NTriples);
    assert_eq!(default_syntax(true, Some("json")), RdfSyntax::Turtle);
    assert_eq!(default_syntax(true, None), RdfSyntax::Turtle);
    // Inline data is Turtle whatever it looks like.
    assert_eq!(default_syntax(false, Some("nt")), RdfSyntax::Turtle);
}

#[test]
fn load_messages() {
    assert_eq!(
        unknown_format_message("yaml"),
        "Unknown RDF format: 'yaml'. Supported: turtle, ntriples, nquads, trig, rdfxml, n3, or a MIME type."
    );
    assert_eq!(load_summary(10, 25), "Successfully loaded 15 triples/quads.");
    assert_eq!(load_summary(7, 7), "Successfully loaded 0 triples/quads.");
    assert_eq!(load_summary(9, 4), "Successfully loaded 0 triples/quads.");
}
