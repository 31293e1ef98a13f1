use semantic_code::canonicalize::{strip_literal, Canonicalizer, RawTriple};

fn t(s: &str, p: &str, o: &str) -> RawTriple {
    RawTriple { subject: s.into(), predicate: p.into(), object: o.into() }
}

#[test]
fn curie_expansion() {
    let c = Canonicalizer::new();
    assert_eq!(c.expand_curie("code:Function"), "https://ds-labs.org/code#Function");
    assert_eq!(c.expand_curie("rdf:type"), "http://www.w3.org/1999/02/22-rdf-syntax-ns#type");
    // Unknown prefix returned as-is
    assert_eq!(c.expand_curie("unknown:Foo"), "unknown:Foo");
}

#[test]
fn deterministic_ordering() {
    let c = Canonicalizer::new();
    let triples = vec![
        RawTriple {
            subject: "https://ds-labs.org/code#s1".into(),
            predicate: "https://ds-labs.org/code#name".into(),
            object: "foo".into(),
        },
        RawTriple {
            subject: "https://ds-labs.org/code#s1".into(),
            predicate: "http://www.w3.org/1999/02/22-rdf-syntax-ns#type".into(),
            object: "https://ds-labs.org/code#Function".into(),
        },
    ];
    let result = c.canonicalize(&triples);
    assert_eq!(result.len(), 1);
    let (_, text) = &result[0];
    // rdf:type should come before code:name (sorted by full IRI)
    let type_pos = text.find("rdf:type").unwrap();
    let name_pos = text.find("code:name").unwrap();
    assert!(type_pos < name_pos, "rdf:type should appear before code:name in sorted output");
}

#[test]
fn blank_node_collapsing() {
    let c = Canonicalizer::new();
    let triples = vec![
        RawTriple {
            subject: "_:b0".into(),
            predicate: "https://ds-labs.org/code#name".into(),
            object: "my_func".into(),
        },
        RawTriple {
            subject: "_:b0".into(),
            predicate: "http://www.w3.org/1999/02/22-rdf-syntax-ns#type".into(),
            object: "https://ds-labs.org/code#Function".into(),
        },
    ];
    let result = c.canonicalize(&triples);
    assert_eq!(result.len(), 1);
    let (subj, _) = &result[0];
    assert_eq!(subj, "_:my_func");
}

#[test]
fn literal_normalization() {
    let c = Canonicalizer::new();
    let triples = vec![RawTriple {
        subject: "https://ds-labs.org/code#s1".into(),
        predicate: "https://ds-labs.org/code#name".into(),
        object: "\"hello\"^^http://www.w3.org/2001/XMLSchema#string".into(),
    }];
    let result = c.canonicalize(&triples);
    let (_, text) = &result[0];
    assert!(text.contains("\"hello\""), "should keep quoted value but strip ^^xsd:string");
    assert!(!text.contains("XMLSchema#string"), "should strip xsd:string suffix");
}

#[test]
fn golden_string() {
    let c = Canonicalizer::new();
    let triples = vec![
        RawTriple {
            subject: "https://ds-labs.org/code#src/main.rs/my_function".into(),
            predicate: "http://www.w3.org/1999/02/22-rdf-syntax-ns#type".into(),
            object: "https://ds-labs.org/code#Function".into(),
        },
        RawTriple {
            subject: "https://ds-labs.org/code#src/main.rs/my_function".into(),
            predicate: "https://ds-labs.org/code#name".into(),
            object: "my_function".into(),
        },
        RawTriple {
            subject: "https://ds-labs.org/code#src/main.rs/my_function".into(),
            predicate: "https://ds-labs.org/code#visibility".into(),
            object: "pub".into(),
        },
    ];
    let result = c.canonicalize(&triples);
    let (_, text) = &result[0];
    let expected = "\
code:src/main.rs/my_function
  rdf:type: code:Function
  code:name: my_function
  code:visibility: pub";
    assert_eq!(text, expected);
}

#[test]
fn subjects_come_out_sorted_with_objects_in_input_order() {
    let c = Canonicalizer::new();
    let triples = vec![t("b", "p", "2"), t("a", "p", "x"), t("b", "p", "1")];
    let result = c.canonicalize(&triples);
    assert_eq!(
        result,
        vec![("a".to_string(), "a\n  p: x".to_string()), ("b".to_string(), "b\n  p: 2\n  p: 1".to_string())]
    );
}

#[test]
fn blank_node_without_name_gets_hash_label_and_references_follow() {
    let c = Canonicalizer::new();
    let triples = vec![t("_:x", "p", "v"), t("s", "q", "_:x")];
    let result = c.canonicalize(&triples);
    // FNV-1a of "p\0v\0", as sixteen lowercase hex digits.
    let mut h: u64 = 0xcbf29ce484222325;
    for b in "p\0v\0".bytes() {
        h ^= b as u64;
        h = h.wrapping_mul(0x100000001b3);
    }
    let label = format!("_:h{:016x}", h);
    assert_eq!(result.len(), 2);
    assert_eq!(result[0].0, label);
    assert_eq!(result[1].1, format!("s\n  q: {label}"));
}

#[test]
fn rdfs_label_used_when_no_name() {
    let c = Canonicalizer::new();
    let triples = vec![t("_:b1", "http://www.w3.org/2000/01/rdf-schema#label", "\"Thing\"")];
    let result = c.canonicalize(&triples);
    assert_eq!(result[0].0, "_:Thing");
    assert_eq!(result[0].1, "_:Thing\n  rdfs:label: \"Thing\"");
}

#[test]
fn custom_prefix_is_used_after_defaults() {
    let c = Canonicalizer::new().with_prefix("ex:", "http://example.org/");
    assert_eq!(c.expand_curie("ex:a"), "http://example.org/a");
    let result = c.canonicalize(&[t("http://example.org/a", "http://example.org/p", "http://example.org/b")]);
    assert_eq!(result[0].1, "ex:a\n  ex:p: ex:b");
}

#[test]
fn group_by_subject_groups_and_sorts() {
    let c = Canonicalizer::new();
    let g = c.group_by_subject(&[t("s2", "p", "o1"), t("s1", "q", "o2"), t("s1", "p", "o3")]);
    assert_eq!(g.len(), 2);
    assert_eq!(g[0].0, "s1");
    assert_eq!(g[0].1[0].0, "p");
    assert_eq!(g[0].1[1].0, "q");
    assert_eq!(g[1].1[0].1, vec!["o1".to_string()]);
}

#[test]
fn strip_literal_trims_quotes_only_at_ends() {
    assert_eq!(strip_literal("\"\"a\"b\"\""), "a\"b");
    assert_eq!(strip_literal("\"\"\""), "");
    assert_eq!(strip_literal("plain"), "plain");
}

#[test]
fn empty_input_gives_no_chunks() {
    assert!(Canonicalizer::new().canonicalize(&[]).is_empty());
}

#[test]
fn reordering_across_subjects_and_predicates_keeps_the_text() {
    let c = Canonicalizer::new();
    let code = "https://ds-labs.org/code#";
    let rdf_type = "http://www.w3.org/1999/02/22-rdf-syntax-ns#type";
    let a = vec![
        t(&format!("{code}s1"), rdf_type, &format!("{code}Function")),
        t(&format!("{code}s1"), &format!("{code}name"), "\"foo\""),
        t(&format!("{code}s2"), &format!("{code}name"), "\"bar\""),
        t(&format!("{code}s1"), &format!("{code}name"), "\"alias\""),
    ];
    let b = vec![a[2].clone(), a[1].clone(), a[0].clone(), a[3].clone()];
    assert_eq!(c.canonicalize(&a), c.canonicalize(&b));
    // The object of a shortened IRI expands back to the IRI.
    let text = &c.canonicalize(&a)[0].1;
    assert!(text.contains("code:Function"));
    assert_eq!(c.expand_curie("code:Function"), format!("{code}Function"));
}
