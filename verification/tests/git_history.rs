use semantic_code::git_history::commit_time_ok;
use semantic_code::git_history::{
    format_git_time, max_commits_or_default, module_links, project_links, ChangeKind, CommitInfo,
    FileDelta, GitHistoryResult,
};
use semantic_code::rdf::{GraphName, Quad, Term};

const NS: &str = "https://ds-labs.org/code#";
const RDF_TYPE: &str = "http://www.w3.org/1999/02/22-rdf-syntax-ns#type";

fn code(local: &str) -> String {
    format!("{NS}{local}")
}

fn lit(v: &str) -> Term {
    Term::Literal { value: v.to_string(), datatype: None }
}

fn cq(s: &str, p: &str, o: Term) -> Quad {
    Quad { subject: s.to_string(), predicate: code(p), object: o, graph: GraphName::DefaultGraph }
}

fn ctype(s: &str, class: &str) -> Quad {
    Quad {
        subject: s.to_string(),
        predicate: RDF_TYPE.to_string(),
        object: Term::Iri(code(class)),
        graph: GraphName::DefaultGraph,
    }
}

fn commit(hash: &str, parents: &[&str]) -> CommitInfo {
    CommitInfo {
        hash: hash.to_string(),
        author_name: Some("Test User".into()),
        author_email: Some("test@example.com".into()),
        committer_name: None,
        committer_email: None,
        time_seconds: 1_700_000_000,
        offset_minutes: 60,
        message: Some("Initial commit".into()),
        parent_ids: parents.iter().map(|p| p.to_string()).collect(),
    }
}

#[test]
fn commit_times_in_rfc3339() {
    assert_eq!(format_git_time(0, 0), "1970-01-01T00:00:00Z");
    assert_eq!(format_git_time(1_700_000_000, 60), "2023-11-14T23:13:20+01:00");
    assert_eq!(format_git_time(1_700_000_000, -330), "2023-11-14T16:43:20-05:30");
    // An offset beyond what can be represented counts as UTC.
    assert_eq!(format_git_time(1_700_000_000, 2000), "2023-11-14T22:13:20Z");
    // A year before 0 cannot be written in RFC 3339: the epoch is used.
    assert_eq!(format_git_time(-100_000_000_000, 0), "1970-01-01T00:00:00Z");
}

#[test]
fn default_commit_limit() {
    assert_eq!(max_commits_or_default(None), 500);
    assert_eq!(max_commits_or_default(Some(3)), 3);
}

#[test]
fn commit_quads_with_parents_and_changes() {
    let mut r = GitHistoryResult::new();
    assert!(r.wants_commit(1));
    let c = commit("abcdef0123456789", &["1111111aaaa", "2222222bbbb"]);
    let deltas = vec![
        FileDelta { kind: ChangeKind::Added, new_path: Some("src/main.rs".into()), old_path: None },
        FileDelta { kind: ChangeKind::Deleted, new_path: Some("old.rs".into()), old_path: Some("old.rs".into()) },
        FileDelta { kind: ChangeKind::Renamed, new_path: Some("b.rs".into()), old_path: Some("a.rs".into()) },
        FileDelta { kind: ChangeKind::Other, new_path: Some("x".into()), old_path: None },
        FileDelta { kind: ChangeKind::Modified, new_path: None, old_path: Some("y".into()) },
    ];
    r.add_commit(&c, &deltas);
    assert_eq!(r.commit_count, 1);
    assert_eq!(r.change_count, 3);
    assert!(!r.wants_commit(1));

    let u = code("commit/abcdef0");
    let added = code("commit/abcdef0/src/main.rs");
    let deleted = code("commit/abcdef0/old.rs");
    let renamed = code("commit/abcdef0/b.rs");
    let expected = vec![
        ctype(&u, "Commit"),
        cq(&u, "commitHash", lit("abcdef0123456789")),
        cq(&u, "shortHash", lit("abcdef0")),
        cq(&u, "authorName", lit("Test User")),
        cq(&u, "authorEmail", lit("test@example.com")),
        cq(
            &u,
            "commitDate",
            Term::Literal {
                value: "2023-11-14T23:13:20+01:00".into(),
                datatype: Some("http://www.w3.org/2001/XMLSchema#dateTime".into()),
            },
        ),
        cq(&u, "message", lit("Initial commit")),
        cq(&u, "parentCommit", Term::Iri(code("commit/1111111"))),
        cq(&u, "parentCommit", Term::Iri(code("commit/2222222"))),
        ctype(&added, "FileChange"),
        cq(&added, "changeType", lit("added")),
        cq(&added, "filePath", lit("src/main.rs")),
        cq(&u, "hasChange", Term::Iri(added.clone())),
        ctype(&deleted, "FileChange"),
        cq(&deleted, "changeType", lit("deleted")),
        cq(&deleted, "filePath", lit("old.rs")),
        cq(&u, "hasChange", Term::Iri(deleted.clone())),
        ctype(&renamed, "FileChange"),
        cq(&renamed, "changeType", lit("renamed")),
        cq(&renamed, "filePath", lit("b.rs")),
        cq(&renamed, "oldFilePath", lit("a.rs")),
        cq(&u, "hasChange", Term::Iri(renamed.clone())),
    ];
    assert_eq!(r.quads, expected);
}

#[test]
fn test_module_linking() {
    let modules = vec![
        ("src/main.rs".to_string(), code("module/src/main.rs")),
        ("src/lib.rs".to_string(), code("module/src/lib.rs")),
        ("src/main.rs".to_string(), code("module/second")),
    ];
    let changes = vec![
        (code("commit/abc/src/main.rs"), "src/main.rs".to_string()),
        (code("commit/abc/README.md"), "README.md".to_string()),
        (code("commit/abc/src/lib.rs"), "src/lib.rs".to_string()),
    ];
    let links = module_links(&modules, &changes);
    assert_eq!(
        links,
        vec![
            cq(&code("commit/abc/src/main.rs"), "affectsModule", Term::Iri(code("module/second"))),
            cq(&code("commit/abc/src/lib.rs"), "affectsModule", Term::Iri(code("module/src/lib.rs"))),
        ]
    );
}

#[test]
fn project_links_to_each_commit() {
    let commits = vec![code("commit/a"), code("commit/b")];
    assert!(project_links(None, &commits).is_empty());
    let p = code("project/demo");
    assert_eq!(
        project_links(Some(&p), &commits),
        vec![
            cq(&p, "hasCommit", Term::Iri(code("commit/a"))),
            cq(&p, "hasCommit", Term::Iri(code("commit/b"))),
        ]
    );
}

#[test]
fn commit_times_that_can_be_written() {
    assert!(commit_time_ok(1_700_000_000, 60));
    assert!(commit_time_ok(0, -720));
    // An instant that cannot be written is replaced by the epoch.
    assert!(commit_time_ok(i64::MAX, 0));
    // The offset in seconds overflows an i32.
    assert!(!commit_time_ok(0, i32::MAX));
    // The last representable second, moved an hour ahead, is past year 9999.
    assert!(!commit_time_ok(253_402_300_799, 60));
}

#[test]
fn commit_fits_counts_only_recorded_changes() {
    let mut r = GitHistoryResult::new();
    let deltas = vec![
        FileDelta { kind: ChangeKind::Added, new_path: Some("a.rs".into()), old_path: None },
        FileDelta { kind: ChangeKind::Modified, new_path: None, old_path: Some("y".into()) },
    ];
    assert!(r.commit_fits(&deltas));
    r.change_count = u32::MAX - 1;
    assert!(r.commit_fits(&deltas));
    r.change_count = u32::MAX;
    assert!(!r.commit_fits(&deltas));
    let unrecorded = vec![FileDelta { kind: ChangeKind::Modified, new_path: None, old_path: Some("y".into()) }];
    assert!(r.commit_fits(&unrecorded));
    r.commit_count = u32::MAX;
    assert!(!r.commit_fits(&Vec::new()));
}
