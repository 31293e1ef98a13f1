use semantic_code::reports::{agent_answer, agent_error, index_summary};
use semantic_code::retrieval::IndexResult;
use semantic_code::types::{ToolError, ToolOutput};
use semantic_code::ansible::AnsibleLoadError;
use semantic_code::git_history::GitLoadError;
use semantic_code::reports::{code_summary, git_summary, inventory_summary, project_summary, ProjectCounts};
use semantic_code::sparql_tool::{sparql_output, QueryOutput, ResultTerm};
use semantic_code::types::Citation;

#[test]
fn load_summaries() {
    assert_eq!(inventory_summary(3, 2, 5, 40), "Loaded inventory: 3 hosts, 2 groups, 5 variables (40 triples).");
    let none = ProjectCounts { hosts: 1, groups: 2, vars: 0, playbooks: 0, plays: 7, tasks: 9, roles: 0, handlers: 0, templates: 0 };
    assert_eq!(project_summary(&none, 12), "Loaded Ansible project: 1 hosts, 2 groups, 0 variables (12 triples).");
    let all = ProjectCounts { playbooks: 2, roles: 1, handlers: 3, templates: 4, ..none };
    assert_eq!(
        project_summary(&all, 100),
        "Loaded Ansible project: 1 hosts, 2 groups, 0 variables, 2 playbooks, 7 plays, 9 tasks, 1 roles, 3 handlers, 4 templates (100 triples)."
    );
    assert_eq!(git_summary(3, 4, 50, 0, 0), "Loaded 3 commits, 4 file changes (50 triples).");
    assert_eq!(
        git_summary(1, 1, 12, 1, 0),
        "Loaded 1 commits, 1 file changes (12 triples). Linked 1 changes to modules, 0 commits to project."
    );
    assert_eq!(code_summary(2, 30, None, "rust", &vec![]), "Loaded 2 file(s), 30 triples into graph 'code:rust'.");
    assert_eq!(
        code_summary(1, 5, Some("urn:g"), "python", &vec!["a.py: bad".to_string(), "b.py: worse".to_string()]),
        "Loaded 1 file(s), 5 triples into graph 'urn:g'.\n\nWarnings (2 file(s) failed):\na.py: bad\nb.py: worse"
    );
}

#[test]
fn error_messages() {
    assert_eq!(AnsibleLoadError::Io("gone".into()).message(), "I/O error: gone");
    assert_eq!(AnsibleLoadError::Yaml("bad".into()).message(), "YAML parse error: bad");
    assert_eq!(AnsibleLoadError::Parse("odd".into()).message(), "Parse error: odd");
    assert_eq!(GitLoadError::RepoOpen("x".into()).message(), "Failed to open repository: x");
    assert_eq!(GitLoadError::RevParse("x".into()).message(), "Failed to resolve ref: x");
    assert_eq!(GitLoadError::Walk("x".into()).message(), "Error walking commits: x");
    assert_eq!(GitLoadError::Diff("x".into()).message(), "Error computing diff: x");
}

#[test]
fn sparql_answers_cite_each_iri_once() {
    let rows = vec![
        vec![ResultTerm::Iri("http://e/alice".into()), ResultTerm::Other],
        vec![ResultTerm::Iri("http://e/bob".into()), ResultTerm::Iri("http://e/alice".into())],
    ];
    let out = sparql_output(&QueryOutput::Solutions("{\"results\":[]}".into(), rows));
    assert_eq!(out.content, "{\"results\":[]}");
    assert_eq!(out.citations, vec![Citation::Iri("http://e/alice".into()), Citation::Iri("http://e/bob".into())]);
    let triples = vec![
        (ResultTerm::Iri("http://e/s".into()), ResultTerm::Other),
        (ResultTerm::Iri("http://e/t".into()), ResultTerm::Iri("http://e/s".into())),
    ];
    let out = sparql_output(&QueryOutput::Graph("<s> <p> \"o\" .\n".into(), triples));
    assert_eq!(out.citations, vec![Citation::Iri("http://e/s".into()), Citation::Iri("http://e/t".into())]);
    let yes = sparql_output(&QueryOutput::Boolean(true));
    assert_eq!(yes.content, "true");
    assert!(yes.citations.is_empty());
    assert_eq!(sparql_output(&QueryOutput::Boolean(false)).content, "false");
}

#[test]
fn agent_answers_and_errors() {

    let plain = ToolOutput { content: "no sources".into(), citations: vec![] };
    assert_eq!(agent_answer(&plain), "no sources");
    let cited = ToolOutput {
        content: "answer".into(),
        citations: vec![Citation::Iri("http://e/a".into()), Citation::ChunkId("c1".into())],
    };
    assert_eq!(agent_answer(&cited), "answer\n\n---\nCitations:\n- [iri:http://e/a]\n- [chunk:c1]\n");

    assert_eq!(ToolError::WrongInput("sparql".into()).message(), "SparqlTool expects ToolInput::Sparql");
    assert_eq!(ToolError::WrongInput("rag".into()).message(), "RagTool expects ToolInput::Rag");
    assert_eq!(ToolError::WrongInput("codegen".into()).message(), "CodegenTool expects ToolInput::Codegen");
    assert_eq!(ToolError::NoToolsAvailable.message(), "No tools available to handle query");
    assert_eq!(ToolError::NotRegistered("rag".into()).message(), "Tool 'rag' not registered");
    assert_eq!(ToolError::Failed("boom".into()).message(), "boom");
    assert_eq!(agent_error(&ToolError::NotRegistered("sparql".into())), "Agent error: Tool 'sparql' not registered");

    assert_eq!(
        index_summary(&IndexResult { chunks_indexed: 12, subjects_processed: 12 }),
        "Indexed 12 chunks from 12 subjects."
    );
}
