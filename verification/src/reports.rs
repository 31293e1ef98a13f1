//! The texts the loading tools answer with: summaries of what was loaded, and
//! the messages of load errors.
use vstd::prelude::*;
use vstd::string::StringExecFns;

use crate::ansible::AnsibleLoadError;
use crate::decimal::dec;
use crate::git_history::GitLoadError;
use crate::loader::LoadError;
use crate::rdf::push_decimal_u64;
use crate::text::{spec_join, str_eq, to_owned_string};
use crate::types::{cites, CitationModel, ToolError, ToolOutput};
use crate::prompt_contract::citation_lines;

verus! {

broadcast use vstd::string::group_string_axioms;

/// Appends the decimal numeral of `n`.
fn push_num(out: &mut String, n: u64)
    ensures
        final(out)@ == old(out)@ + dec(n as nat),
{
    push_decimal_u64(out, n);
}

/// The summary of an inventory load.
pub open spec fn inventory_summary_text(hosts: u32, groups: u32, vars: u32, quads: usize) -> Seq<char> {
    "Loaded inventory: "@ + dec(hosts as nat) + " hosts, "@ + dec(groups as nat) + " groups, "@
        + dec(vars as nat) + " variables ("@ + dec(quads as nat) + " triples)."@
}

/// The summary of an inventory load: hosts, groups, variables and triples.
pub fn inventory_summary(hosts: u32, groups: u32, vars: u32, quads: usize) -> (r: String)
    ensures
        r@ == inventory_summary_text(hosts, groups, vars, quads),
{
    let mut out = to_owned_string("Loaded inventory: ");
    push_num(&mut out, hosts as u64);
    out.append(" hosts, ");
    push_num(&mut out, groups as u64);
    out.append(" groups, ");
    push_num(&mut out, vars as u64);
    out.append(" variables (");
    push_num(&mut out, quads as u64);
    out.append(" triples).");
    out
}

/// The counts of an Ansible project load, in the order of its summary.
pub struct ProjectCounts {
    pub hosts: u32,
    pub groups: u32,
    pub vars: u32,
    pub playbooks: u32,
    pub plays: u32,
    pub tasks: u32,
    pub roles: u32,
    pub handlers: u32,
    pub templates: u32,
}

/// `, <n><label>` when `n` is not zero.
pub open spec fn count_part(n: u32, label: Seq<char>) -> Seq<char> {
    if n > 0 { ", "@ + dec(n as nat) + label } else { Seq::empty() }
}

/// The playbook part of a project summary: playbooks, plays and tasks when there are playbooks.
pub open spec fn playbook_part(c: ProjectCounts) -> Seq<char> {
    if c.playbooks > 0 {
        ", "@ + dec(c.playbooks as nat) + " playbooks, "@ + dec(c.plays as nat) + " plays, "@
            + dec(c.tasks as nat) + " tasks"@
    } else {
        Seq::empty()
    }
}

/// The summary of an Ansible project load: inventory counts always; playbook,
/// play and task counts when there are playbooks; roles, handlers and
/// templates when there are any; and the triples.
pub open spec fn project_summary_text(c: ProjectCounts, quads: usize) -> Seq<char> {
    "Loaded Ansible project: "@ + dec(c.hosts as nat) + " hosts, "@ + dec(c.groups as nat)
        + " groups, "@ + dec(c.vars as nat) + " variables"@ + playbook_part(c)
        + count_part(c.roles, " roles"@) + count_part(c.handlers, " handlers"@)
        + count_part(c.templates, " templates"@) + " ("@ + dec(quads as nat) + " triples)."@
}

/// Appends `, <n><label>` when `n` is not zero.
fn push_count_part(out: &mut String, n: u32, label: &str)
    ensures
        final(out)@ == old(out)@ + count_part(n, label@),
{
    if n > 0 {
        out.append(", ");
        push_num(out, n as u64);
        out.append(label);
    }
    assert(out@ =~= old(out)@ + count_part(n, label@));
}

/// Appends the playbook part of a project summary.
fn push_playbook_part(out: &mut String, c: &ProjectCounts)
    ensures
        final(out)@ == old(out)@ + playbook_part(*c),
{
    if c.playbooks > 0 {
        out.append(", ");
        push_num(out, c.playbooks as u64);
        out.append(" playbooks, ");
        push_num(out, c.plays as u64);
        out.append(" plays, ");
        push_num(out, c.tasks as u64);
        out.append(" tasks");
    }
    assert(out@ =~= old(out)@ + playbook_part(*c));
}

/// The summary of an Ansible project load.
pub fn project_summary(c: &ProjectCounts, quads: usize) -> (r: String)
    ensures
        r@ == project_summary_text(*c, quads),
{
    let mut out = to_owned_string("Loaded Ansible project: ");
    push_num(&mut out, c.hosts as u64);
    out.append(" hosts, ");
    push_num(&mut out, c.groups as u64);
    out.append(" groups, ");
    push_num(&mut out, c.vars as u64);
    out.append(" variables");
    let ghost head = out@;
    push_playbook_part(&mut out, c);
    push_count_part(&mut out, c.roles, " roles");
    push_count_part(&mut out, c.handlers, " handlers");
    push_count_part(&mut out, c.templates, " templates");
    out.append(" (");
    push_num(&mut out, quads as u64);
    out.append(" triples).");
    assert(out@ =~= project_summary_text(*c, quads));
    out
}

/// The summary of a history load, with the links made when there are any.
pub open spec fn git_summary_text(commits: u32, changes: u32, quads: usize, module_links: u32, project_links: u32) -> Seq<char> {
    "Loaded "@ + dec(commits as nat) + " commits, "@ + dec(changes as nat) + " file changes ("@
        + dec(quads as nat) + " triples)."@ + if module_links > 0 || project_links > 0 {
        " Linked "@ + dec(module_links as nat) + " changes to modules, "@ + dec(project_links as nat)
            + " commits to project."@
    } else {
        Seq::empty()
    }
}

/// The summary of a history load, with the links made when there are any.
pub fn git_summary(commits: u32, changes: u32, quads: usize, module_links: u32, project_links: u32) -> (r: String)
    ensures
        r@ == git_summary_text(commits, changes, quads, module_links, project_links),
{
    let mut out = to_owned_string("Loaded ");
    push_num(&mut out, commits as u64);
    out.append(" commits, ");
    push_num(&mut out, changes as u64);
    out.append(" file changes (");
    push_num(&mut out, quads as u64);
    out.append(" triples).");
    if module_links > 0 || project_links > 0 {
        out.append(" Linked ");
        push_num(&mut out, module_links as u64);
        out.append(" changes to modules, ");
        push_num(&mut out, project_links as u64);
        out.append(" commits to project.");
    }
    out
}

/// The summary of a code load: files and triples loaded into the graph (the
/// one given, else `code:<language>`), then the failures, if any, one a line.
pub open spec fn code_summary_text(files: u32, quads: usize, graph: Option<Seq<char>>, lang: Seq<char>, errors: Seq<Seq<char>>) -> Seq<char> {
    let g = match graph {
        Some(x) => x,
        None => "code:"@ + lang,
    };
    "Loaded "@ + dec(files as nat) + " file(s), "@ + dec(quads as nat) + " triples into graph '"@ + g
        + "'."@ + if errors.len() > 0 {
        "\n\nWarnings ("@ + dec(errors.len()) + " file(s) failed):\n"@ + spec_join(errors, "\n"@)
    } else {
        Seq::empty()
    }
}

/// The summary of a code load: files and triples loaded into the graph (the
/// one given, else `code:<language>`), then the failures, if any, one a line.
pub fn code_summary(files: u32, quads: usize, graph: Option<&str>, lang: &str, errors: &Vec<String>) -> (r: String)
    ensures
        r@ == code_summary_text(files, quads, match graph {
            Some(g) => Some(g@),
            None => None,
        }, lang@, errors@.map_values(|e: String| e@)),
{
    let mut out = to_owned_string("Loaded ");
    push_num(&mut out, files as u64);
    out.append(" file(s), ");
    push_num(&mut out, quads as u64);
    out.append(" triples into graph '");
    match graph {
        Some(g) => out.append(g),
        None => {
            out.append("code:");
            out.append(lang);
        },
    }
    out.append("'.");
    let ghost es = errors@.map_values(|e: String| e@);
    if errors.len() > 0 {
        out.append("\n\nWarnings (");
        push_num(&mut out, errors.len() as u64);
        out.append(" file(s) failed):\n");
        let ghost before = out@;
        let mut i: usize = 0;
        while i < errors.len()
            invariant
                0 <= i <= errors@.len(),
                es == errors@.map_values(|e: String| e@),
                out@ == before + spec_join(es.take(i as int), "\n"@),
            decreases errors.len() - i,
        {
            assert(es.take(i + 1).drop_last() =~= es.take(i as int));
            if i > 0 {
                out.append("\n");
            }
            out.append(errors[i].as_str());
            proof {
                if i == 0 {
                    assert(es.take(1) =~= seq![es[0]]);
                }
            }
            assert(out@ =~= before + spec_join(es.take(i + 1), "\n"@));
            i += 1;
        }
        assert(es.take(es.len() as int) =~= es);
    }
    out
}

/// The message of an Ansible load error.
pub open spec fn ansible_error_text(e: AnsibleLoadError) -> Seq<char> {
    match e {
        AnsibleLoadError::Io(m) => "I/O error: "@ + m@,
        AnsibleLoadError::Yaml(m) => "YAML parse error: "@ + m@,
        AnsibleLoadError::Parse(m) => "Parse error: "@ + m@,
    }
}

impl AnsibleLoadError {
    /// The message of the error.
    pub fn message(&self) -> (r: String)
        ensures
            r@ == ansible_error_text(*self),
    {
        let (head, m) = match self {
            AnsibleLoadError::Io(m) => ("I/O error: ", m),
            AnsibleLoadError::Yaml(m) => ("YAML parse error: ", m),
            AnsibleLoadError::Parse(m) => ("Parse error: ", m),
        };
        let mut out = to_owned_string(head);
        out.append(m.as_str());
        out
    }
}

/// The message of a history load error.
pub open spec fn git_error_text(e: GitLoadError) -> Seq<char> {
    match e {
        GitLoadError::RepoOpen(m) => "Failed to open repository: "@ + m@,
        GitLoadError::RevParse(m) => "Failed to resolve ref: "@ + m@,
        GitLoadError::Walk(m) => "Error walking commits: "@ + m@,
        GitLoadError::Diff(m) => "Error computing diff: "@ + m@,
    }
}

impl GitLoadError {
    /// The message of the error.
    pub fn message(&self) -> (r: String)
        ensures
            r@ == git_error_text(*self),
    {
        let (head, m) = match self {
            GitLoadError::RepoOpen(m) => ("Failed to open repository: ", m),
            GitLoadError::RevParse(m) => ("Failed to resolve ref: ", m),
            GitLoadError::Walk(m) => ("Error walking commits: ", m),
            GitLoadError::Diff(m) => ("Error computing diff: ", m),
        };
        let mut out = to_owned_string(head);
        out.append(m.as_str());
        out
    }
}

/// The message of a code load error: the file and, when known, the line of a parse error.
pub open spec fn load_error_text(e: LoadError) -> Seq<char> {
    match e {
        LoadError::Io(m) => "I/O error: "@ + m@,
        LoadError::Parse { file, line, message } => "Parse error in "@ + file@ + match line {
            Some(l) => " at line "@ + dec(l as nat),
            None => Seq::empty(),
        } + ": "@ + message@,
    }
}

impl LoadError {
    /// The message of the error.
    pub fn message(&self) -> (r: String)
        ensures
            r@ == load_error_text(*self),
    {
        match self {
            LoadError::Io(m) => {
                let mut out = to_owned_string("I/O error: ");
                out.append(m.as_str());
                out
            },
            LoadError::Parse { file, line, message } => {
                let mut out = to_owned_string("Parse error in ");
                out.append(file.as_str());
                let ghost mid = out@;
                match line {
                    Some(l) => {
                        out.append(" at line ");
                        push_num(&mut out, *l as u64);
                    },
                    None => {},
                }
                out.append(": ");
                out.append(message.as_str());
                assert(out@ =~= load_error_text(*self));
                out
            },
        }
    }
}


/// The message of a tool handed an input of another kind.
pub open spec fn wrong_input_text(k: Seq<char>) -> Seq<char> {
    if k == "sparql"@ {
        "SparqlTool expects ToolInput::Sparql"@
    } else if k == "rag"@ {
        "RagTool expects ToolInput::Rag"@
    } else if k == "codegen"@ {
        "CodegenTool expects ToolInput::Codegen"@
    } else {
        "Tool expects ToolInput::"@ + k
    }
}

/// The message of an agent error.
pub open spec fn tool_error_text(e: ToolError) -> Seq<char> {
    match e {
        ToolError::WrongInput(k) => wrong_input_text(k@),
        ToolError::NoToolsAvailable => "No tools available to handle query"@,
        ToolError::NotRegistered(n) => "Tool '"@ + n@ + "' not registered"@,
        ToolError::Failed(m) => m@,
    }
}

impl ToolError {
    /// The message of the error.
    pub fn message(&self) -> (r: String)
        ensures
            r@ == tool_error_text(*self),
    {
        match self {
            ToolError::WrongInput(k) => {
                if str_eq(k.as_str(), "sparql") {
                    to_owned_string("SparqlTool expects ToolInput::Sparql")
                } else if str_eq(k.as_str(), "rag") {
                    to_owned_string("RagTool expects ToolInput::Rag")
                } else if str_eq(k.as_str(), "codegen") {
                    to_owned_string("CodegenTool expects ToolInput::Codegen")
                } else {
                    let mut out = to_owned_string("Tool expects ToolInput::");
                    out.append(k.as_str());
                    out
                }
            },
            ToolError::NoToolsAvailable => to_owned_string("No tools available to handle query"),
            ToolError::NotRegistered(n) => {
                let mut out = to_owned_string("Tool '");
                out.append(n.as_str());
                out.append("' not registered");
                out
            },
            ToolError::Failed(m) => to_owned_string(m.as_str()),
        }
    }
}

/// The answer of the agent tool: the content, then, when there are
/// citations, a `Citations` section listing each as a marker line.
pub open spec fn agent_answer_text(content: Seq<char>, cs: Seq<CitationModel>) -> Seq<char> {
    if cs.len() > 0 {
        content + "\n\n---\nCitations:\n"@ + citation_lines(cs)
    } else {
        content
    }
}

/// The answer of the agent tool for the output of a run.
pub fn agent_answer(out: &ToolOutput) -> (r: String)
    ensures
        r@ == agent_answer_text(out.content@, cites(out.citations@)),
{
    let mut text = to_owned_string(out.content.as_str());
    if out.citations.len() > 0 {
        text.append("\n\n---\nCitations:\n");
        let ghost head = text@;
        let ghost cs = cites(out.citations@);
        let mut i: usize = 0;
        while i < out.citations.len()
            invariant
                0 <= i <= out.citations@.len(),
                cs == cites(out.citations@),
                text@ == head + citation_lines(cs.take(i as int)),
            decreases out.citations.len() - i,
        {
            assert(cs.take(i + 1).drop_last() =~= cs.take(i as int));
            match &out.citations[i] {
                crate::types::Citation::Iri(iri) => {
                    text.append("- [iri:");
                    text.append(iri.as_str());
                    text.append("]\n");
                },
                crate::types::Citation::ChunkId(id) => {
                    text.append("- [chunk:");
                    text.append(id.as_str());
                    text.append("]\n");
                },
            }
            i += 1;
        }
        assert(cs.take(cs.len() as int) =~= cs);
    }
    text
}

/// The message of a failed agent run.
pub fn agent_error(e: &ToolError) -> (r: String)
    ensures
        r@ == "Agent error: "@ + tool_error_text(*e),
{
    let mut out = to_owned_string("Agent error: ");
    let m = e.message();
    out.append(m.as_str());
    out
}

/// The summary of an indexing run.
pub open spec fn index_summary_text(chunks: usize, subjects: usize) -> Seq<char> {
    "Indexed "@ + dec(chunks as nat) + " chunks from "@ + dec(subjects as nat) + " subjects."@
}

/// The summary of an indexing run: chunks stored and subjects read.
pub fn index_summary(r: &crate::retrieval::IndexResult) -> (out: String)
    ensures
        out@ == index_summary_text(r.chunks_indexed, r.subjects_processed),
{
    let mut out = to_owned_string("Indexed ");
    push_num(&mut out, r.chunks_indexed as u64);
    out.append(" chunks from ");
    push_num(&mut out, r.subjects_processed as u64);
    out.append(" subjects.");
    out
}

} // verus!
