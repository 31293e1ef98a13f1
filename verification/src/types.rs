//! Citations, tool inputs and tool outputs exchanged between agent tools.
use vstd::prelude::*;

use crate::text::{str_eq, to_owned_string};

verus! {

/// A citation referencing the source of a claim.
#[derive(Debug, Clone, PartialEq, Eq)]
pub enum Citation {
    /// An RDF IRI from a SPARQL result.
    Iri(String),
    /// A RAG chunk identifier.
    ChunkId(String),
}

/// The mathematical value of a [`Citation`]: its kind and its text.
pub enum CitationModel {
    Iri(Seq<char>),
    ChunkId(Seq<char>),
}

impl View for Citation {
    type V = CitationModel;

    open spec fn view(&self) -> CitationModel {
        match self {
            Citation::Iri(s) => CitationModel::Iri(s@),
            Citation::ChunkId(s) => CitationModel::ChunkId(s@),
        }
    }
}

/// The models of a sequence of citations.
pub open spec fn cites(v: Seq<Citation>) -> Seq<CitationModel> {
    v.map_values(|c: Citation| c@)
}

/// Input to an agent tool.
#[derive(Debug, Clone)]
pub enum ToolInput {
    /// Execute a SPARQL query against the triplestore.
    Sparql { query: String },
    /// Retrieve relevant chunks via the RAG pipeline.
    Rag { query: String, top_k: Option<usize> },
    /// Generate text using an LLM with provided context.
    Codegen { prompt: String, context: String },
}

/// The mathematical value of a [`ToolInput`].
pub enum InputModel {
    Sparql { query: Seq<char> },
    Rag { query: Seq<char>, top_k: Option<usize> },
    Codegen { prompt: Seq<char>, context: Seq<char> },
}

impl View for ToolInput {
    type V = InputModel;

    open spec fn view(&self) -> InputModel {
        match self {
            ToolInput::Sparql { query } => InputModel::Sparql { query: query@ },
            ToolInput::Rag { query, top_k } => InputModel::Rag { query: query@, top_k: *top_k },
            ToolInput::Codegen { prompt, context } => InputModel::Codegen {
                prompt: prompt@,
                context: context@,
            },
        }
    }
}

/// The models of a sequence of tool inputs.
pub open spec fn inputs(v: Seq<ToolInput>) -> Seq<InputModel> {
    v.map_values(|i: ToolInput| i@)
}

/// Output from an agent tool.
#[derive(Debug, Clone)]
pub struct ToolOutput {
    /// The text content of the tool's response.
    pub content: String,
    /// Citations grounding the response in source data.
    pub citations: Vec<Citation>,
}

/// Why an agent tool or the router could not produce an output.
#[derive(Debug, Clone, PartialEq, Eq)]
pub enum ToolError {
    /// The tool was handed an input of a kind it does not handle; the
    /// payload names the input kind the tool expects.
    WrongInput(String),
    /// The router has no tool that could handle the query.
    NoToolsAvailable,
    /// The plan asked for a tool that is not registered.
    NotRegistered(String),
    /// The tool itself failed.
    Failed(String),
}

/// A tool that the router can dispatch inputs to.
pub trait AgentTool: Send + Sync {
    /// The unique name of this tool.
    spec fn tool_name(&self) -> Seq<char>;

    /// Returns the unique name of this tool.
    fn name(&self) -> (r: &str)
        ensures
            r@ == self.tool_name(),
    ;

    /// Whether `r` is an answer this tool may give for `input`: each tool
    /// says what it answers.
    spec fn answers(&self, input: InputModel, r: Result<ToolOutput, ToolError>) -> bool;

    /// Execute the tool with the given input.
    fn call(&self, input: ToolInput) -> (r: Result<ToolOutput, ToolError>)
        ensures
            self.answers(input@, r),
    ;
}

/// The two citations have the same kind and the same text.
pub fn citation_eq(a: &Citation, b: &Citation) -> (r: bool)
    ensures
        r == (a@ == b@),
{
    match (a, b) {
        (Citation::Iri(x), Citation::Iri(y)) => str_eq(x.as_str(), y.as_str()),
        (Citation::ChunkId(x), Citation::ChunkId(y)) => str_eq(x.as_str(), y.as_str()),
        _ => false,
    }
}

/// A copy of a citation.
pub fn copy_citation(c: &Citation) -> (r: Citation)
    ensures
        r@ == c@,
{
    match c {
        Citation::Iri(x) => Citation::Iri(to_owned_string(x.as_str())),
        Citation::ChunkId(x) => Citation::ChunkId(to_owned_string(x.as_str())),
    }
}

/// `acc` with `c` appended unless an equal citation is already there.
pub open spec fn push_unique(acc: Seq<CitationModel>, c: CitationModel) -> Seq<CitationModel> {
    if acc.contains(c) {
        acc
    } else {
        acc.push(c)
    }
}

/// `acc` extended with the citations of `s`, in order, skipping those already present.
pub open spec fn push_all_unique(acc: Seq<CitationModel>, s: Seq<CitationModel>) -> Seq<
    CitationModel,
>
    decreases s.len(),
{
    if s.len() == 0 {
        acc
    } else {
        push_unique(push_all_unique(acc, s.drop_last()), s.last())
    }
}

/// No citation occurs twice in `s`.
pub open spec fn no_duplicates(s: Seq<CitationModel>) -> bool {
    forall|i: int, j: int| 0 <= i < j < s.len() ==> s[i] != s[j]
}

/// Appends `c` to `acc` unless an equal citation is already there.
pub fn push_citation_unique(acc: &mut Vec<Citation>, c: Citation)
    ensures
        cites(final(acc)@) == push_unique(cites(old(acc)@), c@),
{
    let mut i: usize = 0;
    while i < acc.len()
        invariant
            0 <= i <= acc@.len(),
            forall|k: int| 0 <= k < i ==> acc@[k]@ != c@,
        decreases acc.len() - i,
    {
        if citation_eq(&acc[i], &c) {
            assert(cites(acc@)[i as int] == c@);
            return;
        }
        i += 1;
    }
    assert(!cites(acc@).contains(c@)) by {
        if cites(acc@).contains(c@) {
            let k = choose|k: int| 0 <= k < cites(acc@).len() && cites(acc@)[k] == c@;
            assert(acc@[k]@ == c@);
        }
    }
    acc.push(c);
    assert(cites(acc@) =~= cites(old(acc)@).push(c@));
}

/// `push_unique` keeps a duplicate-free sequence duplicate-free.
pub proof fn lemma_push_unique_no_dup(acc: Seq<CitationModel>, c: CitationModel)
    requires
        no_duplicates(acc),
    ensures
        no_duplicates(push_unique(acc, c)),
        forall|x: CitationModel| #[trigger]
            push_unique(acc, c).contains(x) <==> (acc.contains(x) || x == c),
{
    if !acc.contains(c) {
        let r = acc.push(c);
        assert forall|i: int, j: int| 0 <= i < j < r.len() implies r[i] != r[j] by {
            if j == acc.len() {
                assert(r[i] == acc[i]);
            }
        }
        assert forall|x: CitationModel| #[trigger] r.contains(x) <==> (acc.contains(x) || x == c) by {
            if r.contains(x) {
                let k = choose|k: int| 0 <= k < r.len() && r[k] == x;
                if k < acc.len() {
                    assert(acc[k] == x);
                }
            }
            if acc.contains(x) {
                let k = choose|k: int| 0 <= k < acc.len() && acc[k] == x;
                assert(r[k] == x);
            }
            if x == c {
                assert(r[acc.len() as int] == x);
            }
        }
    }
}

/// Extending with `push_all_unique` keeps a sequence duplicate-free, and a
/// citation ends up in the result exactly when it was in `acc` or in `s`.
pub proof fn lemma_push_all_unique(acc: Seq<CitationModel>, s: Seq<CitationModel>)
    requires
        no_duplicates(acc),
    ensures
        no_duplicates(push_all_unique(acc, s)),
        forall|x: CitationModel| #[trigger]
            push_all_unique(acc, s).contains(x) <==> (acc.contains(x) || s.contains(x)),
    decreases s.len(),
{
    if s.len() > 0 {
        lemma_push_all_unique(acc, s.drop_last());
        lemma_push_unique_no_dup(push_all_unique(acc, s.drop_last()), s.last());
        assert forall|x: CitationModel| #[trigger]
            push_all_unique(acc, s).contains(x) <==> (acc.contains(x) || s.contains(x)) by {
            if s.contains(x) && x != s.last() {
                let k = choose|k: int| 0 <= k < s.len() && s[k] == x;
                assert(s.drop_last()[k] == x);
            }
            if s.drop_last().contains(x) {
                let k = choose|k: int| 0 <= k < s.drop_last().len() && s.drop_last()[k] == x;
                assert(s[k] == x);
            }
            if x == s.last() {
                assert(s[s.len() - 1] == x);
            }
        }
    }
}

} // verus!
