//! The text-generation tool and the scanner for citation markers in generated text.
use vstd::prelude::*;
use vstd::string::StringExecFns;

use crate::prompt_contract::{assemble_prompt, spec_assemble_prompt};
use crate::text::{
    chars_of, find_char_from, find_char_from_exec, lemma_find_char_from_bounds, occurs_at,
    occurs_at_exec, string_of_range, to_owned_string,
};
use crate::types::{
    cites, no_duplicates, push_citation_unique, push_unique, lemma_push_unique_no_dup, AgentTool,
    Citation, CitationModel, InputModel, ToolError, ToolInput, ToolOutput,
};

verus! {

broadcast use vstd::string::group_string_axioms;

/// The citation of the given kind with the given text.
pub open spec fn cite_of(is_iri: bool, s: Seq<char>) -> CitationModel {
    if is_iri {
        CitationModel::Iri(s)
    } else {
        CitationModel::ChunkId(s)
    }
}

/// Scans `t` from index `from` for non-overlapping occurrences of the marker
/// `m`; each occurrence followed by a `]` yields the citation of the text
/// between the marker and the first `]`, added to `acc` unless already there.
pub open spec fn scan_markers(
    t: Seq<char>,
    m: Seq<char>,
    is_iri: bool,
    from: int,
    acc: Seq<CitationModel>,
) -> Seq<CitationModel>
    decreases t.len() - from,
{
    if m.len() == 0 || from < 0 || from + m.len() > t.len() {
        acc
    } else if occurs_at(t, m, from) {
        let acc2 = match find_char_from(t, ']', from) {
            Some(e) => push_unique(acc, cite_of(is_iri, t.subrange(from + m.len(), e))),
            None => acc,
        };
        scan_markers(t, m, is_iri, from + m.len(), acc2)
    } else {
        scan_markers(t, m, is_iri, from + 1, acc)
    }
}

/// The citations named by `[iri:...]` and `[chunk:...]` markers in `t`: first
/// every IRI marker in order of appearance, then every chunk marker, each
/// citation once.
pub open spec fn spec_extract_citations(t: Seq<char>) -> Seq<CitationModel> {
    scan_markers(t, "[chunk:"@, false, 0, scan_markers(t, "[iri:"@, true, 0, Seq::empty()))
}

/// Scanning never drops a citation from the accumulator and keeps it free of duplicates.
pub proof fn lemma_scan_grows(
    t: Seq<char>,
    m: Seq<char>,
    is_iri: bool,
    from: int,
    acc: Seq<CitationModel>,
)
    requires
        no_duplicates(acc),
    ensures
        no_duplicates(scan_markers(t, m, is_iri, from, acc)),
        forall|x: CitationModel| acc.contains(x) ==> #[trigger] scan_markers(
            t,
            m,
            is_iri,
            from,
            acc,
        ).contains(x),
    decreases t.len() - from,
{
    if m.len() == 0 || from < 0 || from + m.len() > t.len() {
    } else if occurs_at(t, m, from) {
        let acc2 = match find_char_from(t, ']', from) {
            Some(e) => push_unique(acc, cite_of(is_iri, t.subrange(from + m.len(), e))),
            None => acc,
        };
        if let Some(e) = find_char_from(t, ']', from) {
            lemma_push_unique_no_dup(acc, cite_of(is_iri, t.subrange(from + m.len(), e)));
        }
        lemma_scan_grows(t, m, is_iri, from + m.len(), acc2);
    } else {
        lemma_scan_grows(t, m, is_iri, from + 1, acc);
    }
}



/// Extraction reports each citation once.
pub proof fn law_extracted_citations_unique(t: Seq<char>)
    ensures
        no_duplicates(spec_extract_citations(t)),
{
    lemma_scan_grows(t, "[iri:"@, true, 0, Seq::empty());
    lemma_scan_grows(t, "[chunk:"@, false, 0, scan_markers(t, "[iri:"@, true, 0, Seq::empty()));
}

/// The marker that opens a citation of the given kind.
pub open spec fn marker_of(is_iri: bool) -> Seq<char> {
    if is_iri {
        "[iri:"@
    } else {
        "[chunk:"@
    }
}

/// A marker whose only `[` opens it and which holds no `]`: two of its
/// occurrences never overlap, and none ends a citation.
pub open spec fn marker_shape(m: Seq<char>) -> bool {
    &&& m.len() > 0
    &&& m[0] == '['
    &&& forall|k: int| 0 < k < m.len() ==> m[k] != '['
    &&& forall|k: int| 0 <= k < m.len() ==> m[k] != ']'
}

/// Scanning from before an occurrence of the marker that a `]` follows
/// reports the citation it opens.
proof fn lemma_scan_finds(
    t: Seq<char>,
    m: Seq<char>,
    is_iri: bool,
    from: int,
    acc: Seq<CitationModel>,
    p: int,
)
    requires
        marker_shape(m),
        no_duplicates(acc),
        0 <= from <= p,
        occurs_at(t, m, p),
        find_char_from(t, ']', p) is Some,
    ensures
        scan_markers(t, m, is_iri, from, acc).contains(
            cite_of(is_iri, t.subrange(p + m.len(), find_char_from(t, ']', p)->Some_0)),
        ),
    decreases t.len() - from,
{
    if occurs_at(t, m, from) {
        let acc2 = match find_char_from(t, ']', from) {
            Some(e) => push_unique(acc, cite_of(is_iri, t.subrange(from + m.len(), e))),
            None => acc,
        };
        if let Some(e) = find_char_from(t, ']', from) {
            lemma_push_unique_no_dup(acc, cite_of(is_iri, t.subrange(from + m.len(), e)));
        }
        if from == p {
            let c = cite_of(is_iri, t.subrange(p + m.len(), find_char_from(t, ']', p)->Some_0));
            assert(acc2.contains(c));
            lemma_scan_grows(t, m, is_iri, from + m.len(), acc2);
        } else {
            if p < from + m.len() {
                assert(t.subrange(p, p + m.len())[0] == t[p]);
                assert(t.subrange(from, from + m.len())[p - from] == t[p]);
                assert(false);
            }
            lemma_scan_finds(t, m, is_iri, from + m.len(), acc2, p);
        }
    } else {
        lemma_scan_finds(t, m, is_iri, from + 1, acc, p);
    }
}

/// A marker followed by a text without `]` and a `]` names a citation that
/// extraction reports, wherever it stands in the text.
pub proof fn lemma_marker_cited(t: Seq<char>, is_iri: bool, p: int, x: Seq<char>)
    requires
        occurs_at(t, marker_of(is_iri) + x + "]"@, p),
        forall|k: int| 0 <= k < x.len() ==> x[k] != ']',
    ensures
        spec_extract_citations(t).contains(cite_of(is_iri, x)),
{
    reveal_strlit("[iri:");
    reveal_strlit("[chunk:");
    reveal_strlit("]");
    let m = marker_of(is_iri);
    let w = m + x + "]"@;
    let e = p + m.len() + x.len();
    assert forall|k: int| 0 <= k < w.len() implies t[p + k] == #[trigger] w[k] by {
        assert(t.subrange(p, p + w.len())[k] == t[p + k]);
    }
    assert(marker_shape(m));
    assert(t.subrange(p, p + m.len()) =~= m) by {
        assert forall|k: int| 0 <= k < m.len() implies t.subrange(p, p + m.len())[k] == m[k] by {
            assert(w[k] == m[k]);
        }
    }
    assert(occurs_at(t, m, p));
    assert(t[e] == ']') by {
        assert(w[(m.len() + x.len()) as int] == ']');
    }
    assert forall|k: int| p <= k < e implies t[k] != ']' by {
        assert(t[p + (k - p)] == w[k - p]);
        if k - p < m.len() {
            assert(w[k - p] == m[k - p]);
        } else {
            assert(w[k - p] == x[k - p - m.len()]);
        }
    }
    lemma_find_char_from_bounds(t, ']', p);
    assert(find_char_from(t, ']', p) == Some(e)) by {
        match find_char_from(t, ']', p) {
            Some(j) => {
                if j > e {
                    assert(t[e] != ']');
                }
            },
            None => {
                assert(t[e] != ']');
            },
        }
    }
    assert(t.subrange(p + m.len(), e) =~= x) by {
        assert forall|k: int| 0 <= k < x.len() implies t.subrange(p + m.len(), e)[k] == x[k] by {
            assert(t[p + (m.len() + k)] == w[m.len() + k]);
        }
    }
    let iris = scan_markers(t, "[iri:"@, true, 0, Seq::empty());
    lemma_scan_grows(t, "[iri:"@, true, 0, Seq::empty());
    if is_iri {
        lemma_scan_finds(t, m, true, 0, Seq::empty(), p);
        lemma_scan_grows(t, "[chunk:"@, false, 0, iris);
    } else {
        lemma_scan_finds(t, m, false, 0, iris, p);
    }
}

/// Runs [`scan_markers`] over `t` from index 0, adding to `acc`.
fn scan_markers_exec(t: &Vec<char>, m: &Vec<char>, is_iri: bool, acc: &mut Vec<Citation>)
    requires
        m@.len() > 0,
        forall|k: int| 0 <= k < m@.len() ==> m@[k] != ']',
    ensures
        cites(final(acc)@) == scan_markers(t@, m@, is_iri, 0, cites(old(acc)@)),
{
    let mut i: usize = 0;
    while i <= t.len() && m.len() <= t.len() - i
        invariant
            m@.len() > 0,
            forall|k: int| 0 <= k < m@.len() ==> m@[k] != ']',
            scan_markers(t@, m@, is_iri, 0, cites(old(acc)@)) == scan_markers(
                t@,
                m@,
                is_iri,
                i as int,
                cites(acc@),
            ),
        decreases t.len() - i,
    {
        if occurs_at_exec(t, m, i) {
            let found = find_char_from_exec(t, ']', i);
            if let Some(e) = found {
                proof {
                    lemma_find_char_from_bounds(t@, ']', i as int);
                    if e < i + m.len() {
                        assert(t@.subrange(i as int, i + m@.len())[e - i] == m@[e - i]);
                    }
                }
                let s = string_of_range(t, i + m.len(), e);
                let c = if is_iri {
                    Citation::Iri(s)
                } else {
                    Citation::ChunkId(s)
                };
                push_citation_unique(acc, c);
            }
            i = i + m.len();
        } else {
            i = i + 1;
        }
    }
}

/// Extracts citations from generated text by scanning for `[iri:...]` and `[chunk:...]` markers.
pub fn extract_citations_from_text(text: &str) -> (r: Vec<Citation>)
    ensures
        cites(r@) == spec_extract_citations(text@),
{
    let t = chars_of(text);
    let iri = chars_of("[iri:");
    let chunk = chars_of("[chunk:");
    proof {
        reveal_strlit("[iri:");
        reveal_strlit("[chunk:");
    }
    let mut out: Vec<Citation> = Vec::new();
    assert(cites(out@) =~= Seq::<CitationModel>::empty());
    scan_markers_exec(&t, &iri, true, &mut out);
    scan_markers_exec(&t, &chunk, false, &mut out);
    out
}

/// A text generator driven by a prompt.
pub trait LlmClient: Send + Sync {
    /// Whether `r` is an outcome this client may give for `prompt`: each
    /// client says what it generates.
    spec fn generates(&self, prompt: Seq<char>, r: Result<String, ToolError>) -> bool;

    /// Generate text from a prompt.
    fn generate(&self, prompt: &str) -> (r: Result<String, ToolError>)
        ensures
            self.generates(prompt@, r),
    ;
}

/// Mock LLM client for testing that echoes the prompt.
pub struct MockLlmClient;

impl LlmClient for MockLlmClient {
    /// The mock echoes the prompt after `[generated] `, and never fails.
    open spec fn generates(&self, prompt: Seq<char>, r: Result<String, ToolError>) -> bool {
        r matches Ok(s) && s@ == "[generated] "@ + prompt
    }

    fn generate(&self, prompt: &str) -> (r: Result<String, ToolError>)
        ensures
            r matches Ok(s) && s@ == "[generated] "@ + prompt@,
    {
        let mut s = String::new();
        s.append("[generated] ");
        s.append(prompt);
        Ok(s)
    }
}

/// Agent tool that generates text using an LLM with provided context.
pub struct CodegenTool<C: LlmClient> {
    client: C,
}

impl<C: LlmClient> CodegenTool<C> {
    pub fn new(client: C) -> (r: Self)
        ensures
            r.client() == client,
    {
        Self { client }
    }

    /// The client this tool generates with.
    pub closed spec fn client(&self) -> C {
        self.client
    }

    /// The prompt handed to the client for `input`: the prompt and context of
    /// a `Codegen` input assembled with no citations; any other input is refused.
    pub fn prompt_for(input: &ToolInput) -> (r: Result<String, ToolError>)
        ensures
            match input@ {
                InputModel::Codegen { prompt, context } => r matches Ok(p) && p@
                    == spec_assemble_prompt(prompt, context, Seq::empty()),
                _ => r matches Err(ToolError::WrongInput(k)) && k@ == "codegen"@,
            },
    {
        match input {
            ToolInput::Codegen { prompt, context } => {
                let empty: Vec<Citation> = Vec::new();
                assert(cites(empty@) =~= Seq::<CitationModel>::empty());
                Ok(assemble_prompt(prompt.as_str(), context.as_str(), empty.as_slice()))
            },
            _ => Err(ToolError::WrongInput(to_owned_string("codegen"))),
        }
    }

    /// The output for generated text: the text itself with the citations it names.
    pub fn output_for(content: String) -> (r: ToolOutput)
        ensures
            r.content@ == content@,
            cites(r.citations@) == spec_extract_citations(content@),
    {
        let citations = extract_citations_from_text(content.as_str());
        ToolOutput { content, citations }
    }
}

impl<C: LlmClient> AgentTool for CodegenTool<C> {
    open spec fn tool_name(&self) -> Seq<char> {
        "codegen"@
    }

    /// A `Codegen` input is answered with what the client generates for its
    /// assembled prompt, cited by the markers in it; any other input is refused.
    open spec fn answers(&self, input: InputModel, r: Result<ToolOutput, ToolError>) -> bool {
        if input is Codegen {
            exists|g: Result<String, ToolError>|
                #![trigger self.client().generates(spec_assemble_prompt(input->Codegen_prompt, input->Codegen_context, Seq::empty()), g)]
                self.client().generates(spec_assemble_prompt(input->Codegen_prompt, input->Codegen_context, Seq::empty()), g)
                    && match g {
                    Ok(text) => r matches Ok(out) && out.content@ == text@ && cites(out.citations@)
                        == spec_extract_citations(text@),
                    Err(e) => r == Err::<ToolOutput, ToolError>(e),
                }
        } else {
            r matches Err(ToolError::WrongInput(k)) && k@ == "codegen"@
        }
    }

    fn name(&self) -> (r: &str) {
        "codegen"
    }

    fn call(&self, input: ToolInput) -> (r: Result<ToolOutput, ToolError>)
        ensures
            !(input@ is Codegen) ==> (r matches Err(ToolError::WrongInput(k)) && k@ == "codegen"@),
            r matches Ok(out) ==> cites(out.citations@) == spec_extract_citations(out.content@),
            input@ matches InputModel::Codegen { prompt, context } ==> exists|g: Result<String, ToolError>|
                #![trigger self.client().generates(spec_assemble_prompt(prompt, context, Seq::empty()), g)]
                self.client().generates(spec_assemble_prompt(prompt, context, Seq::empty()), g) && match g {
                    Ok(text) => r matches Ok(out) && out.content@ == text@,
                    Err(e) => r == Err::<ToolOutput, ToolError>(e),
                },
    {
        let full_prompt = match Self::prompt_for(&input) {
            Ok(p) => p,
            Err(e) => {
                return Err(e);
            },
        };
        let generated = self.client.generate(full_prompt.as_str());
        let ghost g = generated;
        proof {
            if let InputModel::Codegen { prompt, context } = input@ {
                assert(full_prompt@ == spec_assemble_prompt(prompt, context, Seq::<CitationModel>::empty()));
                assert(self.client().generates(spec_assemble_prompt(prompt, context, Seq::<CitationModel>::empty()), g));
            }
        }
        match generated {
            Ok(content) => {
                let r = Ok(Self::output_for(content));
                assert(match g {
                    Ok(text) => r matches Ok(out) && out.content@ == text@,
                    Err(e) => r == Err::<ToolOutput, ToolError>(e),
                });
                r
            },
            Err(e) => Err(e),
        }
    }
}

} // verus!
