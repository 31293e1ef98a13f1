//! The prompt contract: grounded prompts, citation checks and citation merging.
use vstd::prelude::*;
use vstd::string::StringExecFns;

use crate::codegen_tool::{cite_of, extract_citations_from_text, lemma_marker_cited, marker_of, spec_extract_citations};
use crate::types::{
    cites, copy_citation, lemma_push_all_unique, no_duplicates, push_all_unique, push_citation_unique, Citation, CitationModel,
    ToolOutput,
};

verus! {

broadcast use vstd::string::group_string_axioms;

/// The instruction paragraph placed before the question.
pub open spec fn instructions_text() -> Seq<char> {
    "Answer the question below using ONLY the retrieved context above.\nCite your sources using [iri:...] for RDF IRIs and [chunk:...] for chunk IDs.\nIf the context does not contain enough information, say so explicitly.\n\n"@
}

/// One line of the citation list.
pub open spec fn citation_line(c: CitationModel) -> Seq<char> {
    match c {
        CitationModel::Iri(x) => "- [iri:"@ + x + "]\n"@,
        CitationModel::ChunkId(x) => "- [chunk:"@ + x + "]\n"@,
    }
}

/// The citation list, one line per citation, in order.
pub open spec fn citation_lines(cs: Seq<CitationModel>) -> Seq<char>
    decreases cs.len(),
{
    if cs.len() == 0 {
        Seq::empty()
    } else {
        citation_lines(cs.drop_last()) + citation_line(cs.last())
    }
}

/// The context section: empty when there is no context.
pub open spec fn context_section(context: Seq<char>) -> Seq<char> {
    if context.len() == 0 {
        Seq::empty()
    } else {
        "## Retrieved Context\n\n"@ + context + "\n\n"@
    }
}

/// The citation section: empty when there are no citations.
pub open spec fn citation_section(cs: Seq<CitationModel>) -> Seq<char> {
    if cs.len() == 0 {
        Seq::empty()
    } else {
        "## Source Citations\n\n"@ + citation_lines(cs) + "\n"@
    }
}

/// The grounded prompt: context, citations, instructions, then the question.
pub open spec fn spec_assemble_prompt(
    query: Seq<char>,
    context: Seq<char>,
    cs: Seq<CitationModel>,
) -> Seq<char> {
    context_section(context) + citation_section(cs) + "## Instructions\n\n"@ + instructions_text()
        + "## Question\n\n"@ + query
}


/// The text a citation carries.
pub open spec fn citation_text(c: CitationModel) -> Seq<char> {
    match c {
        CitationModel::Iri(x) => x,
        CitationModel::ChunkId(x) => x,
    }
}

/// A citation whose text holds no `]`, so that its marker closes where its text ends.
pub open spec fn closable(c: CitationModel) -> bool {
    forall|k: int| 0 <= k < citation_text(c).len() ==> citation_text(c)[k] != ']'
}

/// The lines of two lists of citations, one after the other.
proof fn lemma_citation_lines_concat(a: Seq<CitationModel>, b: Seq<CitationModel>)
    ensures
        citation_lines(a + b) == citation_lines(a) + citation_lines(b),
    decreases b.len(),
{
    if b.len() == 0 {
        assert(a + b =~= a);
    } else {
        assert((a + b).drop_last() =~= a + b.drop_last());
        lemma_citation_lines_concat(a, b.drop_last());
    }
}

/// The line of a citation, placed anywhere in a text, is found by extraction.
proof fn lemma_line_cited(before: Seq<char>, c: CitationModel, after: Seq<char>)
    requires
        closable(c),
    ensures
        spec_extract_citations(before + citation_line(c) + after).contains(c),
{
    reveal_strlit("- [iri:");
    reveal_strlit("- [chunk:");
    reveal_strlit("[iri:");
    reveal_strlit("[chunk:");
    reveal_strlit("]\n");
    reveal_strlit("]");
    let t = before + citation_line(c) + after;
    let is_iri = c is Iri;
    let x = citation_text(c);
    let w = marker_of(is_iri) + x + "]"@;
    let p: int = before.len() as int + 2;
    assert(citation_line(c) =~= "- "@ + w + "\n"@) by {
        reveal_strlit("- ");
        reveal_strlit("\n");
    }
    assert(t.subrange(p, p + w.len() as int) =~= w) by {
        assert forall|k: int| 0 <= k < w.len() implies t.subrange(p, p + w.len() as int)[k] == w[k] by {
            assert(t[p + k] == citation_line(c)[2 + k]);
            assert(("- "@ + w + "\n"@)[2 + k] == w[k]) by {
                reveal_strlit("- ");
            }
        }
    }
    lemma_marker_cited(t, is_iri, p, x);
    assert(cite_of(is_iri, x) == c);
}

/// Every source cited in an assembled prompt is found again when citations
/// are extracted from the prompt, as long as its text holds no `]`.
pub proof fn law_prompt_citations_roundtrip(query: Seq<char>, context: Seq<char>, cs: Seq<CitationModel>)
    ensures
        forall|c: CitationModel| #[trigger] cs.contains(c) && closable(c) ==> spec_extract_citations(
            spec_assemble_prompt(query, context, cs),
        ).contains(c),
{
    assert forall|c: CitationModel| #[trigger] cs.contains(c) && closable(c) implies spec_extract_citations(
        spec_assemble_prompt(query, context, cs),
    ).contains(c) by {
        let k = choose|k: int| 0 <= k < cs.len() && cs[k] == c;
        let head = cs.take(k);
        let tail = cs.skip(k + 1);
        assert(cs =~= head + seq![c] + tail);
        lemma_citation_lines_concat(head + seq![c], tail);
        lemma_citation_lines_concat(head, seq![c]);
        assert(citation_lines(seq![c]) =~= citation_line(c)) by {
            assert(seq![c].drop_last() =~= Seq::<CitationModel>::empty());
            assert(citation_lines(Seq::<CitationModel>::empty()) == Seq::<char>::empty());
            assert(seq![c].last() == c);
            assert(citation_lines(seq![c]) == citation_lines(seq![c].drop_last()) + citation_line(seq![c].last()));
        }
        let before = context_section(context) + "## Source Citations\n\n"@ + citation_lines(head);
        let after = citation_lines(tail) + "\n"@ + "## Instructions\n\n"@ + instructions_text()
            + "## Question\n\n"@ + query;
        assert(spec_assemble_prompt(query, context, cs) =~= before + citation_line(c) + after);
        lemma_line_cited(before, c, after);
    }
}

/// The instructions of every assembled prompt show the two citation forms,
/// `[iri:...]` and `[chunk:...]`, and extraction finds both, whatever the
/// question, context and citations.
pub proof fn law_prompt_shows_citation_forms(query: Seq<char>, context: Seq<char>, cs: Seq<CitationModel>)
    ensures
        spec_extract_citations(spec_assemble_prompt(query, context, cs)).contains(CitationModel::Iri("..."@)),
        spec_extract_citations(spec_assemble_prompt(query, context, cs)).contains(CitationModel::ChunkId("..."@)),
{
    let p1 = "Answer the question below using ONLY the retrieved context above.\nCite your sources using "@;
    let mid = " for RDF IRIs and "@;
    let p3 = " for chunk IDs.\nIf the context does not contain enough information, say so explicitly.\n\n"@;
    reveal_strlit("Answer the question below using ONLY the retrieved context above.\nCite your sources using ");
    reveal_strlit(" for RDF IRIs and ");
    reveal_strlit(" for chunk IDs.\nIf the context does not contain enough information, say so explicitly.\n\n");
    reveal_strlit("Answer the question below using ONLY the retrieved context above.\nCite your sources using [iri:...] for RDF IRIs and [chunk:...] for chunk IDs.\nIf the context does not contain enough information, say so explicitly.\n\n");
    reveal_strlit("[iri:");
    reveal_strlit("[chunk:");
    reveal_strlit("...");
    reveal_strlit("]");
    let dots = "..."@;
    let wi = marker_of(true) + dots + "]"@;
    let wc = marker_of(false) + dots + "]"@;
    assert(instructions_text() =~= p1 + wi + mid + wc + p3);
    let head = context_section(context) + citation_section(cs) + "## Instructions\n\n"@;
    let t = spec_assemble_prompt(query, context, cs);
    let tail = "## Question\n\n"@ + query;
    assert(t =~= (head + p1) + wi + (mid + wc + p3 + tail));
    let pi = (head + p1).len() as int;
    assert(t.subrange(pi, pi + wi.len()) =~= wi);
    assert(t =~= (head + p1 + wi + mid) + wc + (p3 + tail));
    let pc = (head + p1 + wi + mid).len() as int;
    assert(t.subrange(pc, pc + wc.len()) =~= wc);
    assert forall|k: int| 0 <= k < dots.len() implies dots[k] != ']' by {}
    lemma_marker_cited(t, true, pi, dots);
    lemma_marker_cited(t, false, pc, dots);
}

/// An output is grounded when it has no content or cites at least one source.
pub open spec fn spec_valid_citations(content: Seq<char>, cs: Seq<CitationModel>) -> bool {
    content.len() == 0 || cs.len() > 0
}

/// Every citation of the outputs, output after output.
pub open spec fn all_citations(outputs: Seq<ToolOutput>) -> Seq<CitationModel>
    decreases outputs.len(),
{
    if outputs.len() == 0 {
        Seq::empty()
    } else {
        all_citations(outputs.drop_last()) + cites(outputs.last().citations@)
    }
}

/// The citations of the outputs, in order of first appearance, each once.
pub open spec fn spec_merge_citations(outputs: Seq<ToolOutput>) -> Seq<CitationModel> {
    push_all_unique(Seq::empty(), all_citations(outputs))
}


/// Merging keeps each citation once, and keeps exactly the citations that
/// some output gives.
pub proof fn law_merge_deduplicates(outputs: Seq<ToolOutput>)
    ensures
        no_duplicates(spec_merge_citations(outputs)),
        forall|c: CitationModel| #[trigger] spec_merge_citations(outputs).contains(c)
            <==> all_citations(outputs).contains(c),
{
    lemma_push_all_unique(Seq::empty(), all_citations(outputs));
}

/// Adding citations that hold no duplicates to nothing gives them back.
proof fn lemma_push_all_unique_distinct(s: Seq<CitationModel>)
    requires
        no_duplicates(s),
    ensures
        push_all_unique(Seq::empty(), s) == s,
    decreases s.len(),
{
    if s.len() > 0 {
        let d = s.drop_last();
        assert(no_duplicates(d));
        lemma_push_all_unique_distinct(d);
        if d.contains(s.last()) {
            let k = choose|k: int| 0 <= k < d.len() && d[k] == s.last();
            assert(s[k] == s[s.len() - 1]);
        }
        assert(d.push(s.last()) =~= s);
    }
}

/// Merging again the citations that a merge gave changes nothing.
pub proof fn law_merge_idempotent(outputs: Seq<ToolOutput>, again: Seq<ToolOutput>)
    requires
        all_citations(again) == spec_merge_citations(outputs),
    ensures
        spec_merge_citations(again) == spec_merge_citations(outputs),
{
    lemma_push_all_unique(Seq::empty(), all_citations(outputs));
    lemma_push_all_unique_distinct(spec_merge_citations(outputs));
}

/// Validates that the tool output contains at least one citation.
///
/// Responses must be grounded in retrieved data: an output with content
/// but no citations violates the contract.
pub fn validate_citations(output: &ToolOutput) -> (r: bool)
    ensures
        r == spec_valid_citations(output.content@, cites(output.citations@)),
{
    output.content.as_str().is_empty() || output.citations.len() > 0
}

/// Assembles a grounded prompt for the LLM, injecting context and citation instructions.
pub fn assemble_prompt(query: &str, context: &str, citations: &[Citation]) -> (r: String)
    ensures
        r@ == spec_assemble_prompt(query@, context@, cites(citations@)),
{
    let mut prompt = String::new();

    if !context.is_empty() {
        prompt.append("## Retrieved Context\n\n");
        prompt.append(context);
        prompt.append("\n\n");
    }
    assert(prompt@ == context_section(context@));

    if citations.len() > 0 {
        prompt.append("## Source Citations\n\n");
        let ghost head = prompt@;
        let mut i: usize = 0;
        while i < citations.len()
            invariant
                0 <= i <= citations@.len(),
                prompt@ == head + citation_lines(cites(citations@).take(i as int)),
            decreases citations.len() - i,
        {
            match &citations[i] {
                Citation::Iri(iri) => {
                    prompt.append("- [iri:");
                    prompt.append(iri.as_str());
                    prompt.append("]\n");
                },
                Citation::ChunkId(id) => {
                    prompt.append("- [chunk:");
                    prompt.append(id.as_str());
                    prompt.append("]\n");
                },
            }
            assert(cites(citations@).take(i + 1).drop_last() =~= cites(citations@).take(i as int));
            i += 1;
        }
        assert(cites(citations@).take(citations@.len() as int) =~= cites(citations@));
        prompt.append("\n");
    }
    assert(prompt@ == context_section(context@) + citation_section(cites(citations@)));

    prompt.append("## Instructions\n\n");
    prompt.append(
        "Answer the question below using ONLY the retrieved context above.\nCite your sources using [iri:...] for RDF IRIs and [chunk:...] for chunk IDs.\nIf the context does not contain enough information, say so explicitly.\n\n",
    );
    prompt.append("## Question\n\n");
    prompt.append(query);
    prompt
}

/// Extracts citation markers from response text.
///
/// Scans for `[iri:...]` and `[chunk:...]` patterns.
pub fn extract_citations(text: &str) -> (r: Vec<Citation>)
    ensures
        cites(r@) == spec_extract_citations(text@),
{
    extract_citations_from_text(text)
}

/// Merges citations from multiple tool outputs, deduplicating.
pub fn merge_citations(outputs: &[ToolOutput]) -> (r: Vec<Citation>)
    ensures
        cites(r@) == spec_merge_citations(outputs@),
{
    let mut merged: Vec<Citation> = Vec::new();
    let mut i: usize = 0;
    while i < outputs.len()
        invariant
            0 <= i <= outputs@.len(),
            cites(merged@) == push_all_unique(Seq::empty(), all_citations(outputs@.take(i as int))),
        decreases outputs.len() - i,
    {
        let ghost before = all_citations(outputs@.take(i as int));
        let out = &outputs[i];
        let mut j: usize = 0;
        while j < out.citations.len()
            invariant
                0 <= i < outputs@.len(),
                out == outputs@[i as int],
                0 <= j <= out.citations@.len(),
                cites(merged@) == push_all_unique(
                    Seq::empty(),
                    before + cites(out.citations@).take(j as int),
                ),
            decreases out.citations.len() - j,
        {
            let c = copy_citation(&out.citations[j]);
            let ghost s = before + cites(out.citations@).take(j as int);
            push_citation_unique(&mut merged, c);
            assert((before + cites(out.citations@).take(j + 1)).drop_last() =~= s);
            j += 1;
        }
        assert(outputs@.take(i + 1).drop_last() =~= outputs@.take(i as int));
        assert(cites(out.citations@).take(out.citations@.len() as int) =~= cites(out.citations@));
        i += 1;
    }
    assert(outputs@.take(outputs@.len() as int) =~= outputs@);
    merged
}

} // verus!
