//! What the SPARQL agent tool answers: the serialized results, cited by the
//! IRIs they mention.
use vstd::prelude::*;

use crate::types::{
    cites, no_duplicates, lemma_push_all_unique, push_all_unique, push_citation_unique, push_unique, AgentTool,
    Citation, CitationModel, InputModel, ToolError, ToolInput, ToolOutput,
};
use crate::text::{clone_string, to_owned_string};

verus! {

/// A term of a query result: a named node, or anything else.
pub enum ResultTerm {
    Iri(String),
    Other,
}

/// The results of a query, serialized, with what their citations come from.
pub enum QueryOutput {
    /// Solutions as SPARQL JSON, and the bound terms of each solution in order.
    Solutions(String, Vec<Vec<ResultTerm>>),
    /// Triples as N-Triples, and the subject and object of each triple.
    Graph(String, Vec<(ResultTerm, ResultTerm)>),
    /// The answer of an ASK query.
    Boolean(bool),
}

/// The IRI of a term, if it is one.
pub open spec fn term_iri(t: ResultTerm) -> Seq<CitationModel> {
    match t {
        ResultTerm::Iri(s) => seq![CitationModel::Iri(s@)],
        ResultTerm::Other => Seq::empty(),
    }
}

/// The IRIs among terms, in order.
pub open spec fn term_iris(ts: Seq<ResultTerm>) -> Seq<CitationModel>
    decreases ts.len(),
{
    if ts.len() == 0 {
        Seq::empty()
    } else {
        term_iris(ts.drop_last()) + term_iri(ts.last())
    }
}

/// The IRIs of solutions, in order.
pub open spec fn rows_iris(rows: Seq<Vec<ResultTerm>>) -> Seq<CitationModel>
    decreases rows.len(),
{
    if rows.len() == 0 {
        Seq::empty()
    } else {
        rows_iris(rows.drop_last()) + term_iris(rows.last()@)
    }
}

/// The IRIs of triples: subject then object of each, in order.
pub open spec fn triples_iris(ts: Seq<(ResultTerm, ResultTerm)>) -> Seq<CitationModel>
    decreases ts.len(),
{
    if ts.len() == 0 {
        Seq::empty()
    } else {
        triples_iris(ts.drop_last()) + term_iri(ts.last().0) + term_iri(ts.last().1)
    }
}

/// The content of the answer.
pub open spec fn output_content(o: QueryOutput) -> Seq<char> {
    match o {
        QueryOutput::Solutions(j, _) => j@,
        QueryOutput::Graph(n, _) => n@,
        QueryOutput::Boolean(b) => if b { "true"@ } else { "false"@ },
    }
}

/// The citations of the answer: each IRI the results mention, once, in order of first mention.
pub open spec fn output_citations(o: QueryOutput) -> Seq<CitationModel> {
    match o {
        QueryOutput::Solutions(_, rows) => push_all_unique(Seq::empty(), rows_iris(rows@)),
        QueryOutput::Graph(_, ts) => push_all_unique(Seq::empty(), triples_iris(ts@)),
        QueryOutput::Boolean(_) => Seq::empty(),
    }
}

/// Adds the IRI of a term to the citations, unless it is present or the term is none.
fn cite_term(acc: &mut Vec<Citation>, t: &ResultTerm)
    ensures
        cites(final(acc)@) == push_all_unique(cites(old(acc)@), term_iri(*t)),
{
    match t {
        ResultTerm::Iri(s) => {
            let ghost c = CitationModel::Iri(s@);
            assert(seq![c].drop_last() =~= Seq::<CitationModel>::empty());
            assert(push_all_unique(cites(acc@), seq![c]) == push_unique(cites(acc@), c)) by {
                reveal_with_fuel(push_all_unique, 2);
            }
            push_citation_unique(acc, Citation::Iri(clone_string(s)));
        },
        ResultTerm::Other => {},
    }
}

/// Adds the IRIs among terms to the citations, skipping those present.
fn cite_terms(acc: &mut Vec<Citation>, ts: &Vec<ResultTerm>)
    ensures
        cites(final(acc)@) == push_all_unique(cites(old(acc)@), term_iris(ts@)),
{
    let mut i: usize = 0;
    while i < ts.len()
        invariant
            0 <= i <= ts@.len(),
            cites(acc@) == push_all_unique(cites(old(acc)@), term_iris(ts@.take(i as int))),
        decreases ts.len() - i,
    {
        assert(ts@.take(i + 1).drop_last() =~= ts@.take(i as int));
        cite_term(acc, &ts[i]);
        proof {
            lemma_push_all_unique_append(cites(old(acc)@), term_iris(ts@.take(i as int)), term_iri(ts@[i as int]));
        }
        i += 1;
    }
    assert(ts@.take(ts@.len() as int) =~= ts@);
}

/// Adding two lists in turn is adding their concatenation.
pub proof fn lemma_push_all_unique_append(acc: Seq<CitationModel>, a: Seq<CitationModel>, b: Seq<CitationModel>)
    ensures
        push_all_unique(push_all_unique(acc, a), b) == push_all_unique(acc, a + b),
    decreases b.len(),
{
    if b.len() == 0 {
        assert(a + b =~= a);
    } else {
        lemma_push_all_unique_append(acc, a, b.drop_last());
        assert((a + b).drop_last() =~= a + b.drop_last());
    }
}

/// The answer of the SPARQL tool: the serialized results, cited by every IRI
/// they mention, once each, in order of first mention (`true` or `false`,
/// uncited, for an ASK query).
pub fn sparql_output(o: &QueryOutput) -> (r: ToolOutput)
    ensures
        r.content@ == output_content(*o),
        cites(r.citations@) == output_citations(*o),
{
    let mut citations: Vec<Citation> = Vec::new();
    assert(cites(citations@) =~= Seq::<CitationModel>::empty());
    match o {
        QueryOutput::Solutions(j, rows) => {
            let mut i: usize = 0;
            while i < rows.len()
                invariant
                    0 <= i <= rows@.len(),
                    cites(citations@) == push_all_unique(Seq::empty(), rows_iris(rows@.take(i as int))),
                decreases rows.len() - i,
            {
                assert(rows@.take(i + 1).drop_last() =~= rows@.take(i as int));
                cite_terms(&mut citations, &rows[i]);
                proof {
                    lemma_push_all_unique_append(Seq::empty(), rows_iris(rows@.take(i as int)), term_iris(rows@[i as int]@));
                }
                i += 1;
            }
            assert(rows@.take(rows@.len() as int) =~= rows@);
            ToolOutput { content: clone_string(j), citations }
        },
        QueryOutput::Graph(n, ts) => {
            let mut i: usize = 0;
            while i < ts.len()
                invariant
                    0 <= i <= ts@.len(),
                    cites(citations@) == push_all_unique(Seq::empty(), triples_iris(ts@.take(i as int))),
                decreases ts.len() - i,
            {
                assert(ts@.take(i + 1).drop_last() =~= ts@.take(i as int));
                cite_term(&mut citations, &ts[i].0);
                cite_term(&mut citations, &ts[i].1);
                proof {
                    lemma_push_all_unique_append(Seq::empty(), triples_iris(ts@.take(i as int)), term_iri(ts@[i as int].0));
                    lemma_push_all_unique_append(Seq::empty(), triples_iris(ts@.take(i as int)) + term_iri(ts@[i as int].0), term_iri(ts@[i as int].1));
                }
                i += 1;
            }
            assert(ts@.take(ts@.len() as int) =~= ts@);
            ToolOutput { content: clone_string(n), citations }
        },
        QueryOutput::Boolean(b) => ToolOutput {
            content: if *b { to_owned_string("true") } else { to_owned_string("false") },
            citations,
        },
    }
}



/// Every citation is an IRI.
pub open spec fn all_iris(s: Seq<CitationModel>) -> bool {
    forall|i: int| 0 <= i < s.len() ==> (#[trigger] s[i]) is Iri
}

proof fn lemma_all_iris_concat(a: Seq<CitationModel>, b: Seq<CitationModel>)
    requires
        all_iris(a),
        all_iris(b),
    ensures
        all_iris(a + b),
{
    assert forall|i: int| 0 <= i < (a + b).len() implies (#[trigger] (a + b)[i]) is Iri by {
        if i < a.len() {
            assert((a + b)[i] == a[i]);
        } else {
            assert((a + b)[i] == b[i - a.len()]);
        }
    }
}

proof fn lemma_term_iris_all(ts: Seq<ResultTerm>)
    ensures
        all_iris(term_iris(ts)),
    decreases ts.len(),
{
    if ts.len() > 0 {
        lemma_term_iris_all(ts.drop_last());
        lemma_all_iris_concat(term_iris(ts.drop_last()), term_iri(ts.last()));
    }
}

proof fn lemma_rows_iris_all(rows: Seq<Vec<ResultTerm>>)
    ensures
        all_iris(rows_iris(rows)),
    decreases rows.len(),
{
    if rows.len() > 0 {
        lemma_rows_iris_all(rows.drop_last());
        lemma_term_iris_all(rows.last()@);
        lemma_all_iris_concat(rows_iris(rows.drop_last()), term_iris(rows.last()@));
    }
}

proof fn lemma_triples_iris_all(ts: Seq<(ResultTerm, ResultTerm)>)
    ensures
        all_iris(triples_iris(ts)),
    decreases ts.len(),
{
    if ts.len() > 0 {
        lemma_triples_iris_all(ts.drop_last());
        lemma_all_iris_concat(triples_iris(ts.drop_last()), term_iri(ts.last().0));
        lemma_all_iris_concat(triples_iris(ts.drop_last()) + term_iri(ts.last().0), term_iri(ts.last().1));
    }
}

/// Keeping the first of each citation keeps only IRIs when given only IRIs.
proof fn lemma_unique_iris(s: Seq<CitationModel>)
    requires
        all_iris(s),
    ensures
        no_duplicates(push_all_unique(Seq::empty(), s)),
        all_iris(push_all_unique(Seq::empty(), s)),
{
    let r = push_all_unique(Seq::empty(), s);
    lemma_push_all_unique(Seq::empty(), s);
    assert forall|i: int| 0 <= i < r.len() implies (#[trigger] r[i]) is Iri by {
        assert(r.contains(r[i]));
        assert(s.contains(r[i]));
        let j = choose|j: int| 0 <= j < s.len() && s[j] == r[i];
        assert(s[j] is Iri);
    }
}

/// The citations of an answer are IRIs, each once.
pub proof fn lemma_output_citations(o: QueryOutput)
    ensures
        no_duplicates(output_citations(o)),
        all_iris(output_citations(o)),
{
    match o {
        QueryOutput::Solutions(_, rows) => {
            lemma_rows_iris_all(rows@);
            lemma_unique_iris(rows_iris(rows@));
        },
        QueryOutput::Graph(_, ts) => {
            lemma_triples_iris_all(ts@);
            lemma_unique_iris(triples_iris(ts@));
        },
        QueryOutput::Boolean(_) => {},
    }
}

/// Runs SPARQL queries for the SPARQL tool over some store: the serialized
/// results with the terms they mention, or the error of parsing or evaluating.
pub trait QueryEngine: Send + Sync {
    /// Whether `r` is an outcome this engine may give for `query`: each
    /// engine says what it answers.
    closed spec fn runs(&self, query: Seq<char>, r: Result<QueryOutput, ToolError>) -> bool {
        true
    }

    fn run_query(&self, query: &str) -> (r: Result<QueryOutput, ToolError>)
        ensures
            self.runs(query@, r),
    ;
}

/// Agent tool that executes SPARQL queries against a store.
pub struct SparqlTool<E: QueryEngine> {
    engine: E,
}

/// `r` is the SPARQL tool's answer for what its engine gave back.
pub open spec fn answered_query(g: Result<QueryOutput, ToolError>, r: Result<ToolOutput, ToolError>) -> bool {
    match g {
        Ok(o) => r matches Ok(out) && out.content@ == output_content(o) && cites(out.citations@) == output_citations(o),
        Err(e) => r == Err::<ToolOutput, ToolError>(e),
    }
}

/// The answer of the SPARQL tool for what its engine gave back: the error as
/// it came, or the output for the results.
pub fn answer_query(result: Result<QueryOutput, ToolError>) -> (r: Result<ToolOutput, ToolError>)
    ensures
        match result {
            Ok(o) => r matches Ok(out) && out.content@ == output_content(o) && cites(out.citations@)
                == output_citations(o),
            Err(e) => r == Err::<ToolOutput, ToolError>(e),
        },
{
    match result {
        Ok(o) => Ok(sparql_output(&o)),
        Err(e) => Err(e),
    }
}

impl<E: QueryEngine> SparqlTool<E> {
    pub fn new(engine: E) -> (r: Self)
        ensures
            r.engine() == engine,
    {
        Self { engine }
    }

    /// The engine this tool queries.
    pub closed spec fn engine(&self) -> E {
        self.engine
    }
}

impl<E: QueryEngine> AgentTool for SparqlTool<E> {
    open spec fn tool_name(&self) -> Seq<char> {
        "sparql"@
    }

    /// A `Sparql` input is answered from what the engine gives for its
    /// query; any other input is refused.
    open spec fn answers(&self, input: InputModel, r: Result<ToolOutput, ToolError>) -> bool {
        if input is Sparql {
            exists|g: Result<QueryOutput, ToolError>|
                #![trigger self.engine().runs(input->Sparql_query, g)]
                self.engine().runs(input->Sparql_query, g) && answered_query(g, r)
        } else {
            r matches Err(ToolError::WrongInput(k)) && k@ == "sparql"@
        }
    }

    fn name(&self) -> (r: &str) {
        "sparql"
    }

    /// Runs the query of a `Sparql` input; any other input is refused. The
    /// citations of an answer are IRIs, each once.
    fn call(&self, input: ToolInput) -> (r: Result<ToolOutput, ToolError>)
        ensures
            !(input@ is Sparql) ==> (r matches Err(ToolError::WrongInput(k)) && k@ == "sparql"@),
            r matches Ok(out) ==> no_duplicates(cites(out.citations@)) && forall|i: int|
                0 <= i < out.citations@.len() ==> (#[trigger] out.citations@[i]) is Iri,
            input@ is Sparql ==> exists|g: Result<QueryOutput, ToolError>|
                #![trigger self.engine().runs(input@->Sparql_query, g)]
                self.engine().runs(input@->Sparql_query, g) && answered_query(g, r),
    {
        let ghost im = input@;
        match input {
            ToolInput::Sparql { query } => {
                assert(im == InputModel::Sparql { query: query@ });
                let res = self.engine.run_query(query.as_str());
                let ghost got = res;
                let r = answer_query(res);
                assert(im->Sparql_query == query@);
                assert(self.engine().runs(im->Sparql_query, got) && answered_query(got, r));
                proof {
                    if let Ok(o) = got {
                        lemma_output_citations(o);
                        let out = r->Ok_0;
                        assert forall|i: int| 0 <= i < out.citations@.len() implies (#[trigger] out.citations@[i]) is Iri by {
                            assert(cites(out.citations@)[i] == out.citations@[i]@);
                        }
                    }
                }
                r
            },
            _ => Err(ToolError::WrongInput(to_owned_string("sparql"))),
        }
    }
}

} // verus!
