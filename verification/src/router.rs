//! The agent router: plans which tools a query needs and runs them in order.
use vstd::prelude::*;

use crate::text::{
    spec_join,
    chars_of, contains_exec, contains_seq, starts_with, starts_with_exec, to_owned_string, trim,
    trim_exec, str_eq,
};
use crate::codegen_tool::{extract_citations_from_text, spec_extract_citations};
use crate::prompt_contract::{merge_citations, spec_merge_citations};
use crate::types::{
    cites, inputs, push_all_unique, push_citation_unique, AgentTool, CitationModel, InputModel,
    ToolError, ToolInput, ToolOutput,
};
use vstd::string::StringExecFns;

verus! {

broadcast use vstd::string::group_string_axioms;

/// The lowercase form of a string, as `str::to_lowercase` computes it.
pub uninterp spec fn spec_lowercase(s: Seq<char>) -> Seq<char>;

/// `str::to_lowercase`: the Unicode lowercase mapping of every character.
#[verifier::external_body]
pub(crate) fn lowercase(s: &str) -> (r: String)
    ensures
        r@ == spec_lowercase(s@),
{
    s.to_lowercase()
}

/// A lowercased query that reads as a SPARQL query: after trimming it starts
/// with one of the query forms or `prefix`, followed by a space.
pub open spec fn spec_is_sparql_query(lower: Seq<char>) -> bool {
    let t = trim(lower);
    ||| starts_with(t, "select "@)
    ||| starts_with(t, "ask "@)
    ||| starts_with(t, "construct "@)
    ||| starts_with(t, "describe "@)
    ||| starts_with(t, "prefix "@)
}

/// A lowercased query that asks for generated text.
pub open spec fn spec_is_generation_query(lower: Seq<char>) -> bool {
    ||| contains_seq(lower, "generate"@)
    ||| contains_seq(lower, "write"@)
    ||| contains_seq(lower, "create"@)
    ||| contains_seq(lower, "explain"@)
    ||| contains_seq(lower, "summarize"@)
}

/// A lowercased query that asks for retrieval.
pub open spec fn spec_is_retrieval_query(lower: Seq<char>) -> bool {
    ||| contains_seq(lower, "find"@)
    ||| contains_seq(lower, "search"@)
    ||| contains_seq(lower, "retrieve"@)
    ||| contains_seq(lower, "similar"@)
    ||| contains_seq(lower, "related"@)
}

/// The retrieval step for a query.
pub open spec fn rag_step(query: Seq<char>) -> InputModel {
    InputModel::Rag { query, top_k: Some(10) }
}

/// The generation step for a query, with its context still to be filled.
pub open spec fn codegen_step(query: Seq<char>) -> InputModel {
    InputModel::Codegen { prompt: query, context: Seq::empty() }
}

/// The plan for `query`, whose lowercase form is `lower`, given the names of
/// the registered tools.
pub open spec fn spec_plan(query: Seq<char>, lower: Seq<char>, names: Seq<Seq<char>>) -> Seq<
    InputModel,
> {
    if spec_is_sparql_query(lower) {
        seq![InputModel::Sparql { query }]
    } else if spec_is_generation_query(lower) {
        if names.contains("rag"@) {
            seq![rag_step(query), codegen_step(query)]
        } else {
            seq![codegen_step(query)]
        }
    } else if spec_is_retrieval_query(lower) {
        seq![rag_step(query)]
    } else if names.contains("rag"@) {
        seq![rag_step(query)]
    } else if names.contains("codegen"@) {
        seq![codegen_step(query)]
    } else {
        Seq::empty()
    }
}

/// No name occurs twice.
pub open spec fn unique_names(names: Seq<Seq<char>>) -> bool {
    forall|i: int, j: int| 0 <= i < j < names.len() ==> names[i] != names[j]
}

/// `names` after registering a tool called `n`: a tool of the same name is
/// replaced in place, otherwise the name is added at the end.
pub open spec fn spec_register(names: Seq<Seq<char>>, n: Seq<char>) -> Seq<Seq<char>> {
    if names.contains(n) {
        names
    } else {
        names.push(n)
    }
}

/// The name of the tool that handles an input of this kind.
pub open spec fn spec_tool_for(i: InputModel) -> Seq<char> {
    match i {
        InputModel::Sparql { .. } => "sparql"@,
        InputModel::Rag { .. } => "rag"@,
        InputModel::Codegen { .. } => "codegen"@,
    }
}

/// A planned step as it is run: a generation step whose context is empty
/// receives the context accumulated from the steps before it.
pub open spec fn spec_step_input(i: InputModel, acc: Seq<char>) -> InputModel {
    match i {
        InputModel::Codegen { prompt, context } => if context.len() == 0 {
            InputModel::Codegen { prompt, context: acc }
        } else {
            i
        },
        _ => i,
    }
}

/// The context accumulated after a step whose output has `content`: non-empty
/// contents are joined by a blank line.
pub open spec fn spec_accumulate(acc: Seq<char>, content: Seq<char>) -> Seq<char> {
    if content.len() == 0 {
        acc
    } else if acc.len() == 0 {
        content
    } else {
        acc + "\n\n"@ + content
    }
}

/// The context accumulated from the outputs, in order.
pub open spec fn acc_of(outs: Seq<ToolOutput>) -> Seq<char>
    decreases outs.len(),
{
    if outs.len() == 0 {
        Seq::empty()
    } else {
        spec_accumulate(acc_of(outs.drop_last()), outs.last().content@)
    }
}

/// The contents of the outputs, in order.
pub open spec fn contents(outs: Seq<ToolOutput>) -> Seq<Seq<char>> {
    outs.map_values(|o: ToolOutput| o.content@)
}

/// The combined content of the outputs of a run.
pub open spec fn spec_combined_content(outs: Seq<ToolOutput>) -> Seq<char> {
    spec_join(contents(outs), "\n\n"@)
}

/// The combined citations of a run: the merged citations of all outputs,
/// then those named by markers in the last output's content.
pub open spec fn spec_combined_citations(outs: Seq<ToolOutput>) -> Seq<CitationModel> {
    let inline = if outs.len() > 0 {
        spec_extract_citations(outs.last().content@)
    } else {
        Seq::empty()
    };
    push_all_unique(spec_merge_citations(outs), inline)
}

/// Agent router that plans and dispatches queries to registered tools.
pub struct AgentRouter {
    /// The name each tool reported when it was registered.
    names: Vec<String>,
    /// The tools, at the positions of their names.
    tools: Vec<Box<dyn AgentTool>>,
}

impl AgentRouter {
    /// The names of the registered tools, in order of registration.
    pub closed spec fn names(&self) -> Seq<Seq<char>> {
        self.names@.map_values(|t: String| t@)
    }

    /// Each registered tool has its own name, and each name its tool.
    pub closed spec fn wf(&self) -> bool {
        &&& unique_names(self.names())
        &&& self.tools@.len() == self.names@.len()
    }

    /// The registered tools, at the positions of their names.
    pub closed spec fn boxes(&self) -> Seq<Box<dyn AgentTool>> {
        self.tools@
    }

    /// The position of the name `n`.
    pub closed spec fn slot(&self, n: Seq<char>) -> int {
        choose|i: int| 0 <= i < self.names().len() && self.names()[i] == n
    }

    /// Whether the tool registered under the name `n` may answer `input` with `r`.
    pub closed spec fn tool_answers(&self, n: Seq<char>, input: InputModel, r: Result<ToolOutput, ToolError>) -> bool {
        self.tools@[self.slot(n)].answers(input, r)
    }

    /// The first `outs.len()` steps of `plan` ran, each with a registered
    /// tool that answered the step (its context filled from the outputs
    /// before it) with the output at its position.
    pub open spec fn steps_answered(&self, plan: Seq<InputModel>, outs: Seq<ToolOutput>) -> bool {
        &&& outs.len() <= plan.len()
        &&& forall|k: int| 0 <= k < outs.len() ==> {
            &&& self.names().contains(#[trigger] spec_tool_for(plan[k]))
            &&& self.tool_answers(
                spec_tool_for(plan[k]),
                spec_step_input(plan[k], acc_of(outs.take(k))),
                Ok::<ToolOutput, ToolError>(outs[k]),
            )
        }
    }

    /// How a run of `plan` that answered its first `outs.len()` steps with
    /// `outs` ends with `r`: with every step run, in the combined output;
    /// otherwise at the next step, with `NotRegistered` when its tool is not
    /// registered, else with the error its tool answered.
    pub open spec fn run_result(&self, plan: Seq<InputModel>, outs: Seq<ToolOutput>, r: Result<ToolOutput, ToolError>) -> bool {
        if outs.len() == plan.len() {
            r matches Ok(out) && out.content@ == spec_combined_content(outs) && cites(out.citations@)
                == spec_combined_citations(outs)
        } else {
            let st = plan[outs.len() as int];
            if !self.names().contains(spec_tool_for(st)) {
                r matches Err(ToolError::NotRegistered(n)) && n@ == spec_tool_for(st)
            } else {
                r is Err && self.tool_answers(spec_tool_for(st), spec_step_input(st, acc_of(outs)), r)
            }
        }
    }

    pub fn new() -> (r: Self)
        ensures
            r.wf(),
            r.names() == Seq::<Seq<char>>::empty(),
    {
        let r = Self { names: Vec::new(), tools: Vec::new() };
        assert(r.names() =~= Seq::<Seq<char>>::empty());
        r
    }

    /// Position of the tool called `name`, if one is registered.
    fn find_tool(&self, name: &str) -> (r: Option<usize>)
        ensures
            r matches Some(i) ==> i < self.names().len() && self.names()[i as int] == name@,
            r is None ==> !self.names().contains(name@),
    {
        let mut i: usize = 0;
        while i < self.names.len()
            invariant
                0 <= i <= self.names@.len(),
                forall|k: int| 0 <= k < i ==> self.names()[k] != name@,
            decreases self.names.len() - i,
        {
            if str_eq(self.names[i].as_str(), name) {
                return Some(i);
            }
            i += 1;
        }
        assert(!self.names().contains(name@)) by {
            if self.names().contains(name@) {
                let k = choose|k: int| 0 <= k < self.names().len() && self.names()[k] == name@;
                assert(self.names()[k] != name@);
            }
        }
        None
    }

    /// Whether a tool called `name` is registered.
    pub fn has_tool(&self, name: &str) -> (r: bool)
        ensures
            r == self.names().contains(name@),
    {
        match self.find_tool(name) {
            Some(i) => {
                assert(self.names()[i as int] == name@);
                true
            },
            None => false,
        }
    }

    /// Register a tool with the router; a tool of the same name is replaced.
    pub fn register(&mut self, tool: Box<dyn AgentTool>)
        requires
            old(self).wf(),
        ensures
            final(self).wf(),
            final(self).names() == spec_register(old(self).names(), tool.tool_name()),
            old(self).names().contains(tool.tool_name()) ==> final(self).slot(tool.tool_name()) == old(self).slot(
                tool.tool_name(),
            ) && final(self).boxes() == old(self).boxes().update(old(self).slot(tool.tool_name()), tool),
            !old(self).names().contains(tool.tool_name()) ==> final(self).slot(tool.tool_name()) == old(
                self,
            ).names().len() && final(self).boxes() == old(self).boxes().push(tool),
            forall|m: Seq<char>, input: InputModel, r: Result<ToolOutput, ToolError>|
                m != tool.tool_name() && old(self).names().contains(m) ==> (#[trigger] final(self).tool_answers(m, input, r)
                    == old(self).tool_answers(m, input, r)),
    {
        let ghost n = tool.tool_name();
        let ghost b = tool;
        let name = to_owned_string(tool.name());
        let found = self.find_tool(name.as_str());
        match found {
            Some(i) => {
                let ghost before = self.tools@;
                self.tools.set(i, tool);
                proof {
                    vstd::seq::axiom_seq_update_len(before, i as int, b);
                }
                assert(self.tools@ == before.update(i as int, b));
                assert(self.names() == old(self).names());
                assert(self.tools@.len() == self.names@.len());
                assert(old(self).names().contains(n)) by {
                    assert(old(self).names()[i as int] == n);
                }
                assert(self.slot(n) == i) by {
                    let j = self.slot(n);
                    assert(0 <= j < self.names().len() && self.names()[j] == n);
                    if j != i {
                        if j < i {
                            assert(self.names()[j] != self.names()[i as int]);
                        } else {
                            assert(self.names()[i as int] != self.names()[j]);
                        }
                    }
                }
                assert forall|m: Seq<char>, input: InputModel, r: Result<ToolOutput, ToolError>|
                    m != n && old(self).names().contains(m) implies (#[trigger] self.tool_answers(m, input, r)
                        == old(self).tool_answers(m, input, r)) by {
                    let j = old(self).slot(m);
                    assert(0 <= j < old(self).names().len() && old(self).names()[j] == m);
                    assert(self.slot(m) == j);
                    vstd::seq::axiom_seq_update_different(before, j, i as int, b);
                }
            },
            None => {
                let ghost tb = self.tools@;
                self.names.push(name);
                self.tools.push(tool);
                proof {
                    vstd::seq::axiom_seq_push_len(tb, b);
                }
                assert(self.tools@.len() == self.names@.len());
                assert(self.names() =~= old(self).names().push(n));
                assert forall|a: int, c: int| 0 <= a < c < self.names().len() implies
                    self.names()[a] != self.names()[c] by {
                    if c == old(self).names().len() {
                        assert(old(self).names()[a] != n);
                    }
                }
                assert(self.tools@ == tb.push(b));
                assert(self.slot(n) == tb.len()) by {
                    assert(self.names()[tb.len() as int] == n);
                    let j = self.slot(n);
                    assert(0 <= j < self.names().len() && self.names()[j] == n);
                    if j != tb.len() {
                        assert(old(self).names()[j] == n);
                    }
                }
                assert forall|m: Seq<char>, input: InputModel, r: Result<ToolOutput, ToolError>|
                    m != n && old(self).names().contains(m) implies (#[trigger] self.tool_answers(m, input, r)
                        == old(self).tool_answers(m, input, r)) by {
                    let j = old(self).slot(m);
                    assert(0 <= j < old(self).names().len() && old(self).names()[j] == m);
                    assert(self.names()[j] == m);
                    let j2 = self.slot(m);
                    assert(0 <= j2 < self.names().len() && self.names()[j2] == m);
                    if j2 != j {
                        if j2 < j {
                            assert(self.names()[j2] != self.names()[j]);
                        } else {
                            assert(self.names()[j] != self.names()[j2]);
                        }
                    }
                    vstd::seq::axiom_seq_push_index_different(tb, b, j);
                }
            },
        }
    }

    /// Execute a query through the router: plan, run each step's tool in
    /// order, then combine the outputs.
    pub fn execute(&self, query: &str) -> (r: Result<ToolOutput, ToolError>)
        requires
            self.wf(),
        ensures
            spec_plan(query@, spec_lowercase(query@), self.names()).len() == 0 ==> r
                == Err::<ToolOutput, ToolError>(ToolError::NoToolsAvailable),
            r matches Ok(out) ==> {
                let plan = spec_plan(query@, spec_lowercase(query@), self.names());
                &&& forall|k: int| 0 <= k < plan.len() ==> self.names().contains(
                    #[trigger] spec_tool_for(plan[k]),
                )
                &&& exists|outs: Seq<ToolOutput>|
                    outs.len() == plan.len() && out.content@ == spec_combined_content(outs)
                        && cites(out.citations@) == spec_combined_citations(outs)
            },
            spec_plan(query@, spec_lowercase(query@), self.names()).len() > 0 ==> exists|outs: Seq<ToolOutput>|
                #![trigger self.steps_answered(spec_plan(query@, spec_lowercase(query@), self.names()), outs)]
                self.steps_answered(spec_plan(query@, spec_lowercase(query@), self.names()), outs)
                    && self.run_result(spec_plan(query@, spec_lowercase(query@), self.names()), outs, r),
    {
        let plan = self.plan(query);
        let ghost pm = inputs(plan@);
        if plan.len() == 0 {
            return Err(ToolError::NoToolsAvailable);
        }
        let mut outputs: Vec<ToolOutput> = Vec::new();
        let mut accumulated = String::new();
        let mut i: usize = 0;
        while i < plan.len()
            invariant
                self.wf(),
                pm == inputs(plan@),
                pm == spec_plan(query@, spec_lowercase(query@), self.names()),
                0 <= i <= plan@.len(),
                outputs@.len() == i,
                accumulated@ == acc_of(outputs@),
                self.steps_answered(pm, outputs@),
                pm.len() > 0,
            decreases plan.len() - i,
        {
            let tool_name = tool_for(&plan[i]);
            let found = self.find_tool(tool_name);
            let idx = match found {
                Some(idx) => idx,
                None => {
                    let r = Err(ToolError::NotRegistered(to_owned_string(tool_name)));
                    assert(self.run_result(pm, outputs@, r));
                    return r;
                },
            };
            let ghost n = spec_tool_for(pm[i as int]);
            proof {
                assert(self.names()[idx as int] == n);
                assert(self.names().contains(n));
                let j = self.slot(n);
                assert(0 <= j < self.names().len() && self.names()[j] == n);
                if j != idx as int {
                    if j < idx as int {
                        assert(self.names()[j] != self.names()[idx as int]);
                    } else {
                        assert(self.names()[idx as int] != self.names()[j]);
                    }
                }
                assert(outputs@.take(i as int) =~= outputs@);
            }
            let input = step_input(&plan[i], accumulated.as_str());
            let answer = self.tools[idx].call(input);
            let output = match answer {
                Ok(o) => o,
                Err(e) => {
                    let r = Err(e);
                    assert(self.run_result(pm, outputs@, r));
                    return r;
                },
            };
            let ghost before = outputs@;
            accumulate(&mut accumulated, output.content.as_str());
            outputs.push(output);
            proof {
                assert(outputs@.drop_last() =~= before);
                assert forall|k: int| 0 <= k < outputs@.len() implies {
                    &&& self.names().contains(#[trigger] spec_tool_for(pm[k]))
                    &&& self.tool_answers(
                        spec_tool_for(pm[k]),
                        spec_step_input(pm[k], acc_of(outputs@.take(k))),
                        Ok::<ToolOutput, ToolError>(outputs@[k]),
                    )
                } by {
                    assert(outputs@.take(k) =~= before.take(k));
                    if k < before.len() {
                        assert(outputs@[k] == before[k]);
                    }
                }
            }
            i += 1;
        }
        let result = combine_outputs(&outputs);
        let r = Ok(result);
        proof {
            assert(self.run_result(pm, outputs@, r));
            assert(forall|k: int| 0 <= k < pm.len() ==> self.names().contains(#[trigger] spec_tool_for(pm[k])));
        }
        r
    }

    /// Plan which tools to invoke based on query analysis.
    ///
    /// Uses keyword heuristics on the lowercased query:
    /// - SPARQL-like patterns (SELECT, ASK, CONSTRUCT, DESCRIBE, PREFIX) → the SPARQL tool
    /// - Generation keywords (generate, write, create, explain, summarize) → retrieval, if
    ///   available, then generation
    /// - Retrieval keywords (find, search, retrieve, similar, related) → retrieval
    /// - otherwise retrieval if available, else generation if available, else nothing
    pub fn plan(&self, query: &str) -> (r: Vec<ToolInput>)
        ensures
            inputs(r@) == spec_plan(query@, spec_lowercase(query@), self.names()),
    {
        let lower = lowercase(query);
        self.plan_lowered(query, lower.as_str())
    }

    /// The plan for `query` once its lowercase form `lower` is known.
    pub fn plan_lowered(&self, query: &str, lower: &str) -> (r: Vec<ToolInput>)
        ensures
            inputs(r@) == spec_plan(query@, lower@, self.names()),
    {
        let mut steps: Vec<ToolInput> = Vec::new();
        if is_sparql_query(lower) {
            steps.push(ToolInput::Sparql { query: to_owned_string(query) });
        } else if is_generation_query(lower) {
            if self.has_tool("rag") {
                steps.push(ToolInput::Rag { query: to_owned_string(query), top_k: Some(10) });
            }
            steps.push(ToolInput::Codegen { prompt: to_owned_string(query), context: String::new() });
        } else if is_retrieval_query(lower) {
            steps.push(ToolInput::Rag { query: to_owned_string(query), top_k: Some(10) });
        } else if self.has_tool("rag") {
            steps.push(ToolInput::Rag { query: to_owned_string(query), top_k: Some(10) });
        } else if self.has_tool("codegen") {
            steps.push(ToolInput::Codegen { prompt: to_owned_string(query), context: String::new() });
        }
        assert(inputs(steps@) =~= spec_plan(query@, lower@, self.names()));
        steps
    }
}

/// The name of the tool that handles `input`.
fn tool_for(input: &ToolInput) -> (r: &'static str)
    ensures
        r@ == spec_tool_for(input@),
{
    match input {
        ToolInput::Sparql { .. } => "sparql",
        ToolInput::Rag { .. } => "rag",
        ToolInput::Codegen { .. } => "codegen",
    }
}

/// The step as it is run, given the context accumulated so far.
pub fn step_input(input: &ToolInput, accumulated: &str) -> (r: ToolInput)
    ensures
        r@ == spec_step_input(input@, accumulated@),
{
    match input {
        ToolInput::Sparql { query } => ToolInput::Sparql { query: to_owned_string(query.as_str()) },
        ToolInput::Rag { query, top_k } => ToolInput::Rag {
            query: to_owned_string(query.as_str()),
            top_k: *top_k,
        },
        ToolInput::Codegen { prompt, context } => {
            if context.as_str().is_empty() {
                ToolInput::Codegen {
                    prompt: to_owned_string(prompt.as_str()),
                    context: to_owned_string(accumulated),
                }
            } else {
                ToolInput::Codegen {
                    prompt: to_owned_string(prompt.as_str()),
                    context: to_owned_string(context.as_str()),
                }
            }
        },
    }
}

/// Adds the content of a step's output to the accumulated context.
pub fn accumulate(acc: &mut String, content: &str)
    ensures
        final(acc)@ == spec_accumulate(old(acc)@, content@),
{
    if !content.is_empty() {
        if !acc.as_str().is_empty() {
            acc.append("\n\n");
        }
        acc.append(content);
    }
}

/// Combines the outputs of a run into one output.
pub fn combine_outputs(outputs: &Vec<ToolOutput>) -> (r: ToolOutput)
    ensures
        r.content@ == spec_combined_content(outputs@),
        cites(r.citations@) == spec_combined_citations(outputs@),
{
    let mut citations = merge_citations(outputs.as_slice());
    let mut content = String::new();
    let mut i: usize = 0;
    while i < outputs.len()
        invariant
            0 <= i <= outputs@.len(),
            content@ == spec_join(contents(outputs@).take(i as int), "\n\n"@),
        decreases outputs.len() - i,
    {
        if i > 0 {
            content.append("\n\n");
        }
        content.append(outputs[i].content.as_str());
        assert(contents(outputs@).take(i + 1).drop_last() =~= contents(outputs@).take(i as int));
        i += 1;
    }
    assert(contents(outputs@).take(outputs@.len() as int) =~= contents(outputs@));
    if outputs.len() > 0 {
        let inline = extract_citations_from_text(outputs[outputs.len() - 1].content.as_str());
        let ghost base = cites(citations@);
        let mut j: usize = 0;
        while j < inline.len()
            invariant
                0 <= j <= inline@.len(),
                cites(citations@) == push_all_unique(base, cites(inline@).take(j as int)),
            decreases inline.len() - j,
        {
            push_citation_unique(&mut citations, crate::types::copy_citation(&inline[j]));
            assert(cites(inline@).take(j + 1).drop_last() =~= cites(inline@).take(j as int));
            j += 1;
        }
        assert(cites(inline@).take(inline@.len() as int) =~= cites(inline@));
    } else {
        assert(Seq::<CitationModel>::empty().len() == 0);
    }
    ToolOutput { content, citations }
}

/// Whether `t` starts with the literal `lit`.
fn starts_with_lit(t: &Vec<char>, lit: &str) -> (r: bool)
    ensures
        r == starts_with(t@, lit@),
{
    let p = chars_of(lit);
    starts_with_exec(t, &p)
}

/// Whether `t` contains the literal `lit`.
fn contains_lit(t: &Vec<char>, lit: &str) -> (r: bool)
    ensures
        r == contains_seq(t@, lit@),
{
    let p = chars_of(lit);
    contains_exec(t, &p)
}

fn is_sparql_query(lower: &str) -> (r: bool)
    ensures
        r == spec_is_sparql_query(lower@),
{
    let t = trim_exec(&chars_of(lower));
    starts_with_lit(&t, "select ") || starts_with_lit(&t, "ask ") || starts_with_lit(
        &t,
        "construct ",
    ) || starts_with_lit(&t, "describe ") || starts_with_lit(&t, "prefix ")
}

fn is_generation_query(lower: &str) -> (r: bool)
    ensures
        r == spec_is_generation_query(lower@),
{
    let t = chars_of(lower);
    contains_lit(&t, "generate") || contains_lit(&t, "write") || contains_lit(&t, "create")
        || contains_lit(&t, "explain") || contains_lit(&t, "summarize")
}

fn is_retrieval_query(lower: &str) -> (r: bool)
    ensures
        r == spec_is_retrieval_query(lower@),
{
    let t = chars_of(lower);
    contains_lit(&t, "find") || contains_lit(&t, "search") || contains_lit(&t, "retrieve")
        || contains_lit(&t, "similar") || contains_lit(&t, "related")
}

/// A query whose lowercase form, trimmed, begins with one of the SPARQL forms
/// `select `, `ask `, `construct `, `describe ` or `prefix ` is planned as a
/// single SPARQL step that carries the query as given, whatever tools are
/// registered; any other query gets no SPARQL step.
pub proof fn law_sparql_forms_plan_one_step(query: Seq<char>, lower: Seq<char>, names: Seq<Seq<char>>)
    ensures
        ({
            let t = trim(lower);
            starts_with(t, "select "@) || starts_with(t, "ask "@) || starts_with(t, "construct "@)
                || starts_with(t, "describe "@) || starts_with(t, "prefix "@)
        }) ==> spec_plan(query, lower, names) == seq![InputModel::Sparql { query }],
        !({
            let t = trim(lower);
            starts_with(t, "select "@) || starts_with(t, "ask "@) || starts_with(t, "construct "@)
                || starts_with(t, "describe "@) || starts_with(t, "prefix "@)
        }) ==> forall|k: int|
            0 <= k < spec_plan(query, lower, names).len() ==> !(#[trigger] spec_plan(query, lower, names)[k] is Sparql),
{
}

/// A query that is not a SPARQL query is planned by its words. One that asks
/// to generate, write, create, explain or summarize gets a generation step
/// with empty context, after a retrieval step of ten hits where the `rag`
/// tool is registered. Otherwise one that asks to find, search, retrieve, or
/// for something similar or related gets a retrieval step of ten hits. Any
/// other query goes to the `rag` tool where it is registered, else to the
/// `codegen` tool, else nowhere.
pub proof fn law_plan_by_keywords(query: Seq<char>, lower: Seq<char>, names: Seq<Seq<char>>)
    requires
        !({
            let t = trim(lower);
            starts_with(t, "select "@) || starts_with(t, "ask "@) || starts_with(t, "construct "@)
                || starts_with(t, "describe "@) || starts_with(t, "prefix "@)
        }),
    ensures
        ({
            let rag = InputModel::Rag { query, top_k: Some(10) };
            let gen = InputModel::Codegen { prompt: query, context: Seq::empty() };
            let generation = contains_seq(lower, "generate"@) || contains_seq(lower, "write"@) || contains_seq(
                lower,
                "create"@,
            ) || contains_seq(lower, "explain"@) || contains_seq(lower, "summarize"@);
            let retrieval = contains_seq(lower, "find"@) || contains_seq(lower, "search"@) || contains_seq(
                lower,
                "retrieve"@,
            ) || contains_seq(lower, "similar"@) || contains_seq(lower, "related"@);
            spec_plan(query, lower, names) == if generation {
                if names.contains("rag"@) { seq![rag, gen] } else { seq![gen] }
            } else if retrieval {
                seq![rag]
            } else if names.contains("rag"@) {
                seq![rag]
            } else if names.contains("codegen"@) {
                seq![gen]
            } else {
                Seq::empty()
            }
        }),
{
}

} // verus!


