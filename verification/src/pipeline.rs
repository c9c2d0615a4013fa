//! The pipeline orchestrator: one explanation request, decomposition into
//! steps, two per-step fan-out phases, and the positional pairing of their
//! artifacts. The backend invocations themselves happen outside the library;
//! this module builds every request binding and recombines every result.

use vstd::prelude::*;
use vstd::string::StringExecFns;
use crate::batch::{BatchJoin, PipelineError};
use crate::extract::{extract_and_append, extract_spec};

verus! {

/// The named parameters of one templated request: a mapping from placeholder
/// name to string value with unique keys, constructed afresh per invocation.
pub struct Params {
    pairs: Vec<(String, String)>,
}

impl Params {
    /// The name-to-value bindings, in insertion order.
    pub closed spec fn model(&self) -> Seq<(Seq<char>, Seq<char>)> {
        self.pairs@.map_values(|p: (String, String)| (p.0@, p.1@))
    }

    /// Keys are unique: no placeholder name is bound twice.
    pub open spec fn wf(&self) -> bool {
        forall|a: int, b: int|
            0 <= a < b < self.model().len() ==> self.model()[a].0 != self.model()[b].0
    }

    /// The number of bindings.
    pub fn len(&self) -> (n: usize)
        ensures
            n == self.model().len(),
    {
        self.pairs.len()
    }

    /// The placeholder name of binding `i`.
    pub fn key_at(&self, i: usize) -> (r: &String)
        requires
            i < self.model().len(),
        ensures
            r@ == self.model()[i as int].0,
    {
        &self.pairs[i].0
    }

    /// The value of binding `i`.
    pub fn value_at(&self, i: usize) -> (r: &String)
        requires
            i < self.model().len(),
        ensures
            r@ == self.model()[i as int].1,
    {
        &self.pairs[i].1
    }
}

/// The binding for the explanation request: the placeholder `question` filled
/// with the question text.
pub fn explanation_params(question: &str) -> (p: Params)
    ensures
        p.model() =~= seq![("question"@, question@)],
        p.wf(),
{
    let mut pairs: Vec<(String, String)> = Vec::new();
    pairs.push((String::from_str("question"), String::from_str(question)));
    Params { pairs }
}

/// The binding for one code-generation request: the placeholder `request`
/// filled with the step text.
pub fn code_request_params(step: &str) -> (p: Params)
    ensures
        p.model() =~= seq![("request"@, step@)],
        p.wf(),
{
    let mut pairs: Vec<(String, String)> = Vec::new();
    pairs.push((String::from_str("request"), String::from_str(step)));
    Params { pairs }
}

/// The binding for one speech-generation request: the placeholders `question`
/// and `step` filled with the question and the step text.
pub fn speech_request_params(question: &str, step: &str) -> (p: Params)
    ensures
        p.model() =~= seq![("question"@, question@), ("step"@, step@)],
        p.wf(),
{
    let mut pairs: Vec<(String, String)> = Vec::new();
    pairs.push((String::from_str("question"), String::from_str(question)));
    pairs.push((String::from_str("step"), String::from_str(step)));
    proof {
        reveal_strlit("question");
        reveal_strlit("step");
        assert("question"@.len() == 8);
        assert("step"@.len() == 4);
        assert("question"@ != "step"@);
    }
    Params { pairs }
}

/// One step of the decomposed answer together with its two order-correlated
/// artifacts.
pub struct StepArtifacts {
    pub step: String,
    pub code: String,
    pub speech: String,
}

/// One pipeline run: the question, and the ordered step sequence once the
/// explanation has been decomposed.
pub struct Pipeline {
    question: String,
    steps: Vec<String>,
    decomposed: bool,
}

impl Pipeline {
    /// The question the run was started with.
    pub closed spec fn question_view(&self) -> Seq<char> {
        self.question@
    }

    /// The ordered step sequence of the run.
    pub closed spec fn steps_view(&self) -> Seq<Seq<char>> {
        self.steps.deep_view()
    }

    /// Whether the explanation has been decomposed into steps yet.
    pub closed spec fn is_decomposed(&self) -> bool {
        self.decomposed
    }

    /// Start a run for `question`; no steps exist yet.
    pub fn new(question: String) -> (p: Pipeline)
        ensures
            p.question_view() == question@,
            p.steps_view() == Seq::<Seq<char>>::empty(),
            !p.is_decomposed(),
    {
        Pipeline { question, steps: Vec::new(), decomposed: false }
    }

    /// The binding for the run's one explanation request.
    pub fn explanation_request(&self) -> (p: Params)
        ensures
            p.model() =~= seq![("question"@, self.question_view())],
            p.wf(),
    {
        explanation_params(self.question.as_str())
    }

    /// Decompose the raw explanation text into the run's ordered step
    /// sequence. This never fails: text without delimiter markers yields an
    /// empty sequence, and a trailing unterminated block is dropped.
    pub fn decompose(&mut self, explanation: &str)
        requires
            !old(self).is_decomposed(),
        ensures
            final(self).question_view() == old(self).question_view(),
            final(self).steps_view() == extract_spec(explanation@),
            final(self).is_decomposed(),
    {
        self.steps = extract_and_append(explanation);
        self.decomposed = true;
    }

    /// The run's steps, in extraction order.
    pub fn steps(&self) -> (r: &Vec<String>)
        ensures
            r.deep_view() == self.steps_view(),
    {
        &self.steps
    }

    /// How many steps the run decomposed into.
    pub fn step_count(&self) -> (n: usize)
        ensures
            n == self.steps_view().len(),
    {
        self.steps.len()
    }

    /// The code-generation fan-out: one request binding per step, in step
    /// order, each binding the placeholder `request` to its own step's text.
    pub fn code_requests(&self) -> (r: Vec<Params>)
        requires
            self.is_decomposed(),
        ensures
            r@.len() == self.steps_view().len(),
            forall|i: int|
                0 <= i < r@.len() ==> (#[trigger] r@[i].model()) =~= seq![
                    ("request"@, self.steps_view()[i]),
                ] && r@[i].wf(),
    {
        let mut r: Vec<Params> = Vec::new();
        let mut k: usize = 0;
        while k < self.steps.len()
            invariant
                k <= self.steps_view().len(),
                self.steps_view().len() == self.steps@.len(),
                r@.len() == k,
                forall|i: int|
                    0 <= i < k ==> (#[trigger] r@[i].model()) =~= seq![
                        ("request"@, self.steps_view()[i]),
                    ] && r@[i].wf(),
            decreases self.steps@.len() - k,
        {
            r.push(code_request_params(self.steps[k].as_str()));
            k += 1;
        }
        r
    }

    /// The speech-generation fan-out: one request binding per step, in step
    /// order, each binding the placeholder `question` to the run's question
    /// and the placeholder `step` to its own step's text.
    pub fn speech_requests(&self) -> (r: Vec<Params>)
        requires
            self.is_decomposed(),
        ensures
            r@.len() == self.steps_view().len(),
            forall|i: int|
                0 <= i < r@.len() ==> (#[trigger] r@[i].model()) =~= seq![
                    ("question"@, self.question_view()),
                    ("step"@, self.steps_view()[i]),
                ] && r@[i].wf(),
    {
        let mut r: Vec<Params> = Vec::new();
        let mut k: usize = 0;
        while k < self.steps.len()
            invariant
                k <= self.steps_view().len(),
                self.steps_view().len() == self.steps@.len(),
                self.question_view() == self.question@,
                r@.len() == k,
                forall|i: int|
                    0 <= i < k ==> (#[trigger] r@[i].model()) =~= seq![
                        ("question"@, self.question_view()),
                        ("step"@, self.steps_view()[i]),
                    ] && r@[i].wf(),
            decreases self.steps@.len() - k,
        {
            r.push(speech_request_params(self.question.as_str(), self.steps[k].as_str()));
            k += 1;
        }
        r
    }

    /// Pair the two joined artifact sequences with the steps by index: entry
    /// `i` of the result is step `i` with its own code and speech artifacts.
    /// Both sequences must have exactly one entry per step, which the batch
    /// join guarantees for a successful run.
    pub fn pair(&self, code: &Vec<String>, speech: &Vec<String>) -> (r: Vec<StepArtifacts>)
        requires
            self.is_decomposed(),
            code@.len() == self.steps_view().len(),
            speech@.len() == self.steps_view().len(),
        ensures
            r@.len() == self.steps_view().len(),
            forall|i: int|
                0 <= i < r@.len() ==> (#[trigger] r@[i]).step@ == self.steps_view()[i]
                    && r@[i].code == code@[i] && r@[i].speech == speech@[i],
    {
        let mut r: Vec<StepArtifacts> = Vec::new();
        let mut k: usize = 0;
        while k < self.steps.len()
            invariant
                k <= self.steps_view().len(),
                self.steps_view().len() == self.steps@.len(),
                code@.len() == self.steps_view().len(),
                speech@.len() == self.steps_view().len(),
                r@.len() == k,
                forall|i: int|
                    0 <= i < k ==> (#[trigger] r@[i]).step@ == self.steps_view()[i]
                        && r@[i].code == code@[i] && r@[i].speech == speech@[i],
            decreases self.steps@.len() - k,
        {
            r.push(StepArtifacts {
                step: self.steps[k].clone(),
                code: code[k].clone(),
                speech: speech[k].clone(),
            });
            k += 1;
        }
        r
    }

    /// Join both fan-out batches and pair their artifacts with the steps.
    /// The run succeeds exactly when neither batch recorded a failure, and
    /// then every step has its own code and speech artifact at its own index
    /// — the three sequences always have the same length. A failure in
    /// either batch fails the whole run with that batch's first recorded
    /// failure (the code batch's taking precedence), and no partial output is
    /// produced.
    pub fn assemble(&self, code: BatchJoin, speech: BatchJoin) -> (r: Result<
        Vec<StepArtifacts>,
        PipelineError,
    >)
        requires
            self.is_decomposed(),
            code.slots_view().len() == self.steps_view().len(),
            speech.slots_view().len() == self.steps_view().len(),
            code.failure() is Some || forall|i: int|
                0 <= i < code.slots_view().len() ==> code.slots_view()[i] is Some,
            speech.failure() is Some || forall|i: int|
                0 <= i < speech.slots_view().len() ==> speech.slots_view()[i] is Some,
        ensures
            r is Ok <==> (code.failure() is None && speech.failure() is None),
            r is Ok ==> r->Ok_0@.len() == self.steps_view().len() && forall|i: int|
                0 <= i < self.steps_view().len() ==> (#[trigger] r->Ok_0@[i]).step@
                    == self.steps_view()[i] && r->Ok_0@[i].code == code.slots_view()[i]->Some_0
                    && r->Ok_0@[i].speech == speech.slots_view()[i]->Some_0,
            code.failure() is Some ==> r->Err_0 == code.failure()->Some_0,
            code.failure() is None && speech.failure() is Some ==> r->Err_0
                == speech.failure()->Some_0,
    {
        match code.finish() {
            Err(e) => Err(e),
            Ok(code_artifacts) => match speech.finish() {
                Err(e) => Err(e),
                Ok(speech_artifacts) => Ok(self.pair(&code_artifacts, &speech_artifacts)),
            },
        }
    }
}

} // verus!
