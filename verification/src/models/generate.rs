//! Generation: one token after the other.
use vstd::prelude::*;

use crate::error::Exception;
use crate::graph::{app0, app1, Graph, Input, Op, Pattern, Term, F32};
use crate::models::gemma4::{draws_at, sample, sampled, Model};
use crate::models::text_model::{ModelInput, RunState};

verus! {

/// What the next token is computed from.
#[derive(Debug, Clone, Copy, PartialEq, Eq, Structural)]
pub enum GenerateState {
    /// The prompt, of this length.
    Prefill { prompt_len: i32 },
    /// The token sampled last.
    Decode,
}

/// A pass through the model.
#[derive(Debug, Clone, Copy, PartialEq, Eq, Structural)]
pub enum TokenPass {
    /// The prompt up to position `end`. Its result is not used.
    Prefix { end: i32 },
    /// The prompt from position `start` on.
    Last { start: i32, seq_len: i32 },
    /// The token sampled last.
    Token,
}

/// What happened to the step that is under way.
#[derive(Debug, Clone, Copy, PartialEq, Eq, Structural)]
pub enum GenerateEvent {
    /// The next token is asked for.
    Start,
    /// The pass asked for has run.
    PassDone,
    /// The pass asked for has failed.
    PassFailed,
}

/// What is to be done next.
#[derive(Debug, Clone, Copy, PartialEq, Eq, Structural)]
pub enum GenerateAction {
    /// Run a pass.
    Run(TokenPass),
    /// Hand out the token that the last pass sampled.
    Yield,
    /// Hand out the failure of the last pass.
    Fail,
}

/// Where a generation stands: what the next token is computed from, and the pass of the
/// current step that was asked for.
pub struct Progress {
    pub state: GenerateState,
    pub running: Option<TokenPass>,
}

/// The pass that ends a step.
pub open spec fn sampling_pass(state: GenerateState) -> TokenPass {
    match state {
        GenerateState::Prefill { prompt_len } => TokenPass::Last {
            start: (prompt_len - 1) as i32,
            seq_len: if prompt_len > 0 {
                1
            } else {
                0
            },
        },
        GenerateState::Decode => TokenPass::Token,
    }
}

/// The pass that begins a step.
pub open spec fn first_pass(state: GenerateState) -> TokenPass {
    match state {
        GenerateState::Prefill { prompt_len } if prompt_len > 1 => TokenPass::Prefix {
            end: (prompt_len - 1) as i32,
        },
        _ => sampling_pass(state),
    }
}

impl Progress {
    /// What is to be done after `event`.
    pub open spec fn action(self, event: GenerateEvent) -> GenerateAction {
        match event {
            GenerateEvent::Start => GenerateAction::Run(first_pass(self.state)),
            GenerateEvent::PassFailed => GenerateAction::Fail,
            GenerateEvent::PassDone => match self.running {
                Some(TokenPass::Prefix { .. }) => GenerateAction::Run(sampling_pass(self.state)),
                _ => GenerateAction::Yield,
            },
        }
    }

    /// Where the generation stands after `event`.
    pub open spec fn after(self, event: GenerateEvent) -> Progress {
        match self.action(event) {
            GenerateAction::Run(pass) => Progress { running: Some(pass), ..self },
            GenerateAction::Fail => Progress { running: None, ..self },
            GenerateAction::Yield => Progress { state: GenerateState::Decode, running: None },
        }
    }

    /// The pass under way is one of the current step.
    pub open spec fn wf(self) -> bool {
        &&& self.state matches GenerateState::Prefill { prompt_len } ==> prompt_len >= 0
        &&& self.running matches Some(pass) ==> pass == first_pass(self.state) || pass
            == sampling_pass(self.state)
    }
}

/// The computation of a pass.
#[derive(Debug)]
pub struct PassPlan {
    /// What the pass computes; of a pass that fails, what it computes before.
    pub graph: Graph,
    /// The scores, or the token sampled from them, or why the pass fails.
    pub out: Result<usize, Exception>,
    /// How many new caches the computation needs before it runs.
    pub new_caches: usize,
}

/// A generation of tokens.
#[derive(Debug)]
pub struct Generate<'a> {
    model: &'a Model,
    temp: F32,
    state: GenerateState,
    running: Option<TokenPass>,
}

/// The tokens that a pass runs, out of the prompt or the token sampled last.
pub open spec fn pass_tokens(pass: TokenPass) -> Term {
    let given = app0(Op::Input(Input::Tokens));
    match pass {
        TokenPass::Prefix { end } => app1(Op::Index(Pattern::HeadAxis1(end)), given),
        TokenPass::Last { start, .. } => app1(Op::Index(Pattern::TailAxis1(start)), given),
        TokenPass::Token => app1(Op::Index(Pattern::AppendAxis), given),
    }
}

/// How many tokens a pass runs.
pub open spec fn pass_len(pass: TokenPass) -> i32 {
    match pass {
        TokenPass::Prefix { end } => end,
        TokenPass::Last { seq_len, .. } => seq_len,
        TokenPass::Token => 1,
    }
}

/// What a pass gives, from the state after the layers.
pub open spec fn pass_output(model: Model, pass: TokenPass, temp: F32, state: RunState) -> Term {
    match pass {
        TokenPass::Prefix { .. } => model.logits(state),
        _ => sampled(app1(Op::Index(Pattern::LastOfAxis1), model.logits(state)), temp, 0),
    }
}

impl<'a> Generate<'a> {
    pub closed spec fn spec_model(self) -> Model {
        *self.model
    }

    pub closed spec fn spec_temp(self) -> F32 {
        self.temp
    }

    /// Where the generation stands.
    pub closed spec fn progress(self) -> Progress {
        Progress { state: self.state, running: self.running }
    }

    /// A generation that continues a prompt of `prompt_len` tokens.
    pub fn new(model: &'a Model, temp: F32, prompt_len: i32) -> (r: Self)
        requires
            prompt_len >= 0,
        ensures
            r.spec_model() == *model,
            r.spec_temp() == temp,
            r.progress() == (Progress {
                state: GenerateState::Prefill { prompt_len },
                running: None,
            }),
            r.progress().wf(),
    {
        Generate { model, temp, state: GenerateState::Prefill { prompt_len }, running: None }
    }

    fn sampling_pass(&self) -> (r: TokenPass)
        requires
            self.progress().wf(),
        ensures
            r == sampling_pass(self.progress().state),
    {
        match self.state {
            GenerateState::Prefill { prompt_len } => TokenPass::Last {
                start: prompt_len - 1,
                seq_len: if prompt_len > 0 {
                    1
                } else {
                    0
                },
            },
            GenerateState::Decode => TokenPass::Token,
        }
    }

    /// Decides what is to be done next. A step begins with [`GenerateEvent::Start`] and ends
    /// when a token or a failure is handed out; generation never ends by itself.
    pub fn next(&mut self, event: GenerateEvent) -> (r: GenerateAction)
        requires
            old(self).progress().wf(),
            event != GenerateEvent::Start ==> old(self).progress().running is Some,
        ensures
            r == old(self).progress().action(event),
            final(self).progress() == old(self).progress().after(event),
            final(self).progress().wf(),
            final(self).spec_model() == old(self).spec_model(),
            final(self).spec_temp() == old(self).spec_temp(),
    {
        match event {
            GenerateEvent::Start => {
                let pass = match self.state {
                    GenerateState::Prefill { prompt_len } if prompt_len > 1 => TokenPass::Prefix {
                        end: prompt_len - 1,
                    },
                    _ => self.sampling_pass(),
                };
                self.running = Some(pass);
                GenerateAction::Run(pass)
            },
            GenerateEvent::PassFailed => {
                self.running = None;
                GenerateAction::Fail
            },
            GenerateEvent::PassDone => match self.running {
                Some(TokenPass::Prefix { .. }) => {
                    let pass = self.sampling_pass();
                    self.running = Some(pass);
                    GenerateAction::Run(pass)
                },
                _ => {
                    self.running = None;
                    self.state = GenerateState::Decode;
                    GenerateAction::Yield
                },
            },
        }
    }

    /// The computation of a pass, given the offsets of the caches that are there. It fails where
    /// the model does, after the layers before have updated their caches.
    pub fn run(&self, pass: TokenPass, cache: Vec<Option<i32>>) -> (r: PassPlan)
        requires
            self.spec_model().has_tables(),
        ensures
            ({
                let text_model = self.spec_model().model.language_model;
                let tokens = pass_tokens(pass);
                let run = self.spec_model().run(tokens, pass_len(pass), None, cache@);
                &&& r.graph.wf()
                &&& r.out is Ok <==> run is Some
                &&& r.out matches Err(e) ==> e.what@ == "missing shared Gemma 4 KV states"@
                    && text_model.stops_with(
                    tokens,
                    pass_len(pass),
                    None,
                    cache@,
                    Seq::empty(),
                    0,
                    r.graph,
                ) && r.graph.draw_count() == 0
                &&& r.out matches Ok(out) ==> {
                    let run_pass = text_model.pass(tokens, pass_len(pass), None, cache@);
                    &&& forall|id: usize| #[trigger]
                        r.graph.is_pending(id) ==> id == out || run_pass.may_go_unused(
                            r.graph.at(id),
                        )
                    &&& out < r.graph.size()
                    &&& r.graph.at(out) == pass_output(
                        self.spec_model(),
                        pass,
                        self.spec_temp(),
                        run->0,
                    )
                    &&& r.graph.cache_updates() == run->0.updates
                    &&& r.graph.draw_count() == if pass is Prefix {
                        0
                    } else {
                        draws_at(self.spec_temp())
                    }
                }
                &&& r.new_caches == text_model.caches_needed(cache@.len())
            }),
    {
        let mut graph = Graph::new();
        let given = graph.leaf(Op::Input(Input::Tokens));
        let (pattern, seq_len): (Pattern, i32) = match pass {
            TokenPass::Prefix { end } => (Pattern::HeadAxis1(end), end),
            TokenPass::Last { start, seq_len } => (Pattern::TailAxis1(start), seq_len),
            TokenPass::Token => (Pattern::AppendAxis, 1),
        };
        let inputs = graph.unary(Op::Index(pattern), given);
        let new_caches = self.model.model.language_model.new_caches(cache.len());
        let input = ModelInput { inputs, seq_len, mask: None, cache };
        let result = match self.model.forward(&mut graph, &input) {
            Ok(result) => result,
            Err(e) => {
                return PassPlan { graph, out: Err(e), new_caches };
            },
        };
        let ghost run = self.spec_model().run(pass_tokens(pass), pass_len(pass), None, cache@);
        assert(graph.cache_updates() =~= run->0.updates);
        let out = match pass {
            TokenPass::Prefix { .. } => result.out,
            _ => {
                let last = graph.unary(Op::Index(Pattern::LastOfAxis1), result.out);
                sample(&mut graph, last, self.temp)
            },
        };
        PassPlan { graph, out: Ok(out), new_caches }
    }
}

/// A step on the prompt runs all of it, in order, and samples from its last position: the
/// prefix that runs first, if any, ends where the sampling pass starts.
pub proof fn prompts_are_run_once(prompt_len: i32)
    requires
        prompt_len >= 1,
    ensures
        ({
            let begin = Progress { state: GenerateState::Prefill { prompt_len }, running: None };
            let started = begin.after(GenerateEvent::Start);
            let finished = started.after(GenerateEvent::PassDone);
            if prompt_len > 1 {
                let end = (prompt_len - 1) as i32;
                &&& begin.action(GenerateEvent::Start) == GenerateAction::Run(
                    TokenPass::Prefix { end },
                )
                &&& started.action(GenerateEvent::PassDone) == GenerateAction::Run(
                    TokenPass::Last { start: end, seq_len: 1 },
                )
                &&& finished.action(GenerateEvent::PassDone) == GenerateAction::Yield
                &&& finished.after(GenerateEvent::PassDone).state == GenerateState::Decode
            } else {
                &&& begin.action(GenerateEvent::Start) == GenerateAction::Run(
                    TokenPass::Last { start: 0, seq_len: 1 },
                )
                &&& started.action(GenerateEvent::PassDone) == GenerateAction::Yield
                &&& finished.state == GenerateState::Decode
            }
        }),
{
}

/// Once a token has been handed out, each step runs the token sampled last, and nothing leads
/// back to the prompt.
pub proof fn decoding_goes_on(progress: Progress, event: GenerateEvent)
    requires
        progress.wf(),
        progress.state == GenerateState::Decode,
    ensures
        progress.after(event).state == GenerateState::Decode,
        progress.action(GenerateEvent::Start) == GenerateAction::Run(TokenPass::Token),
        progress.after(GenerateEvent::Start).action(GenerateEvent::PassDone)
            == GenerateAction::Yield,
{
}

/// A step that fails leaves the generation where the step began, so that the next step tries
/// the same again.
pub proof fn failed_steps_are_tried_again(progress: Progress)
    requires
        progress.wf(),
    ensures
        progress.after(GenerateEvent::PassFailed) == (Progress { running: None, ..progress }),
        progress.after(GenerateEvent::PassFailed).action(GenerateEvent::Start) == progress.action(
            GenerateEvent::Start,
        ),
        progress.after(GenerateEvent::Start).after(GenerateEvent::PassFailed).state
            == progress.state,
{
}

} // verus!
