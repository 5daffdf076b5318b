//! Gemma 4: the complete model, how it is loaded, and how tokens are sampled from it.
use vstd::prelude::*;

use crate::error::{Error, Exception};
use crate::graph::{app1, app2, Graph, ModuleRef, Op, Owner, Scalar, Term, F32};
use crate::models::args::{get_gemma4_model_args, ArgsView, Gemma4Config, ModelArgs};
use crate::models::attention::{lemma_extends_transitive, optional_in, optional_term};
use crate::models::modules::Linear;
use crate::models::text_model::{scalar, Gemma4TextModel, ModelInput, ModelOutput, RunState};
use crate::text::texts;
use crate::weights::{
    first_occurrences, keep_first_occurrences, text_pairs, LoadRules, StrictLoadConfig,
};

verus! {

/// The model without its output layer.
#[derive(Debug)]
pub struct Gemma4ForConditionalGeneration {
    pub language_model: Gemma4TextModel,
}

impl Clone for Gemma4ForConditionalGeneration {
    fn clone(&self) -> (r: Self)
        ensures
            r.language_model.is_copy_of(self.language_model),
    {
        Gemma4ForConditionalGeneration { language_model: self.language_model.clone() }
    }
}

impl Gemma4ForConditionalGeneration {
    /// The model that `args` ask for.
    pub fn new(args: &ModelArgs) -> (r: Self)
        requires
            args@.fits(),
        ensures
            r.language_model.is_for(args@),
            r.language_model.has_tables(),
    {
        Gemma4ForConditionalGeneration { language_model: Gemma4TextModel::new(args) }
    }
}

/// A Gemma 4 model.
#[derive(Debug)]
pub struct Model {
    pub args: ModelArgs,
    pub model: Gemma4ForConditionalGeneration,
    pub lm_head: Option<Linear>,
}

impl Clone for Model {
    fn clone(&self) -> (r: Self)
        ensures
            r.args@ == self.args@,
            r.model.language_model.is_copy_of(self.model.language_model),
            r.lm_head == self.lm_head,
    {
        Model { args: self.args.clone(), model: self.model.clone(), lm_head: self.lm_head }
    }
}

/// `logits`, held softly between `-cap` and `cap`.
pub open spec fn softcapped(logits: Term, cap: Option<F32>) -> Term {
    match cap {
        Some(cap) => app2(
            Op::Multiply,
            app1(Op::Tanh, app2(Op::Divide, logits, scalar(Scalar::Value(cap)))),
            scalar(Scalar::Value(cap)),
        ),
        None => logits,
    }
}

impl Model {
    /// The embeddings that are read have scales and biases if they are quantized.
    pub open spec fn has_tables(self) -> bool {
        self.model.language_model.has_tables()
    }

    /// The model that `args` ask for.
    pub open spec fn is_for(self, args: ArgsView) -> bool {
        &&& self.args@ == args
        &&& self.model.language_model.is_for(args)
        &&& self.lm_head == if args.tie_word_embeddings {
            None
        } else {
            Some(
                Linear {
                    input_dims: args.hidden_size,
                    output_dims: args.vocab_size,
                    quantization: None,
                },
            )
        }
    }

    /// The model that `args` ask for.
    pub fn new(args: ModelArgs) -> (r: Self)
        requires
            args@.fits(),
        ensures
            r.is_for(args@),
            r.has_tables(),
    {
        let model = Gemma4ForConditionalGeneration::new(&args);
        let lm_head = if !args.tie_word_embeddings {
            Some(
                Linear {
                    input_dims: args.hidden_size,
                    output_dims: args.vocab_size,
                    quantization: None,
                },
            )
        } else {
            None
        };
        Model { args, model, lm_head }
    }

    /// The type of the model.
    pub fn model_type(&self) -> (r: &str)
        ensures
            r@ == self.args.model_type@,
    {
        self.args.model_type.as_str()
    }

    /// The state after all the layers that run.
    pub open spec fn run(
        self,
        inputs: Term,
        seq_len: i32,
        mask: Option<Term>,
        slots: Seq<Option<i32>>,
    ) -> Option<RunState> {
        self.model.language_model.run(inputs, seq_len, mask, slots)
    }

    /// The scores of every token, from the final hidden states.
    pub open spec fn logits(self, state: RunState) -> Term {
        let out = self.model.language_model.output(state);
        let raw = match self.lm_head {
            Some(_) => app1(Op::Forward(ModuleRef::LmHead { owner: Owner::Target }), out),
            None => self.model.language_model.embed_tokens.linear_output(
                ModuleRef::EmbedTokens { owner: Owner::Target },
                out,
            ),
        };
        softcapped(raw, self.args.final_logit_softcapping)
    }

    fn build_logits(&self, g: &mut Graph, out: usize) -> (r: usize)
        requires
            old(g).wf(),
            out < old(g).size(),
            self.has_tables(),
        ensures
            final(g).extends_plainly(*old(g)),
            r < final(g).size(),
            final(g).settles(*old(g), set![out], set![r]),
            forall|state: RunState|
                old(g).at(out) == self.model.language_model.output(state) ==> final(g).at(r)
                    == #[trigger] self.logits(state),
    {
        let raw = match self.lm_head {
            Some(_) => g.unary(Op::Forward(ModuleRef::LmHead { owner: Owner::Target }), out),
            None => self.model.language_model.embed_tokens.as_linear(
                g,
                ModuleRef::EmbedTokens { owner: Owner::Target },
                out,
            ),
        };
        match self.args.final_logit_softcapping {
            Some(softcap) => {
                let cap = g.leaf(Op::Scalar(Scalar::Value(softcap)));
                let ratio = g.binary(Op::Divide, raw, cap);
                let bounded = g.unary(Op::Tanh, ratio);
                g.binary(Op::Multiply, bounded, cap)
            },
            None => raw,
        }
    }

    /// Runs the model on tokens, to the scores of every token. It fails where a layer does. Either
    /// way [`Gemma4TextModel::new_caches`] says how many new caches the computation needs before it
    /// runs.
    pub fn forward(&self, g: &mut Graph, input: &ModelInput) -> (r: Result<ModelOutput, Exception>)
        requires
            old(g).wf(),
            input.inputs < old(g).size(),
            optional_in(input.mask, *old(g)),
            self.has_tables(),
        ensures
            final(g).wf(),
            final(g).extends(*old(g)),
            final(g).draw_count() == old(g).draw_count(),
            !final(g).is_pending(input.inputs),
            ({
                let run = self.run(
                    old(g).at(input.inputs),
                    input.seq_len,
                    optional_term(input.mask, *old(g)),
                    input.cache@,
                );
                &&& r is Ok <==> run is Some
                &&& r matches Err(e) ==> e.what@ == "missing shared Gemma 4 KV states"@
                    && self.model.language_model.stops_with(
                    old(g).at(input.inputs),
                    input.seq_len,
                    optional_term(input.mask, *old(g)),
                    input.cache@,
                    old(g).cache_updates(),
                    old(g).size(),
                    *final(g),
                )
                &&& r matches Ok(result) ==> {
                    let pass = self.model.language_model.pass(
                        old(g).at(input.inputs),
                        input.seq_len,
                        optional_term(input.mask, *old(g)),
                        input.cache@,
                    );
                    &&& forall|id: usize|
                        old(g).size() <= id && #[trigger] final(g).is_pending(id) ==> id
                            == result.out || pass.may_go_unused(final(g).at(id))
                    &&& result.out < final(g).size()
                    &&& final(g).at(result.out) == self.logits(run->0)
                    &&& final(g).cache_updates() == old(g).cache_updates() + run->0.updates
                    &&& result.new_caches == self.model.language_model.caches_needed(
                        input.cache@.len(),
                    )
                }
            }),
    {
        let ghost start = *g;
        let hidden = match self.model.language_model.forward(g, input) {
            Ok(hidden) => hidden,
            Err(e) => {
                return Err(e);
            },
        };
        let ghost mid = *g;
        let out = self.build_logits(g, hidden.out);
        proof {
            lemma_extends_transitive(start, mid, *g);
        }
        Ok(ModelOutput { out, new_caches: hidden.new_caches })
    }

    /// The modules that a change of training mode is passed on to, each with the new mode.
    pub open spec fn modes(self, mode: bool) -> Seq<(ModuleRef, bool)> {
        self.model.language_model.modes(mode) + if self.lm_head is Some {
            seq![(ModuleRef::LmHead { owner: Owner::Target }, mode)]
        } else {
            Seq::empty()
        }
    }

    /// The modules that a change of training mode is passed on to, each with the new mode.
    pub fn training_mode(&self, mode: bool) -> (r: Vec<(ModuleRef, bool)>)
        ensures
            r@ == self.modes(mode),
    {
        let mut r = self.model.language_model.training_mode(mode);
        if self.lm_head.is_some() {
            r.push((ModuleRef::LmHead { owner: Owner::Target }, mode));
        }
        assert(r@ =~= self.modes(mode));
        r
    }
}

/// The token that is sampled from `logits`: the likeliest at temperature zero, else a random
/// draw, which has the number `draw`.
pub open spec fn sampled(logits: Term, temp: F32, draw: nat) -> Term {
    if temp.spec_is_zero() {
        app1(Op::ArgmaxLast, logits)
    } else {
        app1(
            Op::Categorical { draw: draw as usize },
            app2(Op::Multiply, logits, scalar(Scalar::Recip(temp))),
        )
    }
}

/// How many random draws sampling at a temperature takes.
pub open spec fn draws_at(temp: F32) -> nat {
    if temp.spec_is_zero() {
        0
    } else {
        1
    }
}

/// Samples a token from `logits` at the temperature `temp`.
pub fn sample(g: &mut Graph, logits: usize, temp: F32) -> (r: usize)
    requires
        old(g).wf(),
        logits < old(g).size(),
    ensures
        final(g).wf(),
        final(g).extends(*old(g)),
        final(g).cache_updates() == old(g).cache_updates(),
        final(g).draw_count() == old(g).draw_count() + draws_at(temp),
        r < final(g).size(),
        final(g).settles(*old(g), set![logits], set![r]),
        final(g).at(r) == sampled(old(g).at(logits), temp, old(g).draw_count()),
{
    if temp.is_zero() {
        g.unary(Op::ArgmaxLast, logits)
    } else {
        let factor = g.leaf(Op::Scalar(Scalar::Recip(temp)));
        let scaled = g.binary(Op::Multiply, logits, factor);
        g.categorical(scaled)
    }
}

/// The index of weight files that comes with a model.
#[derive(Debug)]
pub struct WeightMap {
    pub metadata: Vec<(String, serde_json::Value)>,
    /// The file that holds each weight.
    pub weight_map: Vec<(String, String)>,
}

impl WeightMap {
    /// The index holds what `other` holds.
    pub open spec fn is_copy_of(self, other: WeightMap) -> bool {
        &&& self.metadata@.len() == other.metadata@.len()
        &&& forall|i: int|
            0 <= i < other.metadata@.len() ==> (#[trigger] self.metadata@[i]).0@
                == other.metadata@[i].0@ && self.metadata@[i].1 == other.metadata@[i].1
        &&& text_pairs(self.weight_map@) == text_pairs(other.weight_map@)
    }
}

impl Clone for WeightMap {
    fn clone(&self) -> (r: Self)
        ensures
            r.is_copy_of(*self),
    {
        let mut metadata: Vec<(String, serde_json::Value)> = Vec::new();
        for i in 0..self.metadata.len()
            invariant
                metadata@.len() == i,
                forall|j: int|
                    0 <= j < i ==> (#[trigger] metadata@[j]).0@ == self.metadata@[j].0@
                        && metadata@[j].1 == self.metadata@[j].1,
        {
            metadata.push((self.metadata[i].0.clone(), self.metadata[i].1.clone()));
        }
        let mut weight_map: Vec<(String, String)> = Vec::new();
        for i in 0..self.weight_map.len()
            invariant
                weight_map@.len() == i,
                forall|j: int|
                    0 <= j < i ==> (#[trigger] weight_map@[j]).0@ == self.weight_map@[j].0@
                        && weight_map@[j].1@ == self.weight_map@[j].1@,
        {
            weight_map.push((self.weight_map[i].0.clone(), self.weight_map[i].1.clone()));
        }
        assert(text_pairs(weight_map@) =~= text_pairs(self.weight_map@));
        WeightMap { metadata, weight_map }
    }
}

/// The files that an index names, in the order of its entries.
pub open spec fn named_files(weight_map: Seq<(String, String)>) -> Seq<Seq<char>> {
    weight_map.map_values(|entry: (String, String)| entry.1@)
}

/// The weight files of a model.
pub open spec fn files_of(index: Option<WeightMap>) -> Seq<Seq<char>> {
    match index {
        Some(index) => first_occurrences(named_files(index.weight_map@)),
        None => seq!["model.safetensors"@],
    }
}

/// The weight files of a model: those that its index names, each once, or the one file of a
/// model without an index.
pub fn weight_files(index: &Option<WeightMap>) -> (r: Vec<String>)
    ensures
        texts(r@) == files_of(*index),
{
    match index {
        Some(index) => {
            let mut files: Vec<String> = Vec::new();
            for i in 0..index.weight_map.len()
                invariant
                    files@.len() == i,
                    forall|j: int|
                        0 <= j < i ==> (#[trigger] files@[j])@ == index.weight_map@[j].1@,
            {
                files.push(index.weight_map[i].1.clone());
            }
            assert(texts(files@) =~= named_files(index.weight_map@));
            keep_first_occurrences(files)
        },
        None => {
            let r: Vec<String> = vec!["model.safetensors".to_string()];
            assert(texts(r@) =~= seq!["model.safetensors"@]);
            r
        },
    }
}

/// How the weights of a Gemma 4 model are matched to its parameters.
pub open spec fn gemma4_rules() -> LoadRules {
    LoadRules {
        unused_prefixes: seq![
            "audio_tower."@,
            "embed_audio."@,
            "embed_vision."@,
            "multi_modal_projector."@,
            "vision_tower."@,
        ],
        missing_suffixes: seq![".bias"@],
        missing_parts: Seq::empty(),
        strips: Seq::empty(),
        rewrites: seq![
            ("language_model.model."@, "model.language_model."@),
            ("model.language_model."@, "model.language_model."@),
        ],
    }
}

/// How the weights of a Gemma 4 model are matched to its parameters.
pub fn gemma4_load_config() -> (r: StrictLoadConfig)
    ensures
        r@ == gemma4_rules(),
{
    let r = StrictLoadConfig::default().rewrite_prefix(
        "language_model.model.",
        "model.language_model.",
    ).rewrite_prefix("model.language_model.", "model.language_model.").allow_unused_prefix(
        "audio_tower.",
    ).allow_unused_prefix("embed_audio.").allow_unused_prefix("embed_vision.").allow_unused_prefix(
        "multi_modal_projector.",
    ).allow_unused_prefix("vision_tower.").allow_missing_suffix(".bias");
    assert(r@ =~= gemma4_rules());
    r
}

/// What it takes to load a model: the model, the files to read, one after the other, and how
/// their weights are matched to its parameters.
#[derive(Debug)]
pub struct LoadPlan {
    pub model: Model,
    pub files: Vec<String>,
    pub config: StrictLoadConfig,
}

/// What it takes to load the model that a configuration file and an optional index of weight
/// files describe. There is no plan where the widths of the model cannot be computed.
pub fn load_gemma4_model(config: Gemma4Config, index: &Option<WeightMap>) -> (r: Result<
    Option<LoadPlan>,
    Error,
>)
    ensures
        r is Err <==> config.text_config.enable_moe_block,
        r matches Err(e) ==> (e matches Error::UnsupportedArchitecture(what) && what@
            == "Gemma 4 MoE models are not supported yet"@),
        r matches Ok(plan) ==> (plan is Some <==> config.model_args().fits()),
        r matches Ok(Some(plan)) ==> {
            &&& plan.model.is_for(config.model_args())
            &&& plan.model.has_tables()
            &&& texts(plan.files@) == files_of(*index)
            &&& plan.config@ == gemma4_rules()
        },
{
    let args = match get_gemma4_model_args(config) {
        Ok(args) => args,
        Err(e) => {
            return Err(e);
        },
    };
    if !args.fits() {
        return Ok(None);
    }
    Ok(
        Some(
            LoadPlan {
                model: Model::new(args),
                files: weight_files(index),
                config: gemma4_load_config(),
            },
        ),
    )
}

} // verus!
