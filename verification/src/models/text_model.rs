//! The text model: embeddings, a stack of layers, and a final normalization.
use vstd::prelude::*;

use crate::error::Exception;
use crate::graph::{
    app0, app1, app2, Dim, Graph, ModuleRef, Op, Owner, Pattern, Scalar, Shape, Term,
};
use crate::models::args::{ArgsView, ModelArgs};
use crate::models::attention::{
    lemma_extends_transitive, optional_in, optional_term, AttentionInput, LayerInput, SharedKv,
};
use crate::models::block::{are_copies, clone_layers, TransformerBlock};
use crate::models::layer::LayerType;
use crate::models::modules::{
    can_quantize, embedding_of, quantization_fits, Gemma4Embedding, Linear, RmsNorm,
};

verus! {

/// A text model.
#[derive(Debug)]
pub struct Gemma4TextModel {
    pub vocab_size: i32,
    pub num_hidden_layers: i32,
    pub hidden_size: i32,
    pub hidden_size_per_layer_input: i32,
    pub embed_tokens: Gemma4Embedding,
    pub embed_tokens_per_layer: Option<Gemma4Embedding>,
    pub per_layer_model_projection: Option<Linear>,
    pub per_layer_projection_norm: Option<RmsNorm>,
    pub layers: Vec<TransformerBlock>,
    pub norm: RmsNorm,
}

impl Gemma4TextModel {
    /// The model is made like `other`.
    pub open spec fn is_copy_of(self, other: Gemma4TextModel) -> bool {
        &&& self.vocab_size == other.vocab_size
        &&& self.num_hidden_layers == other.num_hidden_layers
        &&& self.hidden_size == other.hidden_size
        &&& self.hidden_size_per_layer_input == other.hidden_size_per_layer_input
        &&& self.embed_tokens == other.embed_tokens
        &&& self.embed_tokens_per_layer == other.embed_tokens_per_layer
        &&& self.per_layer_model_projection == other.per_layer_model_projection
        &&& self.per_layer_projection_norm == other.per_layer_projection_norm
        &&& are_copies(self.layers@, other.layers@)
        &&& self.norm == other.norm
    }
}

impl Clone for Gemma4TextModel {
    fn clone(&self) -> (r: Self)
        ensures
            r.is_copy_of(*self),
    {
        Gemma4TextModel {
            vocab_size: self.vocab_size,
            num_hidden_layers: self.num_hidden_layers,
            hidden_size: self.hidden_size,
            hidden_size_per_layer_input: self.hidden_size_per_layer_input,
            embed_tokens: self.embed_tokens,
            embed_tokens_per_layer: self.embed_tokens_per_layer,
            per_layer_model_projection: self.per_layer_model_projection,
            per_layer_projection_norm: self.per_layer_projection_norm,
            layers: clone_layers(&self.layers),
            norm: self.norm,
        }
    }
}

impl ArgsView {
    /// An embedding, quantized as the configuration says.
    pub open spec fn embedding(self, vocab_size: i32, hidden_size: i32) -> Gemma4Embedding {
        embedding_of(
            vocab_size,
            hidden_size,
            self.quantized,
            self.quantization_group_size,
            self.quantization_bits,
        )
    }

    pub open spec fn embedding_fits(self, hidden_size: i32) -> bool {
        self.quantized ==> quantization_fits(
            hidden_size,
            self.quantization_group_size,
            self.quantization_bits,
        )
    }

    /// The width of the per-layer inputs of all layers.
    pub open spec fn per_layer_width(self) -> int {
        self.num_hidden_layers * self.hidden_size_per_layer_input
    }

    /// The widths of all layers can be computed.
    pub open spec fn layers_fit(self) -> bool {
        forall|i: int|
            0 <= i < self.num_hidden_layers ==> self.for_layer(
                #[trigger] self.layer_type(i),
            ).attention_fits()
    }

    /// The widths of the whole model can be computed.
    pub open spec fn fits(self) -> bool {
        &&& self.embedding_fits(self.hidden_size)
        &&& self.hidden_size_per_layer_input > 0 ==> i32::MIN <= self.per_layer_width()
            <= i32::MAX && self.embedding_fits(self.per_layer_width() as i32)
        &&& self.layers_fit()
    }

    /// `layers` are the layers that the configuration asks for.
    pub open spec fn are_layers(self, layers: Seq<TransformerBlock>) -> bool {
        &&& layers.len() == if self.num_hidden_layers > 0 {
            self.num_hidden_layers as int
        } else {
            0
        }
        &&& forall|i: int|
            0 <= i < layers.len() ==> (#[trigger] layers[i]).is_for(
                self,
                self.layer_type(i),
                i as usize,
            )
    }
}

impl ModelArgs {
    /// Whether the widths of all layers can be computed.
    pub fn layers_fit(&self) -> (r: bool)
        ensures
            r == self@.layers_fit(),
    {
        let count: usize = if self.num_hidden_layers > 0 {
            self.num_hidden_layers as usize
        } else {
            0
        };
        for index in 0..count
            invariant
                count == if self.num_hidden_layers > 0 {
                    self.num_hidden_layers as int
                } else {
                    0
                },
                forall|i: int|
                    0 <= i < index ==> self@.for_layer(
                        #[trigger] self@.layer_type(i),
                    ).attention_fits(),
        {
            assert(self@.layer_type(index as int) == self@.layer_type(index as int));
            if !self.attention_fits(self.layer_type(index)) {
                return false;
            }
        }
        true
    }

    fn embedding_fits(&self, hidden_size: i32) -> (r: bool)
        ensures
            r == self@.embedding_fits(hidden_size),
    {
        !self.quantized || can_quantize(
            hidden_size,
            self.quantization_group_size,
            self.quantization_bits,
        )
    }

    /// Whether the widths of the whole model can be computed.
    pub fn fits(&self) -> (r: bool)
        ensures
            r == self@.fits(),
    {
        if !self.embedding_fits(self.hidden_size) || !self.layers_fit() {
            return false;
        }
        if self.hidden_size_per_layer_input > 0 {
            match self.num_hidden_layers.checked_mul(self.hidden_size_per_layer_input) {
                Some(width) => self.embedding_fits(width),
                None => false,
            }
        } else {
            true
        }
    }
}

/// The layers that `args` ask for.
pub fn build_layers(args: &ModelArgs) -> (r: Vec<TransformerBlock>)
    requires
        args@.layers_fit(),
    ensures
        args@.are_layers(r@),
{
    let mut layers: Vec<TransformerBlock> = Vec::new();
    let count: usize = if args.num_hidden_layers > 0 {
        args.num_hidden_layers as usize
    } else {
        0
    };
    for index in 0..count
        invariant
            args@.layers_fit(),
            count == if args.num_hidden_layers > 0 {
                args.num_hidden_layers as int
            } else {
                0
            },
            layers@.len() == index,
            forall|i: int|
                0 <= i < index ==> (#[trigger] layers@[i]).is_for(
                    args@,
                    args@.layer_type(i),
                    i as usize,
                ),
    {
        let layer_type = args.layer_type(index);
        assert(args@.for_layer(args@.layer_type(index as int)).attention_fits());
        layers.push(TransformerBlock::new(args, layer_type, index));
    }
    layers
}

/// The largest offset of the caches that are there.
pub open spec fn largest_offset(slots: Seq<Option<i32>>) -> Option<i32>
    decreases slots.len(),
{
    if slots.len() == 0 {
        None
    } else {
        match (largest_offset(slots.drop_last()), slots.last()) {
            (Some(a), Some(b)) => Some(
                if a < b {
                    b
                } else {
                    a
                },
            ),
            (None, b) => b,
            (a, None) => a,
        }
    }
}

/// The position of the first input.
pub open spec fn offset_of(slots: Seq<Option<i32>>) -> i32 {
    match largest_offset(slots) {
        Some(offset) => offset,
        None => 0,
    }
}

/// The position of the first input: the largest offset of the caches that are there, or zero.
pub fn position_offset(slots: &Vec<Option<i32>>) -> (r: i32)
    ensures
        r == offset_of(slots@),
{
    let mut largest: Option<i32> = None;
    assert(slots@.take(0) =~= Seq::empty());
    for i in 0..slots.len()
        invariant
            largest == largest_offset(slots@.take(i as int)),
    {
        assert(slots@.take(i + 1).drop_last() =~= slots@.take(i as int));
        largest = match (largest, slots[i]) {
            (Some(a), Some(b)) => if a < b {
                Some(b)
            } else {
                Some(a)
            },
            (None, b) => b,
            (a, None) => a,
        };
    }
    assert(slots@.take(slots@.len() as int) =~= slots@);
    match largest {
        Some(offset) => offset,
        None => 0,
    }
}

/// The offset that a pass starts at is the largest of the caches that are there, and zero
/// where there is none.
pub proof fn passes_start_at_the_largest_offset(slots: Seq<Option<i32>>)
    ensures
        (forall|i: int| 0 <= i < slots.len() ==> (#[trigger] slots[i]) is None) ==> offset_of(slots)
            == 0,
        (exists|i: int| 0 <= i < slots.len() && (#[trigger] slots[i]) is Some) ==> slots.contains(
            Some(offset_of(slots)),
        ),
        forall|i: int|
            0 <= i < slots.len() ==> (#[trigger] slots[i] matches Some(offset) ==> offset
                <= offset_of(slots)),
{
    largest_offset_is_largest(slots);
}

proof fn largest_offset_is_largest(slots: Seq<Option<i32>>)
    ensures
        largest_offset(slots) is None <==> forall|i: int|
            0 <= i < slots.len() ==> (#[trigger] slots[i]) is None,
        largest_offset(slots) matches Some(largest) ==> slots.contains(Some(largest)) && forall|
            i: int,
        |
            0 <= i < slots.len() ==> (#[trigger] slots[i] matches Some(offset) ==> offset
                <= largest),
    decreases slots.len(),
{
    if slots.len() > 0 {
        let rest = slots.drop_last();
        largest_offset_is_largest(rest);
        assert(slots =~= rest.push(slots.last()));
        assert forall|i: int| 0 <= i < rest.len() implies rest[i] == #[trigger] slots[i] by {}
        if let Some(largest) = largest_offset(slots) {
            if slots.last() == Some(largest) {
                assert(slots[slots.len() - 1] == Some(largest));
            } else {
                let i = choose|i: int| 0 <= i < rest.len() && rest[i] == Some(largest);
                assert(slots[i] == Some(largest));
            }
        } else {
            assert(forall|i: int| 0 <= i < rest.len() ==> (#[trigger] rest[i]) is None);
        }
        if forall|i: int| 0 <= i < slots.len() ==> (#[trigger] slots[i]) is None {
            assert(slots[slots.len() - 1] is None);
            assert forall|i: int| 0 <= i < rest.len() implies (#[trigger] rest[i]) is None by {
                assert(slots[i] is None);
            }
        }
    }
}

/// What a model is run on.
#[derive(Debug)]
pub struct ModelInput {
    pub inputs: usize,
    /// The length of axis 1 of the inputs, which every hidden state shares.
    pub seq_len: i32,
    pub mask: Option<usize>,
    /// The offset of each cache that is there. Without any slots, each layer gets a new cache.
    pub cache: Vec<Option<i32>>,
}

/// What running a text model gives.
#[derive(Debug, Clone, Copy, PartialEq, Eq)]
pub struct ModelOutput {
    pub out: usize,
    /// How many new caches the computation needs before it runs.
    pub new_caches: usize,
}

/// What a stack of layers is run on.
pub struct Pass {
    pub h: Term,
    pub seq_len: i32,
    pub mask: Option<Term>,
    pub slots: Seq<Option<i32>>,
    pub per_layer: Option<Term>,
}

/// Where the run of a stack of layers stands.
pub struct RunState {
    pub h: Term,
    pub kept: Map<LayerType, (Term, Term)>,
    pub updates: Seq<Term>,
}

impl Pass {
    /// How many layers have a slot.
    pub open spec fn slot_count(self, layers: int) -> int {
        if self.slots.len() == 0 {
            layers
        } else {
            self.slots.len() as int
        }
    }

    /// How many of `layers` layers run.
    pub open spec fn run_count(self, layers: int) -> int {
        if self.slot_count(layers) < layers {
            self.slot_count(layers)
        } else {
            layers
        }
    }

    /// The cache of the layer `index`.
    pub open spec fn cache(self, index: int) -> Option<usize> {
        if self.slots.len() == 0 || (index < self.slots.len() && self.slots[index] is Some) {
            Some(index as usize)
        } else {
            None
        }
    }

    /// What the layer `index` is given beside the hidden states.
    pub open spec fn per_layer_input(self, index: int) -> Option<Term> {
        match self.per_layer {
            Some(all) => Some(app1(Op::Index(Pattern::SelectAxis2(index as i32)), all)),
            None => None,
        }
    }

    /// A pass computes `term` and may not use it: a mask, where each layer makes its own, and what
    /// layers are given beside the hidden states.
    pub open spec fn may_go_unused(self, term: Term) -> bool {
        ||| self.mask == Some(term)
        ||| self.per_layer == Some(term)
        ||| exists|index: int| #[trigger] self.per_layer_input(index) == Some(term)
    }

    /// What the layer `index` is run on.
    pub open spec fn layer_input(self, index: int, state: RunState) -> LayerInput {
        LayerInput {
            owner: Owner::Target,
            x: state.h,
            seq_len: self.seq_len,
            mask: self.mask,
            cache: self.cache(index),
            position_offset: offset_of(self.slots),
            per_layer_input: self.per_layer_input(index),
            shared_kv: Some(state.kept),
            disable_generated_mask: false,
        }
    }
}

/// The state after a layer.
pub open spec fn step(layer: TransformerBlock, input: LayerInput, state: RunState) -> RunState {
    RunState {
        h: layer.output(input),
        kept: layer.shared_kv_after(input)->0,
        updates: match layer.cache_update(input) {
            Some(update) => state.updates.push(update),
            None => state.updates,
        },
    }
}

/// The state after the first `n` layers, if they can all run.
pub open spec fn run_layers(layers: Seq<TransformerBlock>, pass: Pass, n: int) -> Option<RunState>
    decreases n,
{
    if n <= 0 {
        Some(RunState { h: pass.h, kept: Map::empty(), updates: Seq::empty() })
    } else {
        match run_layers(layers, pass, n - 1) {
            Some(state) => {
                let input = pass.layer_input(n - 1, state);
                if layers[n - 1].can_run(input) {
                    Some(step(layers[n - 1], input, state))
                } else {
                    None
                }
            },
            None => None,
        }
    }
}

pub open spec fn scalar(s: Scalar) -> Term {
    app0(Op::Scalar(s))
}

impl Gemma4TextModel {
    /// The text model that `args` ask for.
    pub open spec fn is_for(self, args: ArgsView) -> bool {
        let width = args.per_layer_width() as i32;
        &&& self.vocab_size == args.vocab_size
        &&& self.num_hidden_layers == args.num_hidden_layers
        &&& self.hidden_size == args.hidden_size
        &&& self.hidden_size_per_layer_input == args.hidden_size_per_layer_input
        &&& self.embed_tokens == args.embedding(args.vocab_size, args.hidden_size)
        &&& self.embed_tokens_per_layer == args.if_per_layer_inputs(
            args.embedding(
                match args.vocab_size_per_layer_input {
                    Some(size) => size,
                    None => args.vocab_size,
                },
                width,
            ),
        )
        &&& self.per_layer_model_projection == args.if_per_layer_inputs(
            Linear { input_dims: args.hidden_size, output_dims: width, quantization: None },
        )
        &&& self.per_layer_projection_norm == args.if_per_layer_inputs(
            args.rms_norm(args.hidden_size_per_layer_input),
        )
        &&& args.are_layers(self.layers@)
        &&& self.norm == args.rms_norm(args.hidden_size)
    }

    /// The text model that `args` ask for.
    pub fn new(args: &ModelArgs) -> (r: Self)
        requires
            args@.fits(),
        ensures
            r.is_for(args@),
            r.has_tables(),
    {
        let quantized = args.quantized;
        let group_size = args.quantization_group_size;
        let bits = args.quantization_bits;
        let ple_dim = args.hidden_size_per_layer_input;
        let embed_tokens = Gemma4Embedding::new(
            args.vocab_size,
            args.hidden_size,
            quantized,
            group_size,
            bits,
        );
        let embed_tokens_per_layer = if ple_dim > 0 {
            let vocab_size = match args.vocab_size_per_layer_input {
                Some(size) => size,
                None => args.vocab_size,
            };
            let width = args.num_hidden_layers * ple_dim;
            Some(Gemma4Embedding::new(vocab_size, width, quantized, group_size, bits))
        } else {
            None
        };
        let per_layer_model_projection = if ple_dim > 0 {
            let width = args.num_hidden_layers * ple_dim;
            Some(Linear { input_dims: args.hidden_size, output_dims: width, quantization: None })
        } else {
            None
        };
        let per_layer_projection_norm = if ple_dim > 0 {
            Some(RmsNorm { dims: ple_dim, eps: args.rms_norm_eps })
        } else {
            None
        };
        let layers = build_layers(args);
        Gemma4TextModel {
            vocab_size: args.vocab_size,
            num_hidden_layers: args.num_hidden_layers,
            hidden_size: args.hidden_size,
            hidden_size_per_layer_input: ple_dim,
            embed_tokens,
            embed_tokens_per_layer,
            per_layer_model_projection,
            per_layer_projection_norm,
            layers,
            norm: RmsNorm { dims: args.hidden_size, eps: args.rms_norm_eps },
        }
    }

    /// The embeddings that are read have scales and biases if they are quantized.
    pub open spec fn has_tables(self) -> bool {
        self.embed_tokens.has_tables() && self.has_per_layer_tables()
    }

    /// The embedding that per-layer inputs are read from has scales and biases if it is quantized.
    pub open spec fn has_per_layer_tables(self) -> bool {
        self.gives_per_layer_inputs() ==> self.embed_tokens_per_layer->0.has_tables()
    }

    /// The model has all the parts that give its layers inputs beside the hidden states.
    pub open spec fn gives_per_layer_inputs(self) -> bool {
        &&& self.embed_tokens_per_layer is Some
        &&& self.per_layer_model_projection is Some
        &&& self.per_layer_projection_norm is Some
    }

    /// The embeddings of the tokens `inputs`, scaled.
    pub open spec fn embedded(self, inputs: Term) -> Term {
        app2(
            Op::Multiply,
            self.embed_tokens.output(ModuleRef::EmbedTokens { owner: Owner::Target }, inputs),
            scalar(Scalar::Sqrt(self.hidden_size)),
        )
    }

    pub open spec fn per_layer_shape(self) -> Op {
        Op::Reshape(
            Shape::Four(
                Dim::Like(0),
                Dim::Like(1),
                Dim::Fixed(self.num_hidden_layers),
                Dim::Fixed(self.hidden_size_per_layer_input),
            ),
        )
    }

    /// The per-layer part that the tokens themselves give.
    pub open spec fn token_identity(self, input_ids: Term) -> Term {
        app2(
            self.per_layer_shape(),
            app2(
                Op::Multiply,
                self.embed_tokens_per_layer->0.output(ModuleRef::EmbedTokensPerLayer, input_ids),
                scalar(Scalar::Sqrt(self.hidden_size_per_layer_input)),
            ),
            input_ids,
        )
    }

    /// The per-layer part that the embeddings give.
    pub open spec fn context_projection(self, inputs_embeds: Term) -> Term {
        app1(
            Op::Forward(ModuleRef::PerLayerProjectionNorm),
            app2(
                self.per_layer_shape(),
                app2(
                    Op::Multiply,
                    app1(Op::Forward(ModuleRef::PerLayerModelProjection), inputs_embeds),
                    scalar(Scalar::RecipSqrt(self.hidden_size)),
                ),
                inputs_embeds,
            ),
        )
    }

    /// The inputs of all layers beside the hidden states, in models that have them.
    pub open spec fn per_layer_terms(self, input_ids: Term, inputs_embeds: Term) -> Option<Term> {
        if self.gives_per_layer_inputs() {
            Some(
                app2(
                    Op::Multiply,
                    app2(
                        Op::Add,
                        self.context_projection(inputs_embeds),
                        self.token_identity(input_ids),
                    ),
                    scalar(Scalar::RootHalf),
                ),
            )
        } else {
            None
        }
    }

    /// What the layers are run on.
    pub open spec fn pass(
        self,
        inputs: Term,
        seq_len: i32,
        mask: Option<Term>,
        slots: Seq<Option<i32>>,
    ) -> Pass {
        let h = self.embedded(inputs);
        Pass {
            h,
            seq_len,
            mask: match mask {
                Some(mask) => Some(mask),
                None => if seq_len > 1 {
                    Some(app1(Op::CausalMask { past: None, window: None }, h))
                } else {
                    None
                },
            },
            slots,
            per_layer: self.per_layer_terms(inputs, h),
        }
    }

    /// The state after all the layers that run.
    pub open spec fn run(
        self,
        inputs: Term,
        seq_len: i32,
        mask: Option<Term>,
        slots: Seq<Option<i32>>,
    ) -> Option<RunState> {
        let pass = self.pass(inputs, seq_len, mask, slots);
        run_layers(self.layers@, pass, pass.run_count(self.layers@.len() as int))
    }

    /// Some layer cannot run, and the layers before it update their caches. Of what was computed
    /// from the node `from` on, nothing takes only what a pass may leave unused and what that
    /// layer left over.
    pub open spec fn stops_with(
        self,
        inputs: Term,
        seq_len: i32,
        mask: Option<Term>,
        slots: Seq<Option<i32>>,
        updates_before: Seq<Term>,
        from: nat,
        g: Graph,
    ) -> bool {
        let pass = self.pass(inputs, seq_len, mask, slots);
        exists|n: int|
            0 <= n < pass.run_count(self.layers@.len() as int) && run_layers(
                self.layers@,
                pass,
                n + 1,
            ) is None && (#[trigger] run_layers(self.layers@, pass, n) matches Some(state)
                && g.cache_updates() == updates_before + state.updates && forall|id: usize|
                from <= id && #[trigger] g.is_pending(id) ==> pass.may_go_unused(g.at(id))
                    || self.layers@[n].is_left_over(pass.layer_input(n, state), g.at(id)))
    }

    /// The final hidden states.
    pub open spec fn output(self, state: RunState) -> Term {
        app1(Op::Forward(ModuleRef::Norm { owner: Owner::Target }), state.h)
    }

    /// The inputs of all layers beside the hidden states, in models that have them.
    pub fn per_layer_inputs(&self, g: &mut Graph, input_ids: usize, inputs_embeds: usize) -> (r:
        Option<usize>)
        requires
            old(g).wf(),
            input_ids < old(g).size(),
            inputs_embeds < old(g).size(),
            self.has_per_layer_tables(),
        ensures
            final(g).extends_plainly(*old(g)),
            optional_in(r, *final(g)),
            match r {
                Some(id) => final(g).settles(*old(g), set![input_ids, inputs_embeds], set![id]),
                None => final(g).settles(*old(g), Set::empty(), Set::empty()),
            },
            optional_term(r, *final(g)) == self.per_layer_terms(
                old(g).at(input_ids),
                old(g).at(inputs_embeds),
            ),
    {
        let embedding = match &self.embed_tokens_per_layer {
            Some(embedding) => embedding,
            None => {
                return None;
            },
        };
        if self.per_layer_model_projection.is_none() || self.per_layer_projection_norm.is_none() {
            return None;
        }
        let shape = Op::Reshape(
            Shape::Four(
                Dim::Like(0),
                Dim::Like(1),
                Dim::Fixed(self.num_hidden_layers),
                Dim::Fixed(self.hidden_size_per_layer_input),
            ),
        );
        let identity = embedding.forward(g, ModuleRef::EmbedTokensPerLayer, input_ids);
        let factor = g.leaf(Op::Scalar(Scalar::Sqrt(self.hidden_size_per_layer_input)));
        let identity = g.binary(Op::Multiply, identity, factor);
        let identity = g.binary(shape, identity, input_ids);
        let projected = g.unary(Op::Forward(ModuleRef::PerLayerModelProjection), inputs_embeds);
        let factor = g.leaf(Op::Scalar(Scalar::RecipSqrt(self.hidden_size)));
        let projected = g.binary(Op::Multiply, projected, factor);
        let projected = g.binary(shape, projected, inputs_embeds);
        let projected = g.unary(Op::Forward(ModuleRef::PerLayerProjectionNorm), projected);
        let sum = g.binary(Op::Add, projected, identity);
        let factor = g.leaf(Op::Scalar(Scalar::RootHalf));
        Some(g.binary(Op::Multiply, sum, factor))
    }

    fn embed(&self, g: &mut Graph, inputs: usize) -> (r: usize)
        requires
            old(g).wf(),
            inputs < old(g).size(),
            self.embed_tokens.has_tables(),
        ensures
            final(g).extends_plainly(*old(g)),
            r < final(g).size(),
            final(g).at(r) == self.embedded(old(g).at(inputs)),
            final(g).settles(*old(g), set![inputs], set![r]),
    {
        let h = self.embed_tokens.forward(
            g,
            ModuleRef::EmbedTokens { owner: Owner::Target },
            inputs,
        );
        let factor = g.leaf(Op::Scalar(Scalar::Sqrt(self.hidden_size)));
        g.binary(Op::Multiply, h, factor)
    }

    /// How many new caches a pass needs before it runs, whether it fails or not, where it is given
    /// `slots` slots: without any, one for each layer.
    pub open spec fn caches_needed(self, slots: nat) -> nat {
        if slots == 0 {
            self.layers@.len()
        } else {
            0
        }
    }

    /// How many new caches a pass needs before it runs, whether it fails or not, where it is given
    /// `slots` slots: without any, one for each layer.
    pub fn new_caches(&self, slots: usize) -> (r: usize)
        ensures
            r == self.caches_needed(slots as nat),
    {
        if slots == 0 {
            self.layers.len()
        } else {
            0
        }
    }

    /// Runs the model on tokens. It fails where a layer does. Either way [`Self::new_caches`] says
    /// how many new caches the computation needs before it runs.
    pub fn forward(&self, g: &mut Graph, input: &ModelInput) -> (r: Result<ModelOutput, Exception>)
        requires
            old(g).wf(),
            input.inputs < old(g).size(),
            optional_in(input.mask, *old(g)),
            self.has_tables(),
        ensures
            final(g).wf(),
            final(g).extends(*old(g)),
            final(g).draw_count() == old(g).draw_count(),
            !final(g).is_pending(input.inputs),
            ({
                let run = self.run(
                    old(g).at(input.inputs),
                    input.seq_len,
                    optional_term(input.mask, *old(g)),
                    input.cache@,
                );
                &&& r is Ok <==> run is Some
                &&& r matches Err(e) ==> e.what@ == "missing shared Gemma 4 KV states"@
                    && self.stops_with(
                    old(g).at(input.inputs),
                    input.seq_len,
                    optional_term(input.mask, *old(g)),
                    input.cache@,
                    old(g).cache_updates(),
                    old(g).size(),
                    *final(g),
                )
                &&& r matches Ok(result) ==> {
                    let pass = self.pass(
                        old(g).at(input.inputs),
                        input.seq_len,
                        optional_term(input.mask, *old(g)),
                        input.cache@,
                    );
                    &&& forall|id: usize|
                        old(g).size() <= id && #[trigger] final(g).is_pending(id) ==> id
                            == result.out || pass.may_go_unused(final(g).at(id))
                    &&& result.out < final(g).size()
                    &&& final(g).at(result.out) == self.output(run->0)
                    &&& final(g).cache_updates() == old(g).cache_updates() + run->0.updates
                    &&& result.new_caches == self.caches_needed(input.cache@.len())
                }
            }),
    {
        let ghost start = *g;
        let ghost pass = self.pass(
            start.at(input.inputs),
            input.seq_len,
            optional_term(input.mask, start),
            input.cache@,
        );
        let embeds = self.embed(g, input.inputs);
        let ghost after_embedding = *g;
        let per_layer_inputs = self.per_layer_inputs(g, input.inputs, embeds);
        proof {
            lemma_extends_transitive(start, after_embedding, *g);
        }
        let ghost before_mask = *g;
        let offset = position_offset(&input.cache);
        let mask = match input.mask {
            Some(mask) => Some(mask),
            None => if input.seq_len > 1 {
                Some(g.unary(Op::CausalMask { past: None, window: None }, embeds))
            } else {
                None
            },
        };
        proof {
            lemma_extends_transitive(start, before_mask, *g);
        }
        let ghost base = *g;
        assert(optional_term(mask, base) == pass.mask);
        assert(optional_term(per_layer_inputs, base) == pass.per_layer);
        let fill = input.cache.len() == 0;
        let new_caches = self.new_caches(input.cache.len());
        let count: usize = if fill || self.layers.len() <= input.cache.len() {
            self.layers.len()
        } else {
            input.cache.len()
        };
        let mut h = embeds;
        let mut shared_kv = SharedKv::new();
        assert(base.cache_updates() =~= start.cache_updates() + Seq::<Term>::empty());
        for index in 0..count
            invariant
                start == *old(g),
                pass == self.pass(
                    start.at(input.inputs),
                    input.seq_len,
                    optional_term(input.mask, start),
                    input.cache@,
                ),
                count == pass.run_count(self.layers@.len() as int),
                count <= self.layers@.len(),
                fill == (input.cache@.len() == 0),
                !fill ==> count <= input.cache@.len(),
                pass.slots == input.cache@,
                pass.seq_len == input.seq_len,
                offset == offset_of(pass.slots),
                optional_in(mask, base),
                optional_in(per_layer_inputs, base),
                optional_term(mask, base) == pass.mask,
                optional_term(per_layer_inputs, base) == pass.per_layer,
                base.extends(start),
                g.wf(),
                g.extends(base),
                g.draw_count() == start.draw_count(),
                h < g.size(),
                input.inputs < start.size(),
                !g.is_pending(input.inputs),
                forall|id: usize|
                    start.size() <= id && #[trigger] g.is_pending(id) ==> id == h
                        || pass.may_go_unused(g.at(id)),
                shared_kv.is_in(*g),
                run_layers(self.layers@, pass, index as int) matches Some(state) && {
                    &&& g.at(h) == state.h
                    &&& shared_kv.terms(*g) == state.kept
                    &&& g.cache_updates() == start.cache_updates() + state.updates
                },
        {
            let ghost state = run_layers(self.layers@, pass, index as int)->0;
            let ghost before = *g;
            let per_layer_input = match per_layer_inputs {
                Some(all) => Some(g.unary(Op::Index(Pattern::SelectAxis2(index as i32)), all)),
                None => None,
            };
            let cache = if fill || input.cache[index].is_some() {
                Some(index)
            } else {
                None
            };
            let layer_input = AttentionInput {
                owner: Owner::Target,
                x: h,
                seq_len: input.seq_len,
                mask,
                cache,
                position_offset: offset,
                per_layer_input,
                shared_kv: Some(shared_kv),
                disable_generated_mask: false,
            };
            proof {
                shared_kv.lemma_kept(before, *g);
                lemma_extends_transitive(base, before, *g);
                assert(layer_input.terms(*g) == pass.layer_input(index as int, state));
            }
            let ghost before_layer = *g;
            let layer = &self.layers[index];
            let result = match layer.forward(g, layer_input) {
                Ok(result) => result,
                Err(e) => {
                    proof {
                        lemma_extends_transitive(base, before_layer, *g);
                        lemma_extends_transitive(start, base, *g);
                        lemma_stopped_runs_stay_stopped(
                            self.layers@,
                            pass,
                            index + 1,
                            count as int,
                        );
                    }
                    return Err(e);
                },
            };
            proof {
                lemma_extends_transitive(base, before_layer, *g);
            }
            h = result.out;
            shared_kv = match result.shared_kv {
                Some(kv) => kv,
                None => shared_kv,
            };
            proof {
                let next = run_layers(self.layers@, pass, index + 1)->0;
                assert(g.cache_updates() =~= start.cache_updates() + next.updates);
            }
        }
        let ghost after_layers = *g;
        let out = g.unary(Op::Forward(ModuleRef::Norm { owner: Owner::Target }), h);
        proof {
            lemma_extends_transitive(base, after_layers, *g);
            lemma_extends_transitive(start, base, *g);
        }
        Ok(ModelOutput { out, new_caches })
    }

    /// The modules that a change of training mode is passed on to, each with the new mode.
    pub open spec fn modes(self, mode: bool) -> Seq<(ModuleRef, bool)> {
        layer_modes(self.layers@, mode).push((ModuleRef::Norm { owner: Owner::Target }, mode))
    }

    /// The modules that a change of training mode is passed on to, each with the new mode.
    pub fn training_mode(&self, mode: bool) -> (r: Vec<(ModuleRef, bool)>)
        ensures
            r@ == self.modes(mode),
    {
        let mut r = self.embed_tokens.training_mode(mode);
        assert(r@ =~= layer_modes(self.layers@.take(0), mode));
        for i in 0..self.layers.len()
            invariant
                r@ == layer_modes(self.layers@.take(i as int), mode),
        {
            assert(self.layers@.take(i + 1).drop_last() =~= self.layers@.take(i as int));
            let mut modes = self.layers[i].training_mode(Owner::Target, mode);
            r.append(&mut modes);
        }
        assert(self.layers@.take(self.layers@.len() as int) =~= self.layers@);
        r.push((ModuleRef::Norm { owner: Owner::Target }, mode));
        r
    }
}

pub open spec fn layer_modes(layers: Seq<TransformerBlock>, mode: bool) -> Seq<(ModuleRef, bool)>
    decreases layers.len(),
{
    if layers.len() == 0 {
        Seq::empty()
    } else {
        layer_modes(layers.drop_last(), mode) + layers.last().modes(Owner::Target, mode)
    }
}

/// Once a layer cannot run, no later one does.
pub proof fn lemma_stopped_runs_stay_stopped(
    layers: Seq<TransformerBlock>,
    pass: Pass,
    n: int,
    m: int,
)
    requires
        n <= m,
        run_layers(layers, pass, n) is None,
    ensures
        run_layers(layers, pass, m) is None,
    decreases m - n,
{
    if n < m {
        lemma_stopped_runs_stay_stopped(layers, pass, n, m - 1);
    }
}

} // verus!
