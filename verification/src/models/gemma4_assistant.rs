//! The assistant of a Gemma 4 model: a small model that drafts tokens for it.
use vstd::prelude::*;

use crate::error::Exception;
use crate::graph::{
    app0, app1, app2, app3, Axes, Dim, Graph, Input, ModuleRef, Op, Owner, ParamKind, Pattern,
    Scalar, Shape, Term, F32,
};
use crate::models::args::{ArgsView, ModelArgs};
use crate::models::attention::{
    lemma_extends_transitive, optional_in, optional_set, optional_term, AttentionInput, LayerInput,
    SharedKv,
};
use crate::models::block::{are_copies, clone_layers, TransformerBlock};
use crate::models::gemma4::{draws_at, files_of, sample, sampled, weight_files, Model, WeightMap};
use crate::models::layer::LayerType;
use crate::models::modules::{
    checked_divide, divide, embedding_of, param, quotient, Gemma4Embedding, Linear, RmsNorm,
};
use crate::models::text_model::{build_layers, scalar};
use crate::text::texts;
use crate::weights::{LoadRules, StrictLoadConfig};

verus! {

/// The configuration of an assistant.
#[derive(Debug)]
pub struct Gemma4AssistantConfig {
    pub model_type: String,
    pub backbone_hidden_size: i32,
    pub use_ordered_embeddings: bool,
    pub num_centroids: i32,
    pub centroid_intermediate_top_k: i32,
    pub tie_word_embeddings: bool,
    pub block_size: usize,
    pub text_config: ModelArgs,
}

/// The model type where a configuration names none.
pub fn default_model_type() -> (r: String)
    ensures
        r@ == "gemma4_assistant"@,
{
    "gemma4_assistant".to_string()
}

/// The number of centroids where a configuration gives none.
pub fn default_num_centroids() -> (r: i32)
    ensures
        r == 2048,
{
    2048
}

/// The number of centroids to look into where a configuration gives none.
pub fn default_centroid_top_k() -> (r: i32)
    ensures
        r == 32,
{
    32
}

/// The size of a block where a configuration gives none.
pub fn default_block_size() -> (r: usize)
    ensures
        r == 4,
{
    4
}

/// The value of a switch that is on where a configuration leaves it out.
pub fn default_true() -> (r: bool)
    ensures
        r,
{
    true
}

impl Gemma4AssistantConfig {
    /// The configuration says what `other` says.
    pub open spec fn is_copy_of(self, other: Gemma4AssistantConfig) -> bool {
        &&& self.model_type@ == other.model_type@
        &&& self.backbone_hidden_size == other.backbone_hidden_size
        &&& self.use_ordered_embeddings == other.use_ordered_embeddings
        &&& self.num_centroids == other.num_centroids
        &&& self.centroid_intermediate_top_k == other.centroid_intermediate_top_k
        &&& self.tie_word_embeddings == other.tie_word_embeddings
        &&& self.block_size == other.block_size
        &&& self.text_config@ == other.text_config@
    }
}

impl Clone for Gemma4AssistantConfig {
    fn clone(&self) -> (r: Self)
        ensures
            r.is_copy_of(*self),
    {
        Gemma4AssistantConfig {
            model_type: self.model_type.clone(),
            backbone_hidden_size: self.backbone_hidden_size,
            use_ordered_embeddings: self.use_ordered_embeddings,
            num_centroids: self.num_centroids,
            centroid_intermediate_top_k: self.centroid_intermediate_top_k,
            tie_word_embeddings: self.tie_word_embeddings,
            block_size: self.block_size,
            text_config: self.text_config.clone(),
        }
    }
}

impl Gemma4AssistantConfig {
    /// The configuration of the assistant's layers. They are never quantized, and reuse keys and
    /// values throughout where the configuration does not say which of them do.
    pub open spec fn layer_args(self) -> ArgsView {
        ArgsView {
            model_type: "gemma4"@,
            quantized: false,
            quantization_group_size: 64,
            quantization_bits: 4,
            num_kv_shared_layers: if self.text_config.num_kv_shared_layers == 0 {
                self.text_config.num_hidden_layers
            } else {
                self.text_config.num_kv_shared_layers
            },
            ..self.text_config@
        }
    }

    /// The widths of the assistant can be computed.
    pub open spec fn fits(self) -> bool {
        &&& self.layer_args().layers_fit()
        &&& i32::MIN <= 2 * self.backbone_hidden_size <= i32::MAX
        &&& self.use_ordered_embeddings ==> self.num_centroids != 0 && quotient(
            self.text_config.vocab_size as int,
            self.num_centroids as int,
        ) <= i32::MAX
    }

    /// The configuration of the assistant's layers.
    fn build_layer_args(&self) -> (r: ModelArgs)
        ensures
            r@ == self.layer_args(),
    {
        let mut args = self.text_config.clone();
        args.model_type = "gemma4".to_string();
        args.quantized = false;
        args.quantization_group_size = 64;
        args.quantization_bits = 4;
        if args.num_kv_shared_layers == 0 {
            args.num_kv_shared_layers = args.num_hidden_layers;
        }
        args
    }

    /// Whether the widths of the assistant can be computed.
    pub fn can_build(&self) -> (r: bool)
        ensures
            r == self.fits(),
    {
        self.build_layer_args().layers_fit() && self.backbone_hidden_size.checked_mul(2).is_some()
            && (!self.use_ordered_embeddings || checked_divide(
            self.text_config.vocab_size,
            self.num_centroids,
        ).is_some())
    }
}

/// The layers of an assistant.
#[derive(Debug)]
pub struct DraftInner {
    pub embed_tokens: Gemma4Embedding,
    pub layers: Vec<TransformerBlock>,
    pub norm: RmsNorm,
}

impl DraftInner {
    /// The layers are made like those of `other`.
    pub open spec fn is_copy_of(self, other: DraftInner) -> bool {
        &&& self.embed_tokens == other.embed_tokens
        &&& are_copies(self.layers@, other.layers@)
        &&& self.norm == other.norm
    }
}

impl Clone for DraftInner {
    fn clone(&self) -> (r: Self)
        ensures
            r.is_copy_of(*self),
    {
        DraftInner {
            embed_tokens: self.embed_tokens,
            layers: clone_layers(&self.layers),
            norm: self.norm,
        }
    }
}

impl DraftInner {
    /// The layers that `args` ask for. The embedding is never quantized.
    pub open spec fn is_for(self, args: ArgsView) -> bool {
        &&& self.embed_tokens == embedding_of(
            args.vocab_size,
            args.hidden_size,
            false,
            args.quantization_group_size,
            args.quantization_bits,
        )
        &&& args.are_layers(self.layers@)
        &&& self.norm == args.rms_norm(args.hidden_size)
    }

    /// The layers that `args` ask for. The embedding is never quantized.
    pub fn new(args: &ModelArgs) -> (r: Self)
        requires
            args@.layers_fit(),
        ensures
            r.is_for(args@),
    {
        let embed_tokens = Gemma4Embedding::new(
            args.vocab_size,
            args.hidden_size,
            false,
            args.quantization_group_size,
            args.quantization_bits,
        );
        let layers = build_layers(args);
        let norm = RmsNorm { dims: args.hidden_size, eps: args.rms_norm_eps };
        DraftInner { embed_tokens, layers, norm }
    }
}

/// A vector of zeros.
#[derive(Debug, Clone, Copy, PartialEq, Eq, Structural)]
pub struct Zeros {
    pub len: i32,
}

/// An output layer that scores only the tokens of the likeliest centroids.
#[derive(Debug, Clone, Copy, PartialEq, Eq)]
pub struct MaskedEmbedder {
    pub hidden_size: i32,
    pub vocab_size: i32,
    pub num_centroids: i32,
    pub top_k: i32,
    pub vocab_size_per_centroid: i32,
    pub centroids: Linear,
    pub token_ordering: Zeros,
}

impl MaskedEmbedder {
    /// The output layer that `config` asks for.
    pub open spec fn is_for(self, config: Gemma4AssistantConfig) -> bool {
        let args = config.text_config;
        &&& self.hidden_size == args.hidden_size
        &&& self.vocab_size == args.vocab_size
        &&& self.num_centroids == config.num_centroids
        &&& self.top_k == config.centroid_intermediate_top_k
        &&& self.vocab_size_per_centroid == quotient(
            args.vocab_size as int,
            config.num_centroids as int,
        )
        &&& self.centroids == Linear {
            input_dims: args.hidden_size,
            output_dims: config.num_centroids,
            quantization: None,
        }
        &&& self.token_ordering == Zeros { len: args.vocab_size }
    }

    /// The output layer that `config` asks for.
    pub fn new(config: &Gemma4AssistantConfig) -> (r: Self)
        requires
            config.num_centroids != 0,
            quotient(config.text_config.vocab_size as int, config.num_centroids as int)
                <= i32::MAX,
        ensures
            r.is_for(*config),
    {
        let hidden_size = config.text_config.hidden_size;
        let vocab_size = config.text_config.vocab_size;
        let num_centroids = config.num_centroids;
        MaskedEmbedder {
            hidden_size,
            vocab_size,
            num_centroids,
            top_k: config.centroid_intermediate_top_k,
            vocab_size_per_centroid: divide(vocab_size, num_centroids),
            centroids: Linear {
                input_dims: hidden_size,
                output_dims: num_centroids,
                quantization: None,
            },
            token_ordering: Zeros { len: vocab_size },
        }
    }

    /// The number of scored tokens can be computed.
    pub open spec fn fits(self) -> bool {
        &&& self.top_k > i32::MIN
        &&& i32::MIN <= self.top_k * self.vocab_size_per_centroid <= i32::MAX
    }

    /// Whether the number of scored tokens can be computed.
    pub fn can_run(&self) -> (r: bool)
        ensures
            r == self.fits(),
    {
        self.top_k > -0x8000_0000 && self.top_k.checked_mul(self.vocab_size_per_centroid).is_some()
    }

    /// The likeliest centroids.
    pub open spec fn likeliest(self, hidden_states: Term) -> Term {
        let k = (-self.top_k) as i32;
        app1(
            Op::Index(Pattern::TailAxis2(k)),
            app1(
                Op::ArgpartitionLast { kth: k },
                app1(Op::Forward(ModuleRef::Centroids), hidden_states),
            ),
        )
    }

    /// The tokens of each centroid.
    pub open spec fn groups(self) -> Term {
        app1(
            Op::Reshape(
                Shape::Two(
                    Dim::Fixed(self.num_centroids),
                    Dim::Fixed(self.vocab_size_per_centroid),
                ),
            ),
            param(ModuleRef::TokenOrdering, ParamKind::Weight),
        )
    }

    /// The tokens of the likeliest centroids.
    pub open spec fn selected_tokens(self, hidden_states: Term) -> Term {
        app2(Op::Take, self.groups(), self.likeliest(hidden_states))
    }

    /// The scores of the tokens of the likeliest centroids.
    pub open spec fn selected_logits(self, hidden_states: Term, lm_head_weight: Term) -> Term {
        let flat = app1(Op::Reshape(Shape::One(Dim::Rest)), self.selected_tokens(hidden_states));
        let embeddings = app2(
            Op::Reshape(
                Shape::Four(
                    Dim::Like(0),
                    Dim::Like(1),
                    Dim::Fixed((self.top_k * self.vocab_size_per_centroid) as i32),
                    Dim::Fixed(self.hidden_size),
                ),
            ),
            app2(Op::Take, lm_head_weight, flat),
            hidden_states,
        );
        app1(
            Op::SqueezeAxis,
            app2(
                Op::Matmul,
                app1(Op::Index(Pattern::InsertAxis2), hidden_states),
                app1(Op::Transpose(Axes::SwapLast), embeddings),
            ),
        )
    }

    /// The scores of all tokens; those of other centroids lie below all that were computed.
    pub open spec fn output(self, hidden_states: Term, lm_head_weight: Term) -> Term {
        let logits = self.selected_logits(hidden_states, lm_head_weight);
        let floor = app1(Op::ItemMinusOne, app1(Op::MinAll, logits));
        app3(
            Op::PutAlongLast,
            app2(Op::FullLike { last: self.vocab_size }, floor, hidden_states),
            app2(
                Op::Reshape(Shape::Three(Dim::Like(0), Dim::Like(1), Dim::Rest)),
                self.selected_tokens(hidden_states),
                hidden_states,
            ),
            logits,
        )
    }

    fn build_tokens(&self, g: &mut Graph, hidden_states: usize) -> (r: usize)
        requires
            old(g).wf(),
            hidden_states < old(g).size(),
            self.fits(),
        ensures
            final(g).extends_plainly(*old(g)),
            r < final(g).size(),
            final(g).at(r) == self.selected_tokens(old(g).at(hidden_states)),
            final(g).settles(*old(g), set![hidden_states], set![r]),
    {
        let k = -self.top_k;
        let centroid_logits = g.unary(Op::Forward(ModuleRef::Centroids), hidden_states);
        let parted = g.unary(Op::ArgpartitionLast { kth: k }, centroid_logits);
        let top = g.unary(Op::Index(Pattern::TailAxis2(k)), parted);
        let stored = g.leaf(
            Op::Param { module: ModuleRef::TokenOrdering, kind: ParamKind::Weight },
        );
        let ordering = g.unary(
            Op::Reshape(
                Shape::Two(
                    Dim::Fixed(self.num_centroids),
                    Dim::Fixed(self.vocab_size_per_centroid),
                ),
            ),
            stored,
        );
        g.binary(Op::Take, ordering, top)
    }

    fn build_logits(
        &self,
        g: &mut Graph,
        hidden_states: usize,
        lm_head_weight: usize,
        selected: usize,
    ) -> (r: usize)
        requires
            old(g).wf(),
            hidden_states < old(g).size(),
            lm_head_weight < old(g).size(),
            selected < old(g).size(),
            old(g).at(selected) == self.selected_tokens(old(g).at(hidden_states)),
            self.fits(),
        ensures
            final(g).extends_plainly(*old(g)),
            r < final(g).size(),
            final(g).at(r) == self.selected_logits(
                old(g).at(hidden_states),
                old(g).at(lm_head_weight),
            ),
            final(g).settles(*old(g), set![selected, lm_head_weight, hidden_states], set![r]),
    {
        let flat = g.unary(Op::Reshape(Shape::One(Dim::Rest)), selected);
        let rows = g.binary(Op::Take, lm_head_weight, flat);
        let embeddings = g.binary(
            Op::Reshape(
                Shape::Four(
                    Dim::Like(0),
                    Dim::Like(1),
                    Dim::Fixed(self.top_k * self.vocab_size_per_centroid),
                    Dim::Fixed(self.hidden_size),
                ),
            ),
            rows,
            hidden_states,
        );
        let states = g.unary(Op::Index(Pattern::InsertAxis2), hidden_states);
        let columns = g.unary(Op::Transpose(Axes::SwapLast), embeddings);
        let product = g.binary(Op::Matmul, states, columns);
        g.unary(Op::SqueezeAxis, product)
    }

    /// Scores all tokens, given the embeddings to score against.
    pub fn forward(&self, g: &mut Graph, hidden_states: usize, lm_head_weight: usize) -> (r: usize)
        requires
            old(g).wf(),
            hidden_states < old(g).size(),
            lm_head_weight < old(g).size(),
            self.fits(),
        ensures
            final(g).extends_plainly(*old(g)),
            r < final(g).size(),
            final(g).at(r) == self.output(old(g).at(hidden_states), old(g).at(lm_head_weight)),
            final(g).settles(*old(g), set![hidden_states, lm_head_weight], set![r]),
    {
        let selected = self.build_tokens(g, hidden_states);
        let logits = self.build_logits(g, hidden_states, lm_head_weight, selected);
        let least = g.unary(Op::MinAll, logits);
        let floor = g.unary(Op::ItemMinusOne, least);
        let out = g.binary(Op::FullLike { last: self.vocab_size }, floor, hidden_states);
        let positions = g.binary(
            Op::Reshape(Shape::Three(Dim::Like(0), Dim::Like(1), Dim::Rest)),
            selected,
            hidden_states,
        );
        g.ternary(Op::PutAlongLast, out, positions, logits)
    }
}

/// The numbers of a mask can be computed.
pub open spec fn mask_fits(
    layer_type: LayerType,
    query_len: i32,
    query_offset: i32,
    kv_len: i32,
    sliding_window: i32,
) -> bool {
    layer_type == LayerType::SlidingAttention && sliding_window > 0 ==> {
        &&& i32::MIN <= query_offset + query_len <= i32::MAX
        &&& kv_len <= sliding_window ==> kv_len + sliding_window <= i32::MAX
    }
}

/// The layer's queries need a mask.
pub open spec fn needs_mask(
    layer_type: LayerType,
    query_len: i32,
    query_offset: i32,
    kv_len: i32,
    sliding_window: i32,
) -> bool {
    &&& layer_type == LayerType::SlidingAttention
    &&& sliding_window > 0
    &&& !(kv_len <= sliding_window && query_offset + query_len <= kv_len + sliding_window)
}

/// The bit pattern of negative infinity.
pub const NEG_INFINITY_BITS: u32 = 0xff80_0000;

/// How far each query is from each key.
pub open spec fn distances(query_len: i32, query_offset: i32, kv_len: i32) -> Term {
    let queries = app1(
        Op::Index(Pattern::AppendAxis),
        app0(Op::Arange { start: Some(query_offset), stop: (query_offset + query_len) as i32 }),
    );
    let keys = app1(
        Op::Index(Pattern::PrependAxis),
        app0(Op::Arange { start: None, stop: kv_len }),
    );
    app2(Op::Subtract, queries, keys)
}

/// Where a distance is less than `sliding_window` either way.
pub open spec fn inside_window(distance: Term, sliding_window: i32) -> Term {
    app2(
        Op::LogicalAnd,
        app2(Op::Greater, distance, scalar(Scalar::Int((-sliding_window) as i32))),
        app2(Op::Less, distance, scalar(Scalar::Int(sliding_window))),
    )
}

/// A mask that lets each query see the keys less than `sliding_window` positions away.
pub open spec fn window_mask(
    query_len: i32,
    query_offset: i32,
    kv_len: i32,
    sliding_window: i32,
) -> Term {
    app1(
        Op::Index(Pattern::PrependTwoAxes),
        app3(
            Op::Which,
            inside_window(distances(query_len, query_offset, kv_len), sliding_window),
            scalar(Scalar::Value(F32 { bits: 0 })),
            scalar(Scalar::Value(F32 { bits: NEG_INFINITY_BITS })),
        ),
    )
}

/// The mask of a draft layer, where it needs one.
pub open spec fn draft_mask(
    layer_type: LayerType,
    query_len: i32,
    query_offset: i32,
    kv_len: i32,
    sliding_window: i32,
) -> Option<Term> {
    if needs_mask(layer_type, query_len, query_offset, kv_len, sliding_window) {
        Some(window_mask(query_len, query_offset, kv_len, sliding_window))
    } else {
        None
    }
}

fn build_distances(g: &mut Graph, query_len: i32, query_offset: i32, kv_len: i32) -> (r: usize)
    requires
        old(g).wf(),
        i32::MIN <= query_offset + query_len <= i32::MAX,
    ensures
        final(g).extends_plainly(*old(g)),
        r < final(g).size(),
        final(g).at(r) == distances(query_len, query_offset, kv_len),
        final(g).settles(*old(g), Set::empty(), set![r]),
{
    let queries = g.leaf(
        Op::Arange { start: Some(query_offset), stop: query_offset + query_len },
    );
    let queries = g.unary(Op::Index(Pattern::AppendAxis), queries);
    let keys = g.leaf(Op::Arange { start: None, stop: kv_len });
    let keys = g.unary(Op::Index(Pattern::PrependAxis), keys);
    g.binary(Op::Subtract, queries, keys)
}

fn build_inside_window(g: &mut Graph, distance: usize, sliding_window: i32) -> (r: usize)
    requires
        old(g).wf(),
        distance < old(g).size(),
        sliding_window > 0,
    ensures
        final(g).extends_plainly(*old(g)),
        r < final(g).size(),
        final(g).at(r) == inside_window(old(g).at(distance), sliding_window),
        final(g).settles(*old(g), set![distance], set![r]),
{
    let low = g.leaf(Op::Scalar(Scalar::Int(-sliding_window)));
    let above = g.binary(Op::Greater, distance, low);
    let high = g.leaf(Op::Scalar(Scalar::Int(sliding_window)));
    let below = g.binary(Op::Less, distance, high);
    g.binary(Op::LogicalAnd, above, below)
}

fn build_window_mask(
    g: &mut Graph,
    query_len: i32,
    query_offset: i32,
    kv_len: i32,
    sliding_window: i32,
) -> (r: usize)
    requires
        old(g).wf(),
        sliding_window > 0,
        i32::MIN <= query_offset + query_len <= i32::MAX,
    ensures
        final(g).extends_plainly(*old(g)),
        r < final(g).size(),
        final(g).at(r) == window_mask(query_len, query_offset, kv_len, sliding_window),
        final(g).settles(*old(g), Set::empty(), set![r]),
{
    let distance = build_distances(g, query_len, query_offset, kv_len);
    let inside = build_inside_window(g, distance, sliding_window);
    let zero = g.leaf(Op::Scalar(Scalar::Value(F32 { bits: 0 })));
    let infinity = g.leaf(Op::Scalar(Scalar::Value(F32 { bits: NEG_INFINITY_BITS })));
    let bias = g.ternary(Op::Which, inside, zero, infinity);
    g.unary(Op::Index(Pattern::PrependTwoAxes), bias)
}

/// The mask of a draft layer, where it needs one: full attention needs none, and neither does
/// a window that all keys fit into.
pub fn drafter_mask(
    g: &mut Graph,
    layer_type: LayerType,
    query_len: i32,
    query_offset: i32,
    kv_len: i32,
    sliding_window: i32,
) -> (r: Option<usize>)
    requires
        old(g).wf(),
        mask_fits(layer_type, query_len, query_offset, kv_len, sliding_window),
    ensures
        final(g).extends_plainly(*old(g)),
        optional_in(r, *final(g)),
        final(g).settles(*old(g), Set::empty(), optional_set(r)),
        optional_term(r, *final(g)) == draft_mask(
            layer_type,
            query_len,
            query_offset,
            kv_len,
            sliding_window,
        ),
{
    if layer_type == LayerType::FullAttention {
        return None;
    }
    if sliding_window <= 0 || (kv_len <= sliding_window && query_offset + query_len <= kv_len
        + sliding_window) {
        return None;
    }
    Some(build_window_mask(g, query_len, query_offset, kv_len, sliding_window))
}

/// The keys and values that an assistant borrows from its target, by the kind of layer: how
/// many positions they have.
#[derive(Debug, Clone, Copy, PartialEq, Eq)]
pub struct BorrowedKv {
    pub sliding: Option<i32>,
    pub full: Option<i32>,
}

impl BorrowedKv {
    /// The number of positions for a kind of layer.
    pub open spec fn kv_len(self, layer_type: LayerType) -> Option<i32> {
        match layer_type {
            LayerType::SlidingAttention => self.sliding,
            LayerType::FullAttention => self.full,
        }
    }

    /// The number of positions for a kind of layer.
    pub fn get(&self, layer_type: LayerType) -> (r: Option<i32>)
        ensures
            r == self.kv_len(layer_type),
    {
        match layer_type {
            LayerType::SlidingAttention => self.sliding,
            LayerType::FullAttention => self.full,
        }
    }
}

/// A model that drafts tokens for another.
#[derive(Debug)]
pub struct Gemma4AssistantDraftModel {
    pub config: Gemma4AssistantConfig,
    pub model: DraftInner,
    pub pre_projection: Linear,
    pub post_projection: Linear,
    pub lm_head: Option<Linear>,
    pub masked_embedding: Option<MaskedEmbedder>,
    pub shared_kv: Option<BorrowedKv>,
    pub kv_offset: i32,
    pub accept_lens: Vec<usize>,
}

impl Clone for Gemma4AssistantDraftModel {
    fn clone(&self) -> (r: Self)
        ensures
            r.config.is_copy_of(self.config),
            r.model.is_copy_of(self.model),
            r.pre_projection == self.pre_projection,
            r.post_projection == self.post_projection,
            r.lm_head == self.lm_head,
            r.masked_embedding == self.masked_embedding,
            r.shared_kv == self.shared_kv,
            r.kv_offset == self.kv_offset,
            r.accept_lens@ == self.accept_lens@,
    {
        let accept_lens: Vec<usize> = self.accept_lens.clone();
        assert(accept_lens@ =~= self.accept_lens@);
        Gemma4AssistantDraftModel {
            config: self.config.clone(),
            model: self.model.clone(),
            pre_projection: self.pre_projection,
            post_projection: self.post_projection,
            lm_head: self.lm_head,
            masked_embedding: self.masked_embedding,
            shared_kv: self.shared_kv,
            kv_offset: self.kv_offset,
            accept_lens,
        }
    }
}

/// `n - 1`, held to the range of `i32`.
pub open spec fn one_less(n: i32) -> i32 {
    if n == i32::MIN {
        i32::MIN
    } else {
        (n - 1) as i32
    }
}

/// Where drafting stands: the token to continue, the hidden states that go with it, and the
/// tokens drafted so far.
pub struct DraftState {
    pub token: Term,
    pub hidden: Term,
    pub tokens: Seq<Term>,
}

pub open spec fn borrowed(layer_type: LayerType) -> (Term, Term) {
    (
        app0(Op::Input(Input::SharedKeys(layer_type))),
        app0(Op::Input(Input::SharedValues(layer_type))),
    )
}

impl Gemma4AssistantDraftModel {
    /// The parts of each layer agree on its kind.
    pub open spec fn wf(self) -> bool {
        &&& forall|i: int|
            0 <= i < self.model.layers@.len() ==> (
            #[trigger] self.model.layers@[i]).self_attn.layer_type
                == self.model.layers@[i].layer_type
        &&& self.model.embed_tokens.has_tables()
    }

    /// The assistant that `config` asks for.
    pub open spec fn is_for(self, config: Gemma4AssistantConfig) -> bool {
        let args = config.layer_args();
        &&& self.config.text_config@ == args
        &&& self.config.model_type@ == config.model_type@
        &&& self.config.backbone_hidden_size == config.backbone_hidden_size
        &&& self.config.use_ordered_embeddings == config.use_ordered_embeddings
        &&& self.config.num_centroids == config.num_centroids
        &&& self.config.centroid_intermediate_top_k == config.centroid_intermediate_top_k
        &&& self.config.tie_word_embeddings == config.tie_word_embeddings
        &&& self.config.block_size == config.block_size
        &&& self.model.is_for(args)
        &&& self.pre_projection == Linear {
            input_dims: (2 * config.backbone_hidden_size) as i32,
            output_dims: args.hidden_size,
            quantization: None,
        }
        &&& self.post_projection == Linear {
            input_dims: args.hidden_size,
            output_dims: config.backbone_hidden_size,
            quantization: None,
        }
        &&& self.lm_head == if config.tie_word_embeddings {
            None
        } else {
            Some(
                Linear {
                    input_dims: args.hidden_size,
                    output_dims: args.vocab_size,
                    quantization: None,
                },
            )
        }
        &&& match self.masked_embedding {
            Some(masked) => config.use_ordered_embeddings && masked.is_for(config),
            None => !config.use_ordered_embeddings,
        }
    }

    /// Nothing is borrowed or noted.
    pub open spec fn is_fresh(self) -> bool {
        &&& self.shared_kv is None
        &&& self.kv_offset == 0
        &&& self.accept_lens@ == Seq::<usize>::empty()
    }

    /// The parts of `self` that never change are those of `other`.
    pub open spec fn same_model(self, other: Self) -> bool {
        &&& self.config == other.config
        &&& self.model == other.model
        &&& self.pre_projection == other.pre_projection
        &&& self.post_projection == other.post_projection
        &&& self.lm_head == other.lm_head
        &&& self.masked_embedding == other.masked_embedding
    }

    /// The assistant that `config` asks for.
    pub fn new(config: Gemma4AssistantConfig) -> (r: Self)
        requires
            config.fits(),
        ensures
            r.is_for(config),
            r.is_fresh(),
            r.wf(),
    {
        let ghost given = config;
        let mut config = config;
        config.text_config = config.build_layer_args();
        let model = DraftInner::new(&config.text_config);
        let hidden_size = config.text_config.hidden_size;
        let pre_projection = Linear {
            input_dims: 2 * config.backbone_hidden_size,
            output_dims: hidden_size,
            quantization: None,
        };
        let post_projection = Linear {
            input_dims: hidden_size,
            output_dims: config.backbone_hidden_size,
            quantization: None,
        };
        let lm_head = if config.tie_word_embeddings {
            None
        } else {
            Some(
                Linear {
                    input_dims: hidden_size,
                    output_dims: config.text_config.vocab_size,
                    quantization: None,
                },
            )
        };
        let masked_embedding = if config.use_ordered_embeddings {
            assert(config.text_config@.vocab_size == given.text_config@.vocab_size);
            Some(MaskedEmbedder::new(&config))
        } else {
            None
        };
        proof {
            assert(config.text_config@.hidden_size == given.text_config@.hidden_size);
            assert(config.text_config@.vocab_size == given.text_config@.vocab_size);
            if let Some(masked) = masked_embedding {
                assert(masked.is_for(given));
            }
        }
        Gemma4AssistantDraftModel {
            config,
            model,
            pre_projection,
            post_projection,
            lm_head,
            masked_embedding,
            shared_kv: None,
            kv_offset: 0,
            accept_lens: Vec::new(),
        }
    }

    /// The configured size of a block.
    pub fn block_size(&self) -> (r: usize)
        ensures
            r == self.config.block_size,
    {
        self.config.block_size
    }

    /// Forgets what is borrowed and noted.
    pub fn reset(&mut self)
        ensures
            final(self).is_fresh(),
            final(self).same_model(*old(self)),
    {
        self.shared_kv = None;
        self.kv_offset = 0;
        self.accept_lens.clear();
        assert(self.accept_lens@ =~= Seq::<usize>::empty());
    }

    /// Borrows keys and values that end at the position `kv_offset`.
    pub fn set_shared_kv(&mut self, shared_kv: BorrowedKv, kv_offset: i32)
        ensures
            final(self).shared_kv == Some(shared_kv),
            final(self).kv_offset == kv_offset,
            final(self).accept_lens@ == old(self).accept_lens@,
            final(self).same_model(*old(self)),
    {
        self.shared_kv = Some(shared_kv);
        self.kv_offset = kv_offset;
    }

    /// The position of the queries: the last that the borrowed keys and values have.
    pub open spec fn query_offset(self) -> i32 {
        one_less(self.kv_offset)
    }

    pub open spec fn window(self) -> i32 {
        match self.config.text_config.sliding_window {
            Some(window) => window,
            None => 0,
        }
    }

    /// Keys and values are borrowed for the first `n` layers.
    pub open spec fn lends_to(self, n: int) -> bool {
        forall|i: int|
            0 <= i < n ==> self.borrowed_len((#[trigger] self.model.layers@[i]).layer_type) is Some
    }

    /// The numbers of a draft, as far as it gets, can be computed.
    pub open spec fn draft_fits(self, query_len: i32) -> bool {
        &&& self.draft_failure() is None ==> (self.masked_embedding matches Some(masked)
            ==> masked.fits())
        &&& forall|i: int|
            0 <= i < self.model.layers@.len() && self.lends_to(i) ==> self.layer_mask_fits(
                #[trigger] self.model.layers@[i],
                query_len,
            )
    }

    pub open spec fn layer_mask_fits(self, layer: TransformerBlock, query_len: i32) -> bool {
        self.borrowed_len(layer.layer_type) matches Some(kv_len) ==> mask_fits(
            layer.layer_type,
            query_len,
            self.query_offset(),
            kv_len,
            self.window(),
        )
    }

    /// How many positions are borrowed for a kind of layer.
    pub open spec fn borrowed_len(self, layer_type: LayerType) -> Option<i32> {
        match self.shared_kv {
            Some(kv) => kv.kv_len(layer_type),
            None => None,
        }
    }

    /// Why the assistant cannot draft.
    pub open spec fn draft_failure(self) -> Option<Seq<char>> {
        if self.shared_kv is None {
            Some("Gemma 4 assistant requires shared K/V states"@)
        } else if exists|i: int|
            0 <= i < self.model.layers@.len() && self.borrowed_len(
                (#[trigger] self.model.layers@[i]).layer_type,
            ) is None {
            Some("missing shared K/V state for assistant layer"@)
        } else {
            None
        }
    }

    /// The layer `n` is the first that the assistant cannot run.
    pub open spec fn stops_at(self, n: int) -> bool {
        if self.shared_kv is None {
            n == 0
        } else {
            &&& 0 <= n < self.model.layers@.len()
            &&& self.lends_to(n)
            &&& self.borrowed_len(self.model.layers@[n].layer_type) is None
        }
    }

    /// A draft is given `term` and may not use it: keys or values for a layer that has its own.
    pub open spec fn may_go_unused(self, term: Term) -> bool {
        exists|i: int| #[trigger]
            self.may_leave(i) && (term == borrowed(self.model.layers@[i].layer_type).0 || term
                == borrowed(self.model.layers@[i].layer_type).1)
    }

    /// The layer `i` has keys and values of its own.
    pub open spec fn may_leave(self, i: int) -> bool {
        0 <= i < self.model.layers@.len() && !self.model.layers@[i].self_attn.is_kv_shared_layer
    }

    /// Of what a draft that cannot go on computed from the node `from` on, nothing takes only the
    /// hidden states that the first layer that cannot run would take, and what may go unused.
    pub open spec fn stops_with(
        self,
        query_len: i32,
        inputs_embeds: Term,
        from: nat,
        g: Graph,
    ) -> bool {
        exists|n: int| #[trigger]
            self.stops_at(n) && forall|id: usize|
                from <= id && #[trigger] g.is_pending(id) ==> g.at(id) == self.after_layers(
                    query_len,
                    inputs_embeds,
                    n,
                ) || self.may_go_unused(g.at(id))
    }

    /// What a layer is run on.
    pub open spec fn layer_input(
        self,
        layer: TransformerBlock,
        query_len: i32,
        h: Term,
    ) -> LayerInput {
        LayerInput {
            owner: Owner::Assistant,
            x: h,
            seq_len: query_len,
            mask: draft_mask(
                layer.layer_type,
                query_len,
                self.query_offset(),
                self.borrowed_len(layer.layer_type)->0,
                self.window(),
            ),
            cache: None,
            position_offset: self.query_offset(),
            per_layer_input: None,
            shared_kv: Some(
                Map::<LayerType, (Term, Term)>::empty().insert(
                    layer.layer_type,
                    borrowed(layer.layer_type),
                ),
            ),
            disable_generated_mask: true,
        }
    }

    /// The hidden states after the first `n` layers.
    pub open spec fn after_layers(self, query_len: i32, inputs_embeds: Term, n: int) -> Term
        decreases n,
    {
        if n <= 0 {
            app1(Op::Forward(ModuleRef::PreProjection), inputs_embeds)
        } else {
            let layer = self.model.layers@[n - 1];
            layer.output(
                self.layer_input(
                    layer,
                    query_len,
                    self.after_layers(query_len, inputs_embeds, n - 1),
                ),
            )
        }
    }

    /// The final hidden states.
    pub open spec fn final_hidden(self, query_len: i32, inputs_embeds: Term) -> Term {
        app1(
            Op::Forward(ModuleRef::Norm { owner: Owner::Assistant }),
            self.after_layers(query_len, inputs_embeds, self.model.layers@.len() as int),
        )
    }

    /// The scores of all tokens.
    pub open spec fn draft_logits(self, h: Term) -> Term {
        let embeddings = ModuleRef::EmbedTokens { owner: Owner::Assistant };
        match self.masked_embedding {
            Some(masked) => masked.output(h, param(embeddings, ParamKind::Weight)),
            None => match self.lm_head {
                Some(_) => app1(Op::Forward(ModuleRef::LmHead { owner: Owner::Assistant }), h),
                None => self.model.embed_tokens.linear_output(embeddings, h),
            },
        }
    }

    fn build_layer(&self, g: &mut Graph, index: usize, query_len: i32, kv_len: i32, h: usize) -> (r:
        usize)
        requires
            old(g).wf(),
            h < old(g).size(),
            self.wf(),
            index < self.model.layers@.len(),
            self.layer_mask_fits(self.model.layers@[index as int], query_len),
            self.borrowed_len(self.model.layers@[index as int].layer_type) == Some(kv_len),
        ensures
            final(g).wf(),
            final(g).extends_plainly(*old(g)),
            r < final(g).size(),
            final(g).at(r) == self.model.layers@[index as int].output(
                self.layer_input(self.model.layers@[index as int], query_len, old(g).at(h)),
            ),
            old(g).size() <= r,
            !final(g).is_pending(h),
            forall|id: usize| #[trigger]
                final(g).is_pending(id) ==> id == r || old(g).is_pending(id) || self.may_go_unused(
                    final(g).at(id),
                ),
    {
        let ghost start = *g;
        let layer = &self.model.layers[index];
        let query_offset = self.query_position();
        let window = match self.config.text_config.sliding_window {
            Some(window) => window,
            None => 0,
        };
        let mask = drafter_mask(g, layer.layer_type, query_len, query_offset, kv_len, window);
        let ghost after_mask = *g;
        let keys = g.leaf(Op::Input(Input::SharedKeys(layer.layer_type)));
        let values = g.leaf(Op::Input(Input::SharedValues(layer.layer_type)));
        let kept = SharedKv::new().insert(layer.layer_type, keys, values);
        let input = AttentionInput {
            owner: Owner::Assistant,
            x: h,
            seq_len: query_len,
            mask,
            cache: None,
            position_offset: query_offset,
            per_layer_input: None,
            shared_kv: Some(kept),
            disable_generated_mask: true,
        };
        let ghost given = self.layer_input(*layer, query_len, start.at(h));
        proof {
            assert(kept.terms(*g) =~= given.shared_kv->0);
            assert(input.terms(*g) == given);
            assert(layer.can_run(given));
        }
        let ghost before = *g;
        assert(layer.cache_update(given) is None);
        let result = layer.forward(g, input);
        proof {
            lemma_extends_transitive(start, before, *g);
            let out = result->Ok_0.out;
            assert(set![out].contains(out));
            assert(set![input.x].contains(h));
            assert(layer.used(input).contains(h));
            assert forall|id: usize| #[trigger] g.is_pending(id) implies id == out
                || start.is_pending(id) || self.may_go_unused(g.at(id)) by {
                assert(before.is_pending(id) ==> id == keys || id == values
                    || after_mask.is_pending(id));
                assert(after_mask.is_pending(id) ==> Some(id) == mask || start.is_pending(id));
                assert(Some(id) == mask ==> layer.used(input).contains(id));
                if id != out && (id == keys || id == values) {
                    if layer.self_attn.is_kv_shared_layer {
                        assert(layer.used(input).contains(id));
                    }
                    assert(self.may_leave(index as int));
                    assert(g.at(id) == before.at(id));
                }
            }
        }
        match result {
            Ok(result) => result.out,
            Err(_) => {
                assert(false);
                h
            },
        }
    }

    fn query_position(&self) -> (r: i32)
        ensures
            r == self.query_offset(),
    {
        if self.kv_offset == -0x8000_0000 {
            self.kv_offset
        } else {
            self.kv_offset - 1
        }
    }

    fn build_logits(&self, g: &mut Graph, h: usize) -> (r: usize)
        requires
            old(g).wf(),
            h < old(g).size(),
            self.wf(),
            self.masked_embedding matches Some(masked) ==> masked.fits(),
        ensures
            final(g).extends_plainly(*old(g)),
            r < final(g).size(),
            final(g).at(r) == self.draft_logits(old(g).at(h)),
            final(g).settles(*old(g), set![h], set![r]),
    {
        let embeddings = ModuleRef::EmbedTokens { owner: Owner::Assistant };
        match &self.masked_embedding {
            Some(masked) => {
                let weight = g.leaf(Op::Param { module: embeddings, kind: ParamKind::Weight });
                masked.forward(g, h, weight)
            },
            None => match self.lm_head {
                Some(_) => g.unary(
                    Op::Forward(ModuleRef::LmHead { owner: Owner::Assistant }),
                    h,
                ),
                None => self.model.embed_tokens.as_linear(g, embeddings, h),
            },
        }
    }

    /// Runs the assistant on `query_len` positions: gives the hidden states to go on from, and the
    /// scores of all tokens. It fails where keys and values that a layer needs are not borrowed.
    pub fn forward(&self, g: &mut Graph, inputs_embeds: usize, query_len: i32) -> (r: Result<
        (usize, usize),
        Exception,
    >)
        requires
            old(g).wf(),
            inputs_embeds < old(g).size(),
            self.wf(),
            self.draft_fits(query_len),
        ensures
            final(g).extends_plainly(*old(g)),
            !final(g).is_pending(inputs_embeds),
            r is Err <==> self.draft_failure() is Some,
            r matches Err(e) ==> Some(e.what@) == self.draft_failure() && self.stops_with(
                query_len,
                old(g).at(inputs_embeds),
                old(g).size(),
                *final(g),
            ),
            r matches Ok(result) ==> {
                let h = self.final_hidden(query_len, old(g).at(inputs_embeds));
                &&& result.0 < final(g).size()
                &&& result.1 < final(g).size()
                &&& final(g).at(result.0) == app1(Op::Forward(ModuleRef::PostProjection), h)
                &&& final(g).at(result.1) == self.draft_logits(h)
                &&& old(g).size() <= result.0
                &&& old(g).size() <= result.1
                &&& forall|id: usize|
                    old(g).size() <= id && #[trigger] final(g).is_pending(id) ==> id == result.0
                        || id == result.1 || self.may_go_unused(final(g).at(id))
            },
    {
        let ghost start = *g;
        let ghost given = start.at(inputs_embeds);
        let mut h = g.unary(Op::Forward(ModuleRef::PreProjection), inputs_embeds);
        let shared_kv = match self.shared_kv {
            Some(shared_kv) => shared_kv,
            None => {
                assert(self.stops_at(0));
                return Err(Exception::custom("Gemma 4 assistant requires shared K/V states"));
            },
        };
        for index in 0..self.model.layers.len()
            invariant
                start == *old(g),
                given == start.at(inputs_embeds),
                self.wf(),
                self.draft_fits(query_len),
                self.shared_kv == Some(shared_kv),
                g.extends_plainly(start),
                inputs_embeds < start.size() <= h < g.size(),
                !g.is_pending(inputs_embeds),
                forall|id: usize|
                    start.size() <= id && #[trigger] g.is_pending(id) ==> id == h
                        || self.may_go_unused(g.at(id)),
                g.at(h) == self.after_layers(query_len, given, index as int),
                self.lends_to(index as int),
        {
            let ghost before = *g;
            let layer_type = self.model.layers[index].layer_type;
            match shared_kv.get(layer_type) {
                Some(kv_len) => {
                    h = self.build_layer(g, index, query_len, kv_len, h);
                },
                None => {
                    assert(self.borrowed_len(self.model.layers@[index as int].layer_type) is None);
                    assert(self.stops_at(index as int));
                    return Err(Exception::custom("missing shared K/V state for assistant layer"));
                },
            }
            proof {
                lemma_extends_transitive(start, before, *g);
            }
        }
        let ghost after_layers = *g;
        let ghost last = h;
        let h = g.unary(Op::Forward(ModuleRef::Norm { owner: Owner::Assistant }), h);
        let last_hidden = g.unary(Op::Forward(ModuleRef::PostProjection), h);
        let ghost before_logits = *g;
        let logits = self.build_logits(g, h);
        proof {
            assert(set![logits].contains(logits));
            assert forall|id: usize| start.size() <= id && #[trigger] g.is_pending(id) implies id
                == last_hidden || id == logits || self.may_go_unused(g.at(id)) by {
                assert(before_logits.is_pending(id) ==> id == last_hidden || id == h || (
                after_layers.is_pending(id) && id != last));
                if id != logits && id != last_hidden {
                    assert(after_layers.is_pending(id) && id != last);
                    assert(g.at(id) == after_layers.at(id));
                }
            }
        }
        Ok((last_hidden, logits))
    }
}

impl Gemma4AssistantDraftModel {
    /// Whether the numbers of a draft, as far as it gets, can be computed.
    pub fn can_draft(&self, query_len: i32) -> (r: bool)
        ensures
            r == self.draft_fits(query_len),
    {
        let shared_kv = match self.shared_kv {
            Some(shared_kv) => shared_kv,
            None => {
                assert forall|i: int| 0 <= i < self.model.layers@.len() implies self.layer_mask_fits(
                    #[trigger] self.model.layers@[i],
                    query_len,
                ) by {
                    assert(self.borrowed_len(self.model.layers@[i].layer_type) is None);
                }
                return true;
            },
        };
        let query_offset = self.query_position();
        let window = match self.config.text_config.sliding_window {
            Some(window) => window,
            None => 0,
        };
        for index in 0..self.model.layers.len()
            invariant
                self.shared_kv == Some(shared_kv),
                query_offset == self.query_offset(),
                window == self.window(),
                self.lends_to(index as int),
                forall|i: int|
                    0 <= i < index ==> self.layer_mask_fits(
                        #[trigger] self.model.layers@[i],
                        query_len,
                    ),
        {
            let layer_type = self.model.layers[index].layer_type;
            match shared_kv.get(layer_type) {
                Some(kv_len) => {
                    if layer_type == LayerType::SlidingAttention && window > 0 && (
                    query_offset.checked_add(query_len).is_none() || (kv_len <= window
                        && kv_len.checked_add(window).is_none())) {
                        assert(!self.layer_mask_fits(self.model.layers@[index as int], query_len));
                        return false;
                    }
                },
                None => {
                    proof {
                        let layers = self.model.layers@;
                        assert(self.borrowed_len(layers[index as int].layer_type) is None);
                        assert forall|i: int| 0 <= i < layers.len() && self.lends_to(
                            i,
                        ) implies self.layer_mask_fits(#[trigger] layers[i], query_len) by {
                            if i > index {
                                assert(self.borrowed_len(layers[index as int].layer_type) is Some);
                            }
                        }
                    }
                    return true;
                },
            }
        }
        match &self.masked_embedding {
            Some(masked) => masked.can_run(),
            None => true,
        }
    }

    /// Where drafting stands after `n` tokens. Random draws are numbered from `draw` on.
    pub open spec fn drafted(
        self,
        target: Model,
        last_bonus: u32,
        temp: F32,
        draw: nat,
        n: nat,
    ) -> DraftState
        decreases n,
    {
        if n == 0 {
            DraftState {
                token: app0(Op::Input(Input::Token(last_bonus))),
                hidden: app0(Op::Input(Input::Hidden)),
                tokens: Seq::empty(),
            }
        } else {
            let before = (n - 1) as nat;
            let state = self.drafted(target, last_bonus, temp, draw, before);
            let h = self.final_hidden(1, draft_inputs(target, state));
            let token = sampled(self.draft_logits(h), temp, draw + before * draws_at(temp));
            DraftState {
                token,
                hidden: app1(Op::Forward(ModuleRef::PostProjection), h),
                tokens: state.tokens.push(token),
            }
        }
    }

    fn draft_token(
        &self,
        g: &mut Graph,
        target_model: &Model,
        token: usize,
        hidden: usize,
        temp: F32,
    ) -> (r: Result<(usize, usize), Exception>)
        requires
            old(g).wf(),
            token < old(g).size(),
            hidden < old(g).size(),
            self.wf(),
            self.draft_fits(1),
            target_model.model.language_model.embed_tokens.has_tables(),
        ensures
            final(g).wf(),
            final(g).extends(*old(g)),
            final(g).cache_updates() == old(g).cache_updates(),
            r is Err <==> self.draft_failure() is Some,
            !final(g).is_pending(token),
            !final(g).is_pending(hidden),
            r matches Err(e) ==> Some(e.what@) == self.draft_failure() && final(g).draw_count()
                == old(g).draw_count() && self.stops_with(
                1,
                app2(
                    Op::ConcatLast,
                    target_embedding(*target_model, old(g).at(token)),
                    old(g).at(hidden),
                ),
                old(g).size(),
                *final(g),
            ),
            r matches Ok(result) ==> {
                let inputs = app2(
                    Op::ConcatLast,
                    target_embedding(*target_model, old(g).at(token)),
                    old(g).at(hidden),
                );
                let h = self.final_hidden(1, inputs);
                &&& result.0 < final(g).size()
                &&& result.1 < final(g).size()
                &&& final(g).at(result.0) == sampled(
                    self.draft_logits(h),
                    temp,
                    old(g).draw_count(),
                )
                &&& final(g).at(result.1) == app1(Op::Forward(ModuleRef::PostProjection), h)
                &&& forall|id: usize|
                    old(g).size() <= id && #[trigger] final(g).is_pending(id) ==> id == result.0
                        || id == result.1 || self.may_go_unused(final(g).at(id))
                &&& final(g).draw_count() == old(g).draw_count() + draws_at(temp)
            },
    {
        let ghost start = *g;
        let embedding = target_model.model.language_model.embed_tokens.forward(
            g,
            ModuleRef::EmbedTokens { owner: Owner::Target },
            token,
        );
        let factor = g.leaf(Op::Scalar(Scalar::Sqrt(target_model.args.hidden_size)));
        let embedding = g.binary(Op::Multiply, embedding, factor);
        let inputs = g.binary(Op::ConcatLast, embedding, hidden);
        let ghost mid = *g;
        let (next_hidden, logits) = match self.forward(g, inputs, 1) {
            Ok(result) => result,
            Err(e) => {
                proof {
                    lemma_extends_transitive(start, mid, *g);
                }
                return Err(e);
            },
        };
        proof {
            lemma_extends_transitive(start, mid, *g);
        }
        let ghost before_sampling = *g;
        let token = sample(g, logits, temp);
        proof {
            lemma_extends_transitive(start, before_sampling, *g);
        }
        Ok((token, next_hidden))
    }

    /// Drafts the tokens of a block after its first, which is `last_bonus`. The hidden states to
    /// start from have one position. It fails where the assistant does.
    pub fn draft_block(
        &self,
        g: &mut Graph,
        target_model: &Model,
        last_bonus: u32,
        block_size: usize,
        temp: F32,
    ) -> (r: Result<usize, Exception>)
        requires
            old(g).wf(),
            block_size > 1 ==> self.wf() && self.draft_fits(1)
                && target_model.model.language_model.embed_tokens.has_tables(),
        ensures
            final(g).wf(),
            final(g).extends(*old(g)),
            final(g).cache_updates() == old(g).cache_updates(),
            r is Err <==> block_size > 1 && self.draft_failure() is Some,
            r matches Err(e) ==> Some(e.what@) == self.draft_failure() && self.stops_with(
                1,
                draft_inputs(
                    *target_model,
                    self.drafted(*target_model, last_bonus, temp, old(g).draw_count(), 0),
                ),
                old(g).size(),
                *final(g),
            ),
            r matches Ok(out) ==> {
                let count = draft_count(block_size);
                let state = self.drafted(
                    *target_model,
                    last_bonus,
                    temp,
                    old(g).draw_count(),
                    count,
                );
                &&& out < final(g).size()
                &&& final(g).at(out) == block_of(state.tokens)
                &&& forall|id: usize|
                    old(g).size() <= id && #[trigger] final(g).is_pending(id) ==> id == out
                        || final(g).at(id) == state.hidden || (count == 0 && final(g).at(id)
                        == state.token) || self.may_go_unused(final(g).at(id))
                &&& final(g).draw_count() == old(g).draw_count() + count * draws_at(temp)
            },
    {
        let ghost start = *g;
        let ghost draw = g.draw_count();
        let mut token = g.leaf(Op::Input(Input::Token(last_bonus)));
        let mut hidden = g.leaf(Op::Input(Input::Hidden));
        let mut tokens: Vec<usize> = Vec::new();
        let rounds: usize = if block_size > 1 {
            block_size - 1
        } else {
            0
        };
        assert(tokens@.map_values(|id: usize| g.at(id)) =~= Seq::<Term>::empty());
        for round in 0..rounds
            invariant
                start == *old(g),
                draw == start.draw_count(),
                rounds == draft_count(block_size),
                rounds > 0 ==> self.wf() && self.draft_fits(1)
                    && target_model.model.language_model.embed_tokens.has_tables(),
                round > 0 ==> self.draft_failure() is None,
                g.wf(),
                g.extends(start),
                g.cache_updates() == start.cache_updates(),
                g.draw_count() == draw + round * draws_at(temp),
                token < g.size(),
                hidden < g.size(),
                tokens@.len() == round,
                round > 0 ==> tokens@.contains(token),
                forall|id: usize|
                    start.size() <= id && #[trigger] g.is_pending(id) ==> id == token || id
                        == hidden || tokens@.contains(id) || self.may_go_unused(g.at(id)),
                forall|k: int| 0 <= k < tokens@.len() ==> #[trigger] tokens@[k] < g.size(),
                ({
                    let state = self.drafted(*target_model, last_bonus, temp, draw, round as nat);
                    &&& g.at(token) == state.token
                    &&& g.at(hidden) == state.hidden
                    &&& tokens@.map_values(|id: usize| g.at(id)) == state.tokens
                }),
        {
            let ghost before = *g;
            let ghost state = self.drafted(*target_model, last_bonus, temp, draw, round as nat);
            match self.draft_token(g, target_model, token, hidden, temp) {
                Ok((next_token, next_hidden)) => {
                    token = next_token;
                    hidden = next_hidden;
                    let ghost listed = tokens@;
                    tokens.push(next_token);
                    proof {
                        assert(tokens@[round as int] == next_token);
                        assert forall|id: usize| listed.contains(id) implies tokens@.contains(
                            id,
                        ) by {
                            let k = choose|k: int| 0 <= k < listed.len() && listed[k] == id;
                            assert(tokens@[k] == id);
                        }
                        assert((round + 1) * draws_at(temp) == round * draws_at(temp) + draws_at(
                            temp,
                        )) by (nonlinear_arith);
                        assert(tokens@.map_values(|id: usize| g.at(id)) =~= listed.map_values(
                            |id: usize| before.at(id),
                        ).push(g.at(next_token)));
                    }
                },
                Err(e) => {
                    proof {
                        lemma_extends_transitive(start, before, *g);
                    }
                    return Err(e);
                },
            }
            proof {
                lemma_extends_transitive(start, before, *g);
            }
        }
        let ghost before = *g;
        let ghost drafted = tokens@.map_values(|id: usize| g.at(id));
        let out = if tokens.len() == 0 {
            g.leaf(Op::Input(Input::NoTokens))
        } else {
            g.variadic(Op::ConcatAxis1, tokens)
        };
        proof {
            lemma_extends_transitive(start, before, *g);
        }
        Ok(out)
    }
}

/// How many tokens a block holds beside its first.
pub open spec fn draft_count(block_size: usize) -> nat {
    if block_size > 1 {
        (block_size - 1) as nat
    } else {
        0
    }
}

/// The embedding that the target model gives a token.
pub open spec fn target_embedding(target: Model, token: Term) -> Term {
    app2(
        Op::Multiply,
        target.model.language_model.embed_tokens.output(
            ModuleRef::EmbedTokens { owner: Owner::Target },
            token,
        ),
        scalar(Scalar::Sqrt(target.args.hidden_size)),
    )
}

/// What the assistant is run on.
pub open spec fn draft_inputs(target: Model, state: DraftState) -> Term {
    app2(Op::ConcatLast, target_embedding(target, state.token), state.hidden)
}

/// The tokens of a block.
pub open spec fn block_of(tokens: Seq<Term>) -> Term {
    if tokens.len() == 0 {
        app0(Op::Input(Input::NoTokens))
    } else {
        Term { op: Op::ConcatAxis1, args: tokens }
    }
}

/// How the weights of an assistant are matched to its parameters.
pub open spec fn assistant_rules() -> LoadRules {
    LoadRules {
        unused_prefixes: Seq::empty(),
        missing_suffixes: seq![".bias"@, ".self_attn.k_norm.weight"@],
        missing_parts: seq![".self_attn.k_proj."@, ".self_attn.v_proj."@],
        strips: Seq::empty(),
        rewrites: Seq::empty(),
    }
}

/// How the weights of an assistant are matched to its parameters.
pub fn assistant_load_config() -> (r: StrictLoadConfig)
    ensures
        r@ == assistant_rules(),
{
    let r = StrictLoadConfig::default().allow_missing_suffix(".bias").allow_missing_contains(
        ".self_attn.k_proj.",
    ).allow_missing_contains(".self_attn.v_proj.").allow_missing_suffix(
        ".self_attn.k_norm.weight",
    );
    assert(r@ =~= assistant_rules());
    r
}

/// What it takes to load an assistant: the model, the files to read, one after the other, and
/// how their weights are matched to its parameters.
#[derive(Debug)]
pub struct AssistantLoadPlan {
    pub model: Gemma4AssistantDraftModel,
    pub files: Vec<String>,
    pub config: StrictLoadConfig,
}

/// What it takes to load the assistant that a configuration file and an optional index of weight
/// files describe. There is no plan where the widths of the assistant cannot be computed.
pub fn load_gemma4_assistant_model(
    config: Gemma4AssistantConfig,
    index: &Option<WeightMap>,
) -> (r: Option<AssistantLoadPlan>)
    ensures
        r is Some <==> config.fits(),
        r matches Some(plan) ==> {
            &&& plan.model.is_for(config)
            &&& plan.model.is_fresh()
            &&& plan.model.wf()
            &&& texts(plan.files@) == files_of(*index)
            &&& plan.config@ == assistant_rules()
        },
{
    if !config.can_build() {
        return None;
    }
    Some(
        AssistantLoadPlan {
            model: Gemma4AssistantDraftModel::new(config),
            files: weight_files(index),
            config: assistant_load_config(),
        },
    )
}

} // verus!
