//! The attention part of a layer.
use vstd::prelude::*;

use crate::error::Exception;
use crate::graph::{
    app1, app2, app3, app4, Axes, Dim, Graph, LayerPart, ModuleRef, Op, Owner, Shape, Term, F32,
};
use crate::models::args::{ArgsView, ModelArgs};
use crate::models::layer::LayerType;
use crate::models::modules::{
    layer_module, linear_of, maybe_quantized_linear, rms_norm_without_scale, rms_normalized,
    Linear, RmsNorm, Rope, RopeView,
};
use crate::models::rope::{clone_scaling, partial_rotary_dims, rotary_dims, ONE_BITS};

verus! {

/// The bit pattern of `1e-6`.
pub const VALUE_NORM_EPS_BITS: u32 = 0x3586_37bd;

/// The attention part of a layer.
#[derive(Debug)]
pub struct Attention {
    pub layer_idx: usize,
    pub n_heads: i32,
    pub n_kv_heads: i32,
    pub scale: F32,
    pub attention_k_eq_v: bool,
    pub layer_type: LayerType,
    pub is_kv_shared_layer: bool,
    pub store_full_length_kv: bool,
    pub q_proj: Linear,
    pub k_proj: Linear,
    pub v_proj: Linear,
    pub o_proj: Linear,
    pub q_norm: RmsNorm,
    pub k_norm: RmsNorm,
    pub rope: Rope,
}

impl Attention {
    /// The attention part is made like `other`.
    pub open spec fn is_copy_of(self, other: Attention) -> bool {
        &&& self.layer_idx == other.layer_idx
        &&& self.n_heads == other.n_heads
        &&& self.n_kv_heads == other.n_kv_heads
        &&& self.scale == other.scale
        &&& self.attention_k_eq_v == other.attention_k_eq_v
        &&& self.layer_type == other.layer_type
        &&& self.is_kv_shared_layer == other.is_kv_shared_layer
        &&& self.store_full_length_kv == other.store_full_length_kv
        &&& self.q_proj == other.q_proj
        &&& self.k_proj == other.k_proj
        &&& self.v_proj == other.v_proj
        &&& self.o_proj == other.o_proj
        &&& self.q_norm == other.q_norm
        &&& self.k_norm == other.k_norm
        &&& self.rope@ == other.rope@
    }
}

impl Clone for Attention {
    fn clone(&self) -> (r: Self)
        ensures
            r.is_copy_of(*self),
    {
        Attention {
            layer_idx: self.layer_idx,
            n_heads: self.n_heads,
            n_kv_heads: self.n_kv_heads,
            scale: self.scale,
            attention_k_eq_v: self.attention_k_eq_v,
            layer_type: self.layer_type,
            is_kv_shared_layer: self.is_kv_shared_layer,
            store_full_length_kv: self.store_full_length_kv,
            q_proj: self.q_proj,
            k_proj: self.k_proj,
            v_proj: self.v_proj,
            o_proj: self.o_proj,
            q_norm: self.q_norm,
            k_norm: self.k_norm,
            rope: self.rope.clone(),
        }
    }
}

impl ArgsView {
    /// The first of the layers that reuse the keys and values of earlier ones.
    pub open spec fn first_kv_shared_layer(self) -> int {
        self.num_hidden_layers - self.num_kv_shared_layers
    }

    /// The layer reuses the keys and values of an earlier one.
    pub open spec fn is_kv_shared_layer(self, layer_idx: usize) -> bool {
        self.num_kv_shared_layers > 0 && (layer_idx as i32) >= self.first_kv_shared_layer()
    }

    /// The layer is the last of its kind before the layers that reuse keys and values.
    pub open spec fn is_last_unshared(self, layer_type: LayerType, layer_idx: int) -> bool {
        &&& 0 <= layer_idx < self.first_kv_shared_layer()
        &&& self.layer_type(layer_idx) == layer_type
        &&& forall|later: int|
            layer_idx < later < self.first_kv_shared_layer() ==> #[trigger] self.layer_type(later)
                != layer_type
    }

    /// The layer keeps its keys and values for later ones.
    pub open spec fn stores_full_length_kv(self, layer_type: LayerType, layer_idx: usize) -> bool {
        &&& self.num_kv_shared_layers > 0
        &&& !self.is_kv_shared_layer(layer_idx)
        &&& self.is_last_unshared(layer_type, layer_idx as int)
    }

    /// The widths of the attention part can be computed.
    pub open spec fn attention_fits(self) -> bool {
        &&& i32::MIN <= self.first_kv_shared_layer() <= i32::MAX
        &&& i32::MIN <= self.num_attention_heads * self.head_dim <= i32::MAX
        &&& i32::MIN <= self.num_key_value_heads * self.head_dim <= i32::MAX
        &&& rotary_dims(self.head_dim, self.rope_scaling).is_valid()
    }

    /// A linear layer, quantized as the configuration says.
    pub open spec fn linear(self, input_dims: i32, output_dims: i32) -> Linear {
        linear_of(
            self.quantized,
            input_dims,
            output_dims,
            self.quantization_group_size,
            self.quantization_bits,
        )
    }

    /// A normalization with the configured `eps`.
    pub open spec fn rms_norm(self, dims: i32) -> RmsNorm {
        RmsNorm { dims, eps: self.rms_norm_eps }
    }
}

impl ModelArgs {
    /// Whether the widths of the attention part of a kind of layer can be computed.
    pub fn attention_fits(&self, layer_type: LayerType) -> (r: bool)
        ensures
            r == self@.for_layer(layer_type).attention_fits(),
    {
        let mut head_dim = self.head_dim;
        let mut kv_heads = self.num_key_value_heads;
        if layer_type == LayerType::FullAttention {
            if let Some(global_head_dim) = self.global_head_dim {
                head_dim = global_head_dim;
            }
            if let Some(global_kv_heads) = self.num_global_key_value_heads {
                kv_heads = global_kv_heads;
            }
        }
        let rotary = partial_rotary_dims(head_dim, &self.rope_scaling_for_layer(layer_type));
        self.num_hidden_layers.checked_sub(self.num_kv_shared_layers).is_some()
            && self.num_attention_heads.checked_mul(head_dim).is_some() && kv_heads.checked_mul(
            head_dim,
        ).is_some() && rotary.can_resolve()
    }
}

/// The keys and values that layers keep for later ones, by the kind of layer.
#[derive(Debug, Clone, Copy, PartialEq, Eq)]
pub struct SharedKv {
    pub sliding: Option<(usize, usize)>,
    pub full: Option<(usize, usize)>,
}

impl SharedKv {
    /// What is kept for a kind of layer.
    pub open spec fn ids(self, layer_type: LayerType) -> Option<(usize, usize)> {
        match layer_type {
            LayerType::SlidingAttention => self.sliding,
            LayerType::FullAttention => self.full,
        }
    }

    /// What is kept are nodes of `g`.
    pub open spec fn is_in(self, g: Graph) -> bool {
        forall|t: LayerType|
            #[trigger] self.ids(t) matches Some(kv) ==> kv.0 < g.size() && kv.1 < g.size()
    }

    /// What is kept, as what the nodes of `g` compute.
    pub open spec fn terms(self, g: Graph) -> Map<LayerType, (Term, Term)> {
        Map::new(
            |t: LayerType| self.ids(t) is Some,
            |t: LayerType|
                {
                    let kv = self.ids(t)->0;
                    (g.at(kv.0), g.at(kv.1))
                },
        )
    }

    /// Nothing kept.
    pub fn new() -> (r: SharedKv)
        ensures
            forall|t: LayerType| (#[trigger] r.ids(t)) is None,
            forall|g: Graph| #[trigger] r.is_in(g),
            forall|g: Graph|
                #[trigger] r.terms(g) == Map::<LayerType, (Term, Term)>::empty(),
    {
        let r = SharedKv { sliding: None, full: None };
        assert forall|g: Graph| #[trigger] r.terms(g) == Map::<LayerType, (Term, Term)>::empty() by {
            assert(r.terms(g) =~= Map::<LayerType, (Term, Term)>::empty());
        }
        r
    }

    /// The keys and values kept for a kind of layer.
    pub fn get(&self, layer_type: LayerType) -> (r: Option<(usize, usize)>)
        ensures
            r == self.ids(layer_type),
    {
        match layer_type {
            LayerType::SlidingAttention => self.sliding,
            LayerType::FullAttention => self.full,
        }
    }

    /// Keeps keys and values for a kind of layer.
    pub fn insert(self, layer_type: LayerType, keys: usize, values: usize) -> (r: SharedKv)
        ensures
            r.ids(layer_type) == Some((keys, values)),
            forall|t: LayerType| t != layer_type ==> #[trigger] r.ids(t) == self.ids(t),
    {
        match layer_type {
            LayerType::SlidingAttention => SharedKv { sliding: Some((keys, values)), ..self },
            LayerType::FullAttention => SharedKv { full: Some((keys, values)), ..self },
        }
    }
}

/// What a layer is run on.
#[derive(Debug, Clone, Copy, PartialEq, Eq)]
pub struct AttentionInput {
    /// The model that the layer belongs to.
    pub owner: Owner,
    pub x: usize,
    /// The length of axis 1 of `x`.
    pub seq_len: i32,
    pub mask: Option<usize>,
    /// The slot of the layer's cache.
    pub cache: Option<usize>,
    pub position_offset: i32,
    pub per_layer_input: Option<usize>,
    pub shared_kv: Option<SharedKv>,
    /// Sliding layers do not make a mask of their own.
    pub disable_generated_mask: bool,
}

/// What running a layer gives.
#[derive(Debug, Clone, Copy, PartialEq, Eq)]
pub struct AttentionOutput {
    pub out: usize,
    pub shared_kv: Option<SharedKv>,
}

/// An optional node of `g`.
pub open spec fn optional_in(id: Option<usize>, g: Graph) -> bool {
    id matches Some(id) ==> id < g.size()
}

/// An optional node as a set.
pub open spec fn optional_set(id: Option<usize>) -> Set<usize> {
    match id {
        Some(id) => set![id],
        None => Set::empty(),
    }
}

/// What an optional node computes.
pub open spec fn optional_term(id: Option<usize>, g: Graph) -> Option<Term> {
    match id {
        Some(id) => Some(g.at(id)),
        None => None,
    }
}

pub open spec fn shared_in(kv: Option<SharedKv>, g: Graph) -> bool {
    kv matches Some(kv) ==> kv.is_in(g)
}

pub open spec fn shared_terms(kv: Option<SharedKv>, g: Graph) -> Option<
    Map<LayerType, (Term, Term)>,
> {
    match kv {
        Some(kv) => Some(kv.terms(g)),
        None => None,
    }
}

impl AttentionInput {
    /// Everything that the layer is run on is in `g`.
    pub open spec fn is_in(self, g: Graph) -> bool {
        &&& self.x < g.size()
        &&& optional_in(self.mask, g)
        &&& optional_in(self.per_layer_input, g)
        &&& shared_in(self.shared_kv, g)
    }

    /// What the layer is run on, as what the nodes of `g` compute.
    pub open spec fn terms(self, g: Graph) -> LayerInput {
        LayerInput {
            owner: self.owner,
            x: g.at(self.x),
            seq_len: self.seq_len,
            mask: optional_term(self.mask, g),
            cache: self.cache,
            position_offset: self.position_offset,
            per_layer_input: optional_term(self.per_layer_input, g),
            shared_kv: shared_terms(self.shared_kv, g),
            disable_generated_mask: self.disable_generated_mask,
        }
    }
}

pub(crate) proof fn lemma_extends_transitive(a: Graph, b: Graph, c: Graph)
    requires
        b.extends(a),
        c.extends(b),
    ensures
        c.extends(a),
{
    assert forall|id: usize| id < a.size() implies #[trigger] c.at(id) == a.at(id) by {
        assert(b.at(id) == a.at(id));
    }
}

impl SharedKv {
    pub(crate) proof fn lemma_kept(self, before: Graph, after: Graph)
        requires
            self.is_in(before),
            after.extends(before),
        ensures
            self.is_in(after),
            self.terms(after) == self.terms(before),
    {
        assert(self.terms(after) =~= self.terms(before));
    }
}

impl AttentionInput {
    pub(crate) proof fn lemma_kept(self, before: Graph, after: Graph)
        requires
            self.is_in(before),
            after.extends(before),
        ensures
            self.is_in(after),
            self.terms(after) == self.terms(before),
    {
        if let Some(kv) = self.shared_kv {
            kv.lemma_kept(before, after);
        }
    }
}

/// What a layer is run on, as terms.
pub struct LayerInput {
    pub owner: Owner,
    pub x: Term,
    pub seq_len: i32,
    pub mask: Option<Term>,
    pub cache: Option<usize>,
    pub position_offset: i32,
    pub per_layer_input: Option<Term>,
    pub shared_kv: Option<Map<LayerType, (Term, Term)>>,
    pub disable_generated_mask: bool,
}

/// `x` split into heads, which come before the positions. `like` gives the first two axes.
pub open spec fn split_heads(x: Term, like: Term, heads: i32) -> Term {
    app2(
        Op::Reshape(Shape::Four(Dim::Like(0), Dim::Like(1), Dim::Fixed(heads), Dim::Rest)),
        x,
        like,
    )
}

pub open spec fn heads_first(x: Term) -> Term {
    app1(Op::Transpose(Axes::SwapMiddle), x)
}

impl Attention {
    pub open spec fn module(self, owner: Owner, part: LayerPart) -> ModuleRef {
        layer_module(owner, self.layer_idx, part)
    }

    pub open spec fn project(self, input: LayerInput, part: LayerPart, x: Term) -> Term {
        app1(Op::Forward(self.module(input.owner, part)), x)
    }

    pub open spec fn rotate(self, input: LayerInput, x: Term) -> Term {
        app1(
            Op::Rope {
                module: self.module(input.owner, LayerPart::Rope),
                offset: input.position_offset,
            },
            x,
        )
    }

    /// The queries.
    pub open spec fn queries(self, input: LayerInput) -> Term {
        let projected = self.project(input, LayerPart::QProj, input.x);
        let heads = heads_first(split_heads(projected, input.x, self.n_heads));
        self.rotate(input, self.project(input, LayerPart::QNorm, heads))
    }

    /// The keys of the input alone.
    pub open spec fn new_keys(self, input: LayerInput) -> Term {
        let projected = self.project(input, LayerPart::KProj, input.x);
        let heads = heads_first(split_heads(projected, input.x, self.n_kv_heads));
        self.rotate(input, self.project(input, LayerPart::KNorm, heads))
    }

    /// The values of the input alone.
    pub open spec fn new_values(self, input: LayerInput) -> Term {
        let part = if self.attention_k_eq_v {
            LayerPart::KProj
        } else {
            LayerPart::VProj
        };
        let projected = self.project(input, part, input.x);
        heads_first(
            rms_normalized(
                split_heads(projected, input.x, self.n_kv_heads),
                F32 { bits: VALUE_NORM_EPS_BITS },
            ),
        )
    }

    /// The cache update that the layer makes.
    pub open spec fn cache_update(self, input: LayerInput) -> Option<Term> {
        match input.cache {
            Some(slot) if !self.is_kv_shared_layer => Some(
                app2(Op::UpdateCache { slot }, self.new_keys(input), self.new_values(input)),
            ),
            _ => None,
        }
    }

    /// The keys and values that the layer attends to: those kept for its kind, if it reuses
    /// them, else its own, after those in its cache.
    pub open spec fn keys_and_values(self, input: LayerInput) -> Option<(Term, Term)> {
        if self.is_kv_shared_layer {
            match input.shared_kv {
                Some(kept) if kept.contains_key(self.layer_type) => Some(kept[self.layer_type]),
                _ => None,
            }
        } else {
            match self.cache_update(input) {
                Some(update) => Some(
                    (app1(Op::UpdatedKeys, update), app1(Op::UpdatedValues, update)),
                ),
                None => Some((self.new_keys(input), self.new_values(input))),
            }
        }
    }

    /// What is kept for later layers after this one.
    pub open spec fn shared_kv_after(self, input: LayerInput) -> Option<
        Map<LayerType, (Term, Term)>,
    > {
        match input.shared_kv {
            Some(kept) if !self.is_kv_shared_layer && self.store_full_length_kv => Some(
                kept.insert(self.layer_type, self.keys_and_values(input)->0),
            ),
            other => other,
        }
    }

    /// The queries' look at keys and values.
    pub open spec fn attended(self, input: LayerInput) -> Term {
        let (keys, values) = self.keys_and_values(input)->0;
        let op = Op::Attention {
            scale: self.scale,
            cache: if self.is_kv_shared_layer {
                None
            } else {
                input.cache
            },
        };
        match input.mask {
            Some(mask) => app4(op, self.queries(input), keys, values, mask),
            None => app3(op, self.queries(input), keys, values),
        }
    }

    /// The nodes that the attention part takes.
    pub open spec fn used(self, input: AttentionInput) -> Set<usize> {
        let kept = match input.shared_kv {
            Some(kv) if self.is_kv_shared_layer && kv.ids(self.layer_type) is Some => {
                let ids = kv.ids(self.layer_type)->0;
                set![ids.0, ids.1]
            },
            _ => Set::empty(),
        };
        set![input.x].union(optional_set(input.mask)).union(kept)
    }

    /// What the attention part computes.
    pub open spec fn output(self, input: LayerInput) -> Term {
        self.project(
            input,
            LayerPart::OProj,
            app2(
                Op::Reshape(Shape::Three(Dim::Like(0), Dim::Like(1), Dim::Rest)),
                heads_first(self.attended(input)),
                input.x,
            ),
        )
    }

    /// The attention part of the layer `layer_idx`, as `args` configure it.
    pub open spec fn is_for(self, args: ArgsView, layer_type: LayerType, layer_idx: usize) -> bool {
        let q_dims = (args.num_attention_heads * args.head_dim) as i32;
        let kv_dims = (args.num_key_value_heads * args.head_dim) as i32;
        &&& self.layer_idx == layer_idx
        &&& self.n_heads == args.num_attention_heads
        &&& self.n_kv_heads == args.num_key_value_heads
        &&& self.scale == F32 { bits: ONE_BITS }
        &&& self.attention_k_eq_v == (args.attention_k_eq_v && layer_type
            == LayerType::FullAttention)
        &&& self.layer_type == layer_type
        &&& self.is_kv_shared_layer == args.is_kv_shared_layer(layer_idx)
        &&& self.store_full_length_kv == args.stores_full_length_kv(layer_type, layer_idx)
        &&& self.q_proj == args.linear(args.hidden_size, q_dims)
        &&& self.k_proj == args.linear(args.hidden_size, kv_dims)
        &&& self.v_proj == args.linear(
            args.hidden_size,
            if self.attention_k_eq_v {
                args.hidden_size
            } else {
                kv_dims
            },
        )
        &&& self.o_proj == args.linear(q_dims, args.hidden_size)
        &&& self.q_norm == args.rms_norm(args.head_dim)
        &&& self.k_norm == args.rms_norm(args.head_dim)
        &&& self.rope@ == RopeView {
            dims: rotary_dims(args.head_dim, args.rope_scaling),
            theta: args.rope_theta,
            traditional: false,
            scaling: args.rope_scaling,
            max_position_embeddings: args.max_position_embeddings,
        }
    }

    /// The attention part of the layer `layer_idx`, of the given kind, as `args` configure it.
    pub fn new(args: &ModelArgs, layer_type: LayerType, layer_idx: usize) -> (r: Self)
        requires
            args@.attention_fits(),
        ensures
            r.is_for(args@, layer_type, layer_idx),
    {
        let dim = args.hidden_size;
        let n_heads = args.num_attention_heads;
        let n_kv_heads = args.num_key_value_heads;
        let head_dim = args.head_dim;
        let attention_k_eq_v = args.attention_k_eq_v && layer_type == LayerType::FullAttention;
        let first_kv_shared_layer_idx = args.num_hidden_layers - args.num_kv_shared_layers;
        let is_kv_shared_layer = args.num_kv_shared_layers > 0 && layer_idx as i32
            >= first_kv_shared_layer_idx;
        let store_full_length_kv = if args.num_kv_shared_layers > 0 && !is_kv_shared_layer {
            is_last_before(args, layer_type, layer_idx, first_kv_shared_layer_idx)
        } else {
            false
        };
        let q_dims = n_heads * head_dim;
        let kv_dims = n_kv_heads * head_dim;
        let quantized = args.quantized;
        let group_size = args.quantization_group_size;
        let bits = args.quantization_bits;
        let v_dims = if attention_k_eq_v {
            dim
        } else {
            kv_dims
        };
        Attention {
            layer_idx,
            n_heads,
            n_kv_heads,
            scale: F32 { bits: ONE_BITS },
            attention_k_eq_v,
            layer_type,
            is_kv_shared_layer,
            store_full_length_kv,
            q_proj: maybe_quantized_linear(quantized, dim, q_dims, group_size, bits),
            k_proj: maybe_quantized_linear(quantized, dim, kv_dims, group_size, bits),
            v_proj: maybe_quantized_linear(quantized, dim, v_dims, group_size, bits),
            o_proj: maybe_quantized_linear(quantized, q_dims, dim, group_size, bits),
            q_norm: RmsNorm { dims: head_dim, eps: args.rms_norm_eps },
            k_norm: RmsNorm { dims: head_dim, eps: args.rms_norm_eps },
            rope: Rope {
                dims: partial_rotary_dims(head_dim, &args.rope_scaling),
                theta: args.rope_theta,
                traditional: false,
                scaling: clone_scaling(&args.rope_scaling),
                max_position_embeddings: args.max_position_embeddings,
            },
        }
    }

    fn split(&self, g: &mut Graph, x: usize, like: usize, heads: i32) -> (r: usize)
        requires
            old(g).wf(),
            x < old(g).size(),
            like < old(g).size(),
        ensures
            final(g).extends_plainly(*old(g)),
            r < final(g).size(),
            final(g).at(r) == split_heads(old(g).at(x), old(g).at(like), heads),
            final(g).settles(*old(g), set![x, like], set![r]),
    {
        g.binary(
            Op::Reshape(Shape::Four(Dim::Like(0), Dim::Like(1), Dim::Fixed(heads), Dim::Rest)),
            x,
            like,
        )
    }

    fn apply(&self, g: &mut Graph, owner: Owner, part: LayerPart, x: usize) -> (r: usize)
        requires
            old(g).wf(),
            x < old(g).size(),
        ensures
            final(g).extends_plainly(*old(g)),
            r < final(g).size(),
            final(g).at(r) == app1(Op::Forward(self.module(owner, part)), old(g).at(x)),
            final(g).settles(*old(g), set![x], set![r]),
    {
        g.unary(Op::Forward(ModuleRef::Layer { owner, index: self.layer_idx, part }), x)
    }

    fn apply_rope(&self, g: &mut Graph, owner: Owner, offset: i32, x: usize) -> (r: usize)
        requires
            old(g).wf(),
            x < old(g).size(),
        ensures
            final(g).extends_plainly(*old(g)),
            r < final(g).size(),
            final(g).at(r) == app1(
                Op::Rope { module: self.module(owner, LayerPart::Rope), offset },
                old(g).at(x),
            ),
            final(g).settles(*old(g), set![x], set![r]),
    {
        let module = ModuleRef::Layer { owner, index: self.layer_idx, part: LayerPart::Rope };
        g.unary(Op::Rope { module, offset }, x)
    }

    fn build_queries(&self, g: &mut Graph, input: &AttentionInput) -> (r: usize)
        requires
            old(g).wf(),
            input.is_in(*old(g)),
        ensures
            final(g).extends_plainly(*old(g)),
            r < final(g).size(),
            final(g).at(r) == self.queries(input.terms(*old(g))),
            final(g).settles(*old(g), set![input.x], set![r]),
    {
        let projected = self.apply(g, input.owner, LayerPart::QProj, input.x);
        let split = self.split(g, projected, input.x, self.n_heads);
        let heads = g.unary(Op::Transpose(Axes::SwapMiddle), split);
        let normalized = self.apply(g, input.owner, LayerPart::QNorm, heads);
        self.apply_rope(g, input.owner, input.position_offset, normalized)
    }

    fn build_keys_and_values(&self, g: &mut Graph, input: &AttentionInput) -> (r: (usize, usize))
        requires
            old(g).wf(),
            input.is_in(*old(g)),
        ensures
            final(g).extends_plainly(*old(g)),
            r.0 < final(g).size(),
            r.1 < final(g).size(),
            final(g).at(r.0) == self.new_keys(input.terms(*old(g))),
            final(g).at(r.1) == self.new_values(input.terms(*old(g))),
            final(g).settles(*old(g), set![input.x], set![r.0, r.1]),
    {
        let owner = input.owner;
        let projected = self.apply(g, owner, LayerPart::KProj, input.x);
        let raw_values = if self.attention_k_eq_v {
            projected
        } else {
            self.apply(g, owner, LayerPart::VProj, input.x)
        };
        let split = self.split(g, projected, input.x, self.n_kv_heads);
        let heads = g.unary(Op::Transpose(Axes::SwapMiddle), split);
        let normalized = self.apply(g, owner, LayerPart::KNorm, heads);
        let split_values = self.split(g, raw_values, input.x, self.n_kv_heads);
        let eps = F32 { bits: VALUE_NORM_EPS_BITS };
        let scaled_values = rms_norm_without_scale(g, split_values, eps);
        let values = g.unary(Op::Transpose(Axes::SwapMiddle), scaled_values);
        let keys = self.apply_rope(g, owner, input.position_offset, normalized);
        (keys, values)
    }

    fn find_keys_and_values(&self, g: &mut Graph, input: &AttentionInput) -> (r: Result<
        (usize, usize),
        Exception,
    >)
        requires
            old(g).wf(),
            input.is_in(*old(g)),
        ensures
            final(g).wf(),
            final(g).extends(*old(g)),
            final(g).draw_count() == old(g).draw_count(),
            r is Err <==> self.keys_and_values(input.terms(*old(g))) is None,
            r matches Err(e) ==> e.what@ == "missing shared Gemma 4 KV states"@
                && final(g).cache_updates() == old(g).cache_updates() && final(g).settles(
                *old(g),
                Set::empty(),
                Set::empty(),
            ),
            r matches Ok(kv) ==> {
                &&& if self.is_kv_shared_layer {
                    &&& kv == input.shared_kv->0.ids(self.layer_type)->0
                    &&& final(g).settles(*old(g), Set::empty(), Set::empty())
                } else {
                    final(g).settles(*old(g), set![input.x], set![kv.0, kv.1])
                }
                &&& kv.0 < final(g).size()
                &&& kv.1 < final(g).size()
                &&& (final(g).at(kv.0), final(g).at(kv.1)) == self.keys_and_values(
                    input.terms(*old(g)),
                )->0
                &&& final(g).cache_updates() == (match self.cache_update(input.terms(*old(g))) {
                    Some(update) => old(g).cache_updates().push(update),
                    None => old(g).cache_updates(),
                })
            },
    {
        if self.is_kv_shared_layer {
            let kept = match input.shared_kv {
                Some(kept) => kept.get(self.layer_type),
                None => None,
            };
            match kept {
                Some(kv) => Ok(kv),
                None => Err(Exception::custom("missing shared Gemma 4 KV states")),
            }
        } else {
            let (new_keys, new_values) = self.build_keys_and_values(g, input);
            match input.cache {
                Some(slot) => {
                    let update = g.update_cache(slot, new_keys, new_values);
                    let keys = g.unary(Op::UpdatedKeys, update);
                    let values = g.unary(Op::UpdatedValues, update);
                    Ok((keys, values))
                },
                None => Ok((new_keys, new_values)),
            }
        }
    }

    fn attend(
        &self,
        g: &mut Graph,
        input: &AttentionInput,
        queries: usize,
        keys: usize,
        values: usize,
    ) -> (r: usize)
        requires
            old(g).wf(),
            input.is_in(*old(g)),
            queries < old(g).size(),
            keys < old(g).size(),
            values < old(g).size(),
            old(g).at(queries) == self.queries(input.terms(*old(g))),
            self.keys_and_values(input.terms(*old(g))) == Some(
                (old(g).at(keys), old(g).at(values)),
            ),
        ensures
            final(g).extends_plainly(*old(g)),
            r < final(g).size(),
            final(g).at(r) == self.output(input.terms(*old(g))),
            final(g).settles(
                *old(g),
                set![queries, keys, values, input.x].union(optional_set(input.mask)),
                set![r],
            ),
    {
        let op = Op::Attention {
            scale: self.scale,
            cache: if self.is_kv_shared_layer {
                None
            } else {
                input.cache
            },
        };
        let attended = match input.mask {
            Some(mask) => g.quaternary(op, queries, keys, values, mask),
            None => g.ternary(op, queries, keys, values),
        };
        let positions_first = g.unary(Op::Transpose(Axes::SwapMiddle), attended);
        let joined = g.binary(
            Op::Reshape(Shape::Three(Dim::Like(0), Dim::Like(1), Dim::Rest)),
            positions_first,
            input.x,
        );
        self.apply(g, input.owner, LayerPart::OProj, joined)
    }

    proof fn lemma_settled(
        self,
        input: AttentionInput,
        start: Graph,
        mid: Graph,
        found: Graph,
        end: Graph,
        queries: usize,
        keys: usize,
        values: usize,
        out: usize,
    )
        requires
            start.size() <= mid.size() <= found.size(),
            mid.settles(start, set![input.x], set![queries]),
            if self.is_kv_shared_layer {
                &&& input.shared_kv is Some
                &&& input.shared_kv->0.ids(self.layer_type) == Some((keys, values))
                &&& found.settles(mid, Set::empty(), Set::empty())
            } else {
                found.settles(mid, set![input.x], set![keys, values])
            },
            end.settles(
                found,
                set![queries, keys, values, input.x].union(optional_set(input.mask)),
                set![out],
            ),
        ensures
            end.settles(start, self.used(input), set![out]),
    {
        assert forall|id: usize| #[trigger] end.is_pending(id) <==> set![out].contains(id) || (
        start.is_pending(id) && !self.used(input).contains(id)) by {
            assert(mid.is_pending(id) <==> id == queries || (start.is_pending(id) && id
                != input.x));
        }
    }

    /// Runs the attention part. Layers that reuse keys and values fail where none are kept for
    /// their kind.
    pub fn forward(&self, g: &mut Graph, input: AttentionInput) -> (r: Result<
        AttentionOutput,
        Exception,
    >)
        requires
            old(g).wf(),
            input.is_in(*old(g)),
        ensures
            final(g).wf(),
            final(g).extends(*old(g)),
            final(g).draw_count() == old(g).draw_count(),
            r is Err <==> self.keys_and_values(input.terms(*old(g))) is None,
            r matches Err(e) ==> e.what@ == "missing shared Gemma 4 KV states"@
                && final(g).cache_updates() == old(g).cache_updates() && exists|queries: usize| #[trigger]
                final(g).at(queries) == self.queries(input.terms(*old(g))) && final(g).settles(
                    *old(g),
                    set![input.x],
                    set![queries],
                ),
            r matches Ok(result) ==> {
                &&& final(g).settles(*old(g), self.used(input), set![result.out])
                &&& result.out < final(g).size()
                &&& final(g).at(result.out) == self.output(input.terms(*old(g)))
                &&& shared_in(result.shared_kv, *final(g))
                &&& shared_terms(result.shared_kv, *final(g)) == self.shared_kv_after(
                    input.terms(*old(g)),
                )
                &&& final(g).cache_updates() == (match self.cache_update(input.terms(*old(g))) {
                    Some(update) => old(g).cache_updates().push(update),
                    None => old(g).cache_updates(),
                })
            },
    {
        let ghost start = *g;
        let ghost given = input.terms(*g);
        let queries = self.build_queries(g, &input);
        proof {
            input.lemma_kept(start, *g);
        }
        let ghost mid = *g;
        let (keys, values) = match self.find_keys_and_values(g, &input) {
            Ok(kv) => kv,
            Err(e) => {
                proof {
                    lemma_extends_transitive(start, mid, *g);
                }
                return Err(e);
            },
        };
        proof {
            input.lemma_kept(mid, *g);
            lemma_extends_transitive(start, mid, *g);
        }
        let ghost found = *g;
        let out = self.attend(g, &input, queries, keys, values);
        let mut shared_kv = input.shared_kv;
        if !self.is_kv_shared_layer && self.store_full_length_kv {
            if let Some(kept) = input.shared_kv {
                shared_kv = Some(kept.insert(self.layer_type, keys, values));
            }
        }
        proof {
            input.lemma_kept(found, *g);
            lemma_extends_transitive(start, found, *g);
            if let Some(kept) = shared_kv {
                assert(kept.terms(*g) =~= self.shared_kv_after(given)->0);
            }
            self.lemma_settled(input, start, mid, found, *g, queries, keys, values, out);
        }
        Ok(AttentionOutput { out, shared_kv })
    }

    /// The modules that a change of training mode is passed on to, each with the new mode.
    pub fn training_mode(&self, owner: Owner, mode: bool) -> (r: Vec<(ModuleRef, bool)>)
        ensures
            r@ == attention_modes(owner, self.layer_idx, mode),
    {
        let index = self.layer_idx;
        let r: Vec<(ModuleRef, bool)> = vec![
            (ModuleRef::Layer { owner, index, part: LayerPart::QProj }, mode),
            (ModuleRef::Layer { owner, index, part: LayerPart::KProj }, mode),
            (ModuleRef::Layer { owner, index, part: LayerPart::VProj }, mode),
            (ModuleRef::Layer { owner, index, part: LayerPart::OProj }, mode),
            (ModuleRef::Layer { owner, index, part: LayerPart::QNorm }, mode),
            (ModuleRef::Layer { owner, index, part: LayerPart::KNorm }, mode),
            (ModuleRef::Layer { owner, index, part: LayerPart::Rope }, mode),
        ];
        assert(r@ =~= attention_modes(owner, index, mode));
        r
    }
}

pub open spec fn attention_modes(owner: Owner, index: usize, mode: bool) -> Seq<(ModuleRef, bool)> {
    seq![
        (layer_module(owner, index, LayerPart::QProj), mode),
        (layer_module(owner, index, LayerPart::KProj), mode),
        (layer_module(owner, index, LayerPart::VProj), mode),
        (layer_module(owner, index, LayerPart::OProj), mode),
        (layer_module(owner, index, LayerPart::QNorm), mode),
        (layer_module(owner, index, LayerPart::KNorm), mode),
        (layer_module(owner, index, LayerPart::Rope), mode),
    ]
}

/// Whether `layer_idx` is the last layer of its kind before the layer `end`.
fn is_last_before(args: &ModelArgs, layer_type: LayerType, layer_idx: usize, end: i32) -> (r: bool)
    requires
        end == args@.first_kv_shared_layer(),
    ensures
        r == args@.is_last_unshared(layer_type, layer_idx as int),
{
    let mut index: usize = if end > 0 {
        end as usize
    } else {
        0
    };
    while index > 0
        invariant
            end == args@.first_kv_shared_layer(),
            end > 0 ==> index <= end,
            end <= 0 ==> index == 0,
            forall|later: int|
                index <= later < end ==> #[trigger] args@.layer_type(later) != layer_type,
        decreases index,
    {
        index = index - 1;
        if args.layer_type(index) == layer_type {
            assert(args@.layer_type(index as int) == layer_type);
            return index == layer_idx;
        }
    }
    false
}

} // verus!
