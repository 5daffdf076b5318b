//! A transformer layer.
use vstd::prelude::*;

use crate::error::Exception;
use crate::graph::{app1, app2, Graph, LayerPart, ModuleRef, Op, Owner, ParamKind, Term};
use crate::models::args::{ArgsView, ModelArgs};
use crate::models::attention::{
    attention_modes, lemma_extends_transitive, optional_set, shared_in, shared_terms, Attention,
    AttentionInput, AttentionOutput, LayerInput,
};
use crate::models::layer::LayerType;
use crate::models::modules::{
    layer_module, maybe_quantized_linear, mlp_modes, mlp_output, param, Linear, Mlp,
    RmsNorm,
};

verus! {

/// A vector of ones.
#[derive(Debug, Clone, Copy, PartialEq, Eq, Structural)]
pub struct Ones {
    pub len: i32,
}

/// A transformer layer.
#[derive(Debug)]
pub struct TransformerBlock {
    pub num_attention_heads: i32,
    pub hidden_size: i32,
    pub layer_type: LayerType,
    pub sliding_window: Option<i32>,
    pub self_attn: Attention,
    pub mlp: Mlp,
    pub per_layer_input_gate: Option<Linear>,
    pub per_layer_projection: Option<Linear>,
    pub post_per_layer_input_norm: Option<RmsNorm>,
    pub input_layernorm: RmsNorm,
    pub post_attention_layernorm: RmsNorm,
    pub pre_feedforward_layernorm: RmsNorm,
    pub post_feedforward_layernorm: RmsNorm,
    pub layer_scalar: Ones,
}

impl TransformerBlock {
    /// The layer is made like `other`.
    pub open spec fn is_copy_of(self, other: TransformerBlock) -> bool {
        &&& self.num_attention_heads == other.num_attention_heads
        &&& self.hidden_size == other.hidden_size
        &&& self.layer_type == other.layer_type
        &&& self.sliding_window == other.sliding_window
        &&& self.self_attn.is_copy_of(other.self_attn)
        &&& self.mlp == other.mlp
        &&& self.per_layer_input_gate == other.per_layer_input_gate
        &&& self.per_layer_projection == other.per_layer_projection
        &&& self.post_per_layer_input_norm == other.post_per_layer_input_norm
        &&& self.input_layernorm == other.input_layernorm
        &&& self.post_attention_layernorm == other.post_attention_layernorm
        &&& self.pre_feedforward_layernorm == other.pre_feedforward_layernorm
        &&& self.post_feedforward_layernorm == other.post_feedforward_layernorm
        &&& self.layer_scalar == other.layer_scalar
    }
}

impl Clone for TransformerBlock {
    fn clone(&self) -> (r: Self)
        ensures
            r.is_copy_of(*self),
    {
        TransformerBlock {
            num_attention_heads: self.num_attention_heads,
            hidden_size: self.hidden_size,
            layer_type: self.layer_type,
            sliding_window: self.sliding_window,
            self_attn: self.self_attn.clone(),
            mlp: self.mlp,
            per_layer_input_gate: self.per_layer_input_gate,
            per_layer_projection: self.per_layer_projection,
            post_per_layer_input_norm: self.post_per_layer_input_norm,
            input_layernorm: self.input_layernorm,
            post_attention_layernorm: self.post_attention_layernorm,
            pre_feedforward_layernorm: self.pre_feedforward_layernorm,
            post_feedforward_layernorm: self.post_feedforward_layernorm,
            layer_scalar: self.layer_scalar,
        }
    }
}

/// The layers of `copy` are made like those of `layers`.
pub open spec fn are_copies(copy: Seq<TransformerBlock>, layers: Seq<TransformerBlock>) -> bool {
    &&& copy.len() == layers.len()
    &&& forall|i: int| 0 <= i < layers.len() ==> (#[trigger] copy[i]).is_copy_of(layers[i])
}

pub(crate) fn clone_layers(layers: &Vec<TransformerBlock>) -> (r: Vec<TransformerBlock>)
    ensures
        are_copies(r@, layers@),
{
    let mut r: Vec<TransformerBlock> = Vec::new();
    for i in 0..layers.len()
        invariant
            r@.len() == i,
            forall|j: int| 0 <= j < i ==> (#[trigger] r@[j]).is_copy_of(layers@[j]),
    {
        r.push(layers[i].clone());
    }
    r
}

impl ArgsView {
    /// The feed-forward part of a layer.
    pub open spec fn mlp(self) -> Mlp {
        Mlp {
            gate_proj: self.linear(self.hidden_size, self.intermediate_size),
            down_proj: self.linear(self.intermediate_size, self.hidden_size),
            up_proj: self.linear(self.hidden_size, self.intermediate_size),
        }
    }

    /// `value` where the model has per-layer inputs.
    pub open spec fn if_per_layer_inputs<T>(self, value: T) -> Option<T> {
        if self.hidden_size_per_layer_input > 0 {
            Some(value)
        } else {
            None
        }
    }
}

impl TransformerBlock {
    /// The layer `layer_idx`, of the given kind, as `args` configure it.
    pub open spec fn is_for(self, args: ArgsView, layer_type: LayerType, layer_idx: usize) -> bool {
        &&& self.num_attention_heads == args.num_attention_heads
        &&& self.hidden_size == args.hidden_size
        &&& self.layer_type == layer_type
        &&& self.sliding_window == args.sliding_window
        &&& self.self_attn.is_for(args.for_layer(layer_type), layer_type, layer_idx)
        &&& self.mlp == args.mlp()
        &&& self.per_layer_input_gate == args.if_per_layer_inputs(
            args.linear(args.hidden_size, args.hidden_size_per_layer_input),
        )
        &&& self.per_layer_projection == args.if_per_layer_inputs(
            args.linear(args.hidden_size_per_layer_input, args.hidden_size),
        )
        &&& self.post_per_layer_input_norm == args.if_per_layer_inputs(
            args.rms_norm(args.hidden_size),
        )
        &&& self.input_layernorm == args.rms_norm(args.hidden_size)
        &&& self.post_attention_layernorm == args.rms_norm(args.hidden_size)
        &&& self.pre_feedforward_layernorm == args.rms_norm(args.hidden_size)
        &&& self.post_feedforward_layernorm == args.rms_norm(args.hidden_size)
        &&& self.layer_scalar == Ones { len: 1 }
    }

    /// The layer `layer_idx`, of the given kind, as `args` configure it.
    pub fn new(args: &ModelArgs, layer_type: LayerType, layer_idx: usize) -> (r: Self)
        requires
            args@.for_layer(layer_type).attention_fits(),
        ensures
            r.is_for(args@, layer_type, layer_idx),
    {
        let layer_args = args.for_layer(layer_type);
        let self_attn = Attention::new(&layer_args, layer_type, layer_idx);
        let quantized = args.quantized;
        let group_size = args.quantization_group_size;
        let bits = args.quantization_bits;
        let mlp = Mlp::new(args.hidden_size, args.intermediate_size, quantized, group_size, bits);
        let norm = RmsNorm { dims: args.hidden_size, eps: args.rms_norm_eps };
        let ple_dim = args.hidden_size_per_layer_input;
        let per_layer_input_gate = if ple_dim > 0 {
            Some(maybe_quantized_linear(quantized, args.hidden_size, ple_dim, group_size, bits))
        } else {
            None
        };
        let per_layer_projection = if ple_dim > 0 {
            Some(maybe_quantized_linear(quantized, ple_dim, args.hidden_size, group_size, bits))
        } else {
            None
        };
        let post_per_layer_input_norm = if ple_dim > 0 {
            Some(norm)
        } else {
            None
        };
        TransformerBlock {
            num_attention_heads: layer_args.num_attention_heads,
            hidden_size: layer_args.hidden_size,
            layer_type,
            sliding_window: args.sliding_window,
            self_attn,
            mlp,
            per_layer_input_gate,
            per_layer_projection,
            post_per_layer_input_norm,
            input_layernorm: norm,
            post_attention_layernorm: norm,
            pre_feedforward_layernorm: norm,
            post_feedforward_layernorm: norm,
            layer_scalar: Ones { len: 1 },
        }
    }

    pub open spec fn module(self, owner: Owner, part: LayerPart) -> ModuleRef {
        layer_module(owner, self.self_attn.layer_idx, part)
    }

    pub open spec fn apply_part(self, owner: Owner, part: LayerPart, x: Term) -> Term {
        app1(Op::Forward(self.module(owner, part)), x)
    }

    /// A sliding layer makes a mask for itself.
    pub open spec fn makes_mask(self, input: AttentionInput) -> bool {
        !input.disable_generated_mask && self.layer_type == LayerType::SlidingAttention && (
        input.seq_len > 1 || self.sliding_window is Some)
    }

    /// The nodes that the layer takes.
    pub open spec fn used(self, input: AttentionInput) -> Set<usize> {
        let mask = if self.makes_mask(input) {
            None
        } else {
            input.mask
        };
        let given = if self.takes_per_layer_input() {
            input.per_layer_input
        } else {
            None
        };
        self.self_attn.used(AttentionInput { mask, ..input }).union(optional_set(given))
    }

    /// What a layer that cannot run has computed and nothing takes: queries, and the mask that it
    /// made.
    pub open spec fn is_left_over(self, input: LayerInput, term: Term) -> bool {
        term == self.self_attn.queries(self.attention_input(input)) || Some(term)
            == self.generated_mask(input)
    }

    /// The mask that a sliding layer makes for itself.
    pub open spec fn generated_mask(self, input: LayerInput) -> Option<Term> {
        if !input.disable_generated_mask && self.layer_type == LayerType::SlidingAttention && (
        input.seq_len > 1 || self.sliding_window is Some) {
            Some(
                app1(
                    Op::CausalMask {
                        past: Some(input.position_offset),
                        window: self.sliding_window,
                    },
                    input.x,
                ),
            )
        } else {
            None
        }
    }

    /// What the attention part is run on.
    pub open spec fn attention_input(self, input: LayerInput) -> LayerInput {
        LayerInput {
            x: self.apply_part(input.owner, LayerPart::InputLayernorm, input.x),
            mask: match self.generated_mask(input) {
                Some(mask) => Some(mask),
                None => input.mask,
            },
            per_layer_input: None,
            ..input
        }
    }

    /// The input, with what the attention part makes of it added.
    pub open spec fn after_attention(self, input: LayerInput) -> Term {
        app2(
            Op::Add,
            input.x,
            self.apply_part(
                input.owner,
                LayerPart::PostAttentionLayernorm,
                self.self_attn.output(self.attention_input(input)),
            ),
        )
    }

    /// `h`, with what the feed-forward part makes of it added.
    pub open spec fn after_mlp(self, owner: Owner, h: Term) -> Term {
        let r = mlp_output(
            owner,
            self.self_attn.layer_idx,
            self.apply_part(owner, LayerPart::PreFeedforwardLayernorm, h),
        );
        app2(Op::Add, h, self.apply_part(owner, LayerPart::PostFeedforwardLayernorm, r))
    }

    /// The layer takes per-layer inputs.
    pub open spec fn takes_per_layer_input(self) -> bool {
        &&& self.per_layer_input_gate is Some
        &&& self.per_layer_projection is Some
        &&& self.post_per_layer_input_norm is Some
    }

    /// `h`, with the gated per-layer input added.
    pub open spec fn after_per_layer_input(
        self,
        owner: Owner,
        h: Term,
        per_layer_input: Option<Term>,
    ) -> Term {
        match per_layer_input {
            Some(given) if self.takes_per_layer_input() => {
                let gate = self.apply_part(owner, LayerPart::PerLayerInputGate, h);
                let gated = app2(Op::Multiply, app1(Op::GeluApproximate, gate), given);
                let projected = self.apply_part(owner, LayerPart::PerLayerProjection, gated);
                app2(
                    Op::Add,
                    h,
                    self.apply_part(owner, LayerPart::PostPerLayerInputNorm, projected),
                )
            },
            _ => h,
        }
    }

    /// `x`, multiplied by the layer's factor.
    pub open spec fn scaled(self, owner: Owner, x: Term) -> Term {
        app2(
            Op::Multiply,
            x,
            param(self.module(owner, LayerPart::LayerScalar), ParamKind::Weight),
        )
    }

    /// What the layer computes.
    pub open spec fn output(self, input: LayerInput) -> Term {
        let h = self.after_mlp(input.owner, self.after_attention(input));
        self.scaled(
            input.owner,
            self.after_per_layer_input(input.owner, h, input.per_layer_input),
        )
    }

    /// The layer has the keys and values that it attends to.
    pub open spec fn can_run(self, input: LayerInput) -> bool {
        self.self_attn.keys_and_values(self.attention_input(input)) is Some
    }

    /// The cache update that the layer makes.
    pub open spec fn cache_update(self, input: LayerInput) -> Option<Term> {
        self.self_attn.cache_update(self.attention_input(input))
    }

    /// What is kept for later layers after this one.
    pub open spec fn shared_kv_after(self, input: LayerInput) -> Option<
        Map<LayerType, (Term, Term)>,
    > {
        self.self_attn.shared_kv_after(self.attention_input(input))
    }

    fn apply(&self, g: &mut Graph, owner: Owner, part: LayerPart, x: usize) -> (r: usize)
        requires
            old(g).wf(),
            x < old(g).size(),
        ensures
            final(g).extends_plainly(*old(g)),
            r < final(g).size(),
            final(g).at(r) == self.apply_part(owner, part, old(g).at(x)),
            final(g).settles(*old(g), set![x], set![r]),
    {
        let index = self.self_attn.layer_idx;
        g.unary(Op::Forward(ModuleRef::Layer { owner, index, part }), x)
    }

    /// Multiplies `x` by the layer's factor.
    pub fn apply_layer_scalar(&self, g: &mut Graph, owner: Owner, x: usize) -> (r: usize)
        requires
            old(g).wf(),
            x < old(g).size(),
        ensures
            final(g).extends_plainly(*old(g)),
            r < final(g).size(),
            final(g).at(r) == self.scaled(owner, old(g).at(x)),
            final(g).settles(*old(g), set![x], set![r]),
    {
        let index = self.self_attn.layer_idx;
        let module = ModuleRef::Layer { owner, index, part: LayerPart::LayerScalar };
        let scalar = g.leaf(Op::Param { module, kind: ParamKind::Weight });
        g.binary(Op::Multiply, x, scalar)
    }

    fn build_attention_input(&self, g: &mut Graph, input: &AttentionInput) -> (r: AttentionInput)
        requires
            old(g).wf(),
            input.is_in(*old(g)),
        ensures
            final(g).extends_plainly(*old(g)),
            r.is_in(*final(g)),
            r.terms(*final(g)) == self.attention_input(input.terms(*old(g))),
            r.shared_kv == input.shared_kv,
            if self.makes_mask(*input) {
                &&& r.mask is Some
                &&& final(g).settles(*old(g), set![input.x], set![r.x, r.mask->0])
            } else {
                &&& r.mask == input.mask
                &&& final(g).settles(*old(g), set![input.x], set![r.x])
            },
    {
        let ghost start = *g;
        let mask = if !input.disable_generated_mask && self.layer_type
            == LayerType::SlidingAttention && (input.seq_len > 1 || self.sliding_window.is_some()) {
            Some(
                g.unary(
                    Op::CausalMask {
                        past: Some(input.position_offset),
                        window: self.sliding_window,
                    },
                    input.x,
                ),
            )
        } else {
            input.mask
        };
        let ghost mid = *g;
        let x = self.apply(g, input.owner, LayerPart::InputLayernorm, input.x);
        proof {
            lemma_extends_transitive(start, mid, *g);
            input.lemma_kept(start, *g);
        }
        AttentionInput { x, mask, per_layer_input: None, ..*input }
    }

    fn build_sum(&self, g: &mut Graph, owner: Owner, x: usize, attended: usize) -> (r: usize)
        requires
            old(g).wf(),
            x < old(g).size(),
            attended < old(g).size(),
        ensures
            final(g).extends_plainly(*old(g)),
            r < final(g).size(),
            final(g).at(r) == app2(
                Op::Add,
                old(g).at(x),
                self.apply_part(owner, LayerPart::PostAttentionLayernorm, old(g).at(attended)),
            ),
            final(g).settles(*old(g), set![attended, x], set![r]),
    {
        let ghost start = *g;
        let normalized = self.apply(g, owner, LayerPart::PostAttentionLayernorm, attended);
        let ghost mid = *g;
        let sum = g.binary(Op::Add, x, normalized);
        proof {
            g.lemma_settles(
                mid,
                start,
                set![attended],
                set![normalized],
                set![x, normalized],
                set![sum],
                set![attended, x],
                set![sum],
            );
        }
        sum
    }

    fn build_mlp(&self, g: &mut Graph, owner: Owner, h: usize) -> (r: usize)
        requires
            old(g).wf(),
            h < old(g).size(),
        ensures
            final(g).extends_plainly(*old(g)),
            r < final(g).size(),
            final(g).at(r) == self.after_mlp(owner, old(g).at(h)),
            final(g).settles(*old(g), set![h], set![r]),
    {
        let ghost start = *g;
        let normalized = self.apply(g, owner, LayerPart::PreFeedforwardLayernorm, h);
        let r = self.mlp.forward(g, owner, self.self_attn.layer_idx, normalized);
        let r = self.apply(g, owner, LayerPart::PostFeedforwardLayernorm, r);
        let ghost mid = *g;
        assert(mid.settles(start, set![h], set![r]));
        let sum = g.binary(Op::Add, h, r);
        proof {
            g.lemma_settles(
                mid,
                start,
                set![h],
                set![r],
                set![h, r],
                set![sum],
                set![h],
                set![sum],
            );
        }
        sum
    }

    fn build_per_layer_input(
        &self,
        g: &mut Graph,
        owner: Owner,
        h: usize,
        per_layer_input: Option<usize>,
    ) -> (r: usize)
        requires
            old(g).wf(),
            h < old(g).size(),
            per_layer_input matches Some(id) ==> id < old(g).size(),
        ensures
            final(g).extends_plainly(*old(g)),
            r < final(g).size(),
            final(g).at(r) == self.after_per_layer_input(
                owner,
                old(g).at(h),
                match per_layer_input {
                    Some(id) => Some(old(g).at(id)),
                    None => None,
                },
            ),
            if per_layer_input is Some && self.takes_per_layer_input() {
                final(g).settles(*old(g), set![h, per_layer_input->0], set![r])
            } else {
                &&& r == h
                &&& final(g).settles(*old(g), Set::empty(), Set::empty())
            },
    {
        let given = match per_layer_input {
            Some(given) => given,
            None => {
                return h;
            },
        };
        if !(self.per_layer_input_gate.is_some() && self.per_layer_projection.is_some()
            && self.post_per_layer_input_norm.is_some()) {
            return h;
        }
        let ghost start = *g;
        let gate = self.apply(g, owner, LayerPart::PerLayerInputGate, h);
        let gate = g.unary(Op::GeluApproximate, gate);
        let gated = g.binary(Op::Multiply, gate, given);
        let projected = self.apply(g, owner, LayerPart::PerLayerProjection, gated);
        let r = self.apply(g, owner, LayerPart::PostPerLayerInputNorm, projected);
        let ghost mid = *g;
        assert(mid.settles(start, set![h, given], set![r]));
        let sum = g.binary(Op::Add, h, r);
        proof {
            g.lemma_settles(
                mid,
                start,
                set![h, given],
                set![r],
                set![h, r],
                set![sum],
                set![h, given],
                set![sum],
            );
        }
        sum
    }

    proof fn lemma_settled(
        self,
        input: AttentionInput,
        inner: AttentionInput,
        start: Graph,
        before_attention: Graph,
        after_attention: Graph,
        before_input: Graph,
        before_scaling: Graph,
        end: Graph,
        attended: usize,
        summed: usize,
        gated: usize,
        out: usize,
    )
        requires
            input.is_in(start),
            start.size() <= before_attention.size() <= after_attention.size()
                <= before_input.size() <= before_scaling.size(),
            inner.shared_kv == input.shared_kv,
            if self.makes_mask(input) {
                &&& inner.mask is Some
                &&& before_attention.settles(start, set![input.x], set![inner.x, inner.mask->0])
            } else {
                &&& inner.mask == input.mask
                &&& before_attention.settles(start, set![input.x], set![inner.x])
            },
            after_attention.settles(before_attention, self.self_attn.used(inner), set![attended]),
            before_input.settles(after_attention, set![attended, input.x], set![summed]),
            if input.per_layer_input is Some && self.takes_per_layer_input() {
                before_scaling.settles(
                    before_input,
                    set![summed, input.per_layer_input->0],
                    set![gated],
                )
            } else {
                &&& gated == summed
                &&& before_scaling.settles(before_input, Set::empty(), Set::empty())
            },
            end.settles(before_scaling, set![gated], set![out]),
        ensures
            end.settles(start, self.used(input), set![out]),
    {
        let mask = if self.makes_mask(input) {
            None
        } else {
            input.mask
        };
        let attention = self.self_attn.used(AttentionInput { mask, ..input });
        let made = if self.makes_mask(input) {
            set![inner.x, inner.mask->0]
        } else {
            set![inner.x]
        };
        assert(made.contains(inner.x));
        after_attention.lemma_settles(
            before_attention,
            start,
            set![input.x],
            made,
            self.self_attn.used(inner),
            set![attended],
            attention,
            set![attended],
        );
        before_input.lemma_settles(
            after_attention,
            start,
            attention,
            set![attended],
            set![attended, input.x],
            set![summed],
            attention,
            set![summed],
        );
        let given = self.used(input);
        if input.per_layer_input is Some && self.takes_per_layer_input() {
            before_scaling.lemma_settles(
                before_input,
                start,
                attention,
                set![summed],
                set![summed, input.per_layer_input->0],
                set![gated],
                given,
                set![gated],
            );
        } else {
            before_scaling.lemma_settles(
                before_input,
                start,
                attention,
                set![summed],
                Set::empty(),
                Set::empty(),
                given,
                set![gated],
            );
        }
        end.lemma_settles(
            before_scaling,
            start,
            given,
            set![gated],
            set![gated],
            set![out],
            given,
            set![out],
        );
    }

    /// Runs the layer. It fails where its attention part does.
    pub fn forward(&self, g: &mut Graph, input: AttentionInput) -> (r: Result<
        AttentionOutput,
        Exception,
    >)
        requires
            old(g).wf(),
            input.is_in(*old(g)),
        ensures
            final(g).wf(),
            final(g).extends(*old(g)),
            final(g).draw_count() == old(g).draw_count(),
            r is Ok <==> self.can_run(input.terms(*old(g))),
            r matches Err(e) ==> {
                &&& e.what@ == "missing shared Gemma 4 KV states"@
                &&& final(g).cache_updates() == old(g).cache_updates()
                &&& !final(g).is_pending(input.x)
                &&& forall|id: usize| #[trigger]
                    final(g).is_pending(id) ==> old(g).is_pending(id) || self.is_left_over(
                        input.terms(*old(g)),
                        final(g).at(id),
                    )
            },
            r matches Ok(result) ==> {
                &&& final(g).settles(*old(g), self.used(input), set![result.out])
                &&& result.out < final(g).size()
                &&& final(g).at(result.out) == self.output(input.terms(*old(g)))
                &&& shared_in(result.shared_kv, *final(g))
                &&& shared_terms(result.shared_kv, *final(g)) == self.shared_kv_after(
                    input.terms(*old(g)),
                )
                &&& final(g).cache_updates() == (match self.cache_update(input.terms(*old(g))) {
                    Some(update) => old(g).cache_updates().push(update),
                    None => old(g).cache_updates(),
                })
            },
    {
        let ghost start = *g;
        let self_attn_input = self.build_attention_input(g, &input);
        let ghost before_attention = *g;
        let attention = match self.self_attn.forward(g, self_attn_input) {
            Ok(attention) => attention,
            Err(e) => {
                proof {
                    lemma_extends_transitive(start, before_attention, *g);
                }
                return Err(e);
            },
        };
        let ghost after_attention = *g;
        proof {
            lemma_extends_transitive(start, before_attention, *g);
            input.lemma_kept(start, *g);
        }
        let h = self.build_sum(g, input.owner, input.x, attention.out);
        let ghost before_mlp = *g;
        let ghost attended = h;
        let h = self.build_mlp(g, input.owner, h);
        let ghost before_input = *g;
        let ghost gated = h;
        proof {
            before_input.lemma_settles(
                before_mlp,
                after_attention,
                set![attention.out, input.x],
                set![attended],
                set![attended],
                set![h],
                set![attention.out, input.x],
                set![h],
            );
        }
        let h = self.build_per_layer_input(g, input.owner, h, input.per_layer_input);
        let ghost before_scaling = *g;
        let out = self.apply_layer_scalar(g, input.owner, h);
        proof {
            self.lemma_settled(
                input,
                self_attn_input,
                start,
                before_attention,
                after_attention,
                before_input,
                before_scaling,
                *g,
                attention.out,
                gated,
                h,
                out,
            );
        }
        proof {
            if let Some(kv) = attention.shared_kv {
                kv.lemma_kept(after_attention, *g);
            }
        }
        Ok(AttentionOutput { out, shared_kv: attention.shared_kv })
    }

    /// The modules that a change of training mode is passed on to, each with the new mode.
    pub open spec fn modes(self, owner: Owner, mode: bool) -> Seq<(ModuleRef, bool)> {
        let one = |present: bool, part: LayerPart|
            if present {
                seq![(self.module(owner, part), mode)]
            } else {
                Seq::empty()
            };
        attention_modes(owner, self.self_attn.layer_idx, mode) + mlp_modes(
            owner,
            self.self_attn.layer_idx,
            mode,
        ) + one(self.per_layer_input_gate is Some, LayerPart::PerLayerInputGate) + one(
            self.per_layer_projection is Some,
            LayerPart::PerLayerProjection,
        ) + one(self.post_per_layer_input_norm is Some, LayerPart::PostPerLayerInputNorm) + seq![
            (self.module(owner, LayerPart::InputLayernorm), mode),
            (self.module(owner, LayerPart::PostAttentionLayernorm), mode),
            (self.module(owner, LayerPart::PreFeedforwardLayernorm), mode),
            (self.module(owner, LayerPart::PostFeedforwardLayernorm), mode),
        ]
    }

    /// The modules that a change of training mode is passed on to, each with the new mode.
    pub fn training_mode(&self, owner: Owner, mode: bool) -> (r: Vec<(ModuleRef, bool)>)
        ensures
            r@ == self.modes(owner, mode),
    {
        let index = self.self_attn.layer_idx;
        let mut r = self.self_attn.training_mode(owner, mode);
        let mut mlp = self.mlp.training_mode(owner, index, mode);
        r.append(&mut mlp);
        if self.per_layer_input_gate.is_some() {
            r.push((ModuleRef::Layer { owner, index, part: LayerPart::PerLayerInputGate }, mode));
        }
        if self.per_layer_projection.is_some() {
            r.push((ModuleRef::Layer { owner, index, part: LayerPart::PerLayerProjection }, mode));
        }
        if self.post_per_layer_input_norm.is_some() {
            r.push(
                (ModuleRef::Layer { owner, index, part: LayerPart::PostPerLayerInputNorm }, mode),
            );
        }
        r.push((ModuleRef::Layer { owner, index, part: LayerPart::InputLayernorm }, mode));
        r.push((ModuleRef::Layer { owner, index, part: LayerPart::PostAttentionLayernorm }, mode));
        r.push((ModuleRef::Layer { owner, index, part: LayerPart::PreFeedforwardLayernorm }, mode));
        r.push(
            (ModuleRef::Layer { owner, index, part: LayerPart::PostFeedforwardLayernorm }, mode),
        );
        assert(r@ =~= self.modes(owner, mode));
        r
    }
}

} // verus!
