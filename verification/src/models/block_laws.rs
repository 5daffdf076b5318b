//! What a layer does, under any meaning of the operations.
use vstd::prelude::*;

use crate::graph::{LayerPart, Op, Owner, ParamKind, Term};
use crate::meaning::Meaning;
use crate::models::attention::LayerInput;
use crate::models::block::TransformerBlock;
use crate::models::layer::LayerType;

verus! {

/// What the layer's module makes of `x`.
pub open spec fn made<T>(
    m: Meaning<T>,
    layer: TransformerBlock,
    owner: Owner,
    part: LayerPart,
    x: T,
) -> T {
    m.module(layer.module(owner, part), x)
}

/// The layer's factor.
pub open spec fn factor<T>(m: Meaning<T>, layer: TransformerBlock, owner: Owner) -> T {
    m.param(layer.module(owner, LayerPart::LayerScalar), ParamKind::Weight)
}

/// The attention part comes to nothing.
pub open spec fn attends_to_nothing<T>(
    m: Meaning<T>,
    layer: TransformerBlock,
    owner: Owner,
    zero: T,
) -> bool {
    &&& m.always_gives(layer.module(owner, LayerPart::OProj), zero)
    &&& made(m, layer, owner, LayerPart::PostAttentionLayernorm, zero) == zero
}

/// The feed-forward part comes to nothing.
pub open spec fn feeds_nothing<T>(
    m: Meaning<T>,
    layer: TransformerBlock,
    owner: Owner,
    zero: T,
) -> bool {
    &&& m.always_gives(layer.module(owner, LayerPart::DownProj), zero)
    &&& made(m, layer, owner, LayerPart::PostFeedforwardLayernorm, zero) == zero
}

/// A layer adds to the stream that runs through it: where its parts come to nothing and no
/// per-layer input is given, it gives its input times the layer's factor.
pub proof fn silent_layers_scale<T>(
    m: Meaning<T>,
    layer: TransformerBlock,
    input: LayerInput,
    zero: T,
)
    requires
        m.has_zero(zero),
        attends_to_nothing(m, layer, input.owner, zero),
        feeds_nothing(m, layer, input.owner, zero),
        input.per_layer_input is None || !layer.takes_per_layer_input(),
    ensures
        m.of(layer.output(input)) == m.mul(m.of(input.x), factor(m, layer, input.owner)),
{
    broadcast use crate::meaning::group_meaning;

}

/// A layer attends at the place where it is run, with the cache and the kept keys and values that
/// it is given, to the normalized stream.
pub proof fn attention_is_run_where_the_layer_is<T>(
    m: Meaning<T>,
    layer: TransformerBlock,
    input: LayerInput,
)
    ensures
        ({
            let attended = layer.attention_input(input);
            &&& attended.owner == input.owner
            &&& attended.position_offset == input.position_offset
            &&& attended.seq_len == input.seq_len
            &&& attended.cache == input.cache
            &&& attended.shared_kv == input.shared_kv
            &&& m.of(attended.x) == made(
                m,
                layer,
                input.owner,
                LayerPart::InputLayernorm,
                m.of(input.x),
            )
            &&& layer.cache_update(input) == layer.self_attn.cache_update(attended)
            &&& layer.shared_kv_after(input) == layer.self_attn.shared_kv_after(attended)
        }),
{
    broadcast use crate::meaning::group_meaning;

}

/// What attention adds depends on the stream only through its normalization, and is itself
/// normalized: two streams that the input normalization makes alike have the same added to them.
pub proof fn attention_adds_to_the_stream<T>(
    m: Meaning<T>,
    layer: TransformerBlock,
    input: LayerInput,
    x: Term,
    zero: T,
) -> (added: T)
    requires
        m.has_zero(zero),
        feeds_nothing(m, layer, input.owner, zero),
        layer.can_run(input),
        input.per_layer_input is None || !layer.takes_per_layer_input(),
        made(m, layer, input.owner, LayerPart::InputLayernorm, m.of(x)) == made(
            m,
            layer,
            input.owner,
            LayerPart::InputLayernorm,
            m.of(input.x),
        ),
        forall|past: Option<i32>, window: Option<i32>| #[trigger]
            m.one(Op::CausalMask { past, window }, m.of(x)) == m.one(
                Op::CausalMask { past, window },
                m.of(input.x),
            ),
    ensures
        m.of(layer.output(input)) == m.mul(
            m.add(m.of(input.x), added),
            factor(m, layer, input.owner),
        ),
        m.of(layer.output(LayerInput { x, ..input })) == m.mul(
            m.add(m.of(x), added),
            factor(m, layer, input.owner),
        ),
        exists|y: T|
            added == #[trigger] made(m, layer, input.owner, LayerPart::PostAttentionLayernorm, y),
{
    broadcast use crate::meaning::group_meaning;

    let other = LayerInput { x, ..input };
    let a = layer.attention_input(input);
    let b = layer.attention_input(other);
    assert(m.of(a.x) == m.of(b.x));
    assert(a.mask is Some ==> b.mask is Some && m.of(a.mask->0) == m.of(b.mask->0));
    lemma_attention_by_value(m, layer, a, b);
    let y = m.of(layer.self_attn.output(a));
    let added = made(m, layer, input.owner, LayerPart::PostAttentionLayernorm, y);
    added
}

/// Attention to inputs of the same value has the same value.
proof fn lemma_attention_by_value<T>(
    m: Meaning<T>,
    layer: TransformerBlock,
    a: LayerInput,
    b: LayerInput,
)
    requires
        layer.self_attn.keys_and_values(a) is Some,
        m.of(a.x) == m.of(b.x),
        a.mask is Some == b.mask is Some,
        a.mask is Some ==> m.of(a.mask->0) == m.of(b.mask->0),
        (LayerInput { x: a.x, mask: a.mask, ..b }) == a,
    ensures
        m.of(layer.self_attn.output(a)) == m.of(layer.self_attn.output(b)),
{
    broadcast use crate::meaning::group_meaning;

    let attn = layer.self_attn;
    assert(m.of(attn.queries(a)) == m.of(attn.queries(b)));
    assert(m.of(attn.new_keys(a)) == m.of(attn.new_keys(b)));
    assert(m.of(attn.new_values(a)) == m.of(attn.new_values(b)));
    let ka = attn.keys_and_values(a)->0;
    let kb = attn.keys_and_values(b)->0;
    assert(m.of(ka.0) == m.of(kb.0));
    assert(m.of(ka.1) == m.of(kb.1));
    assert(m.of(attn.attended(a)) == m.of(attn.attended(b)));
}

/// What the feed-forward part adds depends on the stream only through its normalization, and is
/// itself normalized: two streams that the normalization makes alike have the same added to them.
pub proof fn feed_forward_adds_to_the_stream<T>(
    m: Meaning<T>,
    layer: TransformerBlock,
    input: LayerInput,
    x: Term,
    zero: T,
) -> (added: T)
    requires
        m.has_zero(zero),
        attends_to_nothing(m, layer, input.owner, zero),
        input.per_layer_input is None || !layer.takes_per_layer_input(),
        made(m, layer, input.owner, LayerPart::PreFeedforwardLayernorm, m.of(x)) == made(
            m,
            layer,
            input.owner,
            LayerPart::PreFeedforwardLayernorm,
            m.of(input.x),
        ),
    ensures
        m.of(layer.output(input)) == m.mul(
            m.add(m.of(input.x), added),
            factor(m, layer, input.owner),
        ),
        m.of(layer.output(LayerInput { x, ..input })) == m.mul(
            m.add(m.of(x), added),
            factor(m, layer, input.owner),
        ),
        exists|y: T|
            added == #[trigger] made(
                m,
                layer,
                input.owner,
                LayerPart::PostFeedforwardLayernorm,
                made(m, layer, input.owner, LayerPart::DownProj, y),
            ),
{
    broadcast use crate::meaning::group_meaning;

    let owner = input.owner;
    let n = made(m, layer, owner, LayerPart::PreFeedforwardLayernorm, m.of(input.x));
    let gate = made(m, layer, owner, LayerPart::GateProj, n);
    let up = made(m, layer, owner, LayerPart::UpProj, n);
    let y = m.mul(m.one(Op::GeluApproximate, gate), up);
    let added = made(
        m,
        layer,
        owner,
        LayerPart::PostFeedforwardLayernorm,
        made(m, layer, owner, LayerPart::DownProj, y),
    );
    added
}

/// The gating is closed: what the activation makes of it is nothing.
pub open spec fn is_closed<T>(
    m: Meaning<T>,
    layer: TransformerBlock,
    owner: Owner,
    gate: LayerPart,
    zero: T,
) -> bool {
    forall|x: T| m.one(Op::GeluApproximate, #[trigger] made(m, layer, owner, gate, x)) == zero
}

/// The gating is open: what the activation makes of it changes nothing that it is multiplied with.
pub open spec fn is_open<T>(
    m: Meaning<T>,
    layer: TransformerBlock,
    owner: Owner,
    gate: LayerPart,
) -> bool {
    forall|x: T, y: T| #[trigger]
        m.mul(m.one(Op::GeluApproximate, made(m, layer, owner, gate, x)), y) == y
}

/// The feed-forward part is gated: where the gating is closed, or where nothing comes up, the part
/// adds nothing, whatever the other of the two gives.
pub proof fn closed_gates_feed_nothing<T>(
    m: Meaning<T>,
    layer: TransformerBlock,
    input: LayerInput,
    zero: T,
)
    requires
        m.has_zero(zero),
        attends_to_nothing(m, layer, input.owner, zero),
        made(m, layer, input.owner, LayerPart::DownProj, zero) == zero,
        made(m, layer, input.owner, LayerPart::PostFeedforwardLayernorm, zero) == zero,
        input.per_layer_input is None || !layer.takes_per_layer_input(),
        is_closed(m, layer, input.owner, LayerPart::GateProj, zero) || m.always_gives(
            layer.module(input.owner, LayerPart::UpProj),
            zero,
        ),
    ensures
        m.of(layer.output(input)) == m.mul(m.of(input.x), factor(m, layer, input.owner)),
{
    broadcast use crate::meaning::group_meaning;

    let owner = input.owner;
    let h = layer.after_attention(input);
    assert(m.of(h) == m.of(input.x));
    let n = made(m, layer, owner, LayerPart::PreFeedforwardLayernorm, m.of(h));
    let gate = made(m, layer, owner, LayerPart::GateProj, n);
    assert(is_closed(m, layer, owner, LayerPart::GateProj, zero) ==> m.one(
        Op::GeluApproximate,
        gate,
    ) == zero);
}

/// Where the gating of the feed-forward part is open, what comes up goes down again, and is added.
pub proof fn open_gates_feed_what_comes_up<T>(
    m: Meaning<T>,
    layer: TransformerBlock,
    input: LayerInput,
    zero: T,
    n: T,
)
    requires
        m.has_zero(zero),
        attends_to_nothing(m, layer, input.owner, zero),
        input.per_layer_input is None || !layer.takes_per_layer_input(),
        is_open(m, layer, input.owner, LayerPart::GateProj),
        n == made(m, layer, input.owner, LayerPart::PreFeedforwardLayernorm, m.of(input.x)),
    ensures
        ({
            let up = made(m, layer, input.owner, LayerPart::UpProj, n);
            let down = made(m, layer, input.owner, LayerPart::DownProj, up);
            m.of(layer.output(input)) == m.mul(
                m.add(
                    m.of(input.x),
                    made(m, layer, input.owner, LayerPart::PostFeedforwardLayernorm, down),
                ),
                factor(m, layer, input.owner),
            )
        }),
{
    broadcast use crate::meaning::group_meaning;

    let owner = input.owner;
    let up = made(m, layer, owner, LayerPart::UpProj, n);
    let gate = made(m, layer, owner, LayerPart::GateProj, n);
    assert(m.mul(m.one(Op::GeluApproximate, gate), up) == up);
}

/// The two meanings differ in the output projection of the layer alone.
pub open spec fn differ_in_attention_alone<T>(
    m: Meaning<T>,
    n: Meaning<T>,
    layer: TransformerBlock,
    owner: Owner,
) -> bool {
    forall|op: Op, args: Seq<T>|
        op != Op::Forward(layer.module(owner, LayerPart::OProj)) ==> #[trigger] (n.apply)(op, args)
            == (m.apply)(op, args)
}

/// What comes after attention sees the stream that attention has added to: it is as if attention
/// added nothing and the layer were given the sum.
pub proof fn later_parts_see_what_attention_added<T>(
    m: Meaning<T>,
    silent: Meaning<T>,
    layer: TransformerBlock,
    input: LayerInput,
    x: Term,
    given: Option<Term>,
    attended: T,
    zero: T,
)
    requires
        m.has_zero(zero),
        m.always_gives(layer.module(input.owner, LayerPart::OProj), attended),
        attends_to_nothing(silent, layer, input.owner, zero),
        differ_in_attention_alone(m, silent, layer, input.owner),
        silent.of(x) == m.add(
            m.of(input.x),
            made(m, layer, input.owner, LayerPart::PostAttentionLayernorm, attended),
        ),
        given is Some == input.per_layer_input is Some,
        given is Some ==> silent.of(given->0) == m.of(input.per_layer_input->0),
    ensures
        m.of(layer.output(input)) == silent.of(
            layer.output(LayerInput { x, per_layer_input: given, ..input }),
        ),
{
    broadcast use crate::meaning::group_meaning;

    let owner = input.owner;
    assert forall|op: Op, y: T| op != Op::Forward(
        layer.module(owner, LayerPart::OProj),
    ) implies #[trigger] silent.one(op, y) == m.one(op, y) by {}
    assert forall|op: Op, y: T, z: T| op != Op::Forward(
        layer.module(owner, LayerPart::OProj),
    ) implies #[trigger] silent.two(op, y, z) == m.two(op, y, z) by {}
    assert forall|op: Op| op != Op::Forward(
        layer.module(owner, LayerPart::OProj),
    ) implies #[trigger] silent.none(op) == m.none(op) by {}
    let other = LayerInput { x, per_layer_input: given, ..input };
    let h = layer.after_attention(input);
    let k = layer.after_attention(other);
    assert(m.of(h) == silent.of(x));
    assert(silent.of(k) == silent.of(x));
    let hm = layer.after_mlp(owner, h);
    let km = layer.after_mlp(owner, k);
    assert(m.of(hm) == silent.of(km));
    assert(m.of(layer.after_per_layer_input(owner, hm, input.per_layer_input)) == silent.of(
        layer.after_per_layer_input(owner, km, given),
    ));
}

/// The per-layer input adds something normalized, gated by the stream: streams that are gated alike
/// have the same added to them.
pub proof fn per_layer_inputs_add_to_the_stream<T>(
    m: Meaning<T>,
    layer: TransformerBlock,
    input: LayerInput,
    x: Term,
    zero: T,
) -> (added: T)
    requires
        m.has_zero(zero),
        attends_to_nothing(m, layer, input.owner, zero),
        feeds_nothing(m, layer, input.owner, zero),
        layer.takes_per_layer_input(),
        input.per_layer_input is Some,
        made(m, layer, input.owner, LayerPart::PerLayerInputGate, m.of(x)) == made(
            m,
            layer,
            input.owner,
            LayerPart::PerLayerInputGate,
            m.of(input.x),
        ),
    ensures
        m.of(layer.output(input)) == m.mul(
            m.add(m.of(input.x), added),
            factor(m, layer, input.owner),
        ),
        m.of(layer.output(LayerInput { x, ..input })) == m.mul(
            m.add(m.of(x), added),
            factor(m, layer, input.owner),
        ),
        exists|y: T|
            added == #[trigger] made(
                m,
                layer,
                input.owner,
                LayerPart::PostPerLayerInputNorm,
                made(m, layer, input.owner, LayerPart::PerLayerProjection, y),
            ),
{
    broadcast use crate::meaning::group_meaning;

    let owner = input.owner;
    let gate = made(m, layer, owner, LayerPart::PerLayerInputGate, m.of(input.x));
    let y = m.mul(m.one(Op::GeluApproximate, gate), m.of(input.per_layer_input->0));
    let added = made(
        m,
        layer,
        owner,
        LayerPart::PostPerLayerInputNorm,
        made(m, layer, owner, LayerPart::PerLayerProjection, y),
    );
    added
}

/// A per-layer input of zero, or a closed gating, adds nothing: the layer gives what it gives
/// without a per-layer input.
pub proof fn closed_gates_pass_no_per_layer_input<T>(
    m: Meaning<T>,
    layer: TransformerBlock,
    input: LayerInput,
    zero: T,
)
    requires
        m.has_zero(zero),
        input.per_layer_input is Some,
        made(m, layer, input.owner, LayerPart::PerLayerProjection, zero) == zero,
        made(m, layer, input.owner, LayerPart::PostPerLayerInputNorm, zero) == zero,
        m.of(input.per_layer_input->0) == zero || is_closed(
            m,
            layer,
            input.owner,
            LayerPart::PerLayerInputGate,
            zero,
        ),
    ensures
        m.of(layer.output(input)) == m.of(
            layer.output(LayerInput { per_layer_input: None, ..input }),
        ),
{
    broadcast use crate::meaning::group_meaning;

    let none = LayerInput { per_layer_input: None, ..input };
    assert(layer.attention_input(input) == layer.attention_input(none));
    assert(layer.after_attention(input) == layer.after_attention(none));
    let h = layer.after_mlp(input.owner, layer.after_attention(input));
    let gate = made(m, layer, input.owner, LayerPart::PerLayerInputGate, m.of(h));
    assert(is_closed(m, layer, input.owner, LayerPart::PerLayerInputGate, zero) ==> m.one(
        Op::GeluApproximate,
        gate,
    ) == zero);
}

/// Where its gating is open, the per-layer input is projected to the width of the stream,
/// normalized and added.
pub proof fn open_gates_pass_the_per_layer_input<T>(
    m: Meaning<T>,
    layer: TransformerBlock,
    input: LayerInput,
    zero: T,
)
    requires
        m.has_zero(zero),
        attends_to_nothing(m, layer, input.owner, zero),
        feeds_nothing(m, layer, input.owner, zero),
        layer.takes_per_layer_input(),
        input.per_layer_input is Some,
        is_open(m, layer, input.owner, LayerPart::PerLayerInputGate),
    ensures
        ({
            let given = m.of(input.per_layer_input->0);
            let projected = made(m, layer, input.owner, LayerPart::PerLayerProjection, given);
            m.of(layer.output(input)) == m.mul(
                m.add(
                    m.of(input.x),
                    made(m, layer, input.owner, LayerPart::PostPerLayerInputNorm, projected),
                ),
                factor(m, layer, input.owner),
            )
        }),
{
    broadcast use crate::meaning::group_meaning;

    let given = m.of(input.per_layer_input->0);
    let gate = made(m, layer, input.owner, LayerPart::PerLayerInputGate, m.of(input.x));
    assert(m.mul(m.one(Op::GeluApproximate, gate), given) == given);
}

/// A causal mask is told by where its first query stands, without anything before it where
/// nothing is said, and by how far back queries see.
pub open spec fn masks_by_position<T>(
    m: Meaning<T>,
    x: T,
    plane: spec_fn(int, Option<i32>) -> T,
) -> bool {
    forall|past: Option<i32>, window: Option<i32>| #[trigger]
        m.one(Op::CausalMask { past, window }, x) == plane(
            match past {
                Some(past) => past as int,
                None => 0,
            },
            window,
        )
}

/// The mask that a sliding layer makes has its first query where the pass stands, and lets queries
/// see back as far as the layer's window. Where the layer makes none, attention gets the mask that
/// was given.
pub proof fn sliding_layers_mask_their_window<T>(
    m: Meaning<T>,
    layer: TransformerBlock,
    input: LayerInput,
    plane: spec_fn(int, Option<i32>) -> T,
)
    requires
        masks_by_position(m, m.of(input.x), plane),
    ensures
        layer.layer_type == LayerType::SlidingAttention && !input.disable_generated_mask && (
        layer.sliding_window is Some || input.seq_len > 1) ==> (layer.attention_input(
            input,
        ).mask matches Some(mask) && m.of(mask) == plane(
            input.position_offset as int,
            layer.sliding_window,
        )),
        layer.layer_type == LayerType::FullAttention || input.disable_generated_mask || (
        layer.sliding_window is None && input.seq_len <= 1) ==> layer.attention_input(input).mask
            == input.mask,
{
    broadcast use crate::meaning::group_meaning;

}

} // verus!
