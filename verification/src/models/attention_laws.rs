//! What attention does, under any meaning of the operations.
use vstd::prelude::*;

use crate::graph::{is_part, Axes, Dim, LayerPart, ModuleRef, Op, Scalar, Shape, Term, F32};
use crate::meaning::Meaning;
use crate::models::attention::{Attention, LayerInput, VALUE_NORM_EPS_BITS};

verus! {

/// The score of a query of one layer and a key of another, each rotated to its position, is a
/// function of what they were before and of the distance between the positions, and tells different
/// distances apart.
pub open spec fn scores_distances<T, S>(
    m: Meaning<T>,
    asking: ModuleRef,
    asked: ModuleRef,
    score: spec_fn(T, T) -> S,
    relative: spec_fn(T, T, int) -> S,
) -> bool {
    &&& forall|q: T, k: T, p: i32, s: i32| #[trigger]
        score(
            m.one(Op::Rope { module: asking, offset: p }, q),
            m.one(Op::Rope { module: asked, offset: s }, k),
        ) == relative(q, k, p - s)
    &&& forall|q: T, k: T, d: int, e: int| #[trigger]
        relative(q, k, d) == #[trigger] relative(q, k, e) ==> d == e
}

/// A query and a key that an earlier or later pass handed to the cache score by how far apart they
/// stand: moving both passes alike changes no score, and any other move changes it. The same holds
/// of a key that its own pass attends to without a cache. The layer that asks may be one that
/// reuses the keys of the layer that is asked.
pub proof fn scores_go_by_distance<T, S>(
    m: Meaning<T>,
    layer: Attention,
    source: Attention,
    asking: LayerInput,
    asked: LayerInput,
    score: spec_fn(T, T) -> S,
    relative: spec_fn(T, T, int) -> S,
    asking_offset: i32,
    asked_offset: i32,
) -> (unrotated: (T, T))
    requires
        !source.is_kv_shared_layer,
        scores_distances(
            m,
            layer.module(asking.owner, LayerPart::Rope),
            source.module(asked.owner, LayerPart::Rope),
            score,
            relative,
        ),
    ensures
        ({
            let moved_asking = LayerInput { position_offset: asking_offset, ..asking };
            let moved_asked = LayerInput { position_offset: asked_offset, ..asked };
            let same_distance = asking.position_offset - asked.position_offset == asking_offset
                - asked_offset;
            let query = m.of(layer.attended(asking).args[0]);
            let moved_query = m.of(layer.attended(moved_asking).args[0]);
            let (key, moved_key) = if asked.cache is Some {
                (
                    m.of(source.cache_update(asked)->0.args[0]),
                    m.of(source.cache_update(moved_asked)->0.args[0]),
                )
            } else {
                (m.of(source.attended(asked).args[1]), m.of(source.attended(moved_asked).args[1]))
            };
            &&& score(query, key) == score(moved_query, moved_key) <==> same_distance
            &&& score(query, key) == relative(
                unrotated.0,
                unrotated.1,
                asking.position_offset - asked.position_offset,
            )
            &&& score(moved_query, moved_key) == relative(
                unrotated.0,
                unrotated.1,
                asking_offset - asked_offset,
            )
        }),
        is_part(layer.attended(asking), layer.output(asking)),
        asked.cache matches Some(slot) ==> source.cache_update(asked)->0.op == (Op::UpdateCache {
            slot,
        }) && source.cache_update(asked)->0.args[0].op == (Op::Rope {
            module: source.module(asked.owner, LayerPart::Rope),
            offset: asked.position_offset,
        }),
{
    broadcast use crate::meaning::group_meaning;

    let moved_asking = LayerInput { position_offset: asking_offset, ..asking };
    let moved_asked = LayerInput { position_offset: asked_offset, ..asked };
    let to = layer.module(asking.owner, LayerPart::Rope);
    let from = source.module(asked.owner, LayerPart::Rope);
    let q = m.of(layer.queries(asking).args[0]);
    let k = m.of(source.new_keys(asked).args[0]);
    assert(layer.queries(moved_asking).args[0] == layer.queries(asking).args[0]);
    assert(source.new_keys(moved_asked).args[0] == source.new_keys(asked).args[0]);
    assert(layer.attended(asking).args[0] == layer.queries(asking));
    assert(layer.attended(moved_asking).args[0] == layer.queries(moved_asking));
    let p = asking.position_offset;
    let s = asked.position_offset;
    assert(score(
        m.one(Op::Rope { module: to, offset: p }, q),
        m.one(Op::Rope { module: from, offset: s }, k),
    ) == relative(q, k, p - s));
    assert(score(
        m.one(Op::Rope { module: to, offset: asking_offset }, q),
        m.one(Op::Rope { module: from, offset: asked_offset }, k),
    ) == relative(q, k, asking_offset - asked_offset));
    let joined = layer.output(asking).args[0];
    let turned = joined.args[0];
    assert(is_part(layer.attended(asking), turned)) by {
        assert(turned.args[0] == layer.attended(asking));
        assert(is_part(layer.attended(asking), turned.args[0]));
    }
    assert(is_part(layer.attended(asking), joined));
    assert(is_part(layer.attended(asking), layer.output(asking)));
    (q, k)
}

/// The values of a pass do not move with its position.
pub proof fn values_do_not_move<T>(m: Meaning<T>, layer: Attention, input: LayerInput, offset: i32)
    requires
        !layer.is_kv_shared_layer,
        input.cache is Some,
    ensures
        ({
            let moved = LayerInput { position_offset: offset, ..input };
            m.of(layer.cache_update(input)->0.args[1]) == m.of(
                layer.cache_update(moved)->0.args[1],
            )
        }),
{
    let moved = LayerInput { position_offset: offset, ..input };
    assert(layer.new_values(moved) == layer.new_values(input));
}

/// `x` over the root of the mean of its squares.
pub open spec fn normalized<T>(m: Meaning<T>, x: T) -> T {
    let eps = m.scalar(Scalar::Value(F32 { bits: VALUE_NORM_EPS_BITS }));
    m.mul(x, m.one(Op::Rsqrt, m.add(m.one(Op::MeanLast, m.one(Op::Square, x)), eps)))
}

/// The layer's projections and changes of shape go along with `scale`, and its normalizations
/// undo it.
pub open spec fn scale_is_normalized_away<T>(
    m: Meaning<T>,
    layer: Attention,
    input: LayerInput,
    scale: spec_fn(T) -> T,
) -> bool {
    &&& forall|x: T, part: LayerPart|
        part == LayerPart::QProj || part == LayerPart::KProj || part == LayerPart::VProj
            ==> #[trigger] m.module(layer.module(input.owner, part), scale(x)) == scale(
            m.module(layer.module(input.owner, part), x),
        )
    &&& forall|x: T, part: LayerPart|
        part == LayerPart::QNorm || part == LayerPart::KNorm ==> #[trigger] m.module(
            layer.module(input.owner, part),
            scale(x),
        ) == m.module(layer.module(input.owner, part), x)
    &&& forall|x: T| #[trigger] normalized(m, scale(x)) == normalized(m, x)
    &&& forall|shape: Shape, x: T, like: T| #[trigger]
        m.two(Op::Reshape(shape), scale(x), like) == scale(m.two(Op::Reshape(shape), x, like))
    &&& forall|shape: Shape, x: T, like: T| #[trigger]
        m.two(Op::Reshape(shape), x, scale(like)) == m.two(Op::Reshape(shape), x, like)
    &&& forall|x: T| #[trigger]
        m.one(Op::Transpose(Axes::SwapMiddle), scale(x)) == scale(
            m.one(Op::Transpose(Axes::SwapMiddle), x),
        )
}

proof fn lemma_split_scaled<T>(
    m: Meaning<T>,
    layer: Attention,
    input: LayerInput,
    scale: spec_fn(T) -> T,
    part: LayerPart,
    heads: i32,
    x: T,
)
    requires
        scale_is_normalized_away(m, layer, input, scale),
        part == LayerPart::QProj || part == LayerPart::KProj || part == LayerPart::VProj,
    ensures
        ({
            let split = Op::Reshape(
                Shape::Four(Dim::Like(0), Dim::Like(1), Dim::Fixed(heads), Dim::Rest),
            );
            let module = layer.module(input.owner, part);
            m.two(split, m.module(module, scale(x)), scale(x)) == scale(
                m.two(split, m.module(module, x), x),
            )
        }),
{
    let split = Op::Reshape(
        Shape::Four(Dim::Like(0), Dim::Like(1), Dim::Fixed(heads), Dim::Rest),
    );
    let y = m.module(layer.module(input.owner, part), x);
    assert(m.module(layer.module(input.owner, part), scale(x)) == scale(y));
    assert(m.two(split, scale(y), scale(x)) == m.two(split, scale(y), x));
}

/// Queries, keys and values are normalized: attention does not see how large its input is.
pub proof fn attention_ignores_scale<T>(
    m: Meaning<T>,
    layer: Attention,
    input: LayerInput,
    x: Term,
    scale: spec_fn(T) -> T,
)
    requires
        layer.keys_and_values(input) is Some,
        scale_is_normalized_away(m, layer, input, scale),
        m.of(x) == scale(m.of(input.x)),
    ensures
        m.of(layer.output(LayerInput { x, ..input })) == m.of(layer.output(input)),
        layer.cache_update(input) is Some ==> m.of(
            layer.cache_update(LayerInput { x, ..input })->0,
        ) == m.of(layer.cache_update(input)->0),
{
    broadcast use crate::meaning::group_meaning;

    let other = LayerInput { x, ..input };
    let v = m.of(input.x);
    let split = |heads: i32|
        Op::Reshape(Shape::Four(Dim::Like(0), Dim::Like(1), Dim::Fixed(heads), Dim::Rest));
    let made = |part: LayerPart, heads: i32|
        m.two(split(heads), m.module(layer.module(input.owner, part), v), v);
    let sq = made(LayerPart::QProj, layer.n_heads);
    let sk = made(LayerPart::KProj, layer.n_kv_heads);
    let sw = made(LayerPart::VProj, layer.n_kv_heads);
    lemma_split_scaled(m, layer, input, scale, LayerPart::QProj, layer.n_heads, v);
    lemma_split_scaled(m, layer, input, scale, LayerPart::KProj, layer.n_kv_heads, v);
    lemma_split_scaled(m, layer, input, scale, LayerPart::VProj, layer.n_kv_heads, v);
    let swap = Op::Transpose(Axes::SwapMiddle);
    assert(m.one(swap, scale(sq)) == scale(m.one(swap, sq)));
    assert(m.one(swap, scale(sk)) == scale(m.one(swap, sk)));
    let q_norm = layer.module(input.owner, LayerPart::QNorm);
    let k_norm = layer.module(input.owner, LayerPart::KNorm);
    assert(m.module(q_norm, scale(m.one(swap, sq))) == m.module(q_norm, m.one(swap, sq)));
    assert(m.module(k_norm, scale(m.one(swap, sk))) == m.module(k_norm, m.one(swap, sk)));
    assert(m.of(layer.queries(other)) == m.of(layer.queries(input)));
    assert(m.of(layer.new_keys(other)) == m.of(layer.new_keys(input)));
    assert(normalized(m, scale(sk)) == normalized(m, sk));
    assert(normalized(m, scale(sw)) == normalized(m, sw));
    assert(m.of(layer.new_values(other)) == m.of(layer.new_values(input)));
    assert(layer.keys_and_values(other) is Some);
    let mine = layer.keys_and_values(input)->0;
    let others = layer.keys_and_values(other)->0;
    assert(m.of(others.0) == m.of(mine.0));
    assert(m.of(others.1) == m.of(mine.1));
    assert(m.of(layer.attended(other)) == m.of(layer.attended(input)));
    let merge = Op::Reshape(Shape::Three(Dim::Like(0), Dim::Like(1), Dim::Rest));
    let turned = m.one(swap, m.of(layer.attended(input)));
    assert(m.two(merge, turned, scale(v)) == m.two(merge, turned, v));
}

/// A cache that held nothing makes no difference to the pass that fills it.
pub proof fn empty_caches_change_nothing<T>(
    m: Meaning<T>,
    layer: Attention,
    input: LayerInput,
    slot: usize,
)
    requires
        layer.keys_and_values(input) is Some,
        forall|k: T, v: T| #[trigger]
            m.one(Op::UpdatedKeys, m.two(Op::UpdateCache { slot }, k, v)) == k,
        forall|k: T, v: T| #[trigger]
            m.one(Op::UpdatedValues, m.two(Op::UpdateCache { slot }, k, v)) == v,
        forall|args: Seq<T>| #[trigger]
            (m.apply)(Op::Attention { scale: layer.scale, cache: Some(slot) }, args) == (m.apply)(
                Op::Attention { scale: layer.scale, cache: None },
                args,
            ),
    ensures
        m.of(layer.output(LayerInput { cache: Some(slot), ..input })) == m.of(
            layer.output(LayerInput { cache: None, ..input }),
        ),
{
    broadcast use crate::meaning::group_meaning;

    let with = LayerInput { cache: Some(slot), ..input };
    let without = LayerInput { cache: None, ..input };
    assert(layer.queries(with) == layer.queries(without));
    assert(layer.new_keys(with) == layer.new_keys(without));
    assert(layer.new_values(with) == layer.new_values(without));
    if !layer.is_kv_shared_layer {
        let k = m.of(layer.new_keys(with));
        let v = m.of(layer.new_values(with));
        assert(m.one(Op::UpdatedKeys, m.two(Op::UpdateCache { slot }, k, v)) == k);
        assert(m.one(Op::UpdatedValues, m.two(Op::UpdateCache { slot }, k, v)) == v);
        let a = layer.keys_and_values(with)->0;
        let b = layer.keys_and_values(without)->0;
        assert(m.of(a.0) == m.of(b.0));
        assert(m.of(a.1) == m.of(b.1));
    }
    assert(m.of(layer.attended(with)) == m.of(layer.attended(without)));
}

/// Splitting into `heads` heads is undone by merging them.
pub open spec fn heads_merge<T>(m: Meaning<T>, heads: i32) -> bool {
    let split = Op::Reshape(
        Shape::Four(Dim::Like(0), Dim::Like(1), Dim::Fixed(heads), Dim::Rest),
    );
    let merge = Op::Reshape(Shape::Three(Dim::Like(0), Dim::Like(1), Dim::Rest));
    let swap = Op::Transpose(Axes::SwapMiddle);
    &&& forall|x: T| #[trigger] m.one(swap, m.one(swap, x)) == x
    &&& forall|x: T, like: T| #[trigger] m.two(merge, m.two(split, x, like), like) == x
}

/// Attention gives the given one of its arguments back: the queries, the keys or the values.
pub open spec fn attention_gives<T>(m: Meaning<T>, layer: Attention, which: int) -> bool {
    let of_three = |q: T, k: T, v: T|
        if which == 0 {
            q
        } else if which == 1 {
            k
        } else {
            v
        };
    &&& forall|cache: Option<usize>, q: T, k: T, v: T| #[trigger]
        m.three(Op::Attention { scale: layer.scale, cache }, q, k, v) == of_three(q, k, v)
    &&& forall|cache: Option<usize>, q: T, k: T, v: T, mask: T| #[trigger]
        m.four(Op::Attention { scale: layer.scale, cache }, q, k, v, mask) == of_three(q, k, v)
}

/// Where there is one position to attend to, its value comes out: what the value projection made
/// of the input, or the key projection where keys serve as values, put through the output
/// projection. Values are as large as normalization makes them.
pub proof fn single_values_come_out<T>(m: Meaning<T>, layer: Attention, input: LayerInput)
    requires
        !layer.is_kv_shared_layer,
        input.cache is None,
        attention_gives(m, layer, 2),
        heads_merge(m, layer.n_kv_heads),
        forall|x: T| #[trigger] normalized(m, x) == x,
    ensures
        ({
            let part = if layer.attention_k_eq_v {
                LayerPart::KProj
            } else {
                LayerPart::VProj
            };
            m.of(layer.output(input)) == m.module(
                layer.module(input.owner, LayerPart::OProj),
                m.module(layer.module(input.owner, part), m.of(input.x)),
            )
        }),
{
    broadcast use crate::meaning::group_meaning;

    let part = if layer.attention_k_eq_v {
        LayerPart::KProj
    } else {
        LayerPart::VProj
    };
    let split = Op::Reshape(
        Shape::Four(Dim::Like(0), Dim::Like(1), Dim::Fixed(layer.n_kv_heads), Dim::Rest),
    );
    let merge = Op::Reshape(Shape::Three(Dim::Like(0), Dim::Like(1), Dim::Rest));
    let swap = Op::Transpose(Axes::SwapMiddle);
    let x = m.of(input.x);
    let value = m.module(layer.module(input.owner, part), x);
    let heads = m.two(split, value, x);
    assert(normalized(m, heads) == heads);
    assert(m.of(layer.new_values(input)) == m.one(swap, heads));
    assert(m.of(layer.attended(input)) == m.one(swap, heads));
    assert(m.one(swap, m.one(swap, heads)) == heads);
    assert(m.two(merge, heads, x) == value);
}

/// The part makes nothing of its input, and neither does rotation.
pub open spec fn changes_nothing<T>(
    m: Meaning<T>,
    layer: Attention,
    input: LayerInput,
    norm: LayerPart,
) -> bool {
    let rope = Op::Rope {
        module: layer.module(input.owner, LayerPart::Rope),
        offset: input.position_offset,
    };
    &&& forall|x: T| #[trigger] m.one(rope, x) == x
    &&& forall|x: T| #[trigger] m.module(layer.module(input.owner, norm), x) == x
}

/// What is asked is what the query projection made of the input, in as many heads as there are for
/// queries: where attention gives its queries back, and their normalization and rotation change
/// nothing, they come out.
pub proof fn queries_are_of_the_query_projection<T>(
    m: Meaning<T>,
    layer: Attention,
    input: LayerInput,
)
    requires
        layer.keys_and_values(input) is Some,
        attention_gives(m, layer, 0),
        heads_merge(m, layer.n_heads),
        changes_nothing(m, layer, input, LayerPart::QNorm),
    ensures
        m.of(layer.output(input)) == m.module(
            layer.module(input.owner, LayerPart::OProj),
            m.module(layer.module(input.owner, LayerPart::QProj), m.of(input.x)),
        ),
{
    broadcast use crate::meaning::group_meaning;

    let split = Op::Reshape(
        Shape::Four(Dim::Like(0), Dim::Like(1), Dim::Fixed(layer.n_heads), Dim::Rest),
    );
    let merge = Op::Reshape(Shape::Three(Dim::Like(0), Dim::Like(1), Dim::Rest));
    let swap = Op::Transpose(Axes::SwapMiddle);
    let x = m.of(input.x);
    let query = m.module(layer.module(input.owner, LayerPart::QProj), x);
    let heads = m.two(split, query, x);
    assert(m.of(layer.attended(input)) == m.one(swap, heads));
    assert(m.one(swap, m.one(swap, heads)) == heads);
    assert(m.two(merge, heads, x) == query);
}

/// What is looked at is what the key projection made of the input, in as many heads as there are
/// for keys: where attention gives its keys back, and their normalization and rotation change
/// nothing, they come out.
pub proof fn keys_are_of_the_key_projection<T>(m: Meaning<T>, layer: Attention, input: LayerInput)
    requires
        !layer.is_kv_shared_layer,
        input.cache is None,
        attention_gives(m, layer, 1),
        heads_merge(m, layer.n_kv_heads),
        changes_nothing(m, layer, input, LayerPart::KNorm),
    ensures
        m.of(layer.output(input)) == m.module(
            layer.module(input.owner, LayerPart::OProj),
            m.module(layer.module(input.owner, LayerPart::KProj), m.of(input.x)),
        ),
{
    broadcast use crate::meaning::group_meaning;

    let split = Op::Reshape(
        Shape::Four(Dim::Like(0), Dim::Like(1), Dim::Fixed(layer.n_kv_heads), Dim::Rest),
    );
    let merge = Op::Reshape(Shape::Three(Dim::Like(0), Dim::Like(1), Dim::Rest));
    let swap = Op::Transpose(Axes::SwapMiddle);
    let x = m.of(input.x);
    let key = m.module(layer.module(input.owner, LayerPart::KProj), x);
    let heads = m.two(split, key, x);
    assert(m.of(layer.new_keys(input)) == m.one(swap, heads));
    assert(m.of(layer.attended(input)) == m.one(swap, heads));
    assert(m.one(swap, m.one(swap, heads)) == heads);
    assert(m.two(merge, heads, x) == key);
}

/// A layer with a cache attends to all that the cache holds once the layer has put its keys and
/// values into it, and attention is told which cache that is. A layer that reuses keys and values
/// attends to what was kept for its kind, without a cache.
pub proof fn caches_are_attended_to<T>(
    m: Meaning<T>,
    layer: Attention,
    input: LayerInput,
    slot: usize,
    with_past_keys: spec_fn(T) -> T,
    with_past_values: spec_fn(T) -> T,
)
    requires
        layer.keys_and_values(input) is Some,
        input.cache == Some(slot),
        forall|k: T, v: T| #[trigger]
            m.one(Op::UpdatedKeys, m.two(Op::UpdateCache { slot }, k, v)) == with_past_keys(k),
        forall|k: T, v: T| #[trigger]
            m.one(Op::UpdatedValues, m.two(Op::UpdateCache { slot }, k, v)) == with_past_values(v),
    ensures
        ({
            let attended = layer.attended(input);
            if layer.is_kv_shared_layer {
                let kept = input.shared_kv->0[layer.layer_type];
                &&& attended.op == (Op::Attention { scale: layer.scale, cache: None })
                &&& m.of(attended.args[1]) == m.of(kept.0)
                &&& m.of(attended.args[2]) == m.of(kept.1)
                &&& layer.cache_update(input) is None
            } else {
                let put = layer.cache_update(input)->0.args;
                &&& attended.op == (Op::Attention { scale: layer.scale, cache: Some(slot) })
                &&& m.of(attended.args[1]) == with_past_keys(m.of(put[0]))
                &&& m.of(attended.args[2]) == with_past_values(m.of(put[1]))
            }
        }),
{
    broadcast use crate::meaning::group_meaning;

    if !layer.is_kv_shared_layer {
        let k = m.of(layer.new_keys(input));
        let v = m.of(layer.new_values(input));
        assert(m.one(Op::UpdatedKeys, m.two(Op::UpdateCache { slot }, k, v)) == with_past_keys(k));
        assert(m.one(Op::UpdatedValues, m.two(Op::UpdateCache { slot }, k, v))
            == with_past_values(v));
    }
}

/// The mask that attention is given hides what it hides: where the mask decides everything, what
/// comes out is a function of the mask.
pub proof fn masks_reach_attention<T>(
    m: Meaning<T>,
    layer: Attention,
    input: LayerInput,
    other: LayerInput,
)
    requires
        layer.keys_and_values(input) is Some,
        layer.keys_and_values(other) is Some,
        other.owner == input.owner,
        other.x == input.x,
        input.mask is Some,
        other.mask is Some,
        m.of(input.mask->0) == m.of(other.mask->0),
        forall|scale: F32, cache: Option<usize>, q: T, k: T, v: T, mask: T| #[trigger]
            m.four(Op::Attention { scale, cache }, q, k, v, mask) == mask,
    ensures
        m.of(layer.output(input)) == m.of(layer.output(other)),
        m.of(layer.attended(input)) == m.of(input.mask->0),
{
    broadcast use crate::meaning::group_meaning;

    assert(m.of(layer.attended(input)) == m.of(input.mask->0));
    assert(m.of(layer.attended(other)) == m.of(other.mask->0));
}

} // verus!
