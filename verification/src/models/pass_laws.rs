//! What a pass through a model and the choice of a token do, under any meaning of the operations.
use vstd::prelude::*;

use crate::graph::{
    app0, app1, is_part, Dim, Input, ModuleRef, Op, Owner, Pattern, Scalar, Shape, Term, F32,
};
use crate::meaning::Meaning;
use crate::models::args::ArgsView;
use crate::models::block::TransformerBlock;
use crate::models::block_laws::{
    attends_to_nothing, factor, feeds_nothing, masks_by_position, silent_layers_scale,
    sliding_layers_mask_their_window,
};
use crate::models::gemma4::{sampled, softcapped, Model};
use crate::models::generate::{
    first_pass, pass_len, pass_output, pass_tokens, sampling_pass, GenerateState, TokenPass,
};
use crate::models::layer::LayerType;
use crate::models::text_model::{
    passes_start_at_the_largest_offset, run_layers, Gemma4TextModel, Pass, RunState,
};

verus! {

/// The factor of the embedding is undone by its reciprocal: what is left is what the lookup gives.
pub proof fn embeddings_are_scaled_once<T>(m: Meaning<T>, model: Gemma4TextModel, tokens: Term)
    requires
        forall|x: T| #[trigger]
            m.mul(
                m.mul(x, m.scalar(Scalar::Sqrt(model.hidden_size))),
                m.scalar(Scalar::RecipSqrt(model.hidden_size)),
            ) == x,
    ensures
        m.mul(
            m.of(model.embedded(tokens)),
            m.scalar(Scalar::RecipSqrt(model.hidden_size)),
        ) == m.of(
            model.embed_tokens.output(ModuleRef::EmbedTokens { owner: Owner::Target }, tokens),
        ),
{
    broadcast use crate::meaning::group_meaning;

}

/// A factor `root` undoes the half root.
pub open spec fn is_root_of_two<T>(m: Meaning<T>, root: T) -> bool {
    forall|x: T| #[trigger] m.mul(m.mul(x, m.scalar(Scalar::RootHalf)), root) == x
}

/// The per-layer inputs times the root of two are a sum: of what the embeddings give through the
/// model's projection, normalized, and of the tokens' own embeddings.
pub proof fn per_layer_inputs_are_a_sum<T>(
    m: Meaning<T>,
    model: Gemma4TextModel,
    input_ids: Term,
    inputs_embeds: Term,
    root: T,
)
    requires
        model.gives_per_layer_inputs(),
        is_root_of_two(m, root),
    ensures
        ({
            let both = m.of(model.per_layer_terms(input_ids, inputs_embeds)->0);
            &&& m.mul(both, root) == m.add(
                m.of(model.context_projection(inputs_embeds)),
                m.of(model.token_identity(input_ids)),
            )
            &&& model.context_projection(inputs_embeds).op == Op::Forward(
                ModuleRef::PerLayerProjectionNorm,
            )
        }),
{
    broadcast use crate::meaning::group_meaning;

}

/// Changing the shape of `zero` leaves it.
pub open spec fn shapes_keep<T>(m: Meaning<T>, zero: T) -> bool {
    forall|shape: Shape, like: T| #[trigger] m.two(Op::Reshape(shape), zero, like) == zero
}

/// Where the projection of the embeddings comes to nothing, the per-layer inputs are the tokens'
/// own per-layer embeddings, times the root of their width, over the root of two.
pub proof fn per_layer_inputs_without_projection<T>(
    m: Meaning<T>,
    model: Gemma4TextModel,
    input_ids: Term,
    inputs_embeds: Term,
    zero: T,
)
    requires
        model.gives_per_layer_inputs(),
        m.has_zero(zero),
        shapes_keep(m, zero),
        m.always_gives(ModuleRef::PerLayerModelProjection, zero),
        m.module(ModuleRef::PerLayerProjectionNorm, zero) == zero,
    ensures
        ({
            let found = m.of(
                model.embed_tokens_per_layer->0.output(ModuleRef::EmbedTokensPerLayer, input_ids),
            );
            let width = Scalar::Sqrt(model.hidden_size_per_layer_input);
            let by_layer = Op::Reshape(
                Shape::Four(
                    Dim::Like(0),
                    Dim::Like(1),
                    Dim::Fixed(model.num_hidden_layers),
                    Dim::Fixed(model.hidden_size_per_layer_input),
                ),
            );
            m.of(model.per_layer_terms(input_ids, inputs_embeds)->0) == m.mul(
                m.two(by_layer, m.mul(found, m.scalar(width)), m.of(input_ids)),
                m.scalar(Scalar::RootHalf),
            )
        }),
{
    broadcast use crate::meaning::group_meaning;

}

/// Where the tokens' own per-layer embeddings are zero, the per-layer inputs are what the
/// embeddings give through the projection, normalized, over the root of two: two embeddings that
/// the projection makes alike give the same.
pub proof fn per_layer_inputs_of_the_projection<T>(
    m: Meaning<T>,
    model: Gemma4TextModel,
    input_ids: Term,
    inputs_embeds: Term,
    zero: T,
) -> (normalized: T)
    requires
        model.gives_per_layer_inputs(),
        m.has_zero(zero),
        shapes_keep(m, zero),
        m.of(model.embed_tokens_per_layer->0.output(ModuleRef::EmbedTokensPerLayer, input_ids))
            == zero,
    ensures
        m.of(model.per_layer_terms(input_ids, inputs_embeds)->0) == m.mul(
            normalized,
            m.scalar(Scalar::RootHalf),
        ),
        exists|x: T|
            normalized == #[trigger] m.module(
                ModuleRef::PerLayerProjectionNorm,
                m.two(
                    model.per_layer_shape(),
                    m.mul(
                        m.module(ModuleRef::PerLayerModelProjection, x),
                        m.scalar(Scalar::RecipSqrt(model.hidden_size)),
                    ),
                    x,
                ),
            ) && x == m.of(inputs_embeds),
{
    broadcast use crate::meaning::group_meaning;

    let x = m.of(inputs_embeds);
    m.module(
        ModuleRef::PerLayerProjectionNorm,
        m.two(
            model.per_layer_shape(),
            m.mul(
                m.module(ModuleRef::PerLayerModelProjection, x),
                m.scalar(Scalar::RecipSqrt(model.hidden_size)),
            ),
            x,
        ),
    )
}

/// `x` times the factors of the first `n` layers.
pub open spec fn scaled_through<T>(
    m: Meaning<T>,
    layers: Seq<TransformerBlock>,
    owner: Owner,
    x: T,
    n: int,
) -> T
    decreases n,
{
    if n <= 0 {
        x
    } else {
        m.mul(scaled_through(m, layers, owner, x, n - 1), factor(m, layers[n - 1], owner))
    }
}

/// The parts of all layers come to nothing.
pub open spec fn all_silent<T>(
    m: Meaning<T>,
    layers: Seq<TransformerBlock>,
    owner: Owner,
    zero: T,
) -> bool {
    forall|i: int|
        0 <= i < layers.len() ==> attends_to_nothing(m, #[trigger] layers[i], owner, zero)
            && feeds_nothing(m, layers[i], owner, zero)
}

/// Each layer takes what the layer before it gives: where their parts come to nothing, layers give
/// what they were given times all their factors, one after the other.
pub proof fn layers_follow_one_another<T>(
    m: Meaning<T>,
    layers: Seq<TransformerBlock>,
    pass: Pass,
    n: int,
    zero: T,
)
    requires
        m.has_zero(zero),
        all_silent(m, layers, Owner::Target, zero),
        pass.per_layer is None,
        0 <= n <= layers.len(),
        run_layers(layers, pass, n) is Some,
    ensures
        m.of(run_layers(layers, pass, n)->0.h) == scaled_through(
            m,
            layers,
            Owner::Target,
            m.of(pass.h),
            n,
        ),
    decreases n,
{
    if n > 0 {
        layers_follow_one_another(m, layers, pass, n - 1, zero);
        let state = run_layers(layers, pass, n - 1)->0;
        let layer = layers[n - 1];
        silent_layers_scale(m, layer, pass.layer_input(n - 1, state), zero);
    }
}

/// A whole pass takes the scaled embeddings of its tokens through the layers that run.
pub proof fn passes_start_with_the_embeddings<T>(
    m: Meaning<T>,
    model: Gemma4TextModel,
    tokens: Term,
    seq_len: i32,
    mask: Option<Term>,
    slots: Seq<Option<i32>>,
    zero: T,
)
    requires
        m.has_zero(zero),
        all_silent(m, model.layers@, Owner::Target, zero),
        !model.gives_per_layer_inputs(),
        model.run(tokens, seq_len, mask, slots) is Some,
    ensures
        ({
            let layers = model.layers@;
            let count = if 0 < slots.len() < layers.len() {
                slots.len() as int
            } else {
                layers.len() as int
            };
            m.of(model.run(tokens, seq_len, mask, slots)->0.h) == scaled_through(
                m,
                layers,
                Owner::Target,
                m.of(model.embedded(tokens)),
                count,
            )
        }),
{
    let pass = model.pass(tokens, seq_len, mask, slots);
    layers_follow_one_another(
        m,
        model.layers@,
        pass,
        pass.run_count(model.layers@.len() as int),
        zero,
    );
}

/// A pass over more than one token hides from each what comes after it, through a mask that starts
/// with the first of them and sees all the way back; a single token needs no mask, and a mask that
/// is given is kept.
pub proof fn passes_mask_what_comes_later<T>(
    m: Meaning<T>,
    model: Gemma4TextModel,
    tokens: Term,
    seq_len: i32,
    mask: Option<Term>,
    slots: Seq<Option<i32>>,
    plane: spec_fn(int, Option<i32>) -> T,
)
    requires
        masks_by_position(m, m.of(model.embedded(tokens)), plane),
    ensures
        ({
            let made = model.pass(tokens, seq_len, mask, slots).mask;
            &&& mask is Some ==> made == mask
            &&& mask is None ==> (made is Some <==> seq_len > 1)
            &&& mask is None && seq_len > 1 ==> m.of(made->0) == plane(0, None)
        }),
{
    broadcast use crate::meaning::group_meaning;

}

/// A pass has a cache wherever one of its layers keeps keys and values: it uses those that it was
/// given, each for the layer of its place, and as many new ones as it needs where it was given no
/// place at all.
pub proof fn caches_are_there_for_the_layers(
    model: Gemma4TextModel,
    tokens: Term,
    seq_len: i32,
    mask: Option<Term>,
    slots: Seq<Option<i32>>,
    index: int,
)
    requires
        0 <= index < model.layers@.len() <= usize::MAX,
    ensures
        ({
            let pass = model.pass(tokens, seq_len, mask, slots);
            let new = model.caches_needed(slots.len());
            &&& slots.len() > 0 ==> new == 0
            &&& pass.cache(index) matches Some(slot) ==> slot == index && slot < slots.len() + new
            &&& pass.cache(index) is Some <==> index < new || (index < slots.len()
                && slots[index] is Some)
            &&& slots.len() == 0 ==> forall|slot: int|
                0 <= slot < new ==> #[trigger] pass.cache(slot) == Some(slot as usize) && slot
                    < pass.run_count(model.layers@.len() as int)
        }),
{
}

/// All layers of a pass stand where the fullest of its caches ends, or at the start where none is
/// filled, and its sliding layers see back from there as far as their window. What all layers are
/// given beside the stream comes from the same tokens and embeddings as the stream.
pub proof fn layers_stand_where_the_caches_end<T>(
    m: Meaning<T>,
    model: Gemma4TextModel,
    tokens: Term,
    seq_len: i32,
    mask: Option<Term>,
    slots: Seq<Option<i32>>,
    index: int,
    state: RunState,
    layer: TransformerBlock,
    plane: spec_fn(int, Option<i32>) -> T,
)
    requires
        masks_by_position(m, m.of(state.h), plane),
    ensures
        ({
            let pass = model.pass(tokens, seq_len, mask, slots);
            let input = pass.layer_input(index, state);
            &&& forall|i: int|
                0 <= i < slots.len() ==> (#[trigger] slots[i] matches Some(offset) ==> offset
                    <= input.position_offset)
            &&& (exists|i: int|
                0 <= i < slots.len() && #[trigger] slots[i] == Some(input.position_offset)) || (
            input.position_offset == 0 && forall|i: int|
                0 <= i < slots.len() ==> #[trigger] slots[i] is None)
            &&& layer.layer_type == LayerType::SlidingAttention && layer.sliding_window is Some
                ==> layer.attention_input(input).mask is Some && m.of(
                layer.attention_input(input).mask->0,
            ) == plane(input.position_offset as int, layer.sliding_window)
            &&& input.seq_len == seq_len
            &&& input.x == state.h
            &&& input.owner == Owner::Target
            &&& input.cache == pass.cache(index)
            &&& input.shared_kv == Some(state.kept)
            &&& input.mask == pass.mask
            &&& input.per_layer_input == pass.per_layer_input(index)
            &&& pass.h == model.embedded(tokens)
            &&& pass.per_layer == model.per_layer_terms(tokens, pass.h)
        }),
{
    let pass = model.pass(tokens, seq_len, mask, slots);
    passes_start_at_the_largest_offset(slots);
    sliding_layers_mask_their_window(m, layer, pass.layer_input(index, state), plane);
}

/// Each layer is given its own part of the per-layer inputs: those of two layers are the same part
/// only if the layers are the same.
pub proof fn layers_have_parts_of_their_own(pass: Pass, all: Term, i: int, j: int)
    requires
        pass.per_layer == Some(all),
        0 <= i <= i32::MAX,
        0 <= j <= i32::MAX,
    ensures
        pass.per_layer_input(i) == Some(app1(Op::Index(Pattern::SelectAxis2(i as i32)), all)),
        pass.per_layer_input(i) == pass.per_layer_input(j) ==> i == j,
{
    let a = app1(Op::Index(Pattern::SelectAxis2(i as i32)), all);
    let b = app1(Op::Index(Pattern::SelectAxis2(j as i32)), all);
    if a == b {
        assert(a.op == b.op);
    }
}

/// The scores depend on the stream only through its last normalization.
pub proof fn scores_are_of_normalized_states<T>(
    m: Meaning<T>,
    model: Model,
    state: RunState,
    other: RunState,
)
    requires
        m.module(ModuleRef::Norm { owner: Owner::Target }, m.of(state.h)) == m.module(
            ModuleRef::Norm { owner: Owner::Target },
            m.of(other.h),
        ),
    ensures
        m.of(model.logits(state)) == m.of(model.logits(other)),
        m.of(model.model.language_model.output(state)) == m.module(
            ModuleRef::Norm { owner: Owner::Target },
            m.of(state.h),
        ),
        is_part(model.model.language_model.output(state), model.logits(state)),
{
    broadcast use crate::meaning::group_meaning;

    let out = model.model.language_model.output(state);
    let logits = model.logits(state);
    let raw = match model.args.final_logit_softcapping {
        Some(_) => logits.args[0].args[0].args[0],
        None => logits,
    };
    assert(raw.args[0] == out);
    assert(is_part(out, raw.args[0]));
    assert(is_part(out, raw));
    if model.args.final_logit_softcapping is Some {
        let ratio = logits.args[0].args[0];
        assert(is_part(out, ratio.args[0]));
        assert(is_part(out, ratio));
        assert(is_part(out, logits.args[0]));
        assert(is_part(out, logits));
    }
}

/// A model with an output layer of its own scores with it alone, and a model without one scores by
/// products with its embedding: where the one that it has gives the same for everything, so does
/// the model, up to the cap.
pub proof fn scores_come_from_the_output_layer<T>(
    m: Meaning<T>,
    model: Model,
    state: RunState,
    scores: T,
)
    requires
        model.lm_head is Some ==> m.always_gives(
            ModuleRef::LmHead { owner: Owner::Target },
            scores,
        ),
        model.lm_head is None ==> forall|x: T, y: T| #[trigger] m.two(Op::Matmul, x, y) == scores,
    ensures
        model.args.final_logit_softcapping is None ==> m.of(model.logits(state)) == scores,
        model.args.final_logit_softcapping matches Some(cap) ==> m.of(model.logits(state))
            == m.mul(
            m.one(Op::Tanh, m.two(Op::Divide, scores, m.scalar(Scalar::Value(cap)))),
            m.scalar(Scalar::Value(cap)),
        ),
        model.lm_head is None && model.args.final_logit_softcapping is None ==> model.logits(state)
            == model.model.language_model.embed_tokens.linear_output(
            ModuleRef::EmbedTokens { owner: Owner::Target },
            model.model.language_model.output(state),
        ),
{
    broadcast use crate::meaning::group_meaning;

}

/// Scores are capped by the configured number: they are that number times a hyperbolic tangent,
/// and where that is the identity they are what they were.
pub proof fn caps_bound_the_scores<T>(m: Meaning<T>, logits: Term, cap: F32)
    ensures
        exists|x: T|
            m.of(softcapped(logits, Some(cap))) == m.mul(
                #[trigger] m.one(Op::Tanh, x),
                m.scalar(Scalar::Value(cap)),
            ),
        (forall|x: T| #[trigger] m.one(Op::Tanh, x) == x) && (forall|x: T| #[trigger]
            m.mul(
                m.two(Op::Divide, x, m.scalar(Scalar::Value(cap))),
                m.scalar(Scalar::Value(cap)),
            ) == x) ==> m.of(softcapped(logits, Some(cap))) == m.of(logits),
        softcapped(logits, None) == logits,
{
    broadcast use crate::meaning::group_meaning;

    let x = m.two(Op::Divide, m.of(logits), m.scalar(Scalar::Value(cap)));
    assert(m.of(softcapped(logits, Some(cap))) == m.mul(
        m.one(Op::Tanh, x),
        m.scalar(Scalar::Value(cap)),
    ));
}

/// Tensors are lists of numbers, of which `temp` is one; a tensor is multiplied with a number
/// entry by entry, and multiplying with `temp` undoes multiplying with its reciprocal.
pub open spec fn scales_entries<N>(
    m: Meaning<Seq<N>>,
    times: spec_fn(N, N) -> N,
    temp: F32,
    value: N,
    reciprocal: N,
) -> bool {
    &&& forall|xs: Seq<N>, x: N| #[trigger]
        m.mul(xs, seq![x]) == xs.map_values(|y: N| times(y, x))
    &&& m.scalar(Scalar::Recip(temp)) == seq![reciprocal]
    &&& forall|x: N| times(#[trigger] times(x, reciprocal), value) == x
}

/// A token is drawn from the scores over the temperature: each entry of what the draw takes, times
/// the temperature, is the entry of the scores. At a temperature of zero the largest entry of the
/// scores themselves is taken.
pub proof fn draws_are_from_scores_over_the_temperature<N>(
    m: Meaning<Seq<N>>,
    times: spec_fn(N, N) -> N,
    logits: Term,
    temp: F32,
    draw: nat,
    value: N,
    reciprocal: N,
)
    requires
        scales_entries(m, times, temp, value, reciprocal),
    ensures
        ({
            let chosen = sampled(logits, temp, draw);
            let taken = m.of(chosen.args[0]);
            let scores = m.of(logits);
            if temp.spec_is_zero() {
                &&& chosen.op == Op::ArgmaxLast
                &&& taken == scores
            } else {
                &&& chosen.op == Op::Categorical { draw: draw as usize }
                &&& taken.len() == scores.len()
                &&& forall|i: int|
                    0 <= i < scores.len() ==> times(#[trigger] taken[i], value) == scores[i]
            }
        }),
        sampled(logits, temp, draw).args.len() == 1,
{
    broadcast use crate::meaning::group_meaning;

    if !temp.spec_is_zero() {
        let taken = m.of(sampled(logits, temp, draw).args[0]);
        let scores = m.of(logits);
        assert(taken == m.mul(scores, seq![reciprocal]));
        assert(taken =~= scores.map_values(|y: N| times(y, reciprocal)));
        assert forall|i: int| 0 <= i < scores.len() implies times(#[trigger] taken[i], value)
            == scores[i] by {
            assert(taken[i] == times(scores[i], reciprocal));
        }
    }
}

/// A token that a pass samples depends on the scores of the last position alone.
pub proof fn tokens_are_sampled_from_the_last_position<T>(
    m: Meaning<T>,
    model: Model,
    pass: TokenPass,
    temp: F32,
    state: RunState,
    other: RunState,
)
    requires
        !(pass is Prefix),
        m.one(Op::Index(Pattern::LastOfAxis1), m.of(model.logits(state))) == m.one(
            Op::Index(Pattern::LastOfAxis1),
            m.of(model.logits(other)),
        ),
    ensures
        m.of(pass_output(model, pass, temp, state)) == m.of(pass_output(model, pass, temp, other)),
        temp.spec_is_zero() ==> m.of(pass_output(model, pass, temp, state)) == m.one(
            Op::ArgmaxLast,
            m.one(Op::Index(Pattern::LastOfAxis1), m.of(model.logits(state))),
        ),
{
    broadcast use crate::meaning::group_meaning;

}

/// The passes on a prompt run its tokens once, in order: those of the first pass, followed by those
/// of the pass that samples, are the prompt, and each pass says how many it runs.
pub proof fn prompts_are_split_in_two<N>(m: Meaning<Seq<N>>, prompt_len: i32)
    requires
        prompt_len > 1,
        m.none(Op::Input(Input::Tokens)).len() == prompt_len,
        forall|xs: Seq<N>, end: i32|
            0 <= end <= xs.len() ==> #[trigger] m.one(Op::Index(Pattern::HeadAxis1(end)), xs)
                == xs.take(end as int),
        forall|xs: Seq<N>, start: i32|
            0 <= start <= xs.len() ==> #[trigger] m.one(Op::Index(Pattern::TailAxis1(start)), xs)
                == xs.skip(start as int),
    ensures
        ({
            let state = GenerateState::Prefill { prompt_len };
            let before = m.of(pass_tokens(first_pass(state)));
            let last = m.of(pass_tokens(sampling_pass(state)));
            &&& before + last == m.none(Op::Input(Input::Tokens))
            &&& before.len() == pass_len(first_pass(state))
            &&& last.len() == pass_len(sampling_pass(state))
            &&& last.len() == 1
        }),
{
    broadcast use crate::meaning::group_meaning;

    let state = GenerateState::Prefill { prompt_len };
    let tokens = m.none(Op::Input(Input::Tokens));
    let end = (prompt_len - 1) as i32;
    assert(m.of(app0(Op::Input(Input::Tokens))) == tokens);
    assert(m.one(Op::Index(Pattern::HeadAxis1(end)), tokens) == tokens.take(end as int));
    assert(m.one(Op::Index(Pattern::TailAxis1(end)), tokens) == tokens.skip(end as int));
    let before = m.of(pass_tokens(first_pass(state)));
    let last = m.of(pass_tokens(sampling_pass(state)));
    assert(before + last =~= tokens);
}

/// The model of a configuration has the widths that its parts agree on.
pub proof fn models_agree_on_their_width(args: ArgsView, model: Model)
    requires
        model.is_for(args),
    ensures
        model.args.hidden_size == model.model.language_model.hidden_size,
        model.model.language_model.embed_tokens.hidden_size
            == model.model.language_model.hidden_size,
        model.model.language_model.norm.dims == model.model.language_model.hidden_size,
        model.lm_head matches Some(head) ==> head.input_dims
            == model.model.language_model.hidden_size && head.output_dims
            == model.model.language_model.vocab_size && head.quantization is None,
        model.lm_head is None <==> args.tie_word_embeddings,
{
}

} // verus!
