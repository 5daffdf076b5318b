//! What an assistant does, under any meaning of the operations.
use vstd::prelude::*;

use crate::graph::{
    Axes, Dim, Input, ModuleRef, Op, Owner, ParamKind, Pattern, Scalar, Shape, Term, F32,
};
use crate::meaning::Meaning;
use crate::models::args::ArgsView;
use crate::models::block::TransformerBlock;
use crate::models::block_laws::silent_layers_scale;
use crate::models::gemma4::{draws_at, sampled, Model};
use crate::models::gemma4_assistant::{
    block_of, draft_inputs, draft_mask, needs_mask, target_embedding, BorrowedKv, DraftState,
    Gemma4AssistantDraftModel, MaskedEmbedder,
};
use crate::models::layer::LayerType;
use crate::models::pass_laws::{all_silent, scaled_through};

verus! {

/// The assistant is run on the embedding that the target model's own pass gives the token, next to
/// the hidden states that go with it.
pub proof fn drafts_embed_as_the_target_does(args: ArgsView, target: Model, state: DraftState)
    requires
        target.is_for(args),
    ensures
        target_embedding(target, state.token) == target.model.language_model.embedded(state.token),
        draft_inputs(target, state).op == Op::ConcatLast,
        draft_inputs(target, state).args == seq![
            target.model.language_model.embedded(state.token),
            state.hidden,
        ],
{
}

/// The embedding that the assistant is run on is scaled by the root of the target's width: over
/// that root it is what the target's lookup gives the token.
pub proof fn drafts_scale_the_embedding_once<T>(m: Meaning<T>, target: Model, token: Term)
    requires
        forall|x: T| #[trigger]
            m.mul(
                m.mul(x, m.scalar(Scalar::Sqrt(target.args.hidden_size))),
                m.scalar(Scalar::RecipSqrt(target.args.hidden_size)),
            ) == x,
    ensures
        m.mul(
            m.of(target_embedding(target, token)),
            m.scalar(Scalar::RecipSqrt(target.args.hidden_size)),
        ) == m.of(
            target.model.language_model.embed_tokens.output(
                ModuleRef::EmbedTokens { owner: Owner::Target },
                token,
            ),
        ),
{
    broadcast use crate::meaning::group_meaning;

}

/// Each of the assistant's layers takes what the one before it gives, and the first what the first
/// projection makes of the input: where their parts come to nothing, that is multiplied with all
/// their factors.
pub proof fn draft_layers_follow_one_another<T>(
    m: Meaning<T>,
    assistant: Gemma4AssistantDraftModel,
    query_len: i32,
    inputs_embeds: Term,
    n: int,
    zero: T,
)
    requires
        m.has_zero(zero),
        all_silent(m, assistant.model.layers@, Owner::Assistant, zero),
        0 <= n <= assistant.model.layers@.len(),
    ensures
        m.of(assistant.after_layers(query_len, inputs_embeds, n)) == scaled_through(
            m,
            assistant.model.layers@,
            Owner::Assistant,
            m.module(ModuleRef::PreProjection, m.of(inputs_embeds)),
            n,
        ),
    decreases n,
{
    broadcast use crate::meaning::group_meaning;

    if n > 0 {
        draft_layers_follow_one_another(m, assistant, query_len, inputs_embeds, n - 1, zero);
        let layer = assistant.model.layers@[n - 1];
        let h = assistant.after_layers(query_len, inputs_embeds, n - 1);
        silent_layers_scale(m, layer, assistant.layer_input(layer, query_len, h), zero);
    }
}

/// A round of drafting takes the token and the hidden states of the round before, and hands on what
/// the last projection makes of its own hidden states, from whose scores it has chosen its token.
pub proof fn rounds_carry_on<T>(
    m: Meaning<T>,
    assistant: Gemma4AssistantDraftModel,
    args: ArgsView,
    target: Model,
    last_bonus: u32,
    temp: F32,
    draw: nat,
    n: nat,
    zero: T,
) -> (h: Term)
    requires
        m.has_zero(zero),
        all_silent(m, assistant.model.layers@, Owner::Assistant, zero),
        target.is_for(args),
    ensures
        ({
            let before = assistant.drafted(target, last_bonus, temp, draw, n);
            let after = assistant.drafted(target, last_bonus, temp, draw, n + 1);
            let given = m.two(
                Op::ConcatLast,
                m.of(target.model.language_model.embedded(before.token)),
                m.of(before.hidden),
            );
            &&& m.of(h) == m.module(
                ModuleRef::Norm { owner: Owner::Assistant },
                scaled_through(
                    m,
                    assistant.model.layers@,
                    Owner::Assistant,
                    m.module(ModuleRef::PreProjection, given),
                    assistant.model.layers@.len() as int,
                ),
            )
            &&& m.of(after.hidden) == m.module(ModuleRef::PostProjection, m.of(h))
            &&& after.token == sampled(
                assistant.draft_logits(h),
                temp,
                draw + n * draws_at(temp),
            )
            &&& after.tokens == before.tokens.push(after.token)
        }),
        m.of(assistant.drafted(target, last_bonus, temp, draw, 0).token) == m.none(
            Op::Input(Input::Token(last_bonus)),
        ),
        m.of(assistant.drafted(target, last_bonus, temp, draw, 0).hidden) == m.none(
            Op::Input(Input::Hidden),
        ),
{
    broadcast use crate::meaning::group_meaning;

    let before = assistant.drafted(target, last_bonus, temp, draw, n);
    let inputs = draft_inputs(target, before);
    let h = assistant.final_hidden(1, inputs);
    draft_layers_follow_one_another(
        m,
        assistant,
        1,
        inputs,
        assistant.model.layers@.len() as int,
        zero,
    );
    drafts_embed_as_the_target_does(args, target, before);
    h
}

/// The assistant's queries stand at the last position that was lent, which is where the target
/// stood when it gave the hidden states, in rotation and in masks alike, and attend to what was
/// lent for their kind.
pub proof fn drafts_stand_at_the_last_lent_position(
    assistant: Gemma4AssistantDraftModel,
    layer: TransformerBlock,
    query_len: i32,
    h: Term,
)
    requires
        assistant.kv_offset > i32::MIN,
    ensures
        ({
            let input = assistant.layer_input(layer, query_len, h);
            &&& input.position_offset + 1 == assistant.kv_offset
            &&& input.x == h
            &&& input.seq_len == query_len
            &&& input.cache is None
            &&& assistant.borrowed_len(layer.layer_type) matches Some(kv_len) ==> input.mask
                == draft_mask(
                layer.layer_type,
                query_len,
                input.position_offset,
                kv_len,
                assistant.window(),
            )
            &&& input.shared_kv matches Some(lent) && lent.contains_key(layer.layer_type)
                && lent[layer.layer_type].0.op == Op::Input(Input::SharedKeys(layer.layer_type))
                && lent[layer.layer_type].1.op == Op::Input(Input::SharedValues(layer.layer_type))
            &&& layer.generated_mask(input) is None
            &&& assistant.config.text_config.sliding_window is None ==> input.mask is None
        }),
        assistant.config.text_config.sliding_window matches Some(window) ==> assistant.window()
            == window,
{
}

/// What is lent for one kind of layer says nothing of the other, and is what that kind gets.
pub proof fn lent_lengths_are_by_kind(kv: BorrowedKv, len: Option<i32>)
    ensures
        (BorrowedKv { sliding: len, ..kv }).kv_len(LayerType::SlidingAttention) == len,
        (BorrowedKv { full: len, ..kv }).kv_len(LayerType::FullAttention) == len,
        (BorrowedKv { sliding: len, ..kv }).kv_len(LayerType::FullAttention) == kv.kv_len(
            LayerType::FullAttention,
        ),
        (BorrowedKv { full: len, ..kv }).kv_len(LayerType::SlidingAttention) == kv.kv_len(
            LayerType::SlidingAttention,
        ),
{
}

/// The assistant scores with the output layer that it has: the one that looks into the likeliest
/// centroids, before one of its own, before its embedding.
pub proof fn drafts_score_with_the_output_layer<T>(
    m: Meaning<T>,
    assistant: Gemma4AssistantDraftModel,
    h: Term,
    scores: T,
)
    requires
        assistant.masked_embedding is None && assistant.lm_head is Some ==> m.always_gives(
            ModuleRef::LmHead { owner: Owner::Assistant },
            scores,
        ),
        assistant.masked_embedding is None && assistant.lm_head is None ==> forall|x: T, y: T|
            #[trigger] m.two(Op::Matmul, x, y) == scores,
        assistant.masked_embedding is Some ==> forall|x: T, y: T, z: T| #[trigger]
            m.three(Op::PutAlongLast, x, y, z) == scores,
    ensures
        m.of(assistant.draft_logits(h)) == scores,
        assistant.masked_embedding is None && assistant.lm_head is None ==> assistant.draft_logits(
            h,
        ) == assistant.model.embed_tokens.linear_output(
            ModuleRef::EmbedTokens { owner: Owner::Assistant },
            h,
        ),
        assistant.masked_embedding matches Some(masked) ==> exists|table: Term|
            assistant.draft_logits(h) == #[trigger] masked.output(h, table) && table.op
                == (Op::Param {
                module: ModuleRef::EmbedTokens { owner: Owner::Assistant },
                kind: ParamKind::Weight,
            }),
{
    broadcast use crate::meaning::group_meaning;

}

/// A block holds its tokens one after the other.
pub proof fn blocks_hold_their_tokens_in_order<N>(m: Meaning<Seq<N>>, tokens: Seq<Term>)
    requires
        forall|parts: Seq<Seq<N>>| #[trigger] (m.apply)(Op::ConcatAxis1, parts) == parts.flatten(),
        m.none(Op::Input(Input::NoTokens)) == Seq::<N>::empty(),
        forall|i: int| 0 <= i < tokens.len() ==> m.of(#[trigger] tokens[i]).len() == 1,
    ensures
        m.of(block_of(tokens)).len() == tokens.len(),
        forall|i: int|
            0 <= i < tokens.len() ==> #[trigger] m.of(block_of(tokens))[i] == m.of(tokens[i])[0],
{
    broadcast use crate::meaning::group_meaning;

    let parts = tokens.map_values(|t: Term| m.of(t));
    crate::meaning::lemma_of_all(m, tokens);
    lemma_flatten_singles(parts);
    if tokens.len() > 0 {
        assert(m.of(block_of(tokens)) == parts.flatten());
    }
}

proof fn lemma_flatten_singles<N>(parts: Seq<Seq<N>>)
    requires
        forall|i: int| 0 <= i < parts.len() ==> (#[trigger] parts[i]).len() == 1,
    ensures
        parts.flatten().len() == parts.len(),
        forall|i: int| 0 <= i < parts.len() ==> #[trigger] parts.flatten()[i] == parts[i][0],
    decreases parts.len(),
{
    if parts.len() > 0 {
        let rest = parts.drop_first();
        lemma_flatten_singles(rest);
        assert forall|i: int| 0 <= i < parts.len() implies #[trigger] parts.flatten()[i]
            == parts[i][0] by {
            if i > 0 {
                assert(rest[i - 1] == parts[i]);
                assert(rest.flatten()[i - 1] == rest[i - 1][0]);
            }
        }
    }
}

/// A draft makes no mask for a sliding layer where all that was lent fits into the window and its
/// last query is at most as far past the last key as the window is wide. Full attention layers
/// never have one.
pub proof fn masks_are_made_where_the_window_ends(
    query_len: i32,
    query_offset: i32,
    kv_len: i32,
    sliding_window: i32,
)
    requires
        sliding_window > 0,
    ensures
        ({
            let last_query = query_offset + query_len - 1;
            let last_key = kv_len - 1;
            needs_mask(
                LayerType::SlidingAttention,
                query_len,
                query_offset,
                kv_len,
                sliding_window,
            ) <==> last_key >= sliding_window || last_query - last_key > sliding_window
        }),
        !needs_mask(
            LayerType::FullAttention,
            query_len,
            query_offset,
            kv_len,
            sliding_window,
        ),
{
}

/// What the output layer of the likeliest centroids computes with, for one position.
pub enum Part<N> {
    /// The hidden states.
    State(Seq<N>),
    /// The scores of centroids or of tokens.
    Scores(Seq<N>),
    /// Centroids in some order.
    Order(Seq<nat>),
    /// Tokens.
    Tokens(Seq<nat>),
    /// The rows of a table of embeddings.
    Table(Seq<Seq<N>>),
    /// Some rows of a table.
    Rows(Seq<Seq<N>>),
    /// The same, as columns.
    Columns(Seq<Seq<N>>),
}

/// Looking up rows, changing shapes, and multiplying mean what they mean for one position.
pub open spec fn multiplies<N>(
    m: Meaning<Part<N>>,
    dot: spec_fn(Seq<N>, Seq<N>) -> N,
    embedder: MaskedEmbedder,
) -> bool {
    let wide = Op::Reshape(
        Shape::Four(
            Dim::Like(0),
            Dim::Like(1),
            Dim::Fixed((embedder.top_k * embedder.vocab_size_per_centroid) as i32),
            Dim::Fixed(embedder.hidden_size),
        ),
    );
    &&& forall|tokens: Seq<nat>| #[trigger]
        m.one(Op::Reshape(Shape::One(Dim::Rest)), Part::Tokens(tokens)) == Part::<N>::Tokens(tokens)
    &&& forall|table: Seq<Seq<N>>, tokens: Seq<nat>| #[trigger]
        m.two(Op::Take, Part::Table(table), Part::Tokens(tokens)) == Part::Rows(
            tokens.map_values(|t: nat| table[t as int]),
        )
    &&& forall|rows: Seq<Seq<N>>, state: Seq<N>| #[trigger]
        m.two(wide, Part::Rows(rows), Part::State(state)) == Part::Rows(rows)
    &&& forall|rows: Seq<Seq<N>>| #[trigger]
        m.one(Op::Transpose(Axes::SwapLast), Part::Rows(rows)) == Part::Columns(rows)
    &&& forall|state: Seq<N>| #[trigger]
        m.one(Op::Index(Pattern::InsertAxis2), Part::State(state)) == Part::State(state)
    &&& forall|state: Seq<N>, columns: Seq<Seq<N>>| #[trigger]
        m.two(Op::Matmul, Part::State(state), Part::Columns(columns)) == Part::Scores(
            columns.map_values(|c: Seq<N>| dot(state, c)),
        )
    &&& forall|scores: Seq<N>| #[trigger]
        m.one(Op::SqueezeAxis, Part::Scores(scores)) == Part::Scores(scores)
}

/// The score of each token that is looked into is the dot product of the hidden states with the
/// token's own embedding.
pub proof fn selected_tokens_are_scored_by_their_embeddings<N>(
    m: Meaning<Part<N>>,
    dot: spec_fn(Seq<N>, Seq<N>) -> N,
    embedder: MaskedEmbedder,
    hidden_states: Term,
    lm_head_weight: Term,
    state: Seq<N>,
    table: Seq<Seq<N>>,
    tokens: Seq<nat>,
)
    requires
        multiplies(m, dot, embedder),
        m.of(hidden_states) == Part::State(state),
        m.of(lm_head_weight) == Part::Table(table),
        m.of(embedder.selected_tokens(hidden_states)) == Part::<N>::Tokens(tokens),
    ensures
        m.of(embedder.selected_logits(hidden_states, lm_head_weight)) matches Part::Scores(scores)
            && scores.len() == tokens.len() && forall|i: int|
            0 <= i < tokens.len() ==> #[trigger] scores[i] == dot(state, table[tokens[i] as int]),
{
    broadcast use crate::meaning::group_meaning;

    let rows = tokens.map_values(|t: nat| table[t as int]);
    let scores = rows.map_values(|c: Seq<N>| dot(state, c));
    assert(m.of(embedder.selected_logits(hidden_states, lm_head_weight)) == Part::Scores(scores));
}

/// A list cut into rows of the same length, one after the other.
pub open spec fn cuts_into_rows<T>(
    m: Meaning<T>,
    entry: spec_fn(T, int) -> nat,
    cell: spec_fn(T, int, int) -> nat,
) -> bool {
    forall|rows: i32, columns: i32, list: T, i: int, j: int|
        0 <= i < rows && 0 <= j < columns ==> #[trigger] cell(
            m.one(Op::Reshape(Shape::Two(Dim::Fixed(rows), Dim::Fixed(columns))), list),
            i,
            j,
        ) == entry(list, i * columns + j)
}

/// The stored order of tokens lists those of one centroid after those of the other, the same number
/// for each.
pub proof fn centroids_have_consecutive_tokens<T>(
    m: Meaning<T>,
    entry: spec_fn(T, int) -> nat,
    cell: spec_fn(T, int, int) -> nat,
    embedder: MaskedEmbedder,
    centroid: int,
    k: int,
)
    requires
        cuts_into_rows(m, entry, cell),
        0 <= centroid < embedder.num_centroids,
        0 <= k < embedder.vocab_size_per_centroid,
    ensures
        cell(m.of(embedder.groups()), centroid, k) == entry(
            m.param(ModuleRef::TokenOrdering, ParamKind::Weight),
            centroid * embedder.vocab_size_per_centroid + k,
        ),
{
    broadcast use crate::meaning::group_meaning;

}

/// `order` holds each of the places of `scores` once, and from `first` on, none scores less than
/// one before `first`.
pub open spec fn is_parted(order: Seq<nat>, scores: Seq<int>, first: int) -> bool {
    &&& order.len() == scores.len()
    &&& order.no_duplicates()
    &&& forall|c: int| 0 <= c < scores.len() ==> #[trigger] order.contains(c as nat)
    &&& forall|i: int, j: int|
        0 <= i < first <= j < order.len() ==> scores[#[trigger] order[i] as int]
            <= scores[#[trigger] order[j] as int]
}

/// Partitioning parts the centroids by their scores at the place `kth`, which counts from the end,
/// and what follows that place can be taken.
pub open spec fn partitions(m: Meaning<Part<int>>, kth: i32) -> bool {
    &&& forall|scores: Seq<int>|
        #![trigger m.one(Op::ArgpartitionLast { kth }, Part::Scores(scores))]
        -scores.len() <= kth < 0 ==> {
            let parted = m.one(Op::ArgpartitionLast { kth }, Part::Scores(scores));
            parted is Order && is_parted(parted->Order_0, scores, scores.len() + kth)
        }
    &&& forall|order: Seq<nat>|
        #![trigger m.one(Op::Index(Pattern::TailAxis2(kth)), Part::Order(order))]
        -order.len() <= kth < 0 ==> m.one(Op::Index(Pattern::TailAxis2(kth)), Part::Order(order))
            == Part::<int>::Order(order.skip(order.len() + kth))
}

/// The centroids that are looked into are as many as asked for, and no other scores higher than
/// one of them.
pub proof fn the_likeliest_centroids_are_looked_into(
    m: Meaning<Part<int>>,
    embedder: MaskedEmbedder,
    hidden_states: Term,
    scores: Seq<int>,
)
    requires
        0 < embedder.top_k <= scores.len(),
        partitions(m, (-embedder.top_k) as i32),
        m.module(ModuleRef::Centroids, m.of(hidden_states)) == Part::Scores(scores),
    ensures
        m.of(embedder.likeliest(hidden_states)) matches Part::Order(chosen) && chosen.len()
            == embedder.top_k && chosen.no_duplicates() && forall|i: int, other: int|
            0 <= i < chosen.len() && 0 <= other < scores.len() && !chosen.contains(other as nat)
                ==> #[trigger] scores[other] <= scores[#[trigger] chosen[i] as int],
{
    broadcast use crate::meaning::group_meaning;

    let kth = (-embedder.top_k) as i32;
    let parted = m.one(Op::ArgpartitionLast { kth }, Part::Scores(scores));
    let order = parted->Order_0;
    let first = order.len() + kth;
    let chosen = order.skip(first);
    assert(m.of(embedder.likeliest(hidden_states)) == Part::<int>::Order(chosen));
    assert forall|i: int, other: int|
        0 <= i < chosen.len() && 0 <= other < scores.len() && !chosen.contains(
            other as nat,
        ) implies #[trigger] scores[other] <= scores[#[trigger] chosen[i] as int] by {
        assert(order.contains(other as nat));
        let k = choose|k: int| 0 <= k < order.len() && order[k] == other as nat;
        if k >= first {
            assert(chosen[k - first] == other as nat);
        }
        assert(chosen[i] == order[first + i]);
        assert(scores[order[k] as int] <= scores[order[first + i] as int]);
    }
    assert forall|i: int, j: int| 0 <= i < j < chosen.len() implies chosen[i] != chosen[j] by {
        assert(order[first + i] != order[first + j]);
    }
}

} // verus!
