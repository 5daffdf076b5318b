//! What holds of the masks and scores of drafts, given what the operations on them mean.
use vstd::prelude::*;

use crate::graph::{app0, app1, app2, app3, Dim, Op, Pattern, Scalar, Shape, Term, F32};
use crate::models::gemma4_assistant::{
    distances, draft_mask, inside_window, needs_mask, MaskedEmbedder, NEG_INFINITY_BITS,
};
use crate::models::layer::LayerType;
use crate::models::text_model::scalar;

verus! {

/// Entries in rows and columns.
pub struct Plane<T> {
    pub height: nat,
    pub width: nat,
    pub at: spec_fn(int, int) -> T,
}

/// A tensor of positions, of what is compared about them, or of a mask.
pub enum Grid {
    Int(int),
    Number(F32),
    /// One axis.
    Line(Seq<int>),
    /// Two axes, the second of length one.
    Column(Seq<int>),
    /// Two axes, the first of length one.
    Row(Seq<int>),
    Ints(Plane<int>),
    Tests(Plane<bool>),
    Numbers(Plane<F32>),
    /// Two axes of length one before the rows and columns.
    Mask(Plane<F32>),
    /// Anything else.
    Other,
}

/// The whole numbers from `start` up to `stop`.
pub open spec fn counted(start: int, stop: int) -> Seq<int> {
    Seq::new(
        if start < stop {
            (stop - start) as nat
        } else {
            0
        },
        |i: int| start + i,
    )
}

/// Each entry of `column` less each of `row`, where all differences are 32-bit numbers.
pub open spec fn differences(column: Seq<int>, row: Seq<int>) -> Grid {
    if forall|i: int, j: int|
        0 <= i < column.len() && 0 <= j < row.len() ==> i32::MIN <= #[trigger] column[i]
            - #[trigger] row[j] <= i32::MAX {
        Grid::Ints(
            Plane {
                height: column.len(),
                width: row.len(),
                at: |i: int, j: int| column[i] - row[j],
            },
        )
    } else {
        Grid::Other
    }
}

/// What the operation `op` gives for its first three arguments.
pub open spec fn grid_of_op(op: Op, first: Grid, second: Grid, third: Grid) -> Grid {
    match (op, first, second, third) {
        (Op::Arange { start, stop }, _, _, _) => Grid::Line(
            counted(
                match start {
                    Some(start) => start as int,
                    None => 0,
                },
                stop as int,
            ),
        ),
        (Op::Scalar(Scalar::Int(n)), _, _, _) => Grid::Int(n as int),
        (Op::Scalar(Scalar::Value(x)), _, _, _) => Grid::Number(x),
        (Op::Index(Pattern::AppendAxis), Grid::Line(s), _, _) => Grid::Column(s),
        (Op::Index(Pattern::PrependAxis), Grid::Line(s), _, _) => Grid::Row(s),
        (Op::Index(Pattern::PrependTwoAxes), Grid::Numbers(p), _, _) => Grid::Mask(p),
        (Op::Subtract, Grid::Column(q), Grid::Row(k), _) => differences(q, k),
        (Op::Greater, Grid::Ints(p), Grid::Int(n), _) => Grid::Tests(
            Plane { height: p.height, width: p.width, at: |i: int, j: int| (p.at)(i, j) > n },
        ),
        (Op::Less, Grid::Ints(p), Grid::Int(n), _) => Grid::Tests(
            Plane { height: p.height, width: p.width, at: |i: int, j: int| (p.at)(i, j) < n },
        ),
        (Op::LogicalAnd, Grid::Tests(p), Grid::Tests(q), _) if p.height == q.height && p.width
            == q.width => Grid::Tests(
            Plane {
                height: p.height,
                width: p.width,
                at: |i: int, j: int| (p.at)(i, j) && (q.at)(i, j),
            },
        ),
        (Op::Which, Grid::Tests(p), Grid::Number(x), Grid::Number(y)) => Grid::Numbers(
            Plane {
                height: p.height,
                width: p.width,
                at: |i: int, j: int|
                    if (p.at)(i, j) {
                        x
                    } else {
                        y
                    },
            },
        ),
        _ => Grid::Other,
    }
}

/// The tensor that `term` stands for.
pub open spec fn grid(term: Term) -> Grid
    decreases term,
{
    let first = if term.args.len() > 0 {
        grid(term.args[0])
    } else {
        Grid::Other
    };
    let second = if term.args.len() > 1 {
        grid(term.args[1])
    } else {
        Grid::Other
    };
    let third = if term.args.len() > 2 {
        grid(term.args[2])
    } else {
        Grid::Other
    };
    grid_of_op(term.op, first, second, third)
}

proof fn lemma_grid0(op: Op)
    ensures
        grid(app0(op)) == grid_of_op(op, Grid::Other, Grid::Other, Grid::Other),
{
}

proof fn lemma_grid1(op: Op, a: Term)
    ensures
        grid(app1(op, a)) == grid_of_op(op, grid(a), Grid::Other, Grid::Other),
{
    assert(app1(op, a).args[0] == a);
}

proof fn lemma_grid2(op: Op, a: Term, b: Term)
    ensures
        grid(app2(op, a, b)) == grid_of_op(op, grid(a), grid(b), Grid::Other),
{
    let t = app2(op, a, b);
    assert(t.args[0] == a && t.args[1] == b);
}

proof fn lemma_grid3(op: Op, a: Term, b: Term, c: Term)
    ensures
        grid(app3(op, a, b, c)) == grid_of_op(op, grid(a), grid(b), grid(c)),
{
    let t = app3(op, a, b, c);
    assert(t.args[0] == a && t.args[1] == b && t.args[2] == c);
}

proof fn lemma_distances(query_len: i32, query_offset: i32, kv_len: i32)
    requires
        query_len >= 0,
        kv_len >= 0,
        query_offset + query_len <= i32::MAX,
        i32::MIN <= query_offset - kv_len,
    ensures
        grid(distances(query_len, query_offset, kv_len)) matches Grid::Ints(plane) && plane.height
            == query_len && plane.width == kv_len && forall|i: int, j: int|
            0 <= i < query_len && 0 <= j < kv_len ==> #[trigger] (plane.at)(i, j) == query_offset
                + i - j,
{
    let stop = (query_offset + query_len) as i32;
    let from_queries = Op::Arange { start: Some(query_offset), stop };
    let from_keys = Op::Arange { start: None, stop: kv_len };
    lemma_grid0(from_queries);
    lemma_grid0(from_keys);
    lemma_grid1(Op::Index(Pattern::AppendAxis), app0(from_queries));
    lemma_grid1(Op::Index(Pattern::PrependAxis), app0(from_keys));
    lemma_grid2(
        Op::Subtract,
        app1(Op::Index(Pattern::AppendAxis), app0(from_queries)),
        app1(Op::Index(Pattern::PrependAxis), app0(from_keys)),
    );
    let queries = counted(query_offset as int, stop as int);
    let keys = counted(0, kv_len as int);
    assert(queries.len() == query_len && keys.len() == kv_len);
}

/// The mask of a draft opens the window: the entry of query `i` and key `j` is zero where they are
/// less than `sliding_window` positions apart, and minus infinity elsewhere. The distances have to
/// be 32-bit numbers.
pub proof fn draft_masks_open_the_window(
    query_len: i32,
    query_offset: i32,
    kv_len: i32,
    sliding_window: i32,
    i: int,
    j: int,
)
    requires
        needs_mask(
            LayerType::SlidingAttention,
            query_len,
            query_offset,
            kv_len,
            sliding_window,
        ),
        query_offset + query_len <= i32::MAX,
        i32::MIN <= query_offset - kv_len,
        0 <= i < query_len,
        0 <= j < kv_len,
    ensures
        draft_mask(
            LayerType::SlidingAttention,
            query_len,
            query_offset,
            kv_len,
            sliding_window,
        ) matches Some(mask) && (grid(mask) matches Grid::Mask(plane) && plane.height == query_len
            && plane.width == kv_len && (plane.at)(i, j) == if -sliding_window < query_offset + i
            - j < sliding_window {
            F32 { bits: 0 }
        } else {
            F32 { bits: NEG_INFINITY_BITS }
        }),
{
    let distance = distances(query_len, query_offset, kv_len);
    lemma_distances(query_len, query_offset, kv_len);
    let low = scalar(Scalar::Int((-sliding_window) as i32));
    let high = scalar(Scalar::Int(sliding_window));
    lemma_grid0(Op::Scalar(Scalar::Int((-sliding_window) as i32)));
    lemma_grid0(Op::Scalar(Scalar::Int(sliding_window)));
    lemma_grid2(Op::Greater, distance, low);
    lemma_grid2(Op::Less, distance, high);
    lemma_grid2(
        Op::LogicalAnd,
        app2(Op::Greater, distance, low),
        app2(Op::Less, distance, high),
    );
    let inside = inside_window(distance, sliding_window);
    let zero = F32 { bits: 0 };
    let infinity = F32 { bits: NEG_INFINITY_BITS };
    lemma_grid0(Op::Scalar(Scalar::Value(zero)));
    lemma_grid0(Op::Scalar(Scalar::Value(infinity)));
    let bias = app3(
        Op::Which,
        inside,
        scalar(Scalar::Value(zero)),
        scalar(Scalar::Value(infinity)),
    );
    lemma_grid3(
        Op::Which,
        inside,
        scalar(Scalar::Value(zero)),
        scalar(Scalar::Value(infinity)),
    );
    lemma_grid1(Op::Index(Pattern::PrependTwoAxes), bias);
}

/// A tensor with an entry, or several, for each position of the hidden states.
pub enum Piece<N> {
    /// Hidden states of this many positions.
    States { positions: nat },
    /// The tokens of each centroid.
    Groups(Seq<Seq<nat>>),
    /// Centroids chosen for each position.
    Chosen(Seq<Seq<nat>>),
    /// Groups of tokens for each position.
    Selected(Seq<Seq<Seq<nat>>>),
    /// Tokens for each position.
    Tokens(Seq<Seq<nat>>),
    /// Scores for each position.
    Scores(Seq<Seq<N>>),
    Number(N),
}

/// Lists one after the other.
pub open spec fn joined(lists: Seq<Seq<nat>>) -> Seq<nat>
    decreases lists.len(),
{
    if lists.len() == 0 {
        Seq::empty()
    } else {
        joined(lists.drop_last()) + lists.last()
    }
}

/// `token` is in one of the groups that `chosen` names.
pub open spec fn is_chosen(groups: Seq<Seq<nat>>, chosen: Seq<nat>, token: nat) -> bool {
    exists|c: int| 0 <= c < chosen.len() && groups[#[trigger] chosen[c] as int].contains(token)
}

/// The tokens of the groups that `chosen` names.
pub open spec fn tokens_of(groups: Seq<Seq<nat>>, chosen: Seq<nat>) -> Seq<nat> {
    joined(chosen.map_values(|c: nat| groups[c as int]))
}

proof fn lemma_joined(lists: Seq<Seq<nat>>, token: nat)
    ensures
        joined(lists).contains(token) <==> exists|c: int|
            0 <= c < lists.len() && (#[trigger] lists[c]).contains(token),
    decreases lists.len(),
{
    if lists.len() > 0 {
        let rest = lists.drop_last();
        let before = joined(rest);
        lemma_joined(rest, token);
        if before.contains(token) {
            let k = choose|k: int| 0 <= k < before.len() && before[k] == token;
            assert(joined(lists)[k] == token);
            let c = choose|c: int| 0 <= c < rest.len() && (#[trigger] rest[c]).contains(token);
            assert(lists[c].contains(token));
        }
        if lists.last().contains(token) {
            let k = choose|k: int| 0 <= k < lists.last().len() && lists.last()[k] == token;
            assert(joined(lists)[before.len() + k] == token);
            assert(lists[lists.len() - 1].contains(token));
        }
        if joined(lists).contains(token) {
            let k = choose|k: int| 0 <= k < joined(lists).len() && joined(lists)[k] == token;
            if k < before.len() {
                assert(before[k] == token);
            } else {
                assert(lists.last()[k - before.len()] == token);
            }
        }
        if exists|c: int| 0 <= c < lists.len() && (#[trigger] lists[c]).contains(token) {
            let c = choose|c: int| 0 <= c < lists.len() && (#[trigger] lists[c]).contains(token);
            if c < rest.len() {
                assert(rest[c].contains(token));
            }
        }
    }
}

proof fn lemma_tokens_of(groups: Seq<Seq<nat>>, chosen: Seq<nat>, token: nat)
    ensures
        tokens_of(groups, chosen).contains(token) <==> is_chosen(groups, chosen, token),
{
    let lists = chosen.map_values(|c: nat| groups[c as int]);
    lemma_joined(lists, token);
    if is_chosen(groups, chosen, token) {
        let c = choose|c: int|
            0 <= c < chosen.len() && groups[#[trigger] chosen[c] as int].contains(token);
        assert(lists[c].contains(token));
    }
    if exists|c: int| 0 <= c < lists.len() && (#[trigger] lists[c]).contains(token) {
        let c = choose|c: int| 0 <= c < lists.len() && (#[trigger] lists[c]).contains(token);
        assert(groups[chosen[c] as int].contains(token));
    }
}

/// How a computation compares and places scores.
#[verifier::reject_recursive_types(N)]
pub struct Scoring<N> {
    /// The smallest of all scores.
    pub least: spec_fn(Seq<Seq<N>>) -> N,
    /// A score, less one.
    pub one_less: spec_fn(N) -> N,
    /// Scores with other scores put at positions.
    pub put: spec_fn(Seq<N>, Seq<nat>, Seq<N>) -> Seq<N>,
    pub at_most: spec_fn(N, N) -> bool,
    pub below: spec_fn(N, N) -> bool,
    /// What all other operations give.
    pub others: spec_fn(Term) -> Piece<N>,
}

impl<N> Scoring<N> {
    /// Putting leaves other positions as they are, and gives a position one of the scores put
    /// there.
    pub open spec fn puts_in_place(self) -> bool {
        forall|base: Seq<N>, positions: Seq<nat>, scores: Seq<N>|
            positions.len() == scores.len() && (forall|k: int|
                0 <= k < positions.len() ==> #[trigger] positions[k] < base.len())
                ==> self.is_put(base, positions, scores, #[trigger] (self.put)(base, positions, scores))
    }

    pub open spec fn is_put(
        self,
        base: Seq<N>,
        positions: Seq<nat>,
        scores: Seq<N>,
        r: Seq<N>,
    ) -> bool {
        &&& r.len() == base.len()
        &&& forall|v: nat|
            v < base.len() ==> if positions.contains(v) {
                exists|k: int|
                    0 <= k < positions.len() && positions[k] == v && #[trigger] scores[k]
                        == r[v as int]
            } else {
                #[trigger] r[v as int] == base[v as int]
            }
    }

    /// What is below a score is below all scores that it is at most.
    pub open spec fn is_ordered(self) -> bool {
        forall|x: N, y: N, z: N| #[trigger]
            (self.below)(x, y) && #[trigger] (self.at_most)(y, z) ==> (self.below)(x, z)
    }

    /// What the operation `op` gives for its first three arguments.
    pub open spec fn applied(
        self,
        op: Op,
        first: Piece<N>,
        second: Piece<N>,
        third: Piece<N>,
    ) -> Option<Piece<N>> {
        match (op, first, second, third) {
            (Op::Take, Piece::Groups(groups), Piece::Chosen(chosen), _) => Some(
                Piece::Selected(
                    chosen.map_values(
                        |cs: Seq<nat>| cs.map_values(|c: nat| groups[c as int]),
                    ),
                ),
            ),
            (
                Op::Reshape(Shape::Three(Dim::Like(0), Dim::Like(1), Dim::Rest)),
                Piece::Selected(selected),
                Piece::States { positions },
                _,
            ) if selected.len() == positions => Some(
                Piece::Tokens(selected.map_values(|lists: Seq<Seq<nat>>| joined(lists))),
            ),
            (Op::MinAll, Piece::Scores(rows), _, _) => Some(Piece::Number((self.least)(rows))),
            (Op::ItemMinusOne, Piece::Number(x), _, _) => Some(Piece::Number((self.one_less)(x))),
            (Op::FullLike { last }, Piece::Number(x), Piece::States { positions }, _) if last
                >= 0 => Some(
                Piece::Scores(Seq::new(positions, |p: int| Seq::new(last as nat, |v: int| x))),
            ),
            (Op::PutAlongLast, Piece::Scores(base), Piece::Tokens(at), Piece::Scores(scores)) if
                at.len() == base.len() && scores.len() == base.len() => Some(
                Piece::Scores(
                    Seq::new(base.len(), |p: int| (self.put)(base[p], at[p], scores[p])),
                ),
            ),
            _ => None,
        }
    }

    /// The tensor that `term` stands for.
    pub open spec fn meaning(self, term: Term) -> Piece<N>
        decreases term,
    {
        let first = if term.args.len() > 0 {
            self.meaning(term.args[0])
        } else {
            arbitrary()
        };
        let second = if term.args.len() > 1 {
            self.meaning(term.args[1])
        } else {
            arbitrary()
        };
        let third = if term.args.len() > 2 {
            self.meaning(term.args[2])
        } else {
            arbitrary()
        };
        match self.applied(term.op, first, second, third) {
            Some(piece) => piece,
            None => (self.others)(term),
        }
    }

    proof fn lemma_of_app1(self, op: Op, a: Term)
        ensures
            self.meaning(app1(op, a)) == (match self.applied(
                op,
                self.meaning(a),
                arbitrary(),
                arbitrary(),
            ) {
                Some(piece) => piece,
                None => (self.others)(app1(op, a)),
            }),
    {
        assert(app1(op, a).args[0] == a);
    }

    proof fn lemma_of_app2(self, op: Op, a: Term, b: Term)
        ensures
            self.meaning(app2(op, a, b)) == (match self.applied(
                op,
                self.meaning(a),
                self.meaning(b),
                arbitrary(),
            ) {
                Some(piece) => piece,
                None => (self.others)(app2(op, a, b)),
            }),
    {
        let t = app2(op, a, b);
        assert(t.args[0] == a && t.args[1] == b);
    }

    proof fn lemma_of_app3(self, op: Op, a: Term, b: Term, c: Term)
        ensures
            self.meaning(app3(op, a, b, c)) == (match self.applied(
                op,
                self.meaning(a),
                self.meaning(b),
                self.meaning(c),
            ) {
                Some(piece) => piece,
                None => (self.others)(app3(op, a, b, c)),
            }),
    {
        let t = app3(op, a, b, c);
        assert(t.args[0] == a && t.args[1] == b && t.args[2] == c);
    }

    /// The output layer that looks into the likeliest centroids scores all tokens: those of the
    /// chosen groups as they were computed, and all others alike, below every score that was
    /// computed. This takes that the least score is at most each of them and that one less than it
    /// is below it, which rounding can spoil for scores of great size.
    pub proof fn other_tokens_score_below_all(
        self,
        embedder: MaskedEmbedder,
        hidden_states: Term,
        lm_head_weight: Term,
        positions: nat,
        groups: Seq<Seq<nat>>,
        chosen: Seq<Seq<nat>>,
        scores: Seq<Seq<N>>,
        p: int,
        token: nat,
    )
        requires
            self.puts_in_place(),
            self.is_ordered(),
            self.meaning(hidden_states) == (Piece::<N>::States { positions }),
            self.meaning(embedder.groups()) == Piece::<N>::Groups(groups),
            self.meaning(embedder.likeliest(hidden_states)) == Piece::<N>::Chosen(chosen),
            self.meaning(embedder.selected_logits(hidden_states, lm_head_weight)) == Piece::Scores(
                scores,
            ),
            chosen.len() == positions,
            scores.len() == positions,
            forall|q: int|
                0 <= q < positions ==> (#[trigger] scores[q]).len() == tokens_of(
                    groups,
                    chosen[q],
                ).len(),
            forall|q: int, k: int|
                0 <= q < positions && 0 <= k < tokens_of(groups, chosen[q]).len()
                    ==> #[trigger] tokens_of(groups, chosen[q])[k] < embedder.vocab_size,
            forall|q: int, k: int|
                0 <= q < positions && 0 <= k < scores[q].len() ==> (self.at_most)(
                    (self.least)(scores),
                    #[trigger] scores[q][k],
                ),
            (self.below)((self.one_less)((self.least)(scores)), (self.least)(scores)),
            0 <= p < positions,
            token < embedder.vocab_size,
        ensures
            ({
                let out = self.meaning(embedder.output(hidden_states, lm_head_weight));
                let floor = (self.one_less)((self.least)(scores));
                &&& out matches Piece::Scores(rows) && {
                    &&& rows.len() == positions
                    &&& rows[p].len() == embedder.vocab_size
                    &&& if is_chosen(groups, chosen[p], token) {
                        &&& exists|k: int|
                            0 <= k < scores[p].len() && tokens_of(groups, chosen[p])[k] == token
                                && #[trigger] scores[p][k] == rows[p][token as int]
                        &&& (self.below)(floor, rows[p][token as int])
                    } else {
                        rows[p][token as int] == floor
                    }
                }
                &&& forall|q: int, k: int|
                    0 <= q < positions && 0 <= k < scores[q].len() ==> (self.below)(
                        floor,
                        #[trigger] scores[q][k],
                    )
            }),
    {
        let logits = embedder.selected_logits(hidden_states, lm_head_weight);
        let selected = embedder.selected_tokens(hidden_states);
        let least = app1(Op::MinAll, logits);
        let floor_term = app1(Op::ItemMinusOne, least);
        let fill = Op::FullLike { last: embedder.vocab_size };
        let shape = Op::Reshape(Shape::Three(Dim::Like(0), Dim::Like(1), Dim::Rest));
        let base_term = app2(fill, floor_term, hidden_states);
        let tokens_term = app2(shape, selected, hidden_states);
        self.lemma_of_app2(Op::Take, embedder.groups(), embedder.likeliest(hidden_states));
        self.lemma_of_app1(Op::MinAll, logits);
        self.lemma_of_app1(Op::ItemMinusOne, least);
        self.lemma_of_app2(fill, floor_term, hidden_states);
        self.lemma_of_app2(shape, selected, hidden_states);
        self.lemma_of_app3(Op::PutAlongLast, base_term, tokens_term, logits);
        let floor = (self.one_less)((self.least)(scores));
        let base = Seq::new(embedder.vocab_size as nat, |v: int| floor);
        let tokens = tokens_of(groups, chosen[p]);
        let placed = (self.put)(base, tokens, scores[p]);
        assert(self.meaning(tokens_term)->Tokens_0[p] == tokens);
        assert(self.meaning(base_term)->Scores_0[p] == base);
        assert forall|k: int| 0 <= k < tokens.len() implies #[trigger] tokens[k] < base.len() by {
            assert(tokens_of(groups, chosen[p])[k] < embedder.vocab_size);
        }
        assert(self.is_put(base, tokens, scores[p], placed));
        lemma_tokens_of(groups, chosen[p], token);
        assert forall|q: int, k: int| 0 <= q < positions && 0 <= k < scores[q].len() implies (
        self.below)(floor, #[trigger] scores[q][k]) by {
            assert((self.at_most)((self.least)(scores), scores[q][k]));
        }
        if is_chosen(groups, chosen[p], token) {
            let k = choose|k: int|
                0 <= k < tokens.len() && tokens[k] == token && #[trigger] scores[p][k]
                    == placed[token as int];
            assert(scores[p][k] == placed[token as int]);
        } else {
            assert(placed[token as int] == base[token as int]);
        }
    }
}

} // verus!
