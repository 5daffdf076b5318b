//! Tensor computations, put together node by node and run elsewhere.
//!
//! A [`Graph`] lists the operations of a computation. Each operation takes the results of
//! earlier ones, named by their position. What a node computes is a [`Term`]: its operation
//! applied to the terms of its arguments.
use vstd::prelude::*;

use crate::models::layer::LayerType;

verus! {

/// A single precision number, by its IEEE 754 bit pattern.
#[derive(Debug, Clone, Copy, PartialEq, Eq, Structural)]
pub struct F32 {
    pub bits: u32,
}

impl F32 {
    /// The number is zero, of either sign.
    pub open spec fn spec_is_zero(self) -> bool {
        self.bits == 0 || self.bits == 0x8000_0000
    }

    /// Whether the number is zero, of either sign.
    pub fn is_zero(self) -> (r: bool)
        ensures
            r == self.spec_is_zero(),
    {
        self.bits == 0 || self.bits == 0x8000_0000
    }
}

/// A number that enters a computation, as a tensor of no axes.
#[derive(Debug, Clone, Copy, PartialEq, Eq)]
pub enum Scalar {
    Value(F32),
    Int(i32),
    /// `(n as f32).sqrt()`
    Sqrt(i32),
    /// `(n as f32).sqrt().recip()`
    RecipSqrt(i32),
    /// `1.0 / x`
    Recip(F32),
    /// `2.0_f32.powf(-0.5)`
    RootHalf,
}

/// The model that a module belongs to.
#[derive(Debug, Clone, Copy, PartialEq, Eq, Structural)]
pub enum Owner {
    Target,
    Assistant,
}

/// The parts of a transformer block that hold parameters.
#[derive(Debug, Clone, Copy, PartialEq, Eq, Structural)]
pub enum LayerPart {
    QProj,
    KProj,
    VProj,
    OProj,
    QNorm,
    KNorm,
    Rope,
    GateProj,
    DownProj,
    UpProj,
    PerLayerInputGate,
    PerLayerProjection,
    PostPerLayerInputNorm,
    InputLayernorm,
    PostAttentionLayernorm,
    PreFeedforwardLayernorm,
    PostFeedforwardLayernorm,
    LayerScalar,
}

/// A module or a parameter of a model.
#[derive(Debug, Clone, Copy, PartialEq, Eq, Structural)]
pub enum ModuleRef {
    Layer { owner: Owner, index: usize, part: LayerPart },
    EmbedTokens { owner: Owner },
    Norm { owner: Owner },
    LmHead { owner: Owner },
    EmbedTokensPerLayer,
    PerLayerModelProjection,
    PerLayerProjectionNorm,
    PreProjection,
    PostProjection,
    Centroids,
    TokenOrdering,
}

/// The tensors that a module holds.
#[derive(Debug, Clone, Copy, PartialEq, Eq, Structural)]
pub enum ParamKind {
    Weight,
    Scales,
    Biases,
}

/// A tensor that a computation is given.
#[derive(Debug, Clone, Copy, PartialEq, Eq)]
pub enum Input {
    /// Token ids: the tokens to run, the prompt, or the token sampled last.
    Tokens,
    /// An attention mask.
    Mask,
    /// The hidden states to draft from.
    Hidden,
    SharedKeys(LayerType),
    SharedValues(LayerType),
    /// One token id, with shape `[1, 1]`.
    Token(u32),
    /// No token ids, with shape `[1, 0]`.
    NoTokens,
}

/// A length in a new shape.
#[derive(Debug, Clone, Copy, PartialEq, Eq)]
pub enum Dim {
    /// The given length.
    Fixed(i32),
    /// `-1`: what remains.
    Rest,
    /// The length of this axis of the second argument.
    Like(i32),
}

/// A new shape.
#[derive(Debug, Clone, Copy, PartialEq, Eq)]
pub enum Shape {
    One(Dim),
    Two(Dim, Dim),
    Three(Dim, Dim, Dim),
    Four(Dim, Dim, Dim, Dim),
    /// The shape of the second argument, and one more axis of this length.
    LikeThen(i32),
}

/// An indexing pattern.
#[derive(Debug, Clone, Copy, PartialEq, Eq)]
pub enum Pattern {
    /// `(.., -1, ..)`
    LastOfAxis1,
    /// `(.., .., i, ..)`
    SelectAxis2(i32),
    /// `(.., ..end)`
    HeadAxis1(i32),
    /// `(.., start..)`
    TailAxis1(i32),
    /// `(.., .., start..)`
    TailAxis2(i32),
    /// `(.., NewAxis)`
    AppendAxis,
    /// `(NewAxis, ..)`
    PrependAxis,
    /// `(NewAxis, NewAxis, .., ..)`
    PrependTwoAxes,
    /// `(.., .., NewAxis, ..)`
    InsertAxis2,
}

/// A permutation of four axes.
#[derive(Debug, Clone, Copy, PartialEq, Eq, Structural)]
pub enum Axes {
    /// `[0, 2, 1, 3]`
    SwapMiddle,
    /// `[0, 1, 3, 2]`
    SwapLast,
}

/// One operation. The comment on each gives its arguments.
#[derive(Debug, Clone, Copy, PartialEq, Eq)]
pub enum Op {
    /// ()
    Input(Input),
    /// ()
    Scalar(Scalar),
    /// (): a tensor that a module holds.
    Param { module: ModuleRef, kind: ParamKind },
    /// (x): what the module makes of `x`.
    Forward(ModuleRef),
    /// (x): rotary embedding from position `offset` on.
    Rope { module: ModuleRef, offset: i32 },
    /// (source, indices): the entries of `source` at `indices`, along its first axis.
    Take,
    /// (x)
    Index(Pattern),
    /// (x) or (x, like)
    Reshape(Shape),
    /// (x): all axes made one.
    Flatten,
    /// (x)
    Transpose(Axes),
    /// (x): axes in reverse.
    TransposeAll,
    /// (x): without axis -2.
    SqueezeAxis,
    /// (x, y)
    Add,
    /// (x, y)
    Subtract,
    /// (x, y)
    Multiply,
    /// (x, y)
    Divide,
    /// (x, y)
    Matmul,
    /// (x)
    Square,
    /// (x): mean over the last axis, which stays with length one.
    MeanLast,
    /// (x)
    Rsqrt,
    /// (x)
    Tanh,
    /// (x)
    GeluApproximate,
    /// (weight, scales, biases)
    Dequantize { group_size: i32, bits: i32 },
    /// (x): a causal mask for as many positions as axis 1 of `x` has.
    CausalMask { past: Option<i32>, window: Option<i32> },
    /// (queries, keys, values) or (queries, keys, values, mask): scaled dot product attention,
    /// with the cache in this slot at hand.
    Attention { scale: F32, cache: Option<usize> },
    /// (keys, values): appends both to the cache in this slot.
    UpdateCache { slot: usize },
    /// (update): all keys that the cache then holds.
    UpdatedKeys,
    /// (update): all values that the cache then holds.
    UpdatedValues,
    /// (x): position of the largest entry along the last axis.
    ArgmaxLast,
    /// (logits): one random draw along the last axis. Each draw has a number of its own.
    Categorical { draw: usize },
    /// (x): partitioned positions along the last axis.
    ArgpartitionLast { kth: i32 },
    /// (x): the smallest of all entries.
    MinAll,
    /// (x): the one entry of `x`, less `1.0`.
    ItemMinusOne,
    /// (value, like): `value` throughout, with axes 0 and 1 of `like` and this last axis.
    FullLike { last: i32 },
    /// (x, indices, values): `x` with `values` put at `indices` along the last axis.
    PutAlongLast,
    /// (): `start..stop`, or `..stop`.
    Arange { start: Option<i32>, stop: i32 },
    /// (x, y): where `x > y`.
    Greater,
    /// (x, y): where `x < y`.
    Less,
    /// (x, y)
    LogicalAnd,
    /// (condition, x, y): `x` where the condition holds, else `y`.
    Which,
    /// (x, y): one after the other along the last axis.
    ConcatLast,
    /// Any number of tensors, one after the other along axis 1.
    ConcatAxis1,
}

/// The shape refers to a second argument.
pub open spec fn refers(shape: Shape) -> bool {
    match shape {
        Shape::One(a) => a is Like,
        Shape::Two(a, b) => a is Like || b is Like,
        Shape::Three(a, b, c) => a is Like || b is Like || c is Like,
        Shape::Four(a, b, c, d) => a is Like || b is Like || c is Like || d is Like,
        Shape::LikeThen(_) => true,
    }
}

/// The operation takes `n` arguments.
pub open spec fn takes(op: Op, n: nat) -> bool {
    match op {
        Op::Input(_) | Op::Scalar(_) | Op::Param { .. } | Op::Arange { .. } => n == 0,
        Op::Forward(_)
        | Op::Rope { .. }
        | Op::Index(_)
        | Op::Flatten
        | Op::Transpose(_)
        | Op::TransposeAll
        | Op::SqueezeAxis
        | Op::Square
        | Op::MeanLast
        | Op::Rsqrt
        | Op::Tanh
        | Op::GeluApproximate
        | Op::CausalMask { .. }
        | Op::UpdatedKeys
        | Op::UpdatedValues
        | Op::ArgmaxLast
        | Op::Categorical { .. }
        | Op::ArgpartitionLast { .. }
        | Op::MinAll
        | Op::ItemMinusOne => n == 1,
        Op::Take
        | Op::Add
        | Op::Subtract
        | Op::Multiply
        | Op::Divide
        | Op::Matmul
        | Op::UpdateCache { .. }
        | Op::FullLike { .. }
        | Op::Greater
        | Op::Less
        | Op::LogicalAnd
        | Op::ConcatLast => n == 2,
        Op::Dequantize { .. } | Op::PutAlongLast | Op::Which => n == 3,
        Op::Attention { .. } => n == 3 || n == 4,
        Op::Reshape(shape) => n == if refers(shape) {
            2nat
        } else {
            1nat
        },
        Op::ConcatAxis1 => n >= 1,
    }
}

/// An operation applied to earlier nodes.
#[derive(Debug)]
pub struct Node {
    pub op: Op,
    pub args: Vec<usize>,
}

/// What a node computes.
pub struct Term {
    pub op: Op,
    pub args: Seq<Term>,
}

/// `part` is `whole`, or one of the terms that it is made of.
pub open spec fn is_part(part: Term, whole: Term) -> bool
    decreases whole,
{
    part == whole || exists|k: int|
        0 <= k < whole.args.len() && is_part(part, #[trigger] whole.args[k])
}

/// The operation is an application of `module`, or reads a tensor that it holds.
pub open spec fn is_of(op: Op, module: ModuleRef) -> bool {
    match op {
        Op::Forward(m) => m == module,
        Op::Rope { module: m, .. } => m == module,
        Op::Param { module: m, .. } => m == module,
        _ => false,
    }
}

/// The computation of `term` makes use of `module`.
pub open spec fn mentions(term: Term, module: ModuleRef) -> bool
    decreases term,
{
    is_of(term.op, module) || exists|k: int|
        0 <= k < term.args.len() && mentions(#[trigger] term.args[k], module)
}

pub open spec fn app0(op: Op) -> Term {
    Term { op, args: seq![] }
}

pub open spec fn app1(op: Op, a: Term) -> Term {
    Term { op, args: seq![a] }
}

pub open spec fn app2(op: Op, a: Term, b: Term) -> Term {
    Term { op, args: seq![a, b] }
}

pub open spec fn app3(op: Op, a: Term, b: Term, c: Term) -> Term {
    Term { op, args: seq![a, b, c] }
}

pub open spec fn app4(op: Op, a: Term, b: Term, c: Term, d: Term) -> Term {
    Term { op, args: seq![a, b, c, d] }
}

pub closed spec fn denote(nodes: Seq<Node>, id: int) -> Term
    decreases id,
{
    Term {
        op: nodes[id].op,
        args: Seq::new(
            nodes[id].args@.len(),
            |k: int|
                if 0 <= nodes[id].args@[k] < id {
                    denote(nodes, nodes[id].args@[k] as int)
                } else {
                    arbitrary()
                },
        ),
    }
}

/// The cache updates among `nodes`, in order.
pub closed spec fn updates_in(nodes: Seq<Node>) -> Seq<Term>
    decreases nodes.len(),
{
    if nodes.len() == 0 {
        Seq::empty()
    } else if nodes.last().op is UpdateCache {
        updates_in(nodes.drop_last()).push(denote(nodes, nodes.len() - 1))
    } else {
        updates_in(nodes.drop_last())
    }
}

/// How many random draws there are among `nodes`.
pub closed spec fn draws_in(nodes: Seq<Node>) -> nat
    decreases nodes.len(),
{
    if nodes.len() == 0 {
        0
    } else if nodes.last().op is Categorical {
        draws_in(nodes.drop_last()) + 1
    } else {
        draws_in(nodes.drop_last())
    }
}

/// A computation: operations in the order in which they run.
#[derive(Debug)]
pub struct Graph {
    nodes: Vec<Node>,
    draws: usize,
}

/// An operation that neither updates a cache nor draws at random.
pub open spec fn is_plain(op: Op) -> bool {
    op !is UpdateCache && op !is Categorical
}

impl Graph {
    /// Each operation has as many arguments as it takes, arguments precede the nodes that take
    /// them, and the random draws are numbered in order.
    pub closed spec fn wf(self) -> bool {
        &&& forall|i: int, k: int|
            0 <= i < self.nodes@.len() && 0 <= k < self.nodes@[i].args@.len()
                ==> #[trigger] self.nodes@[i].args@[k] < i
        &&& forall|i: int|
            0 <= i < self.nodes@.len() ==> ((#[trigger] self.nodes@[i]).op matches Op::Categorical {
                draw,
            } ==> draw == draws_in(self.nodes@.take(i)))
        &&& forall|i: int|
            0 <= i < self.nodes@.len() ==> takes(
                (#[trigger] self.nodes@[i]).op,
                self.nodes@[i].args@.len(),
            )
        &&& self.draws == draws_in(self.nodes@)
        &&& self.draws <= self.nodes@.len()
    }

    /// How many nodes there are.
    pub closed spec fn size(self) -> nat {
        self.nodes@.len()
    }

    /// What the node `id` computes.
    pub closed spec fn at(self, id: usize) -> Term {
        denote(self.nodes@, id as int)
    }

    /// The cache updates, in the order in which they run.
    pub closed spec fn cache_updates(self) -> Seq<Term> {
        updates_in(self.nodes@)
    }

    /// How many random draws there are.
    pub closed spec fn draw_count(self) -> nat {
        draws_in(self.nodes@)
    }

    /// Some node takes the node `id`.
    closed spec fn is_used(self, id: usize) -> bool {
        exists|i: int, k: int|
            0 <= i < self.nodes@.len() && 0 <= k < self.nodes@[i].args@.len()
                && #[trigger] self.nodes@[i].args@[k] == id
    }

    /// No node takes the node `id`, and it does not update a cache.
    pub closed spec fn is_free(self, id: usize) -> bool {
        !self.is_used(id) && self.nodes@[id as int].op !is UpdateCache
    }

    /// The node `id` is there, no node takes it, and it does not update a cache.
    pub open spec fn is_pending(self, id: usize) -> bool {
        id < self.size() && self.is_free(id)
    }

    /// Of the nodes that were pending in `before`, those in `used` are not any more, and of the
    /// nodes added since, those in `made` are pending and no others.
    pub open spec fn settles(self, before: Graph, used: Set<usize>, made: Set<usize>) -> bool {
        &&& forall|id: usize| #[trigger] made.contains(id) ==> before.size() <= id
        &&& forall|id: usize| #[trigger]
            self.is_pending(id) <==> made.contains(id) || (before.is_pending(id) && !used.contains(
                id,
            ))
    }

    /// What there is in `before` is here unchanged, and what is used there is used here.
    pub open spec fn extends(self, before: Graph) -> bool {
        &&& before.size() <= self.size()
        &&& forall|id: usize| id < before.size() ==> #[trigger] self.at(id) == before.at(id)
        &&& forall|id: usize|
            id < before.size() && #[trigger] self.is_pending(id) ==> before.is_pending(id)
    }

    /// Nothing but plain operations was added to `before`.
    pub open spec fn extends_plainly(self, before: Graph) -> bool {
        &&& self.wf()
        &&& self.extends(before)
        &&& self.cache_updates() == before.cache_updates()
        &&& self.draw_count() == before.draw_count()
    }

    /// A computation without operations.
    pub fn new() -> (r: Graph)
        ensures
            r.wf(),
            r.size() == 0,
            r.cache_updates() == Seq::<Term>::empty(),
            r.draw_count() == 0,
            forall|id: usize| !#[trigger] r.is_pending(id),
    {
        Graph { nodes: Vec::new(), draws: 0 }
    }

    /// How many nodes there are.
    pub fn len(&self) -> (r: usize)
        ensures
            r == self.size(),
    {
        self.nodes.len()
    }

    /// The operation of a node.
    pub fn op(&self, id: usize) -> (r: Op)
        requires
            id < self.size(),
        ensures
            r == self.at(id).op,
    {
        self.nodes[id].op
    }

    /// The arguments of a node.
    pub fn args(&self, id: usize) -> (r: &Vec<usize>)
        requires
            self.wf(),
            id < self.size(),
        ensures
            forall|k: int| 0 <= k < r@.len() ==> #[trigger] r@[k] < id,
            takes(self.at(id).op, r@.len()),
            self.at(id).args == r@.map_values(|a: usize| self.at(a)),
    {
        let r = &self.nodes[id].args;
        assert(self.at(id).args =~= r@.map_values(|a: usize| self.at(a)));
        r
    }

    proof fn lemma_denote_is_stable(nodes: Seq<Node>, more: Seq<Node>, id: int)
        requires
            0 <= id < nodes.len(),
            nodes.is_prefix_of(more),
            forall|i: int, k: int|
                0 <= i < nodes.len() && 0 <= k < nodes[i].args@.len()
                    ==> #[trigger] nodes[i].args@[k] < i,
        ensures
            denote(nodes, id) == denote(more, id),
        decreases id,
    {
        assert(nodes[id] == more[id]);
        let a = denote(nodes, id);
        let b = denote(more, id);
        assert forall|k: int| 0 <= k < a.args.len() implies a.args[k] == b.args[k] by {
            let arg = nodes[id].args@[k] as int;
            assert(nodes[id].args@[k] < id);
            Self::lemma_denote_is_stable(nodes, more, arg);
        }
        assert(a.args =~= b.args);
    }

    fn push(&mut self, op: Op, args: Vec<usize>) -> (id: usize)
        requires
            old(self).wf(),
            forall|k: int| 0 <= k < args@.len() ==> #[trigger] args@[k] < old(self).size(),
            takes(op, args@.len()),
            op matches Op::Categorical { draw } ==> draw == old(self).draw_count(),
        ensures
            final(self).wf(),
            final(self).extends(*old(self)),
            id == old(self).size(),
            final(self).size() == id + 1,
            final(self).settles(
                *old(self),
                args@.to_set(),
                if op is UpdateCache {
                    Set::empty()
                } else {
                    set![id]
                },
            ),
            final(self).at(id).op == op,
            final(self).at(id).args == args@.map_values(|a: usize| old(self).at(a)),
            final(self).cache_updates() == if op is UpdateCache {
                old(self).cache_updates().push(final(self).at(id))
            } else {
                old(self).cache_updates()
            },
            final(self).draw_count() == old(self).draw_count() + if op is Categorical {
                1nat
            } else {
                0nat
            },
    {
        let id = self.nodes.len();
        let ghost before = self.nodes@;
        let ghost list = args@;
        self.nodes.push(Node { op, args });
        if let Op::Categorical { .. } = op {
            assert(self.draws < self.nodes.len());
            self.draws = self.draws + 1;
        }
        proof {
            assert(self.nodes@.drop_last() =~= before);
            assert forall|i: usize| i < before.len() implies #[trigger] self.at(i) == denote(
                before,
                i as int,
            ) by {
                Self::lemma_denote_is_stable(before, self.nodes@, i as int);
            }
            assert forall|k: int| 0 <= k < list.len() implies self.at(id).args[k] == old(self).at(
                list[k],
            ) by {
                assert(list[k] < before.len());
                assert(self.at(list[k]) == denote(before, list[k] as int));
            }
            assert(self.at(id).args =~= list.map_values(|a: usize| old(self).at(a)));
            assert forall|i: int| 0 <= i < self.nodes@.len() implies (
            (#[trigger] self.nodes@[i]).op matches Op::Categorical { draw } ==> draw == draws_in(
                self.nodes@.take(i),
            )) by {
                if i < before.len() {
                    assert(self.nodes@[i] == before[i]);
                    assert(self.nodes@.take(i) =~= before.take(i));
                } else {
                    assert(self.nodes@.take(i) =~= before);
                }
            }
        }
        proof {
            self.lemma_pushed(*old(self), list);
        }
        id
    }

    proof fn lemma_pushed(self, before: Graph, list: Seq<usize>)
        requires
            before.wf(),
            self.nodes@.len() == before.nodes@.len() + 1,
            self.nodes@.drop_last() == before.nodes@,
            self.nodes@.last().args@ == list,
            forall|k: int| 0 <= k < list.len() ==> #[trigger] list[k] < before.size(),
        ensures
            self.settles(
                before,
                list.to_set(),
                if self.nodes@.last().op is UpdateCache {
                    Set::empty()
                } else {
                    set![before.size() as usize]
                },
            ),
            forall|id: usize|
                id < before.size() && #[trigger] self.is_pending(id) ==> before.is_pending(id),
    {
        let last = before.nodes@.len() as int;
        assert(self.nodes.len() == self.nodes@.len());
        assert forall|id: usize| #[trigger] self.is_used(id) <==> before.is_used(id)
            || list.contains(id) by {
            if before.is_used(id) {
                let (i, k) = choose|i: int, k: int|
                    0 <= i < before.nodes@.len() && 0 <= k < before.nodes@[i].args@.len()
                        && #[trigger] before.nodes@[i].args@[k] == id;
                assert(self.nodes@[i] == before.nodes@[i]);
                assert(self.nodes@[i].args@[k] == id);
            }
            if list.contains(id) {
                let k = choose|k: int| 0 <= k < list.len() && list[k] == id;
                assert(self.nodes@[last].args@[k] == id);
            }
            if self.is_used(id) {
                let (i, k) = choose|i: int, k: int|
                    0 <= i < self.nodes@.len() && 0 <= k < self.nodes@[i].args@.len()
                        && #[trigger] self.nodes@[i].args@[k] == id;
                if i < last {
                    assert(self.nodes@[i] == before.nodes@[i]);
                    assert(before.nodes@[i].args@[k] == id);
                } else {
                    assert(list[k] == id);
                }
            }
        }
        assert forall|id: usize| id < last implies self.nodes@[id as int]
            == #[trigger] before.nodes@[id as int] by {}
        assert forall|id: usize| #[trigger] before.is_used(id) implies id < last by {
            let (i, k) = choose|i: int, k: int|
                0 <= i < before.nodes@.len() && 0 <= k < before.nodes@[i].args@.len()
                    && #[trigger] before.nodes@[i].args@[k] == id;
            assert(before.nodes@[i].args@[k] < i);
        }
        assert forall|id: usize| list.contains(id) implies id < last by {
            let k = choose|k: int| 0 <= k < list.len() && list[k] == id;
            assert(list[k] < before.size());
        }
    }

    /// What two extensions settle, one after the other.
    pub(crate) proof fn lemma_settles(
        self,
        middle: Graph,
        before: Graph,
        used_first: Set<usize>,
        made_first: Set<usize>,
        used_then: Set<usize>,
        made_then: Set<usize>,
        used: Set<usize>,
        made: Set<usize>,
    )
        requires
            before.size() <= middle.size(),
            middle.settles(before, used_first, made_first),
            self.settles(middle, used_then, made_then),
            forall|id: usize| #[trigger]
                made.contains(id) <==> made_then.contains(id) || (made_first.contains(id)
                    && !used_then.contains(id)),
            forall|id: usize|
                id < before.size() && !made_first.contains(id) ==> (#[trigger] used.contains(id)
                    <==> used_first.contains(id) || used_then.contains(id)),
        ensures
            self.settles(before, used, made),
    {
        assert forall|id: usize| #[trigger] self.is_pending(id) <==> made.contains(id) || (
        before.is_pending(id) && !used.contains(id)) by {
            assert(middle.is_pending(id) <==> made_first.contains(id) || (before.is_pending(id)
                && !used_first.contains(id)));
            assert(made_then.contains(id) ==> middle.size() <= id);
        }
    }

    /// Nothing is computed idly: each node is part of what a pending node computes, or of a cache
    /// update.
    pub proof fn every_node_leads_on(self, id: usize)
        requires
            self.wf(),
            id < self.size(),
        ensures
            exists|root: usize|
                id <= root < self.size() && (self.is_pending(root) || self.at(root).op
                    is UpdateCache) && is_part(self.at(id), #[trigger] self.at(root)),
        decreases self.size() - id,
    {
        if self.is_pending(id) || self.at(id).op is UpdateCache {
            assert(is_part(self.at(id), self.at(id)));
        } else {
            let (i, k) = choose|i: int, k: int|
                0 <= i < self.nodes@.len() && 0 <= k < self.nodes@[i].args@.len()
                    && #[trigger] self.nodes@[i].args@[k] == id;
            assert(self.nodes@[i].args@[k] < i);
            assert(self.nodes.len() == self.nodes@.len());
            let user = i as usize;
            self.every_node_leads_on(user);
            let root = choose|root: usize|
                user <= root < self.size() && (self.is_pending(root) || self.at(root).op
                    is UpdateCache) && is_part(self.at(user), #[trigger] self.at(root));
            assert(self.at(user).args[k] == self.at(id));
            assert(is_part(self.at(id), self.at(user).args[k]));
            assert(is_part(self.at(id), self.at(user)));
            parts_of_parts_are_parts(self.at(id), self.at(user), self.at(root));
        }
    }

    /// Adds an operation without arguments.
    pub fn leaf(&mut self, op: Op) -> (id: usize)
        requires
            old(self).wf(),
            is_plain(op),
            takes(op, 0),
        ensures
            final(self).extends_plainly(*old(self)),
            id == old(self).size(),
            id < final(self).size(),
            final(self).settles(*old(self), Set::empty(), set![id]),
            final(self).at(id) == app0(op),
    {
        let id = self.push(op, Vec::new());
        assert(self.at(id).args =~= app0(op).args);
        id
    }

    /// Adds an operation on one tensor.
    pub fn unary(&mut self, op: Op, a: usize) -> (id: usize)
        requires
            old(self).wf(),
            is_plain(op),
            takes(op, 1),
            a < old(self).size(),
        ensures
            final(self).extends_plainly(*old(self)),
            id == old(self).size(),
            id < final(self).size(),
            final(self).settles(*old(self), set![a], set![id]),
            final(self).at(id) == app1(op, old(self).at(a)),
    {
        let id = self.push(op, vec![a]);
        assert(self.at(id).args =~= app1(op, old(self).at(a)).args);
        id
    }

    /// Adds an operation on two tensors.
    pub fn binary(&mut self, op: Op, a: usize, b: usize) -> (id: usize)
        requires
            old(self).wf(),
            is_plain(op),
            takes(op, 2),
            a < old(self).size(),
            b < old(self).size(),
        ensures
            final(self).extends_plainly(*old(self)),
            id == old(self).size(),
            id < final(self).size(),
            final(self).settles(*old(self), set![a, b], set![id]),
            final(self).at(id) == app2(op, old(self).at(a), old(self).at(b)),
    {
        let id = self.push(op, vec![a, b]);
        assert(self.at(id).args =~= app2(op, old(self).at(a), old(self).at(b)).args);
        id
    }

    /// Adds an operation on three tensors.
    pub fn ternary(&mut self, op: Op, a: usize, b: usize, c: usize) -> (id: usize)
        requires
            old(self).wf(),
            is_plain(op),
            takes(op, 3),
            a < old(self).size(),
            b < old(self).size(),
            c < old(self).size(),
        ensures
            final(self).extends_plainly(*old(self)),
            id == old(self).size(),
            id < final(self).size(),
            final(self).settles(*old(self), set![a, b, c], set![id]),
            final(self).at(id) == app3(op, old(self).at(a), old(self).at(b), old(self).at(c)),
    {
        let id = self.push(op, vec![a, b, c]);
        assert(self.at(id).args =~= app3(
            op,
            old(self).at(a),
            old(self).at(b),
            old(self).at(c),
        ).args);
        id
    }

    /// Adds an operation on four tensors.
    pub fn quaternary(&mut self, op: Op, a: usize, b: usize, c: usize, d: usize) -> (id: usize)
        requires
            old(self).wf(),
            is_plain(op),
            takes(op, 4),
            a < old(self).size(),
            b < old(self).size(),
            c < old(self).size(),
            d < old(self).size(),
        ensures
            final(self).extends_plainly(*old(self)),
            id == old(self).size(),
            id < final(self).size(),
            final(self).settles(*old(self), set![a, b, c, d], set![id]),
            final(self).at(id) == app4(
                op,
                old(self).at(a),
                old(self).at(b),
                old(self).at(c),
                old(self).at(d),
            ),
    {
        let id = self.push(op, vec![a, b, c, d]);
        assert(self.at(id).args =~= app4(
            op,
            old(self).at(a),
            old(self).at(b),
            old(self).at(c),
            old(self).at(d),
        ).args);
        id
    }

    /// Adds an operation on any number of tensors.
    pub fn variadic(&mut self, op: Op, args: Vec<usize>) -> (id: usize)
        requires
            old(self).wf(),
            is_plain(op),
            takes(op, args@.len()),
            forall|k: int| 0 <= k < args@.len() ==> #[trigger] args@[k] < old(self).size(),
        ensures
            final(self).extends_plainly(*old(self)),
            id == old(self).size(),
            id < final(self).size(),
            final(self).settles(*old(self), args@.to_set(), set![id]),
            final(self).at(id) == (Term {
                op,
                args: args@.map_values(|a: usize| old(self).at(a)),
            }),
    {
        self.push(op, args)
    }

    /// Adds an update of the cache in `slot`.
    pub fn update_cache(&mut self, slot: usize, keys: usize, values: usize) -> (id: usize)
        requires
            old(self).wf(),
            keys < old(self).size(),
            values < old(self).size(),
        ensures
            final(self).wf(),
            final(self).extends(*old(self)),
            id == old(self).size(),
            id < final(self).size(),
            final(self).settles(*old(self), set![keys, values], Set::empty()),
            final(self).at(id) == app2(
                Op::UpdateCache { slot },
                old(self).at(keys),
                old(self).at(values),
            ),
            final(self).cache_updates() == old(self).cache_updates().push(final(self).at(id)),
            final(self).draw_count() == old(self).draw_count(),
    {
        let op = Op::UpdateCache { slot };
        let id = self.push(op, vec![keys, values]);
        assert(self.at(id).args =~= app2(op, old(self).at(keys), old(self).at(values)).args);
        id
    }

    /// Adds a random draw, with the next number.
    pub fn categorical(&mut self, logits: usize) -> (id: usize)
        requires
            old(self).wf(),
            logits < old(self).size(),
        ensures
            final(self).wf(),
            final(self).extends(*old(self)),
            id == old(self).size(),
            id < final(self).size(),
            final(self).settles(*old(self), set![logits], set![id]),
            final(self).at(id) == app1(
                Op::Categorical { draw: old(self).draw_count() as usize },
                old(self).at(logits),
            ),
            final(self).cache_updates() == old(self).cache_updates(),
            final(self).draw_count() == old(self).draw_count() + 1,
    {
        let op = Op::Categorical { draw: self.draws };
        let id = self.push(op, vec![logits]);
        assert(self.at(id).args =~= app1(op, old(self).at(logits)).args);
        id
    }
}

pub(crate) broadcast proof fn lemma_app0_mentions(op: Op, module: ModuleRef)
    ensures
        #[trigger] mentions(app0(op), module) <==> is_of(op, module),
{
}

pub(crate) broadcast proof fn lemma_app1_mentions(op: Op, a: Term, module: ModuleRef)
    ensures
        #[trigger] mentions(app1(op, a), module) <==> is_of(op, module) || mentions(a, module),
{
    assert(app1(op, a).args[0] == a);
}

pub(crate) broadcast proof fn lemma_app2_mentions(op: Op, a: Term, b: Term, module: ModuleRef)
    ensures
        #[trigger] mentions(app2(op, a, b), module) <==> is_of(op, module) || mentions(a, module)
            || mentions(b, module),
{
    assert(app2(op, a, b).args[0] == a);
    assert(app2(op, a, b).args[1] == b);
}

pub(crate) broadcast proof fn lemma_app3_mentions(
    op: Op,
    a: Term,
    b: Term,
    c: Term,
    module: ModuleRef,
)
    ensures
        #[trigger] mentions(app3(op, a, b, c), module) <==> is_of(op, module) || mentions(a, module)
            || mentions(b, module) || mentions(c, module),
{
    let t = app3(op, a, b, c);
    assert(t.args[0] == a && t.args[1] == b && t.args[2] == c);
}

pub(crate) broadcast proof fn lemma_app4_mentions(
    op: Op,
    a: Term,
    b: Term,
    c: Term,
    d: Term,
    module: ModuleRef,
)
    ensures
        #[trigger] mentions(app4(op, a, b, c, d), module) <==> is_of(op, module) || mentions(
            a,
            module,
        ) || mentions(b, module) || mentions(c, module) || mentions(d, module),
{
    let t = app4(op, a, b, c, d);
    assert(t.args[0] == a && t.args[1] == b && t.args[2] == c && t.args[3] == d);
}

pub(crate) broadcast group group_mentions {
    lemma_app0_mentions,
    lemma_app1_mentions,
    lemma_app2_mentions,
    lemma_app3_mentions,
    lemma_app4_mentions,
}

/// What is part of a part is part of the whole.
pub proof fn parts_of_parts_are_parts(a: Term, b: Term, c: Term)
    requires
        is_part(a, b),
        is_part(b, c),
    ensures
        is_part(a, c),
    decreases c,
{
    if b != c {
        let k = choose|k: int| 0 <= k < c.args.len() && is_part(b, #[trigger] c.args[k]);
        parts_of_parts_are_parts(a, b, c.args[k]);
        assert(is_part(a, c.args[k]));
    }
}

} // verus!
