//! What computations come to, under any meaning of the operations.
use vstd::prelude::*;

use crate::graph::{app0, app1, app2, app3, app4, ModuleRef, Op, ParamKind, Scalar, Term};

verus! {

/// A meaning of the operations: the value that each gives for the values of its arguments.
#[verifier::reject_recursive_types(T)]
pub struct Meaning<T> {
    pub apply: spec_fn(Op, Seq<T>) -> T,
}

impl<T> Meaning<T> {
    /// The value of a term.
    pub open spec fn of(self, term: Term) -> T
        decreases term,
    {
        (self.apply)(term.op, self.of_all(term.args))
    }

    /// The values of terms.
    pub open spec fn of_all(self, terms: Seq<Term>) -> Seq<T>
        decreases terms,
    {
        if terms.len() == 0 {
            Seq::empty()
        } else {
            self.of_all(terms.drop_last()).push(self.of(terms[terms.len() - 1]))
        }
    }

    /// An operation without arguments.
    pub open spec fn none(self, op: Op) -> T {
        (self.apply)(op, Seq::empty())
    }

    /// An operation on one value.
    pub open spec fn one(self, op: Op, x: T) -> T {
        (self.apply)(op, seq![x])
    }

    /// An operation on two values.
    pub open spec fn two(self, op: Op, x: T, y: T) -> T {
        (self.apply)(op, seq![x, y])
    }

    /// An operation on three values.
    pub open spec fn three(self, op: Op, x: T, y: T, z: T) -> T {
        (self.apply)(op, seq![x, y, z])
    }

    /// An operation on four values.
    pub open spec fn four(self, op: Op, x: T, y: T, z: T, w: T) -> T {
        (self.apply)(op, seq![x, y, z, w])
    }

    #[verifier::inline]
    pub open spec fn add(self, x: T, y: T) -> T {
        self.two(Op::Add, x, y)
    }

    #[verifier::inline]
    pub open spec fn mul(self, x: T, y: T) -> T {
        self.two(Op::Multiply, x, y)
    }

    #[verifier::inline]
    pub open spec fn scalar(self, s: Scalar) -> T {
        self.none(Op::Scalar(s))
    }

    /// A tensor that a module holds.
    #[verifier::inline]
    pub open spec fn param(self, module: ModuleRef, kind: ParamKind) -> T {
        self.none(Op::Param { module, kind })
    }

    /// What a module makes of `x`.
    #[verifier::inline]
    pub open spec fn module(self, module: ModuleRef, x: T) -> T {
        self.one(Op::Forward(module), x)
    }

    /// Adding `zero` changes nothing, and multiplying with it gives it.
    pub open spec fn has_zero(self, zero: T) -> bool {
        &&& forall|x: T| #[trigger] self.add(x, zero) == x
        &&& forall|x: T| #[trigger] self.add(zero, x) == x
        &&& forall|x: T| #[trigger] self.mul(x, zero) == zero
        &&& forall|x: T| #[trigger] self.mul(zero, x) == zero
    }

    /// The module gives `value` for everything.
    pub open spec fn always_gives(self, module: ModuleRef, value: T) -> bool {
        forall|x: T| #[trigger] self.module(module, x) == value
    }
}

pub(crate) broadcast proof fn lemma_of_app0<T>(m: Meaning<T>, op: Op)
    ensures
        #[trigger] m.of(app0(op)) == m.none(op),
{
    assert(m.of_all(app0(op).args) =~= Seq::empty());
}

proof fn lemma_all1<T>(m: Meaning<T>, a: Term)
    ensures
        m.of_all(seq![a]) == seq![m.of(a)],
{
    let s = seq![a];
    assert(s.drop_last() =~= Seq::empty());
    assert(m.of_all(Seq::empty()) =~= Seq::empty());
    assert(m.of_all(s) =~= seq![m.of(a)]);
}

proof fn lemma_all2<T>(m: Meaning<T>, a: Term, b: Term)
    ensures
        m.of_all(seq![a, b]) == seq![m.of(a), m.of(b)],
{
    let s = seq![a, b];
    assert(s.drop_last() =~= seq![a]);
    lemma_all1(m, a);
    assert(m.of_all(s) =~= seq![m.of(a), m.of(b)]);
}

proof fn lemma_all3<T>(m: Meaning<T>, a: Term, b: Term, c: Term)
    ensures
        m.of_all(seq![a, b, c]) == seq![m.of(a), m.of(b), m.of(c)],
{
    let s = seq![a, b, c];
    assert(s.drop_last() =~= seq![a, b]);
    lemma_all2(m, a, b);
    assert(m.of_all(s) =~= seq![m.of(a), m.of(b), m.of(c)]);
}

pub(crate) broadcast proof fn lemma_of_app1<T>(m: Meaning<T>, op: Op, a: Term)
    ensures
        #[trigger] m.of(app1(op, a)) == m.one(op, m.of(a)),
{
    lemma_all1(m, a);
}

pub(crate) broadcast proof fn lemma_of_app2<T>(m: Meaning<T>, op: Op, a: Term, b: Term)
    ensures
        #[trigger] m.of(app2(op, a, b)) == m.two(op, m.of(a), m.of(b)),
{
    lemma_all2(m, a, b);
}

pub(crate) broadcast proof fn lemma_of_app3<T>(m: Meaning<T>, op: Op, a: Term, b: Term, c: Term)
    ensures
        #[trigger] m.of(app3(op, a, b, c)) == m.three(op, m.of(a), m.of(b), m.of(c)),
{
    lemma_all3(m, a, b, c);
}

pub(crate) broadcast proof fn lemma_of_app4<T>(
    m: Meaning<T>,
    op: Op,
    a: Term,
    b: Term,
    c: Term,
    d: Term,
)
    ensures
        #[trigger] m.of(app4(op, a, b, c, d)) == m.four(op, m.of(a), m.of(b), m.of(c), m.of(d)),
{
    let s = seq![a, b, c, d];
    assert(s.drop_last() =~= seq![a, b, c]);
    lemma_all3(m, a, b, c);
    assert(m.of_all(s) =~= seq![m.of(a), m.of(b), m.of(c), m.of(d)]);
}

/// The values of terms are those of each of them.
pub(crate) proof fn lemma_of_all<T>(m: Meaning<T>, terms: Seq<Term>)
    ensures
        m.of_all(terms) == terms.map_values(|t: Term| m.of(t)),
    decreases terms.len(),
{
    if terms.len() > 0 {
        lemma_of_all(m, terms.drop_last());
    }
    assert(m.of_all(terms) =~= terms.map_values(|t: Term| m.of(t)));
}

pub(crate) broadcast group group_meaning {
    lemma_of_app0,
    lemma_of_app1,
    lemma_of_app2,
    lemma_of_app3,
    lemma_of_app4,
}

} // verus!
