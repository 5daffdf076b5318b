//! What holds of embeddings, given what the operations on tables mean.
//!
//! Tensors are seen row by row here. Taking picks rows, dequantizing works on each row by itself,
//! reshaping to rows of the same width keeps the rows in their order, and a matrix product holds
//! the dot product of each row with each column.
use vstd::prelude::*;

use crate::graph::{app1, app2, app3, ModuleRef, Op, ParamKind, Shape, Term};
use crate::models::modules::{param, Gemma4Embedding};

verus! {

/// Rows of `width` numbers each.
pub struct Matrix<N> {
    pub width: nat,
    pub rows: Seq<Seq<N>>,
}

/// A tensor.
pub enum Tensor<N> {
    /// Token ids in this shape, in row-major order.
    Ids { shape: Seq<nat>, ids: Seq<nat> },
    /// Numbers, in rows along the last axis. `lead` is the shape of the other axes.
    Rows { lead: Seq<nat>, matrix: Matrix<N> },
    /// A transposed matrix: its columns are the rows of `of`.
    Transposed { of: Matrix<N> },
}

/// What a computation starts from, and how it computes with numbers.
#[verifier::reject_recursive_types(N)]
pub struct Setting<N> {
    /// The tensors that modules hold.
    pub tables: spec_fn(ModuleRef, ParamKind) -> Matrix<N>,
    /// What all other operations give.
    pub others: spec_fn(Term) -> Tensor<N>,
    /// The numbers of a row, from its packed numbers, its scales and its biases, for a group size
    /// and a number of bits.
    pub unpack: spec_fn(i32, i32, Seq<N>, Seq<N>, Seq<N>) -> Seq<N>,
    /// How many numbers a row of packed ones holds, for a number of bits.
    pub unpacked_width: spec_fn(i32, nat) -> nat,
    /// The dot product, however it is rounded.
    pub dot: spec_fn(Seq<N>, Seq<N>) -> N,
}

impl<N> Setting<N> {
    /// The rows of `source` at `indices`.
    pub open spec fn taken(self, source: Tensor<N>, indices: Tensor<N>) -> Option<Tensor<N>> {
        match (source, indices) {
            (Tensor::Rows { lead, matrix }, Tensor::Ids { shape, ids }) if lead.len() == 1 => Some(
                Tensor::Rows {
                    lead: shape,
                    matrix: Matrix {
                        width: matrix.width,
                        rows: ids.map_values(|id: nat| matrix.rows[id as int]),
                    },
                },
            ),
            _ => None,
        }
    }

    /// `weight` unpacked, row by row.
    pub open spec fn dequantized(
        self,
        group_size: i32,
        bits: i32,
        weight: Tensor<N>,
        scales: Tensor<N>,
        biases: Tensor<N>,
    ) -> Option<Tensor<N>> {
        match (weight, scales, biases) {
            (
                Tensor::Rows { lead, matrix: w },
                Tensor::Rows { matrix: s, .. },
                Tensor::Rows { matrix: b, .. },
            ) => Some(
                Tensor::Rows {
                    lead,
                    matrix: Matrix {
                        width: (self.unpacked_width)(bits, w.width),
                        rows: Seq::new(
                            w.rows.len(),
                            |i: int| (self.unpack)(group_size, bits, w.rows[i], s.rows[i], b.rows[i]),
                        ),
                    },
                },
            ),
            _ => None,
        }
    }

    /// Rows in the shape of ids, one for each.
    pub open spec fn shaped(self, last: i32, x: Tensor<N>, like: Tensor<N>) -> Option<Tensor<N>> {
        match (x, like) {
            (Tensor::Rows { matrix, .. }, Tensor::Ids { shape, ids }) if matrix.width == last
                && matrix.rows.len() == ids.len() => Some(Tensor::Rows { lead: shape, matrix }),
            _ => None,
        }
    }

    /// The dot product of each row of `x` with each column of `y`.
    pub open spec fn product(self, x: Tensor<N>, y: Tensor<N>) -> Option<Tensor<N>> {
        match (x, y) {
            (Tensor::Rows { lead, matrix }, Tensor::Transposed { of }) if matrix.width
                == of.width => Some(
                Tensor::Rows {
                    lead,
                    matrix: Matrix {
                        width: of.rows.len(),
                        rows: matrix.rows.map_values(
                            |row: Seq<N>|
                                Seq::new(of.rows.len(), |v: int| (self.dot)(row, of.rows[v])),
                        ),
                    },
                },
            ),
            _ => None,
        }
    }

    /// What the operation `op` gives for its first three arguments.
    pub open spec fn applied(
        self,
        op: Op,
        first: Tensor<N>,
        second: Tensor<N>,
        third: Tensor<N>,
    ) -> Option<Tensor<N>> {
        match op {
            Op::Param { module, kind } => {
                let matrix = (self.tables)(module, kind);
                Some(Tensor::Rows { lead: seq![matrix.rows.len()], matrix })
            },
            Op::Take => self.taken(first, second),
            Op::Flatten => match first {
                Tensor::Ids { ids, .. } => Some(Tensor::Ids { shape: seq![ids.len()], ids }),
                _ => None,
            },
            Op::Dequantize { group_size, bits } => self.dequantized(
                group_size,
                bits,
                first,
                second,
                third,
            ),
            Op::Reshape(Shape::LikeThen(last)) => self.shaped(last, first, second),
            Op::TransposeAll => match first {
                Tensor::Rows { lead, matrix } if lead.len() == 1 => Some(
                    Tensor::Transposed { of: matrix },
                ),
                _ => None,
            },
            Op::Matmul => self.product(first, second),
            _ => None,
        }
    }

    /// The tensor that `term` stands for.
    pub open spec fn meaning(self, term: Term) -> Tensor<N>
        decreases term,
    {
        let first = if term.args.len() > 0 {
            self.meaning(term.args[0])
        } else {
            arbitrary()
        };
        let second = if term.args.len() > 1 {
            self.meaning(term.args[1])
        } else {
            arbitrary()
        };
        let third = if term.args.len() > 2 {
            self.meaning(term.args[2])
        } else {
            arbitrary()
        };
        match self.applied(term.op, first, second, third) {
            Some(tensor) => tensor,
            None => (self.others)(term),
        }
    }

    /// The tables of the embedding at `module` have `vocab_size` rows, of the width of the
    /// embedding once they are unpacked.
    pub open spec fn holds(
        self,
        embedding: Gemma4Embedding,
        module: ModuleRef,
        vocab_size: nat,
    ) -> bool {
        let weight = (self.tables)(module, ParamKind::Weight);
        &&& weight.rows.len() == vocab_size
        &&& if embedding.quantized {
            &&& (self.unpacked_width)(embedding.bits, weight.width) == embedding.hidden_size
            &&& (self.tables)(module, ParamKind::Scales).rows.len() == vocab_size
            &&& (self.tables)(module, ParamKind::Biases).rows.len() == vocab_size
        } else {
            weight.width == embedding.hidden_size
        }
    }

    /// The row of the token `id`.
    pub open spec fn row(self, embedding: Gemma4Embedding, module: ModuleRef, id: nat) -> Seq<N> {
        let weight = (self.tables)(module, ParamKind::Weight).rows[id as int];
        if embedding.quantized {
            (self.unpack)(
                embedding.group_size,
                embedding.bits,
                weight,
                (self.tables)(module, ParamKind::Scales).rows[id as int],
                (self.tables)(module, ParamKind::Biases).rows[id as int],
            )
        } else {
            weight
        }
    }

    proof fn lemma_of_param(self, module: ModuleRef, kind: ParamKind)
        ensures
            ({
                let matrix = (self.tables)(module, kind);
                self.meaning(param(module, kind)) == (Tensor::Rows {
                    lead: seq![matrix.rows.len()],
                    matrix,
                })
            }),
    {
    }

    proof fn lemma_of_app1(self, op: Op, a: Term)
        ensures
            self.meaning(app1(op, a)) == (match self.applied(
                op,
                self.meaning(a),
                arbitrary(),
                arbitrary(),
            ) {
                Some(tensor) => tensor,
                None => (self.others)(app1(op, a)),
            }),
    {
        assert(app1(op, a).args[0] == a);
    }

    proof fn lemma_of_app2(self, op: Op, a: Term, b: Term)
        ensures
            self.meaning(app2(op, a, b)) == (match self.applied(
                op,
                self.meaning(a),
                self.meaning(b),
                arbitrary(),
            ) {
                Some(tensor) => tensor,
                None => (self.others)(app2(op, a, b)),
            }),
    {
        let t = app2(op, a, b);
        assert(t.args[0] == a && t.args[1] == b);
    }

    proof fn lemma_of_app3(self, op: Op, a: Term, b: Term, c: Term)
        ensures
            self.meaning(app3(op, a, b, c)) == (match self.applied(
                op,
                self.meaning(a),
                self.meaning(b),
                self.meaning(c),
            ) {
                Some(tensor) => tensor,
                None => (self.others)(app3(op, a, b, c)),
            }),
    {
        let t = app3(op, a, b, c);
        assert(t.args[0] == a && t.args[1] == b && t.args[2] == c);
    }

    proof fn lemma_looked_up(
        self,
        embedding: Gemma4Embedding,
        module: ModuleRef,
        vocab_size: nat,
        input: Term,
        shape: Seq<nat>,
        ids: Seq<nat>,
    )
        requires
            self.holds(embedding, module, vocab_size),
            self.meaning(input) == (Tensor::<N>::Ids { shape, ids }),
            forall|k: int| 0 <= k < ids.len() ==> #[trigger] ids[k] < vocab_size,
        ensures
            self.meaning(embedding.output(module, input)) == (Tensor::Rows {
                lead: shape,
                matrix: Matrix {
                    width: embedding.hidden_size as nat,
                    rows: ids.map_values(|id: nat| self.row(embedding, module, id)),
                },
            }),
    {
        let weight = param(module, ParamKind::Weight);
        let rows = ids.map_values(|id: nat| self.row(embedding, module, id));
        self.lemma_of_param(module, ParamKind::Weight);
        if embedding.quantized {
            let scales = param(module, ParamKind::Scales);
            let biases = param(module, ParamKind::Biases);
            let flat = app1(Op::Flatten, input);
            self.lemma_of_param(module, ParamKind::Scales);
            self.lemma_of_param(module, ParamKind::Biases);
            self.lemma_of_app1(Op::Flatten, input);
            self.lemma_of_app2(Op::Take, weight, flat);
            self.lemma_of_app2(Op::Take, scales, flat);
            self.lemma_of_app2(Op::Take, biases, flat);
            let op = Op::Dequantize { group_size: embedding.group_size, bits: embedding.bits };
            let w = app2(Op::Take, weight, flat);
            let s = app2(Op::Take, scales, flat);
            let b = app2(Op::Take, biases, flat);
            self.lemma_of_app3(op, w, s, b);
            let unpacked = self.meaning(app3(op, w, s, b));
            assert(unpacked->Rows_matrix.rows =~= rows);
            self.lemma_of_app2(
                Op::Reshape(Shape::LikeThen(embedding.hidden_size)),
                app3(op, w, s, b),
                input,
            );
        } else {
            self.lemma_of_app2(Op::Take, weight, input);
            assert(self.meaning(app2(Op::Take, weight, input))->Rows_matrix.rows =~= rows);
        }
    }

    /// An embedding gives each token a row of its width, in the shape of the tokens, quantized or
    /// not, and a token's row depends on the token alone: it is the one that the embedding gives
    /// the token by itself.
    pub proof fn rows_depend_on_their_tokens_alone(
        self,
        embedding: Gemma4Embedding,
        module: ModuleRef,
        vocab_size: nat,
        input: Term,
        shape: Seq<nat>,
        ids: Seq<nat>,
        single: Term,
        single_shape: Seq<nat>,
        k: int,
    )
        requires
            self.holds(embedding, module, vocab_size),
            self.meaning(input) == (Tensor::<N>::Ids { shape, ids }),
            forall|i: int| 0 <= i < ids.len() ==> #[trigger] ids[i] < vocab_size,
            0 <= k < ids.len(),
            self.meaning(single) == (Tensor::<N>::Ids {
                shape: single_shape,
                ids: seq![ids[k]],
            }),
        ensures
            ({
                let all = self.meaning(embedding.output(module, input));
                let one = self.meaning(embedding.output(module, single));
                &&& all is Rows
                &&& all->lead == shape
                &&& all->Rows_matrix.width == embedding.hidden_size
                &&& all->Rows_matrix.rows.len() == ids.len()
                &&& one is Rows
                &&& one->lead == single_shape
                &&& one->Rows_matrix.rows.len() == 1
                &&& all->Rows_matrix.rows[k] == one->Rows_matrix.rows[0]
            }),
    {
        self.lemma_looked_up(embedding, module, vocab_size, input, shape, ids);
        let alone = seq![ids[k]];
        assert(alone[0] == ids[k]);
        self.lemma_looked_up(embedding, module, vocab_size, single, single_shape, alone);
    }

    /// An embedding that serves as output layer scores each token against the row that the lookup
    /// gives it: the score of the token `v` is the dot product with that row.
    pub proof fn heads_use_the_rows_of_the_lookup(
        self,
        embedding: Gemma4Embedding,
        module: ModuleRef,
        vocab_size: nat,
        x: Term,
        lead: Seq<nat>,
        rows: Seq<Seq<N>>,
        token: Term,
        token_shape: Seq<nat>,
        v: nat,
        k: int,
    )
        requires
            self.holds(embedding, module, vocab_size),
            embedding.hidden_size >= 0,
            self.meaning(x) == (Tensor::Rows {
                lead,
                matrix: Matrix { width: embedding.hidden_size as nat, rows },
            }),
            0 <= k < rows.len(),
            v < vocab_size,
            self.meaning(token) == (Tensor::<N>::Ids { shape: token_shape, ids: seq![v] }),
        ensures
            ({
                let scores = self.meaning(embedding.linear_output(module, x));
                let found = self.meaning(embedding.output(module, token));
                &&& scores is Rows
                &&& scores->lead == lead
                &&& scores->Rows_matrix.width == vocab_size
                &&& scores->Rows_matrix.rows.len() == rows.len()
                &&& scores->Rows_matrix.rows[k].len() == vocab_size
                &&& found is Rows
                &&& scores->Rows_matrix.rows[k][v as int] == (self.dot)(
                    rows[k],
                    found->Rows_matrix.rows[0],
                )
            }),
    {
        let alone = seq![v];
        assert(alone[0] == v);
        self.lemma_looked_up(embedding, module, vocab_size, token, token_shape, alone);
        let weight = param(module, ParamKind::Weight);
        let table = embedding.table(module);
        self.lemma_of_param(module, ParamKind::Weight);
        if embedding.quantized {
            self.lemma_of_param(module, ParamKind::Scales);
            self.lemma_of_param(module, ParamKind::Biases);
            self.lemma_of_app3(
                Op::Dequantize { group_size: embedding.group_size, bits: embedding.bits },
                weight,
                param(module, ParamKind::Scales),
                param(module, ParamKind::Biases),
            );
        }
        assert(self.meaning(table)->Rows_matrix.rows[v as int] == self.row(embedding, module, v));
        self.lemma_of_app1(Op::TransposeAll, table);
        self.lemma_of_app2(Op::Matmul, x, app1(Op::TransposeAll, table));
    }
}

} // verus!
