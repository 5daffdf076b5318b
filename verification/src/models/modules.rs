//! The building blocks of a transformer layer: how each is made, and what it computes.
use vstd::prelude::*;

use crate::graph::{
    app0, app1, app2, app3, Graph, LayerPart, ModuleRef, Op, Owner, ParamKind, Scalar, Shape, Term,
    F32,
};
use crate::models::rope::{clone_scaling, scaling_view, RopeScaling, RopeValue, RotaryDims};

verus! {

/// How the weights of a layer are quantized.
#[derive(Debug, Clone, Copy, PartialEq, Eq, Structural)]
pub struct Quantization {
    pub group_size: i32,
    pub bits: i32,
}

/// A linear layer without bias.
#[derive(Debug, Clone, Copy, PartialEq, Eq)]
pub struct Linear {
    pub input_dims: i32,
    pub output_dims: i32,
    pub quantization: Option<Quantization>,
}

/// A root-mean-square normalization.
#[derive(Debug, Clone, Copy, PartialEq, Eq, Structural)]
pub struct RmsNorm {
    pub dims: i32,
    pub eps: F32,
}

/// A rotary position embedding.
#[derive(Debug)]
pub struct Rope {
    pub dims: RotaryDims,
    pub theta: F32,
    pub traditional: bool,
    pub scaling: Option<RopeScaling>,
    pub max_position_embeddings: i32,
}

/// What a [`Rope`] holds.
pub struct RopeView {
    pub dims: RotaryDims,
    pub theta: F32,
    pub traditional: bool,
    pub scaling: Option<Map<Seq<char>, RopeValue>>,
    pub max_position_embeddings: i32,
}

impl View for Rope {
    type V = RopeView;

    open spec fn view(&self) -> RopeView {
        RopeView {
            dims: self.dims,
            theta: self.theta,
            traditional: self.traditional,
            scaling: scaling_view(self.scaling),
            max_position_embeddings: self.max_position_embeddings,
        }
    }
}

impl Clone for Rope {
    fn clone(&self) -> (r: Self)
        ensures
            r@ == self@,
    {
        Rope {
            dims: self.dims,
            theta: self.theta,
            traditional: self.traditional,
            scaling: clone_scaling(&self.scaling),
            max_position_embeddings: self.max_position_embeddings,
        }
    }
}

pub open spec fn linear_of(
    quantized: bool,
    input_dims: i32,
    output_dims: i32,
    group_size: i32,
    bits: i32,
) -> Linear {
    Linear {
        input_dims,
        output_dims,
        quantization: if quantized {
            Some(Quantization { group_size, bits })
        } else {
            None
        },
    }
}

/// A linear layer without bias, quantized if asked for.
pub fn maybe_quantized_linear(
    quantized: bool,
    input_dims: i32,
    output_dims: i32,
    group_size: i32,
    bits: i32,
) -> (r: Linear)
    ensures
        r == linear_of(quantized, input_dims, output_dims, group_size, bits),
{
    let quantization = if quantized {
        Some(Quantization { group_size, bits })
    } else {
        None
    };
    Linear { input_dims, output_dims, quantization }
}

/// `x` over the root of the mean of its squares, which `eps` keeps from zero.
pub open spec fn rms_normalized(x: Term, eps: F32) -> Term {
    app2(
        Op::Multiply,
        x,
        app1(
            Op::Rsqrt,
            app2(
                Op::Add,
                app1(Op::MeanLast, app1(Op::Square, x)),
                app0(Op::Scalar(Scalar::Value(eps))),
            ),
        ),
    )
}

/// Normalizes `x` along its last axis, without a learned scale.
pub fn rms_norm_without_scale(g: &mut Graph, x: usize, eps: F32) -> (r: usize)
    requires
        old(g).wf(),
        x < old(g).size(),
    ensures
        final(g).extends_plainly(*old(g)),
        r < final(g).size(),
        final(g).at(r) == rms_normalized(old(g).at(x), eps),
        final(g).settles(*old(g), set![x], set![r]),
{
    let square = g.unary(Op::Square, x);
    let variance = g.unary(Op::MeanLast, square);
    let eps = g.leaf(Op::Scalar(Scalar::Value(eps)));
    let sum = g.binary(Op::Add, variance, eps);
    let factor = g.unary(Op::Rsqrt, sum);
    g.binary(Op::Multiply, x, factor)
}

/// The feed-forward part of a layer.
#[derive(Debug, Clone, Copy, PartialEq, Eq)]
pub struct Mlp {
    pub gate_proj: Linear,
    pub down_proj: Linear,
    pub up_proj: Linear,
}

pub open spec fn layer_module(owner: Owner, index: usize, part: LayerPart) -> ModuleRef {
    ModuleRef::Layer { owner, index, part }
}

/// What the feed-forward part of the layer `index` computes.
pub open spec fn mlp_output(owner: Owner, index: usize, x: Term) -> Term {
    app1(
        Op::Forward(layer_module(owner, index, LayerPart::DownProj)),
        app2(
            Op::Multiply,
            app1(
                Op::GeluApproximate,
                app1(Op::Forward(layer_module(owner, index, LayerPart::GateProj)), x),
            ),
            app1(Op::Forward(layer_module(owner, index, LayerPart::UpProj)), x),
        ),
    )
}

impl Mlp {
    /// A feed-forward part that widens `dim` to `hidden_dim` and back.
    pub fn new(dim: i32, hidden_dim: i32, quantized: bool, group_size: i32, bits: i32) -> (r: Self)
        ensures
            r.gate_proj == linear_of(quantized, dim, hidden_dim, group_size, bits),
            r.down_proj == linear_of(quantized, hidden_dim, dim, group_size, bits),
            r.up_proj == linear_of(quantized, dim, hidden_dim, group_size, bits),
    {
        Mlp {
            gate_proj: maybe_quantized_linear(quantized, dim, hidden_dim, group_size, bits),
            down_proj: maybe_quantized_linear(quantized, hidden_dim, dim, group_size, bits),
            up_proj: maybe_quantized_linear(quantized, dim, hidden_dim, group_size, bits),
        }
    }

    /// Runs the feed-forward part of the layer `index` on `x`.
    pub fn forward(&self, g: &mut Graph, owner: Owner, index: usize, x: usize) -> (r: usize)
        requires
            old(g).wf(),
            x < old(g).size(),
        ensures
            final(g).extends_plainly(*old(g)),
            r < final(g).size(),
            final(g).at(r) == mlp_output(owner, index, old(g).at(x)),
            final(g).settles(*old(g), set![x], set![r]),
    {
        let gate = g.unary(
            Op::Forward(ModuleRef::Layer { owner, index, part: LayerPart::GateProj }),
            x,
        );
        let gate = g.unary(Op::GeluApproximate, gate);
        let up = g.unary(
            Op::Forward(ModuleRef::Layer { owner, index, part: LayerPart::UpProj }),
            x,
        );
        let product = g.binary(Op::Multiply, gate, up);
        g.unary(
            Op::Forward(ModuleRef::Layer { owner, index, part: LayerPart::DownProj }),
            product,
        )
    }

    /// The modules that a change of training mode is passed on to, each with the new mode.
    pub fn training_mode(&self, owner: Owner, index: usize, mode: bool) -> (r: Vec<
        (ModuleRef, bool),
    >)
        ensures
            r@ == mlp_modes(owner, index, mode),
    {
        let r: Vec<(ModuleRef, bool)> = vec![
            (ModuleRef::Layer { owner, index, part: LayerPart::GateProj }, mode),
            (ModuleRef::Layer { owner, index, part: LayerPart::DownProj }, mode),
            (ModuleRef::Layer { owner, index, part: LayerPart::UpProj }, mode),
        ];
        assert(r@ =~= mlp_modes(owner, index, mode));
        r
    }
}

pub open spec fn mlp_modes(owner: Owner, index: usize, mode: bool) -> Seq<(ModuleRef, bool)> {
    seq![
        (layer_module(owner, index, LayerPart::GateProj), mode),
        (layer_module(owner, index, LayerPart::DownProj), mode),
        (layer_module(owner, index, LayerPart::UpProj), mode),
    ]
}

/// A table with as many rows as there are tokens.
#[derive(Debug, Clone, Copy, PartialEq, Eq)]
pub enum Table {
    /// Randomly initialized numbers.
    Embedding { rows: i32, columns: i32 },
    /// Zeros: packed integers, or numbers.
    ZeroIntegers { rows: i32, columns: i32 },
    ZeroNumbers { rows: i32, columns: i32 },
    /// Ones.
    OneNumbers { rows: i32, columns: i32 },
}

/// A token embedding.
#[derive(Debug, Clone, Copy, PartialEq, Eq)]
pub struct Gemma4Embedding {
    pub weight: Table,
    pub scales: Option<Table>,
    pub biases: Option<Table>,
    pub quantized: bool,
    pub hidden_size: i32,
    pub group_size: i32,
    pub bits: i32,
}

/// Division that rounds toward zero.
pub open spec fn quotient(a: int, b: int) -> int {
    if (a >= 0) == (b > 0) {
        (if a >= 0 {
            a
        } else {
            -a
        }) / (if b > 0 {
            b
        } else {
            -b
        })
    } else {
        -((if a >= 0 {
            a
        } else {
            -a
        }) / (if b > 0 {
            b
        } else {
            -b
        }))
    }
}

/// The widths of a quantized table can be computed.
pub open spec fn quantization_fits(hidden_size: i32, group_size: i32, bits: i32) -> bool {
    &&& bits != 0
    &&& quotient(32, bits as int) != 0
    &&& quotient(hidden_size as int, quotient(32, bits as int)) <= i32::MAX
    &&& group_size != 0
    &&& quotient(hidden_size as int, group_size as int) <= i32::MAX
}

/// `a / b`, where it is defined and fits.
pub(crate) fn checked_divide(a: i32, b: i32) -> (r: Option<i32>)
    ensures
        r is Some <==> b != 0 && quotient(a as int, b as int) <= i32::MAX,
        r matches Some(q) ==> q == quotient(a as int, b as int),
{
    proof {
        let x = if a >= 0 {
            a as int
        } else {
            -a
        };
        let d = if b > 0 {
            b as int
        } else {
            -b
        };
        if b != 0 {
            assert(0 <= x / d <= x) by (nonlinear_arith)
                requires
                    x >= 0,
                    d > 0,
            ;
            if a == 0 {
                assert(0int / d == 0) by (nonlinear_arith)
                    requires
                        d > 0,
                ;
            }
        }
        assert(a * -1 == -a);
        assert(b * -1 == -b);
    }
    a.checked_div(b)
}

pub(crate) fn divide(a: i32, b: i32) -> (r: i32)
    requires
        b != 0,
        quotient(a as int, b as int) <= i32::MAX,
    ensures
        r == quotient(a as int, b as int),
{
    checked_divide(a, b).unwrap()
}

/// Whether the widths of a quantized table can be computed.
pub fn can_quantize(hidden_size: i32, group_size: i32, bits: i32) -> (r: bool)
    ensures
        r == quantization_fits(hidden_size, group_size, bits),
{
    if bits != 0 {
        proof {
            quotient_of_32_fits(bits as int);
        }
        let per_word = divide(32, bits);
        checked_divide(hidden_size, per_word).is_some() && checked_divide(
            hidden_size,
            group_size,
        ).is_some()
    } else {
        false
    }
}

pub open spec fn embedding_of(
    vocab_size: i32,
    hidden_size: i32,
    quantized: bool,
    group_size: i32,
    bits: i32,
) -> Gemma4Embedding {
    let groups = quotient(hidden_size as int, group_size as int) as i32;
    Gemma4Embedding {
        weight: if quantized {
            Table::ZeroIntegers {
                rows: vocab_size,
                columns: quotient(hidden_size as int, quotient(32, bits as int)) as i32,
            }
        } else {
            Table::Embedding { rows: vocab_size, columns: hidden_size }
        },
        scales: if quantized {
            Some(Table::OneNumbers { rows: vocab_size, columns: groups })
        } else {
            None
        },
        biases: if quantized {
            Some(Table::ZeroNumbers { rows: vocab_size, columns: groups })
        } else {
            None
        },
        quantized,
        hidden_size,
        group_size,
        bits,
    }
}

pub open spec fn param(module: ModuleRef, kind: ParamKind) -> Term {
    app0(Op::Param { module, kind })
}

impl Gemma4Embedding {
    /// The embeddings of the tokens `input`.
    pub open spec fn output(self, module: ModuleRef, input: Term) -> Term {
        if self.quantized {
            let flat = app1(Op::Flatten, input);
            app2(
                Op::Reshape(Shape::LikeThen(self.hidden_size)),
                app3(
                    Op::Dequantize { group_size: self.group_size, bits: self.bits },
                    app2(Op::Take, param(module, ParamKind::Weight), flat),
                    app2(Op::Take, param(module, ParamKind::Scales), flat),
                    app2(Op::Take, param(module, ParamKind::Biases), flat),
                ),
                input,
            )
        } else {
            app2(Op::Take, param(module, ParamKind::Weight), input)
        }
    }

    /// The table of all embeddings.
    pub open spec fn table(self, module: ModuleRef) -> Term {
        if self.quantized {
            app3(
                Op::Dequantize { group_size: self.group_size, bits: self.bits },
                param(module, ParamKind::Weight),
                param(module, ParamKind::Scales),
                param(module, ParamKind::Biases),
            )
        } else {
            param(module, ParamKind::Weight)
        }
    }

    /// `x` matched against every embedding.
    pub open spec fn linear_output(self, module: ModuleRef, x: Term) -> Term {
        app2(Op::Matmul, x, app1(Op::TransposeAll, self.table(module)))
    }

    /// A quantized embedding has scales and biases.
    pub open spec fn has_tables(self) -> bool {
        self.quantized ==> self.scales is Some && self.biases is Some
    }

    /// An embedding of `vocab_size` tokens in `hidden_size` dimensions.
    pub fn new(
        vocab_size: i32,
        hidden_size: i32,
        quantized: bool,
        group_size: i32,
        bits: i32,
    ) -> (r: Self)
        requires
            quantized ==> quantization_fits(hidden_size, group_size, bits),
        ensures
            r == embedding_of(vocab_size, hidden_size, quantized, group_size, bits),
            r.has_tables(),
    {
        if quantized {
            proof {
                quotient_of_32_fits(bits as int);
            }
            let per_word = divide(32, bits);
            let columns = divide(hidden_size, per_word);
            let groups = divide(hidden_size, group_size);
            Gemma4Embedding {
                weight: Table::ZeroIntegers { rows: vocab_size, columns },
                scales: Some(Table::OneNumbers { rows: vocab_size, columns: groups }),
                biases: Some(Table::ZeroNumbers { rows: vocab_size, columns: groups }),
                quantized,
                hidden_size,
                group_size,
                bits,
            }
        } else {
            Gemma4Embedding {
                weight: Table::Embedding { rows: vocab_size, columns: hidden_size },
                scales: None,
                biases: None,
                quantized,
                hidden_size,
                group_size,
                bits,
            }
        }
    }

    /// Looks the tokens `input` up in the embedding that stands at `module`.
    pub fn forward(&self, g: &mut Graph, module: ModuleRef, input: usize) -> (r: usize)
        requires
            old(g).wf(),
            input < old(g).size(),
            self.has_tables(),
        ensures
            final(g).extends_plainly(*old(g)),
            r < final(g).size(),
            final(g).at(r) == self.output(module, old(g).at(input)),
            final(g).settles(*old(g), set![input], set![r]),
    {
        let weight = g.leaf(Op::Param { module, kind: ParamKind::Weight });
        if !self.quantized {
            return g.binary(Op::Take, weight, input);
        }
        let flat = g.unary(Op::Flatten, input);
        let weight = g.binary(Op::Take, weight, flat);
        let scales = g.leaf(Op::Param { module, kind: ParamKind::Scales });
        let scales = g.binary(Op::Take, scales, flat);
        let biases = g.leaf(Op::Param { module, kind: ParamKind::Biases });
        let biases = g.binary(Op::Take, biases, flat);
        let out = g.ternary(
            Op::Dequantize { group_size: self.group_size, bits: self.bits },
            weight,
            scales,
            biases,
        );
        g.binary(Op::Reshape(Shape::LikeThen(self.hidden_size)), out, input)
    }

    /// Matches `x` against every row of the embedding that stands at `module`.
    pub fn as_linear(&self, g: &mut Graph, module: ModuleRef, x: usize) -> (r: usize)
        requires
            old(g).wf(),
            x < old(g).size(),
            self.has_tables(),
        ensures
            final(g).extends_plainly(*old(g)),
            r < final(g).size(),
            final(g).at(r) == self.linear_output(module, old(g).at(x)),
            final(g).settles(*old(g), set![x], set![r]),
    {
        let stored = g.leaf(Op::Param { module, kind: ParamKind::Weight });
        let weight = if self.quantized {
            let scales = g.leaf(Op::Param { module, kind: ParamKind::Scales });
            let biases = g.leaf(Op::Param { module, kind: ParamKind::Biases });
            g.ternary(
                Op::Dequantize { group_size: self.group_size, bits: self.bits },
                stored,
                scales,
                biases,
            )
        } else {
            stored
        };
        let transposed = g.unary(Op::TransposeAll, weight);
        g.binary(Op::Matmul, x, transposed)
    }

    /// The modules that a change of training mode is passed on to: none.
    pub fn training_mode(&self, _mode: bool) -> (r: Vec<(ModuleRef, bool)>)
        ensures
            r@.len() == 0,
    {
        Vec::new()
    }
}

proof fn quotient_of_32_fits(bits: int)
    requires
        bits != 0,
    ensures
        quotient(32, bits) <= i32::MAX,
{
    let d = if bits > 0 {
        bits
    } else {
        -bits
    };
    assert(32int / d <= 32) by (nonlinear_arith)
        requires
            d > 0,
    ;
}

} // verus!
