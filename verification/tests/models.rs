use goose_mlx_lm::graph::{
    Axes, Dim, Graph, Input, LayerPart, ModuleRef, Op, Owner, ParamKind, Pattern, Scalar, Shape, F32,
};
use goose_mlx_lm::models::args::{Gemma4Config, ModelArgs};
use goose_mlx_lm::models::attention::{Attention, AttentionInput, SharedKv};
use goose_mlx_lm::models::block::TransformerBlock;
use goose_mlx_lm::models::gemma4::{
    gemma4_load_config, load_gemma4_model, sample, weight_files, Model, WeightMap,
};
use goose_mlx_lm::models::layer::LayerType;
use goose_mlx_lm::models::modules::{
    maybe_quantized_linear, rms_norm_without_scale, Gemma4Embedding, Linear, Mlp, Quantization,
    RmsNorm, Table,
};
use goose_mlx_lm::models::rope::RotaryDims;
use goose_mlx_lm::models::text_model::{position_offset, Gemma4TextModel, ModelInput};

const SLIDING: LayerType = LayerType::SlidingAttention;
const FULL: LayerType = LayerType::FullAttention;

fn f32_of(x: f32) -> F32 {
    F32 { bits: x.to_bits() }
}

fn args(layer_types: &[LayerType], shared: i32) -> ModelArgs {
    ModelArgs {
        model_type: "gemma4".to_string(),
        hidden_size: 16,
        num_hidden_layers: layer_types.len() as i32,
        intermediate_size: 32,
        num_attention_heads: 2,
        rms_norm_eps: f32_of(1e-5),
        vocab_size: 100,
        num_key_value_heads: 1,
        num_global_key_value_heads: None,
        max_position_embeddings: 128,
        rope_theta: f32_of(10_000.0),
        head_dim: 8,
        global_head_dim: Some(4),
        tie_word_embeddings: true,
        attention_bias: false,
        attention_k_eq_v: false,
        quantized: false,
        quantization_group_size: 64,
        quantization_bits: 4,
        hidden_size_per_layer_input: 0,
        vocab_size_per_layer_input: None,
        num_kv_shared_layers: shared,
        layer_types: layer_types.to_vec(),
        sliding_window: Some(4),
        final_logit_softcapping: None,
        enable_moe_block: false,
        num_experts: None,
        top_k_experts: None,
        moe_intermediate_size: None,
        rope_scaling: None,
        rope_parameters: None,
    }
}

fn at(index: usize, part: LayerPart) -> ModuleRef {
    ModuleRef::Layer {
        owner: Owner::Target,
        index,
        part,
    }
}

/// The operations that a node rests on, innermost first, each as often as it is used.
fn trace(g: &Graph, id: usize) -> Vec<Op> {
    let mut ops = Vec::new();
    for arg in g.args(id) {
        ops.extend(trace(g, *arg));
    }
    ops.push(g.op(id));
    ops
}

fn count(g: &Graph, wanted: impl Fn(Op) -> bool) -> usize {
    (0..g.len()).filter(|id| wanted(g.op(*id))).count()
}

fn updated_slots(g: &Graph) -> Vec<usize> {
    (0..g.len())
        .filter_map(|id| match g.op(id) {
            Op::UpdateCache { slot } => Some(slot),
            _ => None,
        })
        .collect()
}

#[test]
fn linear_layers() {
    assert_eq!(
        maybe_quantized_linear(false, 3, 5, 64, 4),
        Linear {
            input_dims: 3,
            output_dims: 5,
            quantization: None
        }
    );
    assert_eq!(
        maybe_quantized_linear(true, 3, 5, 64, 4),
        Linear {
            input_dims: 3,
            output_dims: 5,
            quantization: Some(Quantization {
                group_size: 64,
                bits: 4
            })
        }
    );
}

#[test]
fn normalization_without_scale() {
    let mut g = Graph::new();
    let x = g.leaf(Op::Input(Input::Hidden));
    let r = rms_norm_without_scale(&mut g, x, f32_of(1e-6));
    assert_eq!(
        trace(&g, r),
        vec![
            Op::Input(Input::Hidden),
            Op::Input(Input::Hidden),
            Op::Square,
            Op::MeanLast,
            Op::Scalar(Scalar::Value(f32_of(1e-6))),
            Op::Add,
            Op::Rsqrt,
            Op::Multiply,
        ]
    );
}

#[test]
fn feed_forward_parts() {
    let mlp = Mlp::new(16, 32, true, 64, 4);
    let quantization = Some(Quantization {
        group_size: 64,
        bits: 4,
    });
    assert_eq!((mlp.gate_proj.input_dims, mlp.gate_proj.output_dims), (16, 32));
    assert_eq!((mlp.down_proj.input_dims, mlp.down_proj.output_dims), (32, 16));
    assert_eq!((mlp.up_proj.input_dims, mlp.up_proj.output_dims), (16, 32));
    assert_eq!(mlp.down_proj.quantization, quantization);
    let mut g = Graph::new();
    let x = g.leaf(Op::Input(Input::Hidden));
    let r = mlp.forward(&mut g, Owner::Target, 3, x);
    assert_eq!(
        trace(&g, r),
        vec![
            Op::Input(Input::Hidden),
            Op::Forward(at(3, LayerPart::GateProj)),
            Op::GeluApproximate,
            Op::Input(Input::Hidden),
            Op::Forward(at(3, LayerPart::UpProj)),
            Op::Multiply,
            Op::Forward(at(3, LayerPart::DownProj)),
        ]
    );
    let modes = mlp.training_mode(Owner::Target, 3, true);
    assert_eq!(modes.len(), 3);
    assert_eq!(modes[0], (at(3, LayerPart::GateProj), true));
}

#[test]
fn plain_embeddings() {
    let embedding = Gemma4Embedding::new(100, 16, false, 0, 0);
    assert_eq!(
        embedding.weight,
        Table::Embedding {
            rows: 100,
            columns: 16
        }
    );
    assert_eq!(embedding.scales, None);
    assert_eq!(embedding.biases, None);
    let module = ModuleRef::EmbedTokens {
        owner: Owner::Target,
    };
    let weight = Op::Param {
        module,
        kind: ParamKind::Weight,
    };
    let mut g = Graph::new();
    let x = g.leaf(Op::Input(Input::Tokens));
    let r = embedding.forward(&mut g, module, x);
    assert_eq!(trace(&g, r), vec![weight, Op::Input(Input::Tokens), Op::Take]);
    let r = embedding.as_linear(&mut g, module, x);
    assert_eq!(
        trace(&g, r),
        vec![Op::Input(Input::Tokens), weight, Op::TransposeAll, Op::Matmul]
    );
    assert!(embedding.training_mode(true).is_empty());
}

#[test]
fn quantized_embeddings() {
    let embedding = Gemma4Embedding::new(100, 128, true, 64, 4);
    assert_eq!(
        embedding.weight,
        Table::ZeroIntegers {
            rows: 100,
            columns: 16
        }
    );
    assert_eq!(
        embedding.scales,
        Some(Table::OneNumbers {
            rows: 100,
            columns: 2
        })
    );
    assert_eq!(
        embedding.biases,
        Some(Table::ZeroNumbers {
            rows: 100,
            columns: 2
        })
    );
    let module = ModuleRef::EmbedTokensPerLayer;
    let mut g = Graph::new();
    let x = g.leaf(Op::Input(Input::Tokens));
    let r = embedding.forward(&mut g, module, x);
    assert_eq!(g.op(r), Op::Reshape(Shape::LikeThen(128)));
    assert_eq!(
        g.op(g.args(r)[0]),
        Op::Dequantize {
            group_size: 64,
            bits: 4
        }
    );
    assert_eq!(g.args(r)[1], x);
    assert_eq!(count(&g, |op| op == Op::Flatten), 1);
    let r = embedding.as_linear(&mut g, module, x);
    assert_eq!(g.op(r), Op::Matmul);
    // Divisions round toward zero.
    let odd = Gemma4Embedding::new(1, -7, true, 2, 16);
    assert_eq!(
        odd.weight,
        Table::ZeroIntegers {
            rows: 1,
            columns: -3
        }
    );
}

#[test]
fn attention_widths() {
    let mut args = args(&[SLIDING], 0);
    args.attention_k_eq_v = true;
    args.quantized = true;
    let quantization = Some(Quantization {
        group_size: 64,
        bits: 4,
    });
    let linear = |input_dims, output_dims| Linear {
        input_dims,
        output_dims,
        quantization,
    };
    let sliding = Attention::new(&args, SLIDING, 0);
    assert_eq!(sliding.q_proj, linear(16, 16));
    assert_eq!(sliding.k_proj, linear(16, 8));
    assert_eq!(sliding.v_proj, linear(16, 8));
    assert_eq!(sliding.o_proj, linear(16, 16));
    assert!(!sliding.attention_k_eq_v);
    assert_eq!(sliding.scale, f32_of(1.0));
    assert_eq!(
        sliding.q_norm,
        RmsNorm {
            dims: 8,
            eps: f32_of(1e-5)
        }
    );
    assert_eq!(
        sliding.rope.dims,
        RotaryDims::Scaled {
            head_dim: 8,
            factor: f32_of(1.0)
        }
    );
    assert!(sliding.rope.dims.can_resolve());
    assert_eq!(sliding.rope.dims.resolve(8), 8);
    assert!(!sliding.rope.traditional);
    assert_eq!(sliding.rope.max_position_embeddings, 128);
    let full = Attention::new(&args, FULL, 0);
    assert!(full.attention_k_eq_v);
    assert_eq!(full.v_proj, linear(16, 16));
}

#[test]
fn layers_that_share_keys_and_values() {
    let kinds = [SLIDING, SLIDING, FULL, SLIDING, SLIDING, FULL];
    let args = args(&kinds, 3);
    let flags: Vec<(bool, bool)> = kinds
        .iter()
        .enumerate()
        .map(|(index, kind)| {
            let layer = Attention::new(&args, *kind, index);
            (layer.is_kv_shared_layer, layer.store_full_length_kv)
        })
        .collect();
    assert_eq!(
        flags,
        vec![
            (false, false),
            (false, true),
            (false, true),
            (true, false),
            (true, false),
            (true, false),
        ]
    );
    let none = self::args(&kinds, 0);
    let layer = Attention::new(&none, SLIDING, 4);
    assert!(!layer.is_kv_shared_layer && !layer.store_full_length_kv);
    let all = self::args(&kinds, 9);
    let layer = Attention::new(&all, SLIDING, 0);
    assert!(layer.is_kv_shared_layer && !layer.store_full_length_kv);
}

fn attention_input(x: usize) -> AttentionInput {
    AttentionInput {
        owner: Owner::Target,
        x,
        seq_len: 3,
        mask: None,
        cache: Some(0),
        position_offset: 7,
        per_layer_input: None,
        shared_kv: Some(SharedKv::new()),
        disable_generated_mask: false,
    }
}

#[test]
fn attention_on_its_own_keys_and_values() {
    let args = args(&[SLIDING, SLIDING], 1);
    let layer = Attention::new(&args, SLIDING, 0);
    let mut g = Graph::new();
    let x = g.leaf(Op::Input(Input::Hidden));
    let result = layer.forward(&mut g, attention_input(x)).unwrap();
    assert_eq!(g.op(result.out), Op::Forward(at(0, LayerPart::OProj)));
    let joined = g.args(result.out)[0];
    assert_eq!(
        g.op(joined),
        Op::Reshape(Shape::Three(Dim::Like(0), Dim::Like(1), Dim::Rest))
    );
    let attended = g.args(g.args(joined)[0])[0];
    assert_eq!(
        g.op(attended),
        Op::Attention {
            scale: f32_of(1.0),
            cache: Some(0)
        }
    );
    let (queries, keys, values) = (g.args(attended)[0], g.args(attended)[1], g.args(attended)[2]);
    assert_eq!(
        trace(&g, queries),
        vec![
            Op::Input(Input::Hidden),
            Op::Forward(at(0, LayerPart::QProj)),
            Op::Input(Input::Hidden),
            Op::Reshape(Shape::Four(
                Dim::Like(0),
                Dim::Like(1),
                Dim::Fixed(2),
                Dim::Rest
            )),
            Op::Transpose(Axes::SwapMiddle),
            Op::Forward(at(0, LayerPart::QNorm)),
            Op::Rope {
                module: at(0, LayerPart::Rope),
                offset: 7
            },
        ]
    );
    assert_eq!(g.op(keys), Op::UpdatedKeys);
    assert_eq!(g.op(values), Op::UpdatedValues);
    assert_eq!(updated_slots(&g), vec![0]);
    let kept = result.shared_kv.unwrap();
    assert_eq!(kept.get(SLIDING), Some((keys, values)));
    assert_eq!(kept.get(FULL), None);
}

#[test]
fn attention_without_a_cache() {
    let args = args(&[SLIDING], 0);
    let layer = Attention::new(&args, SLIDING, 0);
    let mut g = Graph::new();
    let x = g.leaf(Op::Input(Input::Hidden));
    let mask = g.leaf(Op::Input(Input::Mask));
    let input = AttentionInput {
        cache: None,
        mask: Some(mask),
        shared_kv: None,
        ..attention_input(x)
    };
    let result = layer.forward(&mut g, input).unwrap();
    assert!(updated_slots(&g).is_empty());
    assert_eq!(result.shared_kv, None);
    let attended = g.args(g.args(g.args(result.out)[0])[0])[0];
    assert_eq!(g.args(attended).len(), 4);
    assert_eq!(g.args(attended)[3], mask);
    let values = g.args(attended)[2];
    assert!(trace(&g, values).contains(&Op::Forward(at(0, LayerPart::VProj))));
    assert!(trace(&g, values).contains(&Op::Scalar(Scalar::Value(f32_of(1e-6)))));
}

#[test]
fn values_equal_to_keys() {
    let mut args = args(&[FULL], 0);
    args.attention_k_eq_v = true;
    let layer = Attention::new(&args, FULL, 0);
    let mut g = Graph::new();
    let x = g.leaf(Op::Input(Input::Hidden));
    layer.forward(&mut g, attention_input(x)).unwrap();
    assert_eq!(count(&g, |op| op == Op::Forward(at(0, LayerPart::VProj))), 0);
    assert_eq!(count(&g, |op| op == Op::Forward(at(0, LayerPart::KProj))), 1);
}

#[test]
fn shared_attention_reads_what_is_kept() {
    let args = args(&[SLIDING, SLIDING], 1);
    let layer = Attention::new(&args, SLIDING, 1);
    let mut g = Graph::new();
    let x = g.leaf(Op::Input(Input::Hidden));
    let keys = g.leaf(Op::Input(Input::SharedKeys(SLIDING)));
    let values = g.leaf(Op::Input(Input::SharedValues(SLIDING)));
    let input = AttentionInput {
        shared_kv: Some(SharedKv::new().insert(SLIDING, keys, values)),
        ..attention_input(x)
    };
    let result = layer.forward(&mut g, input).unwrap();
    let attended = g.args(g.args(g.args(result.out)[0])[0])[0];
    assert_eq!(
        g.op(attended),
        Op::Attention {
            scale: f32_of(1.0),
            cache: None
        }
    );
    assert_eq!(&g.args(attended)[1..], &[keys, values]);
    assert!(updated_slots(&g).is_empty());
}

#[test]
fn shared_attention_fails_where_nothing_is_kept() {
    let args = args(&[SLIDING, SLIDING], 1);
    let layer = Attention::new(&args, SLIDING, 1);
    let mut g = Graph::new();
    let x = g.leaf(Op::Input(Input::Hidden));
    let other = SharedKv::new().insert(FULL, x, x);
    for shared_kv in [None, Some(SharedKv::new()), Some(other)] {
        let input = AttentionInput {
            shared_kv,
            ..attention_input(x)
        };
        let error = layer.forward(&mut g, input).unwrap_err();
        assert_eq!(error.what, "missing shared Gemma 4 KV states");
    }
}

#[test]
fn sliding_layers_make_their_own_mask() {
    let args = args(&[SLIDING], 0);
    let layer = TransformerBlock::new(&args, SLIDING, 0);
    let own = Op::CausalMask {
        past: Some(7),
        window: Some(4),
    };
    for (disabled, expected) in [(false, 1), (true, 0)] {
        let mut g = Graph::new();
        let x = g.leaf(Op::Input(Input::Hidden));
        let input = AttentionInput {
            disable_generated_mask: disabled,
            ..attention_input(x)
        };
        layer.forward(&mut g, input).unwrap();
        assert_eq!(count(&g, |op| op == own), expected);
    }
    let mut unbounded = self::args(&[SLIDING], 0);
    unbounded.sliding_window = None;
    let layer = TransformerBlock::new(&unbounded, SLIDING, 0);
    for (seq_len, expected) in [(1, 0), (2, 1)] {
        let mut g = Graph::new();
        let x = g.leaf(Op::Input(Input::Hidden));
        let input = AttentionInput {
            seq_len,
            ..attention_input(x)
        };
        layer.forward(&mut g, input).unwrap();
        assert_eq!(
            count(&g, |op| matches!(op, Op::CausalMask { .. })),
            expected
        );
    }
    let layer = TransformerBlock::new(&args, FULL, 0);
    let mut g = Graph::new();
    let x = g.leaf(Op::Input(Input::Hidden));
    layer.forward(&mut g, attention_input(x)).unwrap();
    assert_eq!(count(&g, |op| matches!(op, Op::CausalMask { .. })), 0);
}

#[test]
fn blocks_with_per_layer_inputs() {
    let mut args = args(&[FULL], 0);
    args.hidden_size_per_layer_input = 6;
    let layer = TransformerBlock::new(&args, FULL, 0);
    assert_eq!(
        layer.per_layer_input_gate.map(|l| (l.input_dims, l.output_dims)),
        Some((16, 6))
    );
    assert_eq!(
        layer.per_layer_projection.map(|l| (l.input_dims, l.output_dims)),
        Some((6, 16))
    );
    assert_eq!(layer.post_per_layer_input_norm.map(|n| n.dims), Some(16));
    assert_eq!(layer.layer_scalar.len, 1);
    assert_eq!(layer.self_attn.q_norm.dims, 4);
    let mut g = Graph::new();
    let x = g.leaf(Op::Input(Input::Hidden));
    let given = g.leaf(Op::Input(Input::Mask));
    let input = AttentionInput {
        per_layer_input: Some(given),
        ..attention_input(x)
    };
    let out = layer.forward(&mut g, input).unwrap().out;
    assert_eq!(g.op(out), Op::Multiply);
    assert_eq!(
        g.op(g.args(out)[1]),
        Op::Param {
            module: at(0, LayerPart::LayerScalar),
            kind: ParamKind::Weight
        }
    );
    assert_eq!(
        count(&g, |op| op == Op::Forward(at(0, LayerPart::PerLayerInputGate))),
        1
    );
    assert_eq!(layer.training_mode(Owner::Target, false).len(), 17);
    let plain = TransformerBlock::new(&self::args(&[FULL], 0), FULL, 0);
    assert_eq!(plain.per_layer_input_gate, None);
    assert_eq!(plain.training_mode(Owner::Target, false).len(), 14);
}

#[test]
fn own_masks_replace_the_given_one() {
    let args = args(&[SLIDING], 0);
    let layer = TransformerBlock::new(&args, SLIDING, 0);
    let mut g = Graph::new();
    let x = g.leaf(Op::Input(Input::Hidden));
    let mask = g.leaf(Op::Input(Input::Mask));
    let input = AttentionInput {
        mask: Some(mask),
        ..attention_input(x)
    };
    let out = layer.forward(&mut g, input).unwrap().out;
    assert!(!trace(&g, out).contains(&Op::Input(Input::Mask)));
}

#[test]
fn reusing_layers_have_no_use_for_their_own_keys() {
    let args = args(&[FULL, FULL], 1);
    let layer = TransformerBlock::new(&args, FULL, 1);
    let mut g = Graph::new();
    let x = g.leaf(Op::Input(Input::Hidden));
    let keys = g.leaf(Op::Input(Input::SharedKeys(FULL)));
    let values = g.leaf(Op::Input(Input::SharedValues(FULL)));
    let input = AttentionInput {
        shared_kv: Some(SharedKv::new().insert(FULL, keys, values)),
        ..attention_input(x)
    };
    layer.forward(&mut g, input).unwrap();
    for part in [LayerPart::KProj, LayerPart::VProj, LayerPart::KNorm] {
        assert_eq!(count(&g, |op| op == Op::Forward(at(1, part))), 0);
    }
}

/// The nodes that no node takes, without cache updates.
fn pending(g: &Graph) -> Vec<usize> {
    (0..g.len())
        .filter(|id| !matches!(g.op(*id), Op::UpdateCache { .. }))
        .filter(|id| (0..g.len()).all(|user| !g.args(user).contains(id)))
        .collect()
}

#[test]
fn passes_leave_nothing_but_their_result() {
    let mut per_layer = args(&[SLIDING, FULL, FULL], 1);
    per_layer.hidden_size_per_layer_input = 6;
    per_layer.quantized = true;
    per_layer.final_logit_softcapping = Some(f32_of(30.0));
    for model in [Model::new(args(&[SLIDING, FULL], 0)), Model::new(per_layer)] {
        let (g, out, _) = run(&model, 5, vec![]).unwrap();
        assert_eq!(pending(&g), vec![out]);
    }
    // Where each layer makes its own mask, the mask of the pass has no use.
    let (g, out, _) = run(&Model::new(args(&[SLIDING], 0)), 5, vec![]).unwrap();
    let left = pending(&g);
    assert_eq!(left.len(), 2);
    assert!(left.contains(&out));
    let mask = Op::CausalMask {
        past: None,
        window: None,
    };
    assert!(left.iter().any(|id| g.op(*id) == mask));
}

#[test]
fn copies_of_models() {
    let mut args = args(&[SLIDING, FULL], 1);
    args.hidden_size_per_layer_input = 6;
    let model = Model::new(args);
    assert_eq!(format!("{:?}", model.clone()), format!("{model:?}"));
    let index = index(&[("a", "1.safetensors")]).unwrap();
    let copy = index.clone();
    assert_eq!(copy.metadata, index.metadata);
    assert_eq!(copy.weight_map, index.weight_map);
    let config = config(self::args(&[FULL], 0));
    assert_eq!(format!("{:?}", config.clone()), format!("{config:?}"));
}

#[test]
fn offsets_of_caches() {
    assert_eq!(position_offset(&vec![]), 0);
    assert_eq!(position_offset(&vec![None, None]), 0);
    assert_eq!(position_offset(&vec![Some(3), None, Some(9), Some(5)]), 9);
    assert_eq!(position_offset(&vec![Some(-2)]), -2);
}

fn run(model: &Model, seq_len: i32, cache: Vec<Option<i32>>) -> Result<(Graph, usize, usize), String> {
    let mut g = Graph::new();
    let inputs = g.leaf(Op::Input(Input::Tokens));
    let input = ModelInput {
        inputs,
        seq_len,
        mask: None,
        cache,
    };
    match model.forward(&mut g, &input) {
        Ok(output) => Ok((g, output.out, output.new_caches)),
        Err(e) => Err(e.what),
    }
}

#[test]
fn models_update_the_caches_of_unshared_layers() {
    let model = Model::new(args(&[SLIDING, FULL, SLIDING, FULL], 2));
    let (g, out, new_caches) = run(&model, 5, vec![]).unwrap();
    assert_eq!(new_caches, 4);
    assert_eq!(model.model.language_model.new_caches(0), 4);
    assert_eq!(model.model.language_model.new_caches(1), 0);
    assert_eq!(updated_slots(&g), vec![0, 1]);
    assert_eq!(g.op(out), Op::Matmul);
    assert_eq!(
        count(&g, |op| op
            == Op::CausalMask {
                past: None,
                window: None
            }),
        1
    );
    let kept = count(&g, |op| matches!(op, Op::Attention { cache: None, .. }));
    assert_eq!(kept, 2);
    let (g, _, new_caches) = run(&model, 1, vec![None, Some(5), Some(5), Some(5)]).unwrap();
    assert_eq!(new_caches, 0);
    assert_eq!(updated_slots(&g), vec![1]);
    assert_eq!(
        count(&g, |op| op
            == Op::CausalMask {
                past: None,
                window: None
            }),
        0
    );
    assert_eq!(
        count(&g, |op| op
            == Op::Rope {
                module: at(3, LayerPart::Rope),
                offset: 5
            }),
        1
    );
}

#[test]
fn layers_without_a_slot_do_not_run() {
    let model = Model::new(args(&[FULL, FULL, FULL], 0));
    let (g, _, _) = run(&model, 1, vec![Some(1), Some(1)]).unwrap();
    assert_eq!(count(&g, |op| op == Op::Forward(at(2, LayerPart::QProj))), 0);
    assert_eq!(count(&g, |op| op == Op::Forward(at(1, LayerPart::QProj))), 1);
}

#[test]
fn models_fail_where_a_shared_kind_is_not_lent() {
    let model = Model::new(args(&[SLIDING, FULL], 1));
    assert_eq!(
        run(&model, 1, vec![]).unwrap_err(),
        "missing shared Gemma 4 KV states"
    );
    // Without the layer that fails, the model runs.
    assert!(run(&model, 1, vec![Some(0)]).is_ok());
}

#[test]
fn shared_layers_read_what_the_last_unshared_layer_wrote() {
    let model = Model::new(args(&[FULL, FULL, FULL], 1));
    let (g, _, _) = run(&model, 1, vec![]).unwrap();
    let attentions: Vec<usize> = (0..g.len())
        .filter(|id| matches!(g.op(*id), Op::Attention { .. }))
        .collect();
    assert_eq!(attentions.len(), 3);
    assert_eq!(g.args(attentions[1])[1..3], g.args(attentions[2])[1..3]);
    assert_ne!(g.args(attentions[0])[1], g.args(attentions[2])[1]);
}

#[test]
fn models_with_per_layer_inputs() {
    let mut args = args(&[FULL, FULL], 0);
    args.hidden_size_per_layer_input = 6;
    args.vocab_size_per_layer_input = Some(50);
    let text = Gemma4TextModel::new(&args);
    assert_eq!(
        text.embed_tokens_per_layer.map(|e| e.weight),
        Some(Table::Embedding {
            rows: 50,
            columns: 12
        })
    );
    assert_eq!(
        text.per_layer_model_projection,
        Some(Linear {
            input_dims: 16,
            output_dims: 12,
            quantization: None
        })
    );
    assert_eq!(text.per_layer_projection_norm.map(|n| n.dims), Some(6));
    let model = Model::new(args);
    let (g, _, _) = run(&model, 1, vec![]).unwrap();
    for index in 0..2 {
        assert_eq!(
            count(&g, |op| op == Op::Index(Pattern::SelectAxis2(index))),
            1
        );
    }
    assert_eq!(count(&g, |op| op == Op::Scalar(Scalar::Sqrt(6))), 1);
    assert_eq!(count(&g, |op| op == Op::Scalar(Scalar::RecipSqrt(16))), 1);
    assert_eq!(count(&g, |op| op == Op::Scalar(Scalar::RootHalf)), 1);
    assert_eq!(
        count(&g, |op| op
            == Op::Reshape(Shape::Four(
                Dim::Like(0),
                Dim::Like(1),
                Dim::Fixed(2),
                Dim::Fixed(6)
            ))),
        2
    );
}

#[test]
fn output_layers_and_soft_caps() {
    let mut args = args(&[FULL], 0);
    args.tie_word_embeddings = false;
    args.final_logit_softcapping = Some(f32_of(30.0));
    let model = Model::new(args);
    assert_eq!(model.model_type(), "gemma4");
    assert_eq!(
        model.lm_head,
        Some(Linear {
            input_dims: 16,
            output_dims: 100,
            quantization: None
        })
    );
    let (g, out, _) = run(&model, 1, vec![]).unwrap();
    assert_eq!(g.op(out), Op::Multiply);
    let bounded = g.args(out)[0];
    assert_eq!(g.op(bounded), Op::Tanh);
    let ratio = g.args(bounded)[0];
    assert_eq!(g.op(ratio), Op::Divide);
    let head = ModuleRef::LmHead {
        owner: Owner::Target,
    };
    assert_eq!(g.op(g.args(ratio)[0]), Op::Forward(head));
    assert_eq!(
        g.op(g.args(ratio)[1]),
        Op::Scalar(Scalar::Value(f32_of(30.0)))
    );
    let modes = model.training_mode(true);
    assert_eq!(modes.last(), Some(&(head, true)));
    assert_eq!(modes.len(), 14 + 2);
}

#[test]
fn models_without_layers() {
    let mut none = args(&[], 0);
    none.num_hidden_layers = -3;
    let model = Model::new(none);
    let (_, _, new_caches) = run(&model, 1, vec![]).unwrap();
    assert_eq!(new_caches, 0);
}

#[test]
fn sampling() {
    for zero in [0.0_f32, -0.0] {
        let mut g = Graph::new();
        let x = g.leaf(Op::Input(Input::Hidden));
        let r = sample(&mut g, x, f32_of(zero));
        assert_eq!(g.op(r), Op::ArgmaxLast);
    }
    let mut g = Graph::new();
    let x = g.leaf(Op::Input(Input::Hidden));
    for draw in 0..2 {
        let r = sample(&mut g, x, f32_of(0.5));
        assert_eq!(g.op(r), Op::Categorical { draw });
        let scaled = g.args(r)[0];
        assert_eq!(g.op(scaled), Op::Multiply);
        assert_eq!(
            g.op(g.args(scaled)[1]),
            Op::Scalar(Scalar::Recip(f32_of(0.5)))
        );
    }
}

fn index(entries: &[(&str, &str)]) -> Option<WeightMap> {
    Some(WeightMap {
        metadata: vec![("total_size".to_string(), serde_json::Value::Null)],
        weight_map: entries
            .iter()
            .map(|(weight, file)| (weight.to_string(), file.to_string()))
            .collect(),
    })
}

#[test]
fn files_to_read() {
    assert_eq!(weight_files(&None), vec!["model.safetensors".to_string()]);
    let index = index(&[("a", "1.safetensors"), ("b", "2.safetensors"), ("c", "1.safetensors")]);
    assert_eq!(
        weight_files(&index),
        vec!["1.safetensors".to_string(), "2.safetensors".to_string()]
    );
    assert!(weight_files(&self::index(&[])).is_empty());
}

#[test]
fn weights_of_the_text_model() {
    let config = gemma4_load_config();
    assert_eq!(
        config.candidates("language_model.model.norm.weight"),
        vec![
            "language_model.model.norm.weight",
            "language_model.model.norm.inner.weight",
            "model.language_model.norm.weight",
            "model.language_model.norm.inner.weight",
        ]
    );
    assert_eq!(
        config.candidates("model.language_model.norm.weight").len(),
        2
    );
    for prefix in [
        "audio_tower.",
        "embed_audio.",
        "embed_vision.",
        "multi_modal_projector.",
        "vision_tower.",
    ] {
        assert!(config.is_unused_allowed(&format!("{prefix}x")));
    }
    assert!(!config.is_unused_allowed("language_model.x"));
    assert!(config.is_missing_allowed("x.bias"));
    assert!(!config.is_missing_allowed("x.weight"));
}

fn config(text_config: ModelArgs) -> Gemma4Config {
    Gemma4Config {
        text_config,
        tie_word_embeddings: true,
        quantization: None,
    }
}

#[test]
fn plans_to_load_a_model() {
    let plan = load_gemma4_model(config(args(&[FULL], 0)), &None)
        .unwrap()
        .expect("a plan");
    assert_eq!(plan.files, vec!["model.safetensors".to_string()]);
    assert_eq!(plan.model.model.language_model.layers.len(), 1);
    let mut wide = args(&[FULL], 0);
    wide.num_attention_heads = i32::MAX;
    assert!(load_gemma4_model(config(wide), &None).unwrap().is_none());
    let mut experts = args(&[FULL], 0);
    experts.enable_moe_block = true;
    assert!(load_gemma4_model(config(experts), &None).is_err());
}
