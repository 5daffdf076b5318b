use goose_mlx_lm::graph::{Graph, Input, ModuleRef, Op, Owner, ParamKind, Pattern, Scalar, F32};
use goose_mlx_lm::models::args::ModelArgs;
use goose_mlx_lm::models::gemma4::Model;
use goose_mlx_lm::models::gemma4_assistant::{
    assistant_load_config, default_block_size, default_centroid_top_k, default_model_type,
    default_num_centroids, default_true, drafter_mask, load_gemma4_assistant_model, BorrowedKv,
    Gemma4AssistantConfig, Gemma4AssistantDraftModel,
};
use goose_mlx_lm::models::generate::{Generate, GenerateAction, GenerateEvent, TokenPass};
use goose_mlx_lm::models::layer::LayerType;
use goose_mlx_lm::models::modules::Linear;

const SLIDING: LayerType = LayerType::SlidingAttention;
const FULL: LayerType = LayerType::FullAttention;

fn f32_of(x: f32) -> F32 {
    F32 { bits: x.to_bits() }
}

fn args(layer_types: &[LayerType]) -> ModelArgs {
    ModelArgs {
        model_type: "gemma4".to_string(),
        hidden_size: 16,
        num_hidden_layers: layer_types.len() as i32,
        intermediate_size: 32,
        num_attention_heads: 2,
        rms_norm_eps: f32_of(1e-6),
        vocab_size: 100,
        num_key_value_heads: 1,
        num_global_key_value_heads: None,
        max_position_embeddings: 128,
        rope_theta: f32_of(10_000.0),
        head_dim: 8,
        global_head_dim: None,
        tie_word_embeddings: true,
        attention_bias: false,
        attention_k_eq_v: false,
        quantized: false,
        quantization_group_size: 0,
        quantization_bits: 0,
        hidden_size_per_layer_input: 0,
        vocab_size_per_layer_input: None,
        num_kv_shared_layers: 0,
        layer_types: layer_types.to_vec(),
        sliding_window: Some(8),
        final_logit_softcapping: None,
        enable_moe_block: false,
        num_experts: None,
        top_k_experts: None,
        moe_intermediate_size: None,
        rope_scaling: None,
        rope_parameters: None,
    }
}

fn assistant_config(layer_types: &[LayerType]) -> Gemma4AssistantConfig {
    Gemma4AssistantConfig {
        model_type: default_model_type(),
        backbone_hidden_size: 24,
        use_ordered_embeddings: false,
        num_centroids: 10,
        centroid_intermediate_top_k: 3,
        tie_word_embeddings: true,
        block_size: default_block_size(),
        text_config: args(layer_types),
    }
}

fn count(g: &Graph, wanted: impl Fn(Op) -> bool) -> usize {
    (0..g.len()).filter(|id| wanted(g.op(*id))).count()
}

#[test]
fn long_prompts_take_two_passes() {
    let model = Model::new(args(&[FULL]));
    let mut generate = Generate::new(&model, f32_of(0.0), 5);
    assert_eq!(
        generate.next(GenerateEvent::Start),
        GenerateAction::Run(TokenPass::Prefix { end: 4 })
    );
    assert_eq!(
        generate.next(GenerateEvent::PassDone),
        GenerateAction::Run(TokenPass::Last {
            start: 4,
            seq_len: 1
        })
    );
    assert_eq!(generate.next(GenerateEvent::PassDone), GenerateAction::Yield);
    for _ in 0..3 {
        assert_eq!(
            generate.next(GenerateEvent::Start),
            GenerateAction::Run(TokenPass::Token)
        );
        assert_eq!(generate.next(GenerateEvent::PassDone), GenerateAction::Yield);
    }
}

#[test]
fn short_prompts_take_one_pass() {
    let model = Model::new(args(&[FULL]));
    for (prompt_len, start, seq_len) in [(1, 0, 1), (0, -1, 0)] {
        let mut generate = Generate::new(&model, f32_of(0.0), prompt_len);
        assert_eq!(
            generate.next(GenerateEvent::Start),
            GenerateAction::Run(TokenPass::Last { start, seq_len })
        );
        assert_eq!(generate.next(GenerateEvent::PassDone), GenerateAction::Yield);
    }
}

#[test]
fn failed_prompts_start_again() {
    let model = Model::new(args(&[FULL]));
    let mut generate = Generate::new(&model, f32_of(0.0), 2);
    let first = GenerateAction::Run(TokenPass::Prefix { end: 1 });
    assert_eq!(generate.next(GenerateEvent::Start), first);
    assert_eq!(generate.next(GenerateEvent::PassFailed), GenerateAction::Fail);
    assert_eq!(generate.next(GenerateEvent::Start), first);
    generate.next(GenerateEvent::PassDone);
    assert_eq!(generate.next(GenerateEvent::PassFailed), GenerateAction::Fail);
    assert_eq!(generate.next(GenerateEvent::Start), first);
}

#[test]
fn passes_through_the_model() {
    let model = Model::new(args(&[FULL, FULL]));
    let generate = Generate::new(&model, f32_of(0.7), 5);
    let plan = generate
        .run(TokenPass::Prefix { end: 4 }, vec![]);
    assert_eq!(plan.new_caches, 2);
    assert_eq!(plan.graph.op(*plan.out.as_ref().unwrap()), Op::Matmul);
    assert_eq!(
        count(&plan.graph, |op| op == Op::Index(Pattern::HeadAxis1(4))),
        1
    );
    let plan = generate
        .run(
            TokenPass::Last {
                start: 4,
                seq_len: 1,
            },
            vec![Some(4), Some(4)],
        );
    assert_eq!(plan.new_caches, 0);
    assert_eq!(plan.graph.op(*plan.out.as_ref().unwrap()), Op::Categorical { draw: 0 });
    assert_eq!(
        count(&plan.graph, |op| op == Op::Index(Pattern::TailAxis1(4))),
        1
    );
    assert_eq!(
        count(&plan.graph, |op| op == Op::Index(Pattern::LastOfAxis1)),
        1
    );
    let plan = generate
        .run(TokenPass::Token, vec![Some(5), Some(5)]);
    assert_eq!(
        count(&plan.graph, |op| op == Op::Index(Pattern::AppendAxis)),
        1
    );
    let mut broken = args(&[SLIDING, FULL]);
    broken.num_kv_shared_layers = 1;
    let broken = Model::new(broken);
    let generate = Generate::new(&broken, f32_of(0.0), 1);
    let plan = generate.run(TokenPass::Token, vec![]);
    assert_eq!(
        plan.out.unwrap_err().what,
        "missing shared Gemma 4 KV states"
    );
    // The layer before the one that fails has updated its cache.
    assert_eq!(
        count(&plan.graph, |op| op == Op::UpdateCache { slot: 0 }),
        1
    );
    assert_eq!(plan.new_caches, 2);
}

#[test]
fn assistant_defaults() {
    assert_eq!(default_model_type(), "gemma4_assistant");
    assert_eq!(default_num_centroids(), 2048);
    assert_eq!(default_centroid_top_k(), 32);
    assert_eq!(default_block_size(), 4);
    assert!(default_true());
}

#[test]
fn assistants_share_throughout_by_default() {
    let assistant = Gemma4AssistantDraftModel::new(assistant_config(&[SLIDING, FULL]));
    assert!(assistant
        .model
        .layers
        .iter()
        .all(|layer| layer.self_attn.is_kv_shared_layer));
    assert_eq!(assistant.config.text_config.model_type, "gemma4");
    assert_eq!(assistant.config.text_config.num_kv_shared_layers, 2);
    assert_eq!(assistant.config.text_config.quantization_group_size, 64);
    assert_eq!(assistant.config.text_config.quantization_bits, 4);
    assert_eq!(assistant.pre_projection.input_dims, 48);
    assert_eq!(assistant.pre_projection.output_dims, 16);
    assert_eq!(assistant.post_projection.input_dims, 16);
    assert_eq!(assistant.post_projection.output_dims, 24);
    assert_eq!(assistant.lm_head, None);
    assert_eq!(assistant.masked_embedding, None);
    assert_eq!(assistant.block_size(), 4);
    let mut config = assistant_config(&[SLIDING, FULL]);
    config.text_config.num_kv_shared_layers = 1;
    config.text_config.quantized = true;
    config.tie_word_embeddings = false;
    let assistant = Gemma4AssistantDraftModel::new(config);
    assert!(!assistant.model.layers[0].self_attn.is_kv_shared_layer);
    assert!(!assistant.config.text_config.quantized);
    assert_eq!(
        assistant.lm_head,
        Some(Linear {
            input_dims: 16,
            output_dims: 100,
            quantization: None
        })
    );
}

#[test]
fn masks_of_draft_layers() {
    let mut g = Graph::new();
    assert_eq!(drafter_mask(&mut g, FULL, 1, 90, 50, 8), None);
    assert_eq!(drafter_mask(&mut g, SLIDING, 1, 90, 50, 0), None);
    assert_eq!(drafter_mask(&mut g, SLIDING, 1, 15, 8, 8), None);
    assert!(drafter_mask(&mut g, SLIDING, 1, 16, 8, 8).is_some());
    let mut g = Graph::new();
    let mask = drafter_mask(&mut g, SLIDING, 2, 90, 50, 8).expect("a mask");
    assert_eq!(g.op(mask), Op::Index(Pattern::PrependTwoAxes));
    let choice = g.args(mask)[0];
    assert_eq!(g.op(choice), Op::Which);
    assert_eq!(
        g.op(g.args(choice)[2]),
        Op::Scalar(Scalar::Value(f32_of(f32::NEG_INFINITY)))
    );
    assert_eq!(
        count(&g, |op| op
            == Op::Arange {
                start: Some(90),
                stop: 92
            }),
        1
    );
    assert_eq!(
        count(&g, |op| op
            == Op::Arange {
                start: None,
                stop: 50
            }),
        1
    );
    assert_eq!(count(&g, |op| op == Op::Scalar(Scalar::Int(-8))), 1);
    assert_eq!(count(&g, |op| op == Op::Scalar(Scalar::Int(8))), 1);
}

/// The entries of a mask, computed on numbers. Conditions are one or zero.
fn entries(g: &Graph, id: usize) -> Vec<Vec<f64>> {
    let args = g.args(id);
    let arg = |k: usize| entries(g, args[k]);
    let each = |f: fn(f64, f64) -> f64| {
        let (a, b) = (arg(0), arg(1));
        let (height, width) = (a.len().max(b.len()), a[0].len().max(b[0].len()));
        let pick = |t: &Vec<Vec<f64>>, i: usize, j: usize| t[i % t.len()][j % t[0].len()];
        (0..height)
            .map(|i| (0..width).map(|j| f(pick(&a, i, j), pick(&b, i, j))).collect())
            .collect()
    };
    match g.op(id) {
        Op::Arange { start, stop } => {
            vec![(start.unwrap_or(0)..stop).map(f64::from).collect()]
        }
        Op::Index(Pattern::AppendAxis) => arg(0)[0].iter().map(|x| vec![*x]).collect(),
        Op::Index(Pattern::PrependAxis) | Op::Index(Pattern::PrependTwoAxes) => arg(0),
        Op::Scalar(Scalar::Int(n)) => vec![vec![f64::from(n)]],
        Op::Scalar(Scalar::Value(x)) => vec![vec![f64::from(f32::from_bits(x.bits))]],
        Op::Subtract => each(|a, b| a - b),
        Op::Greater => each(|a, b| f64::from(u8::from(a > b))),
        Op::Less => each(|a, b| f64::from(u8::from(a < b))),
        Op::LogicalAnd => each(|a, b| a * b),
        Op::Which => {
            let (x, y) = (arg(1)[0][0], arg(2)[0][0]);
            arg(0)
                .into_iter()
                .map(|row| row.into_iter().map(|c| if c > 0.0 { x } else { y }).collect())
                .collect()
        }
        other => panic!("{other:?}"),
    }
}

#[test]
fn draft_masks_open_a_window() {
    let mut g = Graph::new();
    let mask = drafter_mask(&mut g, SLIDING, 2, 9, 12, 3).expect("a mask");
    let rows = entries(&g, mask);
    assert_eq!(rows.len(), 2);
    for (i, row) in rows.iter().enumerate() {
        assert_eq!(row.len(), 12);
        for (j, entry) in row.iter().enumerate() {
            let distance = 9 + i as i32 - j as i32;
            let expected = if -3 < distance && distance < 3 {
                0.0
            } else {
                f64::NEG_INFINITY
            };
            assert_eq!(*entry, expected, "query {i}, key {j}");
        }
    }
}

#[test]
fn assistants_need_borrowed_keys_and_values() {
    let target = Model::new(args(&[FULL]));
    let mut assistant = Gemma4AssistantDraftModel::new(assistant_config(&[SLIDING, FULL]));
    let mut g = Graph::new();
    let error = assistant
        .draft_block(&mut g, &target, 7, 4, f32_of(0.0))
        .unwrap_err();
    assert_eq!(error.what, "Gemma 4 assistant requires shared K/V states");
    let kv = BorrowedKv {
        sliding: Some(20),
        full: None,
    };
    assistant.set_shared_kv(kv, 20);
    let error = assistant
        .draft_block(&mut g, &target, 7, 4, f32_of(0.0))
        .unwrap_err();
    assert_eq!(error.what, "missing shared K/V state for assistant layer");
    let kv = BorrowedKv {
        sliding: Some(20),
        full: Some(20),
    };
    assistant.set_shared_kv(kv, 20);
    assert!(assistant
        .draft_block(&mut g, &target, 7, 4, f32_of(0.0))
        .is_ok());
    assistant.reset();
    assert_eq!(assistant.shared_kv, None);
    assert_eq!(assistant.kv_offset, 0);
    assert!(assistant.accept_lens.is_empty());
    assert!(assistant
        .draft_block(&mut g, &target, 7, 4, f32_of(0.0))
        .is_err());
}

#[test]
fn blocks_of_drafted_tokens() {
    let target = Model::new(args(&[FULL]));
    let mut assistant = Gemma4AssistantDraftModel::new(assistant_config(&[SLIDING]));
    for block_size in [0, 1] {
        let mut g = Graph::new();
        let block = assistant
            .draft_block(&mut g, &target, 7, block_size, f32_of(0.0))
            .unwrap();
        assert_eq!(g.op(block), Op::Input(Input::NoTokens));
    }
    let kv = BorrowedKv {
        sliding: Some(20),
        full: None,
    };
    assistant.set_shared_kv(kv, 20);
    let mut g = Graph::new();
    let block = assistant
        .draft_block(&mut g, &target, 7, 4, f32_of(0.5))
        .unwrap();
    assert_eq!(g.op(block), Op::ConcatAxis1);
    let draws: Vec<Op> = g.args(block).iter().map(|id| g.op(*id)).collect();
    assert_eq!(
        draws,
        vec![
            Op::Categorical { draw: 0 },
            Op::Categorical { draw: 1 },
            Op::Categorical { draw: 2 },
        ]
    );
    assert_eq!(count(&g, |op| op == Op::ConcatLast), 3);
    assert_eq!(count(&g, |op| op == Op::Input(Input::Token(7))), 1);
    // The queries stand at the last borrowed position throughout.
    assert_eq!(
        count(&g, |op| matches!(op, Op::Rope { offset: 19, .. })),
        3
    );
    assert_eq!(count(&g, |op| matches!(op, Op::UpdateCache { .. })), 0);
    assert_eq!(count(&g, |op| matches!(op, Op::CausalMask { .. })), 0);
}

#[test]
fn shorter_drafts_begin_longer_ones() {
    let target = Model::new(args(&[FULL]));
    let mut assistant = Gemma4AssistantDraftModel::new(assistant_config(&[FULL]));
    let kv = BorrowedKv {
        sliding: None,
        full: Some(20),
    };
    assistant.set_shared_kv(kv, 20);
    let copy = assistant.clone();
    assert_eq!(format!("{copy:?}"), format!("{assistant:?}"));
    let mut long = Graph::new();
    let block = assistant
        .draft_block(&mut long, &target, 7, 5, f32_of(0.0))
        .unwrap();
    let mut short = Graph::new();
    let prefix = copy
        .draft_block(&mut short, &target, 7, 3, f32_of(0.0))
        .unwrap();
    assert_eq!(short.args(prefix).len(), 2);
    for (a, b) in short.args(prefix).iter().zip(long.args(block)) {
        assert_eq!(a, b);
        for id in 0..*a {
            assert_eq!(short.op(id), long.op(id));
            assert_eq!(short.args(id), long.args(id));
        }
    }
}

#[test]
fn query_positions_do_not_wrap() {
    let target = Model::new(args(&[FULL]));
    let mut assistant = Gemma4AssistantDraftModel::new(assistant_config(&[FULL]));
    let kv = BorrowedKv {
        sliding: None,
        full: Some(1),
    };
    assistant.set_shared_kv(kv, i32::MIN);
    let mut g = Graph::new();
    assistant
        .draft_block(&mut g, &target, 7, 2, f32_of(0.0))
        .unwrap();
    assert_eq!(
        count(&g, |op| matches!(op, Op::Rope { offset: i32::MIN, .. })),
        1
    );
}

#[test]
fn drafts_whose_numbers_do_not_fit_are_noticed() {
    let mut assistant = Gemma4AssistantDraftModel::new(assistant_config(&[SLIDING]));
    assert!(assistant.can_draft(1));
    let kv = BorrowedKv {
        sliding: Some(20),
        full: None,
    };
    assistant.set_shared_kv(kv, i32::MAX);
    assert!(assistant.can_draft(1));
    assert!(!assistant.can_draft(2));
}

#[test]
fn scores_over_the_likeliest_centroids() {
    let target = Model::new(args(&[FULL]));
    let mut config = assistant_config(&[FULL]);
    config.use_ordered_embeddings = true;
    let mut assistant = Gemma4AssistantDraftModel::new(config);
    let masked = assistant.masked_embedding.expect("an output layer");
    assert_eq!(masked.vocab_size_per_centroid, 10);
    assert_eq!(masked.top_k, 3);
    assert_eq!(masked.token_ordering.len, 100);
    assert_eq!((masked.centroids.input_dims, masked.centroids.output_dims), (16, 10));
    assert!(masked.can_run());
    let kv = BorrowedKv {
        sliding: None,
        full: Some(3),
    };
    assistant.set_shared_kv(kv, 3);
    let mut g = Graph::new();
    let block = assistant
        .draft_block(&mut g, &target, 7, 2, f32_of(0.0))
        .unwrap();
    let token = g.args(block)[0];
    assert_eq!(g.op(token), Op::ArgmaxLast);
    let scores = g.args(token)[0];
    assert_eq!(g.op(scores), Op::PutAlongLast);
    let rest = g.args(scores)[0];
    assert_eq!(g.op(rest), Op::FullLike { last: 100 });
    let floor = g.args(rest)[0];
    assert_eq!(g.op(floor), Op::ItemMinusOne);
    assert_eq!(g.op(g.args(floor)[0]), Op::MinAll);
    // The least score is taken of the scores that are put in place.
    assert_eq!(g.args(g.args(floor)[0])[0], g.args(scores)[2]);
    assert_eq!(count(&g, |op| op == Op::ArgpartitionLast { kth: -3 }), 1);
    assert_eq!(count(&g, |op| op == Op::Index(Pattern::TailAxis2(-3))), 1);
    let embeddings = ModuleRef::EmbedTokens {
        owner: Owner::Assistant,
    };
    assert_eq!(
        count(&g, |op| op
            == Op::Param {
                module: embeddings,
                kind: ParamKind::Weight
            }),
        1
    );
}

#[test]
fn plans_to_load_an_assistant() {
    let plan = load_gemma4_assistant_model(assistant_config(&[FULL]), &None).expect("a plan");
    assert_eq!(plan.files, vec!["model.safetensors".to_string()]);
    let mut wide = assistant_config(&[FULL]);
    wide.backbone_hidden_size = i32::MAX;
    assert!(load_gemma4_assistant_model(wide, &None).is_none());
    let mut undivided = assistant_config(&[FULL]);
    undivided.use_ordered_embeddings = true;
    undivided.num_centroids = 0;
    assert!(load_gemma4_assistant_model(undivided, &None).is_none());
}

#[test]
fn weights_of_an_assistant() {
    let config = assistant_load_config();
    assert!(config.is_missing_allowed("model.layers.0.self_attn.k_proj.weight"));
    assert!(config.is_missing_allowed("model.layers.0.self_attn.v_proj.weight"));
    assert!(config.is_missing_allowed("model.layers.0.self_attn.k_norm.weight"));
    assert!(config.is_missing_allowed("model.norm.bias"));
    assert!(!config.is_missing_allowed("model.layers.0.self_attn.q_proj.weight"));
    assert!(!config.is_unused_allowed("vision_tower.x"));
}
