use goose_mlx_lm::error::Error;
use goose_mlx_lm::graph::F32;
use goose_mlx_lm::models::args::{
    default_model_type, default_rope_theta, default_true, get_gemma4_model_args, i32_setting,
    quantization_i32, Gemma4Config, ModelArgs,
};
use goose_mlx_lm::models::layer::LayerType;
use goose_mlx_lm::models::rope::{
    partial_rotary_dims, FloatOrString, RopeParameters, RopeScaling, RotaryDims,
};

fn f32_of(x: f32) -> F32 {
    F32 { bits: x.to_bits() }
}

fn args() -> ModelArgs {
    ModelArgs {
        model_type: "anything".to_string(),
        hidden_size: 16,
        num_hidden_layers: 4,
        intermediate_size: 32,
        num_attention_heads: 2,
        rms_norm_eps: f32_of(1e-6),
        vocab_size: 100,
        num_key_value_heads: 1,
        num_global_key_value_heads: None,
        max_position_embeddings: 128,
        rope_theta: f32_of(10_000.0),
        head_dim: 8,
        global_head_dim: None,
        tie_word_embeddings: true,
        attention_bias: false,
        attention_k_eq_v: false,
        quantized: false,
        quantization_group_size: 0,
        quantization_bits: 0,
        hidden_size_per_layer_input: 0,
        vocab_size_per_layer_input: None,
        num_kv_shared_layers: 0,
        layer_types: vec![LayerType::SlidingAttention, LayerType::FullAttention],
        sliding_window: Some(4),
        final_logit_softcapping: None,
        enable_moe_block: false,
        num_experts: None,
        top_k_experts: None,
        moe_intermediate_size: None,
        rope_scaling: None,
        rope_parameters: None,
    }
}

fn table(entries: &[(&str, FloatOrString)]) -> RopeScaling {
    let mut table = RopeScaling::new();
    for (name, value) in entries {
        table.insert(name.to_string(), value.clone());
    }
    table
}

fn text(s: &str) -> FloatOrString {
    FloatOrString::String {
        text: s.to_string(),
        parsed: s.parse::<f32>().ok().map(f32_of),
    }
}

#[test]
fn defaults() {
    assert_eq!(default_model_type(), "gemma4");
    assert_eq!(default_rope_theta(), f32_of(10_000.0));
    assert!(default_true());
}

#[test]
fn layer_type_names() {
    assert_eq!(
        LayerType::deserialize("sliding_attention"),
        Ok(LayerType::SlidingAttention)
    );
    assert_eq!(
        LayerType::deserialize("full_attention"),
        Ok(LayerType::FullAttention)
    );
    assert_eq!(
        LayerType::deserialize("linear"),
        Err("Unsupported Gemma4 layer type 'linear'".to_string())
    );
    assert_eq!(LayerType::FullAttention.name(), "full_attention");
    assert_eq!(LayerType::SlidingAttention.name(), "sliding_attention");
}

#[test]
fn layers_without_a_named_type_use_full_attention() {
    let args = args();
    assert_eq!(args.layer_type(0), LayerType::SlidingAttention);
    assert_eq!(args.layer_type(1), LayerType::FullAttention);
    assert_eq!(args.layer_type(2), LayerType::FullAttention);
}

#[test]
fn full_attention_takes_the_global_widths() {
    let mut args = args();
    args.global_head_dim = Some(64);
    args.num_global_key_value_heads = Some(3);
    let full = args.for_layer(LayerType::FullAttention);
    assert_eq!((full.head_dim, full.num_key_value_heads), (64, 3));
    let sliding = args.for_layer(LayerType::SlidingAttention);
    assert_eq!((sliding.head_dim, sliding.num_key_value_heads), (8, 1));
    let twice = full.for_layer(LayerType::FullAttention);
    assert_eq!((twice.head_dim, twice.num_key_value_heads), (64, 3));
}

#[test]
fn rope_settings_by_kind_of_layer() {
    let mut args = args();
    args.rope_scaling = Some(table(&[("rope_type", text("linear"))]));
    let mut parameters = RopeParameters::new();
    parameters.insert(
        "sliding_attention".to_string(),
        table(&[("rope_theta", text("500.5"))]),
    );
    parameters.insert(
        "full_attention".to_string(),
        table(&[
            ("rope_theta", text("not a number")),
            ("partial_rotary_factor", FloatOrString::Float(f32_of(0.25))),
        ]),
    );
    args.rope_parameters = Some(parameters);
    assert_eq!(
        args.rope_theta_for_layer(LayerType::SlidingAttention),
        f32_of(500.5)
    );
    assert_eq!(
        args.rope_theta_for_layer(LayerType::FullAttention),
        f32_of(10_000.0)
    );
    let full = args.for_layer(LayerType::FullAttention);
    let scaling = full.rope_scaling.expect("settings of full attention");
    assert!(scaling.get("rope_type").is_none());
    assert_eq!(
        scaling.get("partial_rotary_factor").and_then(|v| v.number()),
        Some(f32_of(0.25))
    );
}

#[test]
fn rope_settings_without_parameters_are_dropped() {
    let mut args = args();
    args.rope_scaling = Some(table(&[("rope_type", text("linear"))]));
    assert!(args
        .for_layer(LayerType::FullAttention)
        .rope_scaling
        .is_none());
}

#[test]
fn later_settings_replace_earlier_ones() {
    let mut table = RopeScaling::new();
    table.insert("a".to_string(), FloatOrString::Float(f32_of(1.0)));
    table.insert("b".to_string(), FloatOrString::Float(f32_of(2.0)));
    table.insert("a".to_string(), FloatOrString::Float(f32_of(3.0)));
    assert_eq!(table.get("a").and_then(|v| v.number()), Some(f32_of(3.0)));
    assert_eq!(
        table.clone().get("b").and_then(|v| v.number()),
        Some(f32_of(2.0))
    );
    assert!(table.get("c").is_none());
}

#[test]
fn rotary_dimensions() {
    assert_eq!(
        partial_rotary_dims(64, &None),
        RotaryDims::Scaled {
            head_dim: 64,
            factor: f32_of(1.0)
        }
    );
    let proportional = Some(table(&[
        ("rope_type", text("proportional")),
        ("partial_rotary_factor", FloatOrString::Float(f32_of(0.25))),
    ]));
    let all = partial_rotary_dims(64, &proportional);
    assert_eq!(all, RotaryDims::All { head_dim: 64 });
    assert_eq!(all.resolve(3), 64);
    let quarter = Some(table(&[
        ("rope_type", FloatOrString::Float(f32_of(1.0))),
        ("partial_rotary_factor", text("0.25")),
    ]));
    let dims = partial_rotary_dims(64, &quarter);
    assert_eq!(
        dims,
        RotaryDims::Scaled {
            head_dim: 64,
            factor: f32_of(0.25)
        }
    );
    assert_eq!(dims.resolve((64.0_f32 * 0.25).round() as i32), 16);
    assert_eq!(dims.resolve(1), 2);
    assert_eq!(dims.resolve(-5), 2);
    assert_eq!(dims.resolve(65), 64);
}

#[test]
fn quantization_settings() {
    let section: serde_json::Value =
        serde_json::from_str(r#"{"group_size": 32, "bits": 5000000000, "mode": "affine", "x": -3, "y": 1.5}"#)
            .unwrap();
    let config = Some(section);
    assert_eq!(quantization_i32(&config, "group_size", 64), 32);
    assert_eq!(quantization_i32(&config, "bits", 4), 4);
    assert_eq!(quantization_i32(&config, "mode", 7), 7);
    assert_eq!(quantization_i32(&config, "x", 7), -3);
    assert_eq!(quantization_i32(&config, "y", 7), 7);
    assert_eq!(quantization_i32(&config, "none", 9), 9);
    assert_eq!(quantization_i32(&None, "bits", 4), 4);
    let list = Some(serde_json::Value::Array(vec![serde_json::Value::Null]));
    assert_eq!(quantization_i32(&list, "bits", 4), 4);
}

#[test]
fn settings_that_do_not_fit_fall_back() {
    assert_eq!(i32_setting(Some(-2147483648), 0), -2147483648);
    assert_eq!(i32_setting(Some(-2147483649), 0), 0);
    assert_eq!(i32_setting(Some(2147483647), 0), 2147483647);
    assert_eq!(i32_setting(Some(2147483648), 0), 0);
    assert_eq!(i32_setting(None, 5), 5);
}

#[test]
fn model_args_of_a_quantized_file() {
    let config = Gemma4Config {
        text_config: args(),
        tie_word_embeddings: false,
        quantization: Some(serde_json::from_str(r#"{"group_size": 32, "bits": 8}"#).unwrap()),
    };
    let args = get_gemma4_model_args(config).unwrap();
    assert_eq!(args.model_type, "gemma4");
    assert!(args.quantized);
    assert_eq!(args.quantization_group_size, 32);
    assert_eq!(args.quantization_bits, 8);
    assert!(!args.tie_word_embeddings);
    assert_eq!(args.hidden_size, 16);
}

#[test]
fn model_args_of_a_plain_file() {
    let config = Gemma4Config {
        text_config: args(),
        tie_word_embeddings: true,
        quantization: None,
    };
    let args = get_gemma4_model_args(config).unwrap();
    assert!(!args.quantized);
    assert_eq!(args.quantization_group_size, 64);
    assert_eq!(args.quantization_bits, 4);
    assert!(args.tie_word_embeddings);
}

#[test]
fn mixtures_of_experts_are_refused() {
    let mut text_config = args();
    text_config.enable_moe_block = true;
    let config = Gemma4Config {
        text_config,
        tie_word_embeddings: true,
        quantization: None,
    };
    match get_gemma4_model_args(config) {
        Err(Error::UnsupportedArchitecture(what)) => {
            assert_eq!(what, "Gemma 4 MoE models are not supported yet")
        }
        other => panic!("{other:?}"),
    }
}

#[test]
fn widths_that_do_not_fit_are_noticed() {
    assert!(args().fits());
    let mut wide = args();
    wide.num_attention_heads = 1 << 20;
    wide.head_dim = 1 << 20;
    assert!(!wide.fits());
    assert!(!wide.attention_fits(LayerType::FullAttention));
    let mut quantized = args();
    quantized.quantized = true;
    quantized.quantization_group_size = 64;
    quantized.quantization_bits = 0;
    assert!(!quantized.fits());
    quantized.quantization_bits = 4;
    assert!(quantized.fits());
    quantized.quantization_bits = 33;
    assert!(!quantized.fits());
    let mut per_layer = args();
    per_layer.hidden_size_per_layer_input = i32::MAX;
    assert!(!per_layer.fits());
    let mut narrow = args();
    narrow.head_dim = 1;
    assert!(!narrow.attention_fits(LayerType::SlidingAttention));
    assert!(!narrow.fits());
    let mut parameters = RopeParameters::new();
    for kind in ["sliding_attention", "full_attention"] {
        parameters.insert(
            kind.to_string(),
            table(&[("rope_type", text("proportional"))]),
        );
    }
    narrow.rope_parameters = Some(parameters);
    assert!(narrow.fits());
    let mut sharing = args();
    sharing.num_kv_shared_layers = i32::MIN;
    assert!(!sharing.fits());
}
