//! The configuration of a Gemma 4 model.
use vstd::prelude::*;

use crate::error::Error;
use crate::graph::F32;
use crate::models::layer::LayerType;
use crate::models::rope::{
    clone_parameters, clone_scaling, parameters_view, scaling_view, RopeParameters, RopeScaling,
    RopeValue,
};

verus! {

/// The configuration of a text model.
#[derive(Debug)]
pub struct ModelArgs {
    pub model_type: String,
    pub hidden_size: i32,
    pub num_hidden_layers: i32,
    pub intermediate_size: i32,
    pub num_attention_heads: i32,
    pub rms_norm_eps: F32,
    pub vocab_size: i32,
    pub num_key_value_heads: i32,
    pub num_global_key_value_heads: Option<i32>,
    pub max_position_embeddings: i32,
    pub rope_theta: F32,
    pub head_dim: i32,
    pub global_head_dim: Option<i32>,
    pub tie_word_embeddings: bool,
    pub attention_bias: bool,
    pub attention_k_eq_v: bool,
    pub quantized: bool,
    pub quantization_group_size: i32,
    pub quantization_bits: i32,
    pub hidden_size_per_layer_input: i32,
    pub vocab_size_per_layer_input: Option<i32>,
    pub num_kv_shared_layers: i32,
    pub layer_types: Vec<LayerType>,
    pub sliding_window: Option<i32>,
    pub final_logit_softcapping: Option<F32>,
    pub enable_moe_block: bool,
    pub num_experts: Option<i32>,
    pub top_k_experts: Option<i32>,
    pub moe_intermediate_size: Option<i32>,
    pub rope_scaling: Option<RopeScaling>,
    pub rope_parameters: Option<RopeParameters>,
}

/// What a [`ModelArgs`] holds.
pub struct ArgsView {
    pub model_type: Seq<char>,
    pub hidden_size: i32,
    pub num_hidden_layers: i32,
    pub intermediate_size: i32,
    pub num_attention_heads: i32,
    pub rms_norm_eps: F32,
    pub vocab_size: i32,
    pub num_key_value_heads: i32,
    pub num_global_key_value_heads: Option<i32>,
    pub max_position_embeddings: i32,
    pub rope_theta: F32,
    pub head_dim: i32,
    pub global_head_dim: Option<i32>,
    pub tie_word_embeddings: bool,
    pub attention_bias: bool,
    pub attention_k_eq_v: bool,
    pub quantized: bool,
    pub quantization_group_size: i32,
    pub quantization_bits: i32,
    pub hidden_size_per_layer_input: i32,
    pub vocab_size_per_layer_input: Option<i32>,
    pub num_kv_shared_layers: i32,
    pub layer_types: Seq<LayerType>,
    pub sliding_window: Option<i32>,
    pub final_logit_softcapping: Option<F32>,
    pub enable_moe_block: bool,
    pub num_experts: Option<i32>,
    pub top_k_experts: Option<i32>,
    pub moe_intermediate_size: Option<i32>,
    pub rope_scaling: Option<Map<Seq<char>, RopeValue>>,
    pub rope_parameters: Option<Map<Seq<char>, Map<Seq<char>, RopeValue>>>,
}

impl View for ModelArgs {
    type V = ArgsView;

    open spec fn view(&self) -> ArgsView {
        ArgsView {
            model_type: self.model_type@,
            hidden_size: self.hidden_size,
            num_hidden_layers: self.num_hidden_layers,
            intermediate_size: self.intermediate_size,
            num_attention_heads: self.num_attention_heads,
            rms_norm_eps: self.rms_norm_eps,
            vocab_size: self.vocab_size,
            num_key_value_heads: self.num_key_value_heads,
            num_global_key_value_heads: self.num_global_key_value_heads,
            max_position_embeddings: self.max_position_embeddings,
            rope_theta: self.rope_theta,
            head_dim: self.head_dim,
            global_head_dim: self.global_head_dim,
            tie_word_embeddings: self.tie_word_embeddings,
            attention_bias: self.attention_bias,
            attention_k_eq_v: self.attention_k_eq_v,
            quantized: self.quantized,
            quantization_group_size: self.quantization_group_size,
            quantization_bits: self.quantization_bits,
            hidden_size_per_layer_input: self.hidden_size_per_layer_input,
            vocab_size_per_layer_input: self.vocab_size_per_layer_input,
            num_kv_shared_layers: self.num_kv_shared_layers,
            layer_types: self.layer_types@,
            sliding_window: self.sliding_window,
            final_logit_softcapping: self.final_logit_softcapping,
            enable_moe_block: self.enable_moe_block,
            num_experts: self.num_experts,
            top_k_experts: self.top_k_experts,
            moe_intermediate_size: self.moe_intermediate_size,
            rope_scaling: scaling_view(self.rope_scaling),
            rope_parameters: parameters_view(self.rope_parameters),
        }
    }
}

/// The model type where a configuration names none.
pub fn default_model_type() -> (r: String)
    ensures
        r@ == "gemma4"@,
{
    "gemma4".to_string()
}

/// The base of the rotary embedding where a configuration gives none: `10000.0`.
pub fn default_rope_theta() -> (r: F32)
    ensures
        r.bits == 0x461c_4000,
{
    F32 { bits: 0x461c_4000 }
}

/// The value of a switch that is on where a configuration leaves it out.
pub fn default_true() -> (r: bool)
    ensures
        r,
{
    true
}

impl ArgsView {
    /// The kind of the layer `index`.
    pub open spec fn layer_type(self, index: int) -> LayerType {
        if 0 <= index < self.layer_types.len() {
            self.layer_types[index]
        } else {
            LayerType::FullAttention
        }
    }

    /// The rotary settings of a kind of layer.
    pub open spec fn rope_scaling_for_layer(self, layer_type: LayerType) -> Option<
        Map<Seq<char>, RopeValue>,
    > {
        match self.rope_parameters {
            Some(tables) if tables.contains_key(layer_type.key()) => Some(
                tables[layer_type.key()],
            ),
            _ => None,
        }
    }

    /// The base of the rotary embedding of a kind of layer.
    pub open spec fn rope_theta_for_layer(self, layer_type: LayerType) -> F32 {
        match self.rope_scaling_for_layer(layer_type) {
            Some(table) if table.contains_key("rope_theta"@) && table["rope_theta"@].number()
                is Some => table["rope_theta"@].number()->0,
            _ => self.rope_theta,
        }
    }

    /// The configuration as a kind of layer sees it.
    pub open spec fn for_layer(self, layer_type: LayerType) -> ArgsView {
        ArgsView {
            head_dim: match self.global_head_dim {
                Some(dim) if layer_type == LayerType::FullAttention => dim,
                _ => self.head_dim,
            },
            num_key_value_heads: match self.num_global_key_value_heads {
                Some(heads) if layer_type == LayerType::FullAttention => heads,
                _ => self.num_key_value_heads,
            },
            rope_theta: self.rope_theta_for_layer(layer_type),
            rope_scaling: self.rope_scaling_for_layer(layer_type),
            ..self
        }
    }
}

impl Clone for ModelArgs {
    fn clone(&self) -> (r: Self)
        ensures
            r@ == self@,
    {
        let layer_types: Vec<LayerType> = self.layer_types.clone();
        assert(layer_types@ =~= self.layer_types@);
        ModelArgs {
            model_type: self.model_type.clone(),
            layer_types,
            rope_scaling: clone_scaling(&self.rope_scaling),
            rope_parameters: clone_parameters(&self.rope_parameters),
            hidden_size: self.hidden_size,
            num_hidden_layers: self.num_hidden_layers,
            intermediate_size: self.intermediate_size,
            num_attention_heads: self.num_attention_heads,
            rms_norm_eps: self.rms_norm_eps,
            vocab_size: self.vocab_size,
            num_key_value_heads: self.num_key_value_heads,
            num_global_key_value_heads: self.num_global_key_value_heads,
            max_position_embeddings: self.max_position_embeddings,
            rope_theta: self.rope_theta,
            head_dim: self.head_dim,
            global_head_dim: self.global_head_dim,
            tie_word_embeddings: self.tie_word_embeddings,
            attention_bias: self.attention_bias,
            attention_k_eq_v: self.attention_k_eq_v,
            quantized: self.quantized,
            quantization_group_size: self.quantization_group_size,
            quantization_bits: self.quantization_bits,
            hidden_size_per_layer_input: self.hidden_size_per_layer_input,
            vocab_size_per_layer_input: self.vocab_size_per_layer_input,
            num_kv_shared_layers: self.num_kv_shared_layers,
            sliding_window: self.sliding_window,
            final_logit_softcapping: self.final_logit_softcapping,
            enable_moe_block: self.enable_moe_block,
            num_experts: self.num_experts,
            top_k_experts: self.top_k_experts,
            moe_intermediate_size: self.moe_intermediate_size,
        }
    }
}

impl ModelArgs {
    /// The configuration as a kind of layer sees it.
    pub fn for_layer(&self, layer_type: LayerType) -> (r: Self)
        ensures
            r@ == self@.for_layer(layer_type),
    {
        let mut args = self.clone();
        if layer_type == LayerType::FullAttention {
            if let Some(global_head_dim) = self.global_head_dim {
                args.head_dim = global_head_dim;
            }
            if let Some(global_kv_heads) = self.num_global_key_value_heads {
                args.num_key_value_heads = global_kv_heads;
            }
        }
        args.rope_theta = self.rope_theta_for_layer(layer_type);
        args.rope_scaling = self.rope_scaling_for_layer(layer_type);
        args
    }

    /// The kind of the layer `index`; full attention where the configuration names none.
    pub fn layer_type(&self, index: usize) -> (r: LayerType)
        ensures
            r == self@.layer_type(index as int),
    {
        if index < self.layer_types.len() {
            self.layer_types[index]
        } else {
            LayerType::FullAttention
        }
    }

    /// The base of the rotary embedding of a kind of layer.
    pub fn rope_theta_for_layer(&self, layer_type: LayerType) -> (r: F32)
        ensures
            r == self@.rope_theta_for_layer(layer_type),
    {
        if let Some(params) = &self.rope_parameters {
            if let Some(table) = params.get(layer_type.name()) {
                if let Some(value) = table.get("rope_theta") {
                    if let Some(theta) = value.number() {
                        return theta;
                    }
                }
            }
        }
        self.rope_theta
    }

    /// The rotary settings of a kind of layer.
    pub fn rope_scaling_for_layer(&self, layer_type: LayerType) -> (r: Option<RopeScaling>)
        ensures
            scaling_view(r) == self@.rope_scaling_for_layer(layer_type),
    {
        match &self.rope_parameters {
            Some(params) => match params.get(layer_type.name()) {
                Some(table) => Some(table.clone()),
                None => None,
            },
            None => None,
        }
    }
}

/// A JSON value.
#[verifier::external_type_specification]
#[verifier::external_body]
pub struct ExJsonValue(serde_json::Value);

/// `serde_json::Value::clone`: the same JSON value.
pub assume_specification[ <serde_json::Value as Clone>::clone ](value: &serde_json::Value) -> (r:
    serde_json::Value)
    ensures
        r == *value,
;

/// The integers among the members of a JSON object, by name. A value that is no object has
/// no members.
pub uninterp spec fn json_integers(value: serde_json::Value) -> Map<Seq<char>, i64>;

/// `serde_json::Value::get`, read with `serde_json::Value::as_i64`: the integer that the member
/// `name` of an object holds. There is none where `value` is no object, has no such member, or
/// the member is no integer in the range of `i64`.
#[verifier::external_body]
fn json_integer(value: &serde_json::Value, name: &str) -> (r: Option<i64>)
    ensures
        r is Some <==> json_integers(*value).contains_key(name@),
        r matches Some(n) ==> n == json_integers(*value)[name@],
{
    value.get(name)?.as_i64()
}

/// What the setting `name` of an optional quantization section gives.
pub open spec fn quantization_setting(
    config: Option<serde_json::Value>,
    name: Seq<char>,
    default: i32,
) -> i32 {
    match config {
        Some(section) if json_integers(section).contains_key(name) && i32::MIN
            <= json_integers(section)[name] <= i32::MAX => json_integers(section)[name] as i32,
        _ => default,
    }
}

/// The setting that an optional integer gives: the integer where it fits, else the default.
pub fn i32_setting(value: Option<i64>, default: i32) -> (r: i32)
    ensures
        r == (match value {
            Some(n) if i32::MIN <= n <= i32::MAX => n as i32,
            _ => default,
        }),
{
    match value {
        Some(n) => if -0x8000_0000 <= n && n <= 0x7fff_ffff {
            n as i32
        } else {
            default
        },
        None => default,
    }
}

/// The setting `key` of an optional quantization section: the integer that it holds, or
/// `default` where it holds none that fits.
pub fn quantization_i32(config: &Option<serde_json::Value>, key: &str, default: i32) -> (r: i32)
    ensures
        r == quantization_setting(*config, key@, default),
{
    match config {
        Some(section) => i32_setting(json_integer(section, key), default),
        None => default,
    }
}

/// A model's configuration file.
#[derive(Debug)]
pub struct Gemma4Config {
    pub text_config: ModelArgs,
    pub tie_word_embeddings: bool,
    pub quantization: Option<serde_json::Value>,
}

impl Clone for Gemma4Config {
    fn clone(&self) -> (r: Self)
        ensures
            r.text_config@ == self.text_config@,
            r.tie_word_embeddings == self.tie_word_embeddings,
            r.quantization == self.quantization,
    {
        Gemma4Config {
            text_config: self.text_config.clone(),
            tie_word_embeddings: self.tie_word_embeddings,
            quantization: match &self.quantization {
                Some(section) => Some(section.clone()),
                None => None,
            },
        }
    }
}

impl Gemma4Config {
    /// The configuration that the file gives the text model.
    pub open spec fn model_args(self) -> ArgsView {
        ArgsView {
            model_type: "gemma4"@,
            quantized: self.quantization is Some,
            quantization_group_size: quantization_setting(self.quantization, "group_size"@, 64),
            quantization_bits: quantization_setting(self.quantization, "bits"@, 4),
            tie_word_embeddings: self.tie_word_embeddings,
            ..self.text_config@
        }
    }
}

/// The configuration of the text model that a configuration file describes. Mixture-of-experts
/// models are refused.
pub fn get_gemma4_model_args(config: Gemma4Config) -> (r: Result<ModelArgs, Error>)
    ensures
        r is Err <==> config.text_config.enable_moe_block,
        r matches Ok(args) ==> args@ == config.model_args(),
        r matches Err(e) ==> (e matches Error::UnsupportedArchitecture(what) && what@
            == "Gemma 4 MoE models are not supported yet"@),
{
    if config.text_config.enable_moe_block {
        return Err(
            Error::UnsupportedArchitecture("Gemma 4 MoE models are not supported yet".to_string()),
        );
    }
    let Gemma4Config { text_config, tie_word_embeddings, quantization } = config;
    let mut args = text_config;
    args.model_type = "gemma4".to_string();
    args.quantized = quantization.is_some();
    args.quantization_group_size = quantization_i32(&quantization, "group_size", 64);
    args.quantization_bits = quantization_i32(&quantization, "bits", 4);
    args.tie_word_embeddings = tie_word_embeddings;
    Ok(args)
}

} // verus!
