//! How the parts of a model fit together.
use vstd::prelude::*;

use crate::graph::{LayerPart, ModuleRef, Owner, F32};
use crate::models::args::{json_integers, ArgsView, Gemma4Config};
use crate::models::attention::Attention;
use crate::models::block::TransformerBlock;
use crate::models::gemma4::Model;
use crate::models::gemma4_assistant::{Gemma4AssistantConfig, Gemma4AssistantDraftModel};
use crate::models::layer::LayerType;
use crate::models::modules::{embedding_of, quantization_fits, quotient, Table};
use crate::models::rope::{rotary_dims, RopeValue, RotaryDims, ONE_BITS};
use crate::models::text_model::{layer_modes, Gemma4TextModel};

verus! {

/// The projections of attention take the layer's width and give it back, with one width for each
/// query head and each key head in between, which is the width that queries and keys are normalized
/// and rotated in. As both are normalized, their products are not scaled any further.
pub proof fn attention_parts_fit_together(
    args: ArgsView,
    layer_type: LayerType,
    index: usize,
    attention: Attention,
)
    requires
        args.attention_fits(),
        attention.is_for(args, layer_type, index),
    ensures
        attention.q_proj.input_dims == attention.o_proj.output_dims,
        attention.k_proj.input_dims == attention.o_proj.output_dims,
        attention.v_proj.input_dims == attention.o_proj.output_dims,
        attention.q_proj.output_dims == attention.o_proj.input_dims,
        attention.q_proj.output_dims == attention.n_heads * attention.q_norm.dims,
        attention.k_proj.output_dims == attention.n_kv_heads * attention.k_norm.dims,
        attention.q_norm == attention.k_norm,
        attention.q_norm.dims == args.head_dim,
        attention.n_heads == args.num_attention_heads,
        attention.n_kv_heads == args.num_key_value_heads,
        !attention.attention_k_eq_v ==> attention.v_proj.output_dims
            == attention.k_proj.output_dims,
        attention.attention_k_eq_v ==> layer_type == LayerType::FullAttention,
        match attention.rope@.dims {
            RotaryDims::All { head_dim } => head_dim == attention.q_norm.dims,
            RotaryDims::Scaled { head_dim, .. } => head_dim == attention.q_norm.dims,
        },
        attention.rope@.max_position_embeddings == args.max_position_embeddings,
        !attention.rope@.traditional,
        attention.scale == (F32 { bits: ONE_BITS }),
        attention.q_proj.quantization == attention.o_proj.quantization,
        attention.k_proj.quantization == attention.o_proj.quantization,
        attention.v_proj.quantization == attention.o_proj.quantization,
{
}

/// Every part of a layer takes the width of the stream and gives it back, normalizations leave it,
/// and all are normalized and quantized alike. A layer has all of the parts for per-layer inputs or
/// none.
pub proof fn layer_parts_fit_together(
    args: ArgsView,
    layer_type: LayerType,
    index: usize,
    layer: TransformerBlock,
)
    requires
        args.for_layer(layer_type).attention_fits(),
        layer.is_for(args, layer_type, index),
    ensures
        layer.hidden_size == args.hidden_size,
        layer.self_attn.o_proj.output_dims == layer.hidden_size,
        layer.mlp.gate_proj.input_dims == layer.hidden_size,
        layer.mlp.gate_proj.output_dims == args.intermediate_size,
        layer.mlp.up_proj == layer.mlp.gate_proj,
        layer.mlp.down_proj.input_dims == layer.mlp.gate_proj.output_dims,
        layer.mlp.down_proj.output_dims == layer.hidden_size,
        layer.mlp.gate_proj.quantization == layer.self_attn.o_proj.quantization,
        layer.mlp.down_proj.quantization == layer.self_attn.o_proj.quantization,
        layer.self_attn.o_proj.quantization is Some <==> args.quantized,
        layer.self_attn.o_proj.quantization matches Some(quantization) ==> quantization.group_size
            == args.quantization_group_size && quantization.bits == args.quantization_bits,
        layer.input_layernorm.dims == layer.hidden_size,
        layer.input_layernorm.eps == args.rms_norm_eps,
        layer.post_attention_layernorm == layer.input_layernorm,
        layer.pre_feedforward_layernorm == layer.input_layernorm,
        layer.post_feedforward_layernorm == layer.input_layernorm,
        layer.self_attn.q_norm.eps == layer.input_layernorm.eps,
        layer.per_layer_input_gate is Some <==> layer.takes_per_layer_input(),
        layer.per_layer_projection is Some <==> layer.takes_per_layer_input(),
        layer.post_per_layer_input_norm is Some <==> layer.takes_per_layer_input(),
        layer.takes_per_layer_input() ==> {
            let gate = layer.per_layer_input_gate->0;
            let projection = layer.per_layer_projection->0;
            &&& gate.input_dims == layer.hidden_size
            &&& projection.input_dims == gate.output_dims
            &&& projection.output_dims == layer.hidden_size
            &&& gate.quantization == layer.self_attn.o_proj.quantization
            &&& projection.quantization == layer.self_attn.o_proj.quantization
            &&& layer.post_per_layer_input_norm == Some(layer.input_layernorm)
        },
        layer.self_attn.layer_type == layer.layer_type,
        layer.self_attn.n_heads == layer.num_attention_heads,
        layer.sliding_window == args.sliding_window,
{
    attention_parts_fit_together(
        args.for_layer(layer_type),
        layer_type,
        index,
        layer.self_attn,
    );
}

/// The modules of two layers, of two models, or of two parts of a layer are never the same, and a
/// layer and its attention mean the same modules.
pub proof fn modules_are_told_apart(
    a: TransformerBlock,
    b: TransformerBlock,
    owner: Owner,
    other: Owner,
    part: LayerPart,
    another: LayerPart,
)
    ensures
        a.module(owner, part) == b.module(other, another) <==> a.self_attn.layer_idx
            == b.self_attn.layer_idx && owner == other && part == another,
        a.self_attn.module(owner, part) == a.module(owner, part),
{
}

/// How many rows a table has.
pub open spec fn rows_of(table: Table) -> i32 {
    match table {
        Table::Embedding { rows, .. } => rows,
        Table::ZeroIntegers { rows, .. } => rows,
        Table::ZeroNumbers { rows, .. } => rows,
        Table::OneNumbers { rows, .. } => rows,
    }
}

/// Layers are of the kinds that the configuration lists, and of full attention past the end of the
/// list.
pub proof fn kinds_are_listed(args: ArgsView, index: int, layer_type: LayerType)
    requires
        0 <= index,
    ensures
        index >= args.layer_types.len() ==> args.layer_type(index) == LayerType::FullAttention,
        index < args.layer_types.len() ==> (ArgsView {
            layer_types: args.layer_types.update(index, layer_type),
            ..args
        }).layer_type(index) == layer_type,
        forall|other: int|
            index < args.layer_types.len() && other != index ==> (ArgsView {
                layer_types: args.layer_types.update(index, layer_type),
                ..args
            }).layer_type(other) == #[trigger] args.layer_type(other),
{
}

/// A text model has a layer for each that is configured, which knows its place; all work in the
/// width of the embedding, and either all of the model takes part in per-layer inputs or nothing
/// does. The per-layer embedding and projection give every layer its width.
pub proof fn text_model_parts_fit_together(args: ArgsView, model: Gemma4TextModel, i: int)
    requires
        args.fits(),
        model.is_for(args),
        0 <= i < model.layers@.len(),
    ensures
        model.layers@.len() == model.num_hidden_layers,
        model.layers@[i].self_attn.layer_idx == i,
        model.layers@[i].layer_type == args.layer_type(i),
        model.layers@[i].hidden_size == model.hidden_size,
        model.layers@[i].input_layernorm == model.norm,
        model.embed_tokens.hidden_size == model.hidden_size,
        rows_of(model.embed_tokens.weight) == args.vocab_size,
        model.embed_tokens.quantized == args.quantized,
        model.embed_tokens.group_size == args.quantization_group_size,
        model.embed_tokens.bits == args.quantization_bits,
        model.embed_tokens_per_layer matches Some(found) ==> rows_of(found.weight) == (
        match args.vocab_size_per_layer_input {
            Some(size) => size,
            None => args.vocab_size,
        }),
        model.gives_per_layer_inputs() <==> args.hidden_size_per_layer_input > 0,
        model.layers@[i].takes_per_layer_input() <==> model.gives_per_layer_inputs(),
        model.embed_tokens_per_layer is Some <==> model.gives_per_layer_inputs(),
        model.gives_per_layer_inputs() ==> {
            let found = model.embed_tokens_per_layer->0;
            let projection = model.per_layer_model_projection->0;
            let width = model.per_layer_projection_norm->0.dims;
            &&& found.hidden_size == model.num_hidden_layers * width
            &&& found.quantized == args.quantized
            &&& found.group_size == args.quantization_group_size
            &&& found.bits == args.quantization_bits
            &&& projection.input_dims == model.hidden_size
            &&& projection.output_dims == found.hidden_size
            &&& projection.quantization is None
            &&& width == model.hidden_size_per_layer_input
            &&& model.layers@[i].per_layer_input_gate->0.output_dims == width
            &&& model.per_layer_projection_norm->0.eps == model.norm.eps
        },
{
    assert(model.layers@[i].is_for(args, args.layer_type(i), i as usize));
    assert(args.for_layer(args.layer_type(i)).attention_fits());
    layer_parts_fit_together(args, args.layer_type(i), i as usize, model.layers@[i]);
}

/// An assistant takes two vectors of the target's width, works in its own, and hands back one of
/// the target's width. It scores as many tokens as its embedding holds, and is nowhere quantized.
pub proof fn assistant_parts_fit_together(
    config: Gemma4AssistantConfig,
    assistant: Gemma4AssistantDraftModel,
)
    requires
        config.fits(),
        assistant.is_for(config),
    ensures
        assistant.pre_projection.input_dims == assistant.post_projection.output_dims
            + assistant.post_projection.output_dims,
        assistant.post_projection.output_dims == config.backbone_hidden_size,
        assistant.pre_projection.output_dims == assistant.model.norm.dims,
        assistant.post_projection.input_dims == assistant.model.norm.dims,
        assistant.model.embed_tokens.hidden_size == assistant.model.norm.dims,
        assistant.model.embed_tokens.weight == (Table::Embedding {
            rows: config.text_config.vocab_size,
            columns: assistant.model.norm.dims,
        }),
        assistant.pre_projection.quantization is None,
        assistant.post_projection.quantization is None,
        assistant.lm_head matches Some(head) ==> head.input_dims == assistant.model.norm.dims
            && head.output_dims == config.text_config.vocab_size && head.quantization is None,
        assistant.lm_head is None <==> config.tie_word_embeddings,
        forall|i: int|
            0 <= i < assistant.model.layers@.len() ==> (
            #[trigger] assistant.model.layers@[i]).input_layernorm == assistant.model.norm
                && assistant.model.layers@[i].self_attn.o_proj.quantization is None
                && assistant.model.layers@[i].self_attn.layer_idx == i,
        assistant.masked_embedding matches Some(masked) ==> {
            &&& masked.num_centroids == config.num_centroids
            &&& masked.top_k == config.centroid_intermediate_top_k
            &&& masked.hidden_size == assistant.model.norm.dims
            &&& masked.centroids.input_dims == assistant.model.norm.dims
            &&& masked.centroids.output_dims == masked.num_centroids
            &&& masked.token_ordering.len == masked.vocab_size
            &&& masked.vocab_size == config.text_config.vocab_size
            &&& masked.vocab_size >= 0 && masked.num_centroids > 0
                ==> masked.num_centroids * masked.vocab_size_per_centroid <= masked.vocab_size
                < masked.num_centroids * (masked.vocab_size_per_centroid + 1)
        },
{
    if let Some(masked) = assistant.masked_embedding {
        let a = masked.vocab_size as int;
        let b = masked.num_centroids as int;
        if a >= 0 && b > 0 {
            assert(b * (a / b) <= a < b * (a / b + 1)) by (nonlinear_arith)
                requires
                    a >= 0,
                    b > 0,
            ;
        }
    }
}

/// A quantized table holds its numbers in words: those of a row are as many as the row has numbers
/// and the words room for, and each group of numbers has a scale and a bias.
pub proof fn quantized_rows_hold_their_numbers(
    vocab_size: i32,
    hidden_size: i32,
    group_size: i32,
    bits: i32,
    per_word: int,
    words: int,
    groups: int,
)
    requires
        quantization_fits(hidden_size, group_size, bits),
        bits > 0,
        group_size > 0,
        per_word * bits == 32,
        hidden_size == words * per_word,
        hidden_size == groups * group_size,
        words >= 0,
        groups >= 0,
    ensures
        ({
            let table = embedding_of(vocab_size, hidden_size, true, group_size, bits);
            &&& table.weight == (Table::ZeroIntegers { rows: vocab_size, columns: words as i32 })
            &&& table.scales == Some(
                Table::OneNumbers { rows: vocab_size, columns: groups as i32 },
            )
            &&& table.biases == Some(
                Table::ZeroNumbers { rows: vocab_size, columns: groups as i32 },
            )
        }),
{
    assert(per_word > 0) by (nonlinear_arith)
        requires
            per_word * bits == 32,
            bits > 0,
    ;
    assert(32int / (bits as int) == per_word) by (nonlinear_arith)
        requires
            per_word * bits == 32,
            bits > 0,
            per_word > 0,
    ;
    assert(quotient(32, bits as int) == per_word);
    assert(hidden_size as int / per_word == words) by (nonlinear_arith)
        requires
            hidden_size == words * per_word,
            per_word > 0,
            words >= 0,
    ;
    assert(hidden_size as int / group_size as int == groups) by (nonlinear_arith)
        requires
            hidden_size == groups * group_size,
            group_size > 0,
            groups >= 0,
    ;
    assert(hidden_size >= 0) by (nonlinear_arith)
        requires
            hidden_size == words * per_word,
            per_word > 0,
            words >= 0,
    ;
}

/// Division rounds toward zero: the rest has the sign of what is divided and is smaller than what
/// divides it.
pub proof fn quotients_round_toward_zero(a: int, b: int)
    requires
        b != 0,
    ensures
        ({
            let rest = a - quotient(a, b) * b;
            let size = if b > 0 {
                b
            } else {
                -b
            };
            &&& -size < rest < size
            &&& a >= 0 ==> rest >= 0
            &&& a <= 0 ==> rest <= 0
        }),
{
    let x = if a >= 0 {
        a
    } else {
        -a
    };
    let d = if b > 0 {
        b
    } else {
        -b
    };
    let q = x / d;
    assert(0 <= x - q * d < d) by (nonlinear_arith)
        requires
            q == x / d,
            d > 0,
    ;
    assert((-q) * b == -(q * b)) by (nonlinear_arith);
    assert(q * (-b) == -(q * b)) by (nonlinear_arith);
}

/// Full attention layers take the global widths where they are configured.
pub proof fn full_layers_take_the_global_widths(args: ArgsView, dim: i32, heads: i32)
    ensures
        ({
            let wide = ArgsView {
                global_head_dim: Some(dim),
                num_global_key_value_heads: Some(heads),
                ..args
            };
            let seen = wide.for_layer(LayerType::FullAttention);
            seen.head_dim == dim && seen.num_key_value_heads == heads
        }),
        ({
            let plain = ArgsView {
                global_head_dim: None,
                num_global_key_value_heads: None,
                ..args
            };
            let seen = plain.for_layer(LayerType::FullAttention);
            seen.head_dim == args.head_dim && seen.num_key_value_heads == args.num_key_value_heads
        }),
{
}

/// The rotary settings of one kind of layer reach the layers of that kind, and those of the other
/// kind are what they were.
pub proof fn rotary_settings_are_by_kind(
    args: ArgsView,
    tables: Map<Seq<char>, Map<Seq<char>, RopeValue>>,
    layer_type: LayerType,
    other: LayerType,
    table: Map<Seq<char>, RopeValue>,
    layer: TransformerBlock,
    index: usize,
)
    requires
        other != layer_type,
        args.rope_parameters == Some(tables),
    ensures
        ({
            let changed = ArgsView {
                rope_parameters: Some(tables.insert(layer_type.key(), table)),
                ..args
            };
            &&& layer.is_for(changed, layer_type, index) ==> layer.self_attn.rope@.scaling == Some(
                table,
            ) && layer.self_attn.rope@.theta == (if table.contains_key("rope_theta"@)
                && table["rope_theta"@].number() is Some {
                table["rope_theta"@].number()->0
            } else {
                args.rope_theta
            })
            &&& layer.is_for(changed, other, index) <==> layer.is_for(args, other, index)
        }),
{
    let changed = ArgsView {
        rope_parameters: Some(tables.insert(layer_type.key(), table)),
        ..args
    };
    assert(other.key() != layer_type.key()) by {
        if other.key() == layer_type.key() {
            crate::models::layer::layer_names_are_distinct(other, layer_type);
        }
    }
    let a = changed.for_layer(other);
    let b = args.for_layer(other);
    assert(a == (ArgsView { rope_parameters: a.rope_parameters, ..b }));
    let attention = layer.self_attn;
    assert(attention.is_for(a, other, index) <==> attention.is_for(b, other, index)) by {
        assert forall|t: LayerType, i: int| #[trigger] a.is_last_unshared(t, i)
            == b.is_last_unshared(t, i) by {
            assert forall|later: int| a.layer_type(later) == b.layer_type(later) by {}
        }
    }
}

/// Settings that say so rotate all dimensions of a head; others rotate the share that they give,
/// or all where they give none.
pub proof fn rotated_dimensions_follow_the_settings(
    head_dim: i32,
    table: Map<Seq<char>, RopeValue>,
    parsed: Option<F32>,
    share: RopeValue,
)
    ensures
        rotary_dims(
            head_dim,
            Some(
                table.insert(
                    "rope_type"@,
                    RopeValue::Text { text: "proportional"@, parsed },
                ),
            ),
        ) == (RotaryDims::All { head_dim }),
        !table.contains_key("rope_type"@) && share.number() is Some ==> rotary_dims(
            head_dim,
            Some(table.insert("partial_rotary_factor"@, share)),
        ) == (RotaryDims::Scaled { head_dim, factor: share.number()->0 }),
        rotary_dims(head_dim, None) == (RotaryDims::Scaled {
            head_dim,
            factor: F32 { bits: ONE_BITS },
        }),
{
    reveal_strlit("rope_type");
    reveal_strlit("partial_rotary_factor");
    assert("rope_type"@.len() != "partial_rotary_factor"@.len());
}

/// A configuration file turns quantization on by having a section for it, whose numbers it takes
/// by their names, or the usual ones where it lacks them, and says whether embeddings are tied; all
/// else is the text model's own.
pub proof fn configuration_files_set_quantization(config: Gemma4Config)
    ensures
        ({
            let args = config.model_args();
            let own = config.text_config@;
            &&& args.quantized <==> config.quantization is Some
            &&& args.tie_word_embeddings == config.tie_word_embeddings
            &&& args.model_type == "gemma4"@
            &&& config.quantization matches Some(section) ==> {
                let given = json_integers(section);
                &&& given.contains_key("group_size"@) && i32::MIN <= given["group_size"@]
                    <= i32::MAX ==> args.quantization_group_size == given["group_size"@]
                &&& !given.contains_key("group_size"@) ==> args.quantization_group_size == 64
                &&& !given.contains_key("bits"@) ==> args.quantization_bits == 4
                &&& given.contains_key("bits"@) && i32::MIN <= given["bits"@] <= i32::MAX
                    ==> args.quantization_bits == given["bits"@]
            }
            &&& args == (ArgsView {
                model_type: args.model_type,
                quantized: args.quantized,
                quantization_group_size: args.quantization_group_size,
                quantization_bits: args.quantization_bits,
                tie_word_embeddings: args.tie_word_embeddings,
                ..own
            })
        }),
{
}

/// An assistant whose configuration says how many of its layers reuse keys and values keeps to it,
/// and the rest of the configuration of its layers is the given one.
pub proof fn assistants_keep_their_configuration(config: Gemma4AssistantConfig)
    ensures
        ({
            let args = config.layer_args();
            let own = config.text_config@;
            &&& own.num_kv_shared_layers != 0 ==> args.num_kv_shared_layers
                == own.num_kv_shared_layers
            &&& own.num_kv_shared_layers == 0 ==> args.num_kv_shared_layers
                == args.num_hidden_layers
            &&& !args.quantized
            &&& args == (ArgsView {
                model_type: args.model_type,
                quantized: false,
                quantization_group_size: args.quantization_group_size,
                quantization_bits: args.quantization_bits,
                num_kv_shared_layers: args.num_kv_shared_layers,
                ..own
            })
        }),
{
}

/// The part is one that the layer has and that knows training from use.
pub open spec fn has_mode(layer: TransformerBlock, part: LayerPart) -> bool {
    match part {
        LayerPart::LayerScalar => false,
        LayerPart::PerLayerInputGate => layer.per_layer_input_gate is Some,
        LayerPart::PerLayerProjection => layer.per_layer_projection is Some,
        LayerPart::PostPerLayerInputNorm => layer.post_per_layer_input_norm is Some,
        _ => true,
    }
}

/// A change between training and use reaches each part of a layer once, and nothing else.
pub proof fn layers_pass_the_mode_on(
    layer: TransformerBlock,
    owner: Owner,
    mode: bool,
    part: LayerPart,
)
    ensures
        layer.modes(owner, mode).no_duplicates(),
        has_mode(layer, part) <==> layer.modes(owner, mode).contains(
            (layer.module(owner, part), mode),
        ),
        forall|i: int|
            0 <= i < layer.modes(owner, mode).len() ==> exists|p: LayerPart|
                #[trigger] layer.modes(owner, mode)[i] == (#[trigger] layer.module(owner, p), mode),
{
    let modes = layer.modes(owner, mode);
    let a: int = if layer.per_layer_input_gate is Some {
        1
    } else {
        0
    };
    let b: int = if layer.per_layer_projection is Some {
        1
    } else {
        0
    };
    let c: int = if layer.post_per_layer_input_norm is Some {
        1
    } else {
        0
    };
    let place: int = match part {
        LayerPart::QProj => 0,
        LayerPart::KProj => 1,
        LayerPart::VProj => 2,
        LayerPart::OProj => 3,
        LayerPart::QNorm => 4,
        LayerPart::KNorm => 5,
        LayerPart::Rope => 6,
        LayerPart::GateProj => 7,
        LayerPart::DownProj => 8,
        LayerPart::UpProj => 9,
        LayerPart::PerLayerInputGate => 10,
        LayerPart::PerLayerProjection => 10 + a,
        LayerPart::PostPerLayerInputNorm => 10 + a + b,
        LayerPart::InputLayernorm => 10 + a + b + c,
        LayerPart::PostAttentionLayernorm => 11 + a + b + c,
        LayerPart::PreFeedforwardLayernorm => 12 + a + b + c,
        LayerPart::PostFeedforwardLayernorm => 13 + a + b + c,
        LayerPart::LayerScalar => 0,
    };
    assert(modes.len() == 14 + a + b + c);
    if has_mode(layer, part) {
        assert(modes[place] == (layer.module(owner, part), mode));
    }
    assert forall|i: int| 0 <= i < modes.len() implies exists|p: LayerPart|
        #[trigger] modes[i] == (#[trigger] layer.module(owner, p), mode) by {
        let p = part_at(layer, i);
        assert(modes[i] == (layer.module(owner, p), mode));
    }
}

/// The part whose mode is set as the `i`-th.
spec fn part_at(layer: TransformerBlock, i: int) -> LayerPart {
    let a: int = if layer.per_layer_input_gate is Some {
        1
    } else {
        0
    };
    let b: int = if layer.per_layer_projection is Some {
        1
    } else {
        0
    };
    let c: int = if layer.post_per_layer_input_norm is Some {
        1
    } else {
        0
    };
    if i == 0 {
        LayerPart::QProj
    } else if i == 1 {
        LayerPart::KProj
    } else if i == 2 {
        LayerPart::VProj
    } else if i == 3 {
        LayerPart::OProj
    } else if i == 4 {
        LayerPart::QNorm
    } else if i == 5 {
        LayerPart::KNorm
    } else if i == 6 {
        LayerPart::Rope
    } else if i == 7 {
        LayerPart::GateProj
    } else if i == 8 {
        LayerPart::DownProj
    } else if i == 9 {
        LayerPart::UpProj
    } else if i < 10 + a {
        LayerPart::PerLayerInputGate
    } else if i < 10 + a + b {
        LayerPart::PerLayerProjection
    } else if i < 10 + a + b + c {
        LayerPart::PostPerLayerInputNorm
    } else if i == 10 + a + b + c {
        LayerPart::InputLayernorm
    } else if i == 11 + a + b + c {
        LayerPart::PostAttentionLayernorm
    } else if i == 12 + a + b + c {
        LayerPart::PreFeedforwardLayernorm
    } else {
        LayerPart::PostFeedforwardLayernorm
    }
}

proof fn lemma_layer_modes(
    layers: Seq<TransformerBlock>,
    mode: bool,
    i: int,
    entry: (ModuleRef, bool),
)
    requires
        0 <= i < layers.len(),
        layers[i].modes(Owner::Target, mode).contains(entry),
    ensures
        layer_modes(layers, mode).contains(entry),
    decreases layers.len(),
{
    let rest = layer_modes(layers.drop_last(), mode);
    let last = layers.last().modes(Owner::Target, mode);
    if i == layers.len() - 1 {
        let k = choose|k: int| 0 <= k < last.len() && last[k] == entry;
        assert((rest + last)[rest.len() + k] == entry);
    } else {
        lemma_layer_modes(layers.drop_last(), mode, i, entry);
        let k = choose|k: int| 0 <= k < rest.len() && rest[k] == entry;
        assert((rest + last)[k] == entry);
    }
}

/// A change between training and use reaches each part of each layer of a model, its last
/// normalization, and its output layer where it has one of its own.
pub proof fn models_pass_the_mode_on(model: Model, mode: bool, i: int, part: LayerPart)
    requires
        0 <= i < model.model.language_model.layers@.len(),
        has_mode(model.model.language_model.layers@[i], part),
    ensures
        model.modes(mode).contains(
            (model.model.language_model.layers@[i].module(Owner::Target, part), mode),
        ),
        model.modes(mode).contains((ModuleRef::Norm { owner: Owner::Target }, mode)),
        model.lm_head is Some ==> model.modes(mode).contains(
            (ModuleRef::LmHead { owner: Owner::Target }, mode),
        ),
{
    let text = model.model.language_model;
    let layer = text.layers@[i];
    let entry = (layer.module(Owner::Target, part), mode);
    layers_pass_the_mode_on(layer, Owner::Target, mode, part);
    lemma_layer_modes(text.layers@, mode, i, entry);
    let all = layer_modes(text.layers@, mode);
    let k = choose|k: int| 0 <= k < all.len() && all[k] == entry;
    assert(model.modes(mode)[k] == entry);
    assert(model.modes(mode)[all.len() as int] == (ModuleRef::Norm { owner: Owner::Target }, mode));
    if model.lm_head is Some {
        assert(model.modes(mode)[all.len() as int + 1] == (
            ModuleRef::LmHead { owner: Owner::Target },
            mode,
        ));
    }
}

} // verus!
