//! What holds of the models as a whole.
use vstd::prelude::*;

use crate::graph::{is_part, mentions, Graph, LayerPart, ModuleRef, Op, Term, F32};
use crate::models::args::ArgsView;
use crate::models::attention::LayerInput;
use crate::models::block::TransformerBlock;
use crate::models::gemma4::{files_of, gemma4_rules, named_files, Model, WeightMap};
use crate::models::gemma4_assistant::{
    draft_count, BorrowedKv, Gemma4AssistantConfig, Gemma4AssistantDraftModel,
};
use crate::models::layer::LayerType;
use crate::models::rope::RotaryDims;
use crate::models::text_model::{run_layers, Pass};
use crate::weight_laws::{first_occurrences_keeps_the_names, prefix_rules_give_candidates};
use crate::weights::variants;

verus! {

/// A layer sees the same configuration, however often it is adapted to its kind.
pub proof fn adapting_twice_changes_nothing(args: ArgsView, layer_type: LayerType)
    ensures
        args.for_layer(layer_type).for_layer(layer_type) == args.for_layer(layer_type),
{
}

/// Sliding layers keep the plain widths; only full attention layers take the global ones.
pub proof fn sliding_layers_keep_the_plain_widths(args: ArgsView)
    ensures
        args.for_layer(LayerType::SlidingAttention).head_dim == args.head_dim,
        args.for_layer(LayerType::SlidingAttention).num_key_value_heads
            == args.num_key_value_heads,
{
}

/// At least two dimensions rotate, and at most all of them.
pub proof fn rotated_dimensions_are_within_bounds(dims: RotaryDims, rounded: i32)
    requires
        dims.is_valid(),
    ensures
        match dims {
            RotaryDims::All { head_dim } => dims.resolved(rounded) == head_dim,
            RotaryDims::Scaled { head_dim, .. } => 2 <= dims.resolved(rounded) <= head_dim,
        },
{
}

/// The rotated dimensions of each layer of a model can be told.
pub proof fn every_layer_rotates(args: ArgsView, layers: Seq<TransformerBlock>, index: int)
    requires
        args.layers_fit(),
        args.are_layers(layers),
        0 <= index < layers.len(),
    ensures
        layers[index].self_attn.rope.dims.is_valid(),
{
    let kind = args.layer_type(index);
    assert(args.for_layer(kind).attention_fits());
    assert(layers[index].is_for(args, kind, index as usize));
}

/// A layer that keeps its keys and values does not reuse those of another, and it is the only
/// one of its kind that keeps them.
pub proof fn one_layer_of_a_kind_stores(
    args: ArgsView,
    layer_type: LayerType,
    i: usize,
    j: usize,
)
    requires
        args.stores_full_length_kv(layer_type, i),
        args.stores_full_length_kv(layer_type, j),
    ensures
        !args.is_kv_shared_layer(i),
        i == j,
{
    if i < j {
        assert(args.layer_type(j as int) != layer_type);
    }
    if j < i {
        assert(args.layer_type(i as int) != layer_type);
    }
}

/// Of every kind that occurs before the layers that reuse keys and values, one layer keeps them.
pub proof fn kinds_that_occur_are_stored(args: ArgsView, index: int)
    requires
        args.num_kv_shared_layers > 0,
        0 <= index < args.first_kv_shared_layer(),
        args.first_kv_shared_layer() <= i32::MAX,
    ensures
        exists|j: usize|
            index <= j < args.first_kv_shared_layer() && #[trigger] args.stores_full_length_kv(
                args.layer_type(index),
                j,
            ),
    decreases args.first_kv_shared_layer() - index,
{
    let kind = args.layer_type(index);
    if exists|later: int|
        index < later < args.first_kv_shared_layer() && #[trigger] args.layer_type(later)
            == kind {
        let later = choose|later: int|
            index < later < args.first_kv_shared_layer() && #[trigger] args.layer_type(later)
                == kind;
        kinds_that_occur_are_stored(args, later);
        let j = choose|j: usize|
            later <= j < args.first_kv_shared_layer() && #[trigger] args.stores_full_length_kv(
                kind,
                j,
            );
        assert(index <= j < args.first_kv_shared_layer() && args.stores_full_length_kv(kind, j));
    } else {
        let j = index as usize;
        assert(args.is_last_unshared(kind, j as int));
        assert(args.stores_full_length_kv(kind, j));
    }
}

/// Keys and values are kept for a kind once the layer of that kind that keeps them has run.
proof fn kept_kinds(args: ArgsView, layers: Seq<TransformerBlock>, pass: Pass, n: int)
    requires
        args.are_layers(layers),
        0 <= n <= layers.len(),
        run_layers(layers, pass, n) is Some,
    ensures
        forall|t: LayerType|
            #[trigger] run_layers(layers, pass, n)->0.kept.contains_key(t) <==> exists|j: usize|
                j < n && #[trigger] args.stores_full_length_kv(t, j),
    decreases n,
{
    if n > 0 {
        kept_kinds(args, layers, pass, n - 1);
        let before = run_layers(layers, pass, n - 1)->0;
        let after = run_layers(layers, pass, n)->0;
        let layer = layers[n - 1];
        let last = (n - 1) as usize;
        assert(layer.is_for(args, args.layer_type(n - 1), last));
        let kind = args.layer_type(n - 1);
        let adapted = args.for_layer(kind);
        assert(adapted.layer_types == args.layer_types);
        same_sharing(args, kind, kind, last);
        assert(layer.self_attn.store_full_length_kv == args.stores_full_length_kv(kind, last));
        assert forall|t: LayerType|
            #[trigger] after.kept.contains_key(t) <==> exists|j: usize|
                j < n && #[trigger] args.stores_full_length_kv(t, j) by {
            assert(before.kept.contains_key(t) <==> exists|j: usize|
                j < n - 1 && #[trigger] args.stores_full_length_kv(t, j));
            if args.stores_full_length_kv(t, last) {
                assert(args.layer_type(last as int) == t);
            }
            if exists|j: usize| j < n && #[trigger] args.stores_full_length_kv(t, j) {
                let j = choose|j: usize| j < n && #[trigger] args.stores_full_length_kv(t, j);
                if j < n - 1 {
                    assert(before.kept.contains_key(t));
                }
            }
        }
    } else {
        assert(run_layers(layers, pass, n)->0.kept =~= Map::empty());
    }
}

/// Which layers keep and reuse keys and values does not depend on the kind of layer that the
/// configuration is adapted to.
pub proof fn same_sharing(args: ArgsView, adapted_to: LayerType, layer_type: LayerType, index: usize)
    ensures
        args.for_layer(adapted_to).is_kv_shared_layer(index) == args.is_kv_shared_layer(index),
        args.for_layer(adapted_to).stores_full_length_kv(layer_type, index)
            == args.stores_full_length_kv(layer_type, index),
{
    let adapted = args.for_layer(adapted_to);
    assert forall|i: int| #[trigger] adapted.layer_type(i) == args.layer_type(i) by {}
    assert(adapted.is_last_unshared(layer_type, index as int) == args.is_last_unshared(
        layer_type,
        index as int,
    )) by {
        if args.is_last_unshared(layer_type, index as int) {
            assert forall|later: int|
                index < later < adapted.first_kv_shared_layer() implies #[trigger] adapted.layer_type(
                later,
            ) != layer_type by {
                assert(args.layer_type(later) != layer_type);
            }
        }
        if adapted.is_last_unshared(layer_type, index as int) {
            assert forall|later: int|
                index < later < args.first_kv_shared_layer() implies #[trigger] args.layer_type(
                later,
            ) != layer_type by {
                assert(adapted.layer_type(later) != layer_type);
            }
        }
    }
}

/// The kind of the layer `index` occurs among the layers that do not reuse keys and values.
pub open spec fn kind_is_lent(args: ArgsView, index: int) -> bool {
    exists|j: int|
        0 <= j < args.first_kv_shared_layer() && #[trigger] args.layer_type(j) == args.layer_type(
            index,
        )
}

/// A model runs if and only if each layer that reuses keys and values has a layer of its kind
/// among those before that do not.
pub proof fn models_run_when_shared_kinds_are_lent(
    args: ArgsView,
    layers: Seq<TransformerBlock>,
    pass: Pass,
    n: int,
)
    requires
        args.are_layers(layers),
        0 <= n <= layers.len(),
    ensures
        run_layers(layers, pass, n) is Some <==> forall|i: int|
            0 <= i < n && args.is_kv_shared_layer(i as usize) ==> #[trigger] kind_is_lent(args, i),
    decreases n,
{
    if n > 0 {
        models_run_when_shared_kinds_are_lent(args, layers, pass, n - 1);
        let last = n - 1;
        let index = last as usize;
        let layer = layers[last];
        let kind = args.layer_type(last);
        assert(layer.is_for(args, kind, index));
        same_sharing(args, kind, kind, index);
        if let Some(state) = run_layers(layers, pass, last) {
            let input = pass.layer_input(last, state);
            kept_kinds(args, layers, pass, last);
            if args.is_kv_shared_layer(index) {
                assert(layer.can_run(input) <==> state.kept.contains_key(kind));
                if kind_is_lent(args, last) {
                    let j = choose|j: int|
                        0 <= j < args.first_kv_shared_layer() && #[trigger] args.layer_type(j)
                            == args.layer_type(last);
                    kinds_that_occur_are_stored(args, j);
                    let storing = choose|s: usize|
                        j <= s < args.first_kv_shared_layer()
                            && #[trigger] args.stores_full_length_kv(args.layer_type(j), s);
                    assert(storing < last);
                    assert(state.kept.contains_key(kind));
                }
                if state.kept.contains_key(kind) {
                    let j = choose|j: usize|
                        j < last && #[trigger] args.stores_full_length_kv(kind, j);
                    assert(args.layer_type(j as int) == args.layer_type(last));
                }
            } else {
                assert(layer.can_run(input));
            }
        }
        if forall|i: int|
            0 <= i < n && args.is_kv_shared_layer(i as usize) ==> #[trigger] kind_is_lent(args, i) {
            assert(forall|i: int|
                0 <= i < last && args.is_kv_shared_layer(i as usize) ==> #[trigger] kind_is_lent(
                    args,
                    i,
                ));
            assert(args.is_kv_shared_layer(index) ==> kind_is_lent(args, last));
        }
    }
}

/// A complete model runs on tokens if and only if, of the layers that run, each that reuses keys
/// and values has a layer of its kind among those before that do not. With a new cache for each
/// layer, all layers run.
pub proof fn complete_models_run(
    model: Model,
    args: ArgsView,
    inputs: Term,
    seq_len: i32,
    mask: Option<Term>,
    slots: Seq<Option<i32>>,
)
    requires
        model.is_for(args),
    ensures
        ({
            let layers = model.model.language_model.layers@.len() as int;
            let pass = model.model.language_model.pass(inputs, seq_len, mask, slots);
            &&& model.run(inputs, seq_len, mask, slots) is Some <==> forall|i: int|
                0 <= i < pass.run_count(layers) && args.is_kv_shared_layer(i as usize)
                    ==> #[trigger] kind_is_lent(args, i)
            &&& slots.len() == 0 ==> pass.run_count(layers) == layers
        }),
{
    let layers = model.model.language_model.layers@;
    let pass = model.model.language_model.pass(inputs, seq_len, mask, slots);
    models_run_when_shared_kinds_are_lent(
        args,
        layers,
        pass,
        pass.run_count(layers.len() as int),
    );
}

/// The keys and values that the layer `index` attends to.
pub open spec fn attended_kv(layers: Seq<TransformerBlock>, pass: Pass, index: int) -> Option<
    (Term, Term),
> {
    let layer = layers[index];
    let input = pass.layer_input(index, run_layers(layers, pass, index)->0);
    layer.self_attn.keys_and_values(layer.attention_input(input))
}

/// What is kept for a kind is what the layer that keeps it attends to.
proof fn kept_values(
    args: ArgsView,
    layers: Seq<TransformerBlock>,
    pass: Pass,
    n: int,
    storing: usize,
    kind: LayerType,
)
    requires
        args.are_layers(layers),
        storing < n <= layers.len(),
        args.stores_full_length_kv(kind, storing),
        run_layers(layers, pass, n) is Some,
    ensures
        run_layers(layers, pass, n)->0.kept.contains_key(kind),
        attended_kv(layers, pass, storing as int) == Some(
            run_layers(layers, pass, n)->0.kept[kind],
        ),
    decreases n,
{
    let last = n - 1;
    let index = last as usize;
    let layer = layers[last];
    let own_kind = args.layer_type(last);
    assert(layer.is_for(args, own_kind, index));
    same_sharing(args, own_kind, own_kind, index);
    let state = run_layers(layers, pass, last)->0;
    let input = pass.layer_input(last, state);
    assert(args.layer_type(storing as int) == kind);
    if last == storing {
        assert(layer.self_attn.store_full_length_kv);
    } else {
        kept_values(args, layers, pass, last, storing, kind);
        if layer.self_attn.store_full_length_kv && own_kind == kind {
            one_layer_of_a_kind_stores(args, kind, storing, index);
        }
    }
}

/// A layer that reuses keys and values attends to just those that the last layer of its kind
/// before all such layers attends to.
pub proof fn shared_layers_attend_to_what_was_stored(
    args: ArgsView,
    layers: Seq<TransformerBlock>,
    pass: Pass,
    index: usize,
    storing: usize,
)
    requires
        args.are_layers(layers),
        index < layers.len(),
        args.is_kv_shared_layer(index),
        args.stores_full_length_kv(args.layer_type(index as int), storing),
        run_layers(layers, pass, index as int) is Some,
    ensures
        storing < index,
        attended_kv(layers, pass, index as int) == attended_kv(layers, pass, storing as int),
{
    let kind = args.layer_type(index as int);
    let layer = layers[index as int];
    assert(layer.is_for(args, kind, index));
    same_sharing(args, kind, kind, index);
    kept_values(args, layers, pass, index as int, storing, kind);
}

/// The slot of a cache update.
pub open spec fn updated_slot(update: Term) -> Option<usize> {
    match update.op {
        Op::UpdateCache { slot } => Some(slot),
        _ => None,
    }
}

/// A run updates the caches of layers that have one and do not reuse keys and values: each of
/// them once, in the order of the layers, and no others.
pub proof fn caches_are_updated_once(
    args: ArgsView,
    layers: Seq<TransformerBlock>,
    pass: Pass,
    n: int,
)
    requires
        args.are_layers(layers),
        0 <= n <= layers.len(),
        run_layers(layers, pass, n) is Some,
    ensures
        ({
            let updates = run_layers(layers, pass, n)->0.updates;
            &&& forall|u: int|
                0 <= u < updates.len() ==> (updated_slot(#[trigger] updates[u]) matches Some(slot)
                    && slot < n && !args.is_kv_shared_layer(slot) && pass.cache(slot as int) is Some)
            &&& forall|u: int, v: int|
                0 <= u < v < updates.len() ==> updated_slot(#[trigger] updates[u])->0
                    < updated_slot(#[trigger] updates[v])->0
            &&& forall|i: usize|
                i < n && !args.is_kv_shared_layer(i) && (#[trigger] pass.cache(i as int)) is Some
                    ==> exists|u: int|
                    0 <= u < updates.len() && updated_slot(#[trigger] updates[u]) == Some(i)
        }),
    decreases n,
{
    if n > 0 {
        caches_are_updated_once(args, layers, pass, n - 1);
        let before = run_layers(layers, pass, n - 1)->0;
        let after = run_layers(layers, pass, n)->0;
        let index = (n - 1) as usize;
        let layer = layers[n - 1];
        let kind = args.layer_type(n - 1);
        assert(layer.is_for(args, kind, index));
        same_sharing(args, kind, kind, index);
        let input = pass.layer_input(n - 1, before);
        match layer.cache_update(input) {
            Some(update) => {
                assert(updated_slot(update) == Some(index));
                assert(after.updates == before.updates.push(update));
                assert(after.updates[before.updates.len() as int] == update);
            },
            None => {
                assert(args.is_kv_shared_layer(index) || pass.cache(n - 1) is None);
            },
        }
        assert forall|i: usize|
            i < n && !args.is_kv_shared_layer(i) && (#[trigger] pass.cache(i as int))
                is Some implies exists|u: int|
            0 <= u < after.updates.len() && updated_slot(#[trigger] after.updates[u]) == Some(
                i,
            ) by {
            if i < n - 1 {
                let u = choose|u: int|
                    0 <= u < before.updates.len() && updated_slot(#[trigger] before.updates[u])
                        == Some(i);
                assert(after.updates[u] == before.updates[u]);
            }
        }
    }
}

/// `module` is made use of in an optional term.
pub open spec fn optional_mentions(term: Option<Term>, module: ModuleRef) -> bool {
    term matches Some(term) && mentions(term, module)
}

/// A layer that reuses keys and values reads neither its own key and value parts nor its cache:
/// it makes use of those parts only where its inputs do, and whatever its cache is, it computes
/// the same, updates no cache and keeps nothing for later layers.
pub proof fn reusing_layers_read_no_keys_of_their_own(
    layer: TransformerBlock,
    input: LayerInput,
    cache: Option<usize>,
    part: LayerPart,
)
    requires
        layer.self_attn.is_kv_shared_layer,
        layer.can_run(input),
        part == LayerPart::KProj || part == LayerPart::VProj || part == LayerPart::KNorm,
    ensures
        ({
            let module = layer.module(input.owner, part);
            let kept = input.shared_kv->0[layer.self_attn.layer_type];
            mentions(layer.output(input), module) ==> mentions(input.x, module)
                || optional_mentions(input.mask, module) || optional_mentions(
                input.per_layer_input,
                module,
            ) || mentions(kept.0, module) || mentions(kept.1, module)
        }),
        layer.output(LayerInput { cache, ..input }) == layer.output(input),
        layer.cache_update(input) is None,
        layer.shared_kv_after(input) == input.shared_kv,
{
    let inner = layer.attention_input(input);
    let other = layer.attention_input(LayerInput { cache, ..input });
    assert(other == LayerInput { cache, ..inner });
    assert(layer.self_attn.queries(other) == layer.self_attn.queries(inner));
    assert(layer.self_attn.attended(other) == layer.self_attn.attended(inner));
    let module = layer.module(input.owner, part);
    let kept = input.shared_kv->0[layer.self_attn.layer_type];
    let attended = layer.self_attn.attended(inner);
    assert(mentions(attended, module) ==> mentions(input.x, module) || optional_mentions(
        input.mask,
        module,
    ) || mentions(kept.0, module) || mentions(kept.1, module)) by {
        broadcast use crate::graph::group_mentions;

    }
    let h = layer.after_attention(input);
    assert(mentions(h, module) ==> mentions(input.x, module) || mentions(attended, module)) by {
        broadcast use crate::graph::group_mentions;

    }
    let after_mlp = layer.after_mlp(input.owner, h);
    assert(mentions(after_mlp, module) ==> mentions(h, module)) by {
        broadcast use crate::graph::group_mentions;

    }
    assert(mentions(layer.output(input), module) ==> mentions(after_mlp, module)
        || optional_mentions(input.per_layer_input, module)) by {
        broadcast use crate::graph::group_mentions;

    }
}

/// The mask that a sliding layer makes for itself takes the place of the one that it is given:
/// whatever mask it is given, it does the same.
pub proof fn own_masks_replace_given_ones(
    layer: TransformerBlock,
    input: LayerInput,
    mask: Option<Term>,
)
    requires
        layer.generated_mask(input) is Some,
    ensures
        layer.attention_input(input).mask == layer.generated_mask(input),
        layer.can_run(LayerInput { mask, ..input }) == layer.can_run(input),
        layer.output(LayerInput { mask, ..input }) == layer.output(input),
        layer.cache_update(LayerInput { mask, ..input }) == layer.cache_update(input),
        layer.shared_kv_after(LayerInput { mask, ..input }) == layer.shared_kv_after(input),
{
    assert(layer.attention_input(LayerInput { mask, ..input }) == layer.attention_input(input));
}

/// A pass computes nothing idly: each node that it added is part of its result, of a cache update,
/// or of what a pass may leave unused.
pub proof fn passes_compute_nothing_idly(g: Graph, from: nat, out: usize, pass: Pass, id: usize)
    requires
        g.wf(),
        from <= id < g.size(),
        forall|n: usize|
            from <= n && #[trigger] g.is_pending(n) ==> n == out || pass.may_go_unused(g.at(n)),
    ensures
        is_part(g.at(id), g.at(out)) || exists|root: usize|
            id <= root < g.size() && is_part(g.at(id), #[trigger] g.at(root)) && (g.at(root).op
                is UpdateCache || pass.may_go_unused(g.at(root))),
{
    g.every_node_leads_on(id);
}

/// A weight file that an index names is read once, however many weights it holds, and no other
/// file is read.
pub proof fn each_named_file_is_read_once(index: WeightMap)
    ensures
        files_of(Some(index)).no_duplicates(),
        forall|file: Seq<char>|
            #[trigger] files_of(Some(index)).contains(file) <==> named_files(
                index.weight_map@,
            ).contains(file),
        forall|i: int|
            0 <= i < index.weight_map@.len() ==> files_of(Some(index)).contains(
                (#[trigger] index.weight_map@[i]).1@,
            ),
{
    let named = named_files(index.weight_map@);
    first_occurrences_keeps_the_names(named);
    assert forall|i: int| 0 <= i < index.weight_map@.len() implies files_of(Some(index)).contains(
        (#[trigger] index.weight_map@[i]).1@,
    ) by {
        assert(named[i] == index.weight_map@[i].1@);
    }
}

/// The weights of the text model are found under both of the names that they are stored under.
pub proof fn text_weights_are_found(rest: Seq<char>)
    ensures
        gemma4_rules().candidates("language_model.model."@ + rest).contains(
            "model.language_model."@ + rest,
        ),
        gemma4_rules().candidates("model.language_model."@ + rest).contains(
            "model.language_model."@ + rest,
        ),
{
    let rules = gemma4_rules();
    let outer = "language_model.model."@;
    let inner = "model.language_model."@;
    let name = inner + rest;
    assert(outer.is_prefix_of(outer + rest)) by {
        assert((outer + rest).subrange(0, outer.len() as int) =~= outer);
    }
    assert((outer + rest).skip(outer.len() as int) =~= rest);
    assert(rules.rewrites[0] == (outer, inner));
    assert(rules.rewrites.len() == 2);
    assert(variants(name).len() > 0);
    prefix_rules_give_candidates(rules, outer + rest, 0);
    assert(rules.rewrites[0].1 + (outer + rest).skip(rules.rewrites[0].0.len() as int) == name);
    assert(rules.candidates(outer + rest).contains(variants(name)[0]));
    assert(inner.is_prefix_of(inner + rest)) by {
        assert((inner + rest).subrange(0, inner.len() as int) =~= inner);
    }
    assert((inner + rest).skip(inner.len() as int) =~= rest);
    assert(rules.rewrites[1] == (inner, inner));
    prefix_rules_give_candidates(rules, inner + rest, 1);
    assert(rules.rewrites[1].1 + (inner + rest).skip(rules.rewrites[1].0.len() as int) == name);
    assert(rules.candidates(inner + rest).contains(variants(name)[0]));
}

/// The weights of the parts that a text model does not have may go unused.
pub proof fn other_parts_may_go_unused(i: int, rest: Seq<char>)
    requires
        0 <= i < gemma4_rules().unused_prefixes.len(),
    ensures
        gemma4_rules().is_unused_allowed(gemma4_rules().unused_prefixes[i] + rest),
{
    let prefix = gemma4_rules().unused_prefixes[i];
    assert((prefix + rest).subrange(0, prefix.len() as int) =~= prefix);
    assert(prefix.is_prefix_of(prefix + rest));
}

/// An assistant whose configuration does not say which of its layers reuse keys and values
/// reuses them in all of them.
pub proof fn assistants_reuse_throughout(config: Gemma4AssistantConfig, index: usize)
    requires
        config.text_config.num_kv_shared_layers == 0,
        index < config.text_config.num_hidden_layers,
    ensures
        config.layer_args().is_kv_shared_layer(index),
        !config.layer_args().stores_full_length_kv(
            config.layer_args().layer_type(index as int),
            index,
        ),
{
}

/// An assistant that nothing was lent to refuses to draft.
pub proof fn fresh_assistants_refuse_to_draft(assistant: Gemma4AssistantDraftModel)
    requires
        assistant.is_fresh(),
    ensures
        assistant.draft_failure() == Some("Gemma 4 assistant requires shared K/V states"@),
{
}

/// An assistant refuses to draft as soon as one of its layers finds nothing lent for its kind.
pub proof fn partly_lent_assistants_refuse_to_draft(
    assistant: Gemma4AssistantDraftModel,
    kv: BorrowedKv,
    i: int,
)
    requires
        assistant.shared_kv == Some(kv),
        0 <= i < assistant.model.layers@.len(),
        kv.kv_len(assistant.model.layers@[i].layer_type) is None,
    ensures
        assistant.draft_failure() == Some("missing shared K/V state for assistant layer"@),
{
    assert(assistant.borrowed_len(assistant.model.layers@[i].layer_type) is None);
}

/// An assistant that keys and values of both kinds are lent to does not refuse to draft.
pub proof fn lent_assistants_draft(assistant: Gemma4AssistantDraftModel, kv: BorrowedKv)
    requires
        assistant.shared_kv == Some(kv),
        kv.sliding is Some,
        kv.full is Some,
    ensures
        assistant.draft_failure() is None,
{
    assert forall|i: int| 0 <= i < assistant.model.layers@.len() implies assistant.borrowed_len(
        (#[trigger] assistant.model.layers@[i]).layer_type,
    ) is Some by {}
}

/// Drafting `n` tokens gives `n` tokens. The token `k` of them is the one that the draft of `k`
/// tokens was continued with, and at a temperature above zero each has a random draw of its own.
pub proof fn drafts_fill_their_block(
    assistant: Gemma4AssistantDraftModel,
    target: Model,
    last_bonus: u32,
    temp: F32,
    draw: nat,
    n: nat,
    k: nat,
)
    requires
        k < n,
    ensures
        assistant.drafted(target, last_bonus, temp, draw, n).tokens.len() == n,
        assistant.drafted(target, last_bonus, temp, draw, n).tokens[k as int]
            == assistant.drafted(target, last_bonus, temp, draw, k + 1).token,
        !temp.spec_is_zero() && draw + n <= usize::MAX ==> assistant.drafted(
            target,
            last_bonus,
            temp,
            draw,
            n,
        ).tokens[k as int].op == (Op::Categorical { draw: (draw + k) as usize }),
    decreases n,
{
    let before = (n - 1) as nat;
    draft_len(assistant, target, last_bonus, temp, draw, n);
    draft_len(assistant, target, last_bonus, temp, draw, before);
    if k < before {
        drafts_fill_their_block(assistant, target, last_bonus, temp, draw, before, k);
    } else {
        assert(before * 1 == before);
    }
}

proof fn draft_len(
    assistant: Gemma4AssistantDraftModel,
    target: Model,
    last_bonus: u32,
    temp: F32,
    draw: nat,
    n: nat,
)
    ensures
        assistant.drafted(target, last_bonus, temp, draw, n).tokens.len() == n,
    decreases n,
{
    if n > 0 {
        draft_len(assistant, target, last_bonus, temp, draw, (n - 1) as nat);
    }
}

/// A shorter draft is a prefix of a longer one; at temperature zero, whatever numbers the random
/// draws would have.
pub proof fn shorter_drafts_are_prefixes(
    assistant: Gemma4AssistantDraftModel,
    target: Model,
    last_bonus: u32,
    temp: F32,
    draw: nat,
    other_draw: nat,
    n: nat,
    m: nat,
)
    requires
        n <= m,
        temp.spec_is_zero() || draw == other_draw,
    ensures
        assistant.drafted(target, last_bonus, temp, draw, n).tokens == assistant.drafted(
            target,
            last_bonus,
            temp,
            other_draw,
            m,
        ).tokens.take(n as int),
    decreases m,
{
    draft_len(assistant, target, last_bonus, temp, other_draw, m);
    let longer = assistant.drafted(target, last_bonus, temp, other_draw, m).tokens;
    if n == m {
        same_draft(assistant, target, last_bonus, temp, draw, other_draw, n);
        assert(longer.take(n as int) =~= longer);
    } else {
        let before = (m - 1) as nat;
        draft_len(assistant, target, last_bonus, temp, other_draw, before);
        shorter_drafts_are_prefixes(
            assistant,
            target,
            last_bonus,
            temp,
            draw,
            other_draw,
            n,
            before,
        );
        let shorter = assistant.drafted(target, last_bonus, temp, other_draw, before).tokens;
        assert(longer.take(n as int) =~= shorter.take(n as int));
    }
}

proof fn same_draft(
    assistant: Gemma4AssistantDraftModel,
    target: Model,
    last_bonus: u32,
    temp: F32,
    draw: nat,
    other_draw: nat,
    n: nat,
)
    requires
        temp.spec_is_zero() || draw == other_draw,
    ensures
        assistant.drafted(target, last_bonus, temp, draw, n) == assistant.drafted(
            target,
            last_bonus,
            temp,
            other_draw,
            n,
        ),
    decreases n,
{
    if n > 0 {
        same_draft(assistant, target, last_bonus, temp, draw, other_draw, (n - 1) as nat);
    }
}

/// A block of `block_size` tokens has one token from the target and the rest drafted; a block
/// of none or one has nothing to draft.
pub proof fn blocks_hold_one_token_of_the_target(block_size: usize)
    ensures
        block_size > 0 ==> draft_count(block_size) + 1 == block_size,
        block_size == 0 ==> draft_count(block_size) == 0,
{
}

} // verus!
