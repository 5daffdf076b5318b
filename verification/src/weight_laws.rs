//! What holds of strict weight loading as a whole.
use vstd::prelude::*;

use crate::text::{is_sorted_copy, sorted_copies_are_equal};
use crate::weights::{expand, first_in, first_occurrences, variants, LoadProgress, LoadRules};

verus! {

/// Dropping repeated names drops no name, leaves none twice and keeps the first in place.
pub proof fn first_occurrences_keeps_the_names(list: Seq<Seq<char>>)
    ensures
        first_occurrences(list).no_duplicates(),
        forall|name: Seq<char>|
            #[trigger] first_occurrences(list).contains(name) <==> list.contains(name),
        list.len() > 0 ==> first_occurrences(list).len() > 0 && first_occurrences(list)[0]
            == list[0],
    decreases list.len(),
{
    if list.len() > 0 {
        let rest = list.drop_last();
        let kept = first_occurrences(rest);
        first_occurrences_keeps_the_names(rest);
        assert(list =~= rest.push(list.last()));
        assert forall|name: Seq<char>|
            #[trigger] first_occurrences(list).contains(name) <==> list.contains(name) by {
            assert(kept.contains(name) <==> rest.contains(name));
            if list.contains(name) {
                let i = choose|i: int| 0 <= i < list.len() && list[i] == name;
                if i < rest.len() {
                    assert(rest[i] == name);
                }
                if !rest.contains(list.last()) {
                    if i < rest.len() {
                        let j = choose|j: int| 0 <= j < kept.len() && kept[j] == name;
                        assert(kept.push(list.last())[j] == name);
                    } else {
                        assert(kept.push(list.last())[kept.len() as int] == name);
                    }
                }
            }
            if first_occurrences(list).contains(name) {
                if rest.contains(name) {
                    let i = choose|i: int| 0 <= i < rest.len() && rest[i] == name;
                    assert(list[i] == name);
                } else {
                    assert(list[list.len() - 1] == list.last());
                }
            }
        }
        assert(kept.contains(list.last()) <==> rest.contains(list.last()));
    }
}

proof fn expand_keeps_the_first(list: Seq<Seq<char>>)
    requires
        list.len() > 0,
    ensures
        expand(list).len() > 0,
        expand(list)[0] == list[0],
    decreases list.len(),
{
    if list.len() > 1 {
        expand_keeps_the_first(list.drop_last());
    } else {
        assert(expand(list.drop_last()) =~= Seq::empty());
    }
}

proof fn expand_holds_the_variants(list: Seq<Seq<char>>, name: Seq<char>)
    ensures
        expand(list).contains(name) <==> exists|i: int|
            0 <= i < list.len() && variants(#[trigger] list[i]).contains(name),
    decreases list.len(),
{
    if list.len() > 0 {
        let rest = list.drop_last();
        expand_holds_the_variants(rest, name);
        let before = expand(rest);
        let last = variants(list.last());
        if before.contains(name) {
            let j = choose|j: int| 0 <= j < before.len() && before[j] == name;
            assert((before + last)[j] == name);
            let i = choose|i: int|
                0 <= i < rest.len() && variants(#[trigger] rest[i]).contains(name);
            assert(variants(list[i]).contains(name));
        }
        if last.contains(name) {
            let j = choose|j: int| 0 <= j < last.len() && last[j] == name;
            assert((before + last)[before.len() + j] == name);
            assert(variants(list[list.len() - 1]).contains(name));
        }
        if expand(list).contains(name) {
            let j = choose|j: int| 0 <= j < expand(list).len() && expand(list)[j] == name;
            if j < before.len() {
                assert(before[j] == name);
            } else {
                assert(last[j - before.len()] == name);
            }
        }
        if exists|i: int| 0 <= i < list.len() && variants(#[trigger] list[i]).contains(name) {
            let i = choose|i: int|
                0 <= i < list.len() && variants(#[trigger] list[i]).contains(name);
            if i < rest.len() {
                assert(variants(rest[i]).contains(name));
            }
        }
    }
}

/// A key is looked up under its own name first, and under no name twice.
pub proof fn lookup_begins_with_the_key(rules: LoadRules, key: Seq<char>)
    ensures
        rules.candidates(key).len() > 0,
        rules.candidates(key)[0] == key,
        rules.candidates(key).no_duplicates(),
{
    let base = seq![key] + rules.stripped(key) + rules.rewritten(key);
    expand_keeps_the_first(base);
    first_occurrences_keeps_the_names(expand(base));
}

/// Stripping a prefix that `key` begins with gives a name that `key` is looked up under, and
/// so does rewriting one; of each such name that ends in `.weight`, the name that a quantized
/// layer gives the weight is one too.
pub proof fn prefix_rules_give_candidates(rules: LoadRules, key: Seq<char>, i: int)
    ensures
        0 <= i < rules.strips.len() && rules.strips[i].is_prefix_of(key) ==> {
            let name = key.skip(rules.strips[i].len() as int);
            forall|k: int|
                0 <= k < variants(name).len() ==> rules.candidates(key).contains(
                    #[trigger] variants(name)[k],
                )
        },
        0 <= i < rules.rewrites.len() && rules.rewrites[i].0.is_prefix_of(key) ==> {
            let name = rules.rewrites[i].1 + key.skip(rules.rewrites[i].0.len() as int);
            forall|k: int|
                0 <= k < variants(name).len() ==> rules.candidates(key).contains(
                    #[trigger] variants(name)[k],
                )
        },
{
    let base = seq![key] + rules.stripped(key) + rules.rewritten(key);
    first_occurrences_keeps_the_names(expand(base));
    if 0 <= i < rules.strips.len() && rules.strips[i].is_prefix_of(key) {
        let keep = |p: Seq<char>| p.is_prefix_of(key);
        let name = key.skip(rules.strips[i].len() as int);
        rules.strips.lemma_filter_contains(keep, i);
        let kept = rules.strips.filter(keep);
        let j = choose|j: int| 0 <= j < kept.len() && kept[j] == rules.strips[i];
        assert(rules.stripped(key)[j] == name);
        assert(base[1 + j] == name);
        assert forall|k: int| 0 <= k < variants(name).len() implies rules.candidates(key).contains(
            #[trigger] variants(name)[k],
        ) by {
            expand_holds_the_variants(base, variants(name)[k]);
            assert(variants(base[1 + j]).contains(variants(name)[k]));
        }
    }
    if 0 <= i < rules.rewrites.len() && rules.rewrites[i].0.is_prefix_of(key) {
        let keep = |p: (Seq<char>, Seq<char>)| p.0.is_prefix_of(key);
        let name = rules.rewrites[i].1 + key.skip(rules.rewrites[i].0.len() as int);
        rules.rewrites.lemma_filter_contains(keep, i);
        let kept = rules.rewrites.filter(keep);
        let j = choose|j: int| 0 <= j < kept.len() && kept[j] == rules.rewrites[i];
        assert(rules.rewritten(key)[j] == name);
        let at = 1 + rules.stripped(key).len() + j;
        assert(base[at] == name);
        assert forall|k: int| 0 <= k < variants(name).len() implies rules.candidates(key).contains(
            #[trigger] variants(name)[k],
        ) by {
            expand_holds_the_variants(base, variants(name)[k]);
            assert(variants(base[at]).contains(variants(name)[k]));
        }
    }
}

proof fn first_in_is_in(list: Seq<Seq<char>>, names: Set<Seq<char>>)
    ensures
        match first_in(list, names) {
            Some(name) => names.contains(name) && list.contains(name),
            None => forall|i: int| 0 <= i < list.len() ==> !names.contains(#[trigger] list[i]),
        },
    decreases list.len(),
{
    if list.len() > 0 && !names.contains(list[0]) {
        let rest = list.drop_first();
        first_in_is_in(rest, names);
        match first_in(rest, names) {
            Some(name) => {
                let i = choose|i: int| 0 <= i < rest.len() && rest[i] == name;
                assert(list[i + 1] == name);
            },
            None => {
                assert forall|i: int| 0 <= i < list.len() implies !names.contains(
                    #[trigger] list[i],
                ) by {
                    if i > 0 {
                        assert(rest[i - 1] == list[i]);
                    }
                }
            },
        }
    }
}

/// A weight goes to a parameter of the model that its key is looked up under, and is left
/// unused only if no name that its key is looked up under is a parameter.
pub proof fn weights_go_to_candidates(rules: LoadRules, key: Seq<char>, params: Set<Seq<char>>)
    ensures
        match rules.target(key, params) {
            Some(name) => params.contains(name) && rules.candidates(key).contains(name),
            None => forall|i: int|
                0 <= i < rules.candidates(key).len() ==> !params.contains(
                    #[trigger] rules.candidates(key)[i],
                ),
        },
{
    first_in_is_in(rules.candidates(key), params);
}

/// A weight stored under the name of a parameter fills that parameter, whatever the rules.
pub proof fn exact_names_load_themselves(rules: LoadRules, key: Seq<char>, params: Set<Seq<char>>)
    requires
        params.contains(key),
    ensures
        rules.target(key, params) == Some(key),
{
    lookup_begins_with_the_key(rules, key);
}

/// A weight of a layer that is quantized in the model fills the weight inside it, where the model
/// has no parameter of the stored name.
pub proof fn quantized_layers_are_found(rules: LoadRules, base: Seq<char>)
    ensures
        rules.candidates(base + ".weight"@).contains(base + ".inner.weight"@),
        rules.target(base + ".weight"@, set![base + ".inner.weight"@]) == Some(
            base + ".inner.weight"@,
        ),
{
    let tail = ".weight"@;
    let key = base + tail;
    let inner = base + ".inner.weight"@;
    let names = seq![key] + rules.stripped(key) + rules.rewritten(key);
    assert(key.subrange(key.len() - tail.len(), key.len() as int) =~= tail);
    assert(key.take(key.len() - tail.len()) =~= base);
    assert(variants(key)[1] == inner);
    assert(variants(names[0]).contains(inner));
    expand_holds_the_variants(names, inner);
    first_occurrences_keeps_the_names(expand(names));
    assert(expand(names).contains(inner));
    let list = rules.candidates(key);
    assert(list.contains(inner));
    let params = set![inner];
    first_in_is_in(list, params);
    let i = choose|i: int| 0 <= i < list.len() && list[i] == inner;
    assert(params.contains(list[i]));
}

proof fn first_in_append(a: Seq<Seq<char>>, b: Seq<Seq<char>>, names: Set<Seq<char>>)
    ensures
        first_in(a + b, names) == (match first_in(a, names) {
            Some(name) => Some(name),
            None => first_in(b, names),
        }),
    decreases a.len(),
{
    if a.len() == 0 {
        assert(a + b =~= b);
    } else {
        assert((a + b).drop_first() =~= a.drop_first() + b);
        assert((a + b)[0] == a[0]);
        first_in_append(a.drop_first(), b, names);
    }
}

proof fn first_in_of_first_occurrences(list: Seq<Seq<char>>, names: Set<Seq<char>>)
    ensures
        first_in(first_occurrences(list), names) == first_in(list, names),
    decreases list.len(),
{
    if list.len() > 0 {
        let rest = list.drop_last();
        let last = seq![list.last()];
        first_in_of_first_occurrences(rest, names);
        assert(list =~= rest + last);
        first_in_append(rest, last, names);
        first_in_is_in(rest, names);
        let none = Seq::<Seq<char>>::empty();
        assert(last.drop_first() =~= none);
        assert(first_in(none, names) is None);
        assert(last[0] == list.last());
        if rest.contains(list.last()) {
            let i = choose|i: int| 0 <= i < rest.len() && rest[i] == list.last();
            assert(names.contains(list.last()) ==> names.contains(rest[i]));
        } else {
            assert(first_occurrences(list) =~= first_occurrences(rest) + last);
            first_in_append(first_occurrences(rest), last, names);
        }
    }
}

proof fn expand_append(a: Seq<Seq<char>>, b: Seq<Seq<char>>)
    ensures
        expand(a + b) == expand(a) + expand(b),
    decreases b.len(),
{
    if b.len() == 0 {
        assert(a + b =~= a);
        assert(expand(a) + expand(b) =~= expand(a));
    } else {
        expand_append(a, b.drop_last());
        assert((a + b).drop_last() =~= a + b.drop_last());
        assert((a + b).last() == b.last());
        assert(expand(a + b) =~= expand(a) + expand(b));
    }
}

/// Stripping goes before rewriting: where a name that stripping gives is a parameter, a key is not
/// matched by a name that only rewriting gives.
pub proof fn stripped_names_come_first(
    rules: LoadRules,
    key: Seq<char>,
    params: Set<Seq<char>>,
    i: int,
)
    requires
        0 <= i < rules.stripped(key).len(),
        params.contains(rules.stripped(key)[i]),
    ensures
        rules.target(key, params) matches Some(name) && (variants(key).contains(name) || exists|
            j: int,
        |
            0 <= j < rules.stripped(key).len() && variants(
                #[trigger] rules.stripped(key)[j],
            ).contains(name)),
{
    let first = seq![key] + rules.stripped(key);
    let second = rules.rewritten(key);
    expand_append(first, second);
    first_in_of_first_occurrences(expand(first + second), params);
    first_in_append(expand(first), expand(second), params);
    let stripped = rules.stripped(key)[i];
    assert(first[i + 1] == stripped);
    assert(variants(first[i + 1])[0] == stripped);
    expand_holds_the_variants(first, stripped);
    first_in_is_in(expand(first), params);
    let name = match first_in(expand(first), params) {
        Some(name) => name,
        None => {
            let list = expand(first);
            let k = choose|k: int| 0 <= k < list.len() && list[k] == stripped;
            assert(params.contains(list[k]));
            stripped
        },
    };
    expand_holds_the_variants(first, name);
    let j = choose|j: int| 0 <= j < first.len() && variants(#[trigger] first[j]).contains(name);
    if j > 0 {
        assert(first[j] == rules.stripped(key)[j - 1]);
    }
}

/// A parameter whose name ends in an allowed suffix, or holds an allowed part anywhere, may stay
/// unfilled; without such rules none may, and without prefixes no weight may go unused.
pub proof fn matching_parameters_may_be_missing(
    rules: LoadRules,
    i: int,
    before: Seq<char>,
    after: Seq<char>,
)
    ensures
        0 <= i < rules.missing_suffixes.len() ==> rules.is_missing_allowed(
            before + rules.missing_suffixes[i],
        ),
        0 <= i < rules.missing_parts.len() ==> rules.is_missing_allowed(
            before + rules.missing_parts[i] + after,
        ),
        rules.missing_suffixes.len() == 0 && rules.missing_parts.len() == 0
            ==> !rules.is_missing_allowed(before),
        0 <= i < rules.unused_prefixes.len() ==> rules.is_unused_allowed(
            rules.unused_prefixes[i] + after,
        ),
        rules.unused_prefixes.len() == 0 ==> !rules.is_unused_allowed(before),
{
    if 0 <= i < rules.missing_suffixes.len() {
        let tail = rules.missing_suffixes[i];
        let whole = before + tail;
        assert(whole.subrange(whole.len() - tail.len(), whole.len() as int) =~= tail);
    }
    if 0 <= i < rules.missing_parts.len() {
        let part = rules.missing_parts[i];
        let whole = before + part + after;
        let from = before.len() as int;
        assert(whole.subrange(from, from + part.len()) =~= part);
    }
    if 0 <= i < rules.unused_prefixes.len() {
        let prefix = rules.unused_prefixes[i];
        assert((prefix + after).subrange(0, prefix.len() as int) =~= prefix);
        assert(prefix.is_prefix_of(prefix + after));
    }
}

/// Loading fills exactly the targets of the keys, beside what was filled before, and leaves
/// exactly the keys without a target unused, in their order.
pub proof fn loading_accounts_for_every_key(
    progress: LoadProgress,
    rules: LoadRules,
    keys: Seq<Seq<char>>,
    params: Set<Seq<char>>,
)
    ensures
        forall|name: Seq<char>|
            #[trigger] progress.with_keys(rules, keys, params).loaded.contains(name)
                <==> progress.loaded.contains(name) || exists|i: int|
                0 <= i < keys.len() && rules.target(#[trigger] keys[i], params) == Some(name),
        progress.with_keys(rules, keys, params).unused == progress.unused + keys.filter(
            |k: Seq<char>| rules.target(k, params) is None,
        ),
    decreases keys.len(),
{
    let left = |k: Seq<char>| rules.target(k, params) is None;
    reveal(Seq::filter);
    if keys.len() == 0 {
        assert(progress.unused + keys.filter(left) =~= progress.unused);
    } else {
        let rest = keys.drop_last();
        loading_accounts_for_every_key(progress, rules, rest, params);
        assert forall|name: Seq<char>|
            #[trigger] progress.with_keys(rules, keys, params).loaded.contains(name)
                <==> progress.loaded.contains(name) || exists|i: int|
                0 <= i < keys.len() && rules.target(#[trigger] keys[i], params) == Some(
                    name,
                ) by {
            assert(progress.with_keys(rules, rest, params).loaded.contains(name)
                <==> progress.loaded.contains(name) || exists|i: int|
                0 <= i < rest.len() && rules.target(#[trigger] rest[i], params) == Some(name));
            if exists|i: int|
                0 <= i < rest.len() && rules.target(#[trigger] rest[i], params) == Some(name) {
                let i = choose|i: int|
                    0 <= i < rest.len() && rules.target(#[trigger] rest[i], params) == Some(name);
                assert(rules.target(keys[i], params) == Some(name));
            }
            if exists|i: int|
                0 <= i < keys.len() && rules.target(#[trigger] keys[i], params) == Some(name) {
                let i = choose|i: int|
                    0 <= i < keys.len() && rules.target(#[trigger] keys[i], params) == Some(name);
                if i < rest.len() {
                    assert(rules.target(rest[i], params) == Some(name));
                }
            }
            if rules.target(keys.last(), params) == Some(name) {
                assert(rules.target(keys[keys.len() - 1], params) == Some(name));
            }
        }
        assert(progress.with_keys(rules, keys, params).unused =~= progress.unused + keys.filter(
            left,
        ));
    }
}

/// Only parameters of the model are ever noted as filled.
pub proof fn only_parameters_are_filled(
    progress: LoadProgress,
    rules: LoadRules,
    keys: Seq<Seq<char>>,
    params: Set<Seq<char>>,
)
    requires
        progress.loaded.subset_of(params),
    ensures
        progress.with_keys(rules, keys, params).loaded.subset_of(params),
    decreases keys.len(),
{
    if keys.len() > 0 {
        only_parameters_are_filled(progress, rules, keys.drop_last(), params);
        weights_go_to_candidates(rules, keys.last(), params);
    }
}

/// Loading the weights of two files one after the other is loading all their weights.
pub proof fn loading_in_parts_is_loading_at_once(
    progress: LoadProgress,
    rules: LoadRules,
    first: Seq<Seq<char>>,
    second: Seq<Seq<char>>,
    params: Set<Seq<char>>,
)
    ensures
        progress.with_keys(rules, first, params).with_keys(rules, second, params)
            == progress.with_keys(rules, first + second, params),
    decreases second.len(),
{
    if second.len() == 0 {
        assert(first + second =~= first);
    } else {
        loading_in_parts_is_loading_at_once(progress, rules, first, second.drop_last(), params);
        assert((first + second).drop_last() =~= first + second.drop_last());
        assert((first + second).last() == second.last());
    }
}

proof fn filter_keeps_multiplicity(list: Seq<Seq<char>>, keep: spec_fn(Seq<char>) -> bool)
    ensures
        list.filter(keep).to_multiset() == list.to_multiset().filter(keep),
    decreases list.len(),
{
    broadcast use vstd::multiset::group_multiset_axioms;
    reveal(Seq::filter);
    list.to_multiset_ensures();
    list.filter(keep).to_multiset_ensures();
    if list.len() == 0 {
        assert(list.filter(keep).to_multiset() =~= list.to_multiset().filter(keep));
    } else {
        let rest = list.drop_last();
        filter_keeps_multiplicity(rest, keep);
        rest.to_multiset_ensures();
        rest.filter(keep).to_multiset_ensures();
        assert(list =~= rest.push(list.last()));
        assert(list.to_multiset() =~= rest.to_multiset().insert(list.last()));
        assert(list.filter(keep).to_multiset() =~= list.to_multiset().filter(keep));
    }
}

/// The order in which weights are loaded does not matter: the same weights fill the same
/// parameters and leave the same keys unused, each as often.
pub proof fn loading_order_does_not_matter(
    progress: LoadProgress,
    rules: LoadRules,
    a: Seq<Seq<char>>,
    b: Seq<Seq<char>>,
    params: Set<Seq<char>>,
)
    requires
        a.to_multiset() == b.to_multiset(),
    ensures
        progress.with_keys(rules, a, params).loaded == progress.with_keys(rules, b, params).loaded,
        progress.with_keys(rules, a, params).unused.to_multiset() == progress.with_keys(
            rules,
            b,
            params,
        ).unused.to_multiset(),
{
    let left = |k: Seq<char>| rules.target(k, params) is None;
    loading_accounts_for_every_key(progress, rules, a, params);
    loading_accounts_for_every_key(progress, rules, b, params);
    let after_a = progress.with_keys(rules, a, params);
    let after_b = progress.with_keys(rules, b, params);
    assert forall|name: Seq<char>| after_a.loaded.contains(name) == after_b.loaded.contains(
        name,
    ) by {
        same_targets(rules, a, b, params, name);
        same_targets(rules, b, a, params, name);
    }
    assert(after_a.loaded =~= after_b.loaded);
    filter_keeps_multiplicity(a, left);
    filter_keeps_multiplicity(b, left);
    vstd::seq_lib::lemma_multiset_commutative(progress.unused, a.filter(left));
    vstd::seq_lib::lemma_multiset_commutative(progress.unused, b.filter(left));
}

proof fn same_targets(
    rules: LoadRules,
    a: Seq<Seq<char>>,
    b: Seq<Seq<char>>,
    params: Set<Seq<char>>,
    name: Seq<char>,
)
    requires
        a.to_multiset() == b.to_multiset(),
    ensures
        (exists|i: int| 0 <= i < a.len() && rules.target(#[trigger] a[i], params) == Some(name))
            ==> exists|i: int|
            0 <= i < b.len() && rules.target(#[trigger] b[i], params) == Some(name),
{
    if exists|i: int| 0 <= i < a.len() && rules.target(#[trigger] a[i], params) == Some(name) {
        let i = choose|i: int|
            0 <= i < a.len() && rules.target(#[trigger] a[i], params) == Some(name);
        a.to_multiset_ensures();
        b.to_multiset_ensures();
        assert(a.contains(a[i]));
        assert(a.to_multiset().count(a[i]) > 0);
        assert(b.contains(a[i]));
        let j = choose|j: int| 0 <= j < b.len() && b[j] == a[i];
        assert(rules.target(b[j], params) == Some(name));
    }
}

/// The verdict, and the lists it comes with, do not depend on the order in which the weights
/// were loaded or the parameters listed.
pub proof fn verdict_does_not_depend_on_order(
    progress: LoadProgress,
    rules: LoadRules,
    a: Seq<Seq<char>>,
    b: Seq<Seq<char>>,
    names_a: Seq<Seq<char>>,
    names_b: Seq<Seq<char>>,
    missing_a: Seq<Seq<char>>,
    missing_b: Seq<Seq<char>>,
    unused_a: Seq<Seq<char>>,
    unused_b: Seq<Seq<char>>,
)
    requires
        a.to_multiset() == b.to_multiset(),
        names_a.to_multiset() == names_b.to_multiset(),
        is_sorted_copy(
            missing_a,
            progress.with_keys(rules, a, names_a.to_set()).missing(rules, names_a),
        ),
        is_sorted_copy(
            missing_b,
            progress.with_keys(rules, b, names_b.to_set()).missing(rules, names_b),
        ),
        is_sorted_copy(
            unused_a,
            progress.with_keys(rules, a, names_a.to_set()).unexpected(rules),
        ),
        is_sorted_copy(
            unused_b,
            progress.with_keys(rules, b, names_b.to_set()).unexpected(rules),
        ),
    ensures
        missing_a == missing_b,
        unused_a == unused_b,
{
    assert(names_a.to_set() =~= names_b.to_set()) by {
        names_a.to_multiset_ensures();
        names_b.to_multiset_ensures();
        assert forall|n: Seq<char>| names_a.to_set().contains(n) == names_b.to_set().contains(
            n,
        ) by {
            assert(names_a.contains(n) <==> names_a.to_multiset().count(n) > 0);
            assert(names_b.contains(n) <==> names_b.to_multiset().count(n) > 0);
        }
    }
    let params = names_a.to_set();
    loading_order_does_not_matter(progress, rules, a, b, params);
    let after_a = progress.with_keys(rules, a, params);
    let after_b = progress.with_keys(rules, b, params);
    let lacks = |p: Seq<char>| !after_a.loaded.contains(p) && !rules.is_missing_allowed(p);
    filter_keeps_multiplicity(names_a, lacks);
    filter_keeps_multiplicity(names_b, lacks);
    sorted_copies_are_equal(
        missing_a,
        missing_b,
        after_a.missing(rules, names_a),
        after_b.missing(rules, names_b),
    );
    let odd = |k: Seq<char>| !rules.is_unused_allowed(k);
    filter_keeps_multiplicity(after_a.unused, odd);
    filter_keeps_multiplicity(after_b.unused, odd);
    sorted_copies_are_equal(
        unused_a,
        unused_b,
        after_a.unexpected(rules),
        after_b.unexpected(rules),
    );
}

/// Nothing is missing if and only if each parameter is filled or allowed to be missing, and
/// nothing is unexpected if and only if each unused key is allowed to be unused.
pub proof fn complete_loads_pass(progress: LoadProgress, rules: LoadRules, params: Seq<Seq<char>>)
    ensures
        progress.missing(rules, params).len() == 0 <==> forall|i: int|
            0 <= i < params.len() ==> progress.loaded.contains(#[trigger] params[i])
                || rules.is_missing_allowed(params[i]),
        progress.unexpected(rules).len() == 0 <==> forall|i: int|
            0 <= i < progress.unused.len() ==> rules.is_unused_allowed(
                #[trigger] progress.unused[i],
            ),
{
    let lacks = |p: Seq<char>| !progress.loaded.contains(p) && !rules.is_missing_allowed(p);
    let odd = |k: Seq<char>| !rules.is_unused_allowed(k);
    empty_filter(params, lacks);
    empty_filter(progress.unused, odd);
    assert forall|i: int| 0 <= i < params.len() implies lacks(#[trigger] params[i]) == !(
    progress.loaded.contains(params[i]) || rules.is_missing_allowed(params[i])) by {}
    assert forall|i: int| 0 <= i < progress.unused.len() implies odd(
        #[trigger] progress.unused[i],
    ) == !rules.is_unused_allowed(progress.unused[i]) by {}
}

/// A load that began with nothing passes if and only if each parameter is filled by some key or
/// allowed to be missing, and each key that fills none is allowed to be unused.
pub proof fn loads_pass_when_all_is_accounted_for(
    rules: LoadRules,
    keys: Seq<Seq<char>>,
    params: Seq<Seq<char>>,
)
    ensures
        ({
            let fresh = LoadProgress { loaded: Set::empty(), unused: Seq::empty() };
            let names = params.to_set();
            let after = fresh.with_keys(rules, keys, names);
            &&& after.missing(rules, params).len() == 0 <==> forall|i: int|
                0 <= i < params.len() ==> rules.is_missing_allowed(#[trigger] params[i]) || exists|
                    j: int,
                |
                    0 <= j < keys.len() && rules.target(#[trigger] keys[j], names) == Some(
                        params[i],
                    )
            &&& after.unexpected(rules).len() == 0 <==> forall|j: int|
                0 <= j < keys.len() ==> rules.target(#[trigger] keys[j], names) is Some
                    || rules.is_unused_allowed(keys[j])
        }),
{
    let fresh = LoadProgress { loaded: Set::empty(), unused: Seq::empty() };
    let names = params.to_set();
    let after = fresh.with_keys(rules, keys, names);
    let left = |k: Seq<char>| rules.target(k, names) is None;
    loading_accounts_for_every_key(fresh, rules, keys, names);
    complete_loads_pass(after, rules, params);
    assert(after.unused =~= keys.filter(left));
    if after.unexpected(rules).len() == 0 {
        assert forall|j: int| 0 <= j < keys.len() implies rules.target(#[trigger] keys[j], names)
            is Some || rules.is_unused_allowed(keys[j]) by {
            if left(keys[j]) {
                keys.lemma_filter_contains(left, j);
                let u = choose|u: int| 0 <= u < after.unused.len() && after.unused[u] == keys[j];
                assert(rules.is_unused_allowed(after.unused[u]));
            }
        }
    }
    if forall|j: int|
        0 <= j < keys.len() ==> rules.target(#[trigger] keys[j], names) is Some
            || rules.is_unused_allowed(keys[j]) {
        assert forall|u: int| 0 <= u < after.unused.len() implies rules.is_unused_allowed(
            #[trigger] after.unused[u],
        ) by {
            keys.lemma_filter_contains_rev(left, after.unused[u]);
            let j = choose|j: int| 0 <= j < keys.len() && keys[j] == after.unused[u];
            keys.lemma_filter_pred(left, u);
            assert(rules.target(keys[j], names) is None);
        }
    }
    assert forall|i: int| 0 <= i < params.len() implies (after.loaded.contains(
        #[trigger] params[i],
    ) <==> exists|j: int|
        0 <= j < keys.len() && rules.target(#[trigger] keys[j], names) == Some(params[i])) by {}
}

proof fn empty_filter(list: Seq<Seq<char>>, keep: spec_fn(Seq<char>) -> bool)
    ensures
        list.filter(keep).len() == 0 <==> forall|i: int|
            0 <= i < list.len() ==> !keep(#[trigger] list[i]),
    decreases list.len(),
{
    reveal(Seq::filter);
    if list.len() > 0 {
        let rest = list.drop_last();
        empty_filter(rest, keep);
        if forall|i: int| 0 <= i < list.len() ==> !keep(#[trigger] list[i]) {
            assert forall|i: int| 0 <= i < rest.len() implies !keep(#[trigger] rest[i]) by {
                assert(rest[i] == list[i]);
            }
        }
        if list.filter(keep).len() == 0 {
            assert forall|i: int| 0 <= i < list.len() implies !keep(#[trigger] list[i]) by {
                if i < rest.len() {
                    assert(rest[i] == list[i]);
                }
            }
        }
    }
}

} // verus!
