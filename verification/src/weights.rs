//! Strict weight loading: which parameter each stored weight fills, and what is left over.
use vstd::hash_set::StringHashSet;
use vstd::prelude::*;

use crate::error::Error;
use crate::text::{
    clone_texts, contains, ends_with, is_sorted_copy, is_suffix, occurs_in, sort, starts_with,
    strip_prefix, strip_suffix, texts,
};

verus! {

/// How the keys of weight files are matched to parameters, and which mismatches are allowed.
#[derive(Debug)]
pub struct StrictLoadConfig {
    allowed_unused_prefixes: Vec<String>,
    allowed_missing_suffixes: Vec<String>,
    allowed_missing_parts: Vec<String>,
    key_prefixes_to_strip: Vec<String>,
    key_prefix_rewrites: Vec<(String, String)>,
}

/// The rules of a [`StrictLoadConfig`].
#[verifier::ext_equal]
pub struct LoadRules {
    pub unused_prefixes: Seq<Seq<char>>,
    pub missing_suffixes: Seq<Seq<char>>,
    pub missing_parts: Seq<Seq<char>>,
    pub strips: Seq<Seq<char>>,
    pub rewrites: Seq<(Seq<char>, Seq<char>)>,
}

/// The characters of each pair of a list.
pub open spec fn text_pairs(list: Seq<(String, String)>) -> Seq<(Seq<char>, Seq<char>)> {
    list.map_values(|p: (String, String)| (p.0@, p.1@))
}

/// `candidate`, and the name that a quantized layer gives the same weight.
pub open spec fn variants(candidate: Seq<char>) -> Seq<Seq<char>> {
    if is_suffix(".weight"@, candidate) {
        seq![candidate, candidate.take(candidate.len() - ".weight"@.len()) + ".inner.weight"@]
    } else {
        seq![candidate]
    }
}

/// Each name of `list`, followed by its other variants.
pub open spec fn expand(list: Seq<Seq<char>>) -> Seq<Seq<char>>
    decreases list.len(),
{
    if list.len() == 0 {
        Seq::empty()
    } else {
        expand(list.drop_last()) + variants(list.last())
    }
}

/// `list` without the names that occurred before.
pub open spec fn first_occurrences(list: Seq<Seq<char>>) -> Seq<Seq<char>>
    decreases list.len(),
{
    if list.len() == 0 {
        Seq::empty()
    } else if list.drop_last().contains(list.last()) {
        first_occurrences(list.drop_last())
    } else {
        first_occurrences(list.drop_last()).push(list.last())
    }
}

/// The first name of `list` that is in `names`.
pub open spec fn first_in(list: Seq<Seq<char>>, names: Set<Seq<char>>) -> Option<Seq<char>>
    decreases list.len(),
{
    if list.len() == 0 {
        None
    } else if names.contains(list[0]) {
        Some(list[0])
    } else {
        first_in(list.drop_first(), names)
    }
}

impl LoadRules {
    /// A weight stored under `key` may be left unused.
    pub open spec fn is_unused_allowed(self, key: Seq<char>) -> bool {
        exists|i: int|
            0 <= i < self.unused_prefixes.len() && (#[trigger] self.unused_prefixes[i]).is_prefix_of(
                key,
            )
    }

    /// The parameter `key` may be left unfilled.
    pub open spec fn is_missing_allowed(self, key: Seq<char>) -> bool {
        ||| exists|i: int|
            0 <= i < self.missing_suffixes.len() && is_suffix(
                #[trigger] self.missing_suffixes[i],
                key,
            )
        ||| exists|i: int|
            0 <= i < self.missing_parts.len() && occurs_in(#[trigger] self.missing_parts[i], key)
    }

    /// `key` without each of the prefixes to strip that it begins with.
    pub open spec fn stripped(self, key: Seq<char>) -> Seq<Seq<char>> {
        self.strips.filter(|p: Seq<char>| p.is_prefix_of(key)).map_values(
            |p: Seq<char>| key.skip(p.len() as int),
        )
    }

    /// `key` under each of the prefix rewrites that apply to it.
    pub open spec fn rewritten(self, key: Seq<char>) -> Seq<Seq<char>> {
        self.rewrites.filter(|p: (Seq<char>, Seq<char>)| p.0.is_prefix_of(key)).map_values(
            |p: (Seq<char>, Seq<char>)| p.1 + key.skip(p.0.len() as int),
        )
    }

    /// The parameter names under which `key` is looked up, in order.
    pub open spec fn candidates(self, key: Seq<char>) -> Seq<Seq<char>> {
        first_occurrences(expand(seq![key] + self.stripped(key) + self.rewritten(key)))
    }

    /// The parameter that the weight stored under `key` fills.
    pub open spec fn target(self, key: Seq<char>, params: Set<Seq<char>>) -> Option<Seq<char>> {
        first_in(self.candidates(key), params)
    }
}

impl View for StrictLoadConfig {
    type V = LoadRules;

    closed spec fn view(&self) -> LoadRules {
        LoadRules {
            unused_prefixes: texts(self.allowed_unused_prefixes@),
            missing_suffixes: texts(self.allowed_missing_suffixes@),
            missing_parts: texts(self.allowed_missing_parts@),
            strips: texts(self.key_prefixes_to_strip@),
            rewrites: text_pairs(self.key_prefix_rewrites@),
        }
    }
}

impl Clone for StrictLoadConfig {
    fn clone(&self) -> (r: Self)
        ensures
            r@ == self@,
    {
        let list = &self.key_prefix_rewrites;
        let mut rewrites: Vec<(String, String)> = Vec::new();
        for i in 0..list.len()
            invariant
                list@ == self.key_prefix_rewrites@,
                rewrites@.len() == i,
                forall|j: int|
                    0 <= j < i ==> (#[trigger] rewrites@[j]).0@ == list@[j].0@ && rewrites@[j].1@
                        == list@[j].1@,
        {
            rewrites.push((list[i].0.clone(), list[i].1.clone()));
        }
        assert(text_pairs(rewrites@) =~= text_pairs(list@));
        StrictLoadConfig {
            allowed_unused_prefixes: clone_texts(&self.allowed_unused_prefixes),
            allowed_missing_suffixes: clone_texts(&self.allowed_missing_suffixes),
            allowed_missing_parts: clone_texts(&self.allowed_missing_parts),
            key_prefixes_to_strip: clone_texts(&self.key_prefixes_to_strip),
            key_prefix_rewrites: rewrites,
        }
    }
}

impl Default for StrictLoadConfig {
    fn default() -> (r: Self)
        ensures
            r@ == (LoadRules {
                unused_prefixes: Seq::empty(),
                missing_suffixes: Seq::empty(),
                missing_parts: Seq::empty(),
                strips: Seq::empty(),
                rewrites: Seq::empty(),
            }),
    {
        let r = Self {
            allowed_unused_prefixes: Vec::new(),
            allowed_missing_suffixes: Vec::new(),
            allowed_missing_parts: Vec::new(),
            key_prefixes_to_strip: Vec::new(),
            key_prefix_rewrites: Vec::new(),
        };
        assert(texts(Seq::empty()) =~= Seq::empty());
        assert(text_pairs(Seq::empty()) =~= Seq::empty());
        r
    }
}

proof fn texts_of_push(list: Seq<String>, s: String)
    ensures
        texts(list.push(s)) == texts(list).push(s@),
{
    assert(texts(list.push(s)) =~= texts(list).push(s@));
}

impl StrictLoadConfig {
    /// Allows weights whose key begins with `prefix` to go unused.
    pub fn allow_unused_prefix(self, prefix: &str) -> (r: Self)
        ensures
            r@ == (LoadRules {
                unused_prefixes: self@.unused_prefixes.push(prefix@),
                ..self@
            }),
    {
        let mut r = self;
        let s: String = prefix.to_string();
        proof {
            texts_of_push(r.allowed_unused_prefixes@, s);
        }
        r.allowed_unused_prefixes.push(s);
        r
    }

    /// Allows parameters whose name ends with `suffix` to stay unfilled.
    pub fn allow_missing_suffix(self, suffix: &str) -> (r: Self)
        ensures
            r@ == (LoadRules {
                missing_suffixes: self@.missing_suffixes.push(suffix@),
                ..self@
            }),
    {
        let mut r = self;
        let s: String = suffix.to_string();
        proof {
            texts_of_push(r.allowed_missing_suffixes@, s);
        }
        r.allowed_missing_suffixes.push(s);
        r
    }

    /// Allows parameters whose name contains `part` to stay unfilled.
    pub fn allow_missing_contains(self, part: &str) -> (r: Self)
        ensures
            r@ == (LoadRules { missing_parts: self@.missing_parts.push(part@), ..self@ }),
    {
        let mut r = self;
        let s: String = part.to_string();
        proof {
            texts_of_push(r.allowed_missing_parts@, s);
        }
        r.allowed_missing_parts.push(s);
        r
    }

    /// Also looks keys that begin with `prefix` up without it.
    pub fn strip_prefix(self, prefix: &str) -> (r: Self)
        ensures
            r@ == (LoadRules { strips: self@.strips.push(prefix@), ..self@ }),
    {
        let mut r = self;
        let s: String = prefix.to_string();
        proof {
            texts_of_push(r.key_prefixes_to_strip@, s);
        }
        r.key_prefixes_to_strip.push(s);
        r
    }

    /// Also looks keys that begin with `from` up with `to` in its place.
    pub fn rewrite_prefix(self, from: &str, to: &str) -> (r: Self)
        ensures
            r@ == (LoadRules { rewrites: self@.rewrites.push((from@, to@)), ..self@ }),
    {
        let mut r = self;
        let pair: (String, String) = (from.to_string(), to.to_string());
        assert(text_pairs(r.key_prefix_rewrites@.push(pair)) =~= text_pairs(
            r.key_prefix_rewrites@,
        ).push((from@, to@)));
        r.key_prefix_rewrites.push(pair);
        r
    }

    /// Whether a weight stored under `key` may go unused.
    pub fn is_unused_allowed(&self, key: &str) -> (r: bool)
        ensures
            r == self@.is_unused_allowed(key@),
    {
        let list = &self.allowed_unused_prefixes;
        for i in 0..list.len()
            invariant
                list@ == self.allowed_unused_prefixes@,
                forall|j: int|
                    0 <= j < i ==> !(#[trigger] self@.unused_prefixes[j]).is_prefix_of(key@),
        {
            assert(self@.unused_prefixes[i as int] == list@[i as int]@);
            if starts_with(key, list[i].as_str()) {
                return true;
            }
        }
        false
    }

    /// Whether the parameter `key` may stay unfilled.
    pub fn is_missing_allowed(&self, key: &str) -> (r: bool)
        ensures
            r == self@.is_missing_allowed(key@),
    {
        let list = &self.allowed_missing_suffixes;
        for i in 0..list.len()
            invariant
                list@ == self.allowed_missing_suffixes@,
                forall|j: int|
                    0 <= j < i ==> !is_suffix(#[trigger] self@.missing_suffixes[j], key@),
        {
            assert(self@.missing_suffixes[i as int] == list@[i as int]@);
            if ends_with(key, list[i].as_str()) {
                return true;
            }
        }
        let parts = &self.allowed_missing_parts;
        for i in 0..parts.len()
            invariant
                parts@ == self.allowed_missing_parts@,
                forall|j: int| 0 <= j < i ==> !occurs_in(#[trigger] self@.missing_parts[j], key@),
        {
            assert(self@.missing_parts[i as int] == parts@[i as int]@);
            if contains(key, parts[i].as_str()) {
                return true;
            }
        }
        false
    }

    /// The parameter names under which `key` is looked up, in order and each once.
    pub fn candidates(&self, key: &str) -> (r: Vec<String>)
        ensures
            texts(r@) == self@.candidates(key@),
    {
        let mut candidates: Vec<String> = Vec::new();
        candidates.push(key.to_string());
        self.push_stripped(key, &mut candidates);
        self.push_rewritten(key, &mut candidates);
        assert(texts(candidates@) =~= seq![key@] + self@.stripped(key@) + self@.rewritten(key@));
        let expanded = expand_all(candidates);
        keep_first_occurrences(expanded)
    }

    fn push_stripped(&self, key: &str, candidates: &mut Vec<String>)
        ensures
            texts(final(candidates)@) == texts(old(candidates)@) + self@.stripped(key@),
    {
        let list = &self.key_prefixes_to_strip;
        let ghost keep = |p: Seq<char>| p.is_prefix_of(key@);
        let ghost cut = |p: Seq<char>| key@.skip(p.len() as int);
        let ghost start = texts(candidates@);
        assert(texts(list@).take(0).filter(keep) =~= Seq::empty()) by {
            reveal(Seq::filter);
        }
        for i in 0..list.len()
            invariant
                list@ == self.key_prefixes_to_strip@,
                keep == (|p: Seq<char>| p.is_prefix_of(key@)),
                cut == (|p: Seq<char>| key@.skip(p.len() as int)),
                texts(candidates@) =~= start + texts(list@).take(i as int).filter(keep).map_values(
                    cut,
                ),
        {
            let ghost done = texts(list@).take(i as int);
            proof {
                let next = texts(list@).take(i + 1);
                reveal(Seq::filter);
                assert(next.drop_last() =~= done);
                assert(next.last() == list@[i as int]@);
            }
            if let Some(stripped) = strip_prefix(key, list[i].as_str()) {
                let s: String = stripped.to_string();
                proof {
                    texts_of_push(candidates@, s);
                    assert(done.filter(keep).push(list@[i as int]@).map_values(cut)
                        =~= done.filter(keep).map_values(cut).push(s@));
                }
                candidates.push(s);
            }
        }
        assert(texts(list@).take(list@.len() as int) =~= texts(list@));
    }

    fn push_rewritten(&self, key: &str, candidates: &mut Vec<String>)
        ensures
            texts(final(candidates)@) == texts(old(candidates)@) + self@.rewritten(key@),
    {
        let list = &self.key_prefix_rewrites;
        let ghost keep = |p: (Seq<char>, Seq<char>)| p.0.is_prefix_of(key@);
        let ghost swap = |p: (Seq<char>, Seq<char>)| p.1 + key@.skip(p.0.len() as int);
        let ghost start = texts(candidates@);
        assert(text_pairs(list@).take(0).filter(keep) =~= Seq::empty()) by {
            reveal(Seq::filter);
        }
        for i in 0..list.len()
            invariant
                list@ == self.key_prefix_rewrites@,
                keep == (|p: (Seq<char>, Seq<char>)| p.0.is_prefix_of(key@)),
                swap == (|p: (Seq<char>, Seq<char>)| p.1 + key@.skip(p.0.len() as int)),
                texts(candidates@) =~= start + text_pairs(list@).take(i as int).filter(
                    keep,
                ).map_values(swap),
        {
            let ghost done = text_pairs(list@).take(i as int);
            let ghost pair = (list@[i as int].0@, list@[i as int].1@);
            proof {
                let next = text_pairs(list@).take(i + 1);
                reveal(Seq::filter);
                assert(next.drop_last() =~= done);
                assert(next.last() == pair);
            }
            if let Some(stripped) = strip_prefix(key, list[i].0.as_str()) {
                let s: String = list[i].1.clone().concat(stripped);
                proof {
                    texts_of_push(candidates@, s);
                    assert(done.filter(keep).push(pair).map_values(swap) =~= done.filter(
                        keep,
                    ).map_values(swap).push(s@));
                }
                candidates.push(s);
            }
        }
        assert(text_pairs(list@).take(list@.len() as int) =~= text_pairs(list@));
    }
}

fn expand_all(list: Vec<String>) -> (r: Vec<String>)
    ensures
        texts(r@) == expand(texts(list@)),
{
    let mut r: Vec<String> = Vec::new();
    assert(texts(r@) =~= expand(texts(list@).take(0)));
    for i in 0..list.len()
        invariant
            texts(r@) == expand(texts(list@).take(i as int)),
    {
        let ghost before = texts(r@);
        proof {
            let next = texts(list@).take(i + 1);
            assert(next.drop_last() =~= texts(list@).take(i as int));
            assert(next.last() == list@[i as int]@);
        }
        let candidate: String = list[i].clone();
        r.push(candidate);
        if let Some(inner_key) = strip_suffix(list[i].as_str(), ".weight") {
            let s: String = inner_key.to_string().concat(".inner.weight");
            r.push(s);
        }
        assert(texts(r@) =~= before + variants(list@[i as int]@));
    }
    assert(texts(list@).take(list@.len() as int) =~= texts(list@));
    r
}

/// `list` without the strings that occurred before.
pub(crate) fn keep_first_occurrences(list: Vec<String>) -> (r: Vec<String>)
    ensures
        texts(r@) == first_occurrences(texts(list@)),
{
    let mut seen = StringHashSet::new();
    let mut r: Vec<String> = Vec::new();
    assert(texts(r@) =~= first_occurrences(texts(list@).take(0)));
    assert(seen@ =~= texts(list@).take(0).to_set());
    for i in 0..list.len()
        invariant
            texts(r@) == first_occurrences(texts(list@).take(i as int)),
            seen@ =~= texts(list@).take(i as int).to_set(),
    {
        let ghost done = texts(list@).take(i as int);
        let ghost next = texts(list@).take(i + 1);
        proof {
            assert(next.drop_last() =~= done);
            assert(next.last() == list@[i as int]@);
            assert(next =~= done.push(list@[i as int]@));
            broadcast use vstd::seq_lib::group_seq_properties;

            assert(next.to_set() =~= done.to_set().insert(list@[i as int]@));
            assert(done.contains(list@[i as int]@) == done.to_set().contains(list@[i as int]@));
        }
        if seen.insert(list[i].clone()) {
            let s: String = list[i].clone();
            proof {
                texts_of_push(r@, s);
            }
            r.push(s);
        }
    }
    assert(texts(list@).take(list@.len() as int) =~= texts(list@));
    r
}

/// What strict loading has done so far: the names of the parameters that were filled, and the
/// keys that no parameter took.
#[derive(Debug)]
pub struct StrictLoadReport {
    loaded: Vec<String>,
    unused: Vec<String>,
}

/// The parameters filled so far, and the keys that no parameter took, in order.
#[verifier::ext_equal]
pub struct LoadProgress {
    pub loaded: Set<Seq<char>>,
    pub unused: Seq<Seq<char>>,
}

impl LoadProgress {
    /// The progress after the weight stored under `key` as well.
    pub open spec fn with_key(
        self,
        rules: LoadRules,
        key: Seq<char>,
        params: Set<Seq<char>>,
    ) -> LoadProgress {
        match rules.target(key, params) {
            Some(name) => LoadProgress { loaded: self.loaded.insert(name), ..self },
            None => LoadProgress { unused: self.unused.push(key), ..self },
        }
    }

    /// The progress after all of `keys`, one after the other.
    pub open spec fn with_keys(
        self,
        rules: LoadRules,
        keys: Seq<Seq<char>>,
        params: Set<Seq<char>>,
    ) -> LoadProgress
        decreases keys.len(),
    {
        if keys.len() == 0 {
            self
        } else {
            self.with_keys(rules, keys.drop_last(), params).with_key(rules, keys.last(), params)
        }
    }

    /// The parameters that should have been filled and were not.
    pub open spec fn missing(self, rules: LoadRules, params: Seq<Seq<char>>) -> Seq<Seq<char>> {
        params.filter(|p: Seq<char>| !self.loaded.contains(p) && !rules.is_missing_allowed(p))
    }

    /// The keys that should have been used and were not.
    pub open spec fn unexpected(self, rules: LoadRules) -> Seq<Seq<char>> {
        self.unused.filter(|k: Seq<char>| !rules.is_unused_allowed(k))
    }
}

impl View for StrictLoadReport {
    type V = LoadProgress;

    closed spec fn view(&self) -> LoadProgress {
        LoadProgress { loaded: texts(self.loaded@).to_set(), unused: texts(self.unused@) }
    }
}

impl Clone for StrictLoadReport {
    fn clone(&self) -> (r: Self)
        ensures
            r@ == self@,
    {
        StrictLoadReport { loaded: clone_texts(&self.loaded), unused: clone_texts(&self.unused) }
    }
}

impl Default for StrictLoadReport {
    fn default() -> (r: Self)
        ensures
            r@ == (LoadProgress { loaded: Set::empty(), unused: Seq::empty() }),
    {
        let r = StrictLoadReport { loaded: Vec::new(), unused: Vec::new() };
        assert(texts(Seq::empty()) =~= Seq::empty());
        assert(r@.loaded =~= Set::empty());
        r
    }
}

impl StrictLoadReport {
    /// Notes that the parameter `key` was filled.
    pub fn record_loaded(&mut self, key: String)
        ensures
            final(self)@ == (LoadProgress { loaded: old(self)@.loaded.insert(key@), ..old(self)@ }),
    {
        proof {
            broadcast use vstd::seq_lib::group_seq_properties;

            texts_of_push(self.loaded@, key);
            assert(texts(self.loaded@).push(key@).to_set() =~= texts(self.loaded@).to_set().insert(
                key@,
            ));
        }
        self.loaded.push(key);
    }

    /// Notes that no parameter took the weight stored under `key`.
    pub fn record_unused(&mut self, key: String)
        ensures
            final(self)@ == (LoadProgress { unused: old(self)@.unused.push(key@), ..old(self)@ }),
    {
        proof {
            texts_of_push(self.unused@, key);
        }
        self.unused.push(key);
    }

    /// Succeeds if every parameter was filled and every weight used, up to what `config` allows.
    /// Otherwise the error lists what is missing and what went unused, in lexicographic order.
    /// `parameters` are the names of the model's parameters.
    pub fn finish(self, parameters: &Vec<String>, config: &StrictLoadConfig) -> (r: Result<(), Error>)
        ensures
            r is Ok <==> self@.missing(config@, texts(parameters@)).len() == 0
                && self@.unexpected(config@).len() == 0,
            r matches Err(e) ==> (e matches Error::StrictLoadValidation { missing, unused }
                && is_sorted_copy(texts(missing@), self@.missing(config@, texts(parameters@)))
                && is_sorted_copy(texts(unused@), self@.unexpected(config@))),
    {
        let mut missing = self.missing_parameters(parameters, config);
        let mut unused = self.unexpected_keys(config);
        let ghost missing_list = texts(missing@);
        let ghost unused_list = texts(unused@);
        sort(&mut missing);
        sort(&mut unused);
        proof {
            texts(missing@).to_multiset_ensures();
            missing_list.to_multiset_ensures();
            texts(unused@).to_multiset_ensures();
            unused_list.to_multiset_ensures();
        }
        if missing.len() == 0 && unused.len() == 0 {
            Ok(())
        } else {
            Err(Error::StrictLoadValidation { missing, unused })
        }
    }

    fn missing_parameters(&self, parameters: &Vec<String>, config: &StrictLoadConfig) -> (r: Vec<
        String,
    >)
        ensures
            texts(r@) == self@.missing(config@, texts(parameters@)),
    {
        let loaded = set_of(&self.loaded);
        let ghost keep = |p: Seq<char>|
            !self@.loaded.contains(p) && !config@.is_missing_allowed(p);
        let mut r: Vec<String> = Vec::new();
        assert(texts(r@) =~= texts(parameters@).take(0).filter(keep)) by {
            reveal(Seq::filter);
        }
        for i in 0..parameters.len()
            invariant
                loaded@ == self@.loaded,
                keep == (|p: Seq<char>|
                    !self@.loaded.contains(p) && !config@.is_missing_allowed(p)),
                texts(r@) == texts(parameters@).take(i as int).filter(keep),
        {
            proof {
                let next = texts(parameters@).take(i + 1);
                reveal(Seq::filter);
                assert(next.drop_last() =~= texts(parameters@).take(i as int));
                assert(next.last() == parameters@[i as int]@);
            }
            if !loaded.contains(parameters[i].as_str()) && !config.is_missing_allowed(
                parameters[i].as_str(),
            ) {
                let s: String = parameters[i].clone();
                proof {
                    texts_of_push(r@, s);
                }
                r.push(s);
            }
        }
        assert(texts(parameters@).take(parameters@.len() as int) =~= texts(parameters@));
        r
    }

    fn unexpected_keys(&self, config: &StrictLoadConfig) -> (r: Vec<String>)
        ensures
            texts(r@) == self@.unexpected(config@),
    {
        let keys = &self.unused;
        let ghost keep = |k: Seq<char>| !config@.is_unused_allowed(k);
        let mut r: Vec<String> = Vec::new();
        assert(texts(r@) =~= texts(keys@).take(0).filter(keep)) by {
            reveal(Seq::filter);
        }
        for i in 0..keys.len()
            invariant
                keep == (|k: Seq<char>| !config@.is_unused_allowed(k)),
                texts(r@) == texts(keys@).take(i as int).filter(keep),
        {
            proof {
                let next = texts(keys@).take(i + 1);
                reveal(Seq::filter);
                assert(next.drop_last() =~= texts(keys@).take(i as int));
                assert(next.last() == keys@[i as int]@);
            }
            if !config.is_unused_allowed(keys[i].as_str()) {
                let s: String = keys[i].clone();
                proof {
                    texts_of_push(r@, s);
                }
                r.push(s);
            }
        }
        assert(texts(keys@).take(keys@.len() as int) =~= texts(keys@));
        r
    }
}

/// The view of an optional string.
pub open spec fn text_option(s: Option<String>) -> Option<Seq<char>> {
    match s {
        Some(s) => Some(s@),
        None => None,
    }
}

fn set_of(list: &Vec<String>) -> (r: StringHashSet)
    ensures
        r@ == texts(list@).to_set(),
{
    let mut r = StringHashSet::new();
    assert(r@ =~= texts(list@).take(0).to_set());
    for i in 0..list.len()
        invariant
            r@ =~= texts(list@).take(i as int).to_set(),
    {
        proof {
            let done = texts(list@).take(i as int);
            assert(texts(list@).take(i + 1) =~= done.push(list@[i as int]@));
            broadcast use vstd::seq_lib::group_seq_properties;

        }
        r.insert(list[i].clone());
    }
    assert(texts(list@).take(list@.len() as int) =~= texts(list@));
    r
}

/// Decides, for each key of a weight file, the parameter that its weight fills, and notes it in
/// `report`. `parameters` are the names of the model's parameters. Entry `i` of the result is
/// the parameter that the weight under `keys[i]` goes to.
pub fn load_safetensors_strict(
    keys: &Vec<String>,
    parameters: &Vec<String>,
    config: &StrictLoadConfig,
    report: &mut StrictLoadReport,
) -> (r: Vec<Option<String>>)
    ensures
        r@.len() == keys@.len(),
        forall|i: int|
            0 <= i < keys@.len() ==> text_option(#[trigger] r@[i]) == config@.target(
                keys@[i]@,
                texts(parameters@).to_set(),
            ),
        final(report)@ == old(report)@.with_keys(
            config@,
            texts(keys@),
            texts(parameters@).to_set(),
        ),
{
    let params = set_of(parameters);
    let mut r: Vec<Option<String>> = Vec::new();
    assert(texts(keys@).take(0) =~= Seq::empty());
    for i in 0..keys.len()
        invariant
            params@ == texts(parameters@).to_set(),
            r@.len() == i,
            forall|j: int|
                0 <= j < i ==> text_option(#[trigger] r@[j]) == config@.target(
                    keys@[j]@,
                    params@,
                ),
            report@ == old(report)@.with_keys(config@, texts(keys@).take(i as int), params@),
    {
        proof {
            let next = texts(keys@).take(i + 1);
            assert(next.drop_last() =~= texts(keys@).take(i as int));
            assert(next.last() == keys@[i as int]@);
        }
        let matched = find_target(keys[i].as_str(), &params, config);
        match &matched {
            Some(candidate) => {
                report.record_loaded(candidate.clone());
            },
            None => {
                report.record_unused(keys[i].clone());
            },
        }
        r.push(matched);
    }
    assert(texts(keys@).take(keys@.len() as int) =~= texts(keys@));
    r
}

fn find_target(key: &str, params: &StringHashSet, config: &StrictLoadConfig) -> (r: Option<String>)
    ensures
        text_option(r) == config@.target(key@, params@),
{
    let candidates = config.candidates(key);
    let ghost list = texts(candidates@);
    assert(list.skip(0) =~= list);
    for i in 0..candidates.len()
        invariant
            list == texts(candidates@),
            list == config@.candidates(key@),
            first_in(list, params@) == first_in(list.skip(i as int), params@),
    {
        assert(list.skip(i as int).drop_first() =~= list.skip(i + 1));
        assert(list.skip(i as int)[0] == candidates@[i as int]@);
        if params.contains(candidates[i].as_str()) {
            return Some(candidates[i].clone());
        }
    }
    None
}

} // verus!
