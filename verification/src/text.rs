//! Strings as sequences of characters: prefixes, suffixes and order.
use vstd::prelude::*;
use vstd::relations::sorted_by;

verus! {

/// The characters of each string of a list.
pub open spec fn texts(list: Seq<String>) -> Seq<Seq<char>> {
    list.map_values(|s: String| s@)
}

/// `part` stands somewhere in `whole` as a run of adjacent characters.
pub open spec fn occurs_in(part: Seq<char>, whole: Seq<char>) -> bool {
    exists|from: int, to: int|
        0 <= from <= to <= whole.len() && #[trigger] whole.subrange(from, to) == part
}

/// `tail` are the last characters of `whole`.
pub open spec fn is_suffix(tail: Seq<char>, whole: Seq<char>) -> bool {
    tail.len() <= whole.len() && whole.subrange(whole.len() - tail.len(), whole.len() as int)
        == tail
}

/// Lexicographic order by code point.
pub open spec fn text_le(a: Seq<char>, b: Seq<char>) -> bool
    decreases a.len(),
{
    if a.len() == 0 {
        true
    } else if b.len() == 0 {
        false
    } else if a[0] == b[0] {
        text_le(a.drop_first(), b.drop_first())
    } else {
        (a[0] as int) < (b[0] as int)
    }
}

/// `sorted` holds what `list` holds, each as often, in lexicographic order.
pub open spec fn is_sorted_copy(sorted: Seq<Seq<char>>, list: Seq<Seq<char>>) -> bool {
    &&& sorted.to_multiset() == list.to_multiset()
    &&& sorted_by(sorted, |a: Seq<char>, b: Seq<char>| text_le(a, b))
}

/// `str::starts_with`: whether `s` begins with the characters of `prefix`.
#[verifier::external_body]
pub(crate) fn starts_with(s: &str, prefix: &str) -> (r: bool)
    ensures
        r == prefix@.is_prefix_of(s@),
{
    s.starts_with(prefix)
}

/// `str::ends_with`: whether `s` ends with the characters of `suffix`.
#[verifier::external_body]
pub(crate) fn ends_with(s: &str, suffix: &str) -> (r: bool)
    ensures
        r == is_suffix(suffix@, s@),
{
    s.ends_with(suffix)
}

/// `str::contains`: whether the characters of `part` stand side by side in `s`.
#[verifier::external_body]
pub(crate) fn contains(s: &str, part: &str) -> (r: bool)
    ensures
        r == occurs_in(part@, s@),
{
    s.contains(part)
}

/// `str::strip_prefix`: what follows `prefix` in `s`, where `s` begins with it.
#[verifier::external_body]
pub(crate) fn strip_prefix<'a>(s: &'a str, prefix: &str) -> (r: Option<&'a str>)
    ensures
        r is Some <==> prefix@.is_prefix_of(s@),
        r matches Some(rest) ==> rest@ == s@.skip(prefix@.len() as int),
{
    s.strip_prefix(prefix)
}

/// `str::strip_suffix`: what precedes `suffix` in `s`, where `s` ends with it.
#[verifier::external_body]
pub(crate) fn strip_suffix<'a>(s: &'a str, suffix: &str) -> (r: Option<&'a str>)
    ensures
        r is Some <==> is_suffix(suffix@, s@),
        r matches Some(rest) ==> rest@ == s@.take(s@.len() - suffix@.len()),
{
    s.strip_suffix(suffix)
}

/// `slice::sort` on strings: reorders the list by code points, keeping what it holds.
#[verifier::external_body]
pub(crate) fn sort(list: &mut Vec<String>)
    ensures
        is_sorted_copy(texts(final(list)@), texts(old(list)@)),
{
    list.sort();
}

/// The text that std's `Debug` gives a string: in quotes, with escapes.
pub uninterp spec fn debug_text(s: Seq<char>) -> Seq<char>;

/// `format!` with `{:?}` on a string: the text that its `Debug` gives.
#[verifier::external_body]
pub(crate) fn quote(s: &str) -> (r: String)
    ensures
        r@ == debug_text(s@),
{
    format!("{s:?}")
}

/// Whether two strings hold the same characters.
pub(crate) fn same_text(a: &str, b: &str) -> (r: bool)
    ensures
        r == (a@ == b@),
{
    let a_owned: String = a.to_string();
    let b_owned: String = b.to_string();
    a_owned == b_owned
}

/// A copy of a list of strings.
pub(crate) fn clone_texts(list: &Vec<String>) -> (r: Vec<String>)
    ensures
        texts(r@) == texts(list@),
{
    let mut r: Vec<String> = Vec::new();
    for i in 0..list.len()
        invariant
            r@.len() == i,
            forall|j: int| 0 <= j < i ==> (#[trigger] r@[j])@ == list@[j]@,
    {
        r.push(list[i].clone());
    }
    assert(texts(r@) =~= texts(list@));
    r
}

pub proof fn text_order_is_reflexive(a: Seq<char>)
    ensures
        text_le(a, a),
    decreases a.len(),
{
    if a.len() > 0 {
        text_order_is_reflexive(a.drop_first());
    }
}

pub proof fn text_order_is_antisymmetric(a: Seq<char>, b: Seq<char>)
    requires
        text_le(a, b),
        text_le(b, a),
    ensures
        a == b,
    decreases a.len(),
{
    if a.len() == 0 || b.len() == 0 {
        assert(a =~= b);
    } else {
        text_order_is_antisymmetric(a.drop_first(), b.drop_first());
        assert(a =~= seq![a[0]] + a.drop_first());
        assert(b =~= seq![b[0]] + b.drop_first());
    }
}

pub proof fn text_order_is_transitive(a: Seq<char>, b: Seq<char>, c: Seq<char>)
    requires
        text_le(a, b),
        text_le(b, c),
    ensures
        text_le(a, c),
    decreases a.len(),
{
    if a.len() > 0 && b.len() > 0 && c.len() > 0 && a[0] == b[0] && b[0] == c[0] {
        text_order_is_transitive(a.drop_first(), b.drop_first(), c.drop_first());
    }
}

pub proof fn text_order_is_total(a: Seq<char>, b: Seq<char>)
    ensures
        text_le(a, b) || text_le(b, a),
    decreases a.len(),
{
    if a.len() > 0 && b.len() > 0 && a[0] == b[0] {
        text_order_is_total(a.drop_first(), b.drop_first());
    }
}

/// There is one way to sort a list: two sorted copies of lists that hold the same strings,
/// each as often, are the same list.
pub proof fn sorted_copies_are_equal(
    x: Seq<Seq<char>>,
    y: Seq<Seq<char>>,
    a: Seq<Seq<char>>,
    b: Seq<Seq<char>>,
)
    requires
        is_sorted_copy(x, a),
        is_sorted_copy(y, b),
        a.to_multiset() == b.to_multiset(),
    ensures
        x == y,
{
    let leq = |s: Seq<char>, t: Seq<char>| text_le(s, t);
    assert(vstd::relations::reflexive(leq)) by {
        assert forall|s: Seq<char>| #[trigger] leq(s, s) by {
            text_order_is_reflexive(s);
        }
    }
    assert(vstd::relations::antisymmetric(leq)) by {
        assert forall|s: Seq<char>, t: Seq<char>|
            #[trigger] leq(s, t) && #[trigger] leq(t, s) implies s == t by {
            text_order_is_antisymmetric(s, t);
        }
    }
    assert(vstd::relations::transitive(leq)) by {
        assert forall|s: Seq<char>, t: Seq<char>, u: Seq<char>|
            #[trigger] leq(s, t) && #[trigger] leq(t, u) implies leq(s, u) by {
            text_order_is_transitive(s, t, u);
        }
    }
    assert(vstd::relations::strongly_connected(leq)) by {
        assert forall|s: Seq<char>, t: Seq<char>|
            #[trigger] leq(s, t) || #[trigger] leq(t, s) by {
            text_order_is_total(s, t);
        }
    }
    vstd::seq_lib::lemma_sorted_unique(x, y, leq);
}

} // verus!
