//! Settings of the rotary position embedding.
use vstd::prelude::*;

use crate::graph::F32;
use crate::text::same_text;

verus! {

/// A setting: a number, or a text together with the number that it reads as.
#[derive(Debug)]
pub enum FloatOrString {
    Float(F32),
    String { text: String, parsed: Option<F32> },
}

/// What a [`FloatOrString`] holds.
pub enum RopeValue {
    Float(F32),
    Text { text: Seq<char>, parsed: Option<F32> },
}

impl RopeValue {
    /// The number that the setting gives.
    pub open spec fn number(self) -> Option<F32> {
        match self {
            RopeValue::Float(x) => Some(x),
            RopeValue::Text { parsed, .. } => parsed,
        }
    }
}

impl View for FloatOrString {
    type V = RopeValue;

    open spec fn view(&self) -> RopeValue {
        match *self {
            FloatOrString::Float(x) => RopeValue::Float(x),
            FloatOrString::String { text, parsed } => RopeValue::Text { text: text@, parsed },
        }
    }
}

impl FloatOrString {
    /// The number that the setting gives.
    pub fn number(&self) -> (r: Option<F32>)
        ensures
            r == self@.number(),
    {
        match self {
            FloatOrString::Float(x) => Some(*x),
            FloatOrString::String { parsed, .. } => *parsed,
        }
    }
}

/// What can be copied without a change to what it holds.
pub trait Copied: View + Sized {
    fn copied(&self) -> (r: Self)
        ensures
            r@ == self@,
    ;
}

impl Copied for FloatOrString {
    fn copied(&self) -> (r: Self) {
        match self {
            FloatOrString::Float(x) => FloatOrString::Float(*x),
            FloatOrString::String { text, parsed } => FloatOrString::String {
                text: text.clone(),
                parsed: *parsed,
            },
        }
    }
}

impl Clone for FloatOrString {
    fn clone(&self) -> (r: Self)
        ensures
            r@ == self@,
    {
        self.copied()
    }
}

/// Values by name.
#[derive(Debug)]
pub struct Named<T> {
    entries: Vec<(String, T)>,
}

/// Later entries take the place of earlier ones.
pub closed spec fn by_name<T: View>(entries: Seq<(String, T)>) -> Map<Seq<char>, T::V>
    decreases entries.len(),
{
    if entries.len() == 0 {
        Map::empty()
    } else {
        by_name(entries.drop_last()).insert(entries.last().0@, entries.last().1@)
    }
}

impl<T: View> View for Named<T> {
    type V = Map<Seq<char>, T::V>;

    closed spec fn view(&self) -> Map<Seq<char>, T::V> {
        by_name(self.entries@)
    }
}

impl<T: View> Named<T> {
    /// No values.
    pub fn new() -> (r: Self)
        ensures
            r@ == Map::<Seq<char>, T::V>::empty(),
    {
        Named { entries: Vec::new() }
    }

    /// Gives `name` the value `value`.
    pub fn insert(&mut self, name: String, value: T)
        ensures
            final(self)@ == old(self)@.insert(name@, value@),
    {
        self.entries.push((name, value));
        assert(self.entries@.drop_last() =~= old(self).entries@);
    }

    /// The value of `name`.
    pub fn get(&self, name: &str) -> (r: Option<&T>)
        ensures
            r is Some <==> self@.contains_key(name@),
            r matches Some(value) ==> value@ == self@[name@],
    {
        let mut n: usize = self.entries.len();
        assert(self.entries@.take(n as int) =~= self.entries@);
        while n > 0
            invariant
                n <= self.entries@.len(),
                self@.contains_key(name@) == by_name(self.entries@.take(n as int)).contains_key(
                    name@,
                ),
                self@.contains_key(name@) ==> self@[name@] == by_name(
                    self.entries@.take(n as int),
                )[name@],
            decreases n,
        {
            assert(self.entries@.take(n as int).drop_last() =~= self.entries@.take(n - 1));
            n = n - 1;
            if same_text(self.entries[n].0.as_str(), name) {
                return Some(&self.entries[n].1);
            }
        }
        None
    }
}

impl<T: Copied> Copied for Named<T> {
    fn copied(&self) -> (r: Self) {
        let mut r = Named::new();
        assert(self.entries@.take(0) =~= Seq::empty());
        for i in 0..self.entries.len()
            invariant
                r@ == by_name(self.entries@.take(i as int)),
        {
            assert(self.entries@.take(i + 1).drop_last() =~= self.entries@.take(i as int));
            r.insert(self.entries[i].0.clone(), self.entries[i].1.copied());
        }
        assert(self.entries@.take(self.entries@.len() as int) =~= self.entries@);
        r
    }
}

impl<T: Copied> Clone for Named<T> {
    fn clone(&self) -> (r: Self)
        ensures
            r@ == self@,
    {
        self.copied()
    }
}

/// The settings of one kind of layer, by name.
pub type RopeScaling = Named<FloatOrString>;

/// The settings of each kind of layer, by the name of the kind.
pub type RopeParameters = Named<RopeScaling>;

/// The settings of optional tables.
pub open spec fn scaling_view(s: Option<RopeScaling>) -> Option<Map<Seq<char>, RopeValue>> {
    match s {
        Some(s) => Some(s@),
        None => None,
    }
}

pub open spec fn parameters_view(p: Option<RopeParameters>) -> Option<
    Map<Seq<char>, Map<Seq<char>, RopeValue>>,
> {
    match p {
        Some(p) => Some(p@),
        None => None,
    }
}

pub(crate) fn clone_scaling(s: &Option<RopeScaling>) -> (r: Option<RopeScaling>)
    ensures
        scaling_view(r) == scaling_view(*s),
{
    match s {
        Some(s) => Some(s.clone()),
        None => None,
    }
}

pub(crate) fn clone_parameters(p: &Option<RopeParameters>) -> (r: Option<RopeParameters>)
    ensures
        parameters_view(r) == parameters_view(*p),
{
    match p {
        Some(p) => Some(p.clone()),
        None => None,
    }
}

/// How many of a head's dimensions are rotated.
#[derive(Debug, Clone, Copy, PartialEq, Eq)]
pub enum RotaryDims {
    /// All of them.
    All { head_dim: i32 },
    /// `head_dim as f32 * factor`, rounded, and then held to what [`RotaryDims::resolve`] allows.
    Scaled { head_dim: i32, factor: F32 },
}

/// The bit pattern of `1.0`.
pub const ONE_BITS: u32 = 0x3f80_0000;

/// The settings make every dimension rotate.
pub open spec fn is_proportional(scaling: Option<Map<Seq<char>, RopeValue>>) -> bool {
    scaling matches Some(table) && table.contains_key("rope_type"@) && (table["rope_type"@] matches
    RopeValue::Text { text, .. } && text == "proportional"@)
}

/// The share of dimensions that the settings make rotate.
pub open spec fn partial_factor(scaling: Option<Map<Seq<char>, RopeValue>>) -> F32 {
    match scaling {
        Some(table) if table.contains_key("partial_rotary_factor"@)
            && table["partial_rotary_factor"@].number() is Some => table["partial_rotary_factor"@].number()->0,
        _ => F32 { bits: ONE_BITS },
    }
}

pub open spec fn rotary_dims(head_dim: i32, scaling: Option<Map<Seq<char>, RopeValue>>) -> RotaryDims {
    if is_proportional(scaling) {
        RotaryDims::All { head_dim }
    } else {
        RotaryDims::Scaled { head_dim, factor: partial_factor(scaling) }
    }
}

/// How many of the `head_dim` dimensions of a head the settings make rotate.
pub fn partial_rotary_dims(head_dim: i32, scaling: &Option<RopeScaling>) -> (r: RotaryDims)
    ensures
        r == rotary_dims(head_dim, scaling_view(*scaling)),
{
    match scaling {
        Some(table) => {
            match table.get("rope_type") {
                Some(FloatOrString::String { text, .. }) => {
                    if same_text(text.as_str(), "proportional") {
                        return RotaryDims::All { head_dim };
                    }
                },
                _ => {},
            }
            let factor = match table.get("partial_rotary_factor") {
                Some(value) => match value.number() {
                    Some(x) => x,
                    None => F32 { bits: ONE_BITS },
                },
                None => F32 { bits: ONE_BITS },
            };
            RotaryDims::Scaled { head_dim, factor }
        },
        None => RotaryDims::Scaled { head_dim, factor: F32 { bits: ONE_BITS } },
    }
}

impl RotaryDims {
    /// There are dimensions to choose from: two at least where not all of them rotate anyway.
    pub open spec fn is_valid(self) -> bool {
        self matches RotaryDims::Scaled { head_dim, .. } ==> head_dim >= 2
    }

    /// Whether there are dimensions to choose from.
    pub fn can_resolve(self) -> (r: bool)
        ensures
            r == self.is_valid(),
    {
        match self {
            RotaryDims::All { .. } => true,
            RotaryDims::Scaled { head_dim, .. } => head_dim >= 2,
        }
    }

    /// The number of dimensions, given the rounded product of a scaled one.
    pub open spec fn resolved(self, rounded: i32) -> i32 {
        match self {
            RotaryDims::All { head_dim } => head_dim,
            RotaryDims::Scaled { head_dim, .. } => if rounded < 2 {
                2
            } else if rounded > head_dim {
                head_dim
            } else {
                rounded
            },
        }
    }

    /// The number of dimensions that rotate: all, or `rounded` held between two and all, where
    /// `rounded` is `(head_dim as f32 * factor).round() as i32`.
    pub fn resolve(self, rounded: i32) -> (r: i32)
        requires
            self.is_valid(),
        ensures
            r == self.resolved(rounded),
    {
        match self {
            RotaryDims::All { head_dim } => head_dim,
            RotaryDims::Scaled { head_dim, .. } => {
                if rounded < 2 {
                    2
                } else if rounded > head_dim {
                    head_dim
                } else {
                    rounded
                }
            },
        }
    }
}

} // verus!
