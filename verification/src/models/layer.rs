//! The kinds of transformer layers.
use vstd::prelude::*;

use crate::text::same_text;

verus! {

/// The kind of attention that a layer uses.
#[derive(Debug, Clone, Copy, PartialEq, Eq, Hash, Structural)]
pub enum LayerType {
    SlidingAttention,
    FullAttention,
}

impl LayerType {
    /// The name of this kind in configuration files.
    pub open spec fn key(self) -> Seq<char> {
        match self {
            LayerType::SlidingAttention => "sliding_attention"@,
            LayerType::FullAttention => "full_attention"@,
        }
    }

    /// The name of this kind in configuration files.
    pub fn name(self) -> (r: &'static str)
        ensures
            r@ == self.key(),
    {
        match self {
            LayerType::SlidingAttention => "sliding_attention",
            LayerType::FullAttention => "full_attention",
        }
    }

    /// The kind that a configuration file names, or what is wrong with the name.
    pub fn deserialize(s: &str) -> (r: Result<LayerType, String>)
        ensures
            r is Ok <==> exists|t: LayerType| #[trigger] t.key() == s@,
            r matches Ok(t) ==> t.key() == s@,
            r matches Err(text) ==> text@ == "Unsupported Gemma4 layer type '"@ + s@ + "'"@,
    {
        if same_text(s, "sliding_attention") {
            assert(LayerType::SlidingAttention.key() == s@);
            Ok(LayerType::SlidingAttention)
        } else if same_text(s, "full_attention") {
            assert(LayerType::FullAttention.key() == s@);
            Ok(LayerType::FullAttention)
        } else {
            let text: String = "Unsupported Gemma4 layer type '".to_string();
            Err(text.concat(s).concat("'"))
        }
    }
}

/// The two kinds of layers have different names, so a name stands for one kind.
pub proof fn layer_names_are_distinct(a: LayerType, b: LayerType)
    requires
        a.key() == b.key(),
    ensures
        a == b,
{
    reveal_strlit("sliding_attention");
    reveal_strlit("full_attention");
    assert("sliding_attention"@.len() != "full_attention"@.len());
}

} // verus!
