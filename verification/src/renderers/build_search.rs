//! The CJK bigram search index builder, as a renderer.
use vstd::prelude::*;

verus! {

/// The renderer.
pub struct BuildSearchRenderer;

impl BuildSearchRenderer {
    /// The name mdbook knows the renderer by.
    pub fn name(&self) -> (r: &'static str)
        ensures
            r@ == "build-search"@,
    {
        "build-search"
    }
}

} // verus!
