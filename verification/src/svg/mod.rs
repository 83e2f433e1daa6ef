//! SVG generation: design tokens, theme style blocks and element markup.
use vstd::prelude::*;

pub mod elements;
pub mod theme;
pub mod tokens;

verus! {

/// Library version.
pub fn version() -> (v: &'static str)
    ensures
        v@ == "0.2.1"@,
{
    "0.2.1"
}

} // verus!
