//! Graph-structural part of the flowchart layout.
use vstd::prelude::*;

pub mod flowchart;
pub mod layering;
pub mod meeting;

verus! {

/// Library version.
pub fn version() -> (v: &'static str)
    ensures
        v@ == "0.2.1"@,
{
    "0.2.1"
}

} // verus!
