//! Compilation of pattern snippets into patterns: unescaping, metavariable
//! templates, and the decision between structural and textual readings.
use vstd::prelude::*;

pub mod dynamic;
pub mod registry;
pub mod resolve;
pub mod snippet;
pub mod text;

verus! {

} // verus!
