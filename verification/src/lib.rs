use vstd::prelude::*;

verus! {

pub mod bytes;
pub mod digest;
pub mod format;
pub mod builder;
pub mod parse;
pub mod paths;
pub mod pipeline;
pub mod laws;

} // verus!
