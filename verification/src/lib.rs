use vstd::prelude::*;

pub mod collections;
pub mod diagnostics;
pub mod manifest;
pub mod model;
pub mod order;
pub mod text;

verus! {
} // verus!
