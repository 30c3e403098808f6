use vstd::prelude::*;

pub mod constants;
pub mod sha_spec;
pub mod utils;
pub mod chips;
pub mod builder;
pub mod bits_air;
pub mod gadgets;
pub mod columns;
pub mod encoder;
pub mod generation;
pub mod sha256;
pub mod air;
pub mod rng;

verus! {

} // verus!
