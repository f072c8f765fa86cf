use vstd::prelude::*;

pub mod coord;
pub mod unique_vec;
pub mod checkpoints;
pub mod tour;
pub mod soundness;
pub mod laws;
pub mod opts;
pub mod render;

verus! {

} // verus!
