use vstd::prelude::*;

pub mod artifact;
pub mod contour;
pub mod diff;
pub mod gitflic;
pub mod json;
pub mod keyed;
pub mod laws;
pub mod messages;
pub mod order;
pub mod outside;
pub mod runner;
pub mod sync;
pub mod text;

verus! {
} // verus!
