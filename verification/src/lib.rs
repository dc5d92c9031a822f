use vstd::prelude::*;

pub mod text;
pub mod ast;
pub mod buckets;
pub mod cluster;
pub mod boilerplate;
pub mod clone_category;
pub mod cluster_filters;
pub mod pair;

verus! {
} // verus!
