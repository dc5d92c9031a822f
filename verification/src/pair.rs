//! The pair stage's output that cluster building consumes.

use vstd::prelude::*;

verus! {

/// One admitted edge between two fingerprints of a component.
#[derive(Clone, Copy, Debug, PartialEq, Eq, Structural)]
pub struct FusedEdge {
    /// Index of one end in the flat corpus.
    pub left: usize,
    /// Index of the other end in the flat corpus.
    pub right: usize,
}

/// One transitive-closure component of admitted pairs.
#[derive(Debug)]
pub struct FusedCluster {
    /// Corpus indices of the component's fingerprints.
    pub members: Vec<usize>,
    /// The admitted edges that connect them.
    pub edges: Vec<FusedEdge>,
    /// The shape family the component was admitted out of.
    pub shape_family: Option<usize>,
}

} // verus!
