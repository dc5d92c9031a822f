//! The content gate: measured content evidence decides what a saturated
//! shape match is worth.
//!
//! `structural` and `token_jaccard` are two views of one normalised
//! representation, so once the shape saturates they echo each other and
//! say nothing about what the code said. The score comparisons against
//! the named floors are taken by the caller, which holds the real-valued
//! scores; this module decides what the readings mean together.

use vstd::prelude::*;

use super::ClusterKind;

verus! {

/// The threshold readings taken off one rendered signal triple.
#[derive(Clone, Copy, Debug, PartialEq, Eq, Structural)]
pub struct SignalReadings {
    /// The structural grade is at the saturation floor: the members align
    /// node for node.
    pub structural_saturated: bool,
    /// The token overlap is at the floor where it echoes shape.
    pub token_saturating: bool,
    /// The token-carried near-miss route holds.
    pub token_carried_nearmiss: bool,
    /// The shape-corroborated near-miss route holds.
    pub shape_corroborated_nearmiss: bool,
    /// The structural grade is below the shared-subtree corroboration floor.
    pub below_shared_subtree_overlap: bool,
    /// The embedding cosine vouches for the cluster.
    pub embedding_backed: bool,
}

/// The threshold readings taken off one cluster's measured content evidence.
#[derive(Clone, Copy, Debug, PartialEq, Eq, Structural)]
pub struct ContentReadings {
    /// The content pass compared at least two members.
    pub measured: bool,
    /// Support (the stronger of agreement and rename consistency) is at the
    /// cross-file promotion floor.
    pub clears_support_floor: bool,
    /// Support is at the single-file promotion floor.
    pub clears_promote_floor: bool,
    /// The literal fraction is below the data-literal floor.
    pub below_literal_table_fraction: bool,
}

/// Deterministic signals that saturate by construction: an exact Merkle
/// match, or a near-total kind-stream overlap.
pub open spec fn spec_saturating(signals: SignalReadings) -> bool {
    signals.structural_saturated || signals.token_saturating
}

/// Whether a cluster's deterministic signals are shape echoes that
/// saturate by construction. The near-miss routes are not included: their
/// members do not align position for position.
pub fn has_saturating_shape_evidence(signals: SignalReadings) -> (saturating: bool)
    ensures
        saturating == spec_saturating(signals),
{
    signals.structural_saturated || signals.token_saturating
}

/// The shape evidence saturates while the measured content stays below
/// the support floor, so nothing the code said vouches for the match. A
/// near-miss route whose shape is not saturated is excluded: its
/// populations cannot vouch for a renamed copy across misaligned shapes.
pub open spec fn spec_lacks_content_support(signals: SignalReadings, content: ContentReadings) -> bool {
    let misaligned = !signals.structural_saturated
        && (signals.token_carried_nearmiss || signals.shape_corroborated_nearmiss);
    spec_saturating(signals) && !misaligned && !content.clears_support_floor
}

/// Whether a rendered signal triple lacks content support.
pub fn lacks_content_support(signals: SignalReadings, content: ContentReadings) -> (lacks: bool)
    ensures
        lacks == spec_lacks_content_support(signals, content),
{
    let misaligned_nearmiss = !signals.structural_saturated
        && (signals.token_carried_nearmiss || signals.shape_corroborated_nearmiss);
    has_saturating_shape_evidence(signals) && !misaligned_nearmiss && !content.clears_support_floor
}

/// Whether the render transform corrects the token axis of a cluster to
/// full overlap: a nearly identical cluster with saturating shape evidence
/// whose members all carry one normalised-subtree digest, so their kind
/// streams are equal by construction.
pub open spec fn spec_corrects_token_echo(kind: ClusterKind, signals: SignalReadings, members_share_one_digest: bool) -> bool {
    kind != ClusterKind::Identical && spec_saturating(signals) && kind == ClusterKind::NearlyIdentical
        && members_share_one_digest
}

/// The token-echo correction on its own: only a nearly identical cluster
/// whose members share one digest.
pub fn correct_token_echo(kind: ClusterKind, members_share_one_digest: bool) -> (corrects: bool)
    ensures
        corrects == (kind == ClusterKind::NearlyIdentical && members_share_one_digest),
{
    kind == ClusterKind::NearlyIdentical && members_share_one_digest
}

/// The content gate's decision for a rendered signal triple: whether the
/// token axis is corrected to full overlap. An identical cluster, or one
/// without saturating shape evidence, keeps its triple; otherwise the
/// token-echo correction applies. The caller, which holds the real-valued
/// scores, stamps the measured content evidence and the shape reading on
/// every path and raises the token axis where this answers `true`.
pub fn content_gated_signals(signals: SignalReadings, kind: ClusterKind, members_share_one_digest: bool) -> (corrects: bool)
    ensures
        corrects == spec_corrects_token_echo(kind, signals, members_share_one_digest),
{
    if kind == ClusterKind::Identical || !has_saturating_shape_evidence(signals) {
        return false;
    }
    correct_token_echo(kind, members_share_one_digest)
}

} // verus!
