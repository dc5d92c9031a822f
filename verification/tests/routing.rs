use deslop_core::ast::{ByteRange, FileId, Fingerprint};
use deslop_core::buckets::gate::{
    content_gated_signals, has_saturating_shape_evidence, lacks_content_support, ContentReadings, SignalReadings,
};
use deslop_core::buckets::routing::{
    is_cross_file_scaffolding, measured_kind, route_anchor_free, route_shape_identical, spans_multiple_files,
};
use deslop_core::buckets::{is_demoted_tier, ClusterKind};

fn member(file: u32) -> Fingerprint {
    Fingerprint { hash: [1; 32], file_id: FileId(file), byte_range: ByteRange { start: 0, end: 10 }, node_count: 5 }
}

fn saturated() -> SignalReadings {
    SignalReadings {
        structural_saturated: true,
        token_saturating: true,
        token_carried_nearmiss: false,
        shape_corroborated_nearmiss: false,
        below_shared_subtree_overlap: false,
        embedding_backed: false,
    }
}

fn content(support: bool, promote: bool, below_literal: bool) -> ContentReadings {
    ContentReadings {
        measured: true,
        clears_support_floor: support,
        clears_promote_floor: promote,
        below_literal_table_fraction: below_literal,
    }
}

#[test]
fn a_cluster_spread_over_files_is_told_from_an_in_file_family() {
    assert!(spans_multiple_files(&[member(0), member(1)]));
    assert!(!spans_multiple_files(&[member(0), member(0)]));
    assert!(!spans_multiple_files(&[]));
    assert!(is_cross_file_scaffolding(&[member(0), member(1), member(2)]));
    assert!(!is_cross_file_scaffolding(&[member(0), member(1), member(1)]));
    assert!(!is_cross_file_scaffolding(&[member(0), member(1)]));
}

#[test]
fn saturated_shape_with_content_support_is_a_clone_and_without_it_is_shape_only() {
    let members = [member(0), member(1)];
    assert_eq!(
        route_shape_identical(ClusterKind::NearlyIdentical, saturated(), content(true, true, true), &members),
        ClusterKind::NearlyIdentical
    );
    assert_eq!(
        route_shape_identical(ClusterKind::NearlyIdentical, saturated(), content(false, true, true), &members),
        ClusterKind::StructuralOnly
    );
    // One file reads the single-file promotion floor instead.
    let in_file = [member(0), member(0)];
    assert_eq!(
        route_shape_identical(ClusterKind::StructuralOnly, saturated(), content(false, true, true), &in_file),
        ClusterKind::NearlyIdentical
    );
}

#[test]
fn a_cross_file_scaffolding_spread_without_support_is_a_hint() {
    let members = [member(0), member(1), member(2)];
    assert_eq!(
        route_shape_identical(ClusterKind::NearlyIdentical, saturated(), content(false, false, true), &members),
        ClusterKind::LooselySimilar
    );
    assert_eq!(
        route_shape_identical(ClusterKind::NearlyIdentical, saturated(), content(false, false, false), &members),
        ClusterKind::StructuralOnly
    );
}

#[test]
fn an_anchor_free_token_cluster_is_demoted_when_unmeasured() {
    let signals = SignalReadings {
        structural_saturated: false,
        token_saturating: false,
        token_carried_nearmiss: true,
        shape_corroborated_nearmiss: false,
        below_shared_subtree_overlap: true,
        embedding_backed: false,
    };
    let unmeasured = ContentReadings { measured: false, ..content(true, true, true) };
    let members = [member(0), member(1)];
    assert_eq!(route_anchor_free(signals, unmeasured, &members), Some(ClusterKind::LooselySimilar));
    assert_eq!(route_anchor_free(signals, content(true, true, true), &members), None);
    assert_eq!(
        route_shape_identical(ClusterKind::NearlyIdentical, signals, unmeasured, &members),
        ClusterKind::LooselySimilar
    );
}

#[test]
fn other_kinds_and_semantic_backing_pass_through() {
    let members = [member(0), member(1)];
    assert_eq!(
        route_shape_identical(ClusterKind::SameBehavior, saturated(), content(false, false, false), &members),
        ClusterKind::SameBehavior
    );
    let backed = SignalReadings { embedding_backed: true, ..saturated() };
    assert_eq!(
        route_shape_identical(ClusterKind::NearlyIdentical, backed, content(false, false, false), &members),
        ClusterKind::NearlyIdentical
    );
}

#[test]
fn an_unproven_identical_is_routed_as_a_near_miss() {
    let members = [member(0), member(1)];
    assert_eq!(
        measured_kind(ClusterKind::Identical, saturated(), content(true, true, true), &members),
        ClusterKind::NearlyIdentical
    );
    assert_eq!(
        measured_kind(ClusterKind::Identical, saturated(), content(false, false, false), &members),
        ClusterKind::StructuralOnly
    );
}

#[test]
fn the_content_gate_reads_saturation_and_support() {
    assert!(has_saturating_shape_evidence(saturated()));
    assert!(lacks_content_support(saturated(), content(false, true, true)));
    assert!(!lacks_content_support(saturated(), content(true, true, true)));
    let misaligned = SignalReadings { structural_saturated: false, token_carried_nearmiss: true, ..saturated() };
    assert!(!lacks_content_support(misaligned, content(false, false, false)));
    assert!(content_gated_signals(saturated(), ClusterKind::NearlyIdentical, true));
    assert!(!content_gated_signals(saturated(), ClusterKind::NearlyIdentical, false));
    assert!(!content_gated_signals(saturated(), ClusterKind::Identical, true));
    let unsaturated = SignalReadings { structural_saturated: false, token_saturating: false, ..saturated() };
    assert!(!content_gated_signals(unsaturated, ClusterKind::NearlyIdentical, true));
}

#[test]
fn the_demoted_tier_is_structural_only_and_loosely_similar() {
    assert!(is_demoted_tier(ClusterKind::StructuralOnly));
    assert!(is_demoted_tier(ClusterKind::LooselySimilar));
    assert!(!is_demoted_tier(ClusterKind::NearlyIdentical));
}
