//! The routing tail for shape-identical clusters, shared by the renderer
//! and cross-cluster subsumption so the elected view and the rendered
//! label cannot drift apart.

use vstd::prelude::*;

use crate::ast::{fingerprints_view, FileId, Fingerprint, FingerprintView};
use super::gate::{has_saturating_shape_evidence, spec_saturating, ContentReadings, SignalReadings};
use super::ClusterKind;

verus! {

/// The members reach at least two files.
pub open spec fn spec_spans_multiple_files(members: Seq<FingerprintView>) -> bool {
    members.len() > 0 && exists|i: int| 0 <= i < members.len() && #[trigger] members[i].file_id != members[0].file_id
}

/// Whether a cluster's occurrences reach at least two files: the spread
/// that separates a duplicated copy from an in-file sibling family.
pub fn spans_multiple_files(members: &[Fingerprint]) -> (spans: bool)
    ensures
        spans == spec_spans_multiple_files(fingerprints_view(members@)),
{
    let ghost mv = fingerprints_view(members@);
    assert(mv.len() == members@.len());
    if members.len() == 0 {
        return false;
    }
    let first = members[0].file_id;
    assert(mv[0] == members@[0]@);
    let mut index: usize = 0;
    while index < members.len()
        invariant
            index <= members@.len(),
            mv == fingerprints_view(members@),
            mv.len() == members@.len(),
            mv.len() > 0,
            first == mv[0].file_id,
            forall|j: int| 0 <= j < index ==> (#[trigger] mv[j]).file_id == first,
        decreases members@.len() - index,
    {
        assert(mv[index as int] == members@[index as int]@);
        if members[index].file_id.0 != first.0 {
            assert(mv[index as int].file_id != mv[0].file_id);
            return true;
        }
        index = index + 1;
    }
    false
}

/// The distinct files of the first `k` members, in order of first appearance.
pub open spec fn spec_distinct_files(members: Seq<FingerprintView>, k: int) -> Seq<FileId>
    decreases k,
{
    if k <= 0 {
        seq![]
    } else {
        let prev = spec_distinct_files(members, k - 1);
        if prev.contains(members[k - 1].file_id) { prev } else { prev.push(members[k - 1].file_id) }
    }
}

/// At least three members over at least three distinct files: the
/// cross-test-file scaffolding spread. Smaller spreads are kept apart so
/// two-occurrence pairs survive.
pub open spec fn spec_is_cross_file_scaffolding(members: Seq<FingerprintView>) -> bool {
    members.len() >= 3 && spec_distinct_files(members, members.len() as int).len() >= 3
}

/// Whether a cluster spans enough distinct files to mirror the
/// cross-test-file scaffolding pattern.
pub fn is_cross_file_scaffolding(members: &[Fingerprint]) -> (scaffolding: bool)
    ensures
        scaffolding == spec_is_cross_file_scaffolding(fingerprints_view(members@)),
{
    let ghost mv = fingerprints_view(members@);
    assert(mv.len() == members@.len());
    if members.len() < 3 {
        return false;
    }
    let mut files: Vec<FileId> = Vec::new();
    let mut index: usize = 0;
    while index < members.len()
        invariant
            index <= members@.len(),
            mv == fingerprints_view(members@),
            mv.len() == members@.len(),
            files@ == spec_distinct_files(mv, index as int),
        decreases members@.len() - index,
    {
        let file = members[index].file_id;
        assert(mv[index as int] == members@[index as int]@);
        let mut seen = false;
        let mut j: usize = 0;
        while j < files.len()
            invariant
                j <= files@.len(),
                seen == exists|x: int| 0 <= x < j && files@[x] == file,
            decreases files@.len() - j,
        {
            if files[j].0 == file.0 {
                seen = true;
            }
            j = j + 1;
        }
        if !seen {
            files.push(file);
        }
        index = index + 1;
    }
    files.len() >= 3
}

/// Token-carried clusters whose shared-subtree overlap stays below the
/// corroboration floor: nothing but a token estimate backs them.
pub open spec fn spec_anchor_free(signals: SignalReadings) -> bool {
    signals.token_carried_nearmiss && signals.below_shared_subtree_overlap
}

/// Whether a cluster is carried by a token estimate alone.
pub fn is_anchor_free_token_cluster(signals: SignalReadings) -> (anchor_free: bool)
    ensures
        anchor_free == spec_anchor_free(signals),
{
    signals.token_carried_nearmiss && signals.below_shared_subtree_overlap
}

/// The demotion of an anchor-free near-miss that is a cross-file spread or
/// that the content pass could not measure: a hidden hint, never a shape
/// claim the structural grade says does not exist.
pub open spec fn spec_route_anchor_free(signals: SignalReadings, content: ContentReadings, members: Seq<FingerprintView>) -> Option<ClusterKind> {
    if spec_anchor_free(signals) && (!content.measured || spec_is_cross_file_scaffolding(members)) {
        Some(ClusterKind::LooselySimilar)
    } else {
        None
    }
}

/// The anchor-free near-miss demotion, or none to leave routing alone.
pub fn route_anchor_free(signals: SignalReadings, content: ContentReadings, members: &[Fingerprint]) -> (demoted: Option<ClusterKind>)
    ensures
        demoted == spec_route_anchor_free(signals, content, fingerprints_view(members@)),
{
    let unearned = !content.measured || is_cross_file_scaffolding(members);
    if is_anchor_free_token_cluster(signals) && unearned {
        Some(ClusterKind::LooselySimilar)
    } else {
        None
    }
}

/// The routing tail for shape-identical clusters: the measured content
/// decides in both directions.
pub open spec fn spec_route_shape_identical(
    kind: ClusterKind,
    signals: SignalReadings,
    content: ContentReadings,
    members: Seq<FingerprintView>,
) -> ClusterKind {
    if kind != ClusterKind::NearlyIdentical && kind != ClusterKind::StructuralOnly {
        kind
    } else if spec_route_anchor_free(signals, content, members).is_some() {
        spec_route_anchor_free(signals, content, members).unwrap()
    } else if !spec_saturating(signals) {
        kind
    } else if signals.embedding_backed {
        kind
    } else if (if spec_spans_multiple_files(members) { content.clears_support_floor } else { content.clears_promote_floor }) {
        ClusterKind::NearlyIdentical
    } else if spec_is_cross_file_scaffolding(members) && content.below_literal_table_fraction {
        ClusterKind::LooselySimilar
    } else {
        ClusterKind::StructuralOnly
    }
}

/// The routing tail for shape-identical clusters. The anchor-free near-miss
/// is decided first; then, for saturated shapes without semantic backing,
/// content support at the floor for the cluster's spread proves the clone,
/// a cross-file scaffolding spread that is not a data literal is a hint,
/// and anything else is shape only.
pub fn route_shape_identical(
    kind: ClusterKind,
    signals: SignalReadings,
    content: ContentReadings,
    members: &[Fingerprint],
) -> (routed: ClusterKind)
    ensures
        routed == spec_route_shape_identical(kind, signals, content, fingerprints_view(members@)),
{
    if !(kind == ClusterKind::NearlyIdentical || kind == ClusterKind::StructuralOnly) {
        return kind;
    }
    match route_anchor_free(signals, content, members) {
        Some(demoted) => return demoted,
        None => {},
    }
    if !has_saturating_shape_evidence(signals) {
        return kind;
    }
    if signals.embedding_backed {
        return kind;
    }
    let promotes = if spans_multiple_files(members) { content.clears_support_floor } else { content.clears_promote_floor };
    if promotes {
        return ClusterKind::NearlyIdentical;
    }
    if is_cross_file_scaffolding(members) && content.below_literal_table_fraction {
        return ClusterKind::LooselySimilar;
    }
    ClusterKind::StructuralOnly
}

/// The kind a cluster's measured evidence earns on its own: without a
/// byte-equivalence proof an exact match is a candidate, not a proven
/// copy, so `Identical` is routed as `NearlyIdentical`.
pub fn measured_kind(
    classified: ClusterKind,
    signals: SignalReadings,
    content: ContentReadings,
    members: &[Fingerprint],
) -> (kind: ClusterKind)
    ensures
        kind == spec_route_shape_identical(
            if classified == ClusterKind::Identical { ClusterKind::NearlyIdentical } else { classified },
            signals,
            content,
            fingerprints_view(members@),
        ),
{
    let kind = if classified == ClusterKind::Identical { ClusterKind::NearlyIdentical } else { classified };
    route_shape_identical(kind, signals, content, members)
}

/// The routing tail never promotes a kind outside the shape-identical pair
/// and never claims a byte-proven copy.
pub proof fn lemma_routing_never_proves_identity(
    kind: ClusterKind,
    signals: SignalReadings,
    content: ContentReadings,
    members: Seq<FingerprintView>,
)
    ensures
        kind != ClusterKind::NearlyIdentical && kind != ClusterKind::StructuralOnly ==>
            spec_route_shape_identical(kind, signals, content, members) == kind,
        kind != ClusterKind::Identical ==> spec_route_shape_identical(kind, signals, content, members) != ClusterKind::Identical,
{
}

/// Shape-identical evidence promotes to `NearlyIdentical` only on content
/// that clears the floor the cluster's spread asks for: an in-file sibling
/// family must clear the single-file promote floor, a cluster reaching two
/// files the cross-file support floor. Clearing it, with saturating shape
/// signals and no embedding or anchor-free route, does promote.
pub proof fn lemma_promotion_needs_the_floor_of_its_spread(
    kind: ClusterKind,
    signals: SignalReadings,
    content: ContentReadings,
    members: Seq<FingerprintView>,
)
    ensures
        (forall|i: int| 0 <= i < members.len() ==> (#[trigger] members[i]).file_id == members[0].file_id)
            && spec_saturating(signals) && !signals.embedding_backed && !content.clears_promote_floor
            ==> spec_route_shape_identical(kind, signals, content, members) != ClusterKind::NearlyIdentical,
        (exists|i: int, j: int| 0 <= i < members.len() && 0 <= j < members.len()
            && (#[trigger] members[i]).file_id != (#[trigger] members[j]).file_id)
            && spec_saturating(signals) && !signals.embedding_backed && !content.clears_support_floor
            ==> spec_route_shape_identical(kind, signals, content, members) != ClusterKind::NearlyIdentical,
        (kind == ClusterKind::NearlyIdentical || kind == ClusterKind::StructuralOnly)
            && (forall|i: int| 0 <= i < members.len() ==> (#[trigger] members[i]).file_id == members[0].file_id)
            && spec_saturating(signals) && !signals.embedding_backed && !spec_anchor_free(signals)
            && content.clears_promote_floor
            ==> spec_route_shape_identical(kind, signals, content, members) == ClusterKind::NearlyIdentical,
        (kind == ClusterKind::NearlyIdentical || kind == ClusterKind::StructuralOnly)
            && (exists|i: int, j: int| 0 <= i < members.len() && 0 <= j < members.len()
                && (#[trigger] members[i]).file_id != (#[trigger] members[j]).file_id)
            && spec_saturating(signals) && !signals.embedding_backed && !spec_anchor_free(signals)
            && content.clears_support_floor
            ==> spec_route_shape_identical(kind, signals, content, members) == ClusterKind::NearlyIdentical,
{
    if exists|i: int, j: int| 0 <= i < members.len() && 0 <= j < members.len()
        && (#[trigger] members[i]).file_id != (#[trigger] members[j]).file_id {
        let (i, j) = choose|i: int, j: int| 0 <= i < members.len() && 0 <= j < members.len()
            && (#[trigger] members[i]).file_id != (#[trigger] members[j]).file_id;
        if members[i].file_id != members[0].file_id {
            assert(spec_spans_multiple_files(members));
        } else {
            assert(members[j].file_id != members[0].file_id);
            assert(spec_spans_multiple_files(members));
        }
    }
}

} // verus!
