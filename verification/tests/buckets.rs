use deslop_core::buckets::grouping::group_members;
use deslop_core::buckets::{ClusterKind, PairClassification};

#[test]
fn every_kind_is_listed_once_strongest_first() {
    let kinds = ClusterKind::all();
    for pair in kinds.windows(2) {
        let [stronger, weaker] = pair else {
            continue;
        };
        assert!(
            stronger.strength() > weaker.strength(),
            "{stronger:?} must list before {weaker:?}"
        );
    }
}

#[test]
fn the_fold_keeps_the_weaker_kind_whichever_side_it_is_on() {
    assert_eq!(
        ClusterKind::Identical.weaker(ClusterKind::NearlyIdentical),
        ClusterKind::NearlyIdentical
    );
    assert_eq!(
        ClusterKind::NearlyIdentical.weaker(ClusterKind::Identical),
        ClusterKind::NearlyIdentical
    );
    assert_eq!(
        ClusterKind::SameBehavior.weaker(ClusterKind::StructuralOnly),
        ClusterKind::StructuralOnly
    );
    assert_eq!(
        ClusterKind::StructuralOnly.weaker(ClusterKind::LooselySimilar),
        ClusterKind::StructuralOnly
    );
    assert_eq!(
        ClusterKind::Identical.weaker(ClusterKind::Identical),
        ClusterKind::Identical
    );
}

#[test]
fn a_rejected_pair_has_no_clone_kind() {
    assert_eq!(ClusterKind::from_pair(None), None);
    assert_eq!(
        ClusterKind::from_pair(Some(PairClassification::Identical)),
        Some(ClusterKind::Identical)
    );
    assert_eq!(
        ClusterKind::from_pair(Some(PairClassification::StructuralOnly)),
        Some(ClusterKind::StructuralOnly)
    );
}

#[test]
fn wire_labels_match_the_serde_spelling_and_titles_carry_no_advice() {
    let expected = [
        "identical",
        "nearly_identical",
        "same_behavior",
        "loosely_similar",
        "structural_only",
    ];
    for (kind, wire) in ClusterKind::all().into_iter().zip(expected) {
        assert_eq!(kind.wire_label(), wire);
        let labels = kind.labels();
        assert!(!labels.title.contains("merge") && !labels.title.contains("safe"));
        assert!(!labels.title.contains("Type-"));
        assert!(!labels.css_suffix.contains('_'));
    }
}

#[test]
fn severities_follow_the_kind() {
    assert_eq!(ClusterKind::Identical.default_diagnostic_severity(), "warning");
    assert_eq!(ClusterKind::NearlyIdentical.default_diagnostic_severity(), "warning");
    assert_eq!(ClusterKind::SameBehavior.default_diagnostic_severity(), "information");
    assert_eq!(ClusterKind::LooselySimilar.default_diagnostic_severity(), "information");
    assert_eq!(ClusterKind::StructuralOnly.default_diagnostic_severity(), "none");
    assert!(!ClusterKind::StructuralOnly.is_clone());
    assert!(ClusterKind::LooselySimilar.is_clone());
    assert!(deslop_core::buckets::is_demoted_tier(ClusterKind::LooselySimilar));
    assert!(!deslop_core::buckets::is_demoted_tier(ClusterKind::SameBehavior));
}

const EXPECTED_MIXED_GROUPS: usize = 2;

#[test]
fn unrelated_reference_does_not_hide_the_copied_subset() {
    let groups = group_members(&[0, 1, 2], |left, right| {
        Some(if left == 0 || right == 0 {
            ClusterKind::StructuralOnly
        } else {
            ClusterKind::NearlyIdentical
        })
    });
    assert!(groups.contains(&(vec![1, 2], ClusterKind::NearlyIdentical)));
    assert!(groups.contains(&(vec![0, 1, 2], ClusterKind::StructuralOnly)));
    assert_eq!(
        groups.len(),
        EXPECTED_MIXED_GROUPS,
        "one complete informational group and the real copied subset"
    );
}

#[test]
fn rejected_endpoint_cannot_become_a_similar_clone() {
    let groups = group_members(&[0, 1, 2], |left, right| {
        ((left == 0 && right == 1) || (left == 1 && right == 0))
            .then_some(ClusterKind::NearlyIdentical)
    });
    assert_eq!(groups, vec![(vec![0, 1], ClusterKind::NearlyIdentical)]);
}
