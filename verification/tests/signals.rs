use std::cell::Cell;

use deslop_core::ast::{ByteRange, FileId, Fingerprint};
use deslop_core::cluster::signals::{
    has_multiple_structural_hashes, ordered_group_pair, GroupTable, PairValueCache, SignalGroups, StructuralGroup,
};

fn fingerprint(hash: u8, start: usize) -> Fingerprint {
    Fingerprint { hash: [hash; 32], file_id: FileId(0), byte_range: ByteRange { start, end: start + 4 }, node_count: 3 }
}

#[test]
fn equal_keys_share_one_compact_id_and_count_their_occurrences() {
    let mut table = GroupTable::new();
    let first = table.add(StructuralGroup { hash: [1; 32], resolvable: true });
    let second = table.add(StructuralGroup { hash: [2; 32], resolvable: true });
    let again = table.add(StructuralGroup { hash: [1; 32], resolvable: true });
    let unresolvable = table.add(StructuralGroup { hash: [1; 32], resolvable: false });
    assert_eq!((first, second, again, unresolvable), (0, 1, 0, 2));
    assert_eq!(table.sizes, vec![2, 1, 1]);
}

#[test]
fn bumping_an_unknown_group_changes_nothing() {
    let mut table: GroupTable<StructuralGroup> = GroupTable::new();
    let id = table.add(StructuralGroup { hash: [7; 32], resolvable: true });
    table.bump(id);
    table.bump(5);
    assert_eq!(table.sizes, vec![2]);
}

#[test]
fn token_signatures_group_by_content() {
    let left: Vec<u64> = vec![1, 2, 3];
    let right: Vec<u64> = vec![1, 2, 3];
    let other: Vec<u64> = vec![3, 2, 1];
    let mut groups = SignalGroups::new();
    let a = groups.add(Some(&fingerprint(1, 0)), Some(left.as_slice()), false, false);
    let b = groups.add(None, Some(right.as_slice()), false, false);
    let c = groups.add(Some(&fingerprint(1, 10)), Some(other.as_slice()), true, false);
    assert_eq!((a.structural_group, a.token_group), (Some(0), Some(0)));
    assert_eq!((b.structural_group, b.token_group), (None, Some(0)));
    // Resolution is asked for and fails, so the same hash lands in a new group.
    assert_eq!((c.structural_group, c.token_group), (Some(1), Some(1)));
    let values: deslop_core::cluster::signals::SignalValues<u32> = groups.into_values();
    assert_eq!(values.structural.group_sizes, vec![1, 1]);
    assert_eq!(values.token.group_sizes, vec![2, 1]);
}

#[test]
fn a_group_pair_is_one_key_in_either_order() {
    assert_eq!(ordered_group_pair((3, 1)), (1, 3));
    assert_eq!(ordered_group_pair((1, 3)), (1, 3));
    assert_eq!(ordered_group_pair((2, 2)), (2, 2));
}

#[test]
fn a_repeated_group_pair_is_computed_once() {
    let computed = Cell::new(0_u32);
    let compute = |value: u32| {
        computed.set(computed.get() + 1);
        value
    };
    let mut cache = PairValueCache::new(vec![2, 1]);
    assert_eq!(cache.value((1, 0), || compute(40)), 40);
    assert_eq!(cache.value((0, 1), || compute(99)), 40);
    assert_eq!(computed.get(), 1);
    // A pair inside a two-member group occurs once, so it is not retained.
    assert_eq!(cache.value((0, 0), || compute(5)), 5);
    assert_eq!(cache.value((0, 0), || compute(6)), 6);
    assert_eq!(computed.get(), 3);
    assert_eq!(cache.values.len(), 1);
}

#[test]
fn the_sole_group_keeps_its_value_apart() {
    let mut cache = PairValueCache::new(vec![877]);
    assert_eq!(cache.value((0, 0), || 1.0_f64.to_bits()), 1.0_f64.to_bits());
    assert_eq!(cache.value((0, 0), || 0), 1.0_f64.to_bits());
    assert!(cache.values.is_empty());
    assert_eq!(cache.single_value, Some(1.0_f64.to_bits()));
}

#[test]
fn repetition_needs_three_members_in_one_group_or_two_across() {
    let cache: PairValueCache<u8> = PairValueCache::new(vec![2, 3, 1]);
    assert!(!cache.repeats((0, 0)));
    assert!(cache.repeats((1, 1)));
    assert!(cache.repeats((0, 2)));
    assert!(!cache.repeats((2, 2)));
    assert!(!cache.repeats((2, 9)));
}

#[test]
fn one_hash_clusters_need_no_endpoint_resolution() {
    let corpus = vec![fingerprint(1, 0), fingerprint(1, 8), fingerprint(2, 16)];
    assert!(!has_multiple_structural_hashes(&corpus, &[0, 1]));
    assert!(has_multiple_structural_hashes(&corpus, &[0, 2]));
    assert!(!has_multiple_structural_hashes(&corpus, &[0, 7]));
    assert!(!has_multiple_structural_hashes(&corpus, &[]));
}
