use deslop_core::cluster::benchmark::measure_repetitions;
use deslop_core::ast::{ByteRange, FileId, Fingerprint};
use deslop_core::buckets::ClusterKind;
use deslop_core::cluster::identity::{encode_short_id, name_clusters, FilePath, Unnamed};

fn member(file: u32, start: usize, hash: u8) -> Fingerprint {
    Fingerprint { hash: [hash; 32], file_id: FileId(file), byte_range: ByteRange { start, end: start + 10 }, node_count: 4 }
}

fn draft(members: Vec<Fingerprint>) -> Unnamed {
    Unnamed { members, kind: ClusterKind::Identical, mass: 10, shape_family: None }
}

fn paths() -> Vec<FilePath> {
    vec![
        FilePath { file_id: FileId(0), path: b"src/a.rs".to_vec() },
        FilePath { file_id: FileId(1), path: b"src/b.rs".to_vec() },
    ]
}

#[test]
fn a_short_id_is_the_first_eight_digest_bytes_in_lower_hex() {
    let mut hash = [0_u8; 32];
    for (index, byte) in hash.iter_mut().enumerate() {
        *byte = u8::try_from(index * 17).unwrap_or(0);
    }
    assert_eq!(encode_short_id(hash), "0011223344556677");
    assert_eq!(encode_short_id([0xab; 32]), "abababababababab");
}

#[test]
fn two_same_shape_copies_in_one_file_get_two_ids() {
    let drafts = vec![
        draft(vec![member(0, 100, 7), member(0, 300, 7)]),
        draft(vec![member(0, 500, 7), member(0, 700, 7)]),
    ];
    let named = name_clusters(drafts, &paths());
    assert_eq!(named.len(), 2);
    assert_ne!(named[0].id, named[1].id);
    assert_eq!(named[0].id.len(), 16);
}

#[test]
fn the_first_cluster_of_a_source_keeps_its_id_when_a_later_copy_appears() {
    let alone = name_clusters(vec![draft(vec![member(0, 100, 7), member(1, 100, 7)])], &paths());
    let with_later = name_clusters(
        vec![draft(vec![member(0, 100, 7), member(1, 100, 7)]), draft(vec![member(0, 900, 7), member(1, 900, 7)])],
        &paths(),
    );
    assert_eq!(alone[0].id, with_later[0].id);
    assert_ne!(with_later[0].id, with_later[1].id);
}

#[test]
fn ids_do_not_depend_on_the_order_the_clusters_arrive_in() {
    let first = draft(vec![member(0, 100, 7), member(1, 100, 7)]);
    let second = draft(vec![member(0, 900, 7), member(1, 900, 7)]);
    let forward = name_clusters(vec![first, second], &paths());
    let first = draft(vec![member(0, 100, 7), member(1, 100, 7)]);
    let second = draft(vec![member(0, 900, 7), member(1, 900, 7)]);
    let backward = name_clusters(vec![second, first], &paths());
    assert_eq!(forward[0].id, backward[1].id);
    assert_eq!(forward[1].id, backward[0].id);
}

#[test]
fn unrelated_same_shape_findings_are_told_apart_by_their_paths() {
    let named = name_clusters(
        vec![draft(vec![member(0, 100, 7), member(0, 300, 7)]), draft(vec![member(1, 100, 7), member(1, 300, 7)])],
        &paths(),
    );
    assert_ne!(named[0].id, named[1].id);
}

#[test]
fn a_measurement_needs_at_least_one_repetition() {
    assert_eq!(measure_repetitions(0), Err("repetitions must be positive"));
    assert_eq!(measure_repetitions(3), Ok(3));
}
