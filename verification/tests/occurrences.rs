use deslop_core::ast::{ByteRange, FileId, Fingerprint};
use deslop_core::cluster::exact_runs::{copied_union, SourceFile};
use deslop_core::cluster::subsume::all_occurrences_paired;

fn at(file: u32, start: usize, end: usize) -> Fingerprint {
    Fingerprint { hash: [1; 32], file_id: FileId(file), byte_range: ByteRange { start, end }, node_count: 3 }
}

#[test]
fn occurrences_pair_by_containment_either_way() {
    assert!(all_occurrences_paired(&[at(0, 0, 4)], &[at(0, 0, 8)]));
    assert!(all_occurrences_paired(&[at(0, 0, 8)], &[at(0, 2, 4)]));
    assert!(!all_occurrences_paired(&[at(1, 0, 4)], &[at(0, 0, 8)]));
    assert!(!all_occurrences_paired(&[at(0, 0, 4), at(0, 6, 9)], &[at(0, 0, 8)]));
    assert!(!all_occurrences_paired(&[], &[at(0, 0, 8)]));
}

#[test]
fn overlapping_views_prove_a_longer_copied_run_only_on_equal_bytes() {
    let same = [
        SourceFile { file_id: FileId(0), bytes: b"ABCDEFxx".to_vec() },
        SourceFile { file_id: FileId(1), bytes: b"ABCDEFyy".to_vec() },
    ];
    assert!(copied_union(&[at(0, 0, 4), at(1, 0, 4)], &[at(0, 2, 6), at(1, 2, 6)], &same));
    let differ = [
        SourceFile { file_id: FileId(0), bytes: b"ABCDEFxx".to_vec() },
        SourceFile { file_id: FileId(1), bytes: b"ABCDEGyy".to_vec() },
    ];
    assert!(!copied_union(&[at(0, 0, 4), at(1, 0, 4)], &[at(0, 2, 6), at(1, 2, 6)], &differ));
    assert!(!copied_union(&[at(0, 0, 4), at(1, 0, 4)], &[at(0, 0, 4), at(1, 0, 4)], &same));
}
