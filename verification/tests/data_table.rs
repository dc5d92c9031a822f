use deslop_core::ast::{ByteRange, FileId};
use deslop_core::clone_category::CloneCategory;
use deslop_core::cluster_filters::data_table::{classify_clone_category, is_data_table_cluster, is_literal_dominated_table};
use deslop_core::cluster_filters::snippets::Snippet;

const ROWS_A: &str = "COLORS = [(\"red\", 1), (\"green\", 2)]\n";
const ROWS_B: &str = "SIZES = [(\"small\", 1), (\"large\", 2)]\n";

fn whole(source: &'static str, file: u32) -> Snippet<'static> {
    Snippet { language: "python", source: source.as_bytes(), range: ByteRange { start: 0, end: source.len() }, file_id: FileId(file) }
}

#[test]
fn a_literal_dominated_table_with_differing_rows_is_data() {
    let members = [whole(ROWS_A, 0), whole(ROWS_B, 1)];
    assert!(is_literal_dominated_table(true, &members));
    assert!(is_data_table_cluster("python", true, &members));
    assert_eq!(classify_clone_category(Some(&members), true), CloneCategory::DataTable);
}

#[test]
fn a_copied_table_stays_logic() {
    let members = [whole(ROWS_A, 0), whole(ROWS_A, 1)];
    assert!(!is_literal_dominated_table(true, &members));
    assert_eq!(classify_clone_category(Some(&members), true), CloneCategory::Logic);
}

#[test]
fn below_the_literal_floor_or_without_members_is_logic() {
    let members = [whole(ROWS_A, 0), whole(ROWS_B, 1)];
    assert!(!is_literal_dominated_table(false, &members));
    assert_eq!(classify_clone_category(Some(&members), false), CloneCategory::Logic);
    assert_eq!(classify_clone_category(None, true), CloneCategory::Logic);
    assert_eq!(classify_clone_category(Some(&[]), true), CloneCategory::Logic);
    assert!(!is_literal_dominated_table(true, &members[..1]));
}
