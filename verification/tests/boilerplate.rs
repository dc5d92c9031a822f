use deslop_core::ast::{ByteRange, FileId, NormalizedNode};
use deslop_core::boilerplate::{
    collect_import_boilerplate_ranges, is_boilerplate, is_import_boilerplate_carrier, is_import_boilerplate_only_subtree,
};
use deslop_core::clone_category::CloneCategory;

fn node(kind: &'static str, start: usize, end: usize, children: Vec<NormalizedNode>) -> NormalizedNode {
    NormalizedNode { kind, children, byte_range: ByteRange { start, end }, file_id: FileId(4) }
}

#[test]
fn carriers_are_named_per_language() {
    assert!(is_import_boilerplate_carrier("python", "import_from_statement"));
    assert!(is_import_boilerplate_carrier("python", "decorator"));
    assert!(is_import_boilerplate_carrier("csharp", "using_directive"));
    assert!(is_import_boilerplate_carrier("rust", "use_declaration"));
    assert!(!is_import_boilerplate_carrier("rust", "import_statement"));
    assert!(!is_import_boilerplate_carrier("cobol", "use_declaration"));
}

#[test]
fn a_subtree_of_imports_only_is_boilerplate() {
    let imports = node("module", 0, 40, vec![node("import_statement", 0, 10, vec![]), node("import_from_statement", 11, 40, vec![])]);
    assert!(is_import_boilerplate_only_subtree("python", &imports));
    let mixed = node("module", 0, 40, vec![node("import_statement", 0, 10, vec![]), node("function_definition", 11, 40, vec![])]);
    assert!(!is_import_boilerplate_only_subtree("python", &mixed));
    let empty = node("module", 0, 0, vec![]);
    assert!(!is_import_boilerplate_only_subtree("python", &empty));
    assert!(is_boilerplate(Some("python"), &imports));
    assert!(!is_boilerplate(None, &imports));
}

#[test]
fn carrier_ranges_are_collected_without_descending_into_carriers() {
    let root = node(
        "source_file",
        0,
        60,
        vec![
            node("use_declaration", 0, 12, vec![node("use_declaration", 4, 11, vec![])]),
            node("function_item", 13, 50, vec![]),
            node("extern_crate_declaration", 51, 60, vec![]),
        ],
    );
    let ranges = collect_import_boilerplate_ranges(&root, "rust");
    let spans: Vec<(usize, usize)> = ranges.iter().map(|range| (range.byte_range.start, range.byte_range.end)).collect();
    assert_eq!(spans, vec![(0, 12), (51, 60)]);
    assert!(ranges.iter().all(|range| range.file_id == FileId(4) && range.language == "rust"));
}

#[test]
fn clone_categories_round_trip_their_wire_labels() {
    for category in CloneCategory::all() {
        assert_eq!(CloneCategory::from_wire_label(category.wire_label()), category);
    }
    assert_eq!(CloneCategory::from_wire_label("anything else"), CloneCategory::Logic);
    assert_eq!(CloneCategory::DataTable.chip(), Some("data table"));
    assert_eq!(CloneCategory::Logic.group_title(), "Code clones");
    assert_eq!(CloneCategory::Logic.action_sentence(), "Extract the duplicated logic into a shared function.");
}
