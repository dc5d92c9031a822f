use deslop_core::ast::{ByteRange, FileId};
use deslop_core::cluster_filters::constant_table::{
    constants_cover, covers_only_constants, is_constant_table_cluster, is_literal_value, TableGrammar,
};
use deslop_core::cluster_filters::snippets::{parse_for, Snippet};

const PYTHON_TABLE: &str = "# queries\nSELECT_USER = \"select * from users\"\nLIMIT = 10\nFLAGS = (1, 2, -3)\n";
const PYTHON_OTHER_TABLE: &str = "# config\nHOST = \"example.org\"\nPORT = 8080\nMODES = {\"a\": 1, \"b\": None}\n";
const PYTHON_WITH_CALL: &str = "SELECT_USER = \"select\"\nLIMIT = compute(10)\n";
const PYTHON_FSTRING: &str = "NAME = \"x\"\nGREETING = f\"hello {NAME}\"\n";
const RUST_TABLE: &str = "// data\nconst A: &str = r\"alpha\";\nstatic B: [u8; 2] = [1, 2];\n";
const RUST_WITH_FN: &str = "const A: &str = \"alpha\";\nfn b() {}\n";

fn whole(language: &'static str, source: &'static str, file: u32) -> Snippet<'static> {
    Snippet { language, source: source.as_bytes(), range: ByteRange { start: 0, end: source.len() }, file_id: FileId(file) }
}

#[test]
fn a_python_module_of_literal_constants_is_a_table() {
    assert!(covers_only_constants(&whole("python", PYTHON_TABLE, 0)));
    assert!(covers_only_constants(&whole("python", PYTHON_OTHER_TABLE, 1)));
}

#[test]
fn a_call_or_an_interpolation_takes_the_member_out_of_the_shape() {
    assert!(!covers_only_constants(&whole("python", PYTHON_WITH_CALL, 0)));
    assert!(!covers_only_constants(&whole("python", PYTHON_FSTRING, 0)));
}

#[test]
fn rust_const_and_static_items_are_entries_and_functions_are_not() {
    assert!(covers_only_constants(&whole("rust", RUST_TABLE, 0)));
    assert!(!covers_only_constants(&whole("rust", RUST_WITH_FN, 0)));
}

#[test]
fn a_language_without_a_table_form_never_matches() {
    assert!(!covers_only_constants(&whole("csharp", "class A { const int B = 1; }", 0)));
    assert!(!covers_only_constants(&whole("cobol", PYTHON_TABLE, 0)));
}

#[test]
fn unrelated_tables_are_hidden_but_verbatim_copies_surface() {
    let unrelated = vec![whole("python", PYTHON_TABLE, 0), whole("python", PYTHON_OTHER_TABLE, 1)];
    assert!(is_constant_table_cluster(&unrelated));
    let verbatim = vec![whole("python", PYTHON_TABLE, 0), whole("python", PYTHON_TABLE, 1)];
    assert!(!is_constant_table_cluster(&verbatim));
    let single = vec![whole("python", PYTHON_TABLE, 0)];
    assert!(!is_constant_table_cluster(&single));
}

#[test]
fn only_items_touching_the_range_are_read() {
    let source = "LIMIT = 10\ndef f():\n    return 1\n";
    let tree = parse_for(&whole("python", source, 0)).expect("python parses");
    assert!(constants_cover(TableGrammar::Python, &tree, ByteRange { start: 0, end: 10 }));
    assert!(!constants_cover(TableGrammar::Python, &tree, ByteRange { start: 0, end: source.len() }));
    assert!(!constants_cover(TableGrammar::Rust, &tree, ByteRange { start: 0, end: 10 }));
}

#[test]
fn literal_values_are_judged_by_their_language() {
    let source = "X = [1, \"two\", None]\nY = name\n";
    let tree = parse_for(&whole("python", source, 0)).expect("python parses");
    let value_of = |index: usize| {
        let statement = &tree.children[index];
        let assignment = &statement.children[0];
        assignment.children.iter().find(|child| child.field.as_deref() == Some("right"))
    };
    let list = value_of(0).expect("list value");
    let name = value_of(1).expect("name value");
    assert!(is_literal_value("python", list));
    assert!(!is_literal_value("python", name));
    assert!(!is_literal_value("go", list));
}
