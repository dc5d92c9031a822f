use deslop_core::ast::{ByteRange, FileId};
use deslop_core::cluster_filters::python_dict_assert::{is_chained_dict_assert_cluster, is_chained_dict_assert_snippet};
use deslop_core::cluster_filters::snippets::Snippet;

const PATCH_MODULE: &str = "def test_configs_patch_model_config_nesting():\n    data = {\"model_config\": {\"provider\": \"openai\", \"model\": \"gpt-4o\"}}\n    assert data[\"model_config\"][\"provider\"] == \"openai\"\n    assert data[\"model_config\"][\"model\"] == \"gpt-4o\"\n";
const OPENAPI_MODULE: &str = "def test_openapi_info_document():\n    doc = {\"info\": {\"title\": \"Agent Backend\", \"version\": \"0.1.0\"}}\n    assert doc[\"info\"][\"title\"] == \"Agent Backend\"\n    assert doc[\"info\"][\"version\"] == \"0.1.0\"\n";
const COMPUTED: &str = "def test_reconcile():\n    doc = {\"info\": {\"gross\": 1}}\n    assert doc[\"info\"][\"gross\"] == reconcile_amount(doc)\n";
const UNCONSUMED: &str = "def test_unread():\n    doc = {\"info\": {\"title\": \"a\"}}\n    other = {\"x\": 1}\n    assert doc[\"info\"][\"title\"] == \"a\"\n";
const MODULE_LOGIC: &str = "session = build_session()\n\ndef test_info():\n    doc = {\"info\": {\"title\": \"a\"}}\n    assert doc[\"info\"][\"title\"] == \"a\"\n";
const STATIC_DECORATOR: &str = "@pytest.mark.parametrize(\"case\", [1, 2])\ndef test_cases(case):\n    doc = {\"info\": {\"title\": \"a\"}}\n    assert doc[\"info\"][\"title\"] == \"a\"\n";
const COMPUTED_DECORATOR: &str = "@pytest.mark.parametrize(\"case\", build_cases())\ndef test_cases(case):\n    doc = {\"info\": {\"title\": \"a\"}}\n    assert doc[\"info\"][\"title\"] == \"a\"\n";

fn whole<'a>(source: &'a str, file: u32) -> Snippet<'a> {
    Snippet { language: "python", source: source.as_bytes(), range: ByteRange { start: 0, end: source.len() }, file_id: FileId(file) }
}

fn asserts<'a>(source: &'a str, file: u32) -> Snippet<'a> {
    let start = source.find("assert").expect("an assertion");
    Snippet { language: "python", source: source.as_bytes(), range: ByteRange { start, end: source.len() }, file_id: FileId(file) }
}

#[test]
fn chained_dict_assert_test_functions_across_files_are_the_idiom() {
    assert!(is_chained_dict_assert_snippet(&whole(PATCH_MODULE, 0)));
    assert!(is_chained_dict_assert_cluster(&[whole(PATCH_MODULE, 0), whole(OPENAPI_MODULE, 1)]));
}

#[test]
fn assert_run_windows_are_the_idiom_on_shape_alone() {
    assert!(is_chained_dict_assert_snippet(&asserts(PATCH_MODULE, 0)));
    assert!(is_chained_dict_assert_cluster(&[asserts(PATCH_MODULE, 0), asserts(OPENAPI_MODULE, 1)]));
    assert!(!is_chained_dict_assert_cluster(&[asserts(PATCH_MODULE, 0), asserts(PATCH_MODULE, 0)]));
}

#[test]
fn anything_the_proof_cannot_close_stays_visible() {
    assert!(!is_chained_dict_assert_snippet(&whole(COMPUTED, 0)));
    assert!(!is_chained_dict_assert_snippet(&whole(UNCONSUMED, 0)));
    assert!(!is_chained_dict_assert_snippet(&whole(MODULE_LOGIC, 0)));
    assert!(is_chained_dict_assert_snippet(&whole(STATIC_DECORATOR, 0)));
    assert!(!is_chained_dict_assert_snippet(&whole(COMPUTED_DECORATOR, 0)));
}
