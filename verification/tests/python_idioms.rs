use deslop_core::ast::{ByteRange, FileId};
use deslop_core::cluster_filters::python_idioms::{
    is_generated_template_output_cluster, is_jwt_hmac_independent_verifier_cluster, is_python_all_exports_cluster,
    python_body_looks_like_hs256, python_source_looks_like_test,
};
use deslop_core::cluster_filters::snippets::Snippet;

fn snippet<'a>(source: &'a str, needle: &str, file: u32) -> Snippet<'a> {
    let start = source.find(needle).expect("needle present");
    Snippet { language: "python", source: source.as_bytes(), range: ByteRange { start, end: start + needle.len() }, file_id: FileId(file) }
}

const MINTER: &str = "def mint(claims):\n    digest = hmac.new(KEY, body, hashlib.sha256).digest()\n    return base64.urlsafe_b64encode(digest)\n";
const VERIFIER: &str = "def test_mint():\n    digest = hmac.new(KEY, body, hashlib.sha256).digest()\n    assert base64.urlsafe_b64encode(digest) == token\n";

#[test]
fn an_independent_hs256_test_verifier_is_not_duplication() {
    assert!(python_body_looks_like_hs256(MINTER.as_bytes()));
    assert!(!python_body_looks_like_hs256(b"hmac.new(k, b)"));
    assert!(python_source_looks_like_test(VERIFIER.as_bytes()));
    assert!(!python_source_looks_like_test(MINTER.as_bytes()));
    let pair = vec![snippet(MINTER, "digest = hmac.new", 0), snippet(VERIFIER, "digest = hmac.new", 1)];
    assert!(is_jwt_hmac_independent_verifier_cluster(&pair));
    let both_production = vec![snippet(MINTER, "digest = hmac.new", 0), snippet(MINTER, "digest = hmac.new", 1)];
    assert!(!is_jwt_hmac_independent_verifier_cluster(&both_production));
}

const GENERATOR: &str = "HEADER = \"\"\"# DO NOT HAND-EDIT: generated\"\"\"\n";
const GENERATED: &str = "# DO NOT HAND-EDIT: generated\nVALUE = 1\n";

#[test]
fn a_generated_header_and_its_template_are_not_duplication() {
    let pair = vec![snippet(GENERATOR, "# DO NOT HAND-EDIT: generated", 0), snippet(GENERATED, "VALUE = 1", 1)];
    assert!(is_generated_template_output_cluster(&pair));
    let no_output = vec![snippet(GENERATOR, "# DO NOT HAND-EDIT: generated", 0), snippet(GENERATOR, "HEADER", 1)];
    assert!(!is_generated_template_output_cluster(&no_output));
}

const EXPORTS_A: &str = "__all__ = [\"alpha\", \"beta\"]\n";
const EXPORTS_B: &str = "__all__ = (\"gamma\",)\n";
const OTHER_LIST: &str = "names = [\"alpha\", \"beta\"]\n";

#[test]
fn module_export_lists_are_not_duplication() {
    let exports = vec![snippet(EXPORTS_A, "[\"alpha\", \"beta\"]", 0), snippet(EXPORTS_B, "__all__ = (\"gamma\",)", 1)];
    assert!(is_python_all_exports_cluster(&exports));
    let other = vec![snippet(EXPORTS_A, "[\"alpha\", \"beta\"]", 0), snippet(OTHER_LIST, "[\"alpha\", \"beta\"]", 1)];
    assert!(!is_python_all_exports_cluster(&other));
}
