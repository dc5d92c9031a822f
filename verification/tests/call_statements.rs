use deslop_core::ast::{ByteRange, FileId};
use deslop_core::cluster_filters::calls::asserts::{
    assert_kinds, bound_names, collect_assignment_targets, collect_subject_identifiers, is_assert_on_call_bound_value,
};
use deslop_core::cluster_filters::calls::call_kinds;
use deslop_core::cluster_filters::calls::statements::{count_call_free, scenario_run_acceptance, subtree_contains_call};
use deslop_core::cluster_filters::snippets::{parse_with_plugin, Snippet};
use deslop_core::cluster_filters::SyntaxNode;

const SCENARIO: &str = "def test_api():\n    resp = client.delete(\"/api/a\")\n    assert resp.status_code == 204\n    other = client.get(\"/api/b\")\n    assert other.ok\n    assert resp.ok\n    assert config.enabled\n    assert True\n    first = second = build(1)\n";

fn snippet() -> Snippet<'static> {
    Snippet { language: "python", source: SCENARIO.as_bytes(), range: ByteRange { start: 0, end: SCENARIO.len() }, file_id: FileId(0) }
}

fn find_kind<'a>(node: &'a SyntaxNode, kind: &str) -> Option<&'a SyntaxNode> {
    if node.kind == kind {
        return Some(node);
    }
    node.children.iter().find_map(|child| find_kind(child, kind))
}

fn statements(tree: &SyntaxNode) -> Vec<&SyntaxNode> {
    let block = find_kind(tree, "block").expect("a function body");
    block.children.iter().filter(|child| child.named).collect()
}

#[test]
fn only_python_has_call_free_assertions() {
    assert_eq!(assert_kinds("python"), vec!["assert_statement"]);
    assert!(assert_kinds("rust").is_empty());
}

#[test]
fn assignments_bind_every_target_and_asserts_inspect_subjects() {
    let tree = parse_with_plugin("python", SCENARIO.as_bytes()).expect("python parses");
    let body = statements(&tree);
    let mut targets = Vec::new();
    collect_assignment_targets(body[7], SCENARIO.as_bytes(), &mut targets);
    assert_eq!(targets, vec![b"first".to_vec(), b"second".to_vec()]);
    let mut subjects = Vec::new();
    collect_subject_identifiers(body[1], SCENARIO.as_bytes(), &mut subjects);
    assert_eq!(subjects, vec![b"resp".to_vec()]);
    assert_eq!(bound_names(&[body[0], body[2]], SCENARIO.as_bytes()), vec![b"resp".to_vec(), b"other".to_vec()]);
}

#[test]
fn an_assertion_is_admitted_only_on_values_the_calls_bound() {
    let tree = parse_with_plugin("python", SCENARIO.as_bytes()).expect("python parses");
    let body = statements(&tree);
    let calls = [body[0], body[2]];
    assert!(is_assert_on_call_bound_value(body[1], &calls, &snippet()));
    assert!(is_assert_on_call_bound_value(body[3], &calls, &snippet()));
    assert!(!is_assert_on_call_bound_value(body[5], &calls, &snippet()));
    assert!(!is_assert_on_call_bound_value(body[6], &calls, &snippet()));
    assert!(!is_assert_on_call_bound_value(body[0], &calls, &snippet()));
}

#[test]
fn call_free_statements_are_counted() {
    let tree = parse_with_plugin("python", SCENARIO.as_bytes()).expect("python parses");
    let body = statements(&tree);
    let kinds = call_kinds("python");
    assert!(subtree_contains_call(body[0], &kinds));
    assert!(!subtree_contains_call(body[1], &kinds));
    assert_eq!(count_call_free(&body[0..4], &kinds), 2);
}

#[test]
fn per_cell_acceptance_needs_distinct_preceding_calls() {
    let tree = parse_with_plugin("python", SCENARIO.as_bytes()).expect("python parses");
    let body = statements(&tree);
    let calls = [body[0], body[2]];
    assert!(scenario_run_acceptance(&body[0..4], &calls, &snippet()));
    assert!(!scenario_run_acceptance(&[body[0], body[1], body[4]], &calls, &snippet()));
    assert!(!scenario_run_acceptance(&[body[0], body[1], body[2], body[5]], &calls, &snippet()));
    assert!(!scenario_run_acceptance(&[body[1], body[0], body[3]], &calls, &snippet()));
}
