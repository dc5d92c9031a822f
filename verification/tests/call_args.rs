use deslop_core::cluster_filters::calls::args::{
    carries_string_leaf, is_string_kind, keyword_name, literal_collection_bytes, string_literal_bytes, unwrap_argument,
};
use deslop_core::cluster_filters::snippets::parse_with_plugin;
use deslop_core::cluster_filters::SyntaxNode;

const PYTHON: &str = "post(client, message=\"hi\", items=[\"a\", 1], sizes=[1, 2], extra=[name, \"b\"])\n";
const CSHARP: &str = "class A { void M() { Log(\"x\", 3); } }\n";

fn arguments<'a>(node: &'a SyntaxNode, kind: &str) -> Option<&'a SyntaxNode> {
    if node.kind == kind {
        return Some(node);
    }
    node.children.iter().find_map(|child| arguments(child, kind))
}

fn named(node: &SyntaxNode) -> Vec<&SyntaxNode> {
    node.children.iter().filter(|child| child.named).collect()
}

#[test]
fn string_kinds_cover_every_grammar_spelling() {
    for kind in ["string", "concatenated_string", "string_literal", "raw_string_literal", "verbatim_string_literal", "interpolated_string_expression", "template_string"] {
        assert!(is_string_kind(kind));
    }
    assert!(!is_string_kind("integer"));
    assert!(!is_string_kind("identifier"));
}

#[test]
fn a_keyword_argument_passes_its_value_under_its_name() {
    let tree = parse_with_plugin("python", PYTHON.as_bytes()).expect("python parses");
    let list = arguments(&tree, "argument_list").expect("an argument list");
    let args = named(list);
    assert_eq!(args.len(), 5);
    assert_eq!(keyword_name(args[0], PYTHON.as_bytes()), None);
    assert_eq!(keyword_name(args[1], PYTHON.as_bytes()), Some(b"message".to_vec()));
    let value = unwrap_argument(args[1]);
    assert_eq!(string_literal_bytes(value, PYTHON.as_bytes()), Some(b"\"hi\"".to_vec()));
    assert_eq!(string_literal_bytes(args[0], PYTHON.as_bytes()), None);
    assert_eq!(unwrap_argument(args[0]).kind, "identifier");
}

#[test]
fn only_a_pure_literal_collection_holding_text_is_payload() {
    let tree = parse_with_plugin("python", PYTHON.as_bytes()).expect("python parses");
    let list = arguments(&tree, "argument_list").expect("an argument list");
    let args = named(list);
    let items = unwrap_argument(args[2]);
    assert!(carries_string_leaf(items));
    assert_eq!(literal_collection_bytes(items, PYTHON.as_bytes(), "python"), Some(b"[\"a\", 1]".to_vec()));
    let sizes = unwrap_argument(args[3]);
    assert!(!carries_string_leaf(sizes));
    assert_eq!(literal_collection_bytes(sizes, PYTHON.as_bytes(), "python"), None);
    let extra = unwrap_argument(args[4]);
    assert!(carries_string_leaf(extra));
    assert_eq!(literal_collection_bytes(extra, PYTHON.as_bytes(), "python"), None);
}

#[test]
fn a_csharp_argument_wrapper_is_seen_through() {
    let tree = parse_with_plugin("csharp", CSHARP.as_bytes()).expect("c# parses");
    let list = arguments(&tree, "argument_list").expect("an argument list");
    let args = named(list);
    assert_eq!(args[0].kind, "argument");
    let inner = unwrap_argument(args[0]);
    assert_eq!(string_literal_bytes(inner, CSHARP.as_bytes()), Some(b"\"x\"".to_vec()));
    assert_eq!(string_literal_bytes(unwrap_argument(args[1]), CSHARP.as_bytes()), None);
}
