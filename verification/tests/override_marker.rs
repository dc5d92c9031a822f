use deslop_core::cluster_filters::override_marker::{carries_override_marker, override_marker_kind};
use deslop_core::cluster_filters::SyntaxNode;

/// The Dart member the false positive was reported on: a Flutter `build`
/// override, whose declaring contract (`State<T>`) is never in the scan.
const DART_OVERRIDE: &str = "class _S extends State<W> {\n  @override\n  Widget build(BuildContext c) {\n    return Row();\n  }\n}\n";

/// The same shape with the marker removed — an ordinary method.
const DART_PLAIN: &str =
    "class _S extends State<W> {\n  Widget build(BuildContext c) {\n    return Row();\n  }\n}\n";

/// A C# member overriding a base-class method, marker as a modifier.
const CSHARP_OVERRIDE: &str = "class S : B {\n  public override int Run() { return 1; }\n}\n";

/// The same C# member declared fresh rather than overriding.
const CSHARP_PLAIN: &str = "class S : B {\n  public int Run() { return 1; }\n}\n";

/// A TypeScript member carrying the `override` modifier.
const TYPESCRIPT_OVERRIDE: &str =
    "class S extends B {\n  override run(): number {\n    return 1;\n  }\n}\n";

/// Python spells no override relationship.
const PYTHON_METHOD: &str = "class S(B):\n    def run(self):\n        return 1\n";

/// A Dart annotation that is *not* `override`.
const DART_OTHER_ANNOTATION: &str = "class _S extends State<W> {\n  @deprecated\n  Widget build(BuildContext c) {\n    return Row();\n  }\n}\n";

fn grammar(language: &str) -> tree_sitter::Language {
    match language {
        "dart" => tree_sitter_dart::LANGUAGE.into(),
        "csharp" => tree_sitter_c_sharp::LANGUAGE.into(),
        "typescript" => tree_sitter_typescript::LANGUAGE_TYPESCRIPT.into(),
        _ => tree_sitter_python::LANGUAGE.into(),
    }
}

/// The parse tree below `node`, in the library's own shape.
fn convert(node: tree_sitter::Node<'_>, field: Option<&str>) -> SyntaxNode {
    let mut children = Vec::new();
    let mut cursor = node.walk();
    if cursor.goto_first_child() {
        loop {
            children.push(convert(cursor.node(), cursor.field_name()));
            if !cursor.goto_next_sibling() {
                break;
            }
        }
    }
    SyntaxNode {
        kind: node.kind().to_string(),
        kind_id: node.kind_id(),
        named: node.is_named(),
        extra: node.is_extra(),
        field: field.map(str::to_string),
        start_byte: node.start_byte(),
        end_byte: node.end_byte(),
        children,
    }
}

/// The first node of any kind in `kinds`, depth-first over named children.
fn find_kind<'a>(node: &'a SyntaxNode, kinds: &[&str]) -> Option<&'a SyntaxNode> {
    if kinds.contains(&node.kind.as_str()) {
        return Some(node);
    }
    node.children
        .iter()
        .filter(|child| child.named)
        .find_map(|child| find_kind(child, kinds))
}

fn marks_the_member(language: &str, source: &str, kinds: &[&str]) -> Option<bool> {
    let mut parser = tree_sitter::Parser::new();
    parser.set_language(&grammar(language)).ok()?;
    let tree = parser.parse(source, None)?;
    let root = convert(tree.root_node(), None);
    let function = find_kind(&root, kinds)?;
    Some(carries_override_marker(function, language, source.as_bytes()))
}

#[test]
fn every_language_row_recognises_its_own_override_marker() {
    assert_eq!(
        marks_the_member("dart", DART_OVERRIDE, &["method_declaration"]),
        Some(true),
        "Dart wraps `@override` in an `annotation` whose name field is the identifier"
    );
    assert_eq!(
        marks_the_member("csharp", CSHARP_OVERRIDE, &["method_declaration"]),
        Some(true),
        "C# spells the marker as a bare `modifier` token with no name field"
    );
    assert_eq!(
        marks_the_member("typescript", TYPESCRIPT_OVERRIDE, &["method_definition"]),
        Some(true),
        "TypeScript spells the marker as an `override_modifier` token"
    );
}

#[test]
fn a_member_that_overrides_nothing_is_not_marked() {
    assert_eq!(
        marks_the_member("dart", DART_PLAIN, &["method_declaration"]),
        Some(false),
        "an unannotated Dart method must keep relying on the contract index"
    );
    assert_eq!(
        marks_the_member("csharp", CSHARP_PLAIN, &["method_declaration"]),
        Some(false),
        "a C# method declared without `override` is a fresh declaration"
    );
    assert_eq!(
        marks_the_member("dart", DART_OTHER_ANNOTATION, &["method_declaration"]),
        Some(false),
        "the marker is matched by identity"
    );
}

#[test]
fn a_language_with_no_override_marker_never_matches() {
    assert_eq!(override_marker_kind("python"), None);
    assert_eq!(
        marks_the_member("python", PYTHON_METHOD, &["function_definition"]),
        Some(false),
        "a language with no row must return false rather than guess"
    );
    for language in ["rust", "go", "fsharp", "javascript"] {
        assert_eq!(override_marker_kind(language), None, "{language} has no override marker");
    }
}

#[test]
fn marker_rows_name_their_kinds() {
    assert_eq!(override_marker_kind("dart"), Some(("annotation", "override")));
    assert_eq!(override_marker_kind("csharp"), Some(("modifier", "override")));
    assert_eq!(override_marker_kind("tsx"), Some(("override_modifier", "override")));
}
