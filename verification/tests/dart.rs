use deslop_core::ast::{ByteRange, FileId};
use deslop_core::cluster_filters::dart::{
    body_is_scaffold, covers_only_widget_scaffold_classes, is_dart_widget_scaffold_cluster, widget_layout_key,
};
use deslop_core::cluster_filters::dart_data_table::{covers_only_data_elements, is_dart_collection_data_table_cluster};
use deslop_core::cluster_filters::snippets::{parse_with_plugin, Snippet};
use deslop_core::cluster_filters::SyntaxNode;

const HOME: &str = "class HomePage extends StatelessWidget {\n  @override\n  Widget build(BuildContext context) {\n    return Scaffold(body: Text('home'));\n  }\n}\n";
const ABOUT: &str = "class AboutPage extends StatelessWidget {\n  @override\n  Widget build(BuildContext context) {\n    return Center(child: Text('about'));\n  }\n}\n";
const COPY: &str = "class CopyPage extends StatelessWidget {\n  @override\n  Widget build(BuildContext context) {\n    return Scaffold(body: Text('home'));\n  }\n}\n";
const LOGIC: &str = "class CountPage extends StatelessWidget {\n  @override\n  Widget build(BuildContext context) {\n    if (count > 1) {\n      return Text('many');\n    }\n    return Text('one');\n  }\n}\n";
const PLAIN: &str = "class Repository extends Base {\n  Item load(Key key) {\n    return Item(key);\n  }\n}\n";

fn whole<'a>(source: &'a str, file: u32) -> Snippet<'a> {
    Snippet { language: "dart", source: source.as_bytes(), range: ByteRange { start: 0, end: source.len() }, file_id: FileId(file) }
}

fn find_kind<'a>(node: &'a SyntaxNode, kind: &str) -> Option<&'a SyntaxNode> {
    if node.kind == kind {
        return Some(node);
    }
    node.children.iter().find_map(|child| find_kind(child, kind))
}

#[test]
fn construction_only_widget_classes_are_scaffolding() {
    assert!(covers_only_widget_scaffold_classes(&whole(HOME, 0)));
    assert!(!covers_only_widget_scaffold_classes(&whole(LOGIC, 0)));
    assert!(!covers_only_widget_scaffold_classes(&whole(PLAIN, 0)));
    assert_eq!(widget_layout_key(&whole(HOME, 0)), Some(vec![b"{\n    return Scaffold(body: Text('home'));\n  }".to_vec()]));
    assert!(is_dart_widget_scaffold_cluster(&[whole(HOME, 0), whole(ABOUT, 1)]));
}

#[test]
fn a_copied_build_layout_stays_visible() {
    assert!(!is_dart_widget_scaffold_cluster(&[whole(HOME, 0), whole(COPY, 1)]));
    assert!(!is_dart_widget_scaffold_cluster(&[whole(HOME, 0), whole(LOGIC, 1)]));
    assert!(!is_dart_widget_scaffold_cluster(&[whole(HOME, 0), whole(HOME, 1)]));
}

#[test]
fn a_body_with_control_flow_is_not_scaffolding() {
    let tree = parse_with_plugin("dart", LOGIC.as_bytes()).expect("dart parses");
    let body = find_kind(&tree, "function_body").expect("a body");
    assert!(!body_is_scaffold(body));
    let tree = parse_with_plugin("dart", HOME.as_bytes()).expect("dart parses");
    let body = find_kind(&tree, "function_body").expect("a body");
    assert!(body_is_scaffold(body));
}

const HIGHLIGHTS: &str = "final highlights = [\n  Highlight('alpha', 1),\n  Highlight('beta', 2),\n];\n";
const COLOURS: &str = "final colours = [\n  Colour('red', 3),\n  Colour('blue', 4),\n];\n";
const CALLBACKS: &str = "final actions = [\n  Action('open', () => open()),\n  Action('close', () => close()),\n];\n";

fn rows<'a>(source: &'a str, file: u32) -> Snippet<'a> {
    let start = source.find('[').expect("a list") + 1;
    let end = source.rfind(']').expect("a list");
    Snippet { language: "dart", source: source.as_bytes(), range: ByteRange { start, end }, file_id: FileId(file) }
}

#[test]
fn collection_literal_data_tables_are_recognised() {
    assert!(covers_only_data_elements(&rows(HIGHLIGHTS, 0)));
    assert!(!covers_only_data_elements(&rows(CALLBACKS, 0)));
    assert!(is_dart_collection_data_table_cluster(&[rows(HIGHLIGHTS, 0), rows(COLOURS, 1)]));
    assert!(!is_dart_collection_data_table_cluster(&[rows(HIGHLIGHTS, 0), rows(HIGHLIGHTS, 1)]));
    assert!(!is_dart_collection_data_table_cluster(&[rows(HIGHLIGHTS, 0), rows(CALLBACKS, 1)]));
}
