use deslop_core::ast::{ByteRange, FileId};
use deslop_core::cluster_filters::polymorphic::decorator_lines::{python_abstract_method, trim_end_space, trim_start_space};
use deslop_core::cluster_filters::polymorphic::subject::{
    enclosing_container, is_abstract_declaration, polymorphic_subject, subject_of, subjects_of,
};
use deslop_core::cluster_filters::snippets::{parse_with_plugin, Snippet};
use deslop_core::cluster_filters::SyntaxNode;

const SHAPES: &str = "from abc import ABC, abstractmethod\n\nclass Shape(ABC):\n    @abstractmethod\n    def area(self):\n        return 0\n\n    @staticmethod\n    # unit\n    @abstractmethod\n    def perimeter(self):\n        return 0\n\n    def name(self):\n        ...\n\ndef helper():\n    return 1\n";

const SINGLE_METHOD: &str = "import os\n\nclass Backend(Base):\n    \"\"\"A backend.\"\"\"\n    def run(self, call):\n        return os.environ[call]\n";

const RESIDUE: &str = "import os\nLIMIT = 3\n\nclass Backend(Base):\n    def run(self, call):\n        return call\n";

fn find_named<'a>(node: &'a SyntaxNode, kind: &str, source: &str, text: &str) -> Option<&'a SyntaxNode> {
    if node.kind == kind && source[node.start_byte..node.end_byte].contains(text) {
        return Some(node);
    }
    node.children.iter().find_map(|child| find_named(child, kind, source, text))
}

fn whole(source: &'static str) -> Snippet<'static> {
    Snippet { language: "python", source: source.as_bytes(), range: ByteRange { start: 0, end: source.len() }, file_id: FileId(0) }
}

fn around(source: &'static str, text: &str) -> Snippet<'static> {
    let start = source.find(text).expect("the text is in the source");
    Snippet {
        language: "python",
        source: source.as_bytes(),
        range: ByteRange { start, end: start + text.len() },
        file_id: FileId(0),
    }
}

#[test]
fn an_abstractmethod_decorator_marks_the_contract() {
    let tree = parse_with_plugin("python", SHAPES.as_bytes()).expect("python parses");
    let area = find_named(&tree, "function_definition", SHAPES, "def area").expect("area");
    assert!(python_abstract_method(area, SHAPES.as_bytes()));
    assert!(is_abstract_declaration(area, "python", SHAPES.as_bytes()));
    assert!(!is_abstract_declaration(area, "csharp", SHAPES.as_bytes()));
}

#[test]
fn a_line_that_is_not_a_decorator_ends_the_block() {
    let tree = parse_with_plugin("python", SHAPES.as_bytes()).expect("python parses");
    let perimeter = find_named(&tree, "function_definition", SHAPES, "def perimeter").expect("perimeter");
    assert!(python_abstract_method(perimeter, SHAPES.as_bytes()));
    let helper = find_named(&tree, "function_definition", SHAPES, "def helper").expect("helper");
    assert!(!python_abstract_method(helper, SHAPES.as_bytes()));
}

#[test]
fn a_comment_between_decorators_hides_the_marker_above_it() {
    let source = "class Shape(ABC):\n    @abstractmethod\n    # unit\n    def area(self):\n        return 0\n";
    let tree = parse_with_plugin("python", source.as_bytes()).expect("python parses");
    let area = find_named(&tree, "function_definition", source, "def area").expect("area");
    assert!(!python_abstract_method(area, source.as_bytes()));
}

#[test]
fn a_bare_ellipsis_body_is_the_abstract_declaration() {
    let tree = parse_with_plugin("python", SHAPES.as_bytes()).expect("python parses");
    let name = find_named(&tree, "function_definition", SHAPES, "def name").expect("name");
    assert!(!python_abstract_method(name, SHAPES.as_bytes()));
    assert!(is_abstract_declaration(name, "python", SHAPES.as_bytes()));
}

#[test]
fn unicode_whitespace_is_trimmed_by_its_encoding() {
    assert_eq!(trim_start_space(" \t\u{a0}\u{3000}@x".as_bytes()), b"@x");
    assert_eq!(trim_end_space("@x \u{2003}\n".as_bytes()), b"@x");
    assert_eq!(trim_end_space("\u{e9}".as_bytes()), "\u{e9}".as_bytes());
}

#[test]
fn a_method_is_enclosed_by_its_class_and_a_free_function_by_nothing() {
    let tree = parse_with_plugin("python", SHAPES.as_bytes()).expect("python parses");
    let area = find_named(&tree, "function_definition", SHAPES, "def area").expect("area");
    let container = enclosing_container(&tree, area).expect("a class encloses the method");
    assert_eq!(container.kind, "class_definition");
    assert!(SHAPES[container.start_byte..container.end_byte].starts_with("class Shape"));
    let helper = find_named(&tree, "function_definition", SHAPES, "def helper").expect("helper");
    assert!(enclosing_container(&tree, helper).is_none());
}

#[test]
fn the_subject_is_the_innermost_function_or_the_sole_one_in_scaffolding() {
    let tree = parse_with_plugin("python", SHAPES.as_bytes()).expect("python parses");
    let inner = around(SHAPES, "return 1");
    let subject = polymorphic_subject(&tree, inner.range, "python").expect("the enclosing function");
    assert!(SHAPES[subject.start_byte..subject.end_byte].starts_with("def helper"));
    assert!(polymorphic_subject(&tree, whole(SHAPES).range, "python").is_none());

    let single = parse_with_plugin("python", SINGLE_METHOD.as_bytes()).expect("python parses");
    let subject = polymorphic_subject(&single, whole(SINGLE_METHOD).range, "python").expect("the one method");
    assert!(SINGLE_METHOD[subject.start_byte..subject.end_byte].starts_with("def run"));

    let residue = parse_with_plugin("python", RESIDUE.as_bytes()).expect("python parses");
    assert!(polymorphic_subject(&residue, whole(RESIDUE).range, "python").is_none());
}

#[test]
fn a_subject_carries_its_name_bases_and_digest() {
    let subject = subject_of(&around(SHAPES, "def area(self):\n        return 0")).expect("a subject");
    assert_eq!(subject.name, b"area".to_vec());
    assert_eq!(subject.bases, vec![b"ABC".to_vec()]);
    assert!(subject.abstract_declaration);
    assert!(!subject.overrides);
    let perimeter = subject_of(&around(SHAPES, "def perimeter(self):\n        return 0")).expect("a subject");
    assert_eq!(subject.shape_digest, perimeter.shape_digest, "both bodies are `return 0`");

    let helper = subject_of(&around(SHAPES, "return 1")).expect("a subject");
    assert_eq!(helper.name, b"helper".to_vec());
    assert!(helper.bases.is_empty());
    assert!(!helper.abstract_declaration);
    assert_eq!(helper.shape_digest, subject.shape_digest, "a literal's value is not part of a body's shape");
    assert!(subject_of(&whole(RESIDUE)).is_none());
}

#[test]
fn text_that_is_not_utf8_carries_no_decorator_block() {
    let valid: &[u8] = b"# note\n@abstractmethod\ndef area(self):\n    return 0\n";
    let invalid: &[u8] = b"# \xff\n@abstractmethod\ndef area(self):\n    return 0\n";
    for (source, expected) in [(valid, true), (invalid, false)] {
        let tree = parse_with_plugin("python", source).expect("python parses");
        let text = String::from_utf8_lossy(source).into_owned();
        let start = source.windows(3).position(|window| window == b"def").expect("a def");
        let area = find_at(&tree, start).expect("the function");
        assert_eq!(python_abstract_method(area, source), expected, "{text}");
    }
}

fn find_at(node: &SyntaxNode, start: usize) -> Option<&SyntaxNode> {
    if node.kind == "function_definition" && node.start_byte == start {
        return Some(node);
    }
    node.children.iter().find_map(|child| find_at(child, start))
}

#[test]
fn every_member_must_resolve_to_a_subject() {
    let members = [around(SHAPES, "return 1"), around(SINGLE_METHOD, "return os.environ[call]")];
    let subjects = subjects_of(&members).expect("both resolve");
    assert_eq!(subjects.len(), 2);
    assert_eq!(subjects[0].name, b"helper".to_vec());
    assert_eq!(subjects[1].name, b"run".to_vec());
    assert_eq!(subjects[1].bases, vec![b"Base".to_vec()]);
    assert!(subjects_of(&[around(SHAPES, "return 1"), whole(RESIDUE)]).is_none());
}
