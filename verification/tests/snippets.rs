use deslop_core::ast::{ByteRange, FileId, Fingerprint};
use deslop_core::cluster::exact_runs::SourceFile;
use deslop_core::cluster::scope::FileLanguage;
use deslop_core::cluster_filters::node_search::{
    enclosing_kind, node_contains_identifier, node_contains_kind, KindSearch,
};
use deslop_core::cluster_filters::snippets::{collect_snippets, grammar_for, parse_for, uniform_language, Grammar, Snippet};
use deslop_core::cluster_filters::{
    contains_bytes, is_multi_member_language_cluster, raw_snippet_texts_differ, source_head, spans_multiple_files,
    trim_ascii_start, trimmed_snippet_range,
};

const PYTHON: &str = "def outer():\n    def inner(x):\n        return helper(x)\n    return inner\n";

fn snippet(source: &'static str, start: usize, end: usize) -> Snippet<'static> {
    Snippet { language: "python", source: source.as_bytes(), range: ByteRange { start, end }, file_id: FileId(0) }
}

fn member(file: u32, start: usize, end: usize) -> Fingerprint {
    Fingerprint { hash: [0; 32], file_id: FileId(file), byte_range: ByteRange { start, end }, node_count: 1 }
}

#[test]
fn the_parser_is_chosen_by_language() {
    assert_eq!(grammar_for("python"), Some(Grammar::Python));
    assert_eq!(grammar_for("csharp"), Some(Grammar::CSharp));
    assert_eq!(grammar_for("rust"), Some(Grammar::Rust));
    assert_eq!(grammar_for("dart"), None);
    let tree = parse_for(&snippet(PYTHON, 0, 10)).expect("python parses");
    assert_eq!(tree.kind, "module");
    assert_eq!((tree.start_byte, tree.end_byte), (0, PYTHON.len()));
    assert!(parse_for(&Snippet { language: "dart", ..snippet(PYTHON, 0, 10) }).is_none());
}

#[test]
fn the_innermost_enclosing_function_is_found() {
    let tree = parse_for(&snippet(PYTHON, 0, 1)).expect("python parses");
    let inner_call = PYTHON.find("helper").expect("call present");
    let range = ByteRange { start: inner_call, end: inner_call + 6 };
    let function = enclosing_kind(&tree, range, &vec!["function_definition"]).expect("enclosed");
    assert_eq!(&PYTHON[function.start_byte..function.start_byte + 9], "def inner");
    assert!(enclosing_kind(&tree, range, &vec!["class_definition"]).is_none());
}

#[test]
fn kinds_and_identifiers_are_found_below_a_node() {
    let tree = parse_for(&snippet(PYTHON, 0, 1)).expect("python parses");
    assert!(node_contains_kind(&tree, "return_statement"));
    assert!(!node_contains_kind(&tree, "class_definition"));
    assert!(node_contains_identifier(&tree, PYTHON.as_bytes(), b"helper"));
    assert!(!node_contains_identifier(&tree, PYTHON.as_bytes(), b"nowhere"));
}

#[test]
fn a_kind_search_stops_at_hits_unless_nested_hits_are_asked_for() {
    let tree = parse_for(&snippet(PYTHON, 0, 1)).expect("python parses");
    let everything = ByteRange { start: 0, end: PYTHON.len() };
    let outer_only = KindSearch::enclosed(everything, vec!["function_definition"]).nodes(&tree);
    assert_eq!(outer_only.len(), 1);
    let nested = KindSearch::enclosed(everything, vec!["function_definition"]).with_nested_hits().nodes(&tree);
    assert_eq!(nested.len(), 2);
    assert!(nested[0].start_byte < nested[1].start_byte);
    let returns = KindSearch::intersecting(ByteRange { start: 20, end: 21 }, vec!["return_statement"]).nodes(&tree);
    assert!(returns.is_empty());
    let sole = KindSearch::enclosed(everything, vec!["call"]).sole_node(&tree).expect("one call");
    assert_eq!(&PYTHON[sole.start_byte..sole.end_byte], "helper(x)");
}

#[test]
fn a_reported_range_is_trimmed_to_its_text() {
    let source = "  \n x = 1 \n\n";
    assert_eq!(trimmed_snippet_range(&snippet(source, 0, source.len())), Some(ByteRange { start: 4, end: 9 }));
    assert_eq!(trimmed_snippet_range(&snippet(source, 0, 3)), None);
    assert_eq!(trimmed_snippet_range(&snippet(source, 5, 99)), None);
    assert_eq!(trim_ascii_start(b" \t\r\nabc "), b"abc ");
}

#[test]
fn byte_searches_and_file_heads() {
    assert!(contains_bytes(b"@generated code", b"generated"));
    assert!(!contains_bytes(b"generate", b"generated"));
    assert!(!contains_bytes(b"anything", b""));
    let long = vec![b'a'; 2000];
    assert_eq!(source_head(&long).len(), 1024);
    assert_eq!(source_head(b"short"), b"short");
}

#[test]
fn spread_and_language_gates() {
    assert!(spans_multiple_files(&[FileId(1), FileId(1), FileId(2)]));
    assert!(!spans_multiple_files(&[FileId(1), FileId(1)]));
    assert!(!spans_multiple_files(&[]));
    let pair = vec![snippet(PYTHON, 0, 3), snippet(PYTHON, 4, 7)];
    assert!(is_multi_member_language_cluster(&pair, "python"));
    assert!(!is_multi_member_language_cluster(&pair, "rust"));
    assert!(!is_multi_member_language_cluster(&pair[..1], "python"));
    assert!(raw_snippet_texts_differ(&pair));
    let same = vec![snippet(PYTHON, 0, 3), snippet(PYTHON, 0, 3)];
    assert!(!raw_snippet_texts_differ(&same));
}

#[test]
fn members_are_reread_from_their_files() {
    let languages = vec![
        FileLanguage { file_id: FileId(0), language: "python" },
        FileLanguage { file_id: FileId(1), language: "python" },
        FileLanguage { file_id: FileId(2), language: "rust" },
    ];
    assert_eq!(uniform_language(&[member(0, 0, 1), member(1, 0, 1)], &languages), Some("python"));
    assert_eq!(uniform_language(&[member(0, 0, 1), member(2, 0, 1)], &languages), None);
    assert_eq!(uniform_language(&[member(9, 0, 1)], &languages), None);
    assert_eq!(uniform_language(&[], &languages), None);
    let sources = vec![SourceFile { file_id: FileId(0), bytes: PYTHON.as_bytes().to_vec() }];
    let found = collect_snippets(&[member(0, 4, 9)], &sources, "python").expect("source present");
    assert_eq!(found.len(), 1);
    assert_eq!((found[0].range, found[0].file_id, found[0].language), (ByteRange { start: 4, end: 9 }, FileId(0), "python"));
    assert!(collect_snippets(&[member(0, 4, 9), member(1, 0, 1)], &sources, "python").is_none());
}
