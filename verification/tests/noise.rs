use deslop_core::ast::{ByteRange, FileId, Fingerprint};
use deslop_core::cluster::exact_runs::SourceFile;
use deslop_core::cluster::scope::FileLanguage;
use deslop_core::cluster_filters::noise::{
    call_shape, enclosing_function_bodies_differ, enclosing_function_name, has_differing_string_literals,
    is_literal_variation_call_cluster, is_monkeypatch_scaffolding_literal, is_monkeypatch_scaffolding_literal_cluster,
    is_polymorphic_signature_cluster, ArgShape, CallShape,
};
use deslop_core::cluster_filters::noise_bank::is_noise_pattern;
use deslop_core::cluster_filters::snippets::Snippet;

const SINK_A: &str = "class FileSink(Sink):\n    def write(self, data):\n        return self.f.write(data)\n";
const SINK_B: &str = "class NetSink(Sink):\n    def write(self, data):\n        return self.sock.send(data)\n";
const SINK_COPY: &str = "class CopySink(Sink):\n    def write(self, data):\n        return self.f.write(data)\n";
const DELETE_USERS: &str = "def test_users(client):\n    client.delete(\"/users\")\n";
const DELETE_TEAMS: &str = "def test_teams(client):\n    client.delete(\"/teams\")\n";
const SETENV: &str = "def test_env(monkeypatch):\n    monkeypatch.setenv(\"HOME\", \"/tmp\")\n";
const SETENV_OTHER: &str = "def test_path(monkeypatch):\n    monkeypatch.setenv(\"PATH\", \"/bin\")\n";
const COMPUTE_A: &str = "def f():\n    return compute(alpha)\n";
const COMPUTE_B: &str = "def g():\n    return compute(beta)\n";

fn range_of(source: &str, needle: &str) -> ByteRange {
    let start = source.find(needle).expect("needle present");
    ByteRange { start, end: start + needle.len() }
}

fn member(file: u32, range: ByteRange) -> Fingerprint {
    Fingerprint { hash: [3; 32], file_id: FileId(file), byte_range: range, node_count: 5 }
}

fn noise(first: &'static str, second: &'static str, needle_first: &str, needle_second: &str) -> bool {
    let snippets = vec![snippet(first, needle_first, 0), snippet(second, needle_second, 1)];
    is_polymorphic_signature_cluster(&snippets)
        || is_literal_variation_call_cluster(&snippets)
        || is_monkeypatch_scaffolding_literal_cluster(&snippets)
}

fn snippet(source: &'static str, needle: &str, file: u32) -> Snippet<'static> {
    Snippet { language: "python", source: source.as_bytes(), range: range_of(source, needle), file_id: FileId(file) }
}

#[test]
fn implementations_of_one_signature_across_files_are_noise() {
    assert!(noise(SINK_A, SINK_B, "(self, data)", "(self, data)"));
    let snippets = vec![snippet(SINK_A, "(self, data)", 0), snippet(SINK_B, "(self, data)", 1)];
    assert_eq!(enclosing_function_name(&snippets[0]), Some(b"write".to_vec()));
    assert!(enclosing_function_bodies_differ(&snippets));
    assert!(is_polymorphic_signature_cluster(&snippets));
}

#[test]
fn a_copied_helper_with_an_equal_body_is_not_noise() {
    assert!(!noise(SINK_A, SINK_COPY, "(self, data)", "(self, data)"));
    let one_file = vec![snippet(SINK_A, "(self, data)", 0), snippet(SINK_B, "(self, data)", 0)];
    assert!(!is_polymorphic_signature_cluster(&one_file));
}

#[test]
fn calls_varying_only_their_string_literals_are_noise() {
    assert!(noise(DELETE_USERS, DELETE_TEAMS, "client.delete(\"/users\")", "client.delete(\"/teams\")"));
    let snippets = vec![
        snippet(DELETE_USERS, "client.delete(\"/users\")", 0),
        snippet(DELETE_TEAMS, "client.delete(\"/teams\")", 1),
    ];
    let shape = call_shape(&snippets[0]).expect("a call");
    assert_eq!(shape.callee, b"client.delete".to_vec());
    assert_eq!(shape.arity, 1);
    assert!(is_literal_variation_call_cluster(&snippets));
}

#[test]
fn a_monkeypatch_literal_is_scaffolding() {
    assert!(is_monkeypatch_scaffolding_literal(&snippet(SETENV, "\"HOME\"", 0)));
    assert!(!is_monkeypatch_scaffolding_literal(&snippet(DELETE_USERS, "\"/users\"", 0)));
    assert!(noise(SETENV, SETENV_OTHER, "\"HOME\"", "\"PATH\""));
}

#[test]
fn ordinary_duplicates_and_mixed_languages_are_not_noise() {
    assert!(!noise(COMPUTE_A, COMPUTE_B, "compute(alpha)", "compute(beta)"));
    let sources = vec![SourceFile { file_id: FileId(0), bytes: SINK_A.as_bytes().to_vec() }];
    let languages = vec![
        FileLanguage { file_id: FileId(0), language: "python" },
        FileLanguage { file_id: FileId(1), language: "rust" },
    ];
    let members = vec![member(0, range_of(SINK_A, "write")), member(1, ByteRange { start: 0, end: 1 })];
    assert_eq!(is_noise_pattern(&members, &sources, &languages), None);
}

#[test]
fn a_later_call_without_a_string_makes_calls_incomparable() {
    let text = |value: &str| ArgShape::StringLiteral(value.as_bytes().to_vec());
    let call = |arguments: Vec<ArgShape>| CallShape { callee: b"f".to_vec(), arity: arguments.len(), arguments };
    assert!(has_differing_string_literals(&[call(vec![text("a")]), call(vec![text("b")])]));
    assert!(!has_differing_string_literals(&[call(vec![text("a")]), call(vec![ArgShape::Other])]));
    assert!(!has_differing_string_literals(&[call(vec![text("a")]), call(vec![text("a")])]));
    assert!(!has_differing_string_literals(&[call(vec![text("a")])]));
    assert!(!has_differing_string_literals(&[]));
}
