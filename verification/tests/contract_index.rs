use deslop_core::ast::{ByteRange, FileId};
use deslop_core::cluster::exact_runs::SourceFile;
use deslop_core::cluster::scope::FileLanguage;
use deslop_core::cluster_filters::contract_index::declarers::{declared_bases, declared_type_name, member_names};
use deslop_core::cluster_filters::contract_index::ContractIndex;
use deslop_core::cluster_filters::polymorphic::{is_polymorphic_signature_cluster, OwnedSubject};
use deslop_core::cluster_filters::snippets::{parse_with_plugin, Snippet};

const CONTRACTS: &str = "class Sink(ABC):\n    def write(self, data):\n        ...\n\nclass Buffered(Sink):\n    def flush(self):\n        pass\n";
const IMPLEMENTATIONS: &str = "class FileSink(Buffered):\n    def write(self, data):\n        return 1\n";
const CYCLE: &str = "class X(Y):\n    pass\n\nclass Y(X):\n    pass\n";

fn corpus() -> (Vec<SourceFile>, Vec<FileLanguage>) {
    let sources = vec![
        SourceFile { file_id: FileId(0), bytes: CONTRACTS.as_bytes().to_vec() },
        SourceFile { file_id: FileId(1), bytes: IMPLEMENTATIONS.as_bytes().to_vec() },
        SourceFile { file_id: FileId(2), bytes: CYCLE.as_bytes().to_vec() },
        SourceFile { file_id: FileId(3), bytes: b"class Sink { void write() {} }".to_vec() },
    ];
    let languages = vec![
        FileLanguage { file_id: FileId(0), language: "python" },
        FileLanguage { file_id: FileId(1), language: "python" },
        FileLanguage { file_id: FileId(2), language: "python" },
        FileLanguage { file_id: FileId(3), language: "csharp" },
    ];
    (sources, languages)
}

fn names(list: &[&str]) -> Vec<Vec<u8>> {
    list.iter().map(|name| name.as_bytes().to_vec()).collect()
}

#[test]
fn a_declarer_is_read_for_its_name_bases_and_members() {
    let tree = parse_with_plugin("python", CONTRACTS.as_bytes()).expect("python parses");
    let buffered = &tree.children.iter().filter(|child| child.named).nth(1).expect("second class");
    assert_eq!(declared_type_name(buffered, CONTRACTS.as_bytes()), Some(&b"Buffered"[..]));
    assert_eq!(declared_bases(buffered, CONTRACTS.as_bytes()), names(&["Sink"]));
    assert_eq!(member_names(buffered, CONTRACTS.as_bytes(), "python"), names(&["flush"]));
}

#[test]
fn a_method_declared_by_a_transitive_base_is_a_contract() {
    let (sources, languages) = corpus();
    let index = ContractIndex::build(&sources, &languages, "python");
    assert!(index.declares(&names(&["Buffered"]), b"write"));
    assert!(index.declares(&names(&["Sink"]), b"write"));
    assert!(!index.declares(&names(&["Buffered"]), b"read"));
    assert!(!index.declares(&names(&["Unknown"]), b"write"));
    assert!(!index.declares(&[], b"write"));
}

#[test]
fn a_cycle_of_bases_ends_without_proof() {
    let (sources, languages) = corpus();
    let index = ContractIndex::build(&sources, &languages, "python");
    assert!(!index.declares(&names(&["X"]), b"write"));
}

#[test]
fn contracts_of_another_language_are_unrelated() {
    let (sources, languages) = corpus();
    let csharp = ContractIndex::build(&sources, &languages, "csharp");
    assert!(csharp.declares(&names(&["Sink"]), b"write"));
    assert!(!csharp.declares(&names(&["Buffered"]), b"write"));
}

fn snippet(file: u32) -> Snippet<'static> {
    Snippet { language: "python", source: IMPLEMENTATIONS.as_bytes(), range: ByteRange { start: 0, end: 4 }, file_id: FileId(file) }
}

fn subject(name: &str, bases: &[&str], digest: u8) -> OwnedSubject {
    OwnedSubject { name: name.as_bytes().to_vec(), bases: names(bases), shape_digest: [digest; 32], overrides: false, abstract_declaration: false }
}

#[test]
fn implementations_of_one_declared_method_across_files_are_polymorphism() {
    let (sources, languages) = corpus();
    let index = ContractIndex::build(&sources, &languages, "python");
    let snippets = vec![snippet(0), snippet(1)];
    let subjects = vec![subject("write", &["Buffered"], 1), subject("write", &["Sink"], 2)];
    assert!(is_polymorphic_signature_cluster(&snippets, Some(subjects), &index));
}

#[test]
fn a_copied_helper_sharing_only_its_name_is_not_polymorphism() {
    let (sources, languages) = corpus();
    let index = ContractIndex::build(&sources, &languages, "python");
    let snippets = vec![snippet(0), snippet(1)];
    let undeclared = vec![subject("helper", &["Buffered"], 1), subject("helper", &["Sink"], 2)];
    assert!(!is_polymorphic_signature_cluster(&snippets, Some(undeclared), &index));
    let same_body = vec![subject("write", &["Buffered"], 1), subject("write", &["Sink"], 1)];
    assert!(!is_polymorphic_signature_cluster(&snippets, Some(same_body), &index));
    let one_file = vec![snippet(0), snippet(0)];
    let declared = vec![subject("write", &["Buffered"], 1), subject("write", &["Sink"], 2)];
    assert!(!is_polymorphic_signature_cluster(&one_file, Some(declared), &index));
    assert!(!is_polymorphic_signature_cluster(&snippets, None, &index));
    let marked = vec![
        OwnedSubject { overrides: true, ..subject("render", &[], 1) },
        OwnedSubject { abstract_declaration: true, ..subject("render", &[], 2) },
    ];
    assert!(is_polymorphic_signature_cluster(&snippets, Some(marked), &index));
}
