use deslop_core::ast::{ByteRange, FileId};
use deslop_core::clone_category::CloneCategory;
use deslop_core::cluster_filters::declaration_family::{
    container_kinds, every_window_is_family_noise, family_window, is_single_file_declaration_family, FamilyWindow,
};
use deslop_core::cluster_filters::snippets::Snippet;

const SETTINGS: &str = "class IndexSettings {
  final HttpClient http;
  IndexSettings(this.http);
  Future<Response> getSettings(String uid) {
    return http.getMethod(uid);
  }
  Future<Response> getStopWords(String uid) {
    return http.getMethod(uid);
  }
  Future<Response> resetStopWords(String uid) {
    return http.deleteMethod(uid);
  }
  int price(Order order) {
    if (order.total > 100) {
      return 1;
    }
    return 2;
  }
}
";

const PYTHON: &str = "class Handlers:\n    def first(self):\n        return 1\n\n    def second(self):\n        return 2\n\ndef run():\n    a = 1\n    b = 2\n    return a + b\n";

fn window(source: &'static str, language: &'static str, from: &str, to: &str, file: u32) -> Snippet<'static> {
    let start = source.find(from).expect("start marker");
    let end = source[start..].find(to).expect("end marker") + start + to.len();
    Snippet { language, source: source.as_bytes(), range: ByteRange { start, end }, file_id: FileId(file) }
}

fn member(name: &str, file: u32) -> Snippet<'static> {
    window(SETTINGS, "dart", &format!("Future<Response> {name}"), "\n  }", file)
}

#[test]
fn one_forwarding_member_is_a_wrapper_window() {
    match family_window(&member("getSettings", 0)) {
        Some(FamilyWindow::Wrapper(body)) => assert_eq!(body, b"{\n    return http.getMethod(uid);\n  }"),
        _ => panic!("expected a proven wrapper"),
    }
}

#[test]
fn a_run_of_members_is_a_sibling_window() {
    let run = window(SETTINGS, "dart", "Future<Response> getSettings", "deleteMethod(uid);\n  }", 0);
    assert!(matches!(family_window(&run), Some(FamilyWindow::SiblingRun)));
}

#[test]
fn statements_inside_a_logic_member_are_no_family_view() {
    let inner = window(SETTINGS, "dart", "if (order.total", "return 1;", 0);
    assert!(family_window(&inner).is_none());
    let logic = window(SETTINGS, "dart", "int price", "return 2;\n  }", 0);
    assert!(family_window(&logic).is_none());
}

#[test]
fn wrappers_to_different_routes_are_family_noise() {
    let snippets = [member("getSettings", 0), member("resetStopWords", 0)];
    assert!(every_window_is_family_noise(&snippets));
    assert!(is_single_file_declaration_family(&snippets, CloneCategory::Logic, true));
}

#[test]
fn two_wrappers_sharing_a_body_stay_visible() {
    let snippets = [member("getSettings", 0), member("getStopWords", 0)];
    assert!(!every_window_is_family_noise(&snippets));
    assert!(!is_single_file_declaration_family(&snippets, CloneCategory::Logic, true));
}

#[test]
fn every_other_count_must_hold_too() {
    let snippets = [member("getSettings", 0), member("resetStopWords", 0)];
    assert!(!is_single_file_declaration_family(&snippets, CloneCategory::Logic, false));
    assert!(!is_single_file_declaration_family(&snippets, CloneCategory::DataTable, true));
    assert!(!is_single_file_declaration_family(&[], CloneCategory::Logic, true));
    let spread = [member("getSettings", 0), member("resetStopWords", 1)];
    assert!(!is_single_file_declaration_family(&spread, CloneCategory::Logic, true));
}

#[test]
fn a_python_block_holds_declarations_only_as_a_class_body() {
    let methods = window(PYTHON, "python", "def first", "return 2", 0);
    assert!(matches!(family_window(&methods), Some(FamilyWindow::SiblingRun)));
    let statements = window(PYTHON, "python", "a = 1", "b = 2", 0);
    assert!(family_window(&statements).is_none());
}

#[test]
fn container_kinds_are_class_like() {
    assert_eq!(container_kinds("dart"), vec!["class_body", "extension_body", "mixin_body", "enum_body"]);
    assert_eq!(container_kinds("rust"), vec!["declaration_list"]);
    assert_eq!(container_kinds("python"), vec!["block"]);
    assert!(container_kinds("go").is_empty());
}
