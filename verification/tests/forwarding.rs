use deslop_core::cluster_filters::forwarding::delegation::{body_is_pure_delegation, collaborator_names};
use deslop_core::cluster_filters::forwarding::{forwarding_body, forwarding_grammar};
use deslop_core::cluster_filters::snippets::parse_with_plugin;
use deslop_core::cluster_filters::SyntaxNode;

const SETTINGS: &str = "class IndexSettings {
  final HttpClient http;
  IndexSettings(this.http);
  Future<Response> getSettings(String uid) {
    return http.getMethod(uid);
  }
  Future<Response> resetSettings(String uid) {
    final response = http.deleteMethod(uid);
    return response;
  }
  Future<Settings> decoded(String uid) => Settings.fromMap(http.getMethod(uid));
  Future<Task> deleted(String uid) => getTask(http.deleteMethod(uid));
  Future<List<Item>> listed() => http.list().map((item) => Item.fromMap(item));
  int standardPrice(Order order) => computePrice(order, \"standard\", 100);
  int total(Order order) => applyMarkup(http.fetch(order), \"standard\", 100);
  Future<int> counted(String uid) {
    if (uid.isEmpty) {
      return http.getMethod(uid);
    }
    return http.getMethod(uid);
  }
  Future<Response> own(String uid) {
    return this.lookup(uid);
  }
}
";

fn find_kind<'a>(node: &'a SyntaxNode, kind: &str) -> Option<&'a SyntaxNode> {
    if node.kind == kind {
        return Some(node);
    }
    node.children.iter().find_map(|child| find_kind(child, kind))
}

fn text<'a>(node: &SyntaxNode, source: &'a str) -> &'a str {
    &source[node.start_byte..node.end_byte]
}

fn member<'a>(container: &'a SyntaxNode, name: &str) -> &'a SyntaxNode {
    container
        .children
        .iter()
        .find(|child| child.named && child.kind == "member_declaration" && text(child, SETTINGS).contains(name))
        .expect("the member is declared")
}

fn forwarding(name: &str, language: &str) -> Option<Vec<u8>> {
    let tree = parse_with_plugin("dart", SETTINGS.as_bytes()).expect("dart parses");
    let container = find_kind(&tree, "class_body").expect("a class body");
    forwarding_body(member(container, name), container, language, SETTINGS.as_bytes()).map(|body| body.to_vec())
}

#[test]
fn a_client_call_that_is_returned_forwards() {
    assert_eq!(forwarding("getSettings", "dart"), Some(b"{\n    return http.getMethod(uid);\n  }".to_vec()));
}

#[test]
fn a_binding_whose_kind_is_off_the_allowlist_fails_open() {
    assert_eq!(forwarding("resetSettings", "dart"), None);
}

#[test]
fn consuming_what_the_client_returned_is_transport() {
    assert_eq!(forwarding("decoded", "dart"), Some(b"=> Settings.fromMap(http.getMethod(uid));".to_vec()));
    assert_eq!(forwarding("deleted", "dart"), Some(b"=> getTask(http.deleteMethod(uid));".to_vec()));
}

#[test]
fn a_callback_over_delegated_data_is_transport() {
    assert!(forwarding("listed", "dart").is_some());
}

#[test]
fn same_class_helper_calls_are_not_forwarding() {
    assert_eq!(forwarding("standardPrice", "dart"), None);
    assert_eq!(forwarding("own", "dart"), None);
}

#[test]
fn a_same_class_call_after_delegation_is_not_forwarding() {
    assert_eq!(forwarding("total", "dart"), None);
}

#[test]
fn a_branching_body_is_not_forwarding() {
    assert_eq!(forwarding("counted", "dart"), None);
}

#[test]
fn unwired_languages_never_forward() {
    assert_eq!(forwarding("getSettings", "python"), None);
    assert!(forwarding_grammar("python").is_none());
    assert!(forwarding_grammar("dart").is_some());
}

#[test]
fn collaborators_are_fields_and_member_parameters() {
    let tree = parse_with_plugin("dart", SETTINGS.as_bytes()).expect("dart parses");
    let container = find_kind(&tree, "class_body").expect("a class body");
    let grammar = forwarding_grammar("dart").expect("dart is wired");
    let getter = member(container, "getSettings");
    let names = collaborator_names(container, getter, &grammar, SETTINGS.as_bytes());
    assert!(names.contains(&b"http".as_slice()));
    assert!(names.contains(&b"uid".as_slice()));
    assert!(!names.contains(&b"response".as_slice()));
    let body = find_kind(getter, "function_body").expect("a body");
    assert!(body_is_pure_delegation(body, container, getter, &grammar, SETTINGS.as_bytes()));
}
