use deslop_core::ast::{ByteRange, FileId};
use deslop_core::cluster_filters::body_shape::{body_digest, body_kind_stream, is_behaviour_bearing_token, ShapeToken};
use deslop_core::cluster_filters::calls::callee::{call_shape_from_node, canonical_callee};
use deslop_core::cluster_filters::calls::dataflow::{assigned_binding, consumed_identifiers};
use deslop_core::cluster_filters::calls::statements::{covered_statements_admissible, is_statement_shape};
use deslop_core::cluster_filters::calls::{call_sequence, call_shape, call_shapes_in_range, held_call, ArgShape, CalleePart};
use deslop_core::cluster_filters::snippets::{parse_with_plugin, Snippet};
use deslop_core::cluster_filters::SyntaxNode;

const HELPER: &str = "export async function checkHeader(page) {\n  const headerBox = await page.locator(\".site-header\").boundingBox();\n  expect(headerBox.y).toBe(0);\n}\n";
const SCENARIO: &str = "test(\"points an optional empty record at the null offset\", () => {\n  const schema = loadFixture(\"empty-record-optional.td\");\n  const generated = generateRust(schema, { tdbin: true });\n  expect(generated).toContain(\"pub marker: Option<EmptyMarker>\");\n});\n";
const PYTHON_RUN: &str = "def test_delete(client):\n    resp = client.delete(f\"/api/{key}\")\n    assert resp.status_code == 204\n";

fn between(language: &'static str, source: &'static str, from: &str, through: &str) -> Snippet<'static> {
    let start = source.find(from).expect("the start is in the source");
    let end = source.find(through).expect("the end is in the source") + through.len();
    Snippet { language, source: source.as_bytes(), range: ByteRange { start, end }, file_id: FileId(0) }
}

fn find<'a>(node: &'a SyntaxNode, kind: &str, start: usize) -> Option<&'a SyntaxNode> {
    if node.kind == kind && node.start_byte == start {
        return Some(node);
    }
    node.children.iter().find_map(|child| find(child, kind, start))
}

#[test]
fn an_awaited_expression_is_judged_by_the_call_it_holds() {
    let snippet = between("typescript", HELPER, "await page", ".boundingBox()");
    let shape = call_shape(&snippet).expect("the held call");
    assert_eq!(shape.arity, 1, "the receiver's locator call contributes its selector slot");
    assert!(matches!(&shape.arguments[0], ArgShape::StringLiteral(bytes, false) if bytes == b"\".site-header\""));
    assert!(shape.callee.contains(&CalleePart::Text(b"boundingBox".to_vec())));
    assert!(!shape.callee.contains(&CalleePart::Text(b"page".to_vec())), "a receiver's name is normalised away");
    assert!(shape.callee.contains(&CalleePart::Payload));
    let tree = parse_with_plugin("typescript", HELPER.as_bytes()).expect("typescript parses");
    assert!(held_call(&tree, snippet.range, "typescript").is_some());
    let whole = Snippet { range: ByteRange { start: 0, end: HELPER.len() }, ..snippet };
    assert!(held_call(&tree, whole.range, "typescript").is_none(), "a range holding statements is a run");
}

#[test]
fn a_scenario_reads_as_its_calls_in_order_with_bindings_and_consumption() {
    let snippet = Snippet { language: "typescript", source: SCENARIO.as_bytes(), range: ByteRange { start: 0, end: SCENARIO.len() - 1 }, file_id: FileId(0) };
    let shapes = call_shapes_in_range(&snippet).expect("typescript parses");
    assert_eq!(shapes.len(), 4, "test, loadFixture, generateRust and the expectation; the receiver expect(..) is no step");
    assert!(matches!(&shapes[0].arguments[1], ArgShape::Body));
    assert_eq!(shapes[1].result_binding, Some(b"schema".to_vec()));
    assert_eq!(shapes[2].result_binding, Some(b"generated".to_vec()));
    assert_eq!(shapes[2].consumed_identifiers, vec![b"schema".to_vec()]);
    assert_eq!(shapes[3].consumed_identifiers, vec![b"generated".to_vec()], "a receiver's argument is consumed");
    let cell = call_sequence(&snippet);
    assert!(cell.statements_admissible);
    assert_eq!(cell.shapes.map(|shapes| shapes.len()), Some(4));
}

#[test]
fn bindings_and_receivers_are_read_from_the_tree() {
    let tree = parse_with_plugin("python", PYTHON_RUN.as_bytes()).expect("python parses");
    let start = PYTHON_RUN.find("client.delete").expect("the call");
    let call = find(&tree, "call", start).expect("the call node");
    assert_eq!(assigned_binding(&tree, call, PYTHON_RUN.as_bytes()), Some(b"resp".to_vec()));
    assert_eq!(consumed_identifiers(call, PYTHON_RUN.as_bytes()), vec![b"client".to_vec(), b"key".to_vec()]);
    let shape = call_shape_from_node(call, &tree, PYTHON_RUN.as_bytes(), "python").expect("a function child");
    assert!(matches!(&shape.arguments[0], ArgShape::StringLiteral(_, true)), "an f-string interpolates");
    let function = &call.children[0];
    let callee = canonical_callee(function, PYTHON_RUN.as_bytes(), "python");
    assert!(callee.contains(&CalleePart::Text(b"delete".to_vec())));
    assert!(!callee.contains(&CalleePart::Text(b"client".to_vec())));
}

#[test]
fn a_lone_assertion_on_a_bound_value_is_admissible() {
    let snippet = between("python", PYTHON_RUN, "resp = ", "== 204");
    assert!(covered_statements_admissible(&snippet));
    let unrelated = "def t(client):\n    client.delete(\"/x\")\n    assert other == 1\n";
    let snippet = between("python", unrelated, "client.delete", "== 1");
    assert!(!covered_statements_admissible(&snippet), "an assertion on outside state is authored logic");
}

#[test]
fn statements_are_named_by_their_grammar_and_rust_let_is_one() {
    assert!(is_statement_shape("expression_statement"));
    assert!(is_statement_shape("let_declaration"));
    assert!(is_statement_shape("lexical_declaration"));
    assert!(!is_statement_shape("statement_block"));
    assert!(!is_statement_shape("call_expression"));
}

#[test]
fn a_body_stream_sees_operators_and_collaborators_but_not_names() {
    let plus = "def total(self):\n    return self.base + self.fee\n";
    let minus = "def total(self):\n    return self.base - self.fee\n";
    let renamed = "def total(this):\n    return this.base + this.fee\n";
    let tree = |source: &str| parse_with_plugin("python", source.as_bytes()).expect("python parses");
    let stream = |source: &str| {
        let tree = tree(source);
        let body = find(&tree, "block", source.find("return").expect("a return")).expect("the body");
        body_kind_stream(body, source.as_bytes())
    };
    let digest = |source: &str| {
        let tree = tree(source);
        let body = find(&tree, "block", source.find("return").expect("a return")).expect("the body");
        body_digest(body, source.as_bytes())
    };
    assert_ne!(stream(plus), stream(minus));
    assert_eq!(digest(plus), digest(renamed));
    assert!(stream(plus).contains(&ShapeToken::Symbol(b"base".to_vec())), "a member selector is a collaborator");
    assert!(!stream(plus).contains(&ShapeToken::Symbol(b"self".to_vec())));
    assert!(matches!(stream(plus).last(), Some(ShapeToken::Close)));
    assert!(is_behaviour_bearing_token("+") && !is_behaviour_bearing_token("("));
}
