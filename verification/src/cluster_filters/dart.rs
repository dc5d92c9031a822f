//! Dart-specific false-positive filters: Flutter widget classes that only
//! construct other widgets, whose framework-mandated shape repeats across
//! every screen.

use vstd::prelude::*;

use super::node_search::{
    deref_node, node_enclosed_by_range, node_intersects_range, nodes_view, span_is, spec_enclosed, spec_intersects,
    spec_search_hits, spec_span, Bound, KindSearch, Nested,
};
use super::override_marker::{child_by_field_name, spec_child_by_field};
use super::python::{raw_texts_differ, spec_first_kind_any, spec_raw_texts_differ_views};
use super::snippets::{parse_snippet, snippets_view, spec_plugin_parse, Snippet, SnippetView};
use super::syntax::{sole_named_child, spec_sole_named};
use super::{kind_in, kinds_view, SyntaxNode};
use crate::ast::ByteRange;
use crate::text::{same_bytes, same_text};

verus! {

/// The bytes of `StatelessWidget`.
pub open spec fn spec_stateless_widget() -> Seq<u8> {
    seq![83u8, 116, 97, 116, 101, 108, 101, 115, 115, 87, 105, 100, 103, 101, 116]
}

/// The bytes of `StatefulWidget`.
pub open spec fn spec_stateful_widget() -> Seq<u8> {
    seq![83u8, 116, 97, 116, 101, 102, 117, 108, 87, 105, 100, 103, 101, 116]
}

/// The bytes of `State`.
pub open spec fn spec_state_marker() -> Seq<u8> {
    seq![83u8, 116, 97, 116, 101]
}

/// The bytes of `main`.
pub open spec fn spec_main_name() -> Seq<u8> {
    seq![109u8, 97, 105, 110]
}

/// The bytes of `runApp`.
pub open spec fn spec_run_app() -> Seq<u8> {
    seq![114u8, 117, 110, 65, 112, 112]
}

/// The bytes of `build`.
pub open spec fn spec_build_name() -> Seq<u8> {
    seq![98u8, 117, 105, 108, 100]
}

/// The bytes of `StatelessWidget`.
fn stateless_widget() -> (bytes: [u8; 15])
    ensures
        bytes@ == spec_stateless_widget(),
{
    let bytes: [u8; 15] = [83, 116, 97, 116, 101, 108, 101, 115, 115, 87, 105, 100, 103, 101, 116];
    assert(bytes@ =~= spec_stateless_widget());
    bytes
}

/// The bytes of `StatefulWidget`.
fn stateful_widget() -> (bytes: [u8; 14])
    ensures
        bytes@ == spec_stateful_widget(),
{
    let bytes: [u8; 14] = [83, 116, 97, 116, 101, 102, 117, 108, 87, 105, 100, 103, 101, 116];
    assert(bytes@ =~= spec_stateful_widget());
    bytes
}

/// The bytes of `State`.
fn state_marker() -> (bytes: [u8; 5])
    ensures
        bytes@ == spec_state_marker(),
{
    let bytes: [u8; 5] = [83, 116, 97, 116, 101];
    assert(bytes@ =~= spec_state_marker());
    bytes
}

/// The bytes of `main`.
fn main_name() -> (bytes: [u8; 4])
    ensures
        bytes@ == spec_main_name(),
{
    let bytes: [u8; 4] = [109, 97, 105, 110];
    assert(bytes@ =~= spec_main_name());
    bytes
}

/// The bytes of `runApp`.
fn run_app() -> (bytes: [u8; 6])
    ensures
        bytes@ == spec_run_app(),
{
    let bytes: [u8; 6] = [114, 117, 110, 65, 112, 112];
    assert(bytes@ =~= spec_run_app());
    bytes
}

/// The bytes of `build`.
fn build_name() -> (bytes: [u8; 5])
    ensures
        bytes@ == spec_build_name(),
{
    let bytes: [u8; 5] = [98, 117, 105, 108, 100];
    assert(bytes@ =~= spec_build_name());
    bytes
}

/// A closed set of construction-only body nodes: computation, control
/// flow, closures and unknown syntax cannot establish scaffolding.
pub open spec fn spec_scaffold_body_kinds() -> Seq<Seq<char>> {
    seq![
        "function_body"@,
        "block"@,
        "return_statement"@,
        "call_expression"@,
        "member_expression"@,
        "arguments"@,
        "named_argument"@,
        "label"@,
        "identifier"@,
        "type"@,
        "type_identifier"@,
        "type_arguments"@,
        "instantiation_expression"@,
        "list_literal"@,
        "decimal_integer_literal"@,
        "decimal_floating_point_literal"@,
        "true"@,
        "false"@,
        "null_literal"@,
        "string_literal"@,
        "string_literal_single_quotes"@,
        "string_literal_double_quotes"@,
        "template_chars_single_single"@,
        "template_chars_double_single"@,
    ]
}

fn scaffold_body_kinds() -> (kinds: Vec<&'static str>)
    ensures
        kinds_view(kinds@) == spec_scaffold_body_kinds(),
{
    let kinds = vec![
        "function_body",
        "block",
        "return_statement",
        "call_expression",
        "member_expression",
        "arguments",
        "named_argument",
        "label",
        "identifier",
        "type",
        "type_identifier",
        "type_arguments",
        "instantiation_expression",
        "list_literal",
        "decimal_integer_literal",
        "decimal_floating_point_literal",
        "true",
        "false",
        "null_literal",
        "string_literal",
        "string_literal_single_quotes",
        "string_literal_double_quotes",
        "template_chars_single_single",
        "template_chars_double_single",
    ];
    assert(kinds_view(kinds@) =~= spec_scaffold_body_kinds());
    kinds
}

/// Whether every node of a body is construction-only syntax; grammar
/// extras such as comments are passed over with what they hold.
pub open spec fn spec_body_is_scaffold(node: SyntaxNode) -> bool
    decreases node, 1int,
{
    node.extra || (spec_scaffold_body_kinds().contains(node.kind@)
        && spec_children_scaffold(node.children@, node.children@.len() as int))
}

/// Every one of the first `k` named children is scaffolding.
pub open spec fn spec_children_scaffold(children: Seq<SyntaxNode>, k: int) -> bool
    decreases children, k,
{
    if k <= 0 || k > children.len() {
        true
    } else {
        spec_children_scaffold(children, k - 1) && (!children[k - 1].named || spec_body_is_scaffold(children[k - 1]))
    }
}

proof fn lemma_children_scaffold_stop(children: Seq<SyntaxNode>, k: int, n: int)
    requires
        0 < k <= n <= children.len(),
        !spec_children_scaffold(children, k),
    ensures
        !spec_children_scaffold(children, n),
    decreases n - k,
{
    if k < n {
        lemma_children_scaffold_stop(children, k, n - 1);
    }
}

fn scaffold_in(node: &SyntaxNode, kinds: &Vec<&'static str>) -> (scaffold: bool)
    requires
        kinds_view(kinds@) == spec_scaffold_body_kinds(),
    ensures
        scaffold == spec_body_is_scaffold(*node),
    decreases *node,
{
    if node.extra {
        return true;
    }
    if !kind_in(node.kind.as_str(), kinds) {
        return false;
    }
    let mut index: usize = 0;
    while index < node.children.len()
        invariant
            index <= node.children@.len(),
            kinds_view(kinds@) == spec_scaffold_body_kinds(),
            !node.extra,
            spec_scaffold_body_kinds().contains(node.kind@),
            spec_children_scaffold(node.children@, index as int),
        decreases node.children@.len() - index,
    {
        let child = &node.children[index];
        assert(decreases_to!(*node => node.children@[index as int]));
        if child.named && !scaffold_in(child, kinds) {
            proof {
                lemma_children_scaffold_stop(node.children@, index as int + 1, node.children@.len() as int);
            }
            return false;
        }
        index = index + 1;
    }
    true
}

/// Rejects authored computation and unknown syntax anywhere in a body.
pub fn body_is_scaffold(body: &SyntaxNode) -> (scaffold: bool)
    ensures
        scaffold == spec_body_is_scaffold(*body),
{
    let kinds = scaffold_body_kinds();
    scaffold_in(body, &kinds)
}

/// The declared name of a function or method, read through its signature.
pub open spec fn spec_declaration_name(node: SyntaxNode, source: Seq<u8>) -> Option<Seq<u8>> {
    match spec_child_by_field(node, "signature"@) {
        None => None,
        Some(signature) => {
            let function = if signature.kind@ == "method_signature"@ {
                spec_first_kind_any(signature.children@, 0)
            } else {
                Some(signature)
            };
            match function {
                None => None,
                Some(function) => match spec_child_by_field(function, "name"@) {
                    Some(name) => spec_span(source, name.start_byte, name.end_byte),
                    None => None,
                },
            }
        },
    }
}

/// The first named child of `node`.
fn first_named<'a>(node: &'a SyntaxNode) -> (child: Option<&'a SyntaxNode>)
    ensures
        deref_node(child) == spec_first_kind_any(node.children@, 0),
{
    let mut index: usize = 0;
    while index < node.children.len()
        invariant
            index <= node.children@.len(),
            spec_first_kind_any(node.children@, 0) == spec_first_kind_any(node.children@, index as int),
        decreases node.children@.len() - index,
    {
        if node.children[index].named {
            return Some(&node.children[index]);
        }
        index = index + 1;
    }
    None
}

/// Whether the declared name of a function or method is `name`.
pub fn declaration_name_is(node: &SyntaxNode, source: &[u8], name: &[u8]) -> (same: bool)
    ensures
        same == (spec_declaration_name(*node, source@) == Some(name@)),
{
    let signature = match child_by_field_name(node, "signature") {
        Some(signature) => signature,
        None => return false,
    };
    let function = if same_text(signature.kind.as_str(), "method_signature") {
        match first_named(signature) {
            Some(function) => function,
            None => return false,
        }
    } else {
        signature
    };
    match child_by_field_name(function, "name") {
        Some(declared) => span_is(source, declared.start_byte, declared.end_byte, name),
        None => false,
    }
}

/// The single call a launcher body unwraps to: a call itself, or the one
/// named child of a body, block or expression statement.
pub open spec fn spec_launcher_call(node: SyntaxNode) -> Option<SyntaxNode>
    decreases node,
{
    if node.kind@ == "call_expression"@ {
        Some(node)
    } else if node.kind@ == "function_body"@ || node.kind@ == "block"@ || node.kind@ == "expression_statement"@ {
        let p = spec_sole_named(node.children@);
        if 0 <= p < node.children@.len() { spec_launcher_call(node.children@[p]) } else { None }
    } else {
        None
    }
}

/// Unwraps only a single call, rejecting additional statements.
pub fn launcher_call(node: &SyntaxNode) -> (call: Option<&SyntaxNode>)
    ensures
        deref_node(call) == spec_launcher_call(*node),
    decreases *node,
{
    if same_text(node.kind.as_str(), "call_expression") {
        return Some(node);
    }
    if same_text(node.kind.as_str(), "function_body") || same_text(node.kind.as_str(), "block")
        || same_text(node.kind.as_str(), "expression_statement") {
        return match sole_named_child(node) {
            Some(child) => {
                assert(decreases_to!(*node => node.children@[spec_sole_named(node.children@)]));
                launcher_call(child)
            },
            None => None,
        };
    }
    None
}

/// A complete `main` declaration, inside `range`, whose body is one call
/// of `runApp` with construction-only arguments.
pub open spec fn spec_is_contained_main_launcher(node: SyntaxNode, range: ByteRange, source: Seq<u8>) -> bool {
    &&& spec_enclosed(node, range)
    &&& node.kind@ == "function_declaration"@
    &&& spec_declaration_name(node, source) == Some(spec_main_name())
    &&& match spec_child_by_field(node, "body"@) {
        None => false,
        Some(body) => match spec_launcher_call(body) {
            None => false,
            Some(call) => match spec_child_by_field(call, "function"@) {
                Some(callee) => callee.kind@ == "identifier"@
                    && spec_span(source, callee.start_byte, callee.end_byte) == Some(spec_run_app())
                    && spec_body_is_scaffold(call),
                None => false,
            },
        },
    }
}

/// Recognises only a complete `main` declaration calling `runApp` once.
pub fn is_contained_main_launcher(node: &SyntaxNode, range: ByteRange, source: &[u8]) -> (launcher: bool)
    ensures
        launcher == spec_is_contained_main_launcher(*node, range, source@),
{
    if !node_enclosed_by_range(node, range) {
        return false;
    }
    if !same_text(node.kind.as_str(), "function_declaration") || !declaration_name_is(node, source, &main_name()) {
        return false;
    }
    let body = match child_by_field_name(node, "body") {
        Some(body) => body,
        None => return false,
    };
    let call = match launcher_call(body) {
        Some(call) => call,
        None => return false,
    };
    match child_by_field_name(call, "function") {
        Some(callee) => same_text(callee.kind.as_str(), "identifier")
            && span_is(source, callee.start_byte, callee.end_byte, &run_app()) && body_is_scaffold(call),
        None => false,
    }
}

/// Whether `bytes` names one of the framework widget superclasses.
pub open spec fn spec_is_widget_marker(bytes: Seq<u8>) -> bool {
    bytes == spec_stateless_widget() || bytes == spec_stateful_widget() || bytes == spec_state_marker()
}

/// A class whose superclass type is exactly a Flutter widget marker.
pub open spec fn spec_is_widget_superclass(node: SyntaxNode, source: Seq<u8>) -> bool {
    match spec_child_by_field(node, "superclass"@) {
        None => false,
        Some(superclass) => match spec_child_by_field(superclass, "type"@) {
            None => false,
            Some(kind) => match spec_first_kind_any(kind.children@, 0) {
                None => false,
                Some(name) => name.kind@ == "type_identifier"@ && match spec_span(source, name.start_byte, name.end_byte) {
                    Some(bytes) => spec_is_widget_marker(bytes),
                    None => false,
                },
            },
        },
    }
}

/// Matches the parsed superclass identifier exactly, without substrings.
pub fn is_widget_superclass(node: &SyntaxNode, source: &[u8]) -> (widget: bool)
    ensures
        widget == spec_is_widget_superclass(*node, source@),
{
    let superclass = match child_by_field_name(node, "superclass") {
        Some(superclass) => superclass,
        None => return false,
    };
    let kind = match child_by_field_name(superclass, "type") {
        Some(kind) => kind,
        None => return false,
    };
    let name = match first_named(kind) {
        Some(name) => name,
        None => return false,
    };
    if !same_text(name.kind.as_str(), "type_identifier") {
        return false;
    }
    span_is(source, name.start_byte, name.end_byte, &stateless_widget())
        || span_is(source, name.start_byte, name.end_byte, &stateful_widget())
        || span_is(source, name.start_byte, name.end_byte, &state_marker())
}

/// The executable bodies a search over `range` meets under `node`.
pub open spec fn spec_executable_bodies(node: SyntaxNode, range: ByteRange) -> Seq<SyntaxNode> {
    spec_search_hits(range, Bound::Enclosed, Nested::Skip, seq!["function_body"@, "function_expression"@], node)
}

/// Every covered executable body proves construction-only scaffolding.
pub open spec fn spec_has_only_scaffold_bodies(node: SyntaxNode, range: ByteRange) -> bool {
    forall|i: int| 0 <= i < spec_executable_bodies(node, range).len()
        ==> spec_body_is_scaffold(#[trigger] spec_executable_bodies(node, range)[i])
}

/// Every covered executable body must prove construction-only scaffolding.
pub fn has_only_scaffold_bodies(node: &SyntaxNode, range: ByteRange) -> (scaffold: bool)
    ensures
        scaffold == spec_has_only_scaffold_bodies(*node, range),
{
    let kinds = vec!["function_body", "function_expression"];
    assert(kinds_view(kinds@) =~= seq!["function_body"@, "function_expression"@]);
    let search = KindSearch::enclosed(range, kinds);
    let bodies = search.nodes(node);
    let ghost found = nodes_view(bodies@);
    assert(found == spec_executable_bodies(*node, range));
    let mut index: usize = 0;
    while index < bodies.len()
        invariant
            index <= bodies@.len(),
            found == nodes_view(bodies@),
            found == spec_executable_bodies(*node, range),
            found.len() == bodies@.len(),
            forall|i: int| 0 <= i < index ==> spec_body_is_scaffold(#[trigger] found[i]),
        decreases bodies@.len() - index,
    {
        assert(found[index as int] == *bodies@[index as int]);
        if !body_is_scaffold(bodies[index]) {
            return false;
        }
        index = index + 1;
    }
    true
}

/// A class declaration inside `range` whose superclass is a widget marker
/// and whose covered bodies are construction-only.
pub open spec fn spec_is_contained_widget_scaffold_class(node: SyntaxNode, range: ByteRange, source: Seq<u8>) -> bool {
    &&& node.kind@ == "class_declaration"@
    &&& spec_enclosed(node, range)
    &&& spec_is_widget_superclass(node, source)
    &&& spec_has_only_scaffold_bodies(node, range)
}

/// True when `node` is a class declaration fully inside the range whose
/// superclass names a Flutter widget marker and whose bodies only build.
pub fn is_contained_widget_scaffold_class(node: &SyntaxNode, range: ByteRange, source: &[u8]) -> (scaffold: bool)
    ensures
        scaffold == spec_is_contained_widget_scaffold_class(*node, range, source@),
{
    same_text(node.kind.as_str(), "class_declaration") && node_enclosed_by_range(node, range)
        && is_widget_superclass(node, source) && has_only_scaffold_bodies(node, range)
}

/// Every top-level item touching the range is a widget scaffold class or
/// a `runApp` launcher, and at least one is a widget scaffold class.
pub open spec fn spec_widget_scaffold_in(root: SyntaxNode, range: ByteRange, source: Seq<u8>) -> bool {
    let children = root.children@;
    &&& forall|i: int| 0 <= i < children.len() && (#[trigger] children[i]).named && spec_intersects(children[i], range)
        ==> spec_is_contained_widget_scaffold_class(children[i], range, source)
            || spec_is_contained_main_launcher(children[i], range, source)
    &&& exists|i: int| 0 <= i < children.len() && (#[trigger] children[i]).named && spec_intersects(children[i], range)
        && spec_is_contained_widget_scaffold_class(children[i], range, source)
}

/// Whether the top-level items of `root` touching `range` are widget
/// scaffolding only, with at least one widget class.
pub fn widget_scaffold_in(root: &SyntaxNode, range: ByteRange, source: &[u8]) -> (scaffold: bool)
    ensures
        scaffold == spec_widget_scaffold_in(*root, range, source@),
{
    let mut covered = false;
    let mut index: usize = 0;
    while index < root.children.len()
        invariant
            index <= root.children@.len(),
            forall|i: int| 0 <= i < index && (#[trigger] root.children@[i]).named && spec_intersects(root.children@[i], range)
                ==> spec_is_contained_widget_scaffold_class(root.children@[i], range, source@)
                    || spec_is_contained_main_launcher(root.children@[i], range, source@),
            covered == exists|i: int| 0 <= i < index && (#[trigger] root.children@[i]).named
                && spec_intersects(root.children@[i], range)
                && spec_is_contained_widget_scaffold_class(root.children@[i], range, source@),
        decreases root.children@.len() - index,
    {
        let child = &root.children[index];
        if child.named && node_intersects_range(child, range) {
            if is_contained_widget_scaffold_class(child, range, source) {
                covered = true;
            } else if !is_contained_main_launcher(child, range, source) {
                return false;
            }
        }
        index = index + 1;
    }
    covered
}

/// Whether a member covers widget scaffolding only, in its parsed file.
pub open spec fn spec_covers_only_widget_scaffold_classes(snippet: SnippetView) -> bool {
    match spec_plugin_parse(snippet.language, snippet.source) {
        Some(tree) => spec_widget_scaffold_in(tree, snippet.range, snippet.source),
        None => false,
    }
}

/// True when the snippet covers at least one widget-scaffold class and
/// nothing else but a `runApp` launcher.
pub fn covers_only_widget_scaffold_classes(snippet: &Snippet) -> (scaffold: bool)
    ensures
        scaffold == spec_covers_only_widget_scaffold_classes(snippet@),
{
    match parse_snippet(snippet) {
        Some(tree) => widget_scaffold_in(&tree, snippet.range, snippet.source),
        None => false,
    }
}

/// The `build` bodies among the first `k` method hits, in order; `None`
/// where a `build` method has no body in the source.
pub open spec fn spec_build_bodies(methods: Seq<SyntaxNode>, source: Seq<u8>, k: int) -> Option<Seq<Seq<u8>>>
    decreases k,
{
    if k <= 0 || k > methods.len() {
        Some(seq![])
    } else {
        match spec_build_bodies(methods, source, k - 1) {
            None => None,
            Some(before) => if spec_declaration_name(methods[k - 1], source) == Some(spec_build_name()) {
                match spec_child_by_field(methods[k - 1], "body"@) {
                    None => None,
                    Some(body) => match spec_span(source, body.start_byte, body.end_byte) {
                        Some(bytes) => Some(before.push(bytes)),
                        None => None,
                    },
                }
            } else {
                Some(before)
            },
        }
    }
}

/// The method declarations inside `range` under `root`.
pub open spec fn spec_methods_in(root: SyntaxNode, range: ByteRange) -> Seq<SyntaxNode> {
    spec_search_hits(range, Bound::Enclosed, Nested::Skip, seq!["method_declaration"@], root)
}

/// The complete `build` bodies a member's range holds, read from its
/// parsed file.
pub open spec fn spec_build_body_bytes(snippet: SnippetView) -> Option<Seq<Seq<u8>>> {
    match spec_plugin_parse(snippet.language, snippet.source) {
        None => None,
        Some(tree) => {
            let methods = spec_methods_in(tree, snippet.range);
            spec_build_bodies(methods, snippet.source, methods.len() as int)
        },
    }
}

/// Collects the complete `build` bodies contained in the reported range.
#[verifier::loop_isolation(false)]
pub fn build_body_bytes(snippet: &Snippet) -> (bodies: Option<Vec<Vec<u8>>>)
    ensures
        match bodies {
            Some(found) => spec_build_body_bytes(snippet@) == Some(crate::text::byte_strings_view(found@)),
            None => spec_build_body_bytes(snippet@) is None,
        },
{
    let tree = match parse_snippet(snippet) {
        Some(tree) => tree,
        None => return None,
    };
    let kinds = vec!["method_declaration"];
    assert(kinds_view(kinds@) =~= seq!["method_declaration"@]);
    let search = KindSearch::enclosed(snippet.range, kinds);
    let methods = search.nodes(&tree);
    let ghost found = nodes_view(methods@);
    assert(found == spec_methods_in(tree, snippet.range));
    let name = build_name();
    let mut bodies: Vec<Vec<u8>> = Vec::new();
    let mut index: usize = 0;
    while index < methods.len()
        invariant
            index <= methods@.len(),
            name@ == spec_build_name(),
            found == nodes_view(methods@),
            found.len() == methods@.len(),
            spec_build_bodies(found, snippet.source@, index as int) == Some(crate::text::byte_strings_view(bodies@)),
        decreases methods@.len() - index,
    {
        let method = methods[index];
        assert(found[index as int] == *method);
        if declaration_name_is(method, snippet.source, &name) {
            let body = match child_by_field_name(method, "body") {
                Some(body) => body,
                None => {
                    proof {
                        lemma_build_bodies_stop(found, snippet.source@, index as int + 1, found.len() as int);
                    }
                    return None;
                },
            };
            if !(body.start_byte <= body.end_byte && body.end_byte <= snippet.source.len()) {
                proof {
                    lemma_build_bodies_stop(found, snippet.source@, index as int + 1, found.len() as int);
                }
                return None;
            }
            let mut bytes: Vec<u8> = Vec::new();
            bytes.extend_from_slice(vstd::slice::slice_subrange(snippet.source, body.start_byte, body.end_byte));
            assert(bytes@ =~= snippet.source@.subrange(body.start_byte as int, body.end_byte as int));
            let ghost before = crate::text::byte_strings_view(bodies@);
            bodies.push(bytes);
            assert(crate::text::byte_strings_view(bodies@) =~= before.push(snippet.source@.subrange(body.start_byte as int, body.end_byte as int)));
        }
        index = index + 1;
    }
    Some(bodies)
}

proof fn lemma_build_bodies_stop(methods: Seq<SyntaxNode>, source: Seq<u8>, k: int, n: int)
    requires
        0 < k <= n <= methods.len(),
        spec_build_bodies(methods, source, k) is None,
    ensures
        spec_build_bodies(methods, source, n) is None,
    decreases n - k,
{
    if k < n {
        lemma_build_bodies_stop(methods, source, k, n - 1);
    }
}

/// The full ordered layout of a proven scaffold: its `build` bodies, when
/// the member covers widget scaffolding only and holds at least one.
pub open spec fn spec_widget_layout_key(snippet: SnippetView) -> Option<Seq<Seq<u8>>> {
    if !spec_covers_only_widget_scaffold_classes(snippet) {
        None
    } else {
        match spec_build_body_bytes(snippet) {
            Some(bodies) => if bodies.len() == 0 { None } else { Some(bodies) },
            None => None,
        }
    }
}

/// The full ordered layout of a proven scaffold.
pub fn widget_layout_key(snippet: &Snippet) -> (key: Option<Vec<Vec<u8>>>)
    ensures
        match key {
            Some(found) => spec_widget_layout_key(snippet@) == Some(crate::text::byte_strings_view(found@)),
            None => spec_widget_layout_key(snippet@) is None,
        },
{
    if !covers_only_widget_scaffold_classes(snippet) {
        return None;
    }
    match build_body_bytes(snippet) {
        Some(bodies) => if bodies.len() == 0 { None } else { Some(bodies) },
        None => None,
    }
}

/// Whether two layouts are equal body for body.
fn same_layout(left: &Vec<Vec<u8>>, right: &Vec<Vec<u8>>) -> (same: bool)
    ensures
        same == (crate::text::byte_strings_view(left@) == crate::text::byte_strings_view(right@)),
{
    let ghost lv = crate::text::byte_strings_view(left@);
    let ghost rv = crate::text::byte_strings_view(right@);
    if left.len() != right.len() {
        assert(lv.len() != rv.len());
        return false;
    }
    let mut index: usize = 0;
    while index < left.len()
        invariant
            index <= left@.len(),
            left@.len() == right@.len(),
            lv == crate::text::byte_strings_view(left@),
            rv == crate::text::byte_strings_view(right@),
            forall|j: int| 0 <= j < index ==> lv[j] == rv[j],
        decreases left@.len() - index,
    {
        assert(lv[index as int] == left@[index as int]@);
        assert(rv[index as int] == right@[index as int]@);
        if !same_bytes(left[index].as_slice(), right[index].as_slice()) {
            return false;
        }
        index = index + 1;
    }
    assert(lv =~= rv);
    true
}

/// Every member shares the first member's proven layout.
pub open spec fn spec_has_copied_build_body(snippets: Seq<SnippetView>) -> bool {
    &&& snippets.len() > 0
    &&& spec_widget_layout_key(snippets[0]) is Some
    &&& forall|k: int| 0 <= k < snippets.len() ==> #[trigger] spec_widget_layout_key(snippets[k]) == spec_widget_layout_key(snippets[0])
}

/// A whole group survives only when every member shares the same copied
/// layout.
#[verifier::loop_isolation(false)]
pub fn has_copied_build_body(snippets: &[Snippet]) -> (copied: bool)
    ensures
        copied == spec_has_copied_build_body(snippets_view(snippets@)),
{
    let ghost views = snippets_view(snippets@);
    assert(views.len() == snippets@.len());
    if snippets.len() == 0 {
        return false;
    }
    assert(views[0] == snippets@[0]@);
    let first = match widget_layout_key(&snippets[0]) {
        Some(first) => first,
        None => return false,
    };
    let mut k: usize = 0;
    while k < snippets.len()
        invariant
            k <= snippets@.len(),
            forall|m: int| 0 <= m < k ==> #[trigger] spec_widget_layout_key(views[m]) == spec_widget_layout_key(views[0]),
        decreases snippets@.len() - k,
    {
        assert(views[k as int] == snippets@[k as int]@);
        match widget_layout_key(&snippets[k]) {
            Some(key) => {
                if !same_layout(&key, &first) {
                    return false;
                }
            },
            None => return false,
        }
        k = k + 1;
    }
    true
}

/// Every member covers only whole construction-only widget classes, two
/// members differ in raw bytes, and the members do not all share one
/// copied `build` layout.
pub open spec fn spec_is_dart_widget_scaffold_cluster(snippets: Seq<SnippetView>) -> bool {
    &&& snippets.len() >= 2
    &&& spec_raw_texts_differ_views(snippets)
    &&& forall|k: int| 0 <= k < snippets.len() ==> spec_covers_only_widget_scaffold_classes(#[trigger] snippets[k])
    &&& !spec_has_copied_build_body(snippets)
}

/// Returns true when every member of a Dart cluster covers only whole
/// construction-only widget classes: a member must contain its classes
/// entirely, every top-level node it touches must be such a class (or the
/// `runApp` launcher), and classes holding authored logic do not qualify.
pub fn is_dart_widget_scaffold_cluster(snippets: &[Snippet]) -> (scaffold: bool)
    ensures
        scaffold == spec_is_dart_widget_scaffold_cluster(snippets_view(snippets@)),
{
    let ghost views = snippets_view(snippets@);
    if snippets.len() < 2 || !raw_texts_differ(snippets) {
        return false;
    }
    let mut k: usize = 0;
    while k < snippets.len()
        invariant
            k <= snippets@.len(),
            views == snippets_view(snippets@),
            views.len() == snippets@.len(),
            forall|m: int| 0 <= m < k ==> spec_covers_only_widget_scaffold_classes(#[trigger] views[m]),
        decreases snippets@.len() - k,
    {
        assert(views[k as int] == snippets@[k as int]@);
        if !covers_only_widget_scaffold_classes(&snippets[k]) {
            return false;
        }
        k = k + 1;
    }
    !has_copied_build_body(snippets)
}

} // verus!
