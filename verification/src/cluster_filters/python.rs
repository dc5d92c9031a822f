//! Python-specific cluster filters: false-positive clusters whose shape is
//! fixed by Python or pytest idioms rather than by the program under
//! analysis.
//! - assert-only test bodies;
//! - chained `assert dict[k1][k2]` shapes across unrelated test files;
//! - small nested-dict literals across pytest test files;
//! - pytest fixture boilerplate;
//! - `test_*` bodies that vary only by enum-member access.

use vstd::prelude::*;

use super::node_search::{
    deref_node, enclosing_kind, node_contains_kind, node_intersects_range, span_is, spec_contains_kind,
    spec_enclosing_in, spec_intersects, spec_span,
};
use super::override_marker::{child_by_field_name, spec_child_by_field};
use super::snippets::{parse_snippet, snippets_view, spec_plugin_parse, Snippet, SnippetView};
use super::{
    kinds_view, raw_snippet_texts_differ, spans_multiple_files, spec_raw_texts_differ, spec_spans_files,
    spec_trimmed_range, trimmed_snippet_range, SyntaxNode,
};
use crate::ast::{ByteRange, FileId};
use crate::text::same_text;

verus! {

/// The ASCII bytes of `fixture`.
pub open spec fn fixture_bytes() -> Seq<u8> {
    seq![102u8, 105, 120, 116, 117, 114, 101]
}

/// Whether `node`'s bytes are `text`.
pub open spec fn spec_text_is(node: SyntaxNode, source: Seq<u8>, text: Seq<u8>) -> bool {
    spec_span(source, node.start_byte, node.end_byte) == Some(text)
}

/// A dotted name: an identifier, or an attribute of a dotted name.
pub open spec fn spec_is_dotted(node: SyntaxNode) -> bool
    decreases node,
{
    if node.kind@ == "identifier"@ {
        true
    } else if node.kind@ == "attribute"@ {
        let object = super::syntax::spec_field_position(node, "object"@);
        0 <= object < node.children@.len() && spec_is_dotted(node.children@[object])
    } else {
        false
    }
}

/// A dotted name whose last segment is `fixture`: `fixture`,
/// `pytest.fixture`, `helpers.pytest.fixture`.
pub open spec fn spec_is_dotted_fixture(node: SyntaxNode, source: Seq<u8>) -> bool {
    if node.kind@ == "identifier"@ {
        spec_text_is(node, source, fixture_bytes())
    } else if node.kind@ == "attribute"@ {
        &&& match spec_child_by_field(node, "attribute"@) {
            Some(attribute) => spec_text_is(attribute, source, fixture_bytes()),
            None => false,
        }
        &&& match spec_child_by_field(node, "object"@) {
            Some(object) => spec_is_dotted(object),
            None => false,
        }
    } else {
        false
    }
}

/// A decorator expression naming the fixture factory, bare or called once.
pub open spec fn spec_is_fixture_callee(expression: SyntaxNode, source: Seq<u8>) -> bool {
    spec_is_dotted_fixture(expression, source) || (expression.kind@ == "call"@ && match spec_child_by_field(expression, "function"@) {
        Some(function) => spec_is_dotted_fixture(function, source),
        None => false,
    })
}

/// Position of the first named child from `from` on that is not a comment;
/// the child count when none is.
pub open spec fn spec_first_expression(children: Seq<SyntaxNode>, from: int) -> int
    decreases children.len() - from,
{
    if from < 0 || from >= children.len() {
        children.len() as int
    } else if children[from].named && children[from].kind@ != "comment"@ {
        from
    } else {
        spec_first_expression(children, from + 1)
    }
}

/// A `decorator` whose expression names the fixture factory.
pub open spec fn spec_is_fixture_decorator(decorator: SyntaxNode, source: Seq<u8>) -> bool {
    let p = spec_first_expression(decorator.children@, 0);
    decorator.kind@ == "decorator"@ && 0 <= p < decorator.children@.len()
        && spec_is_fixture_callee(decorator.children@[p], source)
}

/// Whether `node`'s bytes are `text`.
fn node_text_is(node: &SyntaxNode, source: &[u8], text: &[u8]) -> (same: bool)
    ensures
        same == spec_text_is(*node, source@, text@),
{
    span_is(source, node.start_byte, node.end_byte, text)
}

fn is_dotted(node: &SyntaxNode) -> (dotted: bool)
    ensures
        dotted == spec_is_dotted(*node),
    decreases *node,
{
    if same_text(node.kind.as_str(), "identifier") {
        return true;
    }
    if !same_text(node.kind.as_str(), "attribute") {
        return false;
    }
    match super::syntax::field_child(node, "object") {
        Some(object) => {
            assert(decreases_to!(*node => node.children@[super::syntax::spec_field_position(*node, "object"@)]));
            is_dotted(object)
        },
        None => false,
    }
}

fn is_dotted_fixture(node: &SyntaxNode, source: &[u8]) -> (fixture: bool)
    ensures
        fixture == spec_is_dotted_fixture(*node, source@),
{
    let name: [u8; 7] = [102, 105, 120, 116, 117, 114, 101];
    assert(name@ =~= fixture_bytes());
    if same_text(node.kind.as_str(), "identifier") {
        return node_text_is(node, source, &name);
    }
    if !same_text(node.kind.as_str(), "attribute") {
        return false;
    }
    let named_fixture = match child_by_field_name(node, "attribute") {
        Some(attribute) => node_text_is(attribute, source, &name),
        None => false,
    };
    named_fixture && match child_by_field_name(node, "object") {
        Some(object) => is_dotted(object),
        None => false,
    }
}

/// Whether a decorator names the fixture factory: a dotted name ending in
/// `fixture`, bare or called once. `@fixture.marker`, `@factory().fixture`,
/// `@fixture()()` and a fixture named only among the arguments do not.
pub fn decorator_has_fixture_callee(decorator: &SyntaxNode, source: &[u8]) -> (fixture: bool)
    ensures
        fixture == spec_is_fixture_decorator(*decorator, source@),
{
    if !same_text(decorator.kind.as_str(), "decorator") {
        return false;
    }
    let mut index: usize = 0;
    while index < decorator.children.len()
        invariant
            index <= decorator.children@.len(),
            decorator.kind@ == "decorator"@,
            spec_first_expression(decorator.children@, 0) == spec_first_expression(decorator.children@, index as int),
        decreases decorator.children@.len() - index,
    {
        let child = &decorator.children[index];
        if child.named && !same_text(child.kind.as_str(), "comment") {
            if is_dotted_fixture(child, source) {
                return true;
            }
            if !same_text(child.kind.as_str(), "call") {
                return false;
            }
            return match child_by_field_name(child, "function") {
                Some(function) => is_dotted_fixture(function, source),
                None => false,
            };
        }
        index = index + 1;
    }
    false
}

/// Whether two nodes are the same production over the same bytes.
pub open spec fn spec_same_place(left: SyntaxNode, right: SyntaxNode) -> bool {
    left.kind@ == right.kind@ && left.start_byte == right.start_byte && left.end_byte == right.end_byte
}

/// The `decorated_definition` whose definition is `function` itself.
pub open spec fn spec_own_decoration(root: SyntaxNode, function: SyntaxNode) -> Option<SyntaxNode> {
    let range = ByteRange { start: function.start_byte, end: function.end_byte };
    match spec_enclosing_in(root, range, seq!["decorated_definition"@], None) {
        Some(decorated) => match spec_child_by_field(decorated, "definition"@) {
            Some(definition) => if spec_same_place(definition, function) { Some(decorated) } else { None },
            None => None,
        },
        None => None,
    }
}

/// Whether the decorator block of `function` (within `root`) names the
/// fixture factory.
pub open spec fn spec_has_fixture_decorator(root: SyntaxNode, function: SyntaxNode, source: Seq<u8>) -> bool {
    match spec_own_decoration(root, function) {
        Some(decorated) => exists|i: int| 0 <= i < decorated.children@.len() && (#[trigger] decorated.children@[i]).named
            && spec_is_fixture_decorator(decorated.children@[i], source),
        None => false,
    }
}

/// Whether two nodes are the same production over the same bytes.
fn same_place(left: &SyntaxNode, right: &SyntaxNode) -> (same: bool)
    ensures
        same == spec_same_place(*left, *right),
{
    left.start_byte == right.start_byte && left.end_byte == right.end_byte && same_text(left.kind.as_str(), right.kind.as_str())
}

/// Checks the decorator block of a Python function (found within `root`)
/// for the fixture factory, reading the decorator nodes themselves, so a
/// class-nested fixture is recognised exactly as a module-level one and a
/// decorator on the enclosing class does not count.
pub fn python_function_has_fixture_decorator(root: &SyntaxNode, function: &SyntaxNode, source: &[u8]) -> (fixture: bool)
    ensures
        fixture == spec_has_fixture_decorator(*root, *function, source@),
{
    let kinds = vec!["decorated_definition"];
    assert(kinds_view(kinds@) =~= seq!["decorated_definition"@]);
    let range = ByteRange { start: function.start_byte, end: function.end_byte };
    let decorated = match enclosing_kind(root, range, &kinds) {
        Some(decorated) => decorated,
        None => return false,
    };
    match child_by_field_name(decorated, "definition") {
        Some(definition) => {
            if !same_place(definition, function) {
                return false;
            }
        },
        None => return false,
    }
    let mut index: usize = 0;
    while index < decorated.children.len()
        invariant
            index <= decorated.children@.len(),
            spec_own_decoration(*root, *function) == Some(*decorated),
            forall|i: int| 0 <= i < index ==> !((#[trigger] decorated.children@[i]).named
                && spec_is_fixture_decorator(decorated.children@[i], source@)),
        decreases decorated.children@.len() - index,
    {
        let child = &decorated.children[index];
        if child.named && decorator_has_fixture_callee(child, source) {
            return true;
        }
        index = index + 1;
    }
    false
}

/// The first named child of kind `kind` from position `from` on.
pub open spec fn spec_first_kind_child(children: Seq<SyntaxNode>, kind: Seq<char>, from: int) -> Option<SyntaxNode>
    decreases children.len() - from,
{
    if from < 0 || from >= children.len() {
        None
    } else if children[from].named && children[from].kind@ == kind {
        Some(children[from])
    } else {
        spec_first_kind_child(children, kind, from + 1)
    }
}

/// The first named child of `node` of kind `kind`.
fn first_kind_child<'a>(node: &'a SyntaxNode, kind: &str) -> (child: Option<&'a SyntaxNode>)
    ensures
        deref_node(child) == spec_first_kind_child(node.children@, kind@, 0),
{
    let mut index: usize = 0;
    while index < node.children.len()
        invariant
            index <= node.children@.len(),
            spec_first_kind_child(node.children@, kind@, 0) == spec_first_kind_child(node.children@, kind@, index as int),
        decreases node.children@.len() - index,
    {
        let child = &node.children[index];
        if child.named && same_text(child.kind.as_str(), kind) {
            return Some(child);
        }
        index = index + 1;
    }
    None
}

/// The Python function containing a reported range, including a range that
/// starts at the decorator and so encloses the definition rather than
/// sitting inside it.
pub open spec fn spec_enclosing_python_function(root: SyntaxNode, range: ByteRange) -> Option<SyntaxNode> {
    match spec_enclosing_in(root, range, seq!["function_definition"@], None) {
        Some(function) => Some(function),
        None => match spec_enclosing_in(root, range, seq!["decorated_definition"@], None) {
            Some(decorated) => spec_first_kind_child(decorated.children@, "function_definition"@, 0),
            None => None,
        },
    }
}

/// Finds the Python function containing a reported range.
pub fn enclosing_python_function<'a>(root: &'a SyntaxNode, range: ByteRange) -> (function: Option<&'a SyntaxNode>)
    ensures
        deref_node(function) == spec_enclosing_python_function(*root, range),
{
    let functions = vec!["function_definition"];
    assert(kinds_view(functions@) =~= seq!["function_definition"@]);
    match enclosing_kind(root, range, &functions) {
        Some(function) => return Some(function),
        None => {},
    }
    let decorated_kinds = vec!["decorated_definition"];
    assert(kinds_view(decorated_kinds@) =~= seq!["decorated_definition"@]);
    match enclosing_kind(root, range, &decorated_kinds) {
        Some(decorated) => first_kind_child(decorated, "function_definition"),
        None => None,
    }
}

/// The innermost `function_definition` enclosing `range`.
fn enclosing_function_definition<'a>(root: &'a SyntaxNode, range: ByteRange) -> (function: Option<&'a SyntaxNode>)
    ensures
        deref_node(function) == spec_enclosing_in(*root, range, seq!["function_definition"@], None),
{
    let functions = vec!["function_definition"];
    assert(kinds_view(functions@) =~= seq!["function_definition"@]);
    enclosing_kind(root, range, &functions)
}

/// Whether a member of a parsed file sits in a pytest fixture.
pub open spec fn spec_pytest_fixture_in(tree: SyntaxNode, snippet: SnippetView) -> bool {
    match spec_trimmed_range_of(snippet) {
        None => false,
        Some(range) => match spec_enclosing_python_function(tree, range) {
            Some(function) => spec_has_fixture_decorator(tree, function, snippet.source),
            None => false,
        },
    }
}

/// The trimmed range of a member.
pub open spec fn spec_trimmed_range_of(snippet: SnippetView) -> Option<ByteRange> {
    if snippet.range.start <= snippet.range.end && snippet.range.end <= snippet.source.len() {
        let bytes = snippet.source.subrange(snippet.range.start as int, snippet.range.end as int);
        if super::spec_last_non_whitespace(bytes) < 0 {
            None
        } else {
            Some(ByteRange {
                start: (snippet.range.start + super::spec_first_non_whitespace(bytes)) as usize,
                end: (snippet.range.start + super::spec_last_non_whitespace(bytes) + 1) as usize,
            })
        }
    } else {
        None
    }
}

proof fn lemma_trimmed_range_of(snippet: Snippet)
    ensures
        spec_trimmed_range(snippet) == spec_trimmed_range_of(snippet@),
{
}

/// A member's trimmed range.
fn trimmed(snippet: &Snippet) -> (range: Option<ByteRange>)
    ensures
        range == spec_trimmed_range_of(snippet@),
{
    proof {
        lemma_trimmed_range_of(*snippet);
    }
    trimmed_snippet_range(snippet)
}

/// Whether a member belongs to a Python function decorated as a pytest
/// fixture, read from its parsed file.
pub open spec fn spec_is_pytest_fixture_snippet(snippet: SnippetView) -> bool {
    match spec_plugin_parse(snippet.language, snippet.source) {
        Some(tree) => spec_pytest_fixture_in(tree, snippet),
        None => false,
    }
}

/// Returns true when the snippet belongs to a Python function decorated
/// with `@fixture` or a dotted fixture decorator such as `@pytest.fixture`.
pub fn is_pytest_fixture_snippet(snippet: &Snippet) -> (fixture: bool)
    ensures
        fixture == spec_is_pytest_fixture_snippet(snippet@),
{
    let tree = match parse_snippet(snippet) {
        Some(tree) => tree,
        None => return false,
    };
    let range = match trimmed(snippet) {
        Some(range) => range,
        None => return false,
    };
    match enclosing_python_function(&tree, range) {
        Some(function) => python_function_has_fixture_decorator(&tree, function, snippet.source),
        None => false,
    }
}

/// At least two Python members over at least two files.
pub open spec fn spec_python_spread(snippets: Seq<SnippetView>) -> bool {
    &&& snippets.len() >= 2
    &&& forall|k: int| 0 <= k < snippets.len() ==> (#[trigger] snippets[k]).language == "python"@
    &&& spec_spans_files(snippets.map_values(|snippet: SnippetView| snippet.file_id))
}

/// Whether the cluster has at least two Python members over two files.
fn python_spread(snippets: &[Snippet]) -> (spread: bool)
    ensures
        spread == spec_python_spread(snippets_view(snippets@)),
{
    let ghost views = snippets_view(snippets@);
    if snippets.len() < 2 {
        return false;
    }
    let mut files: Vec<FileId> = Vec::new();
    let mut k: usize = 0;
    while k < snippets.len()
        invariant
            k <= snippets@.len(),
            views == snippets_view(snippets@),
            views.len() == snippets@.len(),
            forall|m: int| 0 <= m < k ==> (#[trigger] views[m]).language == "python"@,
            files@ == views.map_values(|snippet: SnippetView| snippet.file_id).take(k as int),
        decreases snippets@.len() - k,
    {
        assert(views[k as int] == snippets@[k as int]@);
        if !same_text(snippets[k].language, "python") {
            return false;
        }
        files.push(snippets[k].file_id);
        assert(files@ =~= views.map_values(|snippet: SnippetView| snippet.file_id).take(k as int + 1));
        k = k + 1;
    }
    assert(files@ =~= views.map_values(|snippet: SnippetView| snippet.file_id));
    spans_multiple_files(files.as_slice())
}

/// Pytest fixtures repeating one setup shape across files.
pub open spec fn spec_is_pytest_fixture_boilerplate_cluster(snippets: Seq<SnippetView>) -> bool {
    spec_python_spread(snippets) && forall|k: int| 0 <= k < snippets.len() ==> spec_is_pytest_fixture_snippet(#[trigger] snippets[k])
}

/// Pytest fixture functions all repeat the same setup shape. The fixture
/// is already the test abstraction, so its bodies are no refactor target.
pub fn is_pytest_fixture_boilerplate_cluster(snippets: &[Snippet]) -> (boilerplate: bool)
    ensures
        boilerplate == spec_is_pytest_fixture_boilerplate_cluster(snippets_view(snippets@)),
{
    let ghost views = snippets_view(snippets@);
    if !python_spread(snippets) {
        return false;
    }
    let mut k: usize = 0;
    while k < snippets.len()
        invariant
            k <= snippets@.len(),
            views == snippets_view(snippets@),
            views.len() == snippets@.len(),
            forall|m: int| 0 <= m < k ==> spec_is_pytest_fixture_snippet(#[trigger] views[m]),
        decreases snippets@.len() - k,
    {
        assert(views[k as int] == snippets@[k as int]@);
        if !is_pytest_fixture_snippet(&snippets[k]) {
            return false;
        }
        k = k + 1;
    }
    true
}

/// Every named child of `body` overlapping `range` is an `assert` with no
/// call inside, and at least one is.
pub open spec fn spec_assert_only_body_in_range(body: SyntaxNode, range: ByteRange) -> bool {
    let children = body.children@;
    &&& forall|i: int| 0 <= i < children.len() && (#[trigger] children[i]).named && spec_intersects(children[i], range)
        ==> children[i].kind@ == "assert_statement"@ && !spec_contains_kind(children[i], "call"@)
    &&& exists|i: int| 0 <= i < children.len() && (#[trigger] children[i]).named && spec_intersects(children[i], range)
}

/// Walks `body` and returns true when every named child overlapping
/// `range` is an `assert_statement` with no nested call.
pub fn assert_only_body_in_range(body: &SyntaxNode, range: ByteRange) -> (assert_only: bool)
    ensures
        assert_only == spec_assert_only_body_in_range(*body, range),
{
    let mut saw_assert = false;
    let mut index: usize = 0;
    while index < body.children.len()
        invariant
            index <= body.children@.len(),
            forall|i: int| 0 <= i < index && (#[trigger] body.children@[i]).named && spec_intersects(body.children@[i], range)
                ==> body.children@[i].kind@ == "assert_statement"@ && !spec_contains_kind(body.children@[i], "call"@),
            saw_assert == exists|i: int| 0 <= i < index && (#[trigger] body.children@[i]).named
                && spec_intersects(body.children@[i], range),
        decreases body.children@.len() - index,
    {
        let child = &body.children[index];
        if child.named && node_intersects_range(child, range) {
            if !same_text(child.kind.as_str(), "assert_statement") || node_contains_kind(child, "call") {
                return false;
            }
            saw_assert = true;
        }
        index = index + 1;
    }
    saw_assert
}

/// The body of the function enclosing a member's trimmed range, in its
/// parsed file, with that range.
pub open spec fn spec_enclosing_body(tree: SyntaxNode, snippet: SnippetView) -> Option<(SyntaxNode, SyntaxNode, ByteRange)> {
    match spec_trimmed_range_of(snippet) {
        None => None,
        Some(range) => match spec_enclosing_in(tree, range, seq!["function_definition"@], None) {
            None => None,
            Some(function) => match spec_child_by_field(function, "body"@) {
                None => None,
                Some(body) => Some((function, body, range)),
            },
        },
    }
}

/// Whether one member's enclosing function body holds only assertions over
/// its range, in its parsed file.
pub open spec fn spec_is_python_assertion_only_snippet(snippet: SnippetView) -> bool {
    match spec_plugin_parse(snippet.language, snippet.source) {
        None => false,
        Some(tree) => match spec_enclosing_body(tree, snippet) {
            Some((_function, body, range)) => spec_assert_only_body_in_range(body, range),
            None => false,
        },
    }
}

/// Returns true when one snippet's enclosing Python function body holds
/// only assertion statements within the reported range.
pub fn is_python_assertion_only_snippet(snippet: &Snippet) -> (assert_only: bool)
    ensures
        assert_only == spec_is_python_assertion_only_snippet(snippet@),
{
    let tree = match parse_snippet(snippet) {
        Some(tree) => tree,
        None => return false,
    };
    let range = match trimmed(snippet) {
        Some(range) => range,
        None => return false,
    };
    let function = match enclosing_function_definition(&tree, range) {
        Some(function) => function,
        None => return false,
    };
    match child_by_field_name(function, "body") {
        Some(body) => assert_only_body_in_range(body, range),
        None => false,
    }
}

/// Blocks of only `assert` statements across test files.
pub open spec fn spec_is_python_assertion_only_cluster(snippets: Seq<SnippetView>) -> bool {
    &&& spec_python_spread(snippets)
    &&& spec_raw_texts_differ_views(snippets)
    &&& forall|k: int| 0 <= k < snippets.len() ==> spec_is_python_assertion_only_snippet(#[trigger] snippets[k])
}

/// The covered bytes of a member, when its range lies in its source.
pub open spec fn spec_range_text_of(snippet: SnippetView) -> Option<Seq<u8>> {
    if snippet.range.start <= snippet.range.end && snippet.range.end <= snippet.source.len() {
        Some(snippet.source.subrange(snippet.range.start as int, snippet.range.end as int))
    } else {
        None
    }
}

/// Whether some member's covered bytes differ from the first member's.
pub open spec fn spec_raw_texts_differ_views(snippets: Seq<SnippetView>) -> bool {
    snippets.len() > 0 && spec_range_text_of(snippets[0]) is Some && exists|i: int|
        0 <= i < snippets.len() && (#[trigger] spec_range_text_of(snippets[i])) is Some
            && spec_range_text_of(snippets[i]) != spec_range_text_of(snippets[0])
}

pub fn raw_texts_differ(snippets: &[Snippet]) -> (differ: bool)
    ensures
        differ == spec_raw_texts_differ_views(snippets_view(snippets@)),
{
    let ghost views = snippets_view(snippets@);
    assert forall|i: int| 0 <= i < snippets@.len() implies
        #[trigger] super::spec_range_text(snippets@[i]) == spec_range_text_of(views[i]) by {
        assert(views[i] == snippets@[i]@);
    }
    let differ = raw_snippet_texts_differ(snippets);
    proof {
        assert(views.len() == snippets@.len());
        if differ {
            let i = choose|i: int| 0 <= i < snippets@.len() && (#[trigger] super::spec_range_text(snippets@[i])) is Some
                && super::spec_range_text(snippets@[i]) != super::spec_range_text(snippets@[0]);
            assert(super::spec_range_text(snippets@[0]) == spec_range_text_of(views[0]));
            assert(spec_range_text_of(views[i]) is Some);
        } else if spec_raw_texts_differ_views(views) {
            let i = choose|i: int| 0 <= i < views.len() && (#[trigger] spec_range_text_of(views[i])) is Some
                && spec_range_text_of(views[i]) != spec_range_text_of(views[0]);
            assert(super::spec_range_text(snippets@[0]) == spec_range_text_of(views[0]));
            assert(super::spec_range_text(snippets@[i]) == spec_range_text_of(views[i]));
        }
    }
    differ
}

/// Blocks consisting only of Python `assert` statements across test
/// files: their shape is repetitive by design, while the asserted paths
/// and values differ.
pub fn is_python_assertion_only_cluster(snippets: &[Snippet]) -> (assert_only: bool)
    ensures
        assert_only == spec_is_python_assertion_only_cluster(snippets_view(snippets@)),
{
    let ghost views = snippets_view(snippets@);
    if !python_spread(snippets) || !raw_texts_differ(snippets) {
        return false;
    }
    let mut k: usize = 0;
    while k < snippets.len()
        invariant
            k <= snippets@.len(),
            views == snippets_view(snippets@),
            views.len() == snippets@.len(),
            forall|m: int| 0 <= m < k ==> spec_is_python_assertion_only_snippet(#[trigger] views[m]),
        decreases snippets@.len() - k,
    {
        assert(views[k as int] == snippets@[k as int]@);
        if !is_python_assertion_only_snippet(&snippets[k]) {
            return false;
        }
        k = k + 1;
    }
    true
}

/// The ASCII bytes of `test_`.
pub open spec fn test_prefix() -> Seq<u8> {
    seq![116u8, 101, 115, 116, 95]
}

/// Whether the function's declared name starts with `prefix`.
pub open spec fn spec_name_starts_with(function: SyntaxNode, source: Seq<u8>, prefix: Seq<u8>) -> bool {
    match spec_child_by_field(function, "name"@) {
        Some(name) => match spec_span(source, name.start_byte, name.end_byte) {
            Some(bytes) => prefix.len() <= bytes.len() && bytes.take(prefix.len() as int) == prefix,
            None => false,
        },
        None => false,
    }
}

/// Returns true when the function's declared name starts with `prefix`.
#[verifier::loop_isolation(false)]
pub fn python_function_name_starts_with(function: &SyntaxNode, source: &[u8], prefix: &[u8]) -> (starts: bool)
    ensures
        starts == spec_name_starts_with(*function, source@, prefix@),
{
    let name = match child_by_field_name(function, "name") {
        Some(name) => name,
        None => return false,
    };
    if !(name.start_byte <= name.end_byte && name.end_byte <= source.len()) {
        return false;
    }
    let bytes = vstd::slice::slice_subrange(source, name.start_byte, name.end_byte);
    if prefix.len() > bytes.len() {
        return false;
    }
    let mut index: usize = 0;
    while index < prefix.len()
        invariant
            index <= prefix@.len(),
            prefix@.len() <= bytes@.len(),
            forall|j: int| 0 <= j < index ==> bytes@[j] == prefix@[j],
        decreases prefix@.len() - index,
    {
        if bytes[index] != prefix[index] {
            assert(bytes@.take(prefix@.len() as int)[index as int] != prefix@[index as int]);
            return false;
        }
        index = index + 1;
    }
    assert(bytes@.take(prefix@.len() as int) =~= prefix@);
    true
}

/// How many subscript hops lead down a `subscript(subscript(identifier))`
/// tower from `node`.
pub open spec fn spec_subscript_chain_depth(node: SyntaxNode, source: Seq<u8>) -> nat
    decreases node,
{
    let value = super::syntax::spec_field_position(node, "value"@);
    if node.kind@ != "subscript"@ || !(0 <= value < node.children@.len()) {
        0
    } else if node.children@[value].kind@ == "subscript"@ {
        spec_subscript_chain_depth(node.children@[value], source) + 1
    } else if node.children@[value].kind@ == "identifier"@
        && spec_span(source, node.children@[value].start_byte, node.children@[value].end_byte) is Some {
        1
    } else {
        0
    }
}

/// Counts subscript hops down a subscript tower, saturating.
pub fn subscript_chain_depth(node: &SyntaxNode, source: &[u8]) -> (depth: usize)
    ensures
        depth == if spec_subscript_chain_depth(*node, source@) > usize::MAX { usize::MAX as nat } else {
            spec_subscript_chain_depth(*node, source@)
        },
    decreases *node,
{
    if !same_text(node.kind.as_str(), "subscript") {
        return 0;
    }
    let value = match super::syntax::field_child(node, "value") {
        Some(value) => value,
        None => return 0,
    };
    if same_text(value.kind.as_str(), "subscript") {
        assert(decreases_to!(*node => node.children@[super::syntax::spec_field_position(*node, "value"@)]));
        let inner = subscript_chain_depth(value, source);
        return if inner == usize::MAX { usize::MAX } else { inner + 1 };
    }
    if same_text(value.kind.as_str(), "identifier") && value.start_byte <= value.end_byte && value.end_byte <= source.len() {
        return 1;
    }
    0
}

/// The expression an `assert` checks: the left operand of a comparison,
/// or the expression itself.
pub open spec fn spec_asserted_chain(assert_node: SyntaxNode) -> Option<SyntaxNode> {
    let first = spec_first_kind_any(assert_node.children@, 0);
    match first {
        None => None,
        Some(expression) => if expression.kind@ == "comparison_operator"@ {
            spec_first_kind_any(expression.children@, 0)
        } else {
            Some(expression)
        },
    }
}

/// The first named child from position `from` on.
pub open spec fn spec_first_kind_any(children: Seq<SyntaxNode>, from: int) -> Option<SyntaxNode>
    decreases children.len() - from,
{
    if from < 0 || from >= children.len() {
        None
    } else if children[from].named {
        Some(children[from])
    } else {
        spec_first_kind_any(children, from + 1)
    }
}

/// The first named child of `node`.
fn first_named<'a>(node: &'a SyntaxNode) -> (child: Option<&'a SyntaxNode>)
    ensures
        deref_node(child) == spec_first_kind_any(node.children@, 0),
{
    let mut index: usize = 0;
    while index < node.children.len()
        invariant
            index <= node.children@.len(),
            spec_first_kind_any(node.children@, 0) == spec_first_kind_any(node.children@, index as int),
        decreases node.children@.len() - index,
    {
        if node.children[index].named {
            return Some(&node.children[index]);
        }
        index = index + 1;
    }
    None
}

/// An `assert <chain> == <const>` (or `is`) whose chain is two or more
/// nested subscripts against an identifier.
pub open spec fn spec_assert_is_chained_dict(assert_node: SyntaxNode, source: Seq<u8>) -> bool {
    match spec_asserted_chain(assert_node) {
        Some(chain) => spec_subscript_chain_depth(chain, source) >= 2,
        None => false,
    }
}

/// Returns true for `assert <chain> == <const>` where the chain is two or
/// more nested subscript accesses against an identifier.
pub fn assert_statement_is_chained_dict(assert_node: &SyntaxNode, source: &[u8]) -> (chained: bool)
    ensures
        chained == spec_assert_is_chained_dict(*assert_node, source@),
{
    let first = match first_named(assert_node) {
        Some(first) => first,
        None => return false,
    };
    let chain = if same_text(first.kind.as_str(), "comparison_operator") {
        match first_named(first) {
            Some(left) => left,
            None => return false,
        }
    } else {
        first
    };
    subscript_chain_depth(chain, source) >= 2
}

/// Every named child of `body` overlapping `range` is a chained-subscript
/// assertion, and at least one is.
pub open spec fn spec_only_chained_dict_asserts(body: SyntaxNode, range: ByteRange, source: Seq<u8>) -> bool {
    let children = body.children@;
    &&& forall|i: int| 0 <= i < children.len() && (#[trigger] children[i]).named && spec_intersects(children[i], range)
        ==> children[i].kind@ == "assert_statement"@ && spec_assert_is_chained_dict(children[i], source)
    &&& exists|i: int| 0 <= i < children.len() && (#[trigger] children[i]).named && spec_intersects(children[i], range)
}

/// Returns true when every named child of `body` overlapping `range` is a
/// chained-subscript `assert`, with at least one present.
pub fn body_has_only_chained_dict_asserts(body: &SyntaxNode, range: ByteRange, source: &[u8]) -> (chained: bool)
    ensures
        chained == spec_only_chained_dict_asserts(*body, range, source@),
{
    let mut saw = false;
    let mut index: usize = 0;
    while index < body.children.len()
        invariant
            index <= body.children@.len(),
            forall|i: int| 0 <= i < index && (#[trigger] body.children@[i]).named && spec_intersects(body.children@[i], range)
                ==> body.children@[i].kind@ == "assert_statement"@ && spec_assert_is_chained_dict(body.children@[i], source@),
            saw == exists|i: int| 0 <= i < index && (#[trigger] body.children@[i]).named
                && spec_intersects(body.children@[i], range),
        decreases body.children@.len() - index,
    {
        let child = &body.children[index];
        if child.named && node_intersects_range(child, range) {
            if !same_text(child.kind.as_str(), "assert_statement") || !assert_statement_is_chained_dict(child, source) {
                return false;
            }
            saw = true;
        }
        index = index + 1;
    }
    saw
}

/// Whether a member sits in a pytest `test_*` function and its range holds
/// only chained-subscript assertions, in its parsed file.
pub open spec fn spec_is_chained_dict_assert_snippet(snippet: SnippetView) -> bool {
    match spec_plugin_parse(snippet.language, snippet.source) {
        None => false,
        Some(tree) => match spec_enclosing_body(tree, snippet) {
            Some((function, body, range)) => spec_name_starts_with(function, snippet.source, test_prefix())
                && spec_only_chained_dict_asserts(body, range, snippet.source),
            None => false,
        },
    }
}

/// Returns true when the snippet lives inside a pytest `test_*` function
/// and the reported range holds only chained-subscript assertions.
pub fn is_chained_dict_assert_snippet(snippet: &Snippet) -> (chained: bool)
    ensures
        chained == spec_is_chained_dict_assert_snippet(snippet@),
{
    let tree = match parse_snippet(snippet) {
        Some(tree) => tree,
        None => return false,
    };
    let range = match trimmed(snippet) {
        Some(range) => range,
        None => return false,
    };
    let function = match enclosing_function_definition(&tree, range) {
        Some(function) => function,
        None => return false,
    };
    let body = match child_by_field_name(function, "body") {
        Some(body) => body,
        None => return false,
    };
    let prefix: [u8; 5] = [116, 101, 115, 116, 95];
    assert(prefix@ =~= test_prefix());
    python_function_name_starts_with(function, snippet.source, &prefix)
        && body_has_only_chained_dict_asserts(body, range, snippet.source)
}

/// Chained `assert <var>[k1][k2] == V` across unrelated test files.
pub open spec fn spec_is_chained_dict_assert_cluster(snippets: Seq<SnippetView>) -> bool {
    spec_python_spread(snippets) && forall|k: int| 0 <= k < snippets.len() ==> spec_is_chained_dict_assert_snippet(#[trigger] snippets[k])
}

/// Chained `assert <var>[k1][k2] == V` shapes across at least two pytest
/// test files: normalisation collapses variable, keys and value, while
/// every test exercises a different contract.
pub fn is_chained_dict_assert_cluster(snippets: &[Snippet]) -> (chained: bool)
    ensures
        chained == spec_is_chained_dict_assert_cluster(snippets_view(snippets@)),
{
    let ghost views = snippets_view(snippets@);
    if !python_spread(snippets) {
        return false;
    }
    let mut k: usize = 0;
    while k < snippets.len()
        invariant
            k <= snippets@.len(),
            views == snippets_view(snippets@),
            views.len() == snippets@.len(),
            forall|m: int| 0 <= m < k ==> spec_is_chained_dict_assert_snippet(#[trigger] views[m]),
        decreases snippets@.len() - k,
    {
        assert(views[k as int] == snippets@[k as int]@);
        if !is_chained_dict_assert_snippet(&snippets[k]) {
            return false;
        }
        k = k + 1;
    }
    true
}

/// The `dictionary` nodes lying wholly inside `range` under `node`, in
/// order; descent stops at a dictionary, so nested ones are not counted.
pub open spec fn spec_outer_dictionaries(node: SyntaxNode, range: ByteRange) -> Seq<SyntaxNode>
    decreases node, 1int,
{
    if node.end_byte <= range.start || node.start_byte >= range.end {
        seq![]
    } else if node.kind@ == "dictionary"@ && node.start_byte >= range.start && node.end_byte <= range.end {
        seq![node]
    } else {
        spec_children_dictionaries(node.children@, node.children@.len() as int, range)
    }
}

/// The outer dictionaries under the first `k` named children.
pub open spec fn spec_children_dictionaries(children: Seq<SyntaxNode>, k: int, range: ByteRange) -> Seq<SyntaxNode>
    decreases children, k,
{
    if k <= 0 || k > children.len() {
        seq![]
    } else {
        let before = spec_children_dictionaries(children, k - 1, range);
        if children[k - 1].named { before + spec_outer_dictionaries(children[k - 1], range) } else { before }
    }
}

/// Walks the tree collecting `dictionary` nodes fully enclosed by `range`.
pub fn collect_outer_dictionaries<'t>(node: &'t SyntaxNode, range: ByteRange, out: &mut Vec<&'t SyntaxNode>)
    ensures
        super::node_search::nodes_view(final(out)@) == super::node_search::nodes_view(old(out)@) + spec_outer_dictionaries(*node, range),
    decreases *node,
{
    let ghost start = super::node_search::nodes_view(out@);
    if node.end_byte <= range.start || node.start_byte >= range.end {
        assert(super::node_search::nodes_view(out@) =~= start + Seq::<SyntaxNode>::empty());
        return;
    }
    if same_text(node.kind.as_str(), "dictionary") && node.start_byte >= range.start && node.end_byte <= range.end {
        out.push(node);
        assert(super::node_search::nodes_view(out@) =~= start + seq![*node]);
        return;
    }
    let mut index: usize = 0;
    while index < node.children.len()
        invariant
            index <= node.children@.len(),
            super::node_search::nodes_view(out@) == start + spec_children_dictionaries(node.children@, index as int, range),
        decreases node.children@.len() - index,
    {
        let child = &node.children[index];
        assert(decreases_to!(*node => node.children@[index as int]));
        if child.named {
            collect_outer_dictionaries(child, range, out);
        }
        assert(super::node_search::nodes_view(out@) =~= start + spec_children_dictionaries(node.children@, index as int + 1, range));
        index = index + 1;
    }
}

/// The single outer dictionary wholly inside `range`, when there is exactly
/// one.
pub open spec fn spec_sole_dictionary(root: SyntaxNode, range: ByteRange) -> Option<SyntaxNode> {
    let dictionaries = spec_outer_dictionaries(root, range);
    if dictionaries.len() == 1 { Some(dictionaries[0]) } else { None }
}

/// Returns the single outer `dictionary` fully enclosed by `range`, or
/// `None` when there are none or several.
pub fn sole_dictionary_in_range<'t>(root: &'t SyntaxNode, range: ByteRange) -> (dict: Option<&'t SyntaxNode>)
    ensures
        deref_node(dict) == spec_sole_dictionary(*root, range),
{
    let mut found: Vec<&'t SyntaxNode> = Vec::new();
    collect_outer_dictionaries(root, range, &mut found);
    assert(super::node_search::nodes_view(found@) =~= spec_outer_dictionaries(*root, range));
    if found.len() == 1 {
        assert(super::node_search::nodes_view(found@)[0] == *found@[0]);
        Some(found[0])
    } else {
        None
    }
}

/// The string keys of the first `k` named `pair` children, in order.
pub open spec fn spec_dict_keys(children: Seq<SyntaxNode>, k: int, source: Seq<u8>) -> Seq<Seq<u8>>
    decreases k,
{
    if k <= 0 || k > children.len() {
        seq![]
    } else {
        let before = spec_dict_keys(children, k - 1, source);
        let pair = children[k - 1];
        if pair.named && pair.kind@ == "pair"@ {
            match spec_child_by_field(pair, "key"@) {
                Some(key) => if key.kind@ == "string"@ {
                    match spec_span(source, key.start_byte, key.end_byte) {
                        Some(bytes) => before.push(bytes),
                        None => before,
                    }
                } else {
                    before
                },
                None => before,
            }
        } else {
            before
        }
    }
}

/// Returns the string keys of `dict` (`pair.key` children that are string
/// literals), in order; non-string keys are ignored.
pub fn dict_literal_top_level_keys(dict: &SyntaxNode, source: &[u8]) -> (keys: Vec<Vec<u8>>)
    ensures
        crate::text::byte_strings_view(keys@) == spec_dict_keys(dict.children@, dict.children@.len() as int, source@),
{
    let mut keys: Vec<Vec<u8>> = Vec::new();
    let mut index: usize = 0;
    assert(crate::text::byte_strings_view(keys@) =~= Seq::<Seq<u8>>::empty());
    while index < dict.children.len()
        invariant
            index <= dict.children@.len(),
            crate::text::byte_strings_view(keys@) == spec_dict_keys(dict.children@, index as int, source@),
        decreases dict.children@.len() - index,
    {
        let pair = &dict.children[index];
        if pair.named && same_text(pair.kind.as_str(), "pair") {
            match child_by_field_name(pair, "key") {
                Some(key) => {
                    if same_text(key.kind.as_str(), "string") && key.start_byte <= key.end_byte && key.end_byte <= source.len() {
                        let mut bytes: Vec<u8> = Vec::new();
                        bytes.extend_from_slice(vstd::slice::slice_subrange(source, key.start_byte, key.end_byte));
                        assert(bytes@ =~= source@.subrange(key.start_byte as int, key.end_byte as int));
                        let ghost before = crate::text::byte_strings_view(keys@);
                        keys.push(bytes);
                        assert(crate::text::byte_strings_view(keys@) =~= before.push(source@.subrange(key.start_byte as int, key.end_byte as int)));
                    }
                },
                None => {},
            }
        }
        index = index + 1;
    }
    keys
}

/// One member's dictionary literal: its file and its top-level string keys.
pub struct DictLiteralShape {
    /// File providing this member.
    pub file_id: FileId,
    /// Top-level string keys of the dictionary literal, in order.
    pub keys: Vec<Vec<u8>>,
}

/// The dictionary literal a member covers inside a pytest `test_*`
/// function, in its parsed file: its file and key set.
pub open spec fn spec_dict_shape_in(tree: SyntaxNode, snippet: SnippetView) -> Option<(FileId, Set<Seq<u8>>)> {
    let range = match spec_trimmed_range_of(snippet) {
        Some(range) => range,
        None => snippet.range,
    };
    match spec_enclosing_in(tree, range, seq!["function_definition"@], None) {
        None => None,
        Some(function) => if !spec_name_starts_with(function, snippet.source, test_prefix()) {
            None
        } else {
            match spec_sole_dictionary(tree, range) {
                None => None,
                Some(dict) => {
                    let keys = spec_dict_keys(dict.children@, dict.children@.len() as int, snippet.source);
                    if keys.len() == 0 { None } else { Some((snippet.file_id, keys.to_set())) }
                },
            }
        },
    }
}

/// The dictionary literal shape of a member, read from its parsed file.
pub open spec fn spec_dict_shape(snippet: SnippetView) -> Option<(FileId, Set<Seq<u8>>)> {
    match spec_plugin_parse(snippet.language, snippet.source) {
        Some(tree) => spec_dict_shape_in(tree, snippet),
        None => None,
    }
}

/// The shape of a member whose range covers exactly one dictionary literal
/// inside a pytest `test_*` function.
pub fn test_dict_literal_shape(snippet: &Snippet) -> (shape: Option<DictLiteralShape>)
    ensures
        match shape {
            Some(found) => spec_dict_shape(snippet@) == Some((found.file_id, crate::text::byte_strings_view(found.keys@).to_set())),
            None => spec_dict_shape(snippet@) is None,
        },
{
    let tree = match parse_snippet(snippet) {
        Some(tree) => tree,
        None => return None,
    };
    let range = match trimmed(snippet) {
        Some(range) => range,
        None => snippet.range,
    };
    let function = match enclosing_function_definition(&tree, range) {
        Some(function) => function,
        None => return None,
    };
    let prefix: [u8; 5] = [116, 101, 115, 116, 95];
    assert(prefix@ =~= test_prefix());
    if !python_function_name_starts_with(function, snippet.source, &prefix) {
        return None;
    }
    let dict = match sole_dictionary_in_range(&tree, range) {
        Some(dict) => dict,
        None => return None,
    };
    let keys = dict_literal_top_level_keys(dict, snippet.source);
    if keys.len() == 0 {
        return None;
    }
    Some(DictLiteralShape { file_id: snippet.file_id, keys })
}

/// Whether every key of `left` is one of `right`.
fn keys_within(left: &Vec<Vec<u8>>, right: &Vec<Vec<u8>>) -> (within: bool)
    ensures
        within == crate::text::byte_strings_view(left@).to_set().subset_of(crate::text::byte_strings_view(right@).to_set()),
{
    let ghost lv = crate::text::byte_strings_view(left@);
    let ghost rv = crate::text::byte_strings_view(right@);
    let mut index: usize = 0;
    while index < left.len()
        invariant
            index <= left@.len(),
            lv == crate::text::byte_strings_view(left@),
            rv == crate::text::byte_strings_view(right@),
            lv.len() == left@.len(),
            forall|j: int| 0 <= j < index ==> rv.contains(#[trigger] lv[j]),
        decreases left@.len() - index,
    {
        assert(lv[index as int] == left@[index as int]@);
        let mut found = false;
        let mut k: usize = 0;
        while k < right.len()
            invariant
                k <= right@.len(),
                index < left@.len(),
                rv == crate::text::byte_strings_view(right@),
                rv.len() == right@.len(),
                found == exists|m: int| 0 <= m < k && rv[m] == left@[index as int]@,
            decreases right@.len() - k,
        {
            assert(rv[k as int] == right@[k as int]@);
            if super::same_bytes(right[k].as_slice(), left[index].as_slice()) {
                found = true;
            }
            k = k + 1;
        }
        if !found {
            assert(!rv.contains(lv[index as int]));
            assert(lv.to_set().contains(lv[index as int]));
            return false;
        }
        index = index + 1;
    }
    assert forall|x: Seq<u8>| lv.to_set().contains(x) implies rv.to_set().contains(x) by {
        let j = choose|j: int| 0 <= j < lv.len() && lv[j] == x;
        assert(rv.contains(lv[j]));
    }
    true
}

/// Whether two key lists declare the same key set.
fn same_key_set(left: &Vec<Vec<u8>>, right: &Vec<Vec<u8>>) -> (same: bool)
    ensures
        same == (crate::text::byte_strings_view(left@).to_set() == crate::text::byte_strings_view(right@).to_set()),
{
    let forward = keys_within(left, right);
    let backward = keys_within(right, left);
    proof {
        let l = crate::text::byte_strings_view(left@).to_set();
        let r = crate::text::byte_strings_view(right@).to_set();
        if forward && backward {
            assert(l =~= r);
        }
    }
    forward && backward
}

/// The key sets of a list of shapes.
pub open spec fn shape_key_sets(shapes: Seq<DictLiteralShape>) -> Seq<Set<Seq<u8>>> {
    shapes.map_values(|shape: DictLiteralShape| crate::text::byte_strings_view(shape.keys@).to_set())
}

/// Returns true when at least two members declare different key sets.
pub fn dict_literal_key_sets_differ(shapes: &[DictLiteralShape]) -> (differ: bool)
    ensures
        differ == (shapes@.len() > 0 && exists|i: int| 0 <= i < shapes@.len()
            && #[trigger] shape_key_sets(shapes@)[i] != shape_key_sets(shapes@)[0]),
{
    let ghost sets = shape_key_sets(shapes@);
    if shapes.len() == 0 {
        return false;
    }
    assert(sets[0] == crate::text::byte_strings_view(shapes@[0].keys@).to_set());
    let mut index: usize = 0;
    while index < shapes.len()
        invariant
            index <= shapes@.len(),
            shapes@.len() > 0,
            sets == shape_key_sets(shapes@),
            sets.len() == shapes@.len(),
            forall|j: int| 0 <= j < index ==> #[trigger] sets[j] == sets[0],
        decreases shapes@.len() - index,
    {
        assert(sets[index as int] == crate::text::byte_strings_view(shapes@[index as int].keys@).to_set());
        assert(sets[0] == crate::text::byte_strings_view(shapes@[0].keys@).to_set());
        if !same_key_set(&shapes[index].keys, &shapes[0].keys) {
            return true;
        }
        index = index + 1;
    }
    false
}

/// Small nested-dict literals across pytest test files: every member is a
/// dictionary inside a `test_*` function, over two files, and the key sets
/// are not all one.
pub open spec fn spec_is_test_dict_literal_cluster(snippets: Seq<SnippetView>) -> bool {
    &&& snippets.len() >= 2
    &&& forall|k: int| 0 <= k < snippets.len() ==> (#[trigger] snippets[k]).language == "python"@
    &&& forall|k: int| 0 <= k < snippets.len() ==> (#[trigger] spec_dict_shape(snippets[k])) is Some
    &&& spec_spans_files(snippets.map_values(|snippet: SnippetView| snippet.file_id))
    &&& exists|k: int| 0 <= k < snippets.len()
        && (#[trigger] spec_dict_shape(snippets[k])).unwrap().1 != spec_dict_shape(snippets[0]).unwrap().1
}

/// Small nested-dict literals appearing across pytest test files: one
/// token alphabet and one shape, unrelated payloads. Fires only when every
/// member is inside a `test_*` function and the key sets differ.
#[verifier::loop_isolation(false)]
pub fn is_test_dict_literal_cluster(snippets: &[Snippet]) -> (dict_fixture: bool)
    ensures
        dict_fixture == spec_is_test_dict_literal_cluster(snippets_view(snippets@)),
{
    let ghost views = snippets_view(snippets@);
    assert(views.len() == snippets@.len());
    if snippets.len() < 2 {
        return false;
    }
    let mut k: usize = 0;
    while k < snippets.len()
        invariant
            k <= snippets@.len(),
            forall|m: int| 0 <= m < k ==> (#[trigger] views[m]).language == "python"@,
        decreases snippets@.len() - k,
    {
        assert(views[k as int] == snippets@[k as int]@);
        if !same_text(snippets[k].language, "python") {
            return false;
        }
        k = k + 1;
    }
    let mut shapes: Vec<DictLiteralShape> = Vec::new();
    let mut files: Vec<FileId> = Vec::new();
    let mut k: usize = 0;
    while k < snippets.len()
        invariant
            k <= snippets@.len(),
            shapes@.len() == k,
            forall|m: int| 0 <= m < k ==> (#[trigger] spec_dict_shape(views[m])) is Some,
            forall|m: int| 0 <= m < k ==> spec_dict_shape(views[m]).unwrap().1 == #[trigger] shape_key_sets(shapes@)[m],
            files@ == views.map_values(|snippet: SnippetView| snippet.file_id).take(k as int),
        decreases snippets@.len() - k,
    {
        assert(views[k as int] == snippets@[k as int]@);
        match test_dict_literal_shape(&snippets[k]) {
            Some(shape) => {
                let ghost before = shapes@;
                let ghost pushed = shape;
                shapes.push(shape);
                assert(shapes@[k as int] == pushed);
                assert(shape_key_sets(shapes@)[k as int] == crate::text::byte_strings_view(pushed.keys@).to_set());
                assert forall|m: int| 0 <= m < k + 1 implies spec_dict_shape(views[m]).unwrap().1 == #[trigger] shape_key_sets(shapes@)[m] by {
                    if m < k {
                        assert(shapes@[m] == before[m]);
                        assert(shape_key_sets(before)[m] == shape_key_sets(shapes@)[m]);
                    }
                }
            },
            None => return false,
        }
        files.push(snippets[k].file_id);
        assert(files@ =~= views.map_values(|snippet: SnippetView| snippet.file_id).take(k as int + 1));
        k = k + 1;
    }
    assert(files@ =~= views.map_values(|snippet: SnippetView| snippet.file_id));
    if !spans_multiple_files(files.as_slice()) {
        return false;
    }
    let differ = dict_literal_key_sets_differ(shapes.as_slice());
    proof {
        if differ {
            let i = choose|i: int| 0 <= i < shapes@.len() && #[trigger] shape_key_sets(shapes@)[i] != shape_key_sets(shapes@)[0];
            assert(spec_dict_shape(views[i]).unwrap().1 == shape_key_sets(shapes@)[i]);
            assert(spec_dict_shape(views[0]).unwrap().1 == shape_key_sets(shapes@)[0]);
        } else {
            assert forall|i: int| 0 <= i < views.len() implies
                !((#[trigger] spec_dict_shape(views[i])).unwrap().1 != spec_dict_shape(views[0]).unwrap().1) by {
                assert(spec_dict_shape(views[i]).unwrap().1 == shape_key_sets(shapes@)[i]);
                assert(spec_dict_shape(views[0]).unwrap().1 == shape_key_sets(shapes@)[0]);
            }
        }
    }
    differ
}

/// ASCII identifier start: a letter or `_`.
pub open spec fn spec_is_ident_start(byte: u8) -> bool {
    (65 <= byte <= 90) || (97 <= byte <= 122) || byte == 95
}

/// ASCII identifier continuation: a letter, a digit or `_`.
pub open spec fn spec_is_ident_cont(byte: u8) -> bool {
    spec_is_ident_start(byte) || (48 <= byte <= 57)
}

/// ASCII uppercase letter.
pub open spec fn spec_is_upper(byte: u8) -> bool {
    65 <= byte <= 90
}

/// ASCII identifier-start predicate (letters and `_`).
pub fn is_ident_start(byte: u8) -> (start: bool)
    ensures
        start == spec_is_ident_start(byte),
{
    (65 <= byte && byte <= 90) || (97 <= byte && byte <= 122) || byte == 95
}

/// ASCII identifier-continuation predicate (letters, digits, `_`).
pub fn is_ident_cont(byte: u8) -> (cont: bool)
    ensures
        cont == spec_is_ident_cont(byte),
{
    is_ident_start(byte) || (48 <= byte && byte <= 57)
}

/// Where the run of identifier-continuation bytes from `from` ends.
pub open spec fn spec_run_end(body: Seq<u8>, from: int) -> int
    decreases body.len() - from,
{
    if 0 <= from < body.len() && spec_is_ident_cont(body[from]) { spec_run_end(body, from + 1) } else { from }
}

/// The length of the identifier starting at `start`, if one does.
pub open spec fn spec_identifier_run_len(body: Seq<u8>, start: int) -> Option<int> {
    if start < 0 || start >= body.len() || !spec_is_ident_start(body[start]) {
        None
    } else {
        Some(spec_run_end(body, start + 1) - start)
    }
}

proof fn lemma_run_end_bounds(body: Seq<u8>, from: int)
    requires
        0 <= from,
    ensures
        from <= spec_run_end(body, from),
        from <= body.len() ==> spec_run_end(body, from) <= body.len(),
    decreases body.len() - from,
{
    if 0 <= from < body.len() && spec_is_ident_cont(body[from]) {
        lemma_run_end_bounds(body, from + 1);
    }
}

/// Returns the length of the identifier run starting at `start`, or `None`
/// when no identifier-start byte sits there.
pub fn identifier_run_len(body: &[u8], start: usize) -> (run: Option<usize>)
    ensures
        match run {
            Some(n) => spec_identifier_run_len(body@, start as int) == Some(n as int),
            None => spec_identifier_run_len(body@, start as int) is None,
        },
{
    if start >= body.len() || !is_ident_start(body[start]) {
        return None;
    }
    let mut end: usize = start + 1;
    while end < body.len() && is_ident_cont(body[end])
        invariant
            start < end <= body@.len(),
            spec_run_end(body@, start as int + 1) == spec_run_end(body@, end as int),
        decreases body@.len() - end,
    {
        end = end + 1;
    }
    Some(end - start)
}

/// Whether `index` starts a fresh token: the first byte, or one after a
/// byte that cannot continue an identifier.
pub open spec fn spec_at_token_boundary(body: Seq<u8>, index: int) -> bool {
    index == 0 || (0 < index <= body.len() && !spec_is_ident_cont(body[index - 1]))
}

/// Returns true when the previous byte is not an identifier-continuation
/// byte.
pub fn at_token_boundary(body: &[u8], index: usize) -> (boundary: bool)
    ensures
        boundary == spec_at_token_boundary(body@, index as int),
{
    if index == 0 {
        return true;
    }
    index - 1 < body.len() && !is_ident_cont(body[index - 1])
}

/// The identifier at `[start, start + len)` lies in `body`, holds an
/// uppercase letter, and holds only uppercase letters, digits and `_`.
pub open spec fn spec_ident_is_upper_snake(body: Seq<u8>, start: int, len: int) -> bool {
    &&& 0 <= start && 0 <= len && start + len <= body.len()
    &&& exists|i: int| start <= i < start + len && spec_is_upper(#[trigger] body[i])
    &&& forall|i: int| start <= i < start + len ==> spec_is_upper(#[trigger] body[i]) || (48 <= body[i] <= 57) || body[i] == 95
}

/// Returns true when the identifier at `[start, start + len)` is
/// `UPPER_SNAKE`: uppercase letters, digits or `_`, with an uppercase
/// letter present.
pub fn ident_is_upper_snake(body: &[u8], start: usize, len: usize) -> (upper: bool)
    ensures
        upper == spec_ident_is_upper_snake(body@, start as int, len as int),
{
    if start > body.len() || len > body.len() - start {
        return false;
    }
    let mut any_upper = false;
    let mut index: usize = start;
    let stop = start + len;
    while index < stop
        invariant
            start <= index <= stop,
            stop == start + len,
            start + len <= body@.len(),
            any_upper == exists|i: int| start <= i < index && spec_is_upper(#[trigger] body@[i]),
            forall|i: int| start <= i < index ==> spec_is_upper(#[trigger] body@[i]) || (48 <= body@[i] <= 57) || body@[i] == 95,
        decreases stop - index,
    {
        let byte = body[index];
        let upper = 65 <= byte && byte <= 90;
        if !(upper || (48 <= byte && byte <= 57) || byte == 95) {
            return false;
        }
        if upper {
            any_upper = true;
        }
        index = index + 1;
    }
    any_upper
}

/// The length of the `Capitalised.UPPER_SNAKE` token at `index`, when one
/// starts there.
pub open spec fn spec_consume_enum_access_at(body: Seq<u8>, index: int) -> Option<int> {
    if !spec_at_token_boundary(body, index) {
        None
    } else {
        match spec_identifier_run_len(body, index) {
            None => None,
            Some(prefix) => {
                let dot = index + prefix;
                if !(0 <= index < body.len() && spec_is_upper(body[index])) || !(dot < body.len() && body[dot] == 46) {
                    None
                } else {
                    match spec_identifier_run_len(body, dot + 1) {
                        None => None,
                        Some(suffix) => if spec_ident_is_upper_snake(body, dot + 1, suffix) {
                            Some(prefix + 1 + suffix)
                        } else {
                            None
                        },
                    }
                }
            },
        }
    }
}

/// Tries to consume a `Capitalised.UPPER_SNAKE` token at `index`, returning
/// the number of bytes consumed when matched.
pub fn consume_enum_access_at(body: &[u8], index: usize) -> (consumed: Option<usize>)
    ensures
        match consumed {
            Some(n) => spec_consume_enum_access_at(body@, index as int) == Some(n as int),
            None => spec_consume_enum_access_at(body@, index as int) is None,
        },
{
    if !at_token_boundary(body, index) {
        return None;
    }
    let prefix_len = match identifier_run_len(body, index) {
        Some(prefix_len) => prefix_len,
        None => return None,
    };
    proof {
        lemma_run_end_bounds(body@, index as int + 1);
    }
    if !(65 <= body[index] && body[index] <= 90) {
        return None;
    }
    let dot = index + prefix_len;
    if !(dot < body.len() && body[dot] == 46) {
        return None;
    }
    let suffix_start = dot + 1;
    let suffix_len = match identifier_run_len(body, suffix_start) {
        Some(suffix_len) => suffix_len,
        None => return None,
    };
    proof {
        lemma_run_end_bounds(body@, suffix_start as int + 1);
    }
    if !ident_is_upper_snake(body, suffix_start, suffix_len) {
        return None;
    }
    Some(prefix_len + 1 + suffix_len)
}

/// Whether `text` holds a `Capitalised.UPPER_SNAKE` token such as `Kind.K8S`.
pub open spec fn spec_contains_enum_member_access_token(text: Seq<u8>) -> bool {
    exists|index: int| 0 <= index < text.len() && (#[trigger] spec_consume_enum_access_at(text, index)) is Some
}

/// Returns true when `text` contains at least one `Capitalised.UPPER_SNAKE`
/// token. Scans bytes only.
pub fn contains_enum_member_access_token(text: &[u8]) -> (found: bool)
    ensures
        found == spec_contains_enum_member_access_token(text@),
{
    let mut index: usize = 0;
    while index < text.len()
        invariant
            index <= text@.len(),
            forall|i: int| 0 <= i < index ==> (#[trigger] spec_consume_enum_access_at(text@, i)) is None,
        decreases text@.len() - index,
    {
        if consume_enum_access_at(text, index).is_some() {
            return true;
        }
        index = index + 1;
    }
    false
}

/// Whether a member sits inside a pytest `test_*` function and its range
/// carries an enum-member access token, in its parsed file.
pub open spec fn spec_inside_parametric_test_in(tree: SyntaxNode, snippet: SnippetView) -> bool {
    let range = match spec_trimmed_range_of(snippet) {
        Some(range) => range,
        None => snippet.range,
    };
    match spec_enclosing_in(tree, range, seq!["function_definition"@], None) {
        None => false,
        Some(function) => spec_name_starts_with(function, snippet.source, test_prefix())
            && match spec_span(snippet.source, range.start, range.end) {
                Some(text) => spec_contains_enum_member_access_token(text),
                None => false,
            },
    }
}

/// Whether a member sits inside a parametric pytest test, read from its
/// parsed file.
pub open spec fn spec_snippet_inside_parametric_test(snippet: SnippetView) -> bool {
    match spec_plugin_parse(snippet.language, snippet.source) {
        Some(tree) => spec_inside_parametric_test_in(tree, snippet),
        None => false,
    }
}

/// Returns true when the snippet lives inside a pytest `test_*` function
/// and its range carries an enum-member access token, which guards
/// against suppressing genuine copy-paste inside test files.
pub fn snippet_inside_parametric_test(snippet: &Snippet) -> (parametric: bool)
    ensures
        parametric == spec_snippet_inside_parametric_test(snippet@),
{
    let tree = match parse_snippet(snippet) {
        Some(tree) => tree,
        None => return false,
    };
    let range = match trimmed(snippet) {
        Some(range) => range,
        None => snippet.range,
    };
    let function = match enclosing_function_definition(&tree, range) {
        Some(function) => function,
        None => return false,
    };
    let prefix: [u8; 5] = [116, 101, 115, 116, 95];
    assert(prefix@ =~= test_prefix());
    if !python_function_name_starts_with(function, snippet.source, &prefix) {
        return false;
    }
    if !(range.start <= range.end && range.end <= snippet.source.len()) {
        return false;
    }
    contains_enum_member_access_token(vstd::slice::slice_subrange(snippet.source, range.start, range.end))
}

/// Every member sits in a `test_*` function and names an enum member.
pub open spec fn spec_is_parametric_invariant_test_cluster(snippets: Seq<SnippetView>) -> bool {
    &&& snippets.len() >= 2
    &&& forall|k: int| 0 <= k < snippets.len() ==> (#[trigger] snippets[k]).language == "python"@
    &&& forall|k: int| 0 <= k < snippets.len() ==> spec_snippet_inside_parametric_test(#[trigger] snippets[k])
}

/// Every occurrence is enclosed by a `test_*` function and carries an
/// enum-member access token: each test name records a distinct spec
/// assertion, and collapsing the cluster would lose coverage granularity.
pub fn is_parametric_invariant_test_cluster(snippets: &[Snippet]) -> (parametric: bool)
    ensures
        parametric == spec_is_parametric_invariant_test_cluster(snippets_view(snippets@)),
{
    let ghost views = snippets_view(snippets@);
    if snippets.len() < 2 {
        return false;
    }
    let mut k: usize = 0;
    while k < snippets.len()
        invariant
            k <= snippets@.len(),
            views == snippets_view(snippets@),
            views.len() == snippets@.len(),
            forall|m: int| 0 <= m < k ==> (#[trigger] views[m]).language == "python"@,
        decreases snippets@.len() - k,
    {
        assert(views[k as int] == snippets@[k as int]@);
        if !same_text(snippets[k].language, "python") {
            return false;
        }
        k = k + 1;
    }
    let mut k: usize = 0;
    while k < snippets.len()
        invariant
            k <= snippets@.len(),
            views == snippets_view(snippets@),
            views.len() == snippets@.len(),
            forall|m: int| 0 <= m < k ==> spec_snippet_inside_parametric_test(#[trigger] views[m]),
        decreases snippets@.len() - k,
    {
        assert(views[k as int] == snippets@[k as int]@);
        if !snippet_inside_parametric_test(&snippets[k]) {
            return false;
        }
        k = k + 1;
    }
    true
}

} // verus!
