//! Python idioms whose shape repeats by design: independent HS256 signing
//! verifiers, generated-output headers shared with their templates, and
//! module-level `__all__` export lists.

use vstd::prelude::*;

use super::node_search::{deref_node, enclosing_kind, spec_enclosing_in, spec_span};
use super::override_marker::{child_by_field_name, spec_child_by_field};
use super::python::{spec_first_kind_child, spec_range_text_of};
use super::snippets::{parse_snippet, snippets_view, spec_plugin_parse, Snippet, SnippetView};
use super::{
    contains_bytes, first_non_whitespace, kinds_view, source_head, spans_multiple_files, spec_contains_bytes,
    spec_first_non_whitespace, spec_spans_files, SyntaxNode,
};
use crate::ast::FileId;
use crate::text::{same_bytes, same_text};

verus! {

/// The bytes of `def test_`.
pub open spec fn spec_test_function_marker() -> Seq<u8> {
    seq![100u8, 101, 102, 32, 116, 101, 115, 116, 95]
}

/// The bytes of `expected_hs256`.
pub open spec fn spec_expected_hs256_marker() -> Seq<u8> {
    seq![101u8, 120, 112, 101, 99, 116, 101, 100, 95, 104, 115, 50, 53, 54]
}

/// The bytes of `hmac.new`.
pub open spec fn spec_hmac_new() -> Seq<u8> {
    seq![104u8, 109, 97, 99, 46, 110, 101, 119]
}

/// The bytes of `hashlib.sha256`.
pub open spec fn spec_hashlib_sha256() -> Seq<u8> {
    seq![104u8, 97, 115, 104, 108, 105, 98, 46, 115, 104, 97, 50, 53, 54]
}

/// The bytes of `urlsafe_b64encode`.
pub open spec fn spec_urlsafe_b64encode() -> Seq<u8> {
    seq![117u8, 114, 108, 115, 97, 102, 101, 95, 98, 54, 52, 101, 110, 99, 111, 100, 101]
}

/// The bytes of `DO NOT HAND-EDIT`.
pub open spec fn spec_generated_marker() -> Seq<u8> {
    seq![68u8, 79, 32, 78, 79, 84, 32, 72, 65, 78, 68, 45, 69, 68, 73, 84]
}

/// The bytes of `__all__`.
pub open spec fn spec_all_exports_name() -> Seq<u8> {
    seq![95u8, 95, 97, 108, 108, 95, 95]
}

/// The bytes of `"""`.
pub open spec fn spec_triple_double_quote() -> Seq<u8> {
    seq![34u8, 34, 34]
}

/// The bytes of `'''`.
pub open spec fn spec_triple_single_quote() -> Seq<u8> {
    seq![39u8, 39, 39]
}

/// The bytes of `#`.
pub open spec fn spec_hash_sign() -> Seq<u8> {
    seq![35u8]
}

/// The bytes of `def test_`.
fn test_function_marker() -> (bytes: [u8; 9])
    ensures
        bytes@ == spec_test_function_marker(),
{
    let bytes: [u8; 9] = [100, 101, 102, 32, 116, 101, 115, 116, 95];
    assert(bytes@ =~= spec_test_function_marker());
    bytes
}

/// The bytes of `expected_hs256`.
fn expected_hs256_marker() -> (bytes: [u8; 14])
    ensures
        bytes@ == spec_expected_hs256_marker(),
{
    let bytes: [u8; 14] = [101, 120, 112, 101, 99, 116, 101, 100, 95, 104, 115, 50, 53, 54];
    assert(bytes@ =~= spec_expected_hs256_marker());
    bytes
}

/// The bytes of `hmac.new`.
fn hmac_new() -> (bytes: [u8; 8])
    ensures
        bytes@ == spec_hmac_new(),
{
    let bytes: [u8; 8] = [104, 109, 97, 99, 46, 110, 101, 119];
    assert(bytes@ =~= spec_hmac_new());
    bytes
}

/// The bytes of `hashlib.sha256`.
fn hashlib_sha256() -> (bytes: [u8; 14])
    ensures
        bytes@ == spec_hashlib_sha256(),
{
    let bytes: [u8; 14] = [104, 97, 115, 104, 108, 105, 98, 46, 115, 104, 97, 50, 53, 54];
    assert(bytes@ =~= spec_hashlib_sha256());
    bytes
}

/// The bytes of `urlsafe_b64encode`.
fn urlsafe_b64encode() -> (bytes: [u8; 17])
    ensures
        bytes@ == spec_urlsafe_b64encode(),
{
    let bytes: [u8; 17] = [117, 114, 108, 115, 97, 102, 101, 95, 98, 54, 52, 101, 110, 99, 111, 100, 101];
    assert(bytes@ =~= spec_urlsafe_b64encode());
    bytes
}

/// The bytes of `DO NOT HAND-EDIT`.
fn generated_marker() -> (bytes: [u8; 16])
    ensures
        bytes@ == spec_generated_marker(),
{
    let bytes: [u8; 16] = [68, 79, 32, 78, 79, 84, 32, 72, 65, 78, 68, 45, 69, 68, 73, 84];
    assert(bytes@ =~= spec_generated_marker());
    bytes
}

/// The bytes of `__all__`.
fn all_exports_name() -> (bytes: [u8; 7])
    ensures
        bytes@ == spec_all_exports_name(),
{
    let bytes: [u8; 7] = [95, 95, 97, 108, 108, 95, 95];
    assert(bytes@ =~= spec_all_exports_name());
    bytes
}

/// The bytes of `"""`.
fn triple_double_quote() -> (bytes: [u8; 3])
    ensures
        bytes@ == spec_triple_double_quote(),
{
    let bytes: [u8; 3] = [34, 34, 34];
    assert(bytes@ =~= spec_triple_double_quote());
    bytes
}

/// The bytes of `'''`.
fn triple_single_quote() -> (bytes: [u8; 3])
    ensures
        bytes@ == spec_triple_single_quote(),
{
    let bytes: [u8; 3] = [39, 39, 39];
    assert(bytes@ =~= spec_triple_single_quote());
    bytes
}

/// The bytes of `#`.
fn hash_sign() -> (bytes: [u8; 1])
    ensures
        bytes@ == spec_hash_sign(),
{
    let bytes: [u8; 1] = [35];
    assert(bytes@ =~= spec_hash_sign());
    bytes
}

/// Whether `bytes` starts with `prefix`.
pub open spec fn spec_starts_with(bytes: Seq<u8>, prefix: Seq<u8>) -> bool {
    prefix.len() <= bytes.len() && bytes.take(prefix.len() as int) == prefix
}

/// Returns true when `bytes` starts with `prefix`.
fn starts_with(bytes: &[u8], prefix: &[u8]) -> (starts: bool)
    ensures
        starts == spec_starts_with(bytes@, prefix@),
{
    if prefix.len() > bytes.len() {
        return false;
    }
    let head = vstd::slice::slice_subrange(bytes, 0, prefix.len());
    assert(head@ =~= bytes@.take(prefix@.len() as int));
    same_bytes(head, prefix)
}

/// A Python test module, told by its text alone.
pub open spec fn spec_looks_like_test(source: Seq<u8>) -> bool {
    spec_contains_bytes(source, spec_test_function_marker()) || spec_contains_bytes(source, spec_expected_hs256_marker())
}

/// Returns true for Python test modules without relying on file paths.
pub fn python_source_looks_like_test(source: &[u8]) -> (test: bool)
    ensures
        test == spec_looks_like_test(source@),
{
    contains_bytes(source, &test_function_marker()) || contains_bytes(source, &expected_hs256_marker())
}

/// The stdlib HS256 signing shape: `hmac.new`, `hashlib.sha256` and
/// `urlsafe_b64encode` all present.
pub open spec fn spec_looks_like_hs256(body: Seq<u8>) -> bool {
    spec_contains_bytes(body, spec_hmac_new()) && spec_contains_bytes(body, spec_hashlib_sha256())
        && spec_contains_bytes(body, spec_urlsafe_b64encode())
}

/// Returns true for the stdlib HS256 signing shape. Requiring all three
/// calls keeps the filter tighter than a generic "uses hmac" suppression.
pub fn python_body_looks_like_hs256(body_source: &[u8]) -> (hs256: bool)
    ensures
        hs256 == spec_looks_like_hs256(body_source@),
{
    contains_bytes(body_source, &hmac_new()) && contains_bytes(body_source, &hashlib_sha256())
        && contains_bytes(body_source, &urlsafe_b64encode())
}

/// One HS256 signing occurrence: its file, whether its file looks like a
/// test module, and whether its enclosing function body signs HS256.
pub struct JwtHmacShape {
    /// File of the member.
    pub file_id: FileId,
    /// The full source file looks like a test module.
    pub is_test_source: bool,
    /// The enclosing function body implements HS256 signing.
    pub is_hs256_body: bool,
}

/// The HS256 shape of a member, read from its parsed file.
pub open spec fn spec_jwt_hmac_shape(snippet: SnippetView) -> Option<(FileId, bool, bool)> {
    match spec_plugin_parse(snippet.language, snippet.source) {
        None => None,
        Some(tree) => match spec_enclosing_in(tree, snippet.range, seq!["function_definition"@], None) {
            None => None,
            Some(function) => match spec_child_by_field(function, "body"@) {
                None => None,
                Some(body) => match spec_span(snippet.source, body.start_byte, body.end_byte) {
                    None => None,
                    Some(body_source) => Some((snippet.file_id, spec_looks_like_test(snippet.source), spec_looks_like_hs256(body_source))),
                },
            },
        },
    }
}

/// Extracts the HS256 signing shape from the enclosing Python function.
pub fn jwt_hmac_shape(snippet: &Snippet) -> (shape: Option<JwtHmacShape>)
    ensures
        match shape {
            Some(found) => spec_jwt_hmac_shape(snippet@) == Some((found.file_id, found.is_test_source, found.is_hs256_body)),
            None => spec_jwt_hmac_shape(snippet@) is None,
        },
{
    let tree = match parse_snippet(snippet) {
        Some(tree) => tree,
        None => return None,
    };
    let kinds = vec!["function_definition"];
    assert(kinds_view(kinds@) =~= seq!["function_definition"@]);
    let function = match enclosing_kind(&tree, snippet.range, &kinds) {
        Some(function) => function,
        None => return None,
    };
    let body = match child_by_field_name(function, "body") {
        Some(body) => body,
        None => return None,
    };
    if !(body.start_byte <= body.end_byte && body.end_byte <= snippet.source.len()) {
        return None;
    }
    let body_source = vstd::slice::slice_subrange(snippet.source, body.start_byte, body.end_byte);
    Some(JwtHmacShape {
        file_id: snippet.file_id,
        is_test_source: python_source_looks_like_test(snippet.source),
        is_hs256_body: python_body_looks_like_hs256(body_source),
    })
}

/// Production HS256 signing and a test re-implementing it across files.
pub open spec fn spec_is_jwt_hmac_independent_verifier_cluster(snippets: Seq<SnippetView>) -> bool {
    &&& snippets.len() >= 2
    &&& forall|k: int| 0 <= k < snippets.len() ==> (#[trigger] snippets[k]).language == "python"@
    &&& forall|k: int| 0 <= k < snippets.len() ==> (#[trigger] spec_jwt_hmac_shape(snippets[k])) is Some
    &&& spec_spans_files(snippets.map_values(|snippet: SnippetView| snippet.file_id))
    &&& forall|k: int| 0 <= k < snippets.len() ==> (#[trigger] spec_jwt_hmac_shape(snippets[k])).unwrap().2
    &&& exists|k: int| 0 <= k < snippets.len() && (#[trigger] spec_jwt_hmac_shape(snippets[k])).unwrap().1
    &&& exists|k: int| 0 <= k < snippets.len() && !(#[trigger] spec_jwt_hmac_shape(snippets[k])).unwrap().1
}

/// Production HS256/JWT signing code and tests that re-implement the same
/// HMAC calculation: the test-side duplication is intentional black-box
/// verification, which calling the production helper would stop proving.
#[verifier::loop_isolation(false)]
pub fn is_jwt_hmac_independent_verifier_cluster(snippets: &[Snippet]) -> (independent: bool)
    ensures
        independent == spec_is_jwt_hmac_independent_verifier_cluster(snippets_view(snippets@)),
{
    let ghost views = snippets_view(snippets@);
    assert(views.len() == snippets@.len());
    if snippets.len() < 2 {
        return false;
    }
    let mut k: usize = 0;
    while k < snippets.len()
        invariant
            k <= snippets@.len(),
            forall|m: int| 0 <= m < k ==> (#[trigger] views[m]).language == "python"@,
        decreases snippets@.len() - k,
    {
        assert(views[k as int] == snippets@[k as int]@);
        if !same_text(snippets[k].language, "python") {
            return false;
        }
        k = k + 1;
    }
    let mut files: Vec<FileId> = Vec::new();
    let mut all_hs256 = true;
    let mut any_test = false;
    let mut any_production = false;
    let mut k: usize = 0;
    while k < snippets.len()
        invariant
            k <= snippets@.len(),
            forall|m: int| 0 <= m < k ==> (#[trigger] spec_jwt_hmac_shape(views[m])) is Some,
            files@ == views.map_values(|snippet: SnippetView| snippet.file_id).take(k as int),
            all_hs256 == forall|m: int| 0 <= m < k ==> (#[trigger] spec_jwt_hmac_shape(views[m])).unwrap().2,
            any_test == exists|m: int| 0 <= m < k && (#[trigger] spec_jwt_hmac_shape(views[m])).unwrap().1,
            any_production == exists|m: int| 0 <= m < k && !(#[trigger] spec_jwt_hmac_shape(views[m])).unwrap().1,
        decreases snippets@.len() - k,
    {
        assert(views[k as int] == snippets@[k as int]@);
        let shape = match jwt_hmac_shape(&snippets[k]) {
            Some(shape) => shape,
            None => return false,
        };
        if !shape.is_hs256_body {
            all_hs256 = false;
        }
        if shape.is_test_source {
            any_test = true;
        } else {
            any_production = true;
        }
        files.push(shape.file_id);
        assert(files@ =~= views.map_values(|snippet: SnippetView| snippet.file_id).take(k as int + 1));
        k = k + 1;
    }
    assert(files@ =~= views.map_values(|snippet: SnippetView| snippet.file_id));
    spans_multiple_files(files.as_slice()) && all_hs256 && any_test && any_production
}

/// Whether `bytes` holds the generated-file marker.
pub open spec fn spec_contains_generated_marker(bytes: Seq<u8>) -> bool {
    spec_contains_bytes(bytes, spec_generated_marker())
}

/// Generated-file marker used by first-party fixtures.
pub fn contains_generated_marker(bytes: &[u8]) -> (marked: bool)
    ensures
        marked == spec_contains_generated_marker(bytes@),
{
    contains_bytes(bytes, &generated_marker())
}

/// The first kilobyte of a source.
pub open spec fn spec_head(source: Seq<u8>) -> Seq<u8> {
    source.take(if source.len() < 1024 { source.len() as int } else { 1024 })
}

/// A generated output file: its head carries the marker and opens with a
/// docstring or a comment.
pub open spec fn spec_is_generated_output_source(snippet: SnippetView) -> bool {
    let head = spec_head(snippet.source);
    let trimmed = head.skip(spec_first_non_whitespace(head));
    spec_contains_generated_marker(head) && (spec_starts_with(trimmed, spec_triple_double_quote())
        || spec_starts_with(trimmed, spec_triple_single_quote()) || spec_starts_with(trimmed, spec_hash_sign()))
}

/// Returns true for a Python generated output file with a top-of-file
/// docstring or comment warning against editing it directly.
pub fn is_generated_output_source(snippet: &Snippet) -> (generated: bool)
    ensures
        generated == spec_is_generated_output_source(snippet@),
{
    let head = source_head(snippet.source);
    let trimmed = super::trim_ascii_start(head);
    contains_generated_marker(head) && (starts_with(trimmed, &triple_double_quote())
        || starts_with(trimmed, &triple_single_quote()) || starts_with(trimmed, &hash_sign()))
}

/// The generator-template side: the range itself carries the marker, but
/// its file is not the generated output.
pub open spec fn spec_is_generated_header_template(snippet: SnippetView) -> bool {
    !spec_is_generated_output_source(snippet) && match spec_range_text_of(snippet) {
        Some(text) => spec_contains_generated_marker(text),
        None => false,
    }
}

/// Returns true when the reported range itself contains a generated-file
/// marker, but the file is not the generated output.
pub fn is_generated_header_template_snippet(snippet: &Snippet) -> (template: bool)
    ensures
        template == spec_is_generated_header_template(snippet@),
{
    if is_generated_output_source(snippet) {
        return false;
    }
    if !(snippet.range.start <= snippet.range.end && snippet.range.end <= snippet.source.len()) {
        return false;
    }
    contains_generated_marker(vstd::slice::slice_subrange(snippet.source, snippet.range.start, snippet.range.end))
}

/// A generator template and its generated output across two Python files.
pub open spec fn spec_is_generated_template_output_cluster(snippets: Seq<SnippetView>) -> bool {
    &&& snippets.len() >= 2
    &&& forall|k: int| 0 <= k < snippets.len() ==> (#[trigger] snippets[k]).language == "python"@
    &&& spec_spans_files(snippets.map_values(|snippet: SnippetView| snippet.file_id))
    &&& exists|k: int| 0 <= k < snippets.len() && spec_is_generated_header_template(#[trigger] snippets[k])
    &&& exists|k: int| 0 <= k < snippets.len() && spec_is_generated_output_source(#[trigger] snippets[k])
}

/// A hand-written generator holding a generated-file header template, and
/// the generated file carrying the same marker: related on purpose, and
/// the output is no refactor target.
#[verifier::loop_isolation(false)]
pub fn is_generated_template_output_cluster(snippets: &[Snippet]) -> (generated: bool)
    ensures
        generated == spec_is_generated_template_output_cluster(snippets_view(snippets@)),
{
    let ghost views = snippets_view(snippets@);
    assert(views.len() == snippets@.len());
    if snippets.len() < 2 {
        return false;
    }
    let mut files: Vec<FileId> = Vec::new();
    let mut any_template = false;
    let mut any_output = false;
    let mut k: usize = 0;
    while k < snippets.len()
        invariant
            k <= snippets@.len(),
            forall|m: int| 0 <= m < k ==> (#[trigger] views[m]).language == "python"@,
            files@ == views.map_values(|snippet: SnippetView| snippet.file_id).take(k as int),
            any_template == exists|m: int| 0 <= m < k && spec_is_generated_header_template(#[trigger] views[m]),
            any_output == exists|m: int| 0 <= m < k && spec_is_generated_output_source(#[trigger] views[m]),
        decreases snippets@.len() - k,
    {
        assert(views[k as int] == snippets@[k as int]@);
        if !same_text(snippets[k].language, "python") {
            return false;
        }
        if is_generated_header_template_snippet(&snippets[k]) {
            any_template = true;
        }
        if is_generated_output_source(&snippets[k]) {
            any_output = true;
        }
        files.push(snippets[k].file_id);
        assert(files@ =~= views.map_values(|snippet: SnippetView| snippet.file_id).take(k as int + 1));
        k = k + 1;
    }
    assert(files@ =~= views.map_values(|snippet: SnippetView| snippet.file_id));
    spans_multiple_files(files.as_slice()) && any_template && any_output
}

/// An `expression_statement` descended to its first `assignment` child;
/// any other node as it is.
pub open spec fn spec_descend_to_assignment(node: SyntaxNode) -> SyntaxNode {
    if node.kind@ != "expression_statement"@ {
        node
    } else {
        match spec_first_kind_child(node.children@, "assignment"@, 0) {
            Some(assignment) => assignment,
            None => node,
        }
    }
}

/// If `node` is an `expression_statement`, descend to its inner
/// `assignment`; otherwise return `node` unchanged.
pub fn python_descend_to_assignment(node: &SyntaxNode) -> (assignment: &SyntaxNode)
    ensures
        *assignment == spec_descend_to_assignment(*node),
{
    if !same_text(node.kind.as_str(), "expression_statement") {
        return node;
    }
    let mut index: usize = 0;
    while index < node.children.len()
        invariant
            index <= node.children@.len(),
            node.kind@ == "expression_statement"@,
            spec_first_kind_child(node.children@, "assignment"@, 0) == spec_first_kind_child(node.children@, "assignment"@, index as int),
        decreases node.children@.len() - index,
    {
        let child = &node.children[index];
        if child.named && same_text(child.kind.as_str(), "assignment") {
            return child;
        }
        index = index + 1;
    }
    node
}

/// Whether `node` binds `__all__` to a list or tuple literal.
pub open spec fn spec_assigns_all_exports(node: SyntaxNode, source: Seq<u8>) -> bool {
    let assignment = spec_descend_to_assignment(node);
    &&& match spec_child_by_field(assignment, "left"@) {
        Some(left) => spec_span(source, left.start_byte, left.end_byte) == Some(spec_all_exports_name()),
        None => false,
    }
    &&& match spec_child_by_field(assignment, "right"@) {
        Some(right) => right.kind@ == "list"@ || right.kind@ == "tuple"@,
        None => false,
    }
}

/// Returns true when `node` (an `expression_statement` or `assignment`)
/// binds the identifier `__all__` to a list or tuple literal.
pub fn python_node_assigns_all_exports(node: &SyntaxNode, source: &[u8]) -> (exports: bool)
    ensures
        exports == spec_assigns_all_exports(*node, source@),
{
    let assignment = python_descend_to_assignment(node);
    let left = match child_by_field_name(assignment, "left") {
        Some(left) => left,
        None => return false,
    };
    if !super::node_search::span_is(source, left.start_byte, left.end_byte, &all_exports_name()) {
        return false;
    }
    match child_by_field_name(assignment, "right") {
        Some(right) => same_text(right.kind.as_str(), "list") || same_text(right.kind.as_str(), "tuple"),
        None => false,
    }
}

/// Whether a member covers a module-level `__all__ = [...]` assignment (or
/// its list), read from its parsed file.
pub open spec fn spec_is_python_all_exports_snippet(snippet: SnippetView) -> bool {
    snippet.language == "python"@ && match spec_plugin_parse(snippet.language, snippet.source) {
        None => false,
        Some(tree) => {
            let found = match spec_enclosing_in(tree, snippet.range, seq!["expression_statement"@], None) {
                Some(statement) => Some(statement),
                None => spec_enclosing_in(tree, snippet.range, seq!["assignment"@], None),
            };
            match found {
                Some(node) => spec_assigns_all_exports(node, snippet.source),
                None => false,
            }
        },
    }
}

/// Returns true when the snippet covers a Python `__all__ = [...]`
/// assignment or its list literal.
pub fn is_python_all_exports_snippet(snippet: &Snippet) -> (exports: bool)
    ensures
        exports == spec_is_python_all_exports_snippet(snippet@),
{
    if !same_text(snippet.language, "python") {
        return false;
    }
    let tree = match parse_snippet(snippet) {
        Some(tree) => tree,
        None => return false,
    };
    let statements = vec!["expression_statement"];
    let assignments = vec!["assignment"];
    assert(kinds_view(statements@) =~= seq!["expression_statement"@]);
    assert(kinds_view(assignments@) =~= seq!["assignment"@]);
    let found = match enclosing_kind(&tree, snippet.range, &statements) {
        Some(statement) => Some(statement),
        None => enclosing_kind(&tree, snippet.range, &assignments),
    };
    match found {
        Some(node) => python_node_assigns_all_exports(node, snippet.source),
        None => false,
    }
}

/// Every member is a module-level `__all__` export list.
pub open spec fn spec_is_python_all_exports_cluster(snippets: Seq<SnippetView>) -> bool {
    forall|k: int| 0 <= k < snippets.len() ==> spec_is_python_all_exports_snippet(#[trigger] snippets[k])
}

/// Every member is a Python module-level `__all__ = [...]` assignment: the
/// export list shape is one by convention, the names always differ, and a
/// package surface is no duplicated logic.
pub fn is_python_all_exports_cluster(snippets: &[Snippet]) -> (exports: bool)
    ensures
        exports == spec_is_python_all_exports_cluster(snippets_view(snippets@)),
{
    let ghost views = snippets_view(snippets@);
    let mut k: usize = 0;
    while k < snippets.len()
        invariant
            k <= snippets@.len(),
            views == snippets_view(snippets@),
            views.len() == snippets@.len(),
            forall|m: int| 0 <= m < k ==> spec_is_python_all_exports_snippet(#[trigger] views[m]),
        decreases snippets@.len() - k,
    {
        assert(views[k as int] == snippets@[k as int]@);
        if !is_python_all_exports_snippet(&snippets[k]) {
            return false;
        }
        k = k + 1;
    }
    true
}

} // verus!
