//! Cluster-level false-positive filters applied during report rendering.
//!
//! Noise patterns survive structural fingerprinting because Type-2
//! normalisation collapses identifiers and literals. Each member's source
//! is parsed again and the real tree read, as a person reading the code would, so that
//! clusters the pipeline cannot tell apart but a human instantly would are
//! dropped:
//! - abstract method signatures clustering across every concrete subclass;
//! - calls whose only variation is their string literal arguments, test
//!   fixture data rather than duplication;
//! - `monkeypatch` scaffolding in pytest tests.
//!
//! These filters parse with the Python, C# and Rust grammars alone; the
//! decision over a whole cluster, with every language's plug-in grammar,
//! is the noise bank's. A member whose source cannot be parsed falls
//! through unchanged.

use vstd::prelude::*;

use super::node_search::{deref_node, enclosing_kind, node_contains_identifier, spec_contains_identifier, spec_enclosing_in, spec_span};
use super::override_marker::{child_by_field_name, spec_child_by_field};
use super::snippets::{
    parse_for, snippets_view, spec_parse_for, Snippet, SnippetView,
};
use super::syntax::{spec_first_named, spec_named_count};
use super::{function_kinds, kind_in, kinds_view, spans_multiple_files, spec_function_kinds, spec_spans_files, SyntaxNode};
use crate::ast::{ByteRange, FileId};
use crate::text::{same_bytes, same_text};

verus! {

/// Per-argument summary recorded for each call.
pub enum ArgShape {
    /// Raw bytes of a string-literal argument.
    StringLiteral(Vec<u8>),
    /// Anything else: a non-string literal, an identifier, a sub-expression.
    Other,
}

/// Distilled view of a call expression used to compare cluster members.
pub struct CallShape {
    /// Concrete callee text, such as `client.delete`.
    pub callee: Vec<u8>,
    /// Number of arguments to the call.
    pub arity: usize,
    /// Per-argument summary.
    pub arguments: Vec<ArgShape>,
}

/// The model of a [`CallShape`]: each argument's string bytes, or none.
pub struct CallShapeView {
    /// Callee text.
    pub callee: Seq<u8>,
    /// Argument count.
    pub arity: usize,
    /// String bytes per argument; `None` for a non-string argument.
    pub arguments: Seq<Option<Seq<u8>>>,
}

/// The model of one argument.
pub open spec fn arg_view(argument: ArgShape) -> Option<Seq<u8>> {
    match argument {
        ArgShape::StringLiteral(bytes) => Some(bytes@),
        ArgShape::Other => None,
    }
}

impl View for CallShape {
    type V = CallShapeView;

    open spec fn view(&self) -> CallShapeView {
        CallShapeView {
            callee: self.callee@,
            arity: self.arity,
            arguments: self.arguments@.map_values(|argument: ArgShape| arg_view(argument)),
        }
    }
}

/// The models of a list of calls.
pub open spec fn shapes_view(calls: Seq<CallShape>) -> Seq<CallShapeView> {
    calls.map_values(|call: CallShape| call@)
}

/// The string bytes of argument `index` of `call`, if it is a string.
pub open spec fn spec_string_at(call: CallShapeView, index: int) -> Option<Seq<u8>> {
    if 0 <= index < call.arguments.len() { call.arguments[index] } else { None }
}

/// At least one positional argument that is a string in the first call
/// has differing string bytes across the cluster, and every call holds a
/// string wherever the first does.
pub open spec fn spec_has_differing_string_literals(calls: Seq<CallShapeView>) -> bool {
    &&& calls.len() > 0
    &&& forall|i: int, j: int| 0 <= i < calls[0].arguments.len() && 1 <= j < calls.len() && calls[0].arguments[i] is Some
        ==> (#[trigger] spec_string_at(calls[j], i)) is Some
    &&& exists|i: int, j: int| 0 <= i < calls[0].arguments.len() && 1 <= j < calls.len() && calls[0].arguments[i] is Some
        && #[trigger] spec_string_at(calls[j], i) != calls[0].arguments[i]
}

/// Copies `source[start..end]` when that range lies in the source.
fn span_bytes(source: &[u8], start: usize, end: usize) -> (bytes: Option<Vec<u8>>)
    ensures
        match bytes {
            Some(b) => spec_span(source@, start, end) == Some(b@),
            None => spec_span(source@, start, end) is None,
        },
{
    if start <= end && end <= source.len() {
        let mut copy: Vec<u8> = Vec::new();
        copy.extend_from_slice(vstd::slice::slice_subrange(source, start, end));
        assert(copy@ =~= source@.subrange(start as int, end as int));
        Some(copy)
    } else {
        None
    }
}

/// The string-literal kinds of the supported grammars, interpolated forms
/// included.
pub open spec fn spec_string_kinds() -> Seq<Seq<char>> {
    seq![
        "string"@,
        "concatenated_string"@,
        "string_literal"@,
        "verbatim_string_literal"@,
        "interpolated_string_expression"@,
    ]
}

/// The bytes of `node` when it is a string-literal-like node.
pub open spec fn spec_string_literal_bytes(node: SyntaxNode, source: Seq<u8>) -> Option<Seq<u8>> {
    if spec_string_kinds().contains(node.kind@) { spec_span(source, node.start_byte, node.end_byte) } else { None }
}

/// Returns the bytes of `node` when it is a string-literal-like node:
/// Python plain strings and f-strings, C# string literals and interpolated
/// strings, so template differences count as literal variation.
pub fn string_literal_bytes(node: &SyntaxNode, source: &[u8]) -> (bytes: Option<Vec<u8>>)
    ensures
        match bytes {
            Some(b) => spec_string_literal_bytes(*node, source@) == Some(b@),
            None => spec_string_literal_bytes(*node, source@) is None,
        },
{
    let kinds = vec!["string", "concatenated_string", "string_literal", "verbatim_string_literal", "interpolated_string_expression"];
    assert(kinds_view(kinds@) =~= spec_string_kinds());
    if !kind_in(node.kind.as_str(), &kinds) {
        return None;
    }
    span_bytes(source, node.start_byte, node.end_byte)
}

/// A C# `argument` wrapper stripped to its first named child.
pub open spec fn spec_unwrap_argument(node: SyntaxNode) -> SyntaxNode {
    let p = spec_first_named(node.children@, 0);
    if node.kind@ == "argument"@ && 0 <= p < node.children@.len() { node.children@[p] } else { node }
}

/// Strips a C# `argument` wrapper down to its inner expression so the
/// literal checks see the same shapes in every language.
pub fn unwrap_argument(node: &SyntaxNode) -> (inner: &SyntaxNode)
    ensures
        *inner == spec_unwrap_argument(*node),
{
    if same_text(node.kind.as_str(), "argument") {
        let mut index: usize = 0;
        while index < node.children.len()
            invariant
                index <= node.children@.len(),
                spec_first_named(node.children@, 0) == spec_first_named(node.children@, index as int),
                node.kind@ == "argument"@,
            decreases node.children@.len() - index,
        {
            if node.children[index].named {
                return &node.children[index];
            }
            index = index + 1;
        }
    }
    node
}

/// One argument node's summary.
pub open spec fn spec_arg_shape(node: SyntaxNode, source: Seq<u8>) -> Option<Seq<u8>> {
    spec_string_literal_bytes(spec_unwrap_argument(node), source)
}

/// Classifies one argument node.
pub fn arg_shape(node: &SyntaxNode, source: &[u8]) -> (shape: ArgShape)
    ensures
        arg_view(shape) == spec_arg_shape(*node, source@),
{
    match string_literal_bytes(unwrap_argument(node), source) {
        Some(bytes) => ArgShape::StringLiteral(bytes),
        None => ArgShape::Other,
    }
}

/// The argument list of a call: its `arguments` field, else its
/// `argument_list` field.
pub open spec fn spec_argument_list(call: SyntaxNode) -> Option<SyntaxNode> {
    match spec_child_by_field(call, "arguments"@) {
        Some(args) => Some(args),
        None => spec_child_by_field(call, "argument_list"@),
    }
}

/// The summaries of the first `k` named children of an argument list.
pub open spec fn spec_argument_shapes(children: Seq<SyntaxNode>, k: int, source: Seq<u8>) -> Seq<Option<Seq<u8>>>
    decreases k,
{
    if k <= 0 || k > children.len() {
        seq![]
    } else {
        let before = spec_argument_shapes(children, k - 1, source);
        if children[k - 1].named { before.push(spec_arg_shape(children[k - 1], source)) } else { before }
    }
}

/// One summary per argument of `call`; none without an argument list.
pub open spec fn spec_collect_argument_shapes(call: SyntaxNode, source: Seq<u8>) -> Seq<Option<Seq<u8>>> {
    match spec_argument_list(call) {
        Some(args) => spec_argument_shapes(args.children@, args.children@.len() as int, source),
        None => seq![],
    }
}

/// Walks the named children of the call's argument list and produces one
/// summary per argument.
pub fn collect_argument_shapes(call: &SyntaxNode, source: &[u8]) -> (shapes: Vec<ArgShape>)
    ensures
        shapes@.map_values(|argument: ArgShape| arg_view(argument)) == spec_collect_argument_shapes(*call, source@),
{
    let args = match child_by_field_name(call, "arguments") {
        Some(args) => args,
        None => match child_by_field_name(call, "argument_list") {
            Some(args) => args,
            None => {
                let empty: Vec<ArgShape> = Vec::new();
                assert(empty@.map_values(|argument: ArgShape| arg_view(argument)) =~= Seq::<Option<Seq<u8>>>::empty());
                return empty;
            },
        },
    };
    let mut shapes: Vec<ArgShape> = Vec::new();
    let mut index: usize = 0;
    while index < args.children.len()
        invariant
            index <= args.children@.len(),
            shapes@.map_values(|argument: ArgShape| arg_view(argument)) == spec_argument_shapes(args.children@, index as int, source@),
        decreases args.children@.len() - index,
    {
        let child = &args.children[index];
        if child.named {
            let ghost before = shapes@.map_values(|argument: ArgShape| arg_view(argument));
            shapes.push(arg_shape(child, source));
            assert(shapes@.map_values(|argument: ArgShape| arg_view(argument)) =~= before.push(spec_arg_shape(*child, source@)));
        }
        index = index + 1;
    }
    shapes
}

/// The call shape of a call node: its `function` child's text, when it
/// has one that lies in the source, and its arguments.
pub open spec fn spec_call_shape_from_node(call: SyntaxNode, source: Seq<u8>) -> Option<CallShapeView> {
    match spec_child_by_field(call, "function"@) {
        None => None,
        Some(callee) => match spec_span(source, callee.start_byte, callee.end_byte) {
            None => None,
            Some(text) => Some(CallShapeView {
                callee: text,
                arity: spec_collect_argument_shapes(call, source).len() as usize,
                arguments: spec_collect_argument_shapes(call, source),
            }),
        },
    }
}

/// The model of an optional call shape.
pub open spec fn optional_shape(shape: Option<CallShape>) -> Option<CallShapeView> {
    match shape {
        Some(s) => Some(s@),
        None => None,
    }
}

/// Extracts the call shape of a concrete call node.
pub fn call_shape_from_node(call: &SyntaxNode, source: &[u8]) -> (shape: Option<CallShape>)
    ensures
        optional_shape(shape) == spec_call_shape_from_node(*call, source@),
{
    let callee_node = match child_by_field_name(call, "function") {
        Some(node) => node,
        None => return None,
    };
    let callee = match span_bytes(source, callee_node.start_byte, callee_node.end_byte) {
        Some(bytes) => bytes,
        None => return None,
    };
    let arguments = collect_argument_shapes(call, source);
    Some(CallShape { arity: arguments.len(), callee, arguments })
}

/// The call productions of a language's grammar among those the noise
/// filter parses.
pub open spec fn spec_call_kinds(language: Seq<char>) -> Seq<Seq<char>> {
    if language == "python"@ {
        seq!["call"@]
    } else if language == "csharp"@ {
        seq!["invocation_expression"@]
    } else if language == "rust"@ {
        seq!["call_expression"@, "macro_invocation"@]
    } else {
        seq![]
    }
}

/// The node kinds that count as call expressions per language.
pub fn call_kinds(language: &str) -> (kinds: Vec<&'static str>)
    ensures
        kinds_view(kinds@) == spec_call_kinds(language@),
{
    let kinds: Vec<&'static str> = if same_text(language, "python") {
        vec!["call"]
    } else if same_text(language, "csharp") {
        vec!["invocation_expression"]
    } else if same_text(language, "rust") {
        vec!["call_expression", "macro_invocation"]
    } else {
        Vec::new()
    };
    assert(kinds_view(kinds@) =~= spec_call_kinds(language@));
    kinds
}

/// The call shape of the innermost call enclosing the snippet's range in
/// its parsed file.
pub open spec fn spec_call_shape_in(tree: SyntaxNode, snippet: SnippetView) -> Option<CallShapeView> {
    match spec_enclosing_in(tree, snippet.range, spec_call_kinds(snippet.language), None) {
        Some(call) => spec_call_shape_from_node(call, snippet.source),
        None => None,
    }
}

/// The call shape of the innermost call enclosing the snippet's range in
/// `tree`, the snippet's parsed file.
pub fn call_shape_in(tree: &SyntaxNode, snippet: &Snippet) -> (shape: Option<CallShape>)
    ensures
        optional_shape(shape) == spec_call_shape_in(*tree, snippet@),
{
    let kinds = call_kinds(snippet.language);
    match enclosing_kind(tree, snippet.range, &kinds) {
        Some(call) => call_shape_from_node(call, snippet.source),
        None => None,
    }
}

/// The call shape of a member, read from its parsed file.
pub open spec fn spec_call_shape(snippet: SnippetView) -> Option<CallShapeView> {
    match spec_parse_for(snippet.language, snippet.source) {
        Some(tree) => spec_call_shape_in(tree, snippet),
        None => None,
    }
}

/// Extracts the call shape for the call expression covering the snippet's
/// range; `None` when no call is present or the file does not parse.
pub fn call_shape(snippet: &Snippet) -> (shape: Option<CallShape>)
    ensures
        optional_shape(shape) == spec_call_shape(snippet@),
{
    match parse_for(snippet) {
        Some(tree) => call_shape_in(&tree, snippet),
        None => None,
    }
}

/// Every later call's string at `index` against `baseline`: `None` where
/// some later call has no string there, else whether some string differs.
fn column_agreement(calls: &[CallShape], index: usize, baseline: &Vec<u8>) -> (agreement: Option<bool>)
    ensures
        match agreement {
            None => exists|j: int| 1 <= j < calls@.len() && (#[trigger] spec_string_at(shapes_view(calls@)[j], index as int)) is None,
            Some(differs) => (forall|j: int| 1 <= j < calls@.len() ==> (#[trigger] spec_string_at(shapes_view(calls@)[j], index as int)) is Some)
                && differs == exists|j: int| 1 <= j < calls@.len()
                    && #[trigger] spec_string_at(shapes_view(calls@)[j], index as int) != Some(baseline@),
        },
{
    let ghost cv = shapes_view(calls@);
    let mut differs = false;
    let mut j: usize = 1;
    while j < calls.len()
        invariant
            1 <= j,
            j <= calls@.len() || j == 1,
            cv == shapes_view(calls@),
            cv.len() == calls@.len(),
            forall|m: int| 1 <= m < j ==> (#[trigger] spec_string_at(cv[m], index as int)) is Some,
            differs == exists|m: int| 1 <= m < j && #[trigger] spec_string_at(cv[m], index as int) != Some(baseline@),
        decreases calls@.len() - j,
    {
        let call = &calls[j];
        assert(cv[j as int] == call@);
        if index < call.arguments.len() {
            assert(cv[j as int].arguments[index as int] == arg_view(call.arguments@[index as int]));
            match &call.arguments[index] {
                ArgShape::StringLiteral(bytes) => {
                    if !same_bytes(bytes.as_slice(), baseline.as_slice()) {
                        differs = true;
                    }
                },
                ArgShape::Other => {
                    assert(spec_string_at(cv[j as int], index as int) is None);
                    return None;
                },
            }
        } else {
            assert(spec_string_at(cv[j as int], index as int) is None);
            return None;
        }
        j = j + 1;
    }
    Some(differs)
}

/// Returns true when at least one positional argument has differing
/// string-literal bytes across the cluster. Non-string arguments of the
/// first call are ignored; a later call without a string where the first
/// has one makes the calls incomparable.
pub fn has_differing_string_literals(calls: &[CallShape]) -> (differs: bool)
    ensures
        differs == spec_has_differing_string_literals(shapes_view(calls@)),
{
    let ghost cv = shapes_view(calls@);
    if calls.len() == 0 {
        return false;
    }
    let first = &calls[0];
    assert(cv[0] == first@);
    let mut saw_difference = false;
    let mut index: usize = 0;
    while index < first.arguments.len()
        invariant
            index <= first.arguments@.len(),
            cv == shapes_view(calls@),
            cv.len() == calls@.len(),
            cv.len() > 0,
            cv[0] == first@,
            forall|i: int, j: int| 0 <= i < index && 1 <= j < cv.len() && cv[0].arguments[i] is Some
                ==> (#[trigger] spec_string_at(cv[j], i)) is Some,
            saw_difference == exists|i: int, j: int| 0 <= i < index && 1 <= j < cv.len() && cv[0].arguments[i] is Some
                && #[trigger] spec_string_at(cv[j], i) != cv[0].arguments[i],
        decreases first.arguments@.len() - index,
    {
        assert(cv[0].arguments[index as int] == arg_view(first.arguments@[index as int]));
        match &first.arguments[index] {
            ArgShape::StringLiteral(baseline) => {
                match column_agreement(calls, index, baseline) {
                    None => return false,
                    Some(differs) => {
                        if differs {
                            saw_difference = true;
                        }
                    },
                }
            },
            ArgShape::Other => {},
        }
        index = index + 1;
    }
    saw_difference
}

/// The one comparable call per member varies its literals: every member
/// has a call, all with the first one's callee and arity.
pub open spec fn spec_is_literal_variation_call_set(calls: Option<Seq<CallShapeView>>) -> bool {
    match calls {
        None => false,
        Some(calls) => {
            &&& calls.len() > 0
            &&& forall|j: int| 0 <= j < calls.len() ==> (#[trigger] calls[j]).callee == calls[0].callee && calls[j].arity == calls[0].arity
            &&& spec_has_differing_string_literals(calls)
        },
    }
}

/// The models of an optional list of calls.
pub open spec fn optional_shapes(calls: Option<Vec<CallShape>>) -> Option<Seq<CallShapeView>> {
    match calls {
        Some(calls) => Some(shapes_view(calls@)),
        None => None,
    }
}

/// Applies the literal-variation rule to one comparable call per member.
#[verifier::loop_isolation(false)]
pub fn is_literal_variation_call_set(calls: Option<Vec<CallShape>>) -> (scaffolding: bool)
    ensures
        scaffolding == spec_is_literal_variation_call_set(optional_shapes(calls)),
{
    let calls = match calls {
        Some(calls) => calls,
        None => return false,
    };
    let ghost cv = shapes_view(calls@);
    if calls.len() == 0 {
        return false;
    }
    let first = &calls[0];
    assert(cv[0] == first@);
    let mut index: usize = 0;
    while index < calls.len()
        invariant
            index <= calls@.len(),
            forall|j: int| 0 <= j < index ==> (#[trigger] cv[j]).callee == cv[0].callee && cv[j].arity == cv[0].arity,
        decreases calls@.len() - index,
    {
        assert(cv[index as int] == calls@[index as int]@);
        if !same_bytes(calls[index].callee.as_slice(), first.callee.as_slice()) || calls[index].arity != first.arity {
            assert(!(cv[index as int].callee == cv[0].callee && cv[index as int].arity == cv[0].arity));
            return false;
        }
        index = index + 1;
    }
    has_differing_string_literals(calls.as_slice())
}

/// The calls lying wholly inside `range` under `node`, in source order; a
/// subtree that does not touch the range holds none, and calls nested in
/// calls are read too.
pub open spec fn spec_calls_in_range(node: SyntaxNode, range: ByteRange, kinds: Seq<Seq<char>>, source: Seq<u8>) -> Seq<CallShapeView>
    decreases node, 1int,
{
    if node.end_byte < range.start || node.start_byte > range.end {
        seq![]
    } else {
        let here = if node.start_byte >= range.start && node.end_byte <= range.end && kinds.contains(node.kind@) {
            match spec_call_shape_from_node(node, source) {
                Some(shape) => seq![shape],
                None => seq![],
            }
        } else {
            seq![]
        };
        here + spec_calls_in_children(node.children@, node.children@.len() as int, range, kinds, source)
    }
}

/// The calls under the first `k` named children, in order.
pub open spec fn spec_calls_in_children(
    children: Seq<SyntaxNode>,
    k: int,
    range: ByteRange,
    kinds: Seq<Seq<char>>,
    source: Seq<u8>,
) -> Seq<CallShapeView>
    decreases children, k,
{
    if k <= 0 || k > children.len() {
        seq![]
    } else {
        let before = spec_calls_in_children(children, k - 1, range, kinds, source);
        if children[k - 1].named { before + spec_calls_in_range(children[k - 1], range, kinds, source) } else { before }
    }
}

/// Recursively collects the call nodes within `range`.
pub fn collect_call_shapes(node: &SyntaxNode, range: ByteRange, kinds: &Vec<&'static str>, source: &[u8], out: &mut Vec<CallShape>)
    ensures
        shapes_view(final(out)@) == shapes_view(old(out)@) + spec_calls_in_range(*node, range, kinds_view(kinds@), source@),
    decreases *node,
{
    let ghost start = shapes_view(out@);
    if node.end_byte < range.start || node.start_byte > range.end {
        assert(shapes_view(out@) =~= start + Seq::<CallShapeView>::empty());
        return;
    }
    if node.start_byte >= range.start && node.end_byte <= range.end && kind_in(node.kind.as_str(), kinds) {
        match call_shape_from_node(node, source) {
            Some(shape) => {
                out.push(shape);
                assert(shapes_view(out@) =~= start.push(shape@));
            },
            None => {},
        }
    }
    let ghost prefix = shapes_view(out@);
    let mut index: usize = 0;
    while index < node.children.len()
        invariant
            index <= node.children@.len(),
            shapes_view(out@) == prefix + spec_calls_in_children(node.children@, index as int, range, kinds_view(kinds@), source@),
        decreases node.children@.len() - index,
    {
        let child = &node.children[index];
        assert(decreases_to!(*node => node.children@[index as int]));
        if child.named {
            collect_call_shapes(child, range, kinds, source, out);
        }
        assert(shapes_view(out@) =~= prefix + spec_calls_in_children(node.children@, index as int + 1, range, kinds_view(kinds@), source@));
        index = index + 1;
    }
    assert(shapes_view(out@) =~= start + spec_calls_in_range(*node, range, kinds_view(kinds@), source@));
}

/// Every call fully inside the snippet's range in its parsed file, in
/// source order; `None` when the file does not parse.
pub open spec fn spec_call_shapes_in_range(snippet: SnippetView) -> Option<Seq<CallShapeView>> {
    match spec_parse_for(snippet.language, snippet.source) {
        Some(tree) => Some(spec_calls_in_range(tree, snippet.range, spec_call_kinds(snippet.language), snippet.source)),
        None => None,
    }
}

/// Returns every call fully contained in the snippet's range, in source
/// order.
pub fn call_shapes_in_range(snippet: &Snippet) -> (shapes: Option<Vec<CallShape>>)
    ensures
        optional_shapes(shapes) == spec_call_shapes_in_range(snippet@),
{
    let tree = match parse_for(snippet) {
        Some(tree) => tree,
        None => return None,
    };
    let kinds = call_kinds(snippet.language);
    let mut shapes: Vec<CallShape> = Vec::new();
    assert(shapes_view(shapes@) =~= Seq::<CallShapeView>::empty());
    collect_call_shapes(&tree, snippet.range, &kinds, snippet.source, &mut shapes);
    assert(shapes_view(shapes@) =~= spec_calls_in_range(tree, snippet.range, spec_call_kinds(snippet.language@), snippet.source@));
    Some(shapes)
}

/// Two call sequences share one header: position for position, the same
/// callee and arity.
pub open spec fn spec_same_call_headers(calls: Seq<CallShapeView>, expected: Seq<CallShapeView>) -> bool {
    calls.len() == expected.len() && forall|i: int| 0 <= i < calls.len() ==>
        (#[trigger] calls[i]).callee == expected[i].callee && calls[i].arity == expected[i].arity
}

/// Compares call sequence shape, ignoring literal payloads.
pub fn same_call_headers(calls: &[CallShape], expected: &[CallShape]) -> (same: bool)
    ensures
        same == spec_same_call_headers(shapes_view(calls@), shapes_view(expected@)),
{
    let ghost cv = shapes_view(calls@);
    let ghost ev = shapes_view(expected@);
    if calls.len() != expected.len() {
        return false;
    }
    let mut index: usize = 0;
    while index < calls.len()
        invariant
            index <= calls@.len(),
            calls@.len() == expected@.len(),
            cv == shapes_view(calls@),
            ev == shapes_view(expected@),
            forall|i: int| 0 <= i < index ==> (#[trigger] cv[i]).callee == ev[i].callee && cv[i].arity == ev[i].arity,
        decreases calls@.len() - index,
    {
        assert(cv[index as int] == calls@[index as int]@);
        assert(ev[index as int] == expected@[index as int]@);
        if !same_bytes(calls[index].callee.as_slice(), expected[index].callee.as_slice()) || calls[index].arity != expected[index].arity {
            return false;
        }
        index = index + 1;
    }
    true
}

/// The call at `index` of every sequence long enough to have one, in order.
pub open spec fn spec_calls_at(sequences: Seq<Seq<CallShapeView>>, index: int) -> Seq<CallShapeView>
    decreases sequences.len(),
{
    if sequences.len() == 0 {
        seq![]
    } else {
        let before = spec_calls_at(sequences.drop_last(), index);
        if 0 <= index < sequences.last().len() { before.push(sequences.last()[index]) } else { before }
    }
}

/// Whether position `index` has intentional literal variation across all
/// call sequences.
pub open spec fn spec_sequence_position_differs(sequences: Seq<Seq<CallShapeView>>, index: int) -> bool {
    spec_calls_at(sequences, index).len() == sequences.len()
        && spec_has_differing_string_literals(spec_calls_at(sequences, index))
}

/// The models of a list of call sequences.
pub open spec fn sequences_view(sequences: Seq<Vec<CallShape>>) -> Seq<Seq<CallShapeView>> {
    sequences.map_values(|sequence: Vec<CallShape>| shapes_view(sequence@))
}

/// A copy of one argument summary.
fn copy_arg(argument: &ArgShape) -> (copy: ArgShape)
    ensures
        arg_view(copy) == arg_view(*argument),
{
    match argument {
        ArgShape::StringLiteral(bytes) => {
            let mut owned: Vec<u8> = Vec::new();
            owned.extend_from_slice(bytes.as_slice());
            assert(owned@ =~= bytes@);
            ArgShape::StringLiteral(owned)
        },
        ArgShape::Other => ArgShape::Other,
    }
}

/// A copy of one call shape.
pub fn copy_shape(call: &CallShape) -> (copy: CallShape)
    ensures
        copy@ == call@,
{
    let mut callee: Vec<u8> = Vec::new();
    callee.extend_from_slice(call.callee.as_slice());
    let mut arguments: Vec<ArgShape> = Vec::new();
    let mut index: usize = 0;
    while index < call.arguments.len()
        invariant
            index <= call.arguments@.len(),
            arguments@.len() == index,
            forall|j: int| 0 <= j < index ==> arg_view(#[trigger] arguments@[j]) == arg_view(call.arguments@[j]),
        decreases call.arguments@.len() - index,
    {
        arguments.push(copy_arg(&call.arguments[index]));
        index = index + 1;
    }
    let copy = CallShape { callee, arity: call.arity, arguments };
    assert(copy@.callee =~= call@.callee);
    assert(copy@.arguments =~= call@.arguments);
    copy
}

/// Returns true when `index` has intentional literal variation across all
/// call sequences.
pub fn sequence_position_differs(sequences: &[Vec<CallShape>], index: usize) -> (differs: bool)
    ensures
        differs == spec_sequence_position_differs(sequences_view(sequences@), index as int),
{
    let ghost sv = sequences_view(sequences@);
    let mut calls: Vec<CallShape> = Vec::new();
    let mut k: usize = 0;
    while k < sequences.len()
        invariant
            k <= sequences@.len(),
            sv == sequences_view(sequences@),
            shapes_view(calls@) == spec_calls_at(sv.take(k as int), index as int),
        decreases sequences@.len() - k,
    {
        let sequence = &sequences[k];
        assert(sv.take(k as int + 1).drop_last() =~= sv.take(k as int));
        assert(sv[k as int] == shapes_view(sequence@));
        if index < sequence.len() {
            let ghost before = shapes_view(calls@);
            calls.push(copy_shape(&sequence[index]));
            assert(shapes_view(calls@) =~= before.push(sequence@[index as int]@));
        }
        k = k + 1;
    }
    assert(sv.take(sequences@.len() as int) =~= sv);
    assert(sv.len() == sequences@.len());
    calls.len() == sequences.len() && has_differing_string_literals(calls.as_slice())
}

/// Body-range members whose contained call sequences have the same callees
/// and intentionally different literal data: every member's file parses,
/// the first member's sequence is not empty, every sequence has its
/// header, and some position differs.
pub open spec fn spec_is_literal_variation_call_sequence(snippets: Seq<SnippetView>) -> bool {
    let sequences = snippets.map_values(|snippet: SnippetView| spec_call_shapes_in_range(snippet).unwrap());
    &&& snippets.len() > 0
    &&& forall|k: int| 0 <= k < snippets.len() ==> (#[trigger] spec_call_shapes_in_range(snippets[k])) is Some
    &&& sequences[0].len() > 0
    &&& forall|k: int| 0 <= k < snippets.len() ==> spec_same_call_headers(#[trigger] sequences[k], sequences[0])
    &&& exists|index: int| 0 <= index < sequences[0].len() && #[trigger] spec_sequence_position_differs(sequences, index)
}

/// Detects body-range clusters whose contained call sequence has the same
/// callees but intentionally different literal test data.
#[verifier::loop_isolation(false)]
pub fn is_literal_variation_call_sequence(snippets: &[Snippet]) -> (scaffolding: bool)
    ensures
        scaffolding == spec_is_literal_variation_call_sequence(snippets_view(snippets@)),
{
    let ghost views = snippets_view(snippets@);
    let ghost target = views.map_values(|snippet: SnippetView| spec_call_shapes_in_range(snippet).unwrap());
    let mut sequences: Vec<Vec<CallShape>> = Vec::new();
    let mut k: usize = 0;
    while k < snippets.len()
        invariant
            k <= snippets@.len(),
            views == snippets_view(snippets@),
            views.len() == snippets@.len(),
            target == views.map_values(|snippet: SnippetView| spec_call_shapes_in_range(snippet).unwrap()),
            forall|m: int| 0 <= m < k ==> (#[trigger] spec_call_shapes_in_range(views[m])) is Some,
            sequences_view(sequences@) == target.take(k as int),
        decreases snippets@.len() - k,
    {
        assert(views[k as int] == snippets@[k as int]@);
        match call_shapes_in_range(&snippets[k]) {
            Some(shapes) => {
                assert(target[k as int] == shapes_view(shapes@));
                sequences.push(shapes);
                assert(sequences_view(sequences@) =~= target.take(k as int + 1));
            },
            None => {
                assert(spec_call_shapes_in_range(views[k as int]) is None);
                return false;
            },
        }
        k = k + 1;
    }
    assert(target.take(snippets@.len() as int) =~= target);
    if sequences.len() == 0 {
        return false;
    }
    let ghost sv = sequences_view(sequences@);
    assert(sv[0] == shapes_view(sequences@[0]@));
    if sequences[0].len() == 0 {
        return false;
    }
    let mut k: usize = 0;
    while k < sequences.len()
        invariant
            k <= sequences@.len(),
            sv == sequences_view(sequences@),
            sv == target,
            sv.len() == sequences@.len(),
            forall|m: int| 0 <= m < k ==> spec_same_call_headers(#[trigger] sv[m], sv[0]),
        decreases sequences@.len() - k,
    {
        assert(sv[k as int] == shapes_view(sequences@[k as int]@));
        assert(sv[0] == shapes_view(sequences@[0]@));
        if !same_call_headers(sequences[k].as_slice(), sequences[0].as_slice()) {
            return false;
        }
        k = k + 1;
    }
    let count = sequences[0].len();
    let mut index: usize = 0;
    while index < count
        invariant
            index <= count,
            sv == sequences_view(sequences@),
            sv.len() > 0,
            count == sv[0].len(),
            forall|i: int| 0 <= i < index ==> !(#[trigger] spec_sequence_position_differs(sv, i)),
        decreases count - index,
    {
        if sequence_position_differs(sequences.as_slice(), index) {
            return true;
        }
        index = index + 1;
    }
    false
}

/// The literal-variation rule over a cluster: the one comparable call per
/// member varies its literals, or the members' call sequences do.
pub open spec fn spec_is_literal_variation_call_cluster(snippets: Seq<SnippetView>) -> bool {
    let calls = if forall|k: int| 0 <= k < snippets.len() ==> (#[trigger] spec_call_shape(snippets[k])) is Some {
        Some(snippets.map_values(|snippet: SnippetView| spec_call_shape(snippet).unwrap()))
    } else {
        None
    };
    spec_is_literal_variation_call_set(calls) || spec_is_literal_variation_call_sequence(snippets)
}

/// The one comparable call of every member; `None` where some member has
/// none.
fn member_calls(snippets: &[Snippet]) -> (calls: Option<Vec<CallShape>>)
    ensures
        match calls {
            Some(found) => (forall|k: int| 0 <= k < snippets@.len() ==> (#[trigger] spec_call_shape(snippets_view(snippets@)[k])) is Some)
                && shapes_view(found@) == snippets_view(snippets@).map_values(|snippet: SnippetView| spec_call_shape(snippet).unwrap()),
            None => !forall|k: int| 0 <= k < snippets@.len() ==> (#[trigger] spec_call_shape(snippets_view(snippets@)[k])) is Some,
        },
{
    let ghost views = snippets_view(snippets@);
    let ghost target = views.map_values(|snippet: SnippetView| spec_call_shape(snippet).unwrap());
    let mut calls: Vec<CallShape> = Vec::new();
    let mut k: usize = 0;
    while k < snippets.len()
        invariant
            k <= snippets@.len(),
            views == snippets_view(snippets@),
            views.len() == snippets@.len(),
            target == views.map_values(|snippet: SnippetView| spec_call_shape(snippet).unwrap()),
            forall|m: int| 0 <= m < k ==> (#[trigger] spec_call_shape(views[m])) is Some,
            shapes_view(calls@) == target.take(k as int),
        decreases snippets@.len() - k,
    {
        assert(views[k as int] == snippets@[k as int]@);
        match call_shape(&snippets[k]) {
            Some(shape) => {
                assert(target[k as int] == shape@);
                let ghost before = shapes_view(calls@);
                calls.push(shape);
                assert(shapes_view(calls@) =~= before.push(target[k as int]));
                assert(shapes_view(calls@) =~= target.take(k as int + 1));
            },
            None => {
                assert(spec_call_shape(views[k as int]) is None);
                return None;
            },
        }
        k = k + 1;
    }
    assert(target.take(snippets@.len() as int) =~= target);
    Some(calls)
}

/// Detects calls whose members share a callee chain and vary at least one
/// string literal argument: test data and scaffolding, where extraction
/// would erase intentional variation.
pub fn is_literal_variation_call_cluster(snippets: &[Snippet]) -> (scaffolding: bool)
    ensures
        scaffolding == spec_is_literal_variation_call_cluster(snippets_view(snippets@)),
{
    let calls = member_calls(snippets);
    if is_literal_variation_call_set(calls) {
        return true;
    }
    is_literal_variation_call_sequence(snippets)
}

/// Whether a Python function definition declares the `monkeypatch`
/// fixture parameter.
pub open spec fn spec_function_has_parameter(function: SyntaxNode, source: Seq<u8>) -> bool {
    match spec_child_by_field(function, "parameters"@) {
        Some(parameters) => spec_contains_identifier(parameters, source, "monkeypatch"@.map_values(|c: char| c as u8)),
        None => false,
    }
}

/// Checks a Python function definition for a `monkeypatch` parameter.
pub fn function_has_parameter(function: &SyntaxNode, source: &[u8]) -> (declared: bool)
    ensures
        declared == spec_function_has_parameter(*function, source@),
{
    let parameters = match child_by_field_name(function, "parameters") {
        Some(parameters) => parameters,
        None => return false,
    };
    let needle: [u8; 11] = [109, 111, 110, 107, 101, 121, 112, 97, 116, 99, 104];
    proof {
        reveal_strlit("monkeypatch");
        assert(needle@ =~= "monkeypatch"@.map_values(|c: char| c as u8));
    }
    node_contains_identifier(parameters, source, &needle)
}

/// A string literal inside a function that declares `monkeypatch`, in the
/// snippet's parsed file.
pub open spec fn spec_monkeypatch_literal_in(tree: SyntaxNode, snippet: SnippetView) -> bool {
    &&& spec_enclosing_in(tree, snippet.range, seq!["string"@], None) is Some
    &&& match spec_enclosing_in(tree, snippet.range, seq!["function_definition"@], None) {
        Some(function) => spec_function_has_parameter(function, snippet.source),
        None => false,
    }
}

/// Whether the snippet is a string literal inside a pytest function that
/// declares the `monkeypatch` fixture parameter.
pub open spec fn spec_is_monkeypatch_literal(snippet: SnippetView) -> bool {
    snippet.language == "python"@ && match spec_parse_for(snippet.language, snippet.source) {
        Some(tree) => spec_monkeypatch_literal_in(tree, snippet),
        None => false,
    }
}

/// Whether the snippet is a monkeypatch scaffolding literal in `tree`, its
/// parsed file.
pub fn monkeypatch_literal_in(tree: &SyntaxNode, snippet: &Snippet) -> (scaffolding: bool)
    ensures
        scaffolding == spec_monkeypatch_literal_in(*tree, snippet@),
{
    let strings = vec!["string"];
    let functions = vec!["function_definition"];
    assert(kinds_view(strings@) =~= seq!["string"@]);
    assert(kinds_view(functions@) =~= seq!["function_definition"@]);
    let is_string = enclosing_kind(tree, snippet.range, &strings).is_some();
    match enclosing_kind(tree, snippet.range, &functions) {
        Some(function) => is_string && function_has_parameter(function, snippet.source),
        None => false,
    }
}

/// Returns true for a string literal inside a Python function that
/// declares the `monkeypatch` fixture parameter.
pub fn is_monkeypatch_scaffolding_literal(snippet: &Snippet) -> (scaffolding: bool)
    ensures
        scaffolding == spec_is_monkeypatch_literal(snippet@),
{
    if !same_text(snippet.language, "python") {
        return false;
    }
    match parse_for(snippet) {
        Some(tree) => monkeypatch_literal_in(&tree, snippet),
        None => false,
    }
}

/// Every member is monkeypatch scaffolding.
pub open spec fn spec_is_monkeypatch_cluster(snippets: Seq<SnippetView>) -> bool {
    forall|k: int| 0 <= k < snippets.len() ==> spec_is_monkeypatch_literal(#[trigger] snippets[k])
}

/// Suppresses tiny string literal clusters inside pytest monkeypatch setup
/// tests: the literals differ because they are environment keys and values.
pub fn is_monkeypatch_scaffolding_literal_cluster(snippets: &[Snippet]) -> (scaffolding: bool)
    ensures
        scaffolding == spec_is_monkeypatch_cluster(snippets_view(snippets@)),
{
    let ghost views = snippets_view(snippets@);
    let mut k: usize = 0;
    while k < snippets.len()
        invariant
            k <= snippets@.len(),
            views == snippets_view(snippets@),
            views.len() == snippets@.len(),
            forall|m: int| 0 <= m < k ==> spec_is_monkeypatch_literal(#[trigger] views[m]),
        decreases snippets@.len() - k,
    {
        assert(views[k as int] == snippets@[k as int]@);
        if !is_monkeypatch_scaffolding_literal(&snippets[k]) {
            return false;
        }
        k = k + 1;
    }
    true
}

/// The bytes of field `field` of the function enclosing the snippet's
/// range in `tree`, the snippet's parsed file.
pub open spec fn spec_enclosing_function_field_in(tree: SyntaxNode, snippet: SnippetView, field: Seq<char>) -> Option<Seq<u8>> {
    match spec_enclosing_in(tree, snippet.range, spec_function_kinds(snippet.language), None) {
        None => None,
        Some(function) => match spec_child_by_field(function, field) {
            None => None,
            Some(part) => spec_span(snippet.source, part.start_byte, part.end_byte),
        },
    }
}

/// The bytes of field `field` of the function enclosing the snippet's
/// range, read from its parsed file.
pub open spec fn spec_enclosing_function_field(snippet: SnippetView, field: Seq<char>) -> Option<Seq<u8>> {
    match spec_parse_for(snippet.language, snippet.source) {
        Some(tree) => spec_enclosing_function_field_in(tree, snippet, field),
        None => None,
    }
}

/// The bytes of field `field` of the function enclosing the snippet's
/// range in `tree`.
pub fn enclosing_function_field_in(tree: &SyntaxNode, snippet: &Snippet, field: &str) -> (bytes: Option<Vec<u8>>)
    ensures
        match bytes {
            Some(b) => spec_enclosing_function_field_in(*tree, snippet@, field@) == Some(b@),
            None => spec_enclosing_function_field_in(*tree, snippet@, field@) is None,
        },
{
    let kinds = function_kinds(snippet.language);
    let function = match enclosing_kind(tree, snippet.range, &kinds) {
        Some(function) => function,
        None => return None,
    };
    match child_by_field_name(function, field) {
        Some(part) => span_bytes(snippet.source, part.start_byte, part.end_byte),
        None => None,
    }
}

/// The bytes of field `field` of the function containing the snippet's
/// range, when one exists.
pub fn enclosing_function_field(snippet: &Snippet, field: &str) -> (bytes: Option<Vec<u8>>)
    ensures
        match bytes {
            Some(b) => spec_enclosing_function_field(snippet@, field@) == Some(b@),
            None => spec_enclosing_function_field(snippet@, field@) is None,
        },
{
    match parse_for(snippet) {
        Some(tree) => enclosing_function_field_in(&tree, snippet, field),
        None => None,
    }
}

/// Returns the name of the function (or C# method) that contains the
/// snippet's range, when one exists.
pub fn enclosing_function_name(snippet: &Snippet) -> (name: Option<Vec<u8>>)
    ensures
        match name {
            Some(n) => spec_enclosing_function_field(snippet@, "name"@) == Some(n@),
            None => spec_enclosing_function_field(snippet@, "name"@) is None,
        },
{
    enclosing_function_field(snippet, "name")
}

/// Every member's enclosing function has a body and some body differs
/// from the first member's.
pub open spec fn spec_enclosing_function_bodies_differ(snippets: Seq<SnippetView>) -> bool {
    &&& snippets.len() > 0
    &&& forall|k: int| 0 <= k < snippets.len() ==> (#[trigger] spec_enclosing_function_field(snippets[k], "body"@)) is Some
    &&& exists|k: int| 0 <= k < snippets.len()
        && #[trigger] spec_enclosing_function_field(snippets[k], "body"@) != spec_enclosing_function_field(snippets[0], "body"@)
}

/// Returns true when at least two members' enclosing function bodies differ
/// in raw source bytes: different implementations of one signature, not
/// duplicated helpers that share a name.
#[verifier::loop_isolation(false)]
pub fn enclosing_function_bodies_differ(snippets: &[Snippet]) -> (differ: bool)
    ensures
        differ == spec_enclosing_function_bodies_differ(snippets_view(snippets@)),
{
    let ghost views = snippets_view(snippets@);
    if snippets.len() == 0 {
        return false;
    }
    assert(views[0] == snippets@[0]@);
    let first = match enclosing_function_field(&snippets[0], "body") {
        Some(first) => first,
        None => return false,
    };
    let mut differs = false;
    let mut k: usize = 0;
    while k < snippets.len()
        invariant
            k <= snippets@.len(),
            views.len() == snippets@.len(),
            forall|m: int| 0 <= m < k ==> (#[trigger] spec_enclosing_function_field(views[m], "body"@)) is Some,
            differs == exists|m: int| 0 <= m < k
                && #[trigger] spec_enclosing_function_field(views[m], "body"@) != Some(first@),
        decreases snippets@.len() - k,
    {
        assert(views[k as int] == snippets@[k as int]@);
        match enclosing_function_field(&snippets[k], "body") {
            Some(body) => {
                if !same_bytes(body.as_slice(), first.as_slice()) {
                    differs = true;
                }
            },
            None => return false,
        }
        k = k + 1;
    }
    differs
}

/// Every member resolves to an enclosing function with a name, all names
/// are the first one's, the members span two files, and the bodies differ.
pub open spec fn spec_is_polymorphic_signature_cluster(snippets: Seq<SnippetView>) -> bool {
    &&& snippets.len() > 0
    &&& forall|k: int| 0 <= k < snippets.len() ==> (#[trigger] spec_enclosing_function_field(snippets[k], "name"@)) is Some
    &&& forall|k: int| 0 <= k < snippets.len()
        ==> #[trigger] spec_enclosing_function_field(snippets[k], "name"@) == spec_enclosing_function_field(snippets[0], "name"@)
    &&& spec_spans_files(snippets.map_values(|snippet: SnippetView| snippet.file_id))
    &&& spec_enclosing_function_bodies_differ(snippets)
}

/// Every cluster member is a function definition whose declared name is
/// the same identifier and the members span at least two distinct files:
/// the abstract/interface implementation pattern, where the contract
/// forces identity. The enclosing bodies must also differ, so a genuine
/// copy-pasted helper that shares a name still surfaces.
#[verifier::loop_isolation(false)]
pub fn is_polymorphic_signature_cluster(snippets: &[Snippet]) -> (polymorphic: bool)
    ensures
        polymorphic == spec_is_polymorphic_signature_cluster(snippets_view(snippets@)),
{
    let ghost views = snippets_view(snippets@);
    if snippets.len() == 0 {
        return false;
    }
    assert(views[0] == snippets@[0]@);
    let first = match enclosing_function_name(&snippets[0]) {
        Some(first) => first,
        None => return false,
    };
    let mut files: Vec<FileId> = Vec::new();
    let mut k: usize = 0;
    while k < snippets.len()
        invariant
            k <= snippets@.len(),
            views.len() == snippets@.len(),
            forall|m: int| 0 <= m < k ==> (#[trigger] spec_enclosing_function_field(views[m], "name"@)) == Some(first@),
            files@ == views.map_values(|snippet: SnippetView| snippet.file_id).take(k as int),
        decreases snippets@.len() - k,
    {
        assert(views[k as int] == snippets@[k as int]@);
        match enclosing_function_name(&snippets[k]) {
            Some(name) => {
                if !same_bytes(name.as_slice(), first.as_slice()) {
                    return false;
                }
            },
            None => return false,
        }
        files.push(snippets[k].file_id);
        assert(files@ =~= views.map_values(|snippet: SnippetView| snippet.file_id).take(k as int + 1));
        k = k + 1;
    }
    assert(files@ =~= views.map_values(|snippet: SnippetView| snippet.file_id));
    if !spans_multiple_files(files.as_slice()) {
        return false;
    }
    enclosing_function_bodies_differ(snippets)
}

} // verus!
