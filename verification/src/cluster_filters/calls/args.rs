//! What one argument of a call carries: a string literal, a pure literal
//! collection holding text, or the keyword it is passed under.

use vstd::prelude::*;

use crate::cluster_filters::constant_table::{is_literal_value, spec_is_literal_value};
use crate::cluster_filters::forwarding::delegation::{named_nodes, spec_named_nodes};
use super::callee::{canonical_callee, spec_canonical_callee};
use super::statements::{holds_statement, spec_holds_statement};
use super::{arguments_view, call_kinds, callee_view, keywords_view, spec_call_kinds, ArgShape, ArgShapeView};
use crate::cluster_filters::node_search::{node_contains_kind, nodes_view, spec_contains_kind, spec_span};
use crate::cluster_filters::override_marker::{child_by_field_name, spec_child_by_field};
use crate::cluster_filters::{kind_in, kinds_view, SyntaxNode};
use crate::text::same_text;

verus! {

/// Node kinds that spell a string literal in one of the supported
/// grammars, the interpolated forms included: their template text is
/// itself the varying payload.
pub open spec fn spec_is_string_kind(kind: Seq<char>) -> bool {
    ||| kind == "string"@
    ||| kind == "concatenated_string"@
    ||| kind == "string_literal"@
    ||| kind == "raw_string_literal"@
    ||| kind == "verbatim_string_literal"@
    ||| kind == "interpolated_string_expression"@
    ||| kind == "template_string"@
}

/// Whether a node kind spells a string literal.
pub fn is_string_kind(kind: &str) -> (string: bool)
    ensures
        string == spec_is_string_kind(kind@),
{
    same_text(kind, "string") || same_text(kind, "concatenated_string") || same_text(kind, "string_literal")
        || same_text(kind, "raw_string_literal") || same_text(kind, "verbatim_string_literal")
        || same_text(kind, "interpolated_string_expression") || same_text(kind, "template_string")
}

/// The bytes of a node, when it lies in the source.
fn node_bytes(node: &SyntaxNode, source: &[u8]) -> (bytes: Option<Vec<u8>>)
    ensures
        match bytes {
            Some(b) => spec_span(source@, node.start_byte, node.end_byte) == Some(b@),
            None => spec_span(source@, node.start_byte, node.end_byte) is None,
        },
{
    if node.start_byte <= node.end_byte && node.end_byte <= source.len() {
        Some(vstd::slice::slice_to_vec(vstd::slice::slice_subrange(source, node.start_byte, node.end_byte)))
    } else {
        None
    }
}

/// The bytes of a string-literal node.
pub open spec fn spec_string_literal_bytes(node: SyntaxNode, source: Seq<u8>) -> Option<Seq<u8>> {
    if spec_is_string_kind(node.kind@) { spec_span(source, node.start_byte, node.end_byte) } else { None }
}

/// Returns the bytes of `node` when it is a string-literal-like leaf:
/// Python's plain string and f-string, C#'s string literal and
/// interpolated string, so template differences count as literal
/// variation.
pub fn string_literal_bytes(node: &SyntaxNode, source: &[u8]) -> (bytes: Option<Vec<u8>>)
    ensures
        match bytes {
            Some(b) => spec_string_literal_bytes(*node, source@) == Some(b@),
            None => spec_string_literal_bytes(*node, source@) is None,
        },
{
    if !is_string_kind(node.kind.as_str()) {
        return None;
    }
    node_bytes(node, source)
}

/// Whether the subtree holds a string-literal node reached through named
/// nodes.
pub open spec fn spec_carries_string_leaf(node: SyntaxNode) -> bool
    decreases node, 1int,
{
    spec_is_string_kind(node.kind@) || spec_children_carry_string(node.children@, node.children@.len() as int)
}

/// Whether one of the first `k` named children carries a string leaf.
pub open spec fn spec_children_carry_string(children: Seq<SyntaxNode>, k: int) -> bool
    decreases children, k,
{
    if k <= 0 || k > children.len() {
        false
    } else {
        spec_children_carry_string(children, k - 1) || (children[k - 1].named && spec_carries_string_leaf(children[k - 1]))
    }
}

proof fn lemma_string_found(children: Seq<SyntaxNode>, k: int, n: int)
    requires
        0 <= k <= n <= children.len(),
        spec_children_carry_string(children, k),
    ensures
        spec_children_carry_string(children, n),
    decreases n - k,
{
    if k < n {
        lemma_string_found(children, k, n - 1);
    }
}

/// True when the subtree holds at least one string-literal leaf.
pub fn carries_string_leaf(node: &SyntaxNode) -> (carries: bool)
    ensures
        carries == spec_carries_string_leaf(*node),
    decreases *node,
{
    if is_string_kind(node.kind.as_str()) {
        return true;
    }
    let mut index: usize = 0;
    while index < node.children.len()
        invariant
            index <= node.children@.len(),
            !spec_is_string_kind(node.kind@),
            !spec_children_carry_string(node.children@, index as int),
        decreases node.children@.len() - index,
    {
        let child = &node.children[index];
        assert(decreases_to!(*node => node.children@[index as int]));
        if child.named && carries_string_leaf(child) {
            proof {
                lemma_string_found(node.children@, index as int + 1, node.children@.len() as int);
            }
            return true;
        }
        index = index + 1;
    }
    false
}

/// Node kinds of a literal collection across the grammars.
pub open spec fn spec_is_collection_kind(kind: Seq<char>) -> bool {
    ||| kind == "list"@
    ||| kind == "tuple"@
    ||| kind == "set"@
    ||| kind == "dictionary"@
    ||| kind == "array"@
    ||| kind == "object"@
    ||| kind == "array_expression"@
    ||| kind == "tuple_expression"@
}

fn is_collection_kind(kind: &str) -> (collection: bool)
    ensures
        collection == spec_is_collection_kind(kind@),
{
    same_text(kind, "list") || same_text(kind, "tuple") || same_text(kind, "set") || same_text(kind, "dictionary")
        || same_text(kind, "array") || same_text(kind, "object") || same_text(kind, "array_expression")
        || same_text(kind, "tuple_expression")
}

/// The bytes of an argument that is a pure literal collection carrying
/// text: a collection, every element a literal value, and at least one
/// string among them.
pub open spec fn spec_literal_collection_bytes(node: SyntaxNode, source: Seq<u8>, language: Seq<char>) -> Option<Seq<u8>> {
    if spec_is_collection_kind(node.kind@) && spec_is_literal_value(language, node) && spec_carries_string_leaf(node) {
        spec_span(source, node.start_byte, node.end_byte)
    } else {
        None
    }
}

/// Raw bytes of an argument that is a pure literal collection carrying
/// text: test data passed inline, exactly like a bare string literal. A
/// bare number is how a real clone spells the one parameter it should
/// have been given, so a payload qualifies only as a collection holding a
/// string; an element that is a call or a name disqualifies it.
pub fn literal_collection_bytes(node: &SyntaxNode, source: &[u8], language: &str) -> (bytes: Option<Vec<u8>>)
    ensures
        match bytes {
            Some(b) => spec_literal_collection_bytes(*node, source@, language@) == Some(b@),
            None => spec_literal_collection_bytes(*node, source@, language@) is None,
        },
{
    if !is_collection_kind(node.kind.as_str()) || !is_literal_value(language, node) || !carries_string_leaf(node) {
        return None;
    }
    node_bytes(node, source)
}

/// The expression an argument passes: a C# `argument` wrapper's first
/// named child, a keyword argument's value, or the node itself. The
/// keyword's name never travels with the value.
pub open spec fn spec_unwrap_argument(node: SyntaxNode) -> SyntaxNode {
    let named = spec_named_nodes(node.children@);
    if node.kind@ == "argument"@ && named.len() > 0 {
        named[0]
    } else if node.kind@ == "keyword_argument"@ && spec_child_by_field(node, "value"@) is Some {
        spec_child_by_field(node, "value"@).unwrap()
    } else {
        node
    }
}

/// Strips an argument wrapper down to the expression it passes.
pub fn unwrap_argument(node: &SyntaxNode) -> (inner: &SyntaxNode)
    ensures
        *inner == spec_unwrap_argument(*node),
{
    if same_text(node.kind.as_str(), "argument") {
        let named = named_nodes(node);
        if named.len() > 0 {
            assert(nodes_view(named@)[0] == *named[0]);
            return named[0];
        }
    }
    if same_text(node.kind.as_str(), "keyword_argument") {
        match child_by_field_name(node, "value") {
            Some(value) => return value,
            None => {},
        }
    }
    node
}

/// The keyword an argument is passed under.
pub open spec fn spec_keyword_name(node: SyntaxNode, source: Seq<u8>) -> Option<Seq<u8>> {
    if node.kind@ != "keyword_argument"@ {
        None
    } else {
        match spec_child_by_field(node, "name"@) {
            Some(name) => spec_span(source, name.start_byte, name.end_byte),
            None => None,
        }
    }
}

/// The keyword an argument is passed under, when it is passed by keyword
/// at all: part of the call's header, never of its payload, so two calls
/// naming different parameters are two different call shapes.
pub fn keyword_name(node: &SyntaxNode, source: &[u8]) -> (name: Option<Vec<u8>>)
    ensures
        match name {
            Some(n) => spec_keyword_name(*node, source@) == Some(n@),
            None => spec_keyword_name(*node, source@) is None,
        },
{
    if !same_text(node.kind.as_str(), "keyword_argument") {
        return None;
    }
    match child_by_field_name(node, "name") {
        Some(name) => node_bytes(name, source),
        None => None,
    }
}

/// Whether a literal embeds an interpolation: an f-string's
/// interpolation, a template substitution.
pub open spec fn spec_interpolates(node: SyntaxNode) -> bool {
    spec_contains_kind(node, "interpolation"@) || spec_contains_kind(node, "template_substitution"@)
}

/// Whether a literal embeds an interpolation, the authored-code signal of a
/// copy-pasted pair.
pub fn interpolates(node: &SyntaxNode) -> (interpolated: bool)
    ensures
        interpolated == spec_interpolates(*node),
{
    node_contains_kind(node, "interpolation") || node_contains_kind(node, "template_substitution")
}

/// The payload bytes of an argument expression: a string literal, else a
/// pure literal collection carrying text.
pub open spec fn spec_payload_bytes(node: SyntaxNode, source: Seq<u8>, language: Seq<char>) -> Option<Seq<u8>> {
    match spec_string_literal_bytes(node, source) {
        Some(bytes) => Some(bytes),
        None => spec_literal_collection_bytes(node, source, language),
    }
}

/// The payload bytes of an argument expression, if it is payload.
pub fn payload_bytes(node: &SyntaxNode, source: &[u8], language: &str) -> (bytes: Option<Vec<u8>>)
    ensures
        match bytes {
            Some(b) => spec_payload_bytes(*node, source@, language@) == Some(b@),
            None => spec_payload_bytes(*node, source@, language@) is None,
        },
{
    match string_literal_bytes(node, source) {
        Some(bytes) => Some(bytes),
        None => literal_collection_bytes(node, source, language),
    }
}

/// The argument list of a call: its `arguments` field, else its
/// `argument_list` field.
pub open spec fn spec_argument_list(call: SyntaxNode) -> Option<SyntaxNode> {
    match spec_child_by_field(call, "arguments"@) {
        Some(args) => Some(args),
        None => spec_child_by_field(call, "argument_list"@),
    }
}

/// The argument list of a call.
pub fn argument_list(call: &SyntaxNode) -> (args: Option<&SyntaxNode>)
    ensures
        crate::cluster_filters::node_search::deref_node(args) == spec_argument_list(*call),
{
    match child_by_field_name(call, "arguments") {
        Some(args) => Some(args),
        None => child_by_field_name(call, "argument_list"),
    }
}

/// Whether every argument passes payload.
pub open spec fn spec_all_payload(arguments: Seq<SyntaxNode>, source: Seq<u8>, language: Seq<char>) -> bool {
    forall|i: int| 0 <= i < arguments.len() ==> (#[trigger] spec_payload_bytes(spec_unwrap_argument(arguments[i]), source, language)) is Some
}

/// A call wrapping only literal payload, `PathBuf::from("x")`: a call of
/// the language whose arguments, at least one, all pass payload; its
/// callee node and the bytes of its argument list.
pub open spec fn spec_literal_wrapper(node: SyntaxNode, source: Seq<u8>, language: Seq<char>) -> Option<(SyntaxNode, Seq<u8>)> {
    if !spec_call_kinds(language).contains(node.kind@) {
        None
    } else {
        match spec_child_by_field(node, "function"@) {
            None => None,
            Some(function) => match spec_argument_list(node) {
                None => None,
                Some(args) => {
                    let arguments = spec_named_nodes(args.children@);
                    if arguments.len() > 0 && spec_all_payload(arguments, source, language) {
                        match spec_span(source, args.start_byte, args.end_byte) {
                            Some(bytes) => Some((function, bytes)),
                            None => None,
                        }
                    } else {
                        None
                    }
                },
            },
        }
    }
}

/// Reads a call wrapping only literal payload: its callee node and the
/// bytes of its argument list.
pub fn literal_wrapper<'a>(node: &'a SyntaxNode, source: &[u8], language: &str) -> (wrapper: Option<(&'a SyntaxNode, Vec<u8>)>)
    ensures
        match wrapper {
            Some((function, bytes)) => spec_literal_wrapper(*node, source@, language@) == Some((*function, bytes@)),
            None => spec_literal_wrapper(*node, source@, language@) is None,
        },
{
    let kinds = call_kinds(language);
    if !kind_in(node.kind.as_str(), &kinds) {
        return None;
    }
    let function = match child_by_field_name(node, "function") {
        Some(function) => function,
        None => return None,
    };
    let args = match argument_list(node) {
        Some(args) => args,
        None => return None,
    };
    let arguments = named_nodes(args);
    let ghost av = nodes_view(arguments@);
    if arguments.len() == 0 {
        return None;
    }
    let mut index: usize = 0;
    while index < arguments.len()
        invariant
            index <= arguments@.len(),
            av == nodes_view(arguments@),
            av == spec_named_nodes(args.children@),
            av.len() > 0,
            spec_argument_list(*node) == Some(*args),
            spec_child_by_field(*node, "function"@) == Some(*function),
            spec_call_kinds(language@).contains(node.kind@),
            forall|i: int| 0 <= i < index ==> (#[trigger] spec_payload_bytes(spec_unwrap_argument(av[i]), source@, language@)) is Some,
        decreases arguments@.len() - index,
    {
        assert(av[index as int] == *arguments@[index as int]);
        match payload_bytes(unwrap_argument(arguments[index]), source, language) {
            Some(_) => {},
            None => {
                assert(spec_payload_bytes(spec_unwrap_argument(av[index as int]), source@, language@) is None);
                assert(!spec_all_payload(av, source@, language@));
                return None;
            },
        }
        index = index + 1;
    }
    match node_bytes(args, source) {
        Some(bytes) => Some((function, bytes)),
        None => None,
    }
}

/// How an argument reads inside a callee header: payload (a string, a
/// literal collection, a literal wrapper), a body, or anything else.
#[derive(Clone, Copy, PartialEq, Eq, Structural, Debug)]
pub enum ArgClass {
    /// Authored string payload.
    Payload,
    /// A statement-bearing argument.
    Body,
    /// Anything else.
    Other,
}

/// The class of one argument node.
pub open spec fn spec_arg_class(node: SyntaxNode, source: Seq<u8>, language: Seq<char>) -> ArgClass {
    let inner = spec_unwrap_argument(node);
    if spec_payload_bytes(inner, source, language) is Some {
        ArgClass::Payload
    } else if spec_holds_statement(inner) {
        ArgClass::Body
    } else if spec_literal_wrapper(inner, source, language) is Some {
        ArgClass::Payload
    } else {
        ArgClass::Other
    }
}

/// Classifies one argument node for a callee header.
pub fn arg_class(node: &SyntaxNode, source: &[u8], language: &str) -> (class: ArgClass)
    ensures
        class == spec_arg_class(*node, source@, language@),
{
    let inner = unwrap_argument(node);
    if payload_bytes(inner, source, language).is_some() {
        ArgClass::Payload
    } else if holds_statement(inner) {
        ArgClass::Body
    } else if literal_wrapper(inner, source, language).is_some() {
        ArgClass::Payload
    } else {
        ArgClass::Other
    }
}

/// The summary of one argument node: a string literal or literal
/// collection with whether it interpolates, a statement-bearing body, a
/// call wrapping only literal payload with its canonical callee, or
/// anything else.
pub open spec fn spec_arg_shape(node: SyntaxNode, source: Seq<u8>, language: Seq<char>) -> ArgShapeView {
    let inner = spec_unwrap_argument(node);
    match spec_payload_bytes(inner, source, language) {
        Some(bytes) => ArgShapeView::StringLiteral(bytes, spec_interpolates(inner)),
        None => if spec_holds_statement(inner) {
            ArgShapeView::Body
        } else {
            match spec_literal_wrapper(inner, source, language) {
                Some((function, bytes)) => ArgShapeView::LiteralWrapper(spec_canonical_callee(function, source, language), bytes),
                None => ArgShapeView::Other,
            }
        },
    }
}

/// Classifies one argument node into its summary.
pub fn arg_shape(node: &SyntaxNode, source: &[u8], language: &str) -> (shape: ArgShape)
    ensures
        shape@ == spec_arg_shape(*node, source@, language@),
{
    let inner = unwrap_argument(node);
    match payload_bytes(inner, source, language) {
        Some(bytes) => ArgShape::StringLiteral(bytes, interpolates(inner)),
        None => if holds_statement(inner) {
            ArgShape::Body
        } else {
            match literal_wrapper(inner, source, language) {
                Some((function, bytes)) => ArgShape::LiteralWrapper(canonical_callee(function, source, language), bytes),
                None => ArgShape::Other,
            }
        },
    }
}

/// One summary per argument of `call`, in order; none without an argument
/// list.
pub open spec fn spec_argument_shapes(call: SyntaxNode, source: Seq<u8>, language: Seq<char>) -> Seq<ArgShapeView> {
    match spec_argument_list(call) {
        Some(args) => spec_named_nodes(args.children@).map_values(|argument: SyntaxNode| spec_arg_shape(argument, source, language)),
        None => seq![],
    }
}

/// The keyword each argument of `call` is passed under, in order.
pub open spec fn spec_argument_keywords(call: SyntaxNode, source: Seq<u8>) -> Seq<Option<Seq<u8>>> {
    match spec_argument_list(call) {
        Some(args) => spec_named_nodes(args.children@).map_values(|argument: SyntaxNode| spec_keyword_name(argument, source)),
        None => seq![],
    }
}

/// Walks the named children of the call's argument list and produces one
/// summary and one keyword slot per argument.
pub fn collect_argument_shapes(call: &SyntaxNode, source: &[u8], language: &str) -> (found: (Vec<ArgShape>, Vec<Option<Vec<u8>>>))
    ensures
        arguments_view(found.0@) == spec_argument_shapes(*call, source@, language@),
        keywords_view(found.1@) == spec_argument_keywords(*call, source@),
{
    let mut shapes: Vec<ArgShape> = Vec::new();
    let mut keywords: Vec<Option<Vec<u8>>> = Vec::new();
    let args = match argument_list(call) {
        Some(args) => args,
        None => {
            assert(arguments_view(shapes@) =~= Seq::<ArgShapeView>::empty());
            assert(keywords_view(keywords@) =~= Seq::<Option<Seq<u8>>>::empty());
            return (shapes, keywords);
        },
    };
    let arguments = named_nodes(args);
    let ghost av = nodes_view(arguments@);
    let mut index: usize = 0;
    while index < arguments.len()
        invariant
            index <= arguments@.len(),
            av == nodes_view(arguments@),
            av == spec_named_nodes(args.children@),
            arguments_view(shapes@) == av.take(index as int).map_values(|argument: SyntaxNode| spec_arg_shape(argument, source@, language@)),
            keywords_view(keywords@) == av.take(index as int).map_values(|argument: SyntaxNode| spec_keyword_name(argument, source@)),
        decreases arguments@.len() - index,
    {
        let argument = arguments[index];
        assert(av[index as int] == *argument);
        let ghost before_shapes = arguments_view(shapes@);
        let ghost before_keywords = keywords_view(keywords@);
        shapes.push(arg_shape(argument, source, language));
        keywords.push(keyword_name(argument, source));
        assert(av.take(index as int + 1) =~= av.take(index as int).push(*argument));
        assert(arguments_view(shapes@) =~= before_shapes.push(spec_arg_shape(*argument, source@, language@)));
        assert(keywords_view(keywords@) =~= before_keywords.push(spec_keyword_name(*argument, source@)));
        assert(arguments_view(shapes@) =~= av.take(index as int + 1).map_values(|argument: SyntaxNode| spec_arg_shape(argument, source@, language@)));
        assert(keywords_view(keywords@) =~= av.take(index as int + 1).map_values(|argument: SyntaxNode| spec_keyword_name(argument, source@)));
        index = index + 1;
    }
    assert(av.take(av.len() as int) =~= av);
    (shapes, keywords)
}

} // verus!
