//! Canonical call headers: a callee's syntax with the called names and
//! member selectors it names kept, receiver names normalised away and
//! nested string payloads classified, and the arguments its own receiver
//! calls carry, so the literal-variation rule compares them position by
//! position.

use vstd::prelude::*;

use super::args::{arg_class, collect_argument_shapes, spec_arg_class, spec_argument_keywords, spec_argument_shapes, ArgClass};
use super::dataflow::{assigned_binding, consumed_identifiers, spec_assigned_binding, spec_consumed_identifiers};
use super::{arguments_view, call_kinds, callee_view, keywords_view, spec_call_kinds, ArgShape, ArgShapeView, CallShape, CallShapeView, CalleePart, CalleePartView};
use crate::cluster_filters::node_search::spec_span;
use crate::cluster_filters::override_marker::{child_by_field_name, first_field_child, spec_child_by_field};
use crate::cluster_filters::{kind_in, kinds_view, SyntaxNode};
use crate::text::{byte_strings_view, same_text};

verus! {

/// The kinds of a leaf that names something.
pub open spec fn spec_is_identifier_kind(kind: Seq<char>) -> bool {
    kind == "identifier"@ || kind == "property_identifier"@ || kind == "field_identifier"@ || kind == "type_identifier"@
}

fn is_identifier_kind(kind: &str) -> (identifier: bool)
    ensures
        identifier == spec_is_identifier_kind(kind@),
{
    same_text(kind, "identifier") || same_text(kind, "property_identifier") || same_text(kind, "field_identifier")
        || same_text(kind, "type_identifier")
}

/// The generic wrappers around a called name, which pass their own role on
/// to the name inside.
pub open spec fn spec_is_generic_kind(kind: Seq<char>) -> bool {
    kind == "generic_name"@ || kind == "generic_function"@
}

fn is_generic_kind(kind: &str) -> (generic: bool)
    ensures
        generic == spec_is_generic_kind(kind@),
{
    same_text(kind, "generic_name") || same_text(kind, "generic_function")
}

/// The fields that hold a called name or a member selector.
pub open spec fn spec_is_retained_field(field: Seq<char>) -> bool {
    field == "function"@ || field == "property"@ || field == "field"@ || field == "attribute"@ || field == "name"@
}

fn is_retained_field(field: &str) -> (retained: bool)
    ensures
        retained == spec_is_retained_field(field@),
{
    same_text(field, "function") || same_text(field, "property") || same_text(field, "field") || same_text(field, "attribute")
        || same_text(field, "name")
}

/// Whether child `i` of a parent with these children names the called
/// code: under a generic wrapper, whatever the wrapper does; otherwise,
/// whether it is the child a called-name or selector field gives.
pub open spec fn spec_retained_name(children: Seq<SyntaxNode>, i: int, generic: bool, parent_retained: bool) -> bool {
    if generic {
        parent_retained
    } else {
        match children[i].field {
            Some(field) => spec_is_retained_field(field@) && first_field_child(children, field@, 0) == i,
            None => false,
        }
    }
}

/// Whether child `index` of `node` names the called code.
pub fn retained_name(node: &SyntaxNode, index: usize, generic: bool, parent_retained: bool) -> (retained: bool)
    requires
        index < node.children@.len(),
    ensures
        retained == spec_retained_name(node.children@, index as int, generic, parent_retained),
{
    if generic {
        return parent_retained;
    }
    let field = match &node.children[index].field {
        Some(field) => field,
        None => return false,
    };
    if !is_retained_field(field.as_str()) {
        return false;
    }
    let mut at: usize = 0;
    while at < index
        invariant
            at <= index,
            !generic,
            index < node.children@.len(),
            node.children@[index as int].field == Some(*field),
            first_field_child(node.children@, field@, 0) == first_field_child(node.children@, field@, at as int),
        decreases index - at,
    {
        match &node.children[at].field {
            Some(name) => {
                if same_text(name.as_str(), field.as_str()) {
                    assert(first_field_child(node.children@, field@, at as int) == at);
                    return false;
                }
            },
            None => {},
        }
        at = at + 1;
    }
    assert(first_field_child(node.children@, field@, index as int) == index);
    true
}

/// A leaf's text, unless it is a name that does not name the called code.
pub open spec fn spec_terminal(node: SyntaxNode, retained: bool, source: Seq<u8>) -> Seq<CalleePartView> {
    if !spec_is_identifier_kind(node.kind@) || retained {
        match spec_span(source, node.start_byte, node.end_byte) {
            Some(text) => seq![CalleePartView::Text(text)],
            None => seq![],
        }
    } else {
        seq![]
    }
}

/// Whether a node kind is an argument list.
pub open spec fn spec_is_argument_list_kind(kind: Seq<char>) -> bool {
    kind == "arguments"@ || kind == "argument_list"@
}

/// The header parts of one node: its kind, then its arguments (each a
/// payload, a body, or its own parts), its leaf text, or its children's
/// parts, and the end of the node.
pub open spec fn spec_append_node(node: SyntaxNode, retained: bool, source: Seq<u8>, language: Seq<char>) -> Seq<CalleePartView>
    decreases node, 1int,
{
    let generic = spec_is_generic_kind(node.kind@);
    let inner = if spec_is_argument_list_kind(node.kind@) {
        spec_append_arguments(node.children@, node.children@.len() as int, retained, source, language)
    } else if node.children@.len() == 0 {
        spec_terminal(node, retained, source)
    } else {
        spec_append_children(node.children@, node.children@.len() as int, generic, retained, source, language)
    };
    seq![CalleePartView::Node(node.kind@)] + inner + seq![CalleePartView::End]
}

/// The parts of the first `k` children, named or not.
pub open spec fn spec_append_children(
    children: Seq<SyntaxNode>,
    k: int,
    generic: bool,
    parent_retained: bool,
    source: Seq<u8>,
    language: Seq<char>,
) -> Seq<CalleePartView>
    decreases children, k,
{
    if k <= 0 || k > children.len() {
        seq![]
    } else {
        spec_append_children(children, k - 1, generic, parent_retained, source, language)
            + spec_append_node(children[k - 1], spec_retained_name(children, k - 1, generic, parent_retained), source, language)
    }
}

/// The parts of the named arguments among the first `k` children of an
/// argument list.
pub open spec fn spec_append_arguments(
    children: Seq<SyntaxNode>,
    k: int,
    parent_retained: bool,
    source: Seq<u8>,
    language: Seq<char>,
) -> Seq<CalleePartView>
    decreases children, k,
{
    if k <= 0 || k > children.len() {
        seq![]
    } else {
        let before = spec_append_arguments(children, k - 1, parent_retained, source, language);
        if children[k - 1].named {
            before + spec_append_argument(children[k - 1], spec_retained_name(children, k - 1, false, parent_retained), source, language)
        } else {
            before
        }
    }
}

/// One argument inside a header: payload and bodies by their class alone,
/// anything else by its parts.
pub open spec fn spec_append_argument(node: SyntaxNode, retained: bool, source: Seq<u8>, language: Seq<char>) -> Seq<CalleePartView>
    decreases node, 2int,
{
    match spec_arg_class(node, source, language) {
        ArgClass::Payload => seq![CalleePartView::Payload],
        ArgClass::Body => seq![CalleePartView::Body],
        ArgClass::Other => spec_append_node(node, retained, source, language),
    }
}

/// The canonical header of a callee node.
pub open spec fn spec_canonical_callee(node: SyntaxNode, source: Seq<u8>, language: Seq<char>) -> Seq<CalleePartView> {
    spec_append_node(node, true, source, language)
}

/// Literal payloads were classified elsewhere; the remaining leaf syntax
/// stays exact, except a name that does not name the called code.
fn append_terminal(node: &SyntaxNode, retained: bool, source: &[u8], parts: &mut Vec<CalleePart>)
    ensures
        callee_view(final(parts)@) == callee_view(old(parts)@) + spec_terminal(*node, retained, source@),
{
    let ghost start = callee_view(parts@);
    if (!is_identifier_kind(node.kind.as_str()) || retained) && node.start_byte <= node.end_byte && node.end_byte <= source.len() {
        let text = vstd::slice::slice_to_vec(vstd::slice::slice_subrange(source, node.start_byte, node.end_byte));
        parts.push(CalleePart::Text(text));
        assert(callee_view(parts@) =~= start + seq![CalleePartView::Text(text@)]);
    } else {
        assert(callee_view(parts@) =~= start + Seq::<CalleePartView>::empty());
    }
}

/// Reads one node into header parts, retaining called names and selectors
/// while normalising receiver names.
fn append_node(node: &SyntaxNode, retained: bool, source: &[u8], language: &str, parts: &mut Vec<CalleePart>)
    ensures
        callee_view(final(parts)@) == callee_view(old(parts)@) + spec_append_node(*node, retained, source@, language@),
    decreases *node, 1int,
{
    let ghost start = callee_view(parts@);
    parts.push(CalleePart::Node(node.kind.clone()));
    let ghost head = callee_view(parts@);
    let generic = is_generic_kind(node.kind.as_str());
    if same_text(node.kind.as_str(), "arguments") || same_text(node.kind.as_str(), "argument_list") {
        let mut index: usize = 0;
        while index < node.children.len()
            invariant
                index <= node.children@.len(),
                spec_is_argument_list_kind(node.kind@),
                callee_view(parts@) == head + spec_append_arguments(node.children@, index as int, retained, source@, language@),
            decreases node.children@.len() - index,
        {
            let child = &node.children[index];
            assert(decreases_to!(*node => node.children@[index as int]));
            if child.named {
                let flag = retained_name(node, index, false, retained);
                append_argument(child, flag, source, language, parts);
            }
            assert(callee_view(parts@) =~= head + spec_append_arguments(node.children@, index as int + 1, retained, source@, language@));
            index = index + 1;
        }
    } else if node.children.len() == 0 {
        append_terminal(node, retained, source, parts);
    } else {
        let mut index: usize = 0;
        while index < node.children.len()
            invariant
                index <= node.children@.len(),
                generic == spec_is_generic_kind(node.kind@),
                callee_view(parts@) == head + spec_append_children(node.children@, index as int, generic, retained, source@, language@),
            decreases node.children@.len() - index,
        {
            let child = &node.children[index];
            assert(decreases_to!(*node => node.children@[index as int]));
            let flag = retained_name(node, index, generic, retained);
            append_node(child, flag, source, language, parts);
            assert(callee_view(parts@) =~= head + spec_append_children(node.children@, index as int + 1, generic, retained, source@, language@));
            index = index + 1;
        }
    }
    let ghost body = callee_view(parts@);
    parts.push(CalleePart::End);
    assert(callee_view(parts@) =~= body.push(CalleePartView::End));
    assert(callee_view(parts@) =~= start + spec_append_node(*node, retained, source@, language@));
}

/// Reads one argument into header parts with the same payload
/// classification as each outer argument slot.
fn append_argument(node: &SyntaxNode, retained: bool, source: &[u8], language: &str, parts: &mut Vec<CalleePart>)
    ensures
        callee_view(final(parts)@) == callee_view(old(parts)@) + spec_append_argument(*node, retained, source@, language@),
    decreases *node, 2int,
{
    let ghost start = callee_view(parts@);
    match arg_class(node, source, language) {
        ArgClass::Payload => {
            parts.push(CalleePart::Payload);
            assert(callee_view(parts@) =~= start + seq![CalleePartView::Payload]);
        },
        ArgClass::Body => {
            parts.push(CalleePart::Body);
            assert(callee_view(parts@) =~= start + seq![CalleePartView::Body]);
        },
        ArgClass::Other => append_node(node, retained, source, language, parts),
    }
}

/// Reads a callee's syntax into a header without making source whitespace
/// part of it.
pub fn canonical_callee(node: &SyntaxNode, source: &[u8], language: &str) -> (parts: Vec<CalleePart>)
    ensures
        callee_view(parts@) == spec_canonical_callee(*node, source@, language@),
{
    let mut parts: Vec<CalleePart> = Vec::new();
    assert(callee_view(parts@) =~= Seq::<CalleePartView>::empty());
    append_node(node, true, source, language, &mut parts);
    assert(callee_view(parts@) =~= spec_canonical_callee(*node, source@, language@));
    parts
}

/// The argument summaries and keywords of every call spelled inside a
/// callee, in depth-first order through named nodes: the receiver's calls
/// contribute payload slots, never sequence steps.
pub open spec fn spec_nested_arguments(node: SyntaxNode, source: Seq<u8>, language: Seq<char>) -> (Seq<ArgShapeView>, Seq<Option<Seq<u8>>>)
    decreases node, 1int,
{
    let rest = spec_nested_children(node.children@, node.children@.len() as int, source, language);
    if spec_call_kinds(language).contains(node.kind@) {
        (spec_argument_shapes(node, source, language) + rest.0, spec_argument_keywords(node, source) + rest.1)
    } else {
        rest
    }
}

/// The nested argument summaries under the first `k` named children.
pub open spec fn spec_nested_children(children: Seq<SyntaxNode>, k: int, source: Seq<u8>, language: Seq<char>) -> (Seq<ArgShapeView>, Seq<Option<Seq<u8>>>)
    decreases children, k,
{
    if k <= 0 || k > children.len() {
        (seq![], seq![])
    } else {
        let before = spec_nested_children(children, k - 1, source, language);
        if children[k - 1].named {
            let here = spec_nested_arguments(children[k - 1], source, language);
            (before.0 + here.0, before.1 + here.1)
        } else {
            before
        }
    }
}

fn push_nested(node: &SyntaxNode, source: &[u8], language: &str, kinds: &Vec<&'static str>, arguments: &mut Vec<ArgShape>, keywords: &mut Vec<Option<Vec<u8>>>)
    requires
        kinds_view(kinds@) == spec_call_kinds(language@),
    ensures
        arguments_view(final(arguments)@) == arguments_view(old(arguments)@) + spec_nested_arguments(*node, source@, language@).0,
        keywords_view(final(keywords)@) == keywords_view(old(keywords)@) + spec_nested_arguments(*node, source@, language@).1,
    decreases *node,
{
    let ghost start_arguments = arguments_view(arguments@);
    let ghost start_keywords = keywords_view(keywords@);
    if kind_in(node.kind.as_str(), kinds) {
        let (mut nested, mut names) = collect_argument_shapes(node, source, language);
        arguments.append(&mut nested);
        keywords.append(&mut names);
        assert(arguments_view(arguments@) =~= start_arguments + spec_argument_shapes(*node, source@, language@));
        assert(keywords_view(keywords@) =~= start_keywords + spec_argument_keywords(*node, source@));
    } else {
        assert(arguments_view(arguments@) =~= start_arguments);
        assert(keywords_view(keywords@) =~= start_keywords);
    }
    let ghost head_arguments = arguments_view(arguments@);
    let ghost head_keywords = keywords_view(keywords@);
    let mut index: usize = 0;
    while index < node.children.len()
        invariant
            index <= node.children@.len(),
            kinds_view(kinds@) == spec_call_kinds(language@),
            arguments_view(arguments@) == head_arguments + spec_nested_children(node.children@, index as int, source@, language@).0,
            keywords_view(keywords@) == head_keywords + spec_nested_children(node.children@, index as int, source@, language@).1,
        decreases node.children@.len() - index,
    {
        let child = &node.children[index];
        assert(decreases_to!(*node => node.children@[index as int]));
        if child.named {
            push_nested(child, source, language, kinds, arguments, keywords);
        }
        assert(arguments_view(arguments@) =~= head_arguments + spec_nested_children(node.children@, index as int + 1, source@, language@).0);
        assert(keywords_view(keywords@) =~= head_keywords + spec_nested_children(node.children@, index as int + 1, source@, language@).1);
        index = index + 1;
    }
}

/// Appends the argument summaries and keywords of every call spelled
/// inside a callee.
pub fn nested_arguments(node: &SyntaxNode, source: &[u8], language: &str, arguments: &mut Vec<ArgShape>, keywords: &mut Vec<Option<Vec<u8>>>)
    ensures
        arguments_view(final(arguments)@) == arguments_view(old(arguments)@) + spec_nested_arguments(*node, source@, language@).0,
        keywords_view(final(keywords)@) == keywords_view(old(keywords)@) + spec_nested_arguments(*node, source@, language@).1,
{
    let kinds = call_kinds(language);
    push_nested(node, source, language, &kinds, arguments, keywords);
}

/// The shape of a call node in the file `tree` is the parse of: its
/// canonical callee, its own arguments followed by those of the calls its
/// callee spells, their keywords, the local its result is bound to, and
/// the identifiers it consumes; `None` for a node without a `function`
/// child.
pub open spec fn spec_call_shape_from_node(call: SyntaxNode, tree: SyntaxNode, source: Seq<u8>, language: Seq<char>) -> Option<CallShapeView> {
    match spec_child_by_field(call, "function"@) {
        None => None,
        Some(callee) => {
            let nested = spec_nested_arguments(callee, source, language);
            let arguments = spec_argument_shapes(call, source, language) + nested.0;
            Some(CallShapeView {
                callee: spec_canonical_callee(callee, source, language),
                arity: arguments.len() as usize,
                keywords: spec_argument_keywords(call, source) + nested.1,
                arguments,
                result_binding: spec_assigned_binding(tree, call, source),
                consumed_identifiers: spec_consumed_identifiers(call, source),
            })
        },
    }
}

/// The model of an optional call shape.
pub open spec fn optional_call_view(shape: Option<CallShape>) -> Option<CallShapeView> {
    match shape {
        Some(found) => Some(found@),
        None => None,
    }
}

/// Extracts one call, including the arguments belonging to its callee
/// chain. `tree` is the parse of the call's file, where the declaration
/// or assignment receiving the call's result is found.
pub fn call_shape_from_node(call: &SyntaxNode, tree: &SyntaxNode, source: &[u8], language: &str) -> (shape: Option<CallShape>)
    ensures
        optional_call_view(shape) == spec_call_shape_from_node(*call, *tree, source@, language@),
{
    let callee_node = match child_by_field_name(call, "function") {
        Some(node) => node,
        None => return None,
    };
    let (mut arguments, mut keywords) = collect_argument_shapes(call, source, language);
    nested_arguments(callee_node, source, language, &mut arguments, &mut keywords);
    let result_binding = assigned_binding(tree, call, source);
    let consumed = consumed_identifiers(call, source);
    let shape = CallShape {
        arity: arguments.len(),
        callee: canonical_callee(callee_node, source, language),
        keywords,
        arguments,
        result_binding,
        consumed_identifiers: consumed,
    };
    assert(shape@ =~= spec_call_shape_from_node(*call, *tree, source@, language@).unwrap());
    Some(shape)
}

} // verus!
