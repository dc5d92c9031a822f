//! Where a call's result goes and what it reads: the local a declaration
//! or assignment binds it to, and the plain identifiers the call consumes,
//! through its arguments and through its receivers alike.

use vstd::prelude::*;

use super::callee::{retained_name, spec_retained_name, spec_is_generic_kind};
use crate::cluster_filters::node_search::spec_span;
use crate::cluster_filters::override_marker::{child_by_field_name, spec_child_by_field};
use crate::cluster_filters::SyntaxNode;
use crate::text::{byte_strings_view, same_text};

verus! {

/// Whether two nodes are the same node: same kind, same range.
pub open spec fn spec_same_node(left: SyntaxNode, right: SyntaxNode) -> bool {
    left.kind@ == right.kind@ && left.start_byte == right.start_byte && left.end_byte == right.end_byte
}

/// The fields naming the bound local and the bound value of a binding
/// construct: an assignment, a declarator, Rust's `let`.
pub open spec fn spec_binding_fields(kind: Seq<char>) -> Option<(Seq<char>, Seq<char>)> {
    if kind == "assignment"@ || kind == "assignment_expression"@ {
        Some(("left"@, "right"@))
    } else if kind == "variable_declarator"@ {
        Some(("name"@, "value"@))
    } else if kind == "let_declaration"@ {
        Some(("pattern"@, "value"@))
    } else {
        None
    }
}

fn binding_fields(kind: &str) -> (fields: Option<(&'static str, &'static str)>)
    ensures
        match fields {
            Some((name, value)) => spec_binding_fields(kind@) == Some((name@, value@)),
            None => spec_binding_fields(kind@) is None,
        },
{
    if same_text(kind, "assignment") || same_text(kind, "assignment_expression") {
        Some(("left", "right"))
    } else if same_text(kind, "variable_declarator") {
        Some(("name", "value"))
    } else if same_text(kind, "let_declaration") {
        Some(("pattern", "value"))
    } else {
        None
    }
}

/// The local `node` binds `call`'s result to: `node` is a binding
/// construct whose value is the call and whose bound name is a plain
/// identifier.
pub open spec fn spec_binding_of(node: SyntaxNode, call: SyntaxNode, source: Seq<u8>) -> Option<Seq<u8>> {
    match spec_binding_fields(node.kind@) {
        None => None,
        Some((name_field, value_field)) => match spec_child_by_field(node, value_field) {
            None => None,
            Some(value) => match spec_child_by_field(node, name_field) {
                None => None,
                Some(name) => if spec_same_node(value, call) && name.kind@ == "identifier"@ {
                    spec_span(source, name.start_byte, name.end_byte)
                } else {
                    None
                },
            },
        },
    }
}

fn binding_of(node: &SyntaxNode, call: &SyntaxNode, source: &[u8]) -> (name: Option<Vec<u8>>)
    ensures
        match name {
            Some(n) => spec_binding_of(*node, *call, source@) == Some(n@),
            None => spec_binding_of(*node, *call, source@) is None,
        },
{
    let (name_field, value_field) = match binding_fields(node.kind.as_str()) {
        Some(fields) => fields,
        None => return None,
    };
    let value = match child_by_field_name(node, value_field) {
        Some(value) => value,
        None => return None,
    };
    let name = match child_by_field_name(node, name_field) {
        Some(name) => name,
        None => return None,
    };
    if !same_text(value.kind.as_str(), call.kind.as_str()) || value.start_byte != call.start_byte || value.end_byte != call.end_byte {
        return None;
    }
    if !same_text(name.kind.as_str(), "identifier") {
        return None;
    }
    if name.start_byte <= name.end_byte && name.end_byte <= source.len() {
        Some(vstd::slice::slice_to_vec(vstd::slice::slice_subrange(source, name.start_byte, name.end_byte)))
    } else {
        None
    }
}

/// The first binding of `call`'s result under `node`, in depth-first
/// order through named nodes.
pub open spec fn spec_assigned_in(node: SyntaxNode, call: SyntaxNode, source: Seq<u8>) -> Option<Seq<u8>>
    decreases node, 1int,
{
    match spec_binding_of(node, call, source) {
        Some(name) => Some(name),
        None => spec_assigned_in_children(node.children@, node.children@.len() as int, call, source),
    }
}

/// The first binding of `call`'s result under the first `k` named children.
pub open spec fn spec_assigned_in_children(children: Seq<SyntaxNode>, k: int, call: SyntaxNode, source: Seq<u8>) -> Option<Seq<u8>>
    decreases children, k,
{
    if k <= 0 || k > children.len() {
        None
    } else {
        match spec_assigned_in_children(children, k - 1, call, source) {
            Some(name) => Some(name),
            None => if children[k - 1].named { spec_assigned_in(children[k - 1], call, source) } else { None },
        }
    }
}

proof fn lemma_assigned_found(children: Seq<SyntaxNode>, k: int, n: int, call: SyntaxNode, source: Seq<u8>)
    requires
        0 <= k <= n <= children.len(),
        spec_assigned_in_children(children, k, call, source) is Some,
    ensures
        spec_assigned_in_children(children, n, call, source) == spec_assigned_in_children(children, k, call, source),
    decreases n - k,
{
    if k < n {
        lemma_assigned_found(children, k, n - 1, call, source);
    }
}

fn assigned_in(node: &SyntaxNode, call: &SyntaxNode, source: &[u8]) -> (name: Option<Vec<u8>>)
    ensures
        match name {
            Some(n) => spec_assigned_in(*node, *call, source@) == Some(n@),
            None => spec_assigned_in(*node, *call, source@) is None,
        },
    decreases *node,
{
    match binding_of(node, call, source) {
        Some(name) => return Some(name),
        None => {},
    }
    let mut index: usize = 0;
    while index < node.children.len()
        invariant
            index <= node.children@.len(),
            spec_binding_of(*node, *call, source@) is None,
            spec_assigned_in_children(node.children@, index as int, *call, source@) is None,
        decreases node.children@.len() - index,
    {
        let child = &node.children[index];
        assert(decreases_to!(*node => node.children@[index as int]));
        if child.named {
            match assigned_in(child, call, source) {
                Some(name) => {
                    proof {
                        lemma_assigned_found(node.children@, index as int + 1, node.children@.len() as int, *call, source@);
                    }
                    return Some(name);
                },
                None => {},
            }
        }
        index = index + 1;
    }
    None
}

/// The local `call`'s result is bound to in the file `tree` is the parse
/// of: the first declaration or assignment, in depth-first order, whose
/// value is the call and whose bound name is a plain identifier.
pub open spec fn spec_assigned_binding(tree: SyntaxNode, call: SyntaxNode, source: Seq<u8>) -> Option<Seq<u8>> {
    spec_assigned_in(tree, call, source)
}

/// The local name a call's result is assigned to, when any: a Python or
/// ECMAScript assignment, a declarator, a Rust `let`.
pub fn assigned_binding(tree: &SyntaxNode, call: &SyntaxNode, source: &[u8]) -> (name: Option<Vec<u8>>)
    ensures
        match name {
            Some(n) => spec_assigned_binding(*tree, *call, source@) == Some(n@),
            None => spec_assigned_binding(*tree, *call, source@) is None,
        },
{
    assigned_in(tree, call, source)
}

/// The plain identifiers under `node` that name no called code, in order,
/// through named nodes: receivers and argument values alike.
pub open spec fn spec_consumed(node: SyntaxNode, retained: bool, source: Seq<u8>) -> Seq<Seq<u8>>
    decreases node, 1int,
{
    if node.kind@ == "identifier"@ {
        if retained {
            seq![]
        } else {
            match spec_span(source, node.start_byte, node.end_byte) {
                Some(name) => seq![name],
                None => seq![],
            }
        }
    } else {
        spec_consumed_children(node.children@, node.children@.len() as int, spec_is_generic_kind(node.kind@), retained, source)
    }
}

/// The consumed identifiers under the first `k` named children.
pub open spec fn spec_consumed_children(children: Seq<SyntaxNode>, k: int, generic: bool, parent_retained: bool, source: Seq<u8>) -> Seq<Seq<u8>>
    decreases children, k,
{
    if k <= 0 || k > children.len() {
        seq![]
    } else {
        let before = spec_consumed_children(children, k - 1, generic, parent_retained, source);
        if children[k - 1].named {
            before + spec_consumed(children[k - 1], spec_retained_name(children, k - 1, generic, parent_retained), source)
        } else {
            before
        }
    }
}

fn collect_consumed(node: &SyntaxNode, retained: bool, source: &[u8], out: &mut Vec<Vec<u8>>)
    ensures
        byte_strings_view(final(out)@) == byte_strings_view(old(out)@) + spec_consumed(*node, retained, source@),
    decreases *node,
{
    let ghost start = byte_strings_view(out@);
    if same_text(node.kind.as_str(), "identifier") {
        if !retained && node.start_byte <= node.end_byte && node.end_byte <= source.len() {
            let name = vstd::slice::slice_to_vec(vstd::slice::slice_subrange(source, node.start_byte, node.end_byte));
            out.push(name);
            assert(byte_strings_view(out@) =~= start + seq![name@]);
        } else {
            assert(byte_strings_view(out@) =~= start + Seq::<Seq<u8>>::empty());
        }
        return;
    }
    let generic = same_text(node.kind.as_str(), "generic_name") || same_text(node.kind.as_str(), "generic_function");
    let mut index: usize = 0;
    while index < node.children.len()
        invariant
            index <= node.children@.len(),
            node.kind@ != "identifier"@,
            generic == spec_is_generic_kind(node.kind@),
            byte_strings_view(out@) == start + spec_consumed_children(node.children@, index as int, generic, retained, source@),
        decreases node.children@.len() - index,
    {
        let child = &node.children[index];
        assert(decreases_to!(*node => node.children@[index as int]));
        if child.named {
            let flag = retained_name(node, index, generic, retained);
            collect_consumed(child, flag, source, out);
        }
        assert(byte_strings_view(out@) =~= start + spec_consumed_children(node.children@, index as int + 1, generic, retained, source@));
        index = index + 1;
    }
}

/// The identifiers a call consumes.
pub open spec fn spec_consumed_identifiers(call: SyntaxNode, source: Seq<u8>) -> Seq<Seq<u8>> {
    spec_consumed(call, false, source)
}

/// The raw identifiers a call consumes, through its arguments or through
/// its receivers, plain method receivers included: every identifier in
/// the call that is not a called name or a member selector.
pub fn consumed_identifiers(call: &SyntaxNode, source: &[u8]) -> (names: Vec<Vec<u8>>)
    ensures
        byte_strings_view(names@) == spec_consumed_identifiers(*call, source@),
{
    let mut names: Vec<Vec<u8>> = Vec::new();
    assert(byte_strings_view(names@) =~= Seq::<Seq<u8>>::empty());
    collect_consumed(call, false, source, &mut names);
    assert(byte_strings_view(names@) =~= spec_consumed_identifiers(*call, source@));
    names
}

} // verus!
