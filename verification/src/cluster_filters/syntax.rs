//! Positional facts about a node's children: its named children, the one
//! named child it may have, and the child in a field.

use vstd::prelude::*;

use super::override_marker::first_field_child;
use super::SyntaxNode;
use crate::text::same_text;

verus! {

/// How many of the first `k` children are named.
pub open spec fn spec_named_count(children: Seq<SyntaxNode>, k: int) -> int
    decreases k,
{
    if k <= 0 || k > children.len() {
        0
    } else {
        spec_named_count(children, k - 1) + if children[k - 1].named { 1int } else { 0int }
    }
}

/// Position of the first named child at or after `from`; the child count
/// when none is.
pub open spec fn spec_first_named(children: Seq<SyntaxNode>, from: int) -> int
    decreases children.len() - from,
{
    if from < 0 || from >= children.len() {
        children.len() as int
    } else if children[from].named {
        from
    } else {
        spec_first_named(children, from + 1)
    }
}

/// Position of the only named child; the child count when there are none
/// or several.
pub open spec fn spec_sole_named(children: Seq<SyntaxNode>) -> int {
    if spec_named_count(children, children.len() as int) == 1 {
        spec_first_named(children, 0)
    } else {
        children.len() as int
    }
}

/// Position of the first child in field `field`; the child count when none is.
pub open spec fn spec_field_position(node: SyntaxNode, field: Seq<char>) -> int {
    first_field_child(node.children@, field, 0)
}

proof fn lemma_first_named_in_range(children: Seq<SyntaxNode>, from: int)
    requires
        0 <= from,
    ensures
        from <= spec_first_named(children, from) || spec_first_named(children, from) == children.len(),
        spec_first_named(children, from) <= children.len(),
        spec_first_named(children, from) < children.len() ==> children[spec_first_named(children, from)].named,
    decreases children.len() - from,
{
    if from < children.len() && !children[from].named {
        lemma_first_named_in_range(children, from + 1);
    }
}

/// Returns the only named child of `node`, or `None` when it has zero or
/// more than one.
pub fn sole_named_child(node: &SyntaxNode) -> (sole: Option<&SyntaxNode>)
    ensures
        match sole {
            Some(child) => 0 <= spec_sole_named(node.children@) < node.children@.len()
                && node.children@[spec_sole_named(node.children@)] == *child,
            None => !(0 <= spec_sole_named(node.children@) < node.children@.len()),
        },
{
    let ghost children = node.children@;
    let mut count: usize = 0;
    let mut first: usize = 0;
    let mut index: usize = 0;
    while index < node.children.len()
        invariant
            children == node.children@,
            index <= children.len(),
            count as int == spec_named_count(children, index as int),
            count <= index,
            count == 0 ==> spec_first_named(children, 0) == spec_first_named(children, index as int),
            count >= 1 ==> first == spec_first_named(children, 0) && first < children.len(),
        decreases children.len() - index,
    {
        if node.children[index].named {
            if count == 0 {
                first = index;
            }
            count = count + 1;
        }
        index = index + 1;
    }
    proof {
        lemma_first_named_in_range(children, 0);
    }
    if count == 1 {
        Some(&node.children[first])
    } else {
        None
    }
}

/// Whether some named child among the first `k` has kind `kind`.
pub open spec fn spec_has_named_kind(children: Seq<SyntaxNode>, k: int, kind: Seq<char>) -> bool
    decreases k,
{
    if k <= 0 || k > children.len() {
        false
    } else {
        spec_has_named_kind(children, k - 1, kind) || (children[k - 1].named && children[k - 1].kind@ == kind)
    }
}

/// Returns true when any named child of `node` has kind `kind`.
pub fn has_child_kind(node: &SyntaxNode, kind: &str) -> (found: bool)
    ensures
        found == spec_has_named_kind(node.children@, node.children@.len() as int, kind@),
{
    let mut found = false;
    let mut index: usize = 0;
    while index < node.children.len()
        invariant
            index <= node.children@.len(),
            found == spec_has_named_kind(node.children@, index as int, kind@),
        decreases node.children@.len() - index,
    {
        let child = &node.children[index];
        if child.named && same_text(child.kind.as_str(), kind) {
            found = true;
        }
        index = index + 1;
    }
    found
}

/// The child of `node` in field `field`, with its position.
pub fn field_child<'a>(node: &'a SyntaxNode, field: &str) -> (child: Option<&'a SyntaxNode>)
    ensures
        match child {
            Some(c) => 0 <= spec_field_position(*node, field@) < node.children@.len()
                && node.children@[spec_field_position(*node, field@)] == *c,
            None => !(0 <= spec_field_position(*node, field@) < node.children@.len()),
        },
{
    let mut index: usize = 0;
    while index < node.children.len()
        invariant
            index <= node.children@.len(),
            first_field_child(node.children@, field@, 0) == first_field_child(node.children@, field@, index as int),
        decreases node.children@.len() - index,
    {
        let child = &node.children[index];
        match &child.field {
            Some(name) => {
                if same_text(name.as_str(), field) {
                    return Some(child);
                }
            },
            None => {},
        }
        index = index + 1;
    }
    None
}

} // verus!
