//! JavaScript / TypeScript / TSX data declarations: a TypeScript
//! `interface` or object type made only of `property_signature` members
//! encodes the structure of a value, not extractable logic. Suppressed
//! only when two members differ in raw bytes, so a verbatim copy still
//! surfaces.

use vstd::prelude::*;

use super::node_search::{deref_node, node_intersects_range, spec_intersects};
use super::python::{raw_texts_differ, spec_raw_texts_differ_views, spec_trimmed_range_of};
use super::snippets::{parse_snippet, plugin_descendant, snippets_view, spec_plugin_descendant, spec_plugin_parse, Snippet, SnippetView};
use super::{trimmed_snippet_range, SyntaxNode};
use crate::ast::ByteRange;
use crate::text::same_text;

verus! {

/// The deepest node of `node`'s subtree with exactly this range and kind,
/// searching children in order before the node itself.
pub open spec fn spec_node_at(node: SyntaxNode, start: usize, end: usize, kind: Seq<char>) -> Option<SyntaxNode>
    decreases node, 1int,
{
    match spec_node_at_children(node.children@, 0, start, end, kind) {
        Some(found) => Some(found),
        None => if node.start_byte == start && node.end_byte == end && node.kind@ == kind { Some(node) } else { None },
    }
}

/// The first answer among the children from position `k` on.
pub open spec fn spec_node_at_children(children: Seq<SyntaxNode>, k: int, start: usize, end: usize, kind: Seq<char>) -> Option<SyntaxNode>
    decreases children, children.len() - k,
{
    if k < 0 || k >= children.len() {
        None
    } else {
        match spec_node_at(children[k], start, end, kind) {
            Some(found) => Some(found),
            None => spec_node_at_children(children, k + 1, start, end, kind),
        }
    }
}

/// The node of this copy of a parse that a tree-sitter answer names.
pub fn node_at<'a>(node: &'a SyntaxNode, start: usize, end: usize, kind: &str) -> (found: Option<&'a SyntaxNode>)
    ensures
        deref_node(found) == spec_node_at(*node, start, end, kind@),
    decreases *node,
{
    let mut index: usize = 0;
    while index < node.children.len()
        invariant
            index <= node.children@.len(),
            spec_node_at_children(node.children@, 0, start, end, kind@)
                == spec_node_at_children(node.children@, index as int, start, end, kind@),
        decreases node.children@.len() - index,
    {
        assert(decreases_to!(*node => node.children@[index as int]));
        match node_at(&node.children[index], start, end, kind) {
            Some(found) => return Some(found),
            None => {},
        }
        index = index + 1;
    }
    if node.start_byte == start && node.end_byte == end && same_text(node.kind.as_str(), kind) { Some(node) } else { None }
}

/// The `interface_body` or `object_type` a covering node represents,
/// unwrapping declaration and `export` wrappers; none for anything that
/// carries logic or mixes a data shape with other statements.
pub open spec fn spec_resolve_data_body(node: SyntaxNode) -> Option<SyntaxNode>
    decreases node, 1int,
{
    let kind = node.kind@;
    if kind == "interface_body"@ || kind == "object_type"@ {
        Some(node)
    } else if kind == "interface_declaration"@ || kind == "type_alias_declaration"@ || kind == "export_statement"@ {
        spec_resolve_children(node.children@, 0)
    } else {
        None
    }
}

/// The first data body among the named children from position `k` on.
pub open spec fn spec_resolve_children(children: Seq<SyntaxNode>, k: int) -> Option<SyntaxNode>
    decreases children, children.len() - k,
{
    if k < 0 || k >= children.len() {
        None
    } else {
        let here = if children[k].named { spec_resolve_data_body(children[k]) } else { None };
        match here {
            Some(found) => Some(found),
            None => spec_resolve_children(children, k + 1),
        }
    }
}

/// Resolves a covering node to the `interface_body` / `object_type` it
/// represents.
#[verifier::loop_isolation(false)]
pub fn resolve_data_body(node: &SyntaxNode) -> (body: Option<&SyntaxNode>)
    ensures
        deref_node(body) == spec_resolve_data_body(*node),
    decreases *node,
{
    let kind = node.kind.as_str();
    if same_text(kind, "interface_body") || same_text(kind, "object_type") {
        return Some(node);
    }
    if !(same_text(kind, "interface_declaration") || same_text(kind, "type_alias_declaration") || same_text(kind, "export_statement")) {
        return None;
    }
    let mut index: usize = 0;
    while index < node.children.len()
        invariant
            index <= node.children@.len(),
            spec_resolve_children(node.children@, 0) == spec_resolve_children(node.children@, index as int),
        decreases node.children@.len() - index,
    {
        let child = &node.children[index];
        assert(decreases_to!(*node => node.children@[index as int]));
        if child.named {
            match resolve_data_body(child) {
                Some(found) => return Some(found),
                None => {},
            }
        }
        index = index + 1;
    }
    None
}

/// Every named member of `body` touching `range` is a
/// `property_signature`, and at least one touches it.
pub open spec fn spec_only_property_signatures(body: SyntaxNode, range: ByteRange) -> bool {
    let children = body.children@;
    &&& forall|i: int| 0 <= i < children.len() && (#[trigger] children[i]).named && spec_intersects(children[i], range)
        ==> children[i].kind@ == "property_signature"@
    &&& exists|i: int| 0 <= i < children.len() && (#[trigger] children[i]).named && spec_intersects(children[i], range)
}

fn only_property_signatures(body: &SyntaxNode, range: ByteRange) -> (data: bool)
    ensures
        data == spec_only_property_signatures(*body, range),
{
    let mut covered = false;
    let mut index: usize = 0;
    while index < body.children.len()
        invariant
            index <= body.children@.len(),
            forall|i: int| 0 <= i < index && (#[trigger] body.children@[i]).named && spec_intersects(body.children@[i], range)
                ==> body.children@[i].kind@ == "property_signature"@,
            covered == exists|i: int| 0 <= i < index && (#[trigger] body.children@[i]).named
                && spec_intersects(body.children@[i], range),
        decreases body.children@.len() - index,
    {
        let member = &body.children[index];
        if member.named && node_intersects_range(member, range) {
            if !same_text(member.kind.as_str(), "property_signature") {
                return false;
            }
            covered = true;
        }
        index = index + 1;
    }
    covered
}

/// The range a member is read over: trimmed, or as reported.
pub open spec fn spec_data_range(snippet: SnippetView) -> ByteRange {
    match spec_trimmed_range_of(snippet) {
        Some(range) => range,
        None => snippet.range,
    }
}

/// The inclusive end the covering-node lookup is asked for.
pub open spec fn spec_end_inclusive(range: ByteRange) -> usize {
    let last = if range.end == 0 { 0usize } else { (range.end - 1) as usize };
    if last < range.start { range.start } else { last }
}

/// Whether a member's range is exactly a data shape made of property
/// signatures, in its parsed file.
pub open spec fn spec_covers_only_property_signatures(snippet: SnippetView) -> bool {
    let range = spec_data_range(snippet);
    match spec_plugin_parse(snippet.language, snippet.source) {
        None => false,
        Some(tree) => match spec_plugin_descendant(snippet.language, snippet.source, range.start, spec_end_inclusive(range), false) {
            None => false,
            Some((start, end, kind)) => match spec_node_at(tree, start, end, kind) {
                None => false,
                Some(node) => match spec_resolve_data_body(node) {
                    Some(body) => spec_only_property_signatures(body, range),
                    None => false,
                },
            },
        },
    }
}

/// True when the snippet's range is exactly a TypeScript interface or
/// object type (optionally export-wrapped) whose every covered member is
/// a `property_signature`. The smallest node spanning the range must
/// itself resolve to the data body, so a whole-program range that merely
/// contains a type beside real logic is never taken for a data shape.
pub fn covers_only_property_signatures(snippet: &Snippet) -> (data: bool)
    ensures
        data == spec_covers_only_property_signatures(snippet@),
{
    let tree = match parse_snippet(snippet) {
        Some(tree) => tree,
        None => return false,
    };
    assert(super::spec_trimmed_range(*snippet) == spec_trimmed_range_of(snippet@));
    let range = match trimmed_snippet_range(snippet) {
        Some(range) => range,
        None => snippet.range,
    };
    let last = if range.end == 0 { 0 } else { range.end - 1 };
    let end_inclusive = if last < range.start { range.start } else { last };
    let (start, end, kind) = match plugin_descendant(snippet.language, snippet.source, range.start, end_inclusive, false) {
        Some(found) => found,
        None => return false,
    };
    let node = match node_at(&tree, start, end, kind.as_str()) {
        Some(node) => node,
        None => return false,
    };
    match resolve_data_body(node) {
        Some(body) => only_property_signatures(body, range),
        None => false,
    }
}

/// A cluster of TypeScript data shapes of two or more members, with two
/// members differing in raw bytes.
pub open spec fn spec_is_ecmascript_data_shape_cluster(snippets: Seq<SnippetView>) -> bool {
    &&& snippets.len() >= 2
    &&& forall|k: int| 0 <= k < snippets.len() ==> spec_covers_only_property_signatures(#[trigger] snippets[k])
    &&& spec_raw_texts_differ_views(snippets)
}

/// A cluster of TypeScript `interface` / object-type data shapes: two
/// unrelated interfaces with one field shape but different field names
/// are different domain types, not duplication.
pub fn is_ecmascript_data_shape_cluster(snippets: &[Snippet]) -> (data: bool)
    ensures
        data == spec_is_ecmascript_data_shape_cluster(snippets_view(snippets@)),
{
    let ghost views = snippets_view(snippets@);
    if snippets.len() < 2 {
        return false;
    }
    let mut k: usize = 0;
    while k < snippets.len()
        invariant
            k <= snippets@.len(),
            views == snippets_view(snippets@),
            views.len() == snippets@.len(),
            forall|m: int| 0 <= m < k ==> spec_covers_only_property_signatures(#[trigger] views[m]),
        decreases snippets@.len() - k,
    {
        assert(views[k as int] == snippets@[k as int]@);
        if !covers_only_property_signatures(&snippets[k]) {
            return false;
        }
        k = k + 1;
    }
    raw_texts_differ(snippets)
}

} // verus!
