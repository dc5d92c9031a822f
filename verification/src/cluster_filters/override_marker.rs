//! The compiler's own proof that a contract declares a member, for the
//! contracts a scan never reaches.
//!
//! A method implementing a framework interface resolves to no declaring
//! base in the corpus and reads as an ordinary same-named function across
//! files. The languages here spell the override relationship explicitly
//! and reject the marker when nothing is being overridden, so its presence
//! is evidence that cannot be forged by convention.

use vstd::prelude::*;

use crate::cluster_filters::SyntaxNode;
use crate::text::same_text;

verus! {

/// The node kind that marks a member as implementing a contract declared
/// elsewhere, and the marker text, per language.
pub open spec fn spec_override_marker_kind(language: Seq<char>) -> Option<(Seq<char>, Seq<char>)> {
    if language == "dart"@ {
        Some(("annotation"@, "override"@))
    } else if language == "csharp"@ {
        Some(("modifier"@, "override"@))
    } else if language == "typescript"@ || language == "tsx"@ {
        Some(("override_modifier"@, "override"@))
    } else {
        None
    }
}

/// The marker kind and text of `language`; none where the language has no
/// compiler-enforced override marker (Python's inheritance is checked,
/// never declared).
pub fn override_marker_kind(language: &str) -> (marker: Option<(&'static str, &'static str)>)
    ensures
        match marker {
            Some((kind, text)) => spec_override_marker_kind(language@) == Some((kind@, text@)),
            None => spec_override_marker_kind(language@).is_none(),
        },
{
    if same_text(language, "dart") {
        Some(("annotation", "override"))
    } else if same_text(language, "csharp") {
        Some(("modifier", "override"))
    } else if same_text(language, "typescript") || same_text(language, "tsx") {
        Some(("override_modifier", "override"))
    } else {
        None
    }
}

/// The bytes of an ASCII text.
pub open spec fn ascii_bytes(text: Seq<char>) -> Seq<u8> {
    text.map_values(|c: char| c as u8)
}

/// The node whose bytes name a marker: the child in its `name` field where
/// the grammar gives it one, else the node itself.
pub open spec fn spec_marker_span(node: SyntaxNode) -> (usize, usize) {
    let named_field = first_field_child(node.children@, "name"@, 0);
    if named_field < node.children@.len() {
        (node.children@[named_field].start_byte, node.children@[named_field].end_byte)
    } else {
        (node.start_byte, node.end_byte)
    }
}

/// Position of the first child at or after `from` in field `field`; the
/// child count when none is.
pub open spec fn first_field_child(children: Seq<SyntaxNode>, field: Seq<char>, from: int) -> int
    decreases children.len() - from,
{
    if from < 0 || from >= children.len() {
        children.len() as int
    } else if children[from].field.is_some() && children[from].field.unwrap()@ == field {
        from
    } else {
        first_field_child(children, field, from + 1)
    }
}

/// The source bytes of `start..end`, when that range lies in the source.
pub open spec fn spec_source_span(source: Seq<u8>, start: usize, end: usize) -> Option<Seq<u8>> {
    if start <= end && end <= source.len() { Some(source.subrange(start as int, end as int)) } else { None }
}

/// A named child of `function` of the marker's kind whose bytes are the marker.
pub open spec fn spec_is_marker_child(child: SyntaxNode, kind: Seq<char>, text: Seq<char>, source: Seq<u8>) -> bool {
    &&& child.named
    &&& child.kind@ == kind
    &&& spec_source_span(source, spec_marker_span(child).0, spec_marker_span(child).1) == Some(ascii_bytes(text))
}

/// Whether `function` carries its language's override marker as a direct
/// named child.
pub open spec fn spec_carries_override_marker(function: SyntaxNode, language: Seq<char>, source: Seq<u8>) -> bool {
    match spec_override_marker_kind(language) {
        None => false,
        Some((kind, text)) => exists|i: int| 0 <= i < function.children@.len()
            && spec_is_marker_child(#[trigger] function.children@[i], kind, text, source),
    }
}

/// The first child of `node` in field `field`, if any.
pub open spec fn spec_child_by_field(node: SyntaxNode, field: Seq<char>) -> Option<SyntaxNode> {
    let position = first_field_child(node.children@, field, 0);
    if position < node.children@.len() { Some(node.children@[position]) } else { None }
}

/// The child in field `field` of `node`, if any.
pub fn child_by_field_name<'a>(node: &'a SyntaxNode, field: &str) -> (child: Option<&'a SyntaxNode>)
    ensures
        crate::cluster_filters::node_search::deref_node(child) == spec_child_by_field(*node, field@),
        match child {
            Some(c) => first_field_child(node.children@, field@, 0) < node.children@.len()
                && node.children@[first_field_child(node.children@, field@, 0)] == *c,
            None => first_field_child(node.children@, field@, 0) >= node.children@.len(),
        },
{
    let mut index: usize = 0;
    while index < node.children.len()
        invariant
            index <= node.children@.len(),
            first_field_child(node.children@, field@, 0) == first_field_child(node.children@, field@, index as int),
        decreases node.children@.len() - index,
    {
        let child = &node.children[index];
        match &child.field {
            Some(name) => {
                if same_text(name.as_str(), field) {
                    return Some(child);
                }
            },
            None => {},
        }
        index = index + 1;
    }
    None
}

/// Whether `source[start..end]` is in range and spells `text`.
fn span_spells(source: &[u8], start: usize, end: usize, text: &str) -> (spells: bool)
    ensures
        spells == (spec_source_span(source@, start, end) == Some(ascii_bytes(text@))),
{
    if !(start <= end && end <= source.len()) {
        return false;
    }
    let length = text.unicode_len();
    if end - start != length {
        proof {
            assert(source@.subrange(start as int, end as int).len() != ascii_bytes(text@).len());
        }
        return false;
    }
    let mut index: usize = 0;
    while index < length
        invariant
            index <= length,
            length == text@.len(),
            start <= end <= source@.len(),
            end - start == length,
            forall|j: int| 0 <= j < index ==> source@[start + j] == text@[j] as u8,
        decreases length - index,
    {
        let c = text.get_char(index);
        if source[start + index] != c as u8 {
            proof {
                assert(source@.subrange(start as int, end as int)[index as int] != ascii_bytes(text@)[index as int]);
            }
            return false;
        }
        index = index + 1;
    }
    assert(source@.subrange(start as int, end as int) =~= ascii_bytes(text@));
    true
}

/// Whether `function` carries its language's override marker as a direct
/// child. Only direct children count: an annotation nested inside the body
/// marks something else. The marker's identity is read off its `name` field
/// where the grammar gives it one, and off the node itself where the marker
/// is the token.
pub fn carries_override_marker(function: &SyntaxNode, language: &str, source: &[u8]) -> (marked: bool)
    ensures
        marked == spec_carries_override_marker(*function, language@, source@),
{
    let (kind, text) = match override_marker_kind(language) {
        Some(marker) => marker,
        None => return false,
    };
    let mut index: usize = 0;
    while index < function.children.len()
        invariant
            index <= function.children@.len(),
            spec_override_marker_kind(language@) == Some((kind@, text@)),
            forall|j: int| 0 <= j < index ==> !spec_is_marker_child(#[trigger] function.children@[j], kind@, text@, source@),
        decreases function.children@.len() - index,
    {
        let child = &function.children[index];
        if child.named && same_text(child.kind.as_str(), kind) {
            let (start, end) = match child_by_field_name(child, "name") {
                Some(name) => (name.start_byte, name.end_byte),
                None => (child.start_byte, child.end_byte),
            };
            if span_spells(source, start, end, text) {
                assert(spec_is_marker_child(function.children@[index as int], kind@, text@, source@));
                return true;
            }
        }
        index = index + 1;
    }
    false
}

} // verus!
