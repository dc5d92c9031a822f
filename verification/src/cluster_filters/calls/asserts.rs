//! Assertion admission for the literal-variation sequence rule.
//!
//! `resp = client.delete(f"/api/…"); assert resp.status_code == 204` is the
//! idiom the filter hides: the trailing assertion is the test's acceptance
//! criterion on the value the varying call bound. Admission is narrow: the
//! statement must be assertion-shaped for its grammar, and every
//! identifier it inspects must name a value one of the covered
//! call-bearing statements bound.

use vstd::prelude::*;

use crate::cluster_filters::node_search::{nodes_view, spec_span};
use crate::cluster_filters::override_marker::{child_by_field_name, first_field_child, spec_child_by_field};
use crate::cluster_filters::snippets::Snippet;
use crate::cluster_filters::{kind_in, kinds_view, SyntaxNode};
use crate::text::{byte_strings_view, owned_listed, same_text};

verus! {

/// Grammars with a call-free assertion statement: Python's. Rust, C# and
/// ECMAScript spell assertions as calls, which the sequence rule already
/// governs position by position.
pub open spec fn spec_assert_kinds(language: Seq<char>) -> Seq<Seq<char>> {
    if language == "python"@ { seq!["assert_statement"@] } else { seq![] }
}

/// The assertion statement kinds of a language.
pub fn assert_kinds(language: &str) -> (kinds: Vec<&'static str>)
    ensures
        kinds_view(kinds@) == spec_assert_kinds(language@),
{
    let kinds: Vec<&'static str> = if same_text(language, "python") { vec!["assert_statement"] } else { Vec::new() };
    assert(kinds_view(kinds@) =~= spec_assert_kinds(language@));
    kinds
}

/// The bytes of an identifier that lie in the source, as a list of at
/// most one.
pub open spec fn spec_identifier_text(node: SyntaxNode, source: Seq<u8>) -> Seq<Seq<u8>> {
    match spec_span(source, node.start_byte, node.end_byte) {
        Some(bytes) => seq![bytes],
        None => seq![],
    }
}

fn push_node_text(node: &SyntaxNode, source: &[u8], out: &mut Vec<Vec<u8>>)
    ensures
        byte_strings_view(final(out)@) == byte_strings_view(old(out)@) + spec_identifier_text(*node, source@),
{
    let ghost before = byte_strings_view(out@);
    if node.start_byte <= node.end_byte && node.end_byte <= source.len() {
        out.push(vstd::slice::slice_to_vec(vstd::slice::slice_subrange(source, node.start_byte, node.end_byte)));
        assert(byte_strings_view(out@) =~= before + spec_identifier_text(*node, source@));
    } else {
        assert(byte_strings_view(out@) =~= before + spec_identifier_text(*node, source@));
    }
}

/// Every identifier of the subtree, depth first through named nodes; an
/// identifier's own children are not visited.
pub open spec fn spec_identifiers(node: SyntaxNode, source: Seq<u8>) -> Seq<Seq<u8>>
    decreases node, 1int,
{
    if node.kind@ == "identifier"@ {
        spec_identifier_text(node, source)
    } else {
        spec_identifiers_children(node.children@, node.children@.len() as int, source)
    }
}

/// The identifiers of the first `k` named children, in order.
pub open spec fn spec_identifiers_children(children: Seq<SyntaxNode>, k: int, source: Seq<u8>) -> Seq<Seq<u8>>
    decreases children, k,
{
    if k <= 0 || k > children.len() {
        seq![]
    } else {
        let tail: Seq<Seq<u8>> = if children[k - 1].named { spec_identifiers(children[k - 1], source) } else { seq![] };
        spec_identifiers_children(children, k - 1, source) + tail
    }
}

/// Records every identifier in `node`'s subtree.
pub fn collect_identifiers(node: &SyntaxNode, source: &[u8], out: &mut Vec<Vec<u8>>)
    ensures
        byte_strings_view(final(out)@) == byte_strings_view(old(out)@) + spec_identifiers(*node, source@),
    decreases *node,
{
    if same_text(node.kind.as_str(), "identifier") {
        push_node_text(node, source, out);
        return;
    }
    let ghost start = byte_strings_view(out@);
    assert(start =~= start + spec_identifiers_children(node.children@, 0, source@));
    let mut index: usize = 0;
    while index < node.children.len()
        invariant
            index <= node.children@.len(),
            node.kind@ != "identifier"@,
            byte_strings_view(out@) == start + spec_identifiers_children(node.children@, index as int, source@),
        decreases node.children@.len() - index,
    {
        let child = &node.children[index];
        assert(decreases_to!(*node => node.children@[index as int]));
        if child.named {
            collect_identifiers(child, source, out);
        }
        assert(byte_strings_view(out@) =~= start + spec_identifiers_children(node.children@, index as int + 1, source@));
        index = index + 1;
    }
}

/// The identifiers on the left of every assignment in the subtree,
/// chained assignments included, in walk order.
pub open spec fn spec_assignment_targets(node: SyntaxNode, source: Seq<u8>) -> Seq<Seq<u8>>
    decreases node, 1int,
{
    let here: Seq<Seq<u8>> = if node.kind@ == "assignment"@ {
        match spec_child_by_field(node, "left"@) {
            Some(left) => spec_identifiers(left, source),
            None => seq![],
        }
    } else {
        seq![]
    };
    here + spec_targets_children(node.children@, node.children@.len() as int, source)
}

/// The assignment targets of the first `k` named children, in order.
pub open spec fn spec_targets_children(children: Seq<SyntaxNode>, k: int, source: Seq<u8>) -> Seq<Seq<u8>>
    decreases children, k,
{
    if k <= 0 || k > children.len() {
        seq![]
    } else {
        let tail: Seq<Seq<u8>> = if children[k - 1].named { spec_assignment_targets(children[k - 1], source) } else { seq![] };
        spec_targets_children(children, k - 1, source) + tail
    }
}

/// Walks `node` recording the identifiers on the left of every
/// assignment it contains.
pub fn collect_assignment_targets(node: &SyntaxNode, source: &[u8], out: &mut Vec<Vec<u8>>)
    ensures
        byte_strings_view(final(out)@) == byte_strings_view(old(out)@) + spec_assignment_targets(*node, source@),
    decreases *node,
{
    let ghost start = byte_strings_view(out@);
    if same_text(node.kind.as_str(), "assignment") {
        match child_by_field_name(node, "left") {
            Some(left) => collect_identifiers(left, source, out),
            None => {},
        }
    }
    let ghost here = byte_strings_view(out@);
    assert(here =~= here + spec_targets_children(node.children@, 0, source@));
    let mut index: usize = 0;
    while index < node.children.len()
        invariant
            index <= node.children@.len(),
            here == start + (if node.kind@ == "assignment"@ {
                match spec_child_by_field(*node, "left"@) {
                    Some(left) => spec_identifiers(left, source@),
                    None => Seq::<Seq<u8>>::empty(),
                }
            } else {
                Seq::<Seq<u8>>::empty()
            }),
            byte_strings_view(out@) == here + spec_targets_children(node.children@, index as int, source@),
        decreases node.children@.len() - index,
    {
        let child = &node.children[index];
        assert(decreases_to!(*node => node.children@[index as int]));
        if child.named {
            collect_assignment_targets(child, source, out);
        }
        assert(byte_strings_view(out@) =~= here + spec_targets_children(node.children@, index as int + 1, source@));
        index = index + 1;
    }
    assert(byte_strings_view(out@) =~= start + spec_assignment_targets(*node, source@));
}

/// The identifiers a node inspects: every identifier except an attribute
/// name, which names a field on a subject rather than a subject
/// (`resp.status_code` inspects `resp`).
pub open spec fn spec_subject_identifiers(node: SyntaxNode, source: Seq<u8>) -> Seq<Seq<u8>>
    decreases node, 1int,
{
    if node.kind@ == "identifier"@ {
        spec_identifier_text(node, source)
    } else {
        spec_subjects_children(node, node.children@, node.children@.len() as int, source)
    }
}

/// Whether the child at `position` is `parent`'s attribute name: the
/// first child in the `attribute` field of an `attribute` node.
pub open spec fn spec_is_attribute_name(parent: SyntaxNode, position: int) -> bool {
    parent.kind@ == "attribute"@ && position == first_field_child(parent.children@, "attribute"@, 0)
}

/// The subject identifiers of the first `k` named children of `parent`.
pub open spec fn spec_subjects_children(parent: SyntaxNode, children: Seq<SyntaxNode>, k: int, source: Seq<u8>) -> Seq<Seq<u8>>
    decreases children, k,
{
    if k <= 0 || k > children.len() {
        seq![]
    } else {
        let tail: Seq<Seq<u8>> = if children[k - 1].named && !spec_is_attribute_name(parent, k - 1) {
            spec_subject_identifiers(children[k - 1], source)
        } else {
            seq![]
        };
        spec_subjects_children(parent, children, k - 1, source) + tail
    }
}

/// The position of the first child in `field`; the child count when none
/// is.
fn field_position(node: &SyntaxNode, field: &str) -> (position: usize)
    ensures
        position == first_field_child(node.children@, field@, 0),
{
    let mut index: usize = 0;
    while index < node.children.len()
        invariant
            index <= node.children@.len(),
            first_field_child(node.children@, field@, 0) == first_field_child(node.children@, field@, index as int),
        decreases node.children@.len() - index,
    {
        match &node.children[index].field {
            Some(name) => {
                if same_text(name.as_str(), field) {
                    return index;
                }
            },
            None => {},
        }
        index = index + 1;
    }
    node.children.len()
}

/// Records the identifiers `node` inspects.
pub fn collect_subject_identifiers(node: &SyntaxNode, source: &[u8], out: &mut Vec<Vec<u8>>)
    ensures
        byte_strings_view(final(out)@) == byte_strings_view(old(out)@) + spec_subject_identifiers(*node, source@),
    decreases *node,
{
    if same_text(node.kind.as_str(), "identifier") {
        push_node_text(node, source, out);
        return;
    }
    let attribute_parent = same_text(node.kind.as_str(), "attribute");
    let attribute_position = field_position(node, "attribute");
    let ghost start = byte_strings_view(out@);
    assert(start =~= start + spec_subjects_children(*node, node.children@, 0, source@));
    let mut index: usize = 0;
    while index < node.children.len()
        invariant
            index <= node.children@.len(),
            node.kind@ != "identifier"@,
            attribute_parent == (node.kind@ == "attribute"@),
            attribute_position == first_field_child(node.children@, "attribute"@, 0),
            byte_strings_view(out@) == start + spec_subjects_children(*node, node.children@, index as int, source@),
        decreases node.children@.len() - index,
    {
        let child = &node.children[index];
        assert(decreases_to!(*node => node.children@[index as int]));
        if child.named && !(attribute_parent && index == attribute_position) {
            collect_subject_identifiers(child, source, out);
        }
        assert(byte_strings_view(out@) =~= start + spec_subjects_children(*node, node.children@, index as int + 1, source@));
        index = index + 1;
    }
}

/// The names the call-bearing statements bind, in order.
pub open spec fn spec_bound_names(statements: Seq<SyntaxNode>, source: Seq<u8>) -> Seq<Seq<u8>>
    decreases statements.len(),
{
    if statements.len() == 0 {
        seq![]
    } else {
        spec_bound_names(statements.drop_last(), source) + spec_assignment_targets(statements.last(), source)
    }
}

/// Names the call-bearing statements bind: every assignment-target
/// identifier they contain.
pub fn bound_names(statements: &[&SyntaxNode], source: &[u8]) -> (names: Vec<Vec<u8>>)
    ensures
        byte_strings_view(names@) == spec_bound_names(nodes_view(statements@), source@),
{
    let ghost sv = nodes_view(statements@);
    let mut names: Vec<Vec<u8>> = Vec::new();
    let mut index: usize = 0;
    assert(byte_strings_view(names@) =~= spec_bound_names(sv.take(0), source@));
    while index < statements.len()
        invariant
            index <= statements@.len(),
            sv == nodes_view(statements@),
            byte_strings_view(names@) == spec_bound_names(sv.take(index as int), source@),
        decreases statements@.len() - index,
    {
        assert(sv.take(index as int + 1).drop_last() =~= sv.take(index as int));
        assert(sv.take(index as int + 1).last() == *statements[index as int]);
        collect_assignment_targets(statements[index], source, &mut names);
        index = index + 1;
    }
    assert(sv.take(sv.len() as int) =~= sv);
    names
}

/// An assertion-shaped statement of the language that inspects at least
/// one value, every value it inspects bound by a covered call statement.
pub open spec fn spec_is_assert_on_call_bound_value(statement: SyntaxNode, calls: Seq<SyntaxNode>, language: Seq<char>, source: Seq<u8>) -> bool {
    let bound = spec_bound_names(calls, source);
    let subjects = spec_subject_identifiers(statement, source);
    &&& spec_assert_kinds(language).contains(statement.kind@)
    &&& subjects.len() > 0
    &&& forall|i: int| 0 <= i < subjects.len() ==> bound.contains(#[trigger] subjects[i])
}

/// True when `statement` is an assertion whose every subject identifier
/// names a value bound by one of `call_statements`, and it inspects at
/// least one such value, so a vacuous assertion does not qualify.
pub fn is_assert_on_call_bound_value(statement: &SyntaxNode, call_statements: &[&SyntaxNode], snippet: &Snippet) -> (admitted: bool)
    ensures
        admitted == spec_is_assert_on_call_bound_value(*statement, nodes_view(call_statements@), snippet.language@, snippet.source@),
{
    let kinds = assert_kinds(snippet.language);
    if !kind_in(statement.kind.as_str(), &kinds) {
        return false;
    }
    let bound = bound_names(call_statements, snippet.source);
    let mut subjects: Vec<Vec<u8>> = Vec::new();
    collect_subject_identifiers(statement, snippet.source, &mut subjects);
    assert(byte_strings_view(subjects@) =~= spec_subject_identifiers(*statement, snippet.source@));
    if subjects.len() == 0 {
        return false;
    }
    let ghost sv = byte_strings_view(subjects@);
    let mut index: usize = 0;
    while index < subjects.len()
        invariant
            index <= subjects@.len(),
            sv == byte_strings_view(subjects@),
            sv.len() == subjects@.len(),
            sv == spec_subject_identifiers(*statement, snippet.source@),
            byte_strings_view(bound@) == spec_bound_names(nodes_view(call_statements@), snippet.source@),
            spec_assert_kinds(snippet.language@).contains(statement.kind@),
            forall|j: int| 0 <= j < index ==> byte_strings_view(bound@).contains(#[trigger] sv[j]),
        decreases subjects@.len() - index,
    {
        assert(sv[index as int] == subjects@[index as int]@);
        if !owned_listed(&bound, subjects[index].as_slice()) {
            return false;
        }
        index = index + 1;
    }
    true
}

} // verus!
