//! Chained nested-dict assertions: `assert payload["k1"]["k2"] == V` over
//! a locally built literal dict checks a nested response shape, and
//! normalisation collapses the variable, the keys and the value, so two
//! tests of unrelated contracts reduce to one skeleton.
//!
//! The idiom is matched at every range it is offered for (the assert run,
//! the enclosing `test_*` function, the whole module), which obliges the
//! proof to be closed: every right operand is a literal, every payload
//! dictionary in range is consumed by an assertion and holds static data
//! only, module scope holds nothing but imports, docstrings and the test
//! functions, and decorators are static and decorate functions.

use vstd::prelude::*;

use super::node_search::{deref_node, node_intersects_range, nodes_view, spec_intersects, spec_span};
use super::override_marker::{child_by_field_name, spec_child_by_field};
use super::python::{
    python_function_name_starts_with, raw_texts_differ, spec_name_starts_with, spec_raw_texts_differ_views,
    spec_trimmed_range_of, test_prefix,
};
use super::snippets::{parse_snippet, snippets_view, spec_plugin_parse, Snippet, SnippetView};
use super::syntax::{spec_first_named, spec_named_count};
use super::{is_multi_member_language_cluster, spec_is_multi_member_language_cluster, trimmed_snippet_range, SyntaxNode};
use crate::ast::ByteRange;
use crate::text::{same_text, slice_listed, slices_view};

verus! {

/// Whether a named descendant reached through named nodes is an f-string
/// interpolation.
pub open spec fn spec_contains_interpolation(node: SyntaxNode) -> bool
    decreases node, 1int,
{
    spec_children_interpolate(node.children@, node.children@.len() as int)
}

/// Whether one of the first `k` named children is or holds an
/// interpolation.
pub open spec fn spec_children_interpolate(children: Seq<SyntaxNode>, k: int) -> bool
    decreases children, k,
{
    if k <= 0 || k > children.len() {
        false
    } else {
        spec_children_interpolate(children, k - 1) || (children[k - 1].named
            && (children[k - 1].kind@ == "interpolation"@ || spec_contains_interpolation(children[k - 1])))
    }
}

proof fn lemma_interpolate_grows(children: Seq<SyntaxNode>, k: int, n: int)
    requires
        0 <= k <= n <= children.len(),
        spec_children_interpolate(children, k),
    ensures
        spec_children_interpolate(children, n),
    decreases n - k,
{
    if k < n {
        lemma_interpolate_grows(children, k, n - 1);
    }
}

/// Returns true when a string carries an f-string interpolation hole.
pub fn contains_interpolation(node: &SyntaxNode) -> (found: bool)
    ensures
        found == spec_contains_interpolation(*node),
    decreases *node,
{
    let mut index: usize = 0;
    while index < node.children.len()
        invariant
            index <= node.children@.len(),
            !spec_children_interpolate(node.children@, index as int),
        decreases node.children@.len() - index,
    {
        let child = &node.children[index];
        assert(decreases_to!(*node => node.children@[index as int]));
        if child.named && (same_text(child.kind.as_str(), "interpolation") || contains_interpolation(child)) {
            proof {
                lemma_interpolate_grows(node.children@, index as int + 1, node.children@.len() as int);
            }
            return true;
        }
        index = index + 1;
    }
    false
}

/// A scalar literal: a plain string, a number, a bool or `None`.
pub open spec fn spec_is_literal_constant(node: SyntaxNode) -> bool {
    let kind = node.kind@;
    if kind == "string"@ || kind == "concatenated_string"@ {
        !spec_contains_interpolation(node)
    } else {
        kind == "integer"@ || kind == "float"@ || kind == "true"@ || kind == "false"@ || kind == "none"@
    }
}

/// Returns true for a scalar literal, the only expected value a
/// nested-shape assertion may carry; an f-string is executable.
pub fn is_literal_constant(node: &SyntaxNode) -> (literal: bool)
    ensures
        literal == spec_is_literal_constant(*node),
{
    let kind = node.kind.as_str();
    if same_text(kind, "string") || same_text(kind, "concatenated_string") {
        return !contains_interpolation(node);
    }
    same_text(kind, "integer") || same_text(kind, "float") || same_text(kind, "true") || same_text(kind, "false")
        || same_text(kind, "none")
}

/// Static data all the way down: scalar literals, and collections (or
/// pairs, unary operators, comments) whose every named child is static.
pub open spec fn spec_is_static_data(node: SyntaxNode) -> bool
    decreases node, 1int,
{
    let kind = node.kind@;
    spec_is_literal_constant(node) || ((kind == "dictionary"@ || kind == "list"@ || kind == "tuple"@ || kind == "set"@
        || kind == "pair"@ || kind == "unary_operator"@ || kind == "comment"@)
        && spec_children_static(node.children@, node.children@.len() as int))
}

/// Every one of the first `k` named children is static data.
pub open spec fn spec_children_static(children: Seq<SyntaxNode>, k: int) -> bool
    decreases children, k,
{
    if k <= 0 || k > children.len() {
        true
    } else {
        spec_children_static(children, k - 1) && (!children[k - 1].named || spec_is_static_data(children[k - 1]))
    }
}

proof fn lemma_static_stop(children: Seq<SyntaxNode>, k: int, n: int)
    requires
        0 < k <= n <= children.len(),
        !spec_children_static(children, k),
    ensures
        !spec_children_static(children, n),
    decreases n - k,
{
    if k < n {
        lemma_static_stop(children, k, n - 1);
    }
}

/// Returns true when the node is provably static data all the way down; a
/// call, identifier, splat, comprehension or f-string makes it computed.
pub fn is_static_data(node: &SyntaxNode) -> (data: bool)
    ensures
        data == spec_is_static_data(*node),
    decreases *node,
{
    if is_literal_constant(node) {
        return true;
    }
    let kind = node.kind.as_str();
    if !(same_text(kind, "dictionary") || same_text(kind, "list") || same_text(kind, "tuple") || same_text(kind, "set")
        || same_text(kind, "pair") || same_text(kind, "unary_operator") || same_text(kind, "comment")) {
        return false;
    }
    let mut index: usize = 0;
    while index < node.children.len()
        invariant
            index <= node.children@.len(),
            !spec_is_literal_constant(*node),
            node.kind@ == "dictionary"@ || node.kind@ == "list"@ || node.kind@ == "tuple"@ || node.kind@ == "set"@
                || node.kind@ == "pair"@ || node.kind@ == "unary_operator"@ || node.kind@ == "comment"@,
            spec_children_static(node.children@, index as int),
        decreases node.children@.len() - index,
    {
        let child = &node.children[index];
        assert(decreases_to!(*node => node.children@[index as int]));
        if child.named && !is_static_data(child) {
            proof {
                lemma_static_stop(node.children@, index as int + 1, node.children@.len() as int);
            }
            return false;
        }
        index = index + 1;
    }
    true
}

/// A subscript whose index is a scalar literal key.
pub open spec fn spec_subscript_key_is_literal(subscript: SyntaxNode) -> bool {
    match spec_child_by_field(subscript, "subscript"@) {
        Some(key) => spec_is_literal_constant(key),
        None => false,
    }
}

/// The root identifier of a tower of literal-keyed subscripts at least two
/// hops deep; `deep` says a hop was already taken.
pub open spec fn spec_subscript_chain_root(node: SyntaxNode, deep: bool, source: Seq<u8>) -> Option<Seq<u8>>
    decreases node,
{
    let value = super::syntax::spec_field_position(node, "value"@);
    if node.kind@ != "subscript"@ || !spec_subscript_key_is_literal(node) || !(0 <= value < node.children@.len()) {
        None
    } else if node.children@[value].kind@ == "subscript"@ {
        spec_subscript_chain_root(node.children@[value], true, source)
    } else if node.children@[value].kind@ == "identifier"@ && deep {
        spec_span(source, node.children@[value].start_byte, node.children@[value].end_byte)
    } else {
        None
    }
}

/// Walks a tower of literal keys and returns the root identifier's bytes
/// once the tower is at least two hops deep; a computed key fails.
pub fn subscript_chain_root<'s>(node: &SyntaxNode, deep: bool, source: &'s [u8]) -> (root: Option<&'s [u8]>)
    ensures
        match root {
            Some(r) => spec_subscript_chain_root(*node, deep, source@) == Some(r@),
            None => spec_subscript_chain_root(*node, deep, source@) is None,
        },
    decreases *node,
{
    if !same_text(node.kind.as_str(), "subscript") {
        return None;
    }
    let key_literal = match child_by_field_name(node, "subscript") {
        Some(key) => is_literal_constant(key),
        None => false,
    };
    if !key_literal {
        return None;
    }
    let value = match super::syntax::field_child(node, "value") {
        Some(value) => value,
        None => return None,
    };
    if same_text(value.kind.as_str(), "subscript") {
        assert(decreases_to!(*node => node.children@[super::syntax::spec_field_position(*node, "value"@)]));
        return subscript_chain_root(value, true, source);
    }
    if same_text(value.kind.as_str(), "identifier") && deep && value.start_byte <= value.end_byte
        && value.end_byte <= source.len() {
        return Some(vstd::slice::slice_subrange(source, value.start_byte, value.end_byte));
    }
    None
}

/// How many of the first `k` children sit in field `field`.
pub open spec fn spec_field_count(children: Seq<SyntaxNode>, field: Seq<char>, k: int) -> int
    decreases k,
{
    if k <= 0 || k > children.len() {
        0
    } else {
        spec_field_count(children, field, k - 1)
            + if children[k - 1].field.is_some() && children[k - 1].field.unwrap()@ == field { 1int } else { 0int }
    }
}

/// The left operand of `<chain> <op> <literal>` with exactly one operator,
/// `==` or `is`, two operands, and a literal right operand.
pub open spec fn spec_comparison_against_literal(comparison: SyntaxNode) -> Option<SyntaxNode> {
    let children = comparison.children@;
    let operator = super::override_marker::first_field_child(children, "operators"@, 0);
    let left = spec_first_named(children, 0);
    let right = spec_first_named(children, left + 1);
    if spec_field_count(children, "operators"@, children.len() as int) != 1
        || spec_named_count(children, children.len() as int) != 2
        || !(0 <= operator < children.len()) || !(0 <= left < children.len()) || !(0 <= right < children.len()) {
        None
    } else if !(children[operator].kind@ == "=="@ || children[operator].kind@ == "is"@)
        || !spec_is_literal_constant(children[right]) {
        None
    } else {
        Some(children[left])
    }
}

proof fn lemma_first_named_bounds(children: Seq<SyntaxNode>, from: int)
    requires
        0 <= from,
    ensures
        from <= spec_first_named(children, from) || spec_first_named(children, from) == children.len(),
        spec_first_named(children, from) <= children.len(),
        spec_first_named(children, from) < children.len() ==> children[spec_first_named(children, from)].named,
        forall|j: int| from <= j < spec_first_named(children, from) && j < children.len() ==> !(#[trigger] children[j]).named,
    decreases children.len() - from,
{
    if from < children.len() && !children[from].named {
        lemma_first_named_bounds(children, from + 1);
    }
}

/// Returns the left-hand chain of `<chain> <op> <literal>` when the
/// comparison has one operator, `==` or `is`, and a literal right operand:
/// a call or attribute there is executable code the idiom never proves.
pub fn comparison_against_literal(comparison: &SyntaxNode) -> (left: Option<&SyntaxNode>)
    ensures
        deref_node(left) == spec_comparison_against_literal(*comparison),
{
    let ghost children = comparison.children@;
    let mut operators: usize = 0;
    let mut operator: usize = comparison.children.len();
    let mut named: usize = 0;
    let mut left: usize = comparison.children.len();
    let mut right: usize = comparison.children.len();
    let mut index: usize = 0;
    while index < comparison.children.len()
        invariant
            children == comparison.children@,
            index <= children.len(),
            operators as int == spec_field_count(children, "operators"@, index as int),
            operators <= index,
            named as int == spec_named_count(children, index as int),
            named <= index,
            operators == 0 ==> super::override_marker::first_field_child(children, "operators"@, 0)
                == super::override_marker::first_field_child(children, "operators"@, index as int),
            operators >= 1 ==> operator == super::override_marker::first_field_child(children, "operators"@, 0) && operator < children.len(),
            named == 0 ==> spec_first_named(children, 0) == spec_first_named(children, index as int),
            named >= 1 ==> left == spec_first_named(children, 0) && left < index,
            named == 1 ==> spec_first_named(children, left + 1) == spec_first_named(children, index as int),
            named >= 2 ==> right == spec_first_named(children, left + 1) && right < index,
        decreases children.len() - index,
    {
        let child = &comparison.children[index];
        match &child.field {
            Some(field) => {
                if same_text(field.as_str(), "operators") {
                    if operators == 0 {
                        operator = index;
                    }
                    operators = operators + 1;
                }
            },
            None => {},
        }
        if child.named {
            if named == 0 {
                left = index;
            } else if named == 1 {
                right = index;
            }
            named = named + 1;
        }
        index = index + 1;
    }
    proof {
        lemma_first_named_bounds(children, 0);
        if named >= 1 {
            lemma_first_named_bounds(children, left as int + 1);
        }
    }
    if operators != 1 || named != 2 {
        return None;
    }
    let operator_kind = comparison.children[operator].kind.as_str();
    if !(same_text(operator_kind, "==") || same_text(operator_kind, "is")) || !is_literal_constant(&comparison.children[right]) {
        return None;
    }
    Some(&comparison.children[left])
}

/// The root of a qualifying chained-dict assertion: `assert <root>[k1][k2]`
/// bare, or compared to a literal with a single `==` or `is`.
pub open spec fn spec_chained_dict_assert_root(statement: SyntaxNode, source: Seq<u8>) -> Option<Seq<u8>> {
    if statement.kind@ != "assert_statement"@ {
        None
    } else {
        let p = spec_first_named(statement.children@, 0);
        if !(0 <= p < statement.children@.len()) {
            None
        } else {
            let first = statement.children@[p];
            if first.kind@ == "comparison_operator"@ {
                match spec_comparison_against_literal(first) {
                    Some(chain) => spec_subscript_chain_root(chain, false, source),
                    None => None,
                }
            } else {
                spec_subscript_chain_root(first, false, source)
            }
        }
    }
}

/// The first named child of `node`, at its position.
fn first_named_child(node: &SyntaxNode) -> (child: Option<&SyntaxNode>)
    ensures
        match child {
            Some(c) => 0 <= spec_first_named(node.children@, 0) < node.children@.len()
                && node.children@[spec_first_named(node.children@, 0)] == *c,
            None => !(0 <= spec_first_named(node.children@, 0) < node.children@.len()),
        },
{
    proof {
        lemma_first_named_bounds(node.children@, 0);
    }
    let mut index: usize = 0;
    while index < node.children.len()
        invariant
            index <= node.children@.len(),
            spec_first_named(node.children@, 0) == spec_first_named(node.children@, index as int),
        decreases node.children@.len() - index,
    {
        if node.children[index].named {
            return Some(&node.children[index]);
        }
        index = index + 1;
    }
    None
}

/// Returns the root identifier of a qualifying chained-dict assertion;
/// a computed right operand, a chained comparison or a non-literal key is
/// not the idiom.
pub fn chained_dict_assert_root<'s>(statement: &SyntaxNode, source: &'s [u8]) -> (root: Option<&'s [u8]>)
    ensures
        match root {
            Some(r) => spec_chained_dict_assert_root(*statement, source@) == Some(r@),
            None => spec_chained_dict_assert_root(*statement, source@) is None,
        },
{
    if !same_text(statement.kind.as_str(), "assert_statement") {
        return None;
    }
    let first = match first_named_child(statement) {
        Some(first) => first,
        None => return None,
    };
    if same_text(first.kind.as_str(), "comparison_operator") {
        match comparison_against_literal(first) {
            Some(chain) => subscript_chain_root(chain, false, source),
            None => None,
        }
    } else {
        subscript_chain_root(first, false, source)
    }
}

/// The first named `assignment` child from position `from` on.
pub open spec fn spec_first_assignment(children: Seq<SyntaxNode>, from: int) -> Option<SyntaxNode>
    decreases children.len() - from,
{
    if from < 0 || from >= children.len() {
        None
    } else if children[from].named && children[from].kind@ == "assignment"@ {
        Some(children[from])
    } else {
        spec_first_assignment(children, from + 1)
    }
}

/// The bound name of `<name> = { ... }` whose dictionary is static data.
pub open spec fn spec_literal_payload_binding(statement: SyntaxNode, source: Seq<u8>) -> Option<Seq<u8>> {
    if statement.kind@ != "expression_statement"@ {
        None
    } else {
        match spec_first_assignment(statement.children@, 0) {
            None => None,
            Some(assignment) => match (spec_child_by_field(assignment, "left"@), spec_child_by_field(assignment, "right"@)) {
                (Some(left), Some(right)) => if left.kind@ == "identifier"@ && right.kind@ == "dictionary"@
                    && spec_is_static_data(right) {
                    spec_span(source, left.start_byte, left.end_byte)
                } else {
                    None
                },
                _ => None,
            },
        }
    }
}

/// Returns the bound name of `<name> = { ... }`: a plain identifier bound
/// to a dictionary literal of static data all the way down.
pub fn literal_payload_binding<'s>(statement: &SyntaxNode, source: &'s [u8]) -> (name: Option<&'s [u8]>)
    ensures
        match name {
            Some(n) => spec_literal_payload_binding(*statement, source@) == Some(n@),
            None => spec_literal_payload_binding(*statement, source@) is None,
        },
{
    if !same_text(statement.kind.as_str(), "expression_statement") {
        return None;
    }
    let mut found: Option<&SyntaxNode> = None;
    let mut index: usize = 0;
    while index < statement.children.len()
        invariant
            index <= statement.children@.len(),
            found is None ==> spec_first_assignment(statement.children@, 0) == spec_first_assignment(statement.children@, index as int),
            found is Some ==> spec_first_assignment(statement.children@, 0) == deref_node(found),
        decreases statement.children@.len() - index,
    {
        let child = &statement.children[index];
        if found.is_none() && child.named && same_text(child.kind.as_str(), "assignment") {
            found = Some(child);
        }
        index = index + 1;
    }
    let assignment = match found {
        Some(assignment) => assignment,
        None => return None,
    };
    let left = match child_by_field_name(assignment, "left") {
        Some(left) => left,
        None => return None,
    };
    let right = match child_by_field_name(assignment, "right") {
        Some(right) => right,
        None => return None,
    };
    if !same_text(left.kind.as_str(), "identifier") || !same_text(right.kind.as_str(), "dictionary") || !is_static_data(right) {
        return None;
    }
    if left.start_byte <= left.end_byte && left.end_byte <= source.len() {
        Some(vstd::slice::slice_subrange(source, left.start_byte, left.end_byte))
    } else {
        None
    }
}

/// An expression statement that is only a plain string: a docstring.
pub open spec fn spec_is_docstring_statement(statement: SyntaxNode) -> bool {
    let p = spec_first_named(statement.children@, 0);
    spec_named_count(statement.children@, statement.children@.len() as int) == 1 && 0 <= p < statement.children@.len()
        && statement.children@[p].kind@ == "string"@ && !spec_contains_interpolation(statement.children@[p])
}

/// Returns true for an expression statement that is only a plain string;
/// an f-string is executable and does not count.
pub fn is_docstring_statement(statement: &SyntaxNode) -> (docstring: bool)
    ensures
        docstring == spec_is_docstring_statement(*statement),
{
    match super::syntax::sole_named_child(statement) {
        Some(only) => {
            proof {
                lemma_sole_is_first(statement.children@);
            }
            same_text(only.kind.as_str(), "string") && !contains_interpolation(only)
        },
        None => {
            proof {
                lemma_sole_is_first(statement.children@);
            }
            false
        },
    }
}

proof fn lemma_sole_is_first(children: Seq<SyntaxNode>)
    ensures
        spec_named_count(children, children.len() as int) == 1
            <==> (0 <= super::syntax::spec_sole_named(children) < children.len()),
        spec_named_count(children, children.len() as int) == 1 ==> super::syntax::spec_sole_named(children) == spec_first_named(children, 0),
{
    lemma_first_named_bounds(children, 0);
    if spec_named_count(children, children.len() as int) == 1 {
        lemma_count_positive_has_named(children, children.len() as int);
    }
}

proof fn lemma_count_positive_has_named(children: Seq<SyntaxNode>, k: int)
    requires
        0 <= k <= children.len(),
        spec_named_count(children, k) > 0,
    ensures
        spec_first_named(children, 0) < k,
    decreases k,
{
    lemma_first_named_bounds(children, 0);
    if k > 0 {
        if spec_named_count(children, k - 1) > 0 {
            lemma_count_positive_has_named(children, k - 1);
        } else {
            assert(children[k - 1].named);
            lemma_no_named_before(children, k - 1);
        }
    }
}

proof fn lemma_no_named_before(children: Seq<SyntaxNode>, k: int)
    requires
        0 <= k < children.len(),
        spec_named_count(children, k) == 0,
        children[k].named,
    ensures
        spec_first_named(children, 0) <= k,
    decreases k,
{
    lemma_first_named_bounds(children, 0);
    if spec_first_named(children, 0) > k {
        assert(!children[k].named);
    }
}

/// The ledger after the first `k` named statements of a body: the payload
/// names bound and the assertion roots read, or `None` once a statement
/// is neither a fresh payload binding nor a qualifying assertion.
/// Statements outside `range`, and docstrings, are passed over.
pub open spec fn spec_ledger(children: Seq<SyntaxNode>, k: int, range: ByteRange, source: Seq<u8>) -> Option<(Seq<Seq<u8>>, Seq<Seq<u8>>)>
    decreases k,
{
    if k <= 0 || k > children.len() {
        Some((seq![], seq![]))
    } else {
        match spec_ledger(children, k - 1, range, source) {
            None => None,
            Some((payloads, roots)) => {
                let statement = children[k - 1];
                if !statement.named || !spec_intersects(statement, range) || spec_is_docstring_statement(statement) {
                    Some((payloads, roots))
                } else {
                    match spec_literal_payload_binding(statement, source) {
                        Some(name) => if payloads.contains(name) { None } else { Some((payloads.push(name), roots)) },
                        None => match spec_chained_dict_assert_root(statement, source) {
                            Some(root) => Some((payloads, roots.push(root))),
                            None => None,
                        },
                    }
                }
            },
        }
    }
}

/// Every assertion root resolves to a payload and every payload is read,
/// or no payload was in range at all.
pub open spec fn spec_ledger_balances(payloads: Seq<Seq<u8>>, roots: Seq<Seq<u8>>) -> bool {
    payloads.len() == 0 || ((forall|i: int| 0 <= i < roots.len() ==> payloads.contains(#[trigger] roots[i]))
        && (forall|i: int| 0 <= i < payloads.len() ==> roots.contains(#[trigger] payloads[i])))
}

/// A function body within `range` is a closed chained-dict idiom: payload
/// dictionaries, the assertions that consume them, and nothing else.
pub open spec fn spec_body_is_closed_idiom(body: SyntaxNode, range: ByteRange, source: Seq<u8>) -> bool {
    match spec_ledger(body.children@, body.children@.len() as int, range, source) {
        Some((payloads, roots)) => roots.len() > 0 && spec_ledger_balances(payloads, roots),
        None => false,
    }
}


/// Returns true when every assertion root resolves to a recorded payload
/// and every payload was consumed, or no payload was in range at all.
pub fn ledger_balances(payloads: &Vec<&[u8]>, roots: &Vec<&[u8]>) -> (balanced: bool)
    ensures
        balanced == spec_ledger_balances(slices_view(payloads@), slices_view(roots@)),
{
    let ghost pv = slices_view(payloads@);
    let ghost rv = slices_view(roots@);
    if payloads.len() == 0 {
        return true;
    }
    let mut index: usize = 0;
    while index < roots.len()
        invariant
            index <= roots@.len(),
            pv == slices_view(payloads@),
            rv == slices_view(roots@),
            rv.len() == roots@.len(),
            pv.len() == payloads@.len(),
            pv.len() > 0,
            forall|i: int| 0 <= i < index ==> pv.contains(#[trigger] rv[i]),
        decreases roots@.len() - index,
    {
        assert(rv[index as int] == roots@[index as int]@);
        if !slice_listed(payloads, roots[index]) {
            assert(!pv.contains(rv[index as int]));
            return false;
        }
        index = index + 1;
    }
    let mut index: usize = 0;
    while index < payloads.len()
        invariant
            index <= payloads@.len(),
            pv == slices_view(payloads@),
            rv == slices_view(roots@),
            pv.len() == payloads@.len(),
            pv.len() > 0,
            forall|i: int| 0 <= i < rv.len() ==> pv.contains(#[trigger] rv[i]),
            forall|i: int| 0 <= i < index ==> rv.contains(#[trigger] pv[i]),
        decreases payloads@.len() - index,
    {
        assert(pv[index as int] == payloads@[index as int]@);
        if !slice_listed(roots, payloads[index]) {
            assert(!rv.contains(pv[index as int]));
            return false;
        }
        index = index + 1;
    }
    true
}

proof fn lemma_ledger_stop(children: Seq<SyntaxNode>, k: int, n: int, range: ByteRange, source: Seq<u8>)
    requires
        0 < k <= n <= children.len(),
        spec_ledger(children, k, range, source) is None,
    ensures
        spec_ledger(children, n, range, source) is None,
    decreases n - k,
{
    if k < n {
        lemma_ledger_stop(children, k, n - 1, range, source);
    }
}

/// Files every in-range statement of `body` into the payload-and-assertion
/// ledger; true when each is accounted for, an assertion is present, and
/// the ledger balances.
pub fn body_is_closed_idiom(body: &SyntaxNode, range: ByteRange, source: &[u8]) -> (closed: bool)
    ensures
        closed == spec_body_is_closed_idiom(*body, range, source@),
{
    let mut payloads: Vec<&[u8]> = Vec::new();
    let mut roots: Vec<&[u8]> = Vec::new();
    let mut index: usize = 0;
    while index < body.children.len()
        invariant
            index <= body.children@.len(),
            spec_ledger(body.children@, index as int, range, source@) == Some((slices_view(payloads@), slices_view(roots@))),
        decreases body.children@.len() - index,
    {
        let statement = &body.children[index];
        if statement.named && node_intersects_range(statement, range) && !is_docstring_statement(statement) {
            match literal_payload_binding(statement, source) {
                Some(name) => {
                    if slice_listed(&payloads, name) {
                        proof {
                            lemma_ledger_stop(body.children@, index as int + 1, body.children@.len() as int, range, source@);
                        }
                        return false;
                    }
                    let ghost before = slices_view(payloads@);
                    payloads.push(name);
                    assert(slices_view(payloads@) =~= before.push(name@));
                },
                None => match chained_dict_assert_root(statement, source) {
                    Some(root) => {
                        let ghost before = slices_view(roots@);
                        roots.push(root);
                        assert(slices_view(roots@) =~= before.push(root@));
                    },
                    None => {
                        proof {
                            lemma_ledger_stop(body.children@, index as int + 1, body.children@.len() as int, range, source@);
                        }
                        return false;
                    },
                },
            }
        }
        index = index + 1;
    }
    roots.len() > 0 && ledger_balances(&payloads, &roots)
}

/// A pytest `test_*` function whose body, within `range`, is a closed
/// chained-dict idiom.
pub open spec fn spec_function_is_chained_dict_test(function: SyntaxNode, range: ByteRange, source: Seq<u8>) -> bool {
    spec_name_starts_with(function, source, test_prefix()) && match spec_child_by_field(function, "body"@) {
        Some(body) => spec_body_is_closed_idiom(body, range, source),
        None => false,
    }
}

/// Returns true for a pytest `test_*` function whose body, within `range`,
/// is a closed chained-dict idiom.
pub fn function_is_chained_dict_test(function: &SyntaxNode, range: ByteRange, source: &[u8]) -> (idiom: bool)
    ensures
        idiom == spec_function_is_chained_dict_test(*function, range, source@),
{
    let prefix: [u8; 5] = [116, 101, 115, 116, 95];
    assert(prefix@ =~= test_prefix());
    python_function_name_starts_with(function, source, &prefix) && match child_by_field_name(function, "body") {
        Some(body) => body_is_closed_idiom(body, range, source),
        None => false,
    }
}

/// Every `function_definition` whose bytes overlap `range`, in order: the
/// function enclosing a statement-level range, and those inside a wider one.
pub open spec fn spec_intersecting_functions(node: SyntaxNode, range: ByteRange) -> Seq<SyntaxNode>
    decreases node, 1int,
{
    if !spec_intersects(node, range) {
        seq![]
    } else {
        let here: Seq<SyntaxNode> = if node.kind@ == "function_definition"@ { seq![node] } else { seq![] };
        here + spec_children_functions(node.children@, node.children@.len() as int, range)
    }
}

/// The intersecting functions under the first `k` named children.
pub open spec fn spec_children_functions(children: Seq<SyntaxNode>, k: int, range: ByteRange) -> Seq<SyntaxNode>
    decreases children, k,
{
    if k <= 0 || k > children.len() {
        seq![]
    } else {
        let before = spec_children_functions(children, k - 1, range);
        if children[k - 1].named { before + spec_intersecting_functions(children[k - 1], range) } else { before }
    }
}

/// Collects every `function_definition` whose bytes overlap `range`.
pub fn collect_intersecting_functions<'t>(node: &'t SyntaxNode, range: ByteRange, out: &mut Vec<&'t SyntaxNode>)
    ensures
        nodes_view(final(out)@) == nodes_view(old(out)@) + spec_intersecting_functions(*node, range),
    decreases *node,
{
    let ghost start = nodes_view(out@);
    if !node_intersects_range(node, range) {
        assert(nodes_view(out@) =~= start + Seq::<SyntaxNode>::empty());
        return;
    }
    if same_text(node.kind.as_str(), "function_definition") {
        out.push(node);
    }
    let ghost prefix = nodes_view(out@);
    assert(prefix =~= start + (if node.kind@ == "function_definition"@ { seq![*node] } else { Seq::<SyntaxNode>::empty() }));
    let mut index: usize = 0;
    while index < node.children.len()
        invariant
            index <= node.children@.len(),
            nodes_view(out@) == prefix + spec_children_functions(node.children@, index as int, range),
        decreases node.children@.len() - index,
    {
        let child = &node.children[index];
        assert(decreases_to!(*node => node.children@[index as int]));
        if child.named {
            collect_intersecting_functions(child, range, out);
        }
        assert(nodes_view(out@) =~= prefix + spec_children_functions(node.children@, index as int + 1, range));
        index = index + 1;
    }
}

/// `a.b.c`: identifiers joined by attribute access, nothing else.
pub open spec fn spec_is_dotted_name(node: SyntaxNode) -> bool
    decreases node, 1int,
{
    if node.kind@ == "identifier"@ {
        true
    } else if node.kind@ == "attribute"@ {
        spec_children_dotted(node.children@, node.children@.len() as int)
    } else {
        false
    }
}

/// Every one of the first `k` named children is a dotted name.
pub open spec fn spec_children_dotted(children: Seq<SyntaxNode>, k: int) -> bool
    decreases children, k,
{
    if k <= 0 || k > children.len() {
        true
    } else {
        spec_children_dotted(children, k - 1) && (!children[k - 1].named || spec_is_dotted_name(children[k - 1]))
    }
}

proof fn lemma_dotted_stop(children: Seq<SyntaxNode>, k: int, n: int)
    requires
        0 < k <= n <= children.len(),
        !spec_children_dotted(children, k),
    ensures
        !spec_children_dotted(children, n),
    decreases n - k,
{
    if k < n {
        lemma_dotted_stop(children, k, n - 1);
    }
}

/// Returns true for identifiers joined by attribute access.
pub fn is_dotted_name(node: &SyntaxNode) -> (dotted: bool)
    ensures
        dotted == spec_is_dotted_name(*node),
    decreases *node,
{
    if same_text(node.kind.as_str(), "identifier") {
        return true;
    }
    if !same_text(node.kind.as_str(), "attribute") {
        return false;
    }
    let mut index: usize = 0;
    while index < node.children.len()
        invariant
            index <= node.children@.len(),
            node.kind@ == "attribute"@,
            node.kind@ != "identifier"@,
            spec_children_dotted(node.children@, index as int),
        decreases node.children@.len() - index,
    {
        let child = &node.children[index];
        assert(decreases_to!(*node => node.children@[index as int]));
        if child.named && !is_dotted_name(child) {
            proof {
                lemma_dotted_stop(node.children@, index as int + 1, node.children@.len() as int);
            }
            return false;
        }
        index = index + 1;
    }
    true
}

/// One decorator argument: a keyword's value, or the expression itself,
/// is static data.
pub open spec fn spec_decorator_argument_is_static(argument: SyntaxNode) -> bool {
    if argument.kind@ == "keyword_argument"@ {
        match spec_child_by_field(argument, "value"@) {
            Some(value) => spec_is_static_data(value),
            None => false,
        }
    } else {
        spec_is_static_data(argument)
    }
}

/// Whether a decorator argument is static data.
pub fn decorator_argument_is_static(argument: &SyntaxNode) -> (data: bool)
    ensures
        data == spec_decorator_argument_is_static(*argument),
{
    if same_text(argument.kind.as_str(), "keyword_argument") {
        return match child_by_field_name(argument, "value") {
            Some(value) => is_static_data(value),
            None => false,
        };
    }
    is_static_data(argument)
}

/// A decorator call on a dotted name whose every argument is static.
pub open spec fn spec_call_is_static_decorator(call: SyntaxNode) -> bool {
    &&& match spec_child_by_field(call, "function"@) {
        Some(function) => spec_is_dotted_name(function),
        None => false,
    }
    &&& match spec_child_by_field(call, "arguments"@) {
        Some(arguments) => forall|i: int| 0 <= i < arguments.children@.len() && (#[trigger] arguments.children@[i]).named
            ==> spec_decorator_argument_is_static(arguments.children@[i]),
        None => false,
    }
}

/// A decorator call is static when its callee is a dotted name and every
/// argument, positional or keyword, is static data.
pub fn call_is_static_decorator(call: &SyntaxNode) -> (data: bool)
    ensures
        data == spec_call_is_static_decorator(*call),
{
    let callee_is_dotted = match child_by_field_name(call, "function") {
        Some(function) => is_dotted_name(function),
        None => false,
    };
    let arguments = match child_by_field_name(call, "arguments") {
        Some(arguments) => arguments,
        None => return false,
    };
    let mut all_static = true;
    let mut index: usize = 0;
    while index < arguments.children.len()
        invariant
            index <= arguments.children@.len(),
            all_static == forall|i: int| 0 <= i < index && (#[trigger] arguments.children@[i]).named
                ==> spec_decorator_argument_is_static(arguments.children@[i]),
        decreases arguments.children@.len() - index,
    {
        let child = &arguments.children[index];
        if child.named && !decorator_argument_is_static(child) {
            all_static = false;
        }
        index = index + 1;
    }
    callee_is_dotted && all_static
}

/// A decorator expression: a dotted name, or a static-argument call.
pub open spec fn spec_decorator_expression_is_static(expression: SyntaxNode) -> bool {
    if expression.kind@ == "identifier"@ || expression.kind@ == "attribute"@ {
        spec_is_dotted_name(expression)
    } else if expression.kind@ == "call"@ {
        spec_call_is_static_decorator(expression)
    } else {
        false
    }
}

/// Whether a decorator expression is a dotted name or a static call.
pub fn decorator_expression_is_static(expression: &SyntaxNode) -> (data: bool)
    ensures
        data == spec_decorator_expression_is_static(*expression),
{
    if same_text(expression.kind.as_str(), "identifier") || same_text(expression.kind.as_str(), "attribute") {
        is_dotted_name(expression)
    } else if same_text(expression.kind.as_str(), "call") {
        call_is_static_decorator(expression)
    } else {
        false
    }
}

/// Every decorator of a definition holds only static expressions.
pub open spec fn spec_decorators_are_static(definition: SyntaxNode) -> bool {
    forall|i: int| 0 <= i < definition.children@.len() && (#[trigger] definition.children@[i]).named
        && definition.children@[i].kind@ == "decorator"@ ==> {
        let decorator = definition.children@[i];
        forall|j: int| 0 <= j < decorator.children@.len() && (#[trigger] decorator.children@[j]).named
            ==> spec_decorator_expression_is_static(decorator.children@[j])
    }
}

/// Whether every named child of a decorator is a static expression.
fn decorator_is_static(decorator: &SyntaxNode) -> (data: bool)
    ensures
        data == forall|j: int| 0 <= j < decorator.children@.len() && (#[trigger] decorator.children@[j]).named
            ==> spec_decorator_expression_is_static(decorator.children@[j]),
{
    let mut index: usize = 0;
    while index < decorator.children.len()
        invariant
            index <= decorator.children@.len(),
            forall|j: int| 0 <= j < index && (#[trigger] decorator.children@[j]).named
                ==> spec_decorator_expression_is_static(decorator.children@[j]),
        decreases decorator.children@.len() - index,
    {
        let child = &decorator.children[index];
        if child.named && !decorator_expression_is_static(child) {
            return false;
        }
        index = index + 1;
    }
    true
}

/// Returns true when every decorator on the definition is proven
/// non-executable beyond decoration itself.
pub fn decorators_are_static(definition: &SyntaxNode) -> (data: bool)
    ensures
        data == spec_decorators_are_static(*definition),
{
    let mut index: usize = 0;
    while index < definition.children.len()
        invariant
            index <= definition.children@.len(),
            forall|i: int| 0 <= i < index && (#[trigger] definition.children@[i]).named
                && definition.children@[i].kind@ == "decorator"@ ==> {
                let decorator = definition.children@[i];
                forall|j: int| 0 <= j < decorator.children@.len() && (#[trigger] decorator.children@[j]).named
                    ==> spec_decorator_expression_is_static(decorator.children@[j])
            },
        decreases definition.children@.len() - index,
    {
        let child = &definition.children[index];
        if child.named && same_text(child.kind.as_str(), "decorator") && !decorator_is_static(child) {
            return false;
        }
        index = index + 1;
    }
    true
}

/// What a decorated definition decorates is a function.
pub open spec fn spec_decorates_a_function(definition: SyntaxNode) -> bool {
    match spec_child_by_field(definition, "definition"@) {
        Some(inner) => inner.kind@ == "function_definition"@,
        None => false,
    }
}

/// Returns true when what the decorators decorate is a function: a
/// decorated class body executes at import time where no test walk reads.
pub fn decorates_a_function(definition: &SyntaxNode) -> (function: bool)
    ensures
        function == spec_decorates_a_function(*definition),
{
    match child_by_field_name(definition, "definition") {
        Some(inner) => same_text(inner.kind.as_str(), "function_definition"),
        None => false,
    }
}

/// A module-level statement within the idiom's scope: a test function, an
/// import, a comment, a statically decorated function, or a docstring.
pub open spec fn spec_module_statement_in_scope(child: SyntaxNode) -> bool {
    let kind = child.kind@;
    if kind == "function_definition"@ || kind == "import_statement"@ || kind == "import_from_statement"@
        || kind == "future_import_statement"@ || kind == "comment"@ {
        true
    } else if kind == "decorated_definition"@ {
        spec_decorates_a_function(child) && spec_decorators_are_static(child)
    } else if kind == "expression_statement"@ {
        spec_is_docstring_statement(child)
    } else {
        false
    }
}

/// Every module-level statement the range covers belongs to the idiom's
/// scope.
pub open spec fn spec_module_scope_is_idiom_only(root: SyntaxNode, range: ByteRange) -> bool {
    forall|i: int| 0 <= i < root.children@.len() && (#[trigger] root.children@[i]).named && spec_intersects(root.children@[i], range)
        ==> spec_module_statement_in_scope(root.children@[i])
}

fn module_statement_in_scope(child: &SyntaxNode) -> (in_scope: bool)
    ensures
        in_scope == spec_module_statement_in_scope(*child),
{
    let kind = child.kind.as_str();
    if same_text(kind, "function_definition") || same_text(kind, "import_statement") || same_text(kind, "import_from_statement")
        || same_text(kind, "future_import_statement") || same_text(kind, "comment") {
        true
    } else if same_text(kind, "decorated_definition") {
        decorates_a_function(child) && decorators_are_static(child)
    } else if same_text(kind, "expression_statement") {
        is_docstring_statement(child)
    } else {
        false
    }
}

/// Returns true when every module-level statement the range covers is a
/// test function, an import, a comment, a docstring, or a statically
/// decorated function: module-level logic fails open and stays visible.
pub fn module_scope_is_idiom_only(root: &SyntaxNode, range: ByteRange) -> (idiom: bool)
    ensures
        idiom == spec_module_scope_is_idiom_only(*root, range),
{
    let mut index: usize = 0;
    while index < root.children.len()
        invariant
            index <= root.children@.len(),
            forall|i: int| 0 <= i < index && (#[trigger] root.children@[i]).named && spec_intersects(root.children@[i], range)
                ==> spec_module_statement_in_scope(root.children@[i]),
        decreases root.children@.len() - index,
    {
        let child = &root.children[index];
        if child.named && node_intersects_range(child, range) && !module_statement_in_scope(child) {
            return false;
        }
        index = index + 1;
    }
    true
}

/// Whether every `test_*` function a member's range touches asserts only
/// chained-subscript lookups over literal payloads, the range touches at
/// least one, and module scope holds nothing else, in its parsed file.
pub open spec fn spec_is_chained_dict_assert_snippet(snippet: SnippetView) -> bool {
    match spec_plugin_parse(snippet.language, snippet.source) {
        None => false,
        Some(tree) => match spec_trimmed_range_of(snippet) {
            None => false,
            Some(range) => {
                let functions = spec_intersecting_functions(tree, range);
                &&& spec_module_scope_is_idiom_only(tree, range)
                &&& functions.len() > 0
                &&& forall|i: int| 0 <= i < functions.len()
                    ==> spec_function_is_chained_dict_test(#[trigger] functions[i], range, snippet.source)
            },
        },
    }
}

/// Returns true when every `test_*` function the reported range touches
/// asserts only chained-subscript lookups over literal payloads.
#[verifier::loop_isolation(false)]
pub fn is_chained_dict_assert_snippet(snippet: &Snippet) -> (idiom: bool)
    ensures
        idiom == spec_is_chained_dict_assert_snippet(snippet@),
{
    let tree = match parse_snippet(snippet) {
        Some(tree) => tree,
        None => return false,
    };
    assert(super::spec_trimmed_range(*snippet) == spec_trimmed_range_of(snippet@));
    let range = match trimmed_snippet_range(snippet) {
        Some(range) => range,
        None => return false,
    };
    if !module_scope_is_idiom_only(&tree, range) {
        return false;
    }
    let mut functions: Vec<&SyntaxNode> = Vec::new();
    collect_intersecting_functions(&tree, range, &mut functions);
    let ghost found = nodes_view(functions@);
    assert(found =~= spec_intersecting_functions(tree, range));
    if functions.len() == 0 {
        return false;
    }
    let mut index: usize = 0;
    while index < functions.len()
        invariant
            index <= functions@.len(),
            found.len() == functions@.len(),
            forall|i: int| 0 <= i < index ==> spec_function_is_chained_dict_test(#[trigger] found[i], range, snippet.source@),
        decreases functions@.len() - index,
    {
        assert(found[index as int] == *functions@[index as int]);
        if !function_is_chained_dict_test(functions[index], range, snippet.source) {
            return false;
        }
        index = index + 1;
    }
    true
}

/// A multi-member Python cluster whose members differ in raw bytes and
/// are all the chained-dict idiom.
pub open spec fn spec_is_chained_dict_assert_cluster(snippets: Seq<Snippet>) -> bool {
    &&& spec_is_multi_member_language_cluster(snippets, "python"@)
    &&& spec_raw_texts_differ_views(snippets_view(snippets))
    &&& forall|k: int| 0 <= k < snippets.len() ==> spec_is_chained_dict_assert_snippet(#[trigger] snippets[k]@)
}

/// The chained `assert <var>[k1][k2] == V` idiom across pytest test
/// functions; members whose reported bytes are all identical are a
/// verbatim copy and stay visible.
pub fn is_chained_dict_assert_cluster(snippets: &[Snippet]) -> (idiom: bool)
    ensures
        idiom == spec_is_chained_dict_assert_cluster(snippets@),
{
    if !is_multi_member_language_cluster(snippets, "python") || !raw_texts_differ(snippets) {
        return false;
    }
    let mut k: usize = 0;
    while k < snippets.len()
        invariant
            k <= snippets@.len(),
            spec_is_multi_member_language_cluster(snippets@, "python"@),
            spec_raw_texts_differ_views(snippets_view(snippets@)),
            forall|m: int| 0 <= m < k ==> spec_is_chained_dict_assert_snippet(#[trigger] snippets@[m]@),
        decreases snippets@.len() - k,
    {
        if !is_chained_dict_assert_snippet(&snippets[k]) {
            return false;
        }
        k = k + 1;
    }
    true
}

} // verus!
