//! Python class shapes fixed by a framework rather than by the program:
//! `StrEnum` discriminators (a docstring plus member assignments) and
//! Pydantic partial-update mirrors (every field `T | None = None`).

use vstd::prelude::*;

use super::node_search::{deref_node, enclosing_kind, span_is, spec_enclosing_in, spec_span};
use super::override_marker::{child_by_field_name, spec_child_by_field};
use super::python::{spec_first_kind_any, spec_trimmed_range_of};
use super::snippets::{parse_snippet, snippets_view, spec_plugin_parse, Snippet, SnippetView};
use super::{is_multi_member_language_cluster, kinds_view, spec_is_multi_member_language_cluster, trimmed_snippet_range, SyntaxNode};
use crate::ast::ByteRange;
use crate::text::same_text;

verus! {

/// The bytes of `StrEnum`.
pub open spec fn spec_strenum() -> Seq<u8> {
    seq![83u8, 116, 114, 69, 110, 117, 109]
}

/// The bytes of `str`.
pub open spec fn spec_str_name() -> Seq<u8> {
    seq![115u8, 116, 114]
}

/// The bytes of `Enum`.
pub open spec fn spec_enum_name() -> Seq<u8> {
    seq![69u8, 110, 117, 109]
}

/// The bytes of `BaseModel`.
pub open spec fn spec_base_model() -> Seq<u8> {
    seq![66u8, 97, 115, 101, 77, 111, 100, 101, 108]
}

/// The bytes of `None`.
pub open spec fn spec_none_name() -> Seq<u8> {
    seq![78u8, 111, 110, 101]
}

/// The bytes of `Optional`.
pub open spec fn spec_optional_name() -> Seq<u8> {
    seq![79u8, 112, 116, 105, 111, 110, 97, 108]
}

/// The bytes of `|`.
pub open spec fn spec_union_bar() -> Seq<u8> {
    seq![124u8]
}

/// The bytes of `StrEnum`.
fn strenum() -> (bytes: [u8; 7])
    ensures
        bytes@ == spec_strenum(),
{
    let bytes: [u8; 7] = [83, 116, 114, 69, 110, 117, 109];
    assert(bytes@ =~= spec_strenum());
    bytes
}

/// The bytes of `str`.
fn str_name() -> (bytes: [u8; 3])
    ensures
        bytes@ == spec_str_name(),
{
    let bytes: [u8; 3] = [115, 116, 114];
    assert(bytes@ =~= spec_str_name());
    bytes
}

/// The bytes of `Enum`.
fn enum_name() -> (bytes: [u8; 4])
    ensures
        bytes@ == spec_enum_name(),
{
    let bytes: [u8; 4] = [69, 110, 117, 109];
    assert(bytes@ =~= spec_enum_name());
    bytes
}

/// The bytes of `BaseModel`.
fn base_model() -> (bytes: [u8; 9])
    ensures
        bytes@ == spec_base_model(),
{
    let bytes: [u8; 9] = [66, 97, 115, 101, 77, 111, 100, 101, 108];
    assert(bytes@ =~= spec_base_model());
    bytes
}

/// The bytes of `None`.
fn none_name() -> (bytes: [u8; 4])
    ensures
        bytes@ == spec_none_name(),
{
    let bytes: [u8; 4] = [78, 111, 110, 101];
    assert(bytes@ =~= spec_none_name());
    bytes
}

/// The bytes of `Optional`.
fn optional_name() -> (bytes: [u8; 8])
    ensures
        bytes@ == spec_optional_name(),
{
    let bytes: [u8; 8] = [79, 112, 116, 105, 111, 110, 97, 108];
    assert(bytes@ =~= spec_optional_name());
    bytes
}

/// The bytes of `|`.
fn union_bar() -> (bytes: [u8; 1])
    ensures
        bytes@ == spec_union_bar(),
{
    let bytes: [u8; 1] = [124];
    assert(bytes@ =~= spec_union_bar());
    bytes
}

/// The first named child of `node`.
fn first_named_child<'a>(node: &'a SyntaxNode) -> (child: Option<&'a SyntaxNode>)
    ensures
        deref_node(child) == spec_first_kind_any(node.children@, 0),
{
    let mut index: usize = 0;
    while index < node.children.len()
        invariant
            index <= node.children@.len(),
            spec_first_kind_any(node.children@, 0) == spec_first_kind_any(node.children@, index as int),
        decreases node.children@.len() - index,
    {
        if node.children[index].named {
            return Some(&node.children[index]);
        }
        index = index + 1;
    }
    None
}

/// The innermost `class_definition` whose span contains `range`, searching
/// the first enclosing child first.
pub open spec fn spec_enclosing_class(node: SyntaxNode, range: ByteRange) -> Option<SyntaxNode>
    decreases node, 1int,
{
    if node.start_byte > range.start || node.end_byte < range.end {
        None
    } else {
        match spec_enclosing_class_children(node.children@, 0, range) {
            Some(found) => Some(found),
            None => if node.kind@ == "class_definition"@ { Some(node) } else { None },
        }
    }
}

/// The first answer among the named children from position `k` on.
pub open spec fn spec_enclosing_class_children(children: Seq<SyntaxNode>, k: int, range: ByteRange) -> Option<SyntaxNode>
    decreases children, children.len() - k,
{
    if k < 0 || k >= children.len() {
        None
    } else {
        let here = if children[k].named { spec_enclosing_class(children[k], range) } else { None };
        match here {
            Some(found) => Some(found),
            None => spec_enclosing_class_children(children, k + 1, range),
        }
    }
}

/// The innermost `class_definition` whose span contains `range`: a member
/// window inside a class is the same class seen narrower.
pub fn enclosing_class<'a>(node: &'a SyntaxNode, range: ByteRange) -> (class: Option<&'a SyntaxNode>)
    ensures
        deref_node(class) == spec_enclosing_class(*node, range),
    decreases *node,
{
    if node.start_byte > range.start || node.end_byte < range.end {
        return None;
    }
    let mut index: usize = 0;
    while index < node.children.len()
        invariant
            index <= node.children@.len(),
            node.start_byte <= range.start && node.end_byte >= range.end,
            spec_enclosing_class_children(node.children@, 0, range) == spec_enclosing_class_children(node.children@, index as int, range),
        decreases node.children@.len() - index,
    {
        let child = &node.children[index];
        assert(decreases_to!(*node => node.children@[index as int]));
        if child.named {
            match enclosing_class(child, range) {
                Some(found) => return Some(found),
                None => {},
            }
        }
        index = index + 1;
    }
    if same_text(node.kind.as_str(), "class_definition") { Some(node) } else { None }
}

/// The `class_definition` nodes lying wholly inside `range` under `node`;
/// descent stops at a class, so nested classes are not counted twice.
pub open spec fn spec_classes_in_range(node: SyntaxNode, range: ByteRange) -> Seq<SyntaxNode>
    decreases node, 1int,
{
    if node.end_byte <= range.start || node.start_byte >= range.end {
        seq![]
    } else if node.kind@ == "class_definition"@ && node.start_byte >= range.start && node.end_byte <= range.end {
        seq![node]
    } else {
        spec_children_classes(node.children@, node.children@.len() as int, range)
    }
}

/// The classes under the first `k` named children.
pub open spec fn spec_children_classes(children: Seq<SyntaxNode>, k: int, range: ByteRange) -> Seq<SyntaxNode>
    decreases children, k,
{
    if k <= 0 || k > children.len() {
        seq![]
    } else {
        let before = spec_children_classes(children, k - 1, range);
        if children[k - 1].named { before + spec_classes_in_range(children[k - 1], range) } else { before }
    }
}

/// Appends the `class_definition` nodes fully contained in `range`.
pub fn collect_classes_in_range<'t>(node: &'t SyntaxNode, range: ByteRange, out: &mut Vec<&'t SyntaxNode>)
    ensures
        super::node_search::nodes_view(final(out)@) == super::node_search::nodes_view(old(out)@) + spec_classes_in_range(*node, range),
    decreases *node,
{
    let ghost start = super::node_search::nodes_view(out@);
    if node.end_byte <= range.start || node.start_byte >= range.end {
        assert(super::node_search::nodes_view(out@) =~= start + Seq::<SyntaxNode>::empty());
        return;
    }
    if same_text(node.kind.as_str(), "class_definition") && node.start_byte >= range.start && node.end_byte <= range.end {
        out.push(node);
        assert(super::node_search::nodes_view(out@) =~= start + seq![*node]);
        return;
    }
    let mut index: usize = 0;
    while index < node.children.len()
        invariant
            index <= node.children@.len(),
            super::node_search::nodes_view(out@) == start + spec_children_classes(node.children@, index as int, range),
        decreases node.children@.len() - index,
    {
        let child = &node.children[index];
        assert(decreases_to!(*node => node.children@[index as int]));
        if child.named {
            collect_classes_in_range(child, range, out);
        }
        assert(super::node_search::nodes_view(out@) =~= start + spec_children_classes(node.children@, index as int + 1, range));
        index = index + 1;
    }
}

/// Every `class_definition` fully enclosed by `range`.
pub fn classes_in_range<'t>(root: &'t SyntaxNode, range: ByteRange) -> (classes: Vec<&'t SyntaxNode>)
    ensures
        super::node_search::nodes_view(classes@) == spec_classes_in_range(*root, range),
{
    let mut classes: Vec<&'t SyntaxNode> = Vec::new();
    collect_classes_in_range(root, range, &mut classes);
    assert(super::node_search::nodes_view(classes@) =~= spec_classes_in_range(*root, range));
    classes
}

/// The bytes of a bare identifier.
pub open spec fn spec_identifier_bytes(node: SyntaxNode, source: Seq<u8>) -> Option<Seq<u8>> {
    if node.kind@ == "identifier"@ { spec_span(source, node.start_byte, node.end_byte) } else { None }
}

/// Whether some named child among the first `k` is the identifier `name`.
pub open spec fn spec_names_base(children: Seq<SyntaxNode>, k: int, source: Seq<u8>, name: Seq<u8>) -> bool {
    exists|i: int| 0 <= i < k && i < children.len() && (#[trigger] children[i]).named
        && spec_identifier_bytes(children[i], source) == Some(name)
}

/// Whether a class lists `StrEnum`, or both `str` and `Enum`, among its
/// superclasses.
pub open spec fn spec_class_has_strenum_base(class: SyntaxNode, source: Seq<u8>) -> bool {
    match spec_child_by_field(class, "superclasses"@) {
        None => false,
        Some(supers) => {
            let n = supers.children@.len() as int;
            spec_names_base(supers.children@, n, source, spec_strenum())
                || (spec_names_base(supers.children@, n, source, spec_str_name())
                    && spec_names_base(supers.children@, n, source, spec_enum_name()))
        },
    }
}

/// Whether `node` is the identifier `name`.
fn identifier_is(node: &SyntaxNode, source: &[u8], name: &[u8]) -> (same: bool)
    ensures
        same == (spec_identifier_bytes(*node, source@) == Some(name@)),
{
    same_text(node.kind.as_str(), "identifier") && span_is(source, node.start_byte, node.end_byte, name)
}

/// Returns true when the class's superclasses hold `StrEnum`, or the pair
/// `str` and `Enum`.
pub fn class_has_strenum_base(class: &SyntaxNode, source: &[u8]) -> (strenum: bool)
    ensures
        strenum == spec_class_has_strenum_base(*class, source@),
{
    let supers = match child_by_field_name(class, "superclasses") {
        Some(supers) => supers,
        None => return false,
    };
    let strenum = strenum();
    let str_name = str_name();
    let enum_name = enum_name();
    let mut has_strenum = false;
    let mut has_str = false;
    let mut has_enum = false;
    let mut index: usize = 0;
    while index < supers.children.len()
        invariant
            index <= supers.children@.len(),
            strenum@ == spec_strenum(),
            str_name@ == spec_str_name(),
            enum_name@ == spec_enum_name(),
            has_strenum == spec_names_base(supers.children@, index as int, source@, spec_strenum()),
            has_str == spec_names_base(supers.children@, index as int, source@, spec_str_name()),
            has_enum == spec_names_base(supers.children@, index as int, source@, spec_enum_name()),
        decreases supers.children@.len() - index,
    {
        let child = &supers.children[index];
        if child.named {
            if identifier_is(child, source, &strenum) {
                has_strenum = true;
            }
            if identifier_is(child, source, &str_name) {
                has_str = true;
            }
            if identifier_is(child, source, &enum_name) {
                has_enum = true;
            }
        }
        index = index + 1;
    }
    has_strenum || (has_str && has_enum)
}

/// The kind of the first named child of an `expression_statement`.
pub open spec fn spec_statement_inner_kind(node: SyntaxNode) -> Option<Seq<char>> {
    if node.kind@ != "expression_statement"@ {
        None
    } else {
        match spec_first_kind_any(node.children@, 0) {
            Some(inner) => Some(inner.kind@),
            None => None,
        }
    }
}

/// A class body of an optional docstring and member assignments, with at
/// least one assignment.
pub open spec fn spec_body_is_docstring_and_assignments(class: SyntaxNode) -> bool {
    match spec_child_by_field(class, "body"@) {
        None => false,
        Some(body) => {
            let children = body.children@;
            &&& forall|i: int| 0 <= i < children.len() && (#[trigger] children[i]).named ==>
                spec_statement_inner_kind(children[i]) == Some("string"@)
                    || spec_statement_inner_kind(children[i]) == Some("assignment"@)
            &&& exists|i: int| 0 <= i < children.len() && (#[trigger] children[i]).named
                && spec_statement_inner_kind(children[i]) == Some("assignment"@)
        },
    }
}

/// Returns true when the class body holds only a docstring and member
/// assignments, with at least one assignment.
pub fn class_body_is_docstring_and_assignments(class: &SyntaxNode) -> (shape: bool)
    ensures
        shape == spec_body_is_docstring_and_assignments(*class),
{
    let body = match child_by_field_name(class, "body") {
        Some(body) => body,
        None => return false,
    };
    let mut saw_assignment = false;
    let mut index: usize = 0;
    while index < body.children.len()
        invariant
            index <= body.children@.len(),
            spec_child_by_field(*class, "body"@) == Some(*body),
            forall|i: int| 0 <= i < index && (#[trigger] body.children@[i]).named ==>
                spec_statement_inner_kind(body.children@[i]) == Some("string"@)
                    || spec_statement_inner_kind(body.children@[i]) == Some("assignment"@),
            saw_assignment == exists|i: int| 0 <= i < index && (#[trigger] body.children@[i]).named
                && spec_statement_inner_kind(body.children@[i]) == Some("assignment"@),
        decreases body.children@.len() - index,
    {
        let child = &body.children[index];
        if child.named {
            if !same_text(child.kind.as_str(), "expression_statement") {
                return false;
            }
            let inner = match first_named_child(child) {
                Some(inner) => inner,
                None => return false,
            };
            if same_text(inner.kind.as_str(), "assignment") {
                saw_assignment = true;
            } else if !same_text(inner.kind.as_str(), "string") {
                return false;
            }
        }
        index = index + 1;
    }
    saw_assignment
}

/// A `StrEnum` class with a docstring-and-assignments body.
pub open spec fn spec_is_strenum_class(class: SyntaxNode, source: Seq<u8>) -> bool {
    spec_class_has_strenum_base(class, source) && spec_body_is_docstring_and_assignments(class)
}

/// The range a member is read over: its trimmed range, or the reported
/// one where trimming leaves nothing.
pub open spec fn spec_reading_range(snippet: SnippetView) -> ByteRange {
    match spec_trimmed_range_of(snippet) {
        Some(range) => range,
        None => snippet.range,
    }
}

/// Whether every class a member covers (or, covering none, the class it
/// sits in) is a `StrEnum` discriminator, in its parsed file.
pub open spec fn spec_strenum_in(tree: SyntaxNode, snippet: SnippetView) -> bool {
    let range = spec_reading_range(snippet);
    let classes = spec_classes_in_range(tree, range);
    if classes.len() == 0 {
        match spec_enclosing_class(tree, range) {
            Some(class) => spec_is_strenum_class(class, snippet.source),
            None => false,
        }
    } else {
        forall|i: int| 0 <= i < classes.len() ==> spec_is_strenum_class(#[trigger] classes[i], snippet.source)
    }
}

/// Whether a member is `StrEnum` scaffolding, read from its parsed file.
pub open spec fn spec_is_strenum_class_snippet(snippet: SnippetView) -> bool {
    match spec_plugin_parse(snippet.language, snippet.source) {
        Some(tree) => spec_strenum_in(tree, snippet),
        None => false,
    }
}

fn trimmed_or_reported(snippet: &Snippet) -> (range: ByteRange)
    ensures
        range == spec_reading_range(snippet@),
{
    assert(super::spec_trimmed_range(*snippet) == spec_trimmed_range_of(snippet@));
    match trimmed_snippet_range(snippet) {
        Some(range) => range,
        None => snippet.range,
    }
}

/// Returns true when every `class_definition` the snippet covers is a
/// `class X(StrEnum)` (or `class X(str, Enum)`) whose body is a docstring
/// and member assignments only: a module whose declarations are all
/// closed-discriminator enums is still enum scaffolding.
#[verifier::loop_isolation(false)]
pub fn is_strenum_class_snippet(snippet: &Snippet) -> (strenum: bool)
    ensures
        strenum == spec_is_strenum_class_snippet(snippet@),
{
    let tree = match parse_snippet(snippet) {
        Some(tree) => tree,
        None => return false,
    };
    let range = trimmed_or_reported(snippet);
    let classes = classes_in_range(&tree, range);
    let ghost cv = super::node_search::nodes_view(classes@);
    if classes.len() == 0 {
        return match enclosing_class(&tree, range) {
            Some(class) => class_has_strenum_base(class, snippet.source) && class_body_is_docstring_and_assignments(class),
            None => false,
        };
    }
    let mut index: usize = 0;
    while index < classes.len()
        invariant
            index <= classes@.len(),
            cv == super::node_search::nodes_view(classes@),
            cv.len() == classes@.len(),
            forall|i: int| 0 <= i < index ==> spec_is_strenum_class(#[trigger] cv[i], snippet.source@),
        decreases classes@.len() - index,
    {
        let class = classes[index];
        assert(cv[index as int] == *class);
        if !(class_has_strenum_base(class, snippet.source) && class_body_is_docstring_and_assignments(class)) {
            assert(!spec_is_strenum_class(cv[index as int], snippet.source@));
            assert(cv == spec_classes_in_range(tree, range));
            return false;
        }
        index = index + 1;
    }
    true
}

/// Every member of a multi-member Python cluster is `StrEnum` scaffolding.
pub open spec fn spec_is_strenum_class_shape_cluster(snippets: Seq<Snippet>) -> bool {
    spec_is_multi_member_language_cluster(snippets, "python"@)
        && forall|k: int| 0 <= k < snippets.len() ==> spec_is_strenum_class_snippet(#[trigger] snippets[k]@)
}

/// Every occurrence is a Python `StrEnum` declaration of a docstring and
/// member assignments: distinct enum vocabularies are not duplication.
pub fn is_strenum_class_shape_cluster(snippets: &[Snippet]) -> (strenum: bool)
    ensures
        strenum == spec_is_strenum_class_shape_cluster(snippets@),
{
    if !is_multi_member_language_cluster(snippets, "python") {
        return false;
    }
    let mut k: usize = 0;
    while k < snippets.len()
        invariant
            k <= snippets@.len(),
            spec_is_multi_member_language_cluster(snippets@, "python"@),
            forall|m: int| 0 <= m < k ==> spec_is_strenum_class_snippet(#[trigger] snippets@[m]@),
        decreases snippets@.len() - k,
    {
        if !is_strenum_class_snippet(&snippets[k]) {
            return false;
        }
        k = k + 1;
    }
    true
}

/// The bare `None`: the `none` node, or a node spelling `None`.
pub open spec fn spec_is_none_literal(node: SyntaxNode, source: Seq<u8>) -> bool {
    node.kind@ == "none"@ || spec_span(source, node.start_byte, node.end_byte) == Some(spec_none_name())
}

/// Returns true when `node` is the bare `None`.
pub fn is_none_literal(node: &SyntaxNode, source: &[u8]) -> (none: bool)
    ensures
        none == spec_is_none_literal(*node, source@),
{
    same_text(node.kind.as_str(), "none") || span_is(source, node.start_byte, node.end_byte, &none_name())
}

/// Whether one side of a union annotation is the `None` type.
pub open spec fn spec_side_is_none(side: Option<SyntaxNode>, source: Seq<u8>) -> bool {
    match side {
        Some(node) => spec_is_none_literal(node, source),
        None => false,
    }
}

/// A PEP 604 union `T | None` or `None | T`.
pub open spec fn spec_binary_union_has_none(node: SyntaxNode, source: Seq<u8>) -> bool {
    match spec_child_by_field(node, "operator"@) {
        None => false,
        Some(operator) => spec_span(source, operator.start_byte, operator.end_byte) == Some(spec_union_bar())
            && (spec_side_is_none(spec_child_by_field(node, "left"@), source)
                || spec_side_is_none(spec_child_by_field(node, "right"@), source)),
    }
}

/// Returns true for `T | None` (or `None | T`) unions.
pub fn binary_union_has_none(node: &SyntaxNode, source: &[u8]) -> (union_none: bool)
    ensures
        union_none == spec_binary_union_has_none(*node, source@),
{
    let operator = match child_by_field_name(node, "operator") {
        Some(operator) => operator,
        None => return false,
    };
    if !span_is(source, operator.start_byte, operator.end_byte, &union_bar()) {
        return false;
    }
    let left_none = match child_by_field_name(node, "left") {
        Some(left) => is_none_literal(left, source),
        None => false,
    };
    left_none || match child_by_field_name(node, "right") {
        Some(right) => is_none_literal(right, source),
        None => false,
    }
}

/// An annotation of the `T | None` or `Optional[T]` shape.
pub open spec fn spec_annotation_inner_is_optional(node: SyntaxNode, source: Seq<u8>) -> bool {
    if node.kind@ == "binary_operator"@ {
        spec_binary_union_has_none(node, source)
    } else if node.kind@ == "subscript"@ {
        match spec_child_by_field(node, "value"@) {
            Some(value) => spec_span(source, value.start_byte, value.end_byte) == Some(spec_optional_name()),
            None => false,
        }
    } else {
        false
    }
}

/// Inspects an annotation expression for the `T | None` / `Optional[T]`
/// shape.
pub fn annotation_inner_is_optional(node: &SyntaxNode, source: &[u8]) -> (optional: bool)
    ensures
        optional == spec_annotation_inner_is_optional(*node, source@),
{
    if same_text(node.kind.as_str(), "binary_operator") {
        return binary_union_has_none(node, source);
    }
    if same_text(node.kind.as_str(), "subscript") {
        return match child_by_field_name(node, "value") {
            Some(value) => span_is(source, value.start_byte, value.end_byte, &optional_name()),
            None => false,
        };
    }
    false
}

/// A `type` node whose first named child is an optional annotation.
pub open spec fn spec_type_is_optional(type_node: SyntaxNode, source: Seq<u8>) -> bool {
    match spec_first_kind_any(type_node.children@, 0) {
        Some(inner) => spec_annotation_inner_is_optional(inner, source),
        None => false,
    }
}

/// Returns true when `type_node` is `T | None`, `None | T` or `Optional[T]`.
pub fn type_is_optional_annotation(type_node: &SyntaxNode, source: &[u8]) -> (optional: bool)
    ensures
        optional == spec_type_is_optional(*type_node, source@),
{
    match first_named_child(type_node) {
        Some(inner) => annotation_inner_is_optional(inner, source),
        None => false,
    }
}

/// `name: T | None = None` or `name: Optional[T] = None`.
pub open spec fn spec_assignment_is_optional_field(assignment: SyntaxNode, source: Seq<u8>) -> bool {
    &&& match spec_child_by_field(assignment, "left"@) {
        Some(left) => left.kind@ == "identifier"@,
        None => false,
    }
    &&& match (spec_child_by_field(assignment, "type"@), spec_child_by_field(assignment, "right"@)) {
        (Some(type_node), Some(right)) => spec_is_none_literal(right, source) && spec_type_is_optional(type_node, source),
        _ => false,
    }
}

/// Returns true when `assignment` declares `name: T | None = None` or
/// `name: Optional[T] = None`.
pub fn assignment_is_optional_field(assignment: &SyntaxNode, source: &[u8]) -> (optional: bool)
    ensures
        optional == spec_assignment_is_optional_field(*assignment, source@),
{
    let left = match child_by_field_name(assignment, "left") {
        Some(left) => left,
        None => return false,
    };
    if !same_text(left.kind.as_str(), "identifier") {
        return false;
    }
    let type_node = match child_by_field_name(assignment, "type") {
        Some(type_node) => type_node,
        None => return false,
    };
    let right = match child_by_field_name(assignment, "right") {
        Some(right) => right,
        None => return false,
    };
    is_none_literal(right, source) && type_is_optional_annotation(type_node, source)
}

/// How one class-body statement reads: a docstring, an optional field, or
/// neither (`None`). The flag says whether it is a field.
pub open spec fn spec_optional_field_or_docstring(child: SyntaxNode, source: Seq<u8>) -> Option<bool> {
    if child.kind@ != "expression_statement"@ {
        None
    } else {
        match spec_first_kind_any(child.children@, 0) {
            None => None,
            Some(inner) => if inner.kind@ == "string"@ {
                Some(false)
            } else if inner.kind@ == "assignment"@ && spec_assignment_is_optional_field(inner, source) {
                Some(true)
            } else {
                None
            },
        }
    }
}

/// Every body statement is a docstring or an optional field, and at least
/// one is a field.
pub open spec fn spec_body_is_all_optional_fields(class: SyntaxNode, source: Seq<u8>) -> bool {
    match spec_child_by_field(class, "body"@) {
        None => false,
        Some(body) => {
            let children = body.children@;
            &&& forall|i: int| 0 <= i < children.len() && (#[trigger] children[i]).named
                ==> spec_optional_field_or_docstring(children[i], source) is Some
            &&& exists|i: int| 0 <= i < children.len() && (#[trigger] children[i]).named
                && spec_optional_field_or_docstring(children[i], source) == Some(true)
        },
    }
}

/// Reads one body statement: `None` when it is neither a docstring nor an
/// optional field, else whether it is a field.
pub fn child_is_optional_field_or_docstring(child: &SyntaxNode, source: &[u8]) -> (reading: Option<bool>)
    ensures
        reading == spec_optional_field_or_docstring(*child, source@),
{
    if !same_text(child.kind.as_str(), "expression_statement") {
        return None;
    }
    let inner = match first_named_child(child) {
        Some(inner) => inner,
        None => return None,
    };
    if same_text(inner.kind.as_str(), "string") {
        return Some(false);
    }
    if !same_text(inner.kind.as_str(), "assignment") || !assignment_is_optional_field(inner, source) {
        return None;
    }
    Some(true)
}

/// Returns true when every body statement is `field: T | None = None` (or
/// `Optional[T]`) or a docstring, with at least one such field.
pub fn class_body_is_all_optional_fields(class: &SyntaxNode, source: &[u8]) -> (optional: bool)
    ensures
        optional == spec_body_is_all_optional_fields(*class, source@),
{
    let body = match child_by_field_name(class, "body") {
        Some(body) => body,
        None => return false,
    };
    let mut saw_field = false;
    let mut index: usize = 0;
    while index < body.children.len()
        invariant
            index <= body.children@.len(),
            spec_child_by_field(*class, "body"@) == Some(*body),
            forall|i: int| 0 <= i < index && (#[trigger] body.children@[i]).named
                ==> spec_optional_field_or_docstring(body.children@[i], source@) is Some,
            saw_field == exists|i: int| 0 <= i < index && (#[trigger] body.children@[i]).named
                && spec_optional_field_or_docstring(body.children@[i], source@) == Some(true),
        decreases body.children@.len() - index,
    {
        let child = &body.children[index];
        if child.named {
            match child_is_optional_field_or_docstring(child, source) {
                None => return false,
                Some(field) => {
                    if field {
                        saw_field = true;
                    }
                },
            }
        }
        index = index + 1;
    }
    saw_field
}

/// Whether a class lists the bare identifier `needle` among its bases.
pub open spec fn spec_class_has_base_named(class: SyntaxNode, source: Seq<u8>, needle: Seq<u8>) -> bool {
    match spec_child_by_field(class, "superclasses"@) {
        Some(supers) => spec_names_base(supers.children@, supers.children@.len() as int, source, needle),
        None => false,
    }
}

/// Returns true when the class's superclasses hold the bare identifier
/// `needle`.
pub fn class_has_base_named(class: &SyntaxNode, source: &[u8], needle: &[u8]) -> (named: bool)
    ensures
        named == spec_class_has_base_named(*class, source@, needle@),
{
    let supers = match child_by_field_name(class, "superclasses") {
        Some(supers) => supers,
        None => return false,
    };
    let mut index: usize = 0;
    while index < supers.children.len()
        invariant
            index <= supers.children@.len(),
            spec_child_by_field(*class, "superclasses"@) == Some(*supers),
            !spec_names_base(supers.children@, index as int, source@, needle@),
        decreases supers.children@.len() - index,
    {
        let child = &supers.children[index];
        if child.named && identifier_is(child, source, needle) {
            return true;
        }
        index = index + 1;
    }
    false
}

/// The class enclosing `range`, else the sole class `range` encloses.
pub open spec fn spec_enclosing_or_sole_class(root: SyntaxNode, range: ByteRange) -> Option<SyntaxNode> {
    match spec_enclosing_in(root, range, seq!["class_definition"@], None) {
        Some(class) => Some(class),
        None => {
            let classes = spec_classes_in_range(root, range);
            if classes.len() == 1 { Some(classes[0]) } else { None }
        },
    }
}

/// Returns the `class_definition` fully containing `range`, or else the
/// one fully contained by it.
pub fn enclosing_or_sole_class<'t>(root: &'t SyntaxNode, range: ByteRange) -> (class: Option<&'t SyntaxNode>)
    ensures
        deref_node(class) == spec_enclosing_or_sole_class(*root, range),
{
    let kinds = vec!["class_definition"];
    assert(kinds_view(kinds@) =~= seq!["class_definition"@]);
    match enclosing_kind(root, range, &kinds) {
        Some(class) => return Some(class),
        None => {},
    }
    let classes = classes_in_range(root, range);
    if classes.len() == 1 {
        assert(super::node_search::nodes_view(classes@)[0] == *classes@[0]);
        Some(classes[0])
    } else {
        None
    }
}

/// Whether a member's class is a `BaseModel` whose fields are all optional,
/// read from its parsed file; `None` where it sits in no `BaseModel`.
pub open spec fn spec_partial_update_shape(snippet: SnippetView) -> Option<bool> {
    match spec_plugin_parse(snippet.language, snippet.source) {
        None => None,
        Some(tree) => match spec_enclosing_or_sole_class(tree, spec_reading_range(snippet)) {
            None => None,
            Some(class) => if spec_class_has_base_named(class, snippet.source, spec_base_model()) {
                Some(spec_body_is_all_optional_fields(class, snippet.source))
            } else {
                None
            },
        },
    }
}

/// The partial-update reading of a member whose range falls inside (or
/// covers) a class inheriting from `BaseModel`.
pub fn partial_update_shape(snippet: &Snippet) -> (shape: Option<bool>)
    ensures
        shape == spec_partial_update_shape(snippet@),
{
    let tree = match parse_snippet(snippet) {
        Some(tree) => tree,
        None => return None,
    };
    let range = trimmed_or_reported(snippet);
    let class = match enclosing_or_sole_class(&tree, range) {
        Some(class) => class,
        None => return None,
    };
    if !class_has_base_named(class, snippet.source, &base_model()) {
        return None;
    }
    Some(class_body_is_all_optional_fields(class, snippet.source))
}

/// Every member of a multi-member Python cluster is a `BaseModel` partial
/// update mirror.
pub open spec fn spec_is_pydantic_partial_update_cluster(snippets: Seq<Snippet>) -> bool {
    spec_is_multi_member_language_cluster(snippets, "python"@)
        && forall|k: int| 0 <= k < snippets.len() ==> spec_partial_update_shape(#[trigger] snippets[k]@) == Some(true)
}

/// A cluster of Pydantic `BaseModel` subclasses whose every field is
/// `T | None` with a `None` default: the `XUpdate` mirror is mandated by
/// PATCH semantics, not extractable duplication.
pub fn is_pydantic_partial_update_cluster(snippets: &[Snippet]) -> (partial: bool)
    ensures
        partial == spec_is_pydantic_partial_update_cluster(snippets@),
{
    if !is_multi_member_language_cluster(snippets, "python") {
        return false;
    }
    let mut k: usize = 0;
    while k < snippets.len()
        invariant
            k <= snippets@.len(),
            spec_is_multi_member_language_cluster(snippets@, "python"@),
            forall|m: int| 0 <= m < k ==> spec_partial_update_shape(#[trigger] snippets@[m]@) == Some(true),
        decreases snippets@.len() - k,
    {
        match partial_update_shape(&snippets[k]) {
            Some(true) => {},
            _ => return false,
        }
        k = k + 1;
    }
    true
}

} // verus!
