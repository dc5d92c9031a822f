//! Dart collection-literal data tables: a top-level collection literal
//! whose rows are constructor calls, records, map pairs or plain literals
//! is data, not logic. A verbatim copy still surfaces as duplication.

use vstd::prelude::*;

use super::node_search::{enclosing_kind, node_contains_kind, node_intersects_range, spec_contains_kind, spec_enclosing_in, spec_intersects};
use super::python::{spec_raw_texts_differ_views};
use super::snippets::{parse_snippet, snippets_view, spec_plugin_parse, Snippet, SnippetView};
use super::{kinds_view, raw_snippet_texts_differ, SyntaxNode};
use crate::ast::ByteRange;
use crate::text::same_text;

verus! {

/// Dart collection literals whose elements may form a data table.
pub open spec fn spec_collection_literal_kinds() -> Seq<Seq<char>> {
    seq!["list_literal"@, "set_or_map_literal"@]
}

/// Whether a collection-literal child is a pure data element: the type
/// arguments before the bracket, or an element carrying no function body
/// or function expression.
pub open spec fn spec_is_data_element(element: SyntaxNode) -> bool {
    element.kind@ == "type_arguments"@
        || (!spec_contains_kind(element, "function_body"@) && !spec_contains_kind(element, "function_expression"@))
}

/// Returns true when a collection-literal child is a pure data element;
/// a closure-bearing element is logic and disqualifies the run.
pub fn is_data_element(element: &SyntaxNode) -> (data: bool)
    ensures
        data == spec_is_data_element(*element),
{
    if same_text(element.kind.as_str(), "type_arguments") {
        return true;
    }
    !node_contains_kind(element, "function_body") && !node_contains_kind(element, "function_expression")
}

/// Every named element of `literal` touching `range` is data, and at
/// least one touches it.
pub open spec fn spec_data_elements_in(literal: SyntaxNode, range: ByteRange) -> bool {
    let children = literal.children@;
    &&& forall|i: int| 0 <= i < children.len() && (#[trigger] children[i]).named && spec_intersects(children[i], range)
        ==> spec_is_data_element(children[i])
    &&& exists|i: int| 0 <= i < children.len() && (#[trigger] children[i]).named && spec_intersects(children[i], range)
}

/// Whether every element of `literal` covered by `range` is data, with at
/// least one covered.
pub fn data_elements_in(literal: &SyntaxNode, range: ByteRange) -> (data: bool)
    ensures
        data == spec_data_elements_in(*literal, range),
{
    let mut covered = false;
    let mut index: usize = 0;
    while index < literal.children.len()
        invariant
            index <= literal.children@.len(),
            forall|i: int| 0 <= i < index && (#[trigger] literal.children@[i]).named && spec_intersects(literal.children@[i], range)
                ==> spec_is_data_element(literal.children@[i]),
            covered == exists|i: int| 0 <= i < index && (#[trigger] literal.children@[i]).named
                && spec_intersects(literal.children@[i], range),
        decreases literal.children@.len() - index,
    {
        let element = &literal.children[index];
        if element.named && node_intersects_range(element, range) {
            if !is_data_element(element) {
                return false;
            }
            covered = true;
        }
        index = index + 1;
    }
    covered
}

/// Whether a member sits inside a Dart collection literal whose covered
/// elements are all data, in its parsed file.
pub open spec fn spec_covers_only_data_elements(snippet: SnippetView) -> bool {
    match spec_plugin_parse(snippet.language, snippet.source) {
        None => false,
        Some(tree) => match spec_enclosing_in(tree, snippet.range, spec_collection_literal_kinds(), None) {
            Some(literal) => spec_data_elements_in(literal, snippet.range),
            None => false,
        },
    }
}

/// Returns true when the snippet's range sits inside a Dart collection
/// literal and every element it covers is a pure data shape.
pub fn covers_only_data_elements(snippet: &Snippet) -> (data: bool)
    ensures
        data == spec_covers_only_data_elements(snippet@),
{
    let tree = match parse_snippet(snippet) {
        Some(tree) => tree,
        None => return false,
    };
    let kinds = vec!["list_literal", "set_or_map_literal"];
    assert(kinds_view(kinds@) =~= spec_collection_literal_kinds());
    match enclosing_kind(&tree, snippet.range, &kinds) {
        Some(literal) => data_elements_in(literal, snippet.range),
        None => false,
    }
}

/// Every member covers a data table and two members differ in raw bytes.
pub open spec fn spec_is_dart_collection_data_table_cluster(snippets: Seq<SnippetView>) -> bool {
    &&& snippets.len() >= 2
    &&& forall|k: int| 0 <= k < snippets.len() ==> spec_covers_only_data_elements(#[trigger] snippets[k])
    &&& spec_raw_texts_differ_views(snippets)
}

/// Returns true when the snippets form a Dart collection-literal data
/// table: every member covers a run of pure data elements of one literal,
/// and two members differ in raw bytes.
pub fn is_dart_collection_data_table_cluster(snippets: &[Snippet]) -> (table: bool)
    ensures
        table == spec_is_dart_collection_data_table_cluster(snippets_view(snippets@)),
{
    let ghost views = snippets_view(snippets@);
    if snippets.len() < 2 {
        return false;
    }
    let mut k: usize = 0;
    while k < snippets.len()
        invariant
            k <= snippets@.len(),
            views == snippets_view(snippets@),
            views.len() == snippets@.len(),
            forall|m: int| 0 <= m < k ==> spec_covers_only_data_elements(#[trigger] views[m]),
        decreases snippets@.len() - k,
    {
        assert(views[k as int] == snippets@[k as int]@);
        if !covers_only_data_elements(&snippets[k]) {
            return false;
        }
        k = k + 1;
    }
    super::python::raw_texts_differ(snippets)
}

} // verus!
