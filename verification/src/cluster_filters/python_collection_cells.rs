//! Sibling entries of one collection literal reported as duplication: at a
//! permissive node floor two entries of a single dict, list, set or tuple
//! literal admit as a structural pair. Cells of one record are that
//! record's fields, not something a reader can extract.

use vstd::prelude::*;

use super::ecmascript::{node_at, spec_node_at};
use super::node_search::{enclosing_kind, node_contains_kind, spec_contains_kind, spec_enclosing_in};
use super::python::{raw_texts_differ, spec_raw_texts_differ_views};
use super::snippets::{parse_snippet, plugin_descendant, snippets_view, spec_plugin_descendant, spec_plugin_parse, Snippet, SnippetView};
use super::{kinds_view, SyntaxNode};
use crate::ast::FileId;

verus! {

/// The Python collection-literal kinds a sibling-cell pair can inhabit.
pub open spec fn spec_collection_kinds() -> Seq<Seq<char>> {
    seq!["dictionary"@, "list"@, "set"@, "tuple"@]
}

/// The smallest collection literal containing a member's whole range, as
/// its file and its range, read from its parsed file.
pub open spec fn spec_collection_home(snippet: SnippetView) -> Option<(FileId, usize, usize)> {
    match spec_plugin_parse(snippet.language, snippet.source) {
        None => None,
        Some(tree) => match spec_enclosing_in(tree, snippet.range, spec_collection_kinds(), None) {
            Some(collection) => Some((snippet.file_id, collection.start_byte, collection.end_byte)),
            None => None,
        },
    }
}

/// The smallest collection literal containing the member's whole range,
/// as `(file, literal start, literal end)`: the identity that makes two
/// members siblings of one instance.
pub fn collection_home(snippet: &Snippet) -> (home: Option<(FileId, usize, usize)>)
    ensures
        home == spec_collection_home(snippet@),
{
    let tree = match parse_snippet(snippet) {
        Some(tree) => tree,
        None => return None,
    };
    let kinds = vec!["dictionary", "list", "set", "tuple"];
    assert(kinds_view(kinds@) =~= spec_collection_kinds());
    match enclosing_kind(&tree, snippet.range, &kinds) {
        Some(collection) => Some((snippet.file_id, collection.start_byte, collection.end_byte)),
        None => None,
    }
}

/// Whether the member's own subtree carries a lambda, read from its parsed
/// file: the smallest named node spanning its range holds one.
pub open spec fn spec_carries_lambda(snippet: SnippetView) -> bool {
    match spec_plugin_parse(snippet.language, snippet.source) {
        None => false,
        Some(tree) => match spec_plugin_descendant(snippet.language, snippet.source, snippet.range.start, snippet.range.end, true) {
            None => false,
            Some((start, end, kind)) => match spec_node_at(tree, start, end, kind) {
                Some(member) => spec_contains_kind(member, "lambda"@),
                None => false,
            },
        },
    }
}

/// True when the member's own subtree carries a lambda.
pub fn carries_lambda(snippet: &Snippet) -> (lambda: bool)
    ensures
        lambda == spec_carries_lambda(snippet@),
{
    let tree = match parse_snippet(snippet) {
        Some(tree) => tree,
        None => return false,
    };
    let (start, end, kind) = match plugin_descendant(snippet.language, snippet.source, snippet.range.start, snippet.range.end, true) {
        Some(found) => found,
        None => return false,
    };
    match node_at(&tree, start, end, kind.as_str()) {
        Some(member) => node_contains_kind(member, "lambda"),
        None => false,
    }
}

/// Every member is a fragment of one collection literal instance, no
/// member carries a lambda, and two members differ in raw bytes.
pub open spec fn spec_is_collection_sibling_cell_cluster(snippets: Seq<SnippetView>) -> bool {
    &&& snippets.len() >= 2
    &&& forall|k: int| 0 <= k < snippets.len() ==> (#[trigger] spec_collection_home(snippets[k])) is Some
    &&& forall|k: int| 0 <= k < snippets.len() ==> #[trigger] spec_collection_home(snippets[k]) == spec_collection_home(snippets[0])
    &&& !exists|k: int| 0 <= k < snippets.len() && spec_carries_lambda(#[trigger] snippets[k])
    &&& spec_raw_texts_differ_views(snippets)
}

/// A cluster whose every member is a fragment of one collection literal
/// instance: same file, same literal node. A byte-identical repeated entry
/// still surfaces, and an element holding a lambda keeps clustering.
#[verifier::loop_isolation(false)]
pub fn is_collection_sibling_cell_cluster(snippets: &[Snippet]) -> (cells: bool)
    ensures
        cells == spec_is_collection_sibling_cell_cluster(snippets_view(snippets@)),
{
    let ghost views = snippets_view(snippets@);
    assert(views.len() == snippets@.len());
    if snippets.len() < 2 {
        return false;
    }
    assert(views[0] == snippets@[0]@);
    let first = match collection_home(&snippets[0]) {
        Some(first) => first,
        None => return false,
    };
    let mut k: usize = 0;
    while k < snippets.len()
        invariant
            k <= snippets@.len(),
            forall|m: int| 0 <= m < k ==> #[trigger] spec_collection_home(views[m]) == Some(first),
        decreases snippets@.len() - k,
    {
        assert(views[k as int] == snippets@[k as int]@);
        match collection_home(&snippets[k]) {
            Some(home) => {
                if !(home.0.0 == first.0.0 && home.1 == first.1 && home.2 == first.2) {
                    return false;
                }
            },
            None => return false,
        }
        k = k + 1;
    }
    let mut k: usize = 0;
    while k < snippets.len()
        invariant
            k <= snippets@.len(),
            forall|m: int| 0 <= m < k ==> !spec_carries_lambda(#[trigger] views[m]),
        decreases snippets@.len() - k,
    {
        assert(views[k as int] == snippets@[k as int]@);
        if carries_lambda(&snippets[k]) {
            return false;
        }
        k = k + 1;
    }
    raw_texts_differ(snippets)
}

} // verus!
