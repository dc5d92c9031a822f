//! Single-file families of sibling declarations.
//!
//! The in-class REST/CRUD, settings, builder or visitor idiom: each window
//! covers a run of members that share a skeleton but target a different
//! endpoint literal, so the family fuses structurally with no token
//! support. A cluster is such a family only when every count is proven:
//! its members live in one file, it is ordinary logic rather than a data
//! table, its members differ in substance, and every window is a family
//! view — two or more sibling declarations of one container, or one
//! declaration proven to forward — with no two proven wrappers sharing a
//! body, since two siblings forwarding to the same route are a copy-paste
//! bug that only their bodies show.

use vstd::prelude::*;

use super::forwarding::{forwarding_body, spec_forwarding_result};
use super::node_search::{enclosing_kind, node_intersects_range, nodes_view, spec_enclosing_in, spec_intersects};
use super::snippets::{parse_snippet, spec_plugin_parse, Snippet};
use super::{kinds_view, SyntaxNode};
use crate::ast::ByteRange;
use crate::clone_category::CloneCategory;
use crate::text::{same_text, slice_listed, slices_view};

verus! {

/// Node kinds that hold a run of sibling member declarations, by language:
/// class-like only, since counting the statements of a block would
/// suppress the multi-statement clones this filter must keep.
pub open spec fn spec_container_kinds(language: Seq<char>) -> Seq<Seq<char>> {
    if language == "csharp"@ || language == "rust"@ {
        seq!["declaration_list"@]
    } else if language == "dart"@ {
        seq!["class_body"@, "extension_body"@, "mixin_body"@, "enum_body"@]
    } else if language == "python"@ {
        seq!["block"@]
    } else if language == "javascript"@ || language == "typescript"@ || language == "tsx"@ {
        seq!["class_body"@, "interface_body"@, "object_type"@]
    } else {
        seq![]
    }
}

/// The container kinds of a language.
pub fn container_kinds(language: &str) -> (kinds: Vec<&'static str>)
    ensures
        kinds_view(kinds@) == spec_container_kinds(language@),
{
    let kinds: Vec<&'static str> = if same_text(language, "csharp") || same_text(language, "rust") {
        vec!["declaration_list"]
    } else if same_text(language, "dart") {
        vec!["class_body", "extension_body", "mixin_body", "enum_body"]
    } else if same_text(language, "python") {
        vec!["block"]
    } else if same_text(language, "javascript") || same_text(language, "typescript") || same_text(language, "tsx") {
        vec!["class_body", "interface_body", "object_type"]
    } else {
        Vec::new()
    };
    assert(kinds_view(kinds@) =~= spec_container_kinds(language@));
    kinds
}

/// Whether `child` is a named node at the place of `target`: the same kind
/// over the same bytes.
pub open spec fn spec_is_placed_child(child: SyntaxNode, target: SyntaxNode) -> bool {
    child.named && child.kind@ == target.kind@ && child.start_byte == target.start_byte && child.end_byte == target.end_byte
}

/// Whether the subtree holds a node of `kind` with a named child at the
/// place of `target`: `target`'s parent is of `kind`.
pub open spec fn spec_has_parent_kind(node: SyntaxNode, target: SyntaxNode, kind: Seq<char>) -> bool
    decreases node, 1int,
{
    (node.kind@ == kind && exists|i: int| 0 <= i < node.children@.len() && spec_is_placed_child(#[trigger] node.children@[i], target))
        || spec_children_have_parent(node.children@, node.children@.len() as int, target, kind)
}

/// Whether one of the first `k` named children holds such a parent.
pub open spec fn spec_children_have_parent(children: Seq<SyntaxNode>, k: int, target: SyntaxNode, kind: Seq<char>) -> bool
    decreases children, k,
{
    if k <= 0 || k > children.len() {
        false
    } else {
        spec_children_have_parent(children, k - 1, target, kind)
            || (children[k - 1].named && spec_has_parent_kind(children[k - 1], target, kind))
    }
}

proof fn lemma_parent_found(children: Seq<SyntaxNode>, k: int, n: int, target: SyntaxNode, kind: Seq<char>)
    requires
        0 <= k <= n <= children.len(),
        spec_children_have_parent(children, k, target, kind),
    ensures
        spec_children_have_parent(children, n, target, kind),
    decreases n - k,
{
    if k < n {
        lemma_parent_found(children, k, n - 1, target, kind);
    }
}

/// Whether a node of `kind` directly holds a child of `node` at the place
/// of `target`.
pub fn holds_placed_child(node: &SyntaxNode, target: &SyntaxNode) -> (holds: bool)
    ensures
        holds == exists|i: int| 0 <= i < node.children@.len() && spec_is_placed_child(#[trigger] node.children@[i], *target),
{
    let mut index: usize = 0;
    while index < node.children.len()
        invariant
            index <= node.children@.len(),
            forall|j: int| 0 <= j < index ==> !spec_is_placed_child(#[trigger] node.children@[j], *target),
        decreases node.children@.len() - index,
    {
        let child = &node.children[index];
        if child.named && same_text(child.kind.as_str(), target.kind.as_str()) && child.start_byte == target.start_byte
            && child.end_byte == target.end_byte {
            assert(spec_is_placed_child(node.children@[index as int], *target));
            return true;
        }
        index = index + 1;
    }
    false
}

/// Whether `target`'s parent in the tree under `node` is of `kind`.
pub fn has_parent_kind(node: &SyntaxNode, target: &SyntaxNode, kind: &str) -> (found: bool)
    ensures
        found == spec_has_parent_kind(*node, *target, kind@),
    decreases *node,
{
    if same_text(node.kind.as_str(), kind) && holds_placed_child(node, target) {
        return true;
    }
    let mut index: usize = 0;
    while index < node.children.len()
        invariant
            index <= node.children@.len(),
            !(node.kind@ == kind@ && exists|i: int| 0 <= i < node.children@.len() && spec_is_placed_child(#[trigger] node.children@[i], *target)),
            !spec_children_have_parent(node.children@, index as int, *target, kind@),
        decreases node.children@.len() - index,
    {
        let child = &node.children[index];
        assert(decreases_to!(*node => node.children@[index as int]));
        if child.named && has_parent_kind(child, target, kind) {
            proof {
                lemma_parent_found(node.children@, index as int + 1, node.children@.len() as int, *target, kind@);
            }
            return true;
        }
        index = index + 1;
    }
    false
}

/// Python reuses `block` for class and function bodies, so the parent
/// decides: a block is a declaration container only as a class's body.
pub open spec fn spec_is_declaration_container(root: SyntaxNode, container: SyntaxNode) -> bool {
    container.kind@ != "block"@ || spec_has_parent_kind(root, container, "class_definition"@)
}

/// Whether an enclosing container holds sibling declarations.
pub fn is_declaration_container(root: &SyntaxNode, container: &SyntaxNode) -> (holds: bool)
    ensures
        holds == spec_is_declaration_container(*root, *container),
{
    !same_text(container.kind.as_str(), "block") || has_parent_kind(root, container, "class_definition")
}

/// The named children among `children` that overlap `range`, in order.
pub open spec fn spec_covered_members(children: Seq<SyntaxNode>, range: ByteRange) -> Seq<SyntaxNode>
    decreases children.len(),
{
    if children.len() == 0 {
        seq![]
    } else {
        let before = spec_covered_members(children.drop_last(), range);
        let last = children.last();
        if last.named && spec_intersects(last, range) { before.push(last) } else { before }
    }
}

/// The container's named children that the window touches.
pub fn covered_members<'a>(container: &'a SyntaxNode, range: ByteRange) -> (members: Vec<&'a SyntaxNode>)
    ensures
        nodes_view(members@) == spec_covered_members(container.children@, range),
{
    let mut members: Vec<&'a SyntaxNode> = Vec::new();
    let mut index: usize = 0;
    while index < container.children.len()
        invariant
            index <= container.children@.len(),
            nodes_view(members@) == spec_covered_members(container.children@.take(index as int), range),
        decreases container.children@.len() - index,
    {
        let child = &container.children[index];
        assert(container.children@.take(index as int + 1).drop_last() =~= container.children@.take(index as int));
        if child.named && node_intersects_range(child, range) {
            let ghost before = nodes_view(members@);
            members.push(child);
            assert(nodes_view(members@) =~= before.push(*child));
        }
        index = index + 1;
    }
    assert(container.children@.take(container.children@.len() as int) =~= container.children@);
    members
}

/// What a window covers when it covers family noise at all.
pub enum FamilyWindow<'a> {
    /// Two or more sibling declarations of one container.
    SiblingRun,
    /// Exactly one declaration proven to forward, with its body bytes.
    Wrapper(&'a [u8]),
}

/// The model of a [`FamilyWindow`].
pub enum WindowView {
    SiblingRun,
    Wrapper(Seq<u8>),
}

impl<'a> View for FamilyWindow<'a> {
    type V = WindowView;

    open spec fn view(&self) -> WindowView {
        match self {
            FamilyWindow::SiblingRun => WindowView::SiblingRun,
            FamilyWindow::Wrapper(body) => WindowView::Wrapper(body@),
        }
    }
}

/// The window of a snippet in its parsed tree: the innermost container of
/// its language that encloses the range and holds declarations, then the
/// members it touches — none is no family view, one is a view when it is
/// proven to forward, several are a sibling run.
pub open spec fn spec_window_in(tree: SyntaxNode, snippet: Snippet) -> Option<WindowView> {
    match spec_enclosing_in(tree, snippet.range, spec_container_kinds(snippet.language@), None) {
        Some(container) => if !spec_is_declaration_container(tree, container) {
            None
        } else {
            let members = spec_covered_members(container.children@, snippet.range);
            if members.len() == 0 {
                None
            } else if members.len() == 1 {
                match spec_forwarding_result(members[0], container, snippet.language@, snippet.source@) {
                    Some(body) => Some(WindowView::Wrapper(body)),
                    None => None,
                }
            } else {
                Some(WindowView::SiblingRun)
            }
        },
        None => None,
    }
}

/// The family view of a snippet's window, over the tree of its file.
pub open spec fn spec_family_window(snippet: Snippet) -> Option<WindowView> {
    match spec_plugin_parse(snippet.language@, snippet.source@) {
        Some(tree) => spec_window_in(tree, snippet),
        None => None,
    }
}

/// Classifies the window of a snippet found in `tree`.
pub fn window_in<'a>(tree: &SyntaxNode, snippet: &Snippet<'a>) -> (window: Option<FamilyWindow<'a>>)
    ensures
        match window {
            Some(w) => spec_window_in(*tree, *snippet) == Some(w@),
            None => spec_window_in(*tree, *snippet) is None,
        },
{
    let kinds = container_kinds(snippet.language);
    let container = match enclosing_kind(tree, snippet.range, &kinds) {
        Some(container) => container,
        None => return None,
    };
    if !is_declaration_container(tree, container) {
        return None;
    }
    let members = covered_members(container, snippet.range);
    let ghost mv = nodes_view(members@);
    if members.len() == 0 {
        None
    } else if members.len() == 1 {
        assert(mv[0] == *members[0]);
        match forwarding_body(members[0], container, snippet.language, snippet.source) {
            Some(body) => Some(FamilyWindow::Wrapper(body)),
            None => None,
        }
    } else {
        Some(FamilyWindow::SiblingRun)
    }
}

/// Classifies the snippet's window: a run of two or more members of one
/// declaration container, or exactly one member whose body proves the
/// forwarding shape. A window over statements inside a logic-bearing
/// member is neither.
pub fn family_window<'a>(snippet: &Snippet<'a>) -> (window: Option<FamilyWindow<'a>>)
    ensures
        match window {
            Some(w) => spec_family_window(*snippet) == Some(w@),
            None => spec_family_window(*snippet) is None,
        },
{
    match parse_snippet(snippet) {
        Some(tree) => window_in(&tree, snippet),
        None => None,
    }
}

/// The body of a window that is a proven wrapper.
pub open spec fn spec_wrapper_body(window: Option<WindowView>) -> Option<Seq<u8>> {
    match window {
        Some(WindowView::Wrapper(body)) => Some(body),
        _ => None,
    }
}

/// Every window is a family view and no two proven wrappers share a body.
pub open spec fn spec_every_window_is_family_noise(snippets: Seq<Snippet>) -> bool {
    &&& forall|i: int| 0 <= i < snippets.len() ==> (#[trigger] spec_family_window(snippets[i])) is Some
    &&& forall|i: int, j: int| 0 <= i < j < snippets.len()
        && (#[trigger] spec_wrapper_body(spec_family_window(snippets[i]))) is Some
        ==> spec_wrapper_body(spec_family_window(snippets[i])) != #[trigger] spec_wrapper_body(spec_family_window(snippets[j]))
}

/// Returns true when every window is a family view and no two proven
/// wrappers share a body: two sibling wrappers forwarding to the same
/// route are real duplication.
pub fn every_window_is_family_noise(snippets: &[Snippet]) -> (noise: bool)
    ensures
        noise == spec_every_window_is_family_noise(snippets@),
{
    let mut bodies: Vec<&[u8]> = Vec::new();
    let mut index: usize = 0;
    while index < snippets.len()
        invariant
            index <= snippets@.len(),
            forall|i: int| 0 <= i < index ==> (#[trigger] spec_family_window(snippets@[i])) is Some,
            forall|i: int, j: int| 0 <= i < j < index
                && (#[trigger] spec_wrapper_body(spec_family_window(snippets@[i]))) is Some
                ==> spec_wrapper_body(spec_family_window(snippets@[i])) != #[trigger] spec_wrapper_body(spec_family_window(snippets@[j])),
            forall|i: int| 0 <= i < index && (#[trigger] spec_wrapper_body(spec_family_window(snippets@[i]))) is Some
                ==> slices_view(bodies@).contains(spec_wrapper_body(spec_family_window(snippets@[i])).unwrap()),
            forall|k: int| 0 <= k < bodies@.len() ==> exists|i: int| 0 <= i < index
                && #[trigger] spec_wrapper_body(spec_family_window(snippets@[i])) == Some(#[trigger] slices_view(bodies@)[k]),
        decreases snippets@.len() - index,
    {
        match family_window(&snippets[index]) {
            None => return false,
            Some(FamilyWindow::SiblingRun) => {},
            Some(FamilyWindow::Wrapper(body)) => {
                if slice_listed(&bodies, body) {
                    proof {
                        let k = choose|k: int| 0 <= k < slices_view(bodies@).len() && slices_view(bodies@)[k] == body@;
                        let i = choose|i: int| 0 <= i < index
                            && #[trigger] spec_wrapper_body(spec_family_window(snippets@[i])) == Some(slices_view(bodies@)[k]);
                        assert(spec_wrapper_body(spec_family_window(snippets@[index as int])) == Some(body@));
                    }
                    return false;
                }
                let ghost before = slices_view(bodies@);
                bodies.push(body);
                assert(slices_view(bodies@) =~= before.push(body@));
                proof {
                    assert forall|i: int| 0 <= i < index + 1 && (#[trigger] spec_wrapper_body(spec_family_window(snippets@[i]))) is Some
                        implies slices_view(bodies@).contains(spec_wrapper_body(spec_family_window(snippets@[i])).unwrap()) by {
                        if i < index {
                            let x = spec_wrapper_body(spec_family_window(snippets@[i])).unwrap();
                            assert(before.contains(x));
                            let k = choose|k: int| 0 <= k < before.len() && before[k] == x;
                            assert(slices_view(bodies@)[k] == x);
                        } else {
                            assert(slices_view(bodies@)[before.len() as int] == body@);
                        }
                    }
                    assert forall|k: int| 0 <= k < bodies@.len() implies exists|i: int| 0 <= i < index + 1
                        && #[trigger] spec_wrapper_body(spec_family_window(snippets@[i])) == Some(#[trigger] slices_view(bodies@)[k]) by {
                        if k < before.len() {
                            assert(slices_view(bodies@)[k] == before[k]);
                        } else {
                            assert(spec_wrapper_body(spec_family_window(snippets@[index as int])) == Some(slices_view(bodies@)[k]));
                        }
                    }
                }
            },
        }
        index = index + 1;
    }
    true
}

/// A single-file family of sibling declarations: ordinary logic, members
/// in one file and one language, differing in substance, and every window
/// family noise.
pub open spec fn spec_is_single_file_declaration_family(snippets: Seq<Snippet>, category: CloneCategory, substance_varies: bool) -> bool {
    &&& category == CloneCategory::Logic
    &&& snippets.len() > 0
    &&& forall|i: int| 0 <= i < snippets.len() ==> (#[trigger] snippets[i]).file_id == snippets[0].file_id
    &&& substance_varies
    &&& forall|i: int| 0 <= i < snippets.len() ==> (#[trigger] snippets[i]).language@ == snippets[0].language@
    &&& spec_every_window_is_family_noise(snippets)
}

/// Returns true when the members are a single-file family of sibling
/// declarations rather than real duplication. `substance_varies` is the
/// cluster's content evidence: a literal disagrees, or the identifier
/// substitution needs more than one consistent mapping.
pub fn is_single_file_declaration_family(snippets: &[Snippet], category: CloneCategory, substance_varies: bool) -> (family: bool)
    ensures
        family == spec_is_single_file_declaration_family(snippets@, category, substance_varies),
{
    match category {
        CloneCategory::Logic => {},
        CloneCategory::DataTable => return false,
    }
    if snippets.len() == 0 || !substance_varies {
        return false;
    }
    let first_file = snippets[0].file_id;
    let first_language = snippets[0].language;
    let mut index: usize = 0;
    while index < snippets.len()
        invariant
            index <= snippets@.len(),
            snippets@.len() > 0,
            first_file == snippets@[0].file_id,
            first_language@ == snippets@[0].language@,
            forall|i: int| 0 <= i < index ==> (#[trigger] snippets@[i]).file_id == snippets@[0].file_id,
            forall|i: int| 0 <= i < index ==> (#[trigger] snippets@[i]).language@ == snippets@[0].language@,
        decreases snippets@.len() - index,
    {
        if snippets[index].file_id.0 != first_file.0 || !same_text(snippets[index].language, first_language) {
            return false;
        }
        index = index + 1;
    }
    every_window_is_family_noise(snippets)
}

/// Two sibling windows proven to forward through one shared body are a
/// copy-paste bug, so they keep the whole cluster visible: no such
/// cluster is a declaration family, whatever its other counts say.
pub proof fn lemma_shared_wrapper_body_stays_visible(snippets: Seq<Snippet>, i: int, j: int)
    requires
        0 <= i < j < snippets.len(),
        spec_wrapper_body(spec_family_window(snippets[i])) is Some,
        spec_wrapper_body(spec_family_window(snippets[i])) == spec_wrapper_body(spec_family_window(snippets[j])),
    ensures
        !spec_every_window_is_family_noise(snippets),
        forall|category: CloneCategory, substance_varies: bool|
            !#[trigger] spec_is_single_file_declaration_family(snippets, category, substance_varies),
{
}

/// A family lives in one file: members in two files are never one.
pub proof fn lemma_family_is_single_file(snippets: Seq<Snippet>, i: int, j: int)
    requires
        0 <= i < snippets.len(),
        0 <= j < snippets.len(),
        snippets[i].file_id != snippets[j].file_id,
    ensures
        forall|category: CloneCategory, substance_varies: bool|
            !#[trigger] spec_is_single_file_declaration_family(snippets, category, substance_varies),
{
}

} // verus!
