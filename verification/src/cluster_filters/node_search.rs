//! Range-bounded searches over a concrete syntax tree, shared by every
//! cluster filter that gathers the nodes of one kind inside a member's
//! reported bytes.

use vstd::prelude::*;

use super::{kind_in, kinds_view, SyntaxNode};
use crate::ast::ByteRange;
use crate::text::{same_bytes, same_text};

verus! {

/// Whether `node` overlaps `range`.
pub open spec fn spec_intersects(node: SyntaxNode, range: ByteRange) -> bool {
    node.start_byte < range.end && node.end_byte > range.start
}

/// Whether `node` lies wholly inside `range`.
pub open spec fn spec_enclosed(node: SyntaxNode, range: ByteRange) -> bool {
    node.start_byte >= range.start && node.end_byte <= range.end
}

/// Returns true when `node` overlaps `range`.
pub fn node_intersects_range(node: &SyntaxNode, range: ByteRange) -> (intersects: bool)
    ensures
        intersects == spec_intersects(*node, range),
{
    node.start_byte < range.end && node.end_byte > range.start
}

/// Returns true when `node` lies wholly inside `range`.
pub fn node_enclosed_by_range(node: &SyntaxNode, range: ByteRange) -> (enclosed: bool)
    ensures
        enclosed == spec_enclosed(*node, range),
{
    node.start_byte >= range.start && node.end_byte <= range.end
}

/// Whether `node` or a named descendant reached through named nodes is of
/// `kind`.
pub open spec fn spec_contains_kind(node: SyntaxNode, kind: Seq<char>) -> bool
    decreases node, 1int,
{
    node.kind@ == kind || any_child_contains_kind(node.children@, node.children@.len() as int, kind)
}

/// Whether one of the first `k` named children contains a node of `kind`.
pub open spec fn any_child_contains_kind(children: Seq<SyntaxNode>, k: int, kind: Seq<char>) -> bool
    decreases children, k,
{
    if k <= 0 || k > children.len() {
        false
    } else {
        any_child_contains_kind(children, k - 1, kind)
            || (children[k - 1].named && spec_contains_kind(children[k - 1], kind))
    }
}

proof fn lemma_contains_kind_grows(children: Seq<SyntaxNode>, k: int, n: int, kind: Seq<char>)
    requires
        0 <= k <= n <= children.len(),
        any_child_contains_kind(children, k, kind),
    ensures
        any_child_contains_kind(children, n, kind),
    decreases n - k,
{
    if k < n {
        lemma_contains_kind_grows(children, k, n - 1, kind);
    }
}

proof fn lemma_contains_identifier_grows(children: Seq<SyntaxNode>, k: int, n: int, source: Seq<u8>, needle: Seq<u8>)
    requires
        0 <= k <= n <= children.len(),
        any_child_contains_identifier(children, k, source, needle),
    ensures
        any_child_contains_identifier(children, n, source, needle),
    decreases n - k,
{
    if k < n {
        lemma_contains_identifier_grows(children, k, n - 1, source, needle);
    }
}

/// Walks `node` looking for a named descendant of `kind`.
pub fn node_contains_kind(node: &SyntaxNode, kind: &str) -> (found: bool)
    ensures
        found == spec_contains_kind(*node, kind@),
    decreases *node,
{
    if same_text(node.kind.as_str(), kind) {
        return true;
    }
    let mut index: usize = 0;
    while index < node.children.len()
        invariant
            index <= node.children@.len(),
            node.kind@ != kind@,
            !any_child_contains_kind(node.children@, index as int, kind@),
        decreases node.children@.len() - index,
    {
        let child = &node.children[index];
        assert(decreases_to!(*node => node.children@[index as int]));
        if child.named && node_contains_kind(child, kind) {
            proof {
                lemma_contains_kind_grows(node.children@, index as int + 1, node.children@.len() as int, kind@);
            }
            return true;
        }
        index = index + 1;
    }
    false
}

/// The source bytes of `start..end`, when that range lies in the source.
pub open spec fn spec_span(source: Seq<u8>, start: usize, end: usize) -> Option<Seq<u8>> {
    if start <= end && end <= source.len() { Some(source.subrange(start as int, end as int)) } else { None }
}

/// Whether `node` or a named descendant reached through named nodes is an
/// identifier spelling `needle`.
pub open spec fn spec_contains_identifier(node: SyntaxNode, source: Seq<u8>, needle: Seq<u8>) -> bool
    decreases node, 1int,
{
    (node.kind@ == "identifier"@ && spec_span(source, node.start_byte, node.end_byte) == Some(needle))
        || any_child_contains_identifier(node.children@, node.children@.len() as int, source, needle)
}

/// Whether one of the first `k` named children contains the identifier.
pub open spec fn any_child_contains_identifier(children: Seq<SyntaxNode>, k: int, source: Seq<u8>, needle: Seq<u8>) -> bool
    decreases children, k,
{
    if k <= 0 || k > children.len() {
        false
    } else {
        any_child_contains_identifier(children, k - 1, source, needle)
            || (children[k - 1].named && spec_contains_identifier(children[k - 1], source, needle))
    }
}

/// Whether `source[start..end]` lies in the source and equals `needle`.
pub fn span_is(source: &[u8], start: usize, end: usize, needle: &[u8]) -> (same: bool)
    ensures
        same == (spec_span(source@, start, end) == Some(needle@)),
{
    if start > end || end > source.len() {
        return false;
    }
    if end - start != needle.len() {
        assert(source@.subrange(start as int, end as int).len() != needle@.len());
        return false;
    }
    let mut index: usize = 0;
    while index < needle.len()
        invariant
            start <= end <= source@.len(),
            end - start == needle@.len(),
            index <= needle@.len(),
            forall|j: int| 0 <= j < index ==> source@[start + j] == needle@[j],
        decreases needle@.len() - index,
    {
        if source[start + index] != needle[index] {
            assert(source@.subrange(start as int, end as int)[index as int] != needle@[index as int]);
            return false;
        }
        index = index + 1;
    }
    assert(source@.subrange(start as int, end as int) =~= needle@);
    true
}

/// Walks `node` looking for an identifier with the requested bytes.
pub fn node_contains_identifier(node: &SyntaxNode, source: &[u8], needle: &[u8]) -> (found: bool)
    ensures
        found == spec_contains_identifier(*node, source@, needle@),
    decreases *node,
{
    if same_text(node.kind.as_str(), "identifier") && span_is(source, node.start_byte, node.end_byte, needle) {
        return true;
    }
    let mut index: usize = 0;
    while index < node.children.len()
        invariant
            index <= node.children@.len(),
            !(node.kind@ == "identifier"@ && spec_span(source@, node.start_byte, node.end_byte) == Some(needle@)),
            !any_child_contains_identifier(node.children@, index as int, source@, needle@),
        decreases node.children@.len() - index,
    {
        let child = &node.children[index];
        assert(decreases_to!(*node => node.children@[index as int]));
        if child.named && node_contains_identifier(child, source, needle) {
            proof {
                lemma_contains_identifier_grows(node.children@, index as int + 1, node.children@.len() as int, source@, needle@);
            }
            return true;
        }
        index = index + 1;
    }
    false
}

/// The answer of the enclosing-kind walk after visiting `node`'s subtree
/// with `best` found so far: a node enclosing `range` whose kind is
/// listed replaces `best`, its named children are visited last to first,
/// and a subtree not enclosing `range` is passed over.
pub open spec fn spec_enclosing_in(node: SyntaxNode, range: ByteRange, kinds: Seq<Seq<char>>, best: Option<SyntaxNode>) -> Option<SyntaxNode>
    decreases node, 1int,
{
    if node.start_byte > range.start || node.end_byte < range.end {
        best
    } else {
        let here = if kinds.contains(node.kind@) { Some(node) } else { best };
        spec_enclosing_children(node.children@, node.children@.len() as int, range, kinds, here)
    }
}

/// The walk over the first `k` children, from child `k - 1` down.
pub open spec fn spec_enclosing_children(
    children: Seq<SyntaxNode>,
    k: int,
    range: ByteRange,
    kinds: Seq<Seq<char>>,
    best: Option<SyntaxNode>,
) -> Option<SyntaxNode>
    decreases children, k,
{
    if k <= 0 || k > children.len() {
        best
    } else {
        let after = if children[k - 1].named { spec_enclosing_in(children[k - 1], range, kinds, best) } else { best };
        spec_enclosing_children(children, k - 1, range, kinds, after)
    }
}

/// The node an optional reference points at.
pub open spec fn deref_node(node: Option<&SyntaxNode>) -> Option<SyntaxNode> {
    match node {
        Some(n) => Some(*n),
        None => None,
    }
}

fn enclosing_in<'a>(node: &'a SyntaxNode, range: ByteRange, kinds: &Vec<&'static str>, best: Option<&'a SyntaxNode>) -> (found: Option<&'a SyntaxNode>)
    ensures
        deref_node(found) == spec_enclosing_in(*node, range, kinds_view(kinds@), deref_node(best)),
    decreases *node,
{
    if node.start_byte > range.start || node.end_byte < range.end {
        return best;
    }
    let mut best = if kind_in(node.kind.as_str(), kinds) { Some(node) } else { best };
    let ghost here = deref_node(best);
    let mut k: usize = node.children.len();
    while k > 0
        invariant
            k <= node.children@.len(),
            spec_enclosing_children(node.children@, node.children@.len() as int, range, kinds_view(kinds@), here)
                == spec_enclosing_children(node.children@, k as int, range, kinds_view(kinds@), deref_node(best)),
        decreases k,
    {
        let child = &node.children[k - 1];
        assert(decreases_to!(*node => node.children@[k - 1]));
        if child.named {
            best = enclosing_in(child, range, kinds, best);
        }
        k = k - 1;
    }
    best
}

/// The smallest descendant of `kinds` whose byte range encloses `range`:
/// the last such node a depth-first walk from `root` over named children
/// meets.
pub fn enclosing_kind<'a>(root: &'a SyntaxNode, range: ByteRange, kinds: &Vec<&'static str>) -> (found: Option<&'a SyntaxNode>)
    ensures
        deref_node(found) == spec_enclosing_in(*root, range, kinds_view(kinds@), None),
{
    enclosing_in(root, range, kinds, None)
}

/// How much of a hit must lie inside the searched range.
#[derive(Clone, Copy, Debug, PartialEq, Eq, Structural)]
pub enum Bound {
    /// The hit lies wholly inside the range.
    Enclosed,
    /// The hit merely overlaps the range.
    Intersecting,
}

/// Whether a hit found inside another hit is reported.
#[derive(Clone, Copy, Debug, PartialEq, Eq, Structural)]
pub enum Nested {
    /// Descent stops at a hit.
    Skip,
    /// Descent continues below a hit.
    Include,
}

/// A depth-first search for the named nodes of the listed kinds, bounded
/// to one byte range.
pub struct KindSearch {
    /// Byte range the search is bounded to.
    pub range: ByteRange,
    /// How much of a hit must lie inside `range`.
    pub bound: Bound,
    /// Whether hits nested inside other hits are reported.
    pub nested: Nested,
    /// The kinds a hit may have.
    pub kinds: Vec<&'static str>,
}

/// Whether `node` is a hit of a search over `range` for `kinds`.
pub open spec fn spec_is_search_hit(range: ByteRange, bound: Bound, kinds: Seq<Seq<char>>, node: SyntaxNode) -> bool {
    let inside = match bound {
        Bound::Enclosed => spec_enclosed(node, range),
        Bound::Intersecting => true,
    };
    inside && kinds.contains(node.kind@)
}

/// Whether `node` is a hit of `search`.
pub open spec fn spec_is_hit(search: KindSearch, node: SyntaxNode) -> bool {
    spec_is_search_hit(search.range, search.bound, kinds_view(search.kinds@), node)
}

/// The hits of a search under `node`, in source order: a subtree that
/// does not touch the range holds none; a hit is reported and, unless
/// nested hits are included, ends the descent.
pub open spec fn spec_search_hits(range: ByteRange, bound: Bound, nested: Nested, kinds: Seq<Seq<char>>, node: SyntaxNode) -> Seq<SyntaxNode>
    decreases node, 1int,
{
    if !spec_intersects(node, range) {
        seq![]
    } else if spec_is_search_hit(range, bound, kinds, node) {
        if nested == Nested::Skip {
            seq![node]
        } else {
            seq![node] + spec_search_children(range, bound, nested, kinds, node.children@, node.children@.len() as int)
        }
    } else {
        spec_search_children(range, bound, nested, kinds, node.children@, node.children@.len() as int)
    }
}

/// The hits under the first `k` named children, in order.
pub open spec fn spec_search_children(
    range: ByteRange,
    bound: Bound,
    nested: Nested,
    kinds: Seq<Seq<char>>,
    children: Seq<SyntaxNode>,
    k: int,
) -> Seq<SyntaxNode>
    decreases children, k,
{
    if k <= 0 || k > children.len() {
        seq![]
    } else {
        let before = spec_search_children(range, bound, nested, kinds, children, k - 1);
        if children[k - 1].named { before + spec_search_hits(range, bound, nested, kinds, children[k - 1]) } else { before }
    }
}

/// The hits of `search` under `node`, in source order.
pub open spec fn spec_hits(search: KindSearch, node: SyntaxNode) -> Seq<SyntaxNode> {
    spec_search_hits(search.range, search.bound, search.nested, kinds_view(search.kinds@), node)
}

/// The hits of `search` under the first `k` named children, in order.
pub open spec fn spec_children_hits(search: KindSearch, children: Seq<SyntaxNode>, k: int) -> Seq<SyntaxNode> {
    spec_search_children(search.range, search.bound, search.nested, kinds_view(search.kinds@), children, k)
}

/// The nodes a list of references points at.
pub open spec fn nodes_view(nodes: Seq<&SyntaxNode>) -> Seq<SyntaxNode> {
    nodes.map_values(|node: &SyntaxNode| *node)
}

impl KindSearch {
    /// Searches for nodes lying wholly inside `range`, stopping at each hit.
    pub fn enclosed(range: ByteRange, kinds: Vec<&'static str>) -> (search: KindSearch)
        ensures
            search.range == range,
            search.bound == Bound::Enclosed,
            search.nested == Nested::Skip,
            search.kinds@ == kinds@,
    {
        KindSearch { range, bound: Bound::Enclosed, nested: Nested::Skip, kinds }
    }

    /// Searches for nodes overlapping `range`, stopping at each hit.
    pub fn intersecting(range: ByteRange, kinds: Vec<&'static str>) -> (search: KindSearch)
        ensures
            search.range == range,
            search.bound == Bound::Intersecting,
            search.nested == Nested::Skip,
            search.kinds@ == kinds@,
    {
        KindSearch { range, bound: Bound::Intersecting, nested: Nested::Skip, kinds }
    }

    /// Reports hits nested inside other hits as well.
    pub fn with_nested_hits(self) -> (search: KindSearch)
        ensures
            search.range == self.range,
            search.bound == self.bound,
            search.nested == Nested::Include,
            search.kinds@ == self.kinds@,
    {
        KindSearch { range: self.range, bound: self.bound, nested: Nested::Include, kinds: self.kinds }
    }

    /// True when `node` satisfies the kind list within the bound.
    pub fn is_hit(&self, node: &SyntaxNode) -> (hit: bool)
        ensures
            hit == spec_is_hit(*self, *node),
    {
        let inside = match self.bound {
            Bound::Enclosed => node_enclosed_by_range(node, self.range),
            Bound::Intersecting => true,
        };
        inside && kind_in(node.kind.as_str(), &self.kinds)
    }

    /// Appends the hits under `node` to `out`, pruning subtrees that do not
    /// touch the range.
    fn collect<'t>(&self, node: &'t SyntaxNode, out: &mut Vec<&'t SyntaxNode>)
        ensures
            nodes_view(final(out)@) == nodes_view(old(out)@) + spec_hits(*self, *node),
        decreases *node,
    {
        if !node_intersects_range(node, self.range) {
            assert(nodes_view(out@) =~= nodes_view(out@) + Seq::<SyntaxNode>::empty());
            return;
        }
        let ghost start = nodes_view(out@);
        let hit = self.is_hit(node);
        if hit {
            out.push(node);
            assert(nodes_view(out@) =~= start + seq![*node]);
            if self.nested == Nested::Skip {
                return;
            }
        }
        let ghost prefix = nodes_view(out@);
        let mut index: usize = 0;
        while index < node.children.len()
            invariant
                index <= node.children@.len(),
                nodes_view(out@) == prefix + spec_children_hits(*self, node.children@, index as int),
            decreases node.children@.len() - index,
        {
            let child = &node.children[index];
            assert(decreases_to!(*node => node.children@[index as int]));
            let ghost before = nodes_view(out@);
            if child.named {
                self.collect(child, out);
            }
            assert(nodes_view(out@) =~= prefix + spec_children_hits(*self, node.children@, index as int + 1));
            index = index + 1;
        }
        if hit {
            assert(nodes_view(out@) =~= start + (seq![*node] + spec_children_hits(*self, node.children@, node.children@.len() as int)));
        }
    }

    /// Every hit under `root`, in source order.
    pub fn nodes<'t>(&self, root: &'t SyntaxNode) -> (hits: Vec<&'t SyntaxNode>)
        ensures
            nodes_view(hits@) == spec_hits(*self, *root),
    {
        let mut out: Vec<&'t SyntaxNode> = Vec::new();
        self.collect(root, &mut out);
        assert(nodes_view(Seq::<&SyntaxNode>::empty()) =~= Seq::<SyntaxNode>::empty());
        assert(nodes_view(out@) =~= spec_hits(*self, *root));
        out
    }

    /// The hit under `root`, when there is exactly one.
    pub fn sole_node<'t>(&self, root: &'t SyntaxNode) -> (sole: Option<&'t SyntaxNode>)
        ensures
            match sole {
                Some(node) => spec_hits(*self, *root) == seq![*node],
                None => spec_hits(*self, *root).len() != 1,
            },
    {
        let hits = self.nodes(root);
        if hits.len() == 1 {
            assert(nodes_view(hits@) =~= seq![*hits@[0]]);
            Some(hits[0])
        } else {
            None
        }
    }
}

} // verus!
