//! Whether a view's width is matched by one of its copies.
//!
//! A view is matched when some copy holds, among its own top-level nodes,
//! the kind of the view's first node and the kind of its last; unmatched
//! when it has copies and none does; unproven when it has no copy of its
//! own, or no resolvable nodes. A run of same-kind nodes is always
//! matched, so the rule never decides between two readings of a
//! homogeneous run.

use vstd::prelude::*;

use crate::ast::{fingerprints_view, Fingerprint, FingerprintView, NormalizedNode};
use crate::cluster::scope::{spec_member_top_kinds, DeclarationScopes};
use crate::cluster_filters::{kind_in, kinds_view};
use crate::pair::{FusedCluster, FusedEdge};

verus! {

/// What a view's copies say about its width.
#[derive(Debug, Clone, Copy, PartialEq, Eq, Structural)]
pub enum Width {
    /// A copy holds the kinds of both the view's end nodes.
    Matched,
    /// The view has copies, and none holds both end kinds.
    Unmatched,
    /// No copy, or no resolvable nodes: nothing is known.
    Unproven,
}

/// Whether edge `edge` joins two different regions: members of different
/// files, or of one file without overlapping.
pub open spec fn spec_is_copy_edge(fingerprints: Seq<FingerprintView>, edge: FusedEdge) -> bool {
    &&& edge.left < fingerprints.len()
    &&& edge.right < fingerprints.len()
    &&& !(fingerprints[edge.left as int].file_id == fingerprints[edge.right as int].file_id
        && fingerprints[edge.left as int].byte_range.spec_overlaps(fingerprints[edge.right as int].byte_range))
}

/// `view`'s copies among the first `k` edges, in edge order: the other end
/// of each copy edge touching it; `None` when no copy edge touches it.
pub open spec fn spec_copies_of(edges: Seq<FusedEdge>, fingerprints: Seq<FingerprintView>, view: usize, k: int) -> Option<Seq<usize>>
    decreases k,
{
    if k <= 0 {
        None
    } else {
        let prev = spec_copies_of(edges, fingerprints, view, k - 1);
        let edge = edges[k - 1];
        if !spec_is_copy_edge(fingerprints, edge) {
            prev
        } else {
            let after_left = if edge.left == view {
                Some(prev.unwrap_or(seq![]).push(edge.right))
            } else {
                prev
            };
            if edge.right == view {
                Some(after_left.unwrap_or(seq![]).push(edge.left))
            } else {
                after_left
            }
        }
    }
}

/// Whether some copy's top-level kinds hold both `first` and `last`.
pub open spec fn spec_some_copy_matches(
    trees: Seq<NormalizedNode>,
    fingerprints: Seq<FingerprintView>,
    copies: Seq<usize>,
    first: Seq<char>,
    last: Seq<char>,
) -> bool {
    exists|c: int| 0 <= c < copies.len() && #[trigger] copies[c] < fingerprints.len() && ({
        let kinds = spec_member_top_kinds(trees, fingerprints[copies[c] as int]);
        kinds.is_some() && kinds.unwrap().contains(first) && kinds.unwrap().contains(last)
    })
}

/// What `view`'s copies say about its width.
pub open spec fn spec_width(
    trees: Seq<NormalizedNode>,
    edges: Seq<FusedEdge>,
    fingerprints: Seq<FingerprintView>,
    view: usize,
) -> Width {
    let ends = if view < fingerprints.len() { spec_member_top_kinds(trees, fingerprints[view as int]) } else { None };
    let copies = spec_copies_of(edges, fingerprints, view, edges.len() as int);
    if ends.is_none() || ends.unwrap().len() == 0 || copies.is_none() {
        Width::Unproven
    } else if spec_some_copy_matches(trees, fingerprints, copies.unwrap(), ends.unwrap()[0], ends.unwrap().last()) {
        Width::Matched
    } else {
        Width::Unmatched
    }
}

/// Width evidence for one component.
pub struct WidthEvidence<'a> {
    /// Every fingerprint, indexed like the component's members.
    pub fingerprints: &'a [Fingerprint],
    /// Resolves a view to the nodes it covers.
    pub scopes: &'a DeclarationScopes<'a>,
    /// The component's admitted edges.
    pub edges: &'a [FusedEdge],
}

/// Every copy of `view`: the other end of each admitted edge that is not a
/// second view of the same region.
fn copies_by_member(edges: &[FusedEdge], fingerprints: &[Fingerprint], view: usize) -> (copies: Option<Vec<usize>>)
    ensures
        match copies {
            Some(c) => spec_copies_of(edges@, fingerprints_view(fingerprints@), view, edges@.len() as int) == Some(c@),
            None => spec_copies_of(edges@, fingerprints_view(fingerprints@), view, edges@.len() as int).is_none(),
        },
{
    let ghost fps = fingerprints_view(fingerprints@);
    let mut copies: Option<Vec<usize>> = None;
    let mut k: usize = 0;
    while k < edges.len()
        invariant
            k <= edges@.len(),
            fps == fingerprints_view(fingerprints@),
            match copies {
                Some(c) => spec_copies_of(edges@, fps, view, k as int) == Some(c@),
                None => spec_copies_of(edges@, fps, view, k as int).is_none(),
            },
        decreases edges@.len() - k,
    {
        let edge = edges[k];
        if edge.left < fingerprints.len() && edge.right < fingerprints.len() {
            let left = &fingerprints[edge.left];
            let right = &fingerprints[edge.right];
            let same_region = left.file_id.0 == right.file_id.0 && left.byte_range.overlaps(right.byte_range);
            if !same_region {
                if edge.left == view {
                    let mut list = match copies {
                        Some(list) => list,
                        None => Vec::new(),
                    };
                    list.push(edge.right);
                    copies = Some(list);
                }
                if edge.right == view {
                    let mut list = match copies {
                        Some(list) => list,
                        None => Vec::new(),
                    };
                    list.push(edge.left);
                    copies = Some(list);
                }
            }
        }
        k = k + 1;
    }
    copies
}

impl<'a> WidthEvidence<'a> {
    /// Starts one component's evidence.
    pub fn new(fused: &'a FusedCluster, fingerprints: &'a [Fingerprint], scopes: &'a DeclarationScopes<'a>) -> (evidence: WidthEvidence<'a>)
        ensures
            evidence.fingerprints@ == fingerprints@,
            evidence.edges@ == fused.edges@,
            evidence.scopes == scopes,
    {
        WidthEvidence { fingerprints, scopes, edges: fused.edges.as_slice() }
    }

    /// What `view`'s copies say about its width.
    pub fn width(&self, view: usize) -> (width: Width)
        ensures
            width == spec_width(self.scopes.trees@, self.edges@, fingerprints_view(self.fingerprints@), view),
    {
        self.decide(view)
    }

    /// Reads `view`'s end kinds and looks for a copy that has both.
    fn decide(&self, view: usize) -> (width: Width)
        ensures
            width == spec_width(self.scopes.trees@, self.edges@, fingerprints_view(self.fingerprints@), view),
    {
        let ghost fps = fingerprints_view(self.fingerprints@);
        let ghost trees = self.scopes.trees@;
        if view >= self.fingerprints.len() {
            return Width::Unproven;
        }
        assert(fps[view as int] == self.fingerprints@[view as int]@);
        let ends = match self.scopes.top_kinds(&self.fingerprints[view]) {
            Some(kinds) => kinds,
            None => return Width::Unproven,
        };
        if ends.len() == 0 {
            return Width::Unproven;
        }
        let first = ends[0];
        let last = ends[ends.len() - 1];
        assert(kinds_view(ends@)[0] == first@ && kinds_view(ends@).last() == last@);
        let copies = match copies_by_member(self.edges, self.fingerprints, view) {
            Some(copies) => copies,
            None => return Width::Unproven,
        };
        let mut c: usize = 0;
        while c < copies.len()
            invariant
                c <= copies@.len(),
                fps == fingerprints_view(self.fingerprints@),
                trees == self.scopes.trees@,
                view < fps.len(),
                spec_member_top_kinds(trees, fps[view as int]) == Some(kinds_view(ends@)),
                spec_copies_of(self.edges@, fps, view, self.edges@.len() as int) == Some(copies@),
                kinds_view(ends@).len() > 0,
                kinds_view(ends@)[0] == first@,
                kinds_view(ends@).last() == last@,
                forall|d: int| 0 <= d < c ==> !(#[trigger] copies@[d] < fps.len() && ({
                    let kinds = spec_member_top_kinds(trees, fps[copies@[d] as int]);
                    kinds.is_some() && kinds.unwrap().contains(first@) && kinds.unwrap().contains(last@)
                })),
            decreases copies@.len() - c,
        {
            let copy = copies[c];
            if copy < self.fingerprints.len() {
                match self.scopes.top_kinds(&self.fingerprints[copy]) {
                    Some(kinds) => {
                        if kind_in(first, &kinds) && kind_in(last, &kinds) {
                            assert(fps[copy as int] == self.fingerprints@[copy as int]@);
                            assert(copies@[c as int] < fps.len() && ({
                                let found = spec_member_top_kinds(trees, fps[copies@[c as int] as int]);
                                found.is_some() && found.unwrap().contains(first@) && found.unwrap().contains(last@)
                            }));
                            assert(spec_some_copy_matches(trees, fps, copies@, first@, last@));
                            return Width::Matched;
                        }
                    },
                    None => {},
                }
            }
            c = c + 1;
        }
        Width::Unmatched
    }
}

} // verus!
