//! Normalised AST representation shared across languages.
//!
//! Every language parser emits a [`NormalizedNode`] tree of identical shape
//! and semantics, so downstream stages are language-agnostic. `byte_range`
//! is an absolute byte offset into the original source file.

use vstd::prelude::*;

verus! {

/// Registry id of one source file.
#[derive(Clone, Copy, PartialEq, Eq, Structural, Debug, Hash, PartialOrd, Ord)]
pub struct FileId(pub u32);

/// Half-open byte range `[start, end)` into a source file.
#[derive(Clone, Copy, PartialEq, Eq, Structural, Debug)]
pub struct ByteRange {
    /// Inclusive start offset in bytes.
    pub start: usize,
    /// Exclusive end offset in bytes.
    pub end: usize,
}

impl ByteRange {
    /// Spec length: 0 when `end <= start`.
    pub open spec fn spec_len(self) -> nat {
        if self.end <= self.start { 0 } else { (self.end - self.start) as nat }
    }

    /// `other` lies wholly inside `self`.
    pub open spec fn spec_covers(self, other: ByteRange) -> bool {
        self.start <= other.start && other.end <= self.end
    }

    /// The two ranges share at least one byte position.
    pub open spec fn spec_overlaps(self, other: ByteRange) -> bool {
        self.start < other.end && other.start < self.end
    }

    /// `self` covers `other` and is wider on at least one side.
    pub open spec fn spec_strictly_encloses(self, other: ByteRange) -> bool {
        self.spec_covers(other) && (self.start < other.start || other.end < self.end)
    }

    /// The ranges share bytes but neither covers the other.
    pub open spec fn spec_partially_overlaps(self, other: ByteRange) -> bool {
        self.spec_overlaps(other) && !self.spec_covers(other) && !other.spec_covers(self)
    }

    /// Number of bytes spanned by this range; 0 when `end <= start`.
    pub fn len(self) -> (length: usize)
        ensures
            length == self.spec_len(),
    {
        self.end.saturating_sub(self.start)
    }

    /// True when this range spans no bytes.
    pub fn is_empty(self) -> (empty: bool)
        ensures
            empty == (self.end <= self.start),
            empty == (self.spec_len() == 0),
    {
        self.end <= self.start
    }

    /// True when `other` lies wholly inside this range.
    pub fn covers(self, other: ByteRange) -> (covered: bool)
        ensures
            covered == self.spec_covers(other),
    {
        self.start <= other.start && other.end <= self.end
    }

    /// True when the ranges share at least one byte position.
    pub fn overlaps(self, other: ByteRange) -> (shared: bool)
        ensures
            shared == self.spec_overlaps(other),
    {
        self.start < other.end && other.start < self.end
    }

    /// True when this range covers `other` and is wider on at least one side.
    pub fn strictly_encloses(self, other: ByteRange) -> (encloses: bool)
        ensures
            encloses == self.spec_strictly_encloses(other),
    {
        self.covers(other) && (self.start < other.start || other.end < self.end)
    }

    /// True when the ranges share bytes but neither covers the other.
    pub fn partially_overlaps(self, other: ByteRange) -> (straddles: bool)
        ensures
            straddles == self.spec_partially_overlaps(other),
    {
        self.overlaps(other) && !self.covers(other) && !other.covers(self)
    }
}

/// A normalised AST subtree.
#[derive(Debug)]
pub struct NormalizedNode {
    /// Structural node kind.
    pub kind: &'static str,
    /// Ordered children. Order matters for fingerprinting.
    pub children: Vec<NormalizedNode>,
    /// Byte range within the source file.
    pub byte_range: ByteRange,
    /// File this subtree belongs to.
    pub file_id: FileId,
}

/// `a + b`, saturating at `usize::MAX`.
pub open spec fn saturating_sum(a: nat, b: nat) -> nat {
    if a + b > usize::MAX { usize::MAX as nat } else { a + b }
}

/// Nodes in `node`'s subtree, including `node`, counted with saturation.
pub open spec fn node_count(node: NormalizedNode) -> nat
    decreases node, 0int,
{
    children_count(node.children@, node.children@.len() as int)
}

/// `1` plus the saturated node counts of the first `k` children.
pub open spec fn children_count(children: Seq<NormalizedNode>, k: int) -> nat
    decreases children, k,
{
    if k <= 0 || k > children.len() {
        1
    } else {
        saturating_sum(children_count(children, k - 1), node_count(children[k - 1]))
    }
}

/// The smallest descendant of `node` (or `node` itself) covering `range`,
/// taking the first child that covers it at each level.
pub open spec fn spec_covering(node: NormalizedNode, range: ByteRange) -> Option<NormalizedNode>
    decreases node, 0int,
{
    if node.byte_range.start > range.start || node.byte_range.end < range.end {
        None
    } else {
        match first_covering(node.children@, 0, range) {
            Some(found) => Some(found),
            None => Some(node),
        }
    }
}

/// The covering result of the first child at or after `from` that has one.
pub open spec fn first_covering(children: Seq<NormalizedNode>, from: int, range: ByteRange) -> Option<NormalizedNode>
    decreases children, children.len() - from,
{
    if from < 0 || from >= children.len() {
        None
    } else {
        match spec_covering(children[from], range) {
            Some(found) => Some(found),
            None => first_covering(children, from + 1, range),
        }
    }
}

/// `range` clipped to `node`'s extent.
pub open spec fn clipped(node: NormalizedNode, range: ByteRange) -> ByteRange {
    ByteRange {
        start: if range.start >= node.byte_range.start { range.start } else { node.byte_range.start },
        end: if range.end <= node.byte_range.end { range.end } else { node.byte_range.end },
    }
}

/// The answer of [`NormalizedNode::smallest_covering`].
pub open spec fn spec_smallest_covering(node: NormalizedNode, range: ByteRange) -> Option<NormalizedNode> {
    let c = clipped(node, range);
    if c.end <= c.start {
        None
    } else {
        spec_covering(node, c)
    }
}

impl NormalizedNode {
    /// Descends to the smallest subtree whose byte range contains `range`,
    /// after clipping `range` to this subtree's extent. A range wholly
    /// outside the tree clips to nothing and yields `None`.
    pub fn smallest_covering(&self, range: ByteRange) -> (found: Option<&NormalizedNode>)
        ensures
            match found {
                Some(n) => spec_smallest_covering(*self, range) == Some(*n),
                None => spec_smallest_covering(*self, range).is_none(),
            },
    {
        let clipped_range = ByteRange {
            start: if range.start >= self.byte_range.start { range.start } else { self.byte_range.start },
            end: if range.end <= self.byte_range.end { range.end } else { self.byte_range.end },
        };
        if clipped_range.is_empty() {
            return None;
        }
        self.covering(clipped_range)
    }

    /// Strict-containment descent.
    fn covering(&self, range: ByteRange) -> (found: Option<&NormalizedNode>)
        ensures
            match found {
                Some(n) => spec_covering(*self, range) == Some(*n),
                None => spec_covering(*self, range).is_none(),
            },
        decreases *self, 0int,
    {
        if self.byte_range.start > range.start || self.byte_range.end < range.end {
            return None;
        }
        let mut index: usize = 0;
        while index < self.children.len()
            invariant
                index <= self.children@.len(),
                self.byte_range.start <= range.start && range.end <= self.byte_range.end,
                first_covering(self.children@, 0, range) == first_covering(self.children@, index as int, range),
            decreases self.children@.len() - index,
        {
            let child = &self.children[index];
            assert(decreases_to!(*self => self.children@[index as int]));
            let found = child.covering(range);
            if found.is_some() {
                assert(first_covering(self.children@, index as int, range) == spec_covering(self.children@[index as int], range));
                return found;
            }
            index = index + 1;
        }
        Some(self)
    }

    /// Total number of nodes in this subtree, including `self`,
    /// counted with saturation at `usize::MAX`.
    pub fn subtree_node_count(&self) -> (count: usize)
        ensures
            count == node_count(*self),
        decreases *self, 0int,
    {
        let mut total: usize = 1;
        let mut index: usize = 0;
        while index < self.children.len()
            invariant
                index <= self.children@.len(),
                total == children_count(self.children@, index as int),
            decreases self.children@.len() - index,
        {
            assert(decreases_to!(*self => self.children@[index as int]));
            let child = self.children[index].subtree_node_count();
            total = total.saturating_add(child);
            index = index + 1;
        }
        total
    }
}

/// The model of a [`Fingerprint`]: its hash as a byte sequence.
pub struct FingerprintView {
    /// Merkle hash bytes.
    pub hash: Seq<u8>,
    /// File the occurrence lives in.
    pub file_id: FileId,
    /// Byte range of the occurrence.
    pub byte_range: ByteRange,
    /// Normalised nodes the occurrence holds.
    pub node_count: usize,
}

impl View for Fingerprint {
    type V = FingerprintView;

    open spec fn view(&self) -> FingerprintView {
        FingerprintView {
            hash: self.hash@,
            file_id: self.file_id,
            byte_range: self.byte_range,
            node_count: self.node_count,
        }
    }
}

/// The models of a sequence of fingerprints.
pub open spec fn fingerprints_view(members: Seq<Fingerprint>) -> Seq<FingerprintView> {
    members.map_values(|member: Fingerprint| member@)
}

/// Whether two fingerprints are equal in every field.
pub fn same_fingerprint(left: &Fingerprint, right: &Fingerprint) -> (same: bool)
    ensures
        same == (left@ == right@),
{
    if left.file_id.0 != right.file_id.0 || left.byte_range.start != right.byte_range.start
        || left.byte_range.end != right.byte_range.end || left.node_count != right.node_count {
        return false;
    }
    let mut index: usize = 0;
    while index < 32
        invariant
            index <= 32,
            left.hash@.len() == 32,
            right.hash@.len() == 32,
            forall|j: int| 0 <= j < index ==> left.hash@[j] == right.hash@[j],
        decreases 32 - index,
    {
        if left.hash[index] != right.hash[index] {
            return false;
        }
        index = index + 1;
    }
    assert(left.hash@ =~= right.hash@);
    true
}

/// Whether two member lists are equal fingerprint by fingerprint.
pub fn same_fingerprints(left: &Vec<Fingerprint>, right: &Vec<Fingerprint>) -> (same: bool)
    ensures
        same == (fingerprints_view(left@) == fingerprints_view(right@)),
{
    if left.len() != right.len() {
        return false;
    }
    let mut index: usize = 0;
    while index < left.len()
        invariant
            index <= left@.len(),
            left@.len() == right@.len(),
            forall|j: int| 0 <= j < index ==> left@[j]@ == right@[j]@,
        decreases left@.len() - index,
    {
        if !same_fingerprint(&left[index], &right[index]) {
            assert(fingerprints_view(left@)[index as int] != fingerprints_view(right@)[index as int]);
            return false;
        }
        index = index + 1;
    }
    assert(fingerprints_view(left@) =~= fingerprints_view(right@));
    true
}

/// A copy of a member list.
pub fn copy_fingerprints(members: &Vec<Fingerprint>) -> (copy: Vec<Fingerprint>)
    ensures
        copy@ == members@,
{
    let mut copy: Vec<Fingerprint> = Vec::new();
    let mut index: usize = 0;
    while index < members.len()
        invariant
            index <= members@.len(),
            copy@ == members@.take(index as int),
        decreases members@.len() - index,
    {
        copy.push(members[index]);
        assert(copy@ =~= members@.take(index as int + 1));
        index = index + 1;
    }
    assert(copy@ =~= members@);
    copy
}

/// One Merkle-fingerprinted occurrence of a normalised subtree.
#[derive(Clone, Copy, Debug)]
pub struct Fingerprint {
    /// Merkle hash of the normalised subtree.
    pub hash: [u8; 32],
    /// File the occurrence lives in.
    pub file_id: FileId,
    /// Byte range of the occurrence.
    pub byte_range: ByteRange,
    /// Normalised nodes the occurrence holds.
    pub node_count: usize,
}

} // verus!
