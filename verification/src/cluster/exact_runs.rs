//! Joins overlapping exact sibling windows over two files into the copied
//! run they both read, before the straddle rule can mistake their copied
//! ends for padding.
//!
//! A join is justified by the raw bytes alone: both complete unions must
//! be byte-identical, and each must be one node or whole adjacent
//! children of one parent in its file's tree.

use vstd::prelude::*;

use crate::ast::{
    children_count, fingerprints_view, node_count, ByteRange, FileId, Fingerprint, FingerprintView,
    NormalizedNode,
};
use crate::buckets::ClusterKind;
use super::{duplicate_mass, spec_duplicate_mass};
use super::identity::{blake3_digest, copy_unnamed, digest, drafts_view, Unnamed, UnnamedView};

verus! {

/// The source bytes of one file.
pub struct SourceFile {
    /// The file.
    pub file_id: FileId,
    /// Its bytes.
    pub bytes: Vec<u8>,
}

// ----- two-file views -----

/// The two members of a view in ascending file order, when the view has
/// exactly one occurrence in each of two files.
pub open spec fn spec_paired(members: Seq<FingerprintView>) -> Option<(FingerprintView, FingerprintView)> {
    if members.len() != 2 {
        None
    } else if members[0].file_id.0 < members[1].file_id.0 {
        Some((members[0], members[1]))
    } else if members[1].file_id.0 < members[0].file_id.0 {
        Some((members[1], members[0]))
    } else {
        None
    }
}

/// Both views cover exactly the same bytes in the same two files.
pub open spec fn spec_same_spans(first: Seq<FingerprintView>, second: Seq<FingerprintView>) -> bool {
    match (spec_paired(first), spec_paired(second)) {
        (Some(a), Some(b)) => a.0.file_id == b.0.file_id && a.0.byte_range == b.0.byte_range
            && a.1.file_id == b.1.file_id && a.1.byte_range == b.1.byte_range,
        _ => false,
    }
}

/// Each occurrence of the wide view strictly encloses its counterpart in
/// the narrow view, file by file.
pub open spec fn spec_encloses_both(wide: Seq<FingerprintView>, narrow: Seq<FingerprintView>) -> bool {
    match (spec_paired(wide), spec_paired(narrow)) {
        (Some(a), Some(b)) => a.0.file_id == b.0.file_id && a.0.byte_range.spec_strictly_encloses(b.0.byte_range)
            && a.1.file_id == b.1.file_id && a.1.byte_range.spec_strictly_encloses(b.1.byte_range),
        _ => false,
    }
}

/// Members in ascending file order, with exactly one occurrence in each
/// of two files.
pub fn paired(members: &[Fingerprint]) -> (pair: Option<(Fingerprint, Fingerprint)>)
    ensures
        match pair {
            Some((a, b)) => spec_paired(fingerprints_view(members@)) == Some((a@, b@)),
            None => spec_paired(fingerprints_view(members@)).is_none(),
        },
{
    if members.len() != 2 {
        return None;
    }
    let first = members[0];
    let second = members[1];
    if first.file_id.0 < second.file_id.0 {
        Some((first, second))
    } else if second.file_id.0 < first.file_id.0 {
        Some((second, first))
    } else {
        None
    }
}

/// Both views cover exactly the same bytes in the same two files.
pub fn same_spans(first: &[Fingerprint], second: &[Fingerprint]) -> (same: bool)
    ensures
        same == spec_same_spans(fingerprints_view(first@), fingerprints_view(second@)),
{
    match (paired(first), paired(second)) {
        (Some((a0, a1)), Some((b0, b1))) => a0.file_id.0 == b0.file_id.0 && a0.byte_range == b0.byte_range
            && a1.file_id.0 == b1.file_id.0 && a1.byte_range == b1.byte_range,
        _ => false,
    }
}

/// Both occurrences of the larger exact run strictly contain the smaller.
pub fn encloses_both(wide: &[Fingerprint], narrow: &[Fingerprint]) -> (encloses: bool)
    ensures
        encloses == spec_encloses_both(fingerprints_view(wide@), fingerprints_view(narrow@)),
{
    match (paired(wide), paired(narrow)) {
        (Some((a0, a1)), Some((b0, b1))) => a0.file_id.0 == b0.file_id.0 && a0.byte_range.strictly_encloses(b0.byte_range)
            && a1.file_id.0 == b1.file_id.0 && a1.byte_range.strictly_encloses(b1.byte_range),
        _ => false,
    }
}

// ----- source bytes -----

/// The bytes recorded for `file`: the first entry naming it.
pub open spec fn spec_source_of(sources: Seq<SourceFile>, file: FileId) -> Option<Seq<u8>>
    decreases sources.len(),
{
    if sources.len() == 0 {
        None
    } else if sources[0].file_id == file {
        Some(sources[0].bytes@)
    } else {
        spec_source_of(sources.drop_first(), file)
    }
}

/// The bytes `range` spans in `file`, when the file is known and the
/// range lies inside it.
pub open spec fn spec_source_bytes(sources: Seq<SourceFile>, file: FileId, range: ByteRange) -> Option<Seq<u8>> {
    match spec_source_of(sources, file) {
        Some(bytes) => if range.start <= range.end && range.end <= bytes.len() {
            Some(bytes.subrange(range.start as int, range.end as int))
        } else {
            None
        },
        None => None,
    }
}

/// The source span of one member, guarded against stale byte offsets.
pub fn source_bytes<'a>(sources: &'a [SourceFile], file: FileId, range: ByteRange) -> (bytes: Option<&'a [u8]>)
    ensures
        match bytes {
            Some(b) => spec_source_bytes(sources@, file, range) == Some(b@),
            None => spec_source_bytes(sources@, file, range).is_none(),
        },
{
    let mut index: usize = 0;
    assert(sources@.skip(0) =~= sources@);
    while index < sources.len()
        invariant
            index <= sources@.len(),
            spec_source_of(sources@, file) == spec_source_of(sources@.skip(index as int), file),
        decreases sources@.len() - index,
    {
        assert(sources@.skip(index as int).drop_first() =~= sources@.skip(index as int + 1));
        if sources[index].file_id.0 == file.0 {
            let all = sources[index].bytes.as_slice();
            if range.start <= range.end && range.end <= all.len() {
                return Some(vstd::slice::slice_subrange(all, range.start, range.end));
            }
            return None;
        }
        index = index + 1;
    }
    None
}

/// Byte-string equality.
fn same_bytes(a: &[u8], b: &[u8]) -> (same: bool)
    ensures
        same == (a@ == b@),
{
    if a.len() != b.len() {
        return false;
    }
    let mut index: usize = 0;
    while index < a.len()
        invariant
            index <= a@.len(),
            a@.len() == b@.len(),
            forall|j: int| 0 <= j < index ==> a@[j] == b@[j],
        decreases a@.len() - index,
    {
        if a[index] != b[index] {
            return false;
        }
        index = index + 1;
    }
    assert(a@ =~= b@);
    true
}

/// The union of two ranges that extend each other in both directions.
pub open spec fn spec_union(first: ByteRange, second: ByteRange) -> Option<ByteRange> {
    if first.spec_partially_overlaps(second) {
        Some(ByteRange {
            start: if first.start <= second.start { first.start } else { second.start },
            end: if first.end >= second.end { first.end } else { second.end },
        })
    } else {
        None
    }
}

/// An overlapping pair must extend in both directions; containment has
/// its own subsumption rule and cannot extend the published span.
pub fn union(first: ByteRange, second: ByteRange) -> (joined: Option<ByteRange>)
    ensures
        joined == spec_union(first, second),
{
    if first.partially_overlaps(second) {
        Some(ByteRange {
            start: if first.start <= second.start { first.start } else { second.start },
            end: if first.end >= second.end { first.end } else { second.end },
        })
    } else {
        None
    }
}

/// Both file ranges of an overlap whose whole union has identical bytes.
pub open spec fn spec_exact_union(
    left: Seq<FingerprintView>,
    right: Seq<FingerprintView>,
    sources: Seq<SourceFile>,
) -> Option<((FileId, ByteRange), (FileId, ByteRange))> {
    match (spec_paired(left), spec_paired(right)) {
        (Some(l), Some(r)) => if l.0.file_id != r.0.file_id || l.1.file_id != r.1.file_id {
            None
        } else {
            match (spec_union(l.0.byte_range, r.0.byte_range), spec_union(l.1.byte_range, r.1.byte_range)) {
                (Some(first), Some(second)) => match (
                    spec_source_bytes(sources, l.0.file_id, first),
                    spec_source_bytes(sources, l.1.file_id, second),
                ) {
                    (Some(first_bytes), Some(second_bytes)) => if first_bytes == second_bytes {
                        Some(((l.0.file_id, first), (l.1.file_id, second)))
                    } else {
                        None
                    },
                    _ => None,
                },
                _ => None,
            }
        },
        _ => None,
    }
}

/// Both file ranges of an overlap whose whole union has identical bytes.
pub fn exact_union(left: &[Fingerprint], right: &[Fingerprint], sources: &[SourceFile])
    -> (found: Option<((FileId, ByteRange), (FileId, ByteRange))>)
    ensures
        found == spec_exact_union(fingerprints_view(left@), fingerprints_view(right@), sources@),
{
    let (left_first, left_second) = match paired(left) {
        Some(pair) => pair,
        None => return None,
    };
    let (right_first, right_second) = match paired(right) {
        Some(pair) => pair,
        None => return None,
    };
    if left_first.file_id.0 != right_first.file_id.0 || left_second.file_id.0 != right_second.file_id.0 {
        return None;
    }
    let first = match union(left_first.byte_range, right_first.byte_range) {
        Some(range) => range,
        None => return None,
    };
    let second = match union(left_second.byte_range, right_second.byte_range) {
        Some(range) => range,
        None => return None,
    };
    let first_bytes = match source_bytes(sources, left_first.file_id, first) {
        Some(bytes) => bytes,
        None => return None,
    };
    let second_bytes = match source_bytes(sources, left_second.file_id, second) {
        Some(bytes) => bytes,
        None => return None,
    };
    if same_bytes(first_bytes, second_bytes) {
        Some(((left_first.file_id, first), (left_second.file_id, second)))
    } else {
        None
    }
}

/// Whether the two complete overlapping views prove a longer copied run.
pub fn copied_union(left: &[Fingerprint], right: &[Fingerprint], sources: &[SourceFile]) -> (copied: bool)
    ensures
        copied == spec_exact_union(fingerprints_view(left@), fingerprints_view(right@), sources@).is_some(),
{
    exact_union(left, right, sources).is_some()
}


// ----- parse-tree extents -----

/// The tree recorded for `file`: the last tree naming it.
pub open spec fn spec_tree_of(trees: Seq<NormalizedNode>, file: FileId) -> Option<NormalizedNode>
    decreases trees.len(),
{
    if trees.len() == 0 {
        None
    } else if trees.last().file_id == file {
        Some(trees.last())
    } else {
        spec_tree_of(trees.drop_last(), file)
    }
}

/// The tree recorded for `file`.
fn tree_of<'a>(trees: &'a [NormalizedNode], file: FileId) -> (tree: Option<&'a NormalizedNode>)
    ensures
        match tree {
            Some(t) => spec_tree_of(trees@, file) == Some(*t),
            None => spec_tree_of(trees@, file).is_none(),
        },
{
    let mut remaining: usize = trees.len();
    assert(trees@.take(trees@.len() as int) =~= trees@);
    while remaining > 0
        invariant
            remaining <= trees@.len(),
            spec_tree_of(trees@, file) == spec_tree_of(trees@.take(remaining as int), file),
        decreases remaining,
    {
        let index = remaining - 1;
        assert(trees@.take(remaining as int).drop_last() =~= trees@.take(index as int));
        if trees[index].file_id.0 == file.0 {
            return Some(&trees[index]);
        }
        remaining = index;
    }
    None
}

/// Position of the first child starting at `start`, scanning from `from`;
/// the child count when none does.
pub open spec fn first_start_at(children: Seq<NormalizedNode>, start: usize, from: int) -> int
    decreases children.len() - from,
{
    if from < 0 || from >= children.len() {
        children.len() as int
    } else if children[from].byte_range.start == start {
        from
    } else {
        first_start_at(children, start, from + 1)
    }
}

/// Position of the first child ending at `end`, scanning from `from`;
/// the child count when none does.
pub open spec fn first_end_at(children: Seq<NormalizedNode>, end: usize, from: int) -> int
    decreases children.len() - from,
{
    if from < 0 || from >= children.len() {
        children.len() as int
    } else if children[from].byte_range.end == end {
        from
    } else {
        first_end_at(children, end, from + 1)
    }
}

/// The node counts of `children[lo..hi]`, summed.
pub open spec fn counts_sum(children: Seq<NormalizedNode>, lo: int, hi: int) -> int
    decreases hi - lo,
{
    if hi <= lo {
        0
    } else {
        counts_sum(children, lo, hi - 1) + node_count(children[hi - 1])
    }
}

/// Whole siblings between the child starting where `range` starts and the
/// child ending where it ends: their summed node count, when both exist in
/// that order and the sum fits in `usize`.
pub open spec fn spec_sibling_children_count(children: Seq<NormalizedNode>, range: ByteRange) -> Option<usize> {
    let first = first_start_at(children, range.start, 0);
    let last = first_end_at(children, range.end, 0);
    if first >= children.len() || last >= children.len() || first > last {
        None
    } else if counts_sum(children, first, last + 1) > usize::MAX {
        None
    } else {
        Some(counts_sum(children, first, last + 1) as usize)
    }
}

/// Node count of the authored run `range` reads in `tree`: the node
/// itself, whole adjacent children of one parent, or the same found in
/// the first child that covers it and holds such a run.
pub open spec fn spec_sibling_node_count(tree: NormalizedNode, range: ByteRange) -> Option<usize>
    decreases tree, 0int,
{
    if tree.byte_range == range {
        Some(node_count(tree) as usize)
    } else {
        match spec_sibling_children_count(tree.children@, range) {
            Some(nodes) => Some(nodes),
            None => first_sibling_count(tree.children@, 0, range),
        }
    }
}

/// The run count found in the first child at or after `from` that covers
/// `range` and holds one.
pub open spec fn first_sibling_count(children: Seq<NormalizedNode>, from: int, range: ByteRange) -> Option<usize>
    decreases children, children.len() - from,
{
    if from < 0 || from >= children.len() {
        None
    } else if children[from].byte_range.spec_covers(range) && spec_sibling_node_count(children[from], range).is_some() {
        spec_sibling_node_count(children[from], range)
    } else {
        first_sibling_count(children, from + 1, range)
    }
}

proof fn lemma_counts_sum_grows(children: Seq<NormalizedNode>, lo: int, mid: int, hi: int)
    requires
        lo <= mid <= hi,
    ensures
        counts_sum(children, lo, mid) <= counts_sum(children, lo, hi),
    decreases hi - mid,
{
    if mid < hi {
        lemma_counts_sum_grows(children, lo, mid, hi - 1);
    }
}

/// Counts whole siblings between the exact starting and ending child.
fn sibling_children_count(children: &Vec<NormalizedNode>, range: ByteRange) -> (nodes: Option<usize>)
    ensures
        nodes == spec_sibling_children_count(children@, range),
{
    let ghost kids = children@;
    let mut first: usize = 0;
    while first < children.len() && children[first].byte_range.start != range.start
        invariant
            first <= kids.len(),
            kids == children@,
            first_start_at(kids, range.start, 0) == first_start_at(kids, range.start, first as int),
        decreases kids.len() - first,
    {
        first = first + 1;
    }
    let mut last: usize = 0;
    while last < children.len() && children[last].byte_range.end != range.end
        invariant
            last <= kids.len(),
            kids == children@,
            first_end_at(kids, range.end, 0) == first_end_at(kids, range.end, last as int),
        decreases kids.len() - last,
    {
        last = last + 1;
    }
    assert(first_start_at(kids, range.start, first as int) == first as int);
    assert(first_end_at(kids, range.end, last as int) == last as int);
    if first >= children.len() || last >= children.len() || first > last {
        return None;
    }
    let mut total: usize = 0;
    let mut index: usize = first;
    while index <= last
        invariant
            first <= index <= last + 1,
            last < kids.len(),
            last < children.len(),
            first_start_at(kids, range.start, 0) == first as int,
            first_end_at(kids, range.end, 0) == last as int,
            kids == children@,
            total == counts_sum(kids, first as int, index as int),
        decreases last + 1 - index,
    {
        let count = children[index].subtree_node_count();
        match total.checked_add(count) {
            Some(sum) => {
                total = sum;
            },
            None => {
                proof {
                    lemma_counts_sum_grows(kids, first as int, index as int + 1, last as int + 1);
                }
                return None;
            },
        }
        index = index + 1;
    }
    Some(total)
}

/// An authored run is either one node or whole adjacent children of one
/// parent; a range cut through a construct cannot be joined.
fn sibling_node_count(tree: &NormalizedNode, range: ByteRange) -> (nodes: Option<usize>)
    ensures
        nodes == spec_sibling_node_count(*tree, range),
    decreases *tree, 0int,
{
    if tree.byte_range == range {
        return Some(tree.subtree_node_count());
    }
    let direct = sibling_children_count(&tree.children, range);
    if direct.is_some() {
        return direct;
    }
    let mut index: usize = 0;
    while index < tree.children.len()
        invariant
            index <= tree.children@.len(),
            tree.byte_range != range,
            spec_sibling_children_count(tree.children@, range).is_none(),
            first_sibling_count(tree.children@, 0, range) == first_sibling_count(tree.children@, index as int, range),
        decreases tree.children@.len() - index,
    {
        let child = &tree.children[index];
        if child.byte_range.covers(range) {
            assert(decreases_to!(*tree => tree.children@[index as int]));
            let found = sibling_node_count(child, range);
            if found.is_some() {
                return found;
            }
        }
        index = index + 1;
    }
    None
}

/// The fingerprint a joined extent publishes: the digest of its bytes and
/// the node count of its sibling run.
pub open spec fn spec_member(
    file: FileId,
    range: ByteRange,
    trees: Seq<NormalizedNode>,
    sources: Seq<SourceFile>,
) -> Option<FingerprintView> {
    match spec_source_bytes(sources, file, range) {
        None => None,
        Some(bytes) => match spec_tree_of(trees, file) {
            None => None,
            Some(tree) => match spec_sibling_node_count(tree, range) {
                None => None,
                Some(nodes) => Some(FingerprintView {
                    hash: blake3_digest(bytes),
                    file_id: file,
                    byte_range: range,
                    node_count: nodes,
                }),
            },
        },
    }
}

/// Reads the exact source and counts the AST nodes in its sibling run.
fn member(file: FileId, range: ByteRange, trees: &[NormalizedNode], sources: &[SourceFile]) -> (found: Option<Fingerprint>)
    ensures
        match found {
            Some(f) => spec_member(file, range, trees@, sources@) == Some(f@),
            None => spec_member(file, range, trees@, sources@).is_none(),
        },
{
    let bytes = match source_bytes(sources, file, range) {
        Some(bytes) => bytes,
        None => return None,
    };
    let tree = match tree_of(trees, file) {
        Some(tree) => tree,
        None => return None,
    };
    let nodes = match sibling_node_count(tree, range) {
        Some(nodes) => nodes,
        None => return None,
    };
    Some(Fingerprint { hash: digest(bytes), file_id: file, byte_range: range, node_count: nodes })
}

/// The view a join publishes: the two verified extents, in the original
/// view's member order, counted at the smaller extent's nodes.
pub open spec fn spec_joined_view(original: UnnamedView, first: FingerprintView, second: FingerprintView) -> UnnamedView {
    let nodes = if first.node_count <= second.node_count { first.node_count } else { second.node_count };
    UnnamedView {
        members: if original.members.len() > 0 && original.members[0].file_id == first.file_id {
            seq![first, second]
        } else {
            seq![second, first]
        },
        kind: ClusterKind::Identical,
        mass: spec_duplicate_mass(ClusterKind::Identical, nodes as nat, original.members.len()),
        shape_family: original.shape_family,
    }
}

/// The new fingerprint names its verified source extent, not either old
/// window's hash; mass is recounted from the joined members.
fn joined_view(original: &Unnamed, first: Fingerprint, second: Fingerprint) -> (joined: Unnamed)
    ensures
        joined@ == spec_joined_view(original@, first@, second@),
{
    let nodes = if first.node_count <= second.node_count { first.node_count } else { second.node_count };
    let keeps_order = original.members.len() > 0 && original.members[0].file_id.0 == first.file_id.0;
    let members = if keeps_order { vec![first, second] } else { vec![second, first] };
    let joined = Unnamed {
        members,
        kind: ClusterKind::Identical,
        mass: duplicate_mass(ClusterKind::Identical, nodes, original.members.len()),
        shape_family: original.shape_family,
    };
    assert(joined@.members =~= spec_joined_view(original@, first@, second@).members);
    joined
}

/// The view a join of `left` and `right` publishes, when their complete
/// union is byte-identical and both extents are authored runs.
pub open spec fn spec_join(
    left: UnnamedView,
    right: UnnamedView,
    trees: Seq<NormalizedNode>,
    sources: Seq<SourceFile>,
) -> Option<UnnamedView> {
    match spec_exact_union(left.members, right.members, sources) {
        None => None,
        Some(((first_file, first_range), (second_file, second_range))) => match (
            spec_member(first_file, first_range, trees, sources),
            spec_member(second_file, second_range, trees, sources),
        ) {
            (Some(first), Some(second)) => Some(spec_joined_view(left, first, second)),
            _ => None,
        },
    }
}

/// One new view is justified only by the raw content of both full unions.
fn join(left: &Unnamed, right: &Unnamed, trees: &[NormalizedNode], sources: &[SourceFile]) -> (joined: Option<Unnamed>)
    ensures
        match joined {
            Some(j) => spec_join(left@, right@, trees@, sources@) == Some(j@),
            None => spec_join(left@, right@, trees@, sources@).is_none(),
        },
{
    let ((first_file, first_range), (second_file, second_range)) = match exact_union(
        left.members.as_slice(),
        right.members.as_slice(),
        sources,
    ) {
        Some(found) => found,
        None => return None,
    };
    let first = match member(first_file, first_range, trees, sources) {
        Some(found) => found,
        None => return None,
    };
    let second = match member(second_file, second_range, trees, sources) {
        Some(found) => found,
        None => return None,
    };
    Some(joined_view(left, first, second))
}


// ----- slots -----

/// The models of a slot list: one optional view per draft.
pub open spec fn slots_view(slots: Seq<Option<Unnamed>>) -> Seq<Option<UnnamedView>> {
    slots.map_values(|slot: Option<Unnamed>| match slot {
        Some(draft) => Some(draft@),
        None => None,
    })
}

/// Every index `group` names lies below `len`.
pub open spec fn indices_below(group: Seq<usize>, len: int) -> bool {
    forall|p: int| 0 <= p < group.len() ==> #[trigger] group[p] < len
}

/// The first position at or after `from` whose view joins with `first`'s.
pub open spec fn spec_next_join(
    first: usize,
    group: Seq<usize>,
    slots: Seq<Option<UnnamedView>>,
    trees: Seq<NormalizedNode>,
    sources: Seq<SourceFile>,
    from: int,
) -> Option<(usize, UnnamedView)>
    decreases group.len() - from,
{
    if from < 0 || from >= group.len() {
        None
    } else {
        let second = group[from];
        let found = match (slots[first as int], slots[second as int]) {
            (Some(left), Some(right)) => if first != second { spec_join(left, right, trees, sources) } else { None },
            _ => None,
        };
        match found {
            Some(joined) => Some((second, joined)),
            None => spec_next_join(first, group, slots, trees, sources, from + 1),
        }
    }
}

/// `first`'s view after it has absorbed, one at a time, every view of the
/// group that proves more bytes with it (at most `fuel` of them).
pub open spec fn spec_settle(
    first: usize,
    group: Seq<usize>,
    slots: Seq<Option<UnnamedView>>,
    trees: Seq<NormalizedNode>,
    sources: Seq<SourceFile>,
    fuel: nat,
) -> Seq<Option<UnnamedView>>
    decreases fuel,
{
    if fuel == 0 {
        slots
    } else {
        match spec_next_join(first, group, slots, trees, sources, 0) {
            None => slots,
            Some((second, joined)) => spec_settle(
                first,
                group,
                slots.update(first as int, Some(joined)).update(second as int, None),
                trees,
                sources,
                (fuel - 1) as nat,
            ),
        }
    }
}

/// The slots after the first `k` positions of the group have each been
/// settled in turn.
pub open spec fn spec_coalesce_group(
    group: Seq<usize>,
    slots: Seq<Option<UnnamedView>>,
    trees: Seq<NormalizedNode>,
    sources: Seq<SourceFile>,
    k: int,
) -> Seq<Option<UnnamedView>>
    decreases k,
{
    if k <= 0 {
        slots
    } else {
        spec_settle(group[k - 1], group, spec_coalesce_group(group, slots, trees, sources, k - 1), trees, sources, group.len())
    }
}

/// How many of the first `k` positions of the group hold a live view.
pub open spec fn spec_live(group: Seq<usize>, slots: Seq<Option<UnnamedView>>, k: int) -> nat
    decreases k,
{
    if k <= 0 {
        0
    } else {
        spec_live(group, slots, k - 1) + if slots[group[k - 1] as int].is_some() { 1nat } else { 0nat }
    }
}

proof fn lemma_live_bounded(group: Seq<usize>, slots: Seq<Option<UnnamedView>>, k: int)
    requires
        0 <= k,
    ensures
        spec_live(group, slots, k) <= k,
    decreases k,
{
    if k > 0 {
        lemma_live_bounded(group, slots, k - 1);
    }
}

proof fn lemma_live_two(group: Seq<usize>, slots: Seq<Option<UnnamedView>>, p: int, q: int, k: int)
    requires
        0 <= p < k,
        0 <= q < k,
        p != q,
        slots[group[p] as int].is_some(),
        slots[group[q] as int].is_some(),
    ensures
        spec_live(group, slots, k) >= 2,
    decreases k,
{
    if k - 1 != p && k - 1 != q {
        lemma_live_two(group, slots, p, q, k - 1);
    } else {
        let other = if k - 1 == p { q } else { p };
        lemma_live_one(group, slots, other, k - 1);
    }
}

proof fn lemma_live_one(group: Seq<usize>, slots: Seq<Option<UnnamedView>>, p: int, k: int)
    requires
        0 <= p < k,
        slots[group[p] as int].is_some(),
    ensures
        spec_live(group, slots, k) >= 1,
    decreases k,
{
    if k - 1 != p {
        lemma_live_one(group, slots, p, k - 1);
    }
}

proof fn lemma_live_drops(
    group: Seq<usize>,
    before: Seq<Option<UnnamedView>>,
    after: Seq<Option<UnnamedView>>,
    second: usize,
    q: int,
    k: int,
)
    requires
        0 <= q < group.len(),
        group[q] == second,
        second < before.len(),
        before[second as int].is_some(),
        after[second as int].is_none(),
        after.len() == before.len(),
        forall|i: int| 0 <= i < before.len() && #[trigger] after[i].is_some() ==> before[i].is_some(),
        indices_below(group, before.len() as int),
        0 <= k <= group.len(),
    ensures
        spec_live(group, after, k) <= spec_live(group, before, k),
        k > q ==> spec_live(group, after, k) + 1 <= spec_live(group, before, k),
    decreases k,
{
    if k > 0 {
        lemma_live_drops(group, before, after, second, q, k - 1);
        assert(group[k - 1] < before.len());
    }
}

proof fn lemma_next_join_found(
    first: usize,
    group: Seq<usize>,
    slots: Seq<Option<UnnamedView>>,
    trees: Seq<NormalizedNode>,
    sources: Seq<SourceFile>,
    from: int,
)
    requires
        0 <= from,
        spec_next_join(first, group, slots, trees, sources, from).is_some(),
    ensures
        ({
            let (second, joined) = spec_next_join(first, group, slots, trees, sources, from).unwrap();
            exists|q: int| from <= q < group.len() && group[q] == second
        }),
        ({
            let (second, joined) = spec_next_join(first, group, slots, trees, sources, from).unwrap();
            &&& slots[first as int].is_some()
            &&& slots[second as int].is_some()
            &&& first != second
            &&& spec_join(slots[first as int].unwrap(), slots[second as int].unwrap(), trees, sources) == Some(joined)
        }),
    decreases group.len() - from,
{
    let second = group[from];
    let found = match (slots[first as int], slots[second as int]) {
        (Some(left), Some(right)) => if first != second { spec_join(left, right, trees, sources) } else { None },
        _ => None,
    };
    if found.is_none() {
        lemma_next_join_found(first, group, slots, trees, sources, from + 1);
    }
}

/// A view whose two copies are proved by source bytes: a byte-identical
/// view over two distinct files whose members' ranges read the same bytes,
/// each member named by the digest of those bytes.
pub open spec fn spec_byte_proven(view: UnnamedView, sources: Seq<SourceFile>) -> bool {
    &&& view.kind == ClusterKind::Identical
    &&& view.members.len() == 2
    &&& view.members[0].file_id != view.members[1].file_id
    &&& match (
        spec_source_bytes(sources, view.members[0].file_id, view.members[0].byte_range),
        spec_source_bytes(sources, view.members[1].file_id, view.members[1].byte_range),
    ) {
        (Some(first), Some(second)) => first == second && view.members[0].hash == blake3_digest(first)
            && view.members[1].hash == blake3_digest(second),
        _ => false,
    }
}

/// A view that is one of `inputs`, or one the source bytes prove.
pub open spec fn spec_input_or_proven(view: UnnamedView, inputs: Seq<UnnamedView>, sources: Seq<SourceFile>) -> bool {
    (exists|j: int| 0 <= j < inputs.len() && inputs[j] == view) || spec_byte_proven(view, sources)
}

/// Every joined view is proved by its source bytes.
pub proof fn lemma_join_is_byte_proven(
    left: UnnamedView,
    right: UnnamedView,
    trees: Seq<NormalizedNode>,
    sources: Seq<SourceFile>,
)
    requires
        spec_join(left, right, trees, sources).is_some(),
    ensures
        spec_byte_proven(spec_join(left, right, trees, sources).unwrap(), sources),
{
    let found = spec_exact_union(left.members, right.members, sources).unwrap();
    let ((first_file, first_range), (second_file, second_range)) = found;
    let l = spec_paired(left.members).unwrap();
    assert(first_file == l.0.file_id && second_file == l.1.file_id);
    assert(first_file != second_file);
    let first = spec_member(first_file, first_range, trees, sources).unwrap();
    let second = spec_member(second_file, second_range, trees, sources).unwrap();
    let joined = spec_joined_view(left, first, second);
    assert(spec_join(left, right, trees, sources) == Some(joined));
}

/// Finds another view of the group whose full union with `first`'s view
/// has source proof.
fn next_join(
    first: usize,
    group: &Vec<usize>,
    slots: &Vec<Option<Unnamed>>,
    trees: &[NormalizedNode],
    sources: &[SourceFile],
) -> (found: Option<(usize, Unnamed)>)
    requires
        first < slots@.len(),
        indices_below(group@, slots@.len() as int),
    ensures
        match found {
            Some((second, joined)) => spec_next_join(first, group@, slots_view(slots@), trees@, sources@, 0) == Some((second, joined@)),
            None => spec_next_join(first, group@, slots_view(slots@), trees@, sources@, 0).is_none(),
        },
{
    let ghost view = slots_view(slots@);
    let mut k: usize = 0;
    while k < group.len()
        invariant
            k <= group@.len(),
            first < slots@.len(),
            view == slots_view(slots@),
            indices_below(group@, slots@.len() as int),
            spec_next_join(first, group@, view, trees@, sources@, 0) == spec_next_join(first, group@, view, trees@, sources@, k as int),
        decreases group@.len() - k,
    {
        let second = group[k];
        assert(second < slots@.len());
        if first != second {
            match (&slots[first], &slots[second]) {
                (Some(left), Some(right)) => {
                    match join(left, right, trees, sources) {
                        Some(joined) => {
                            return Some((second, joined));
                        },
                        None => {},
                    }
                },
                _ => {},
            }
        }
        k = k + 1;
    }
    None
}

/// Keeps extending each copied run while another view proves more bytes.
fn coalesce_group(group: &Vec<usize>, slots: &mut Vec<Option<Unnamed>>, trees: &[NormalizedNode], sources: &[SourceFile])
    requires
        indices_below(group@, old(slots)@.len() as int),
    ensures
        final(slots)@.len() == old(slots)@.len(),
        slots_view(final(slots)@) == spec_coalesce_group(group@, slots_view(old(slots)@), trees@, sources@, group@.len() as int),
        forall|i: int| 0 <= i < final(slots)@.len() && (#[trigger] slots_view(final(slots)@)[i]).is_some() ==>
            (exists|j: int| 0 <= j < old(slots)@.len() && slots_view(old(slots)@)[j] == slots_view(final(slots)@)[i])
            || spec_byte_proven(slots_view(final(slots)@)[i].unwrap(), sources@),
{
    let ghost initial = slots_view(slots@);
    let mut k: usize = 0;
    while k < group.len()
        invariant
            k <= group@.len(),
            slots@.len() == old(slots)@.len(),
            initial == slots_view(old(slots)@),
            indices_below(group@, slots@.len() as int),
            slots_view(slots@) == spec_coalesce_group(group@, initial, trees@, sources@, k as int),
            forall|i: int| 0 <= i < slots@.len() && (#[trigger] slots_view(slots@)[i]).is_some() ==>
                (exists|j: int| 0 <= j < initial.len() && initial[j] == slots_view(slots@)[i])
                || spec_byte_proven(slots_view(slots@)[i].unwrap(), sources@),
        decreases group@.len() - k,
    {
        let first = group[k];
        let ghost start = slots_view(slots@);
        let ghost mut remaining: nat = group@.len() as nat;
        proof {
            lemma_live_bounded(group@, start, group@.len() as int);
        }
        loop
            invariant
                k < group@.len(),
                first == group@[k as int],
                first < slots@.len(),
                slots@.len() == old(slots)@.len(),
                indices_below(group@, slots@.len() as int),
                spec_settle(first, group@, slots_view(slots@), trees@, sources@, remaining)
                    == spec_settle(first, group@, start, trees@, sources@, group@.len() as nat),
                remaining + 1 >= spec_live(group@, slots_view(slots@), group@.len() as int),
                initial.len() == slots@.len(),
                forall|i: int| 0 <= i < slots@.len() && (#[trigger] slots_view(slots@)[i]).is_some() ==>
                    (exists|j: int| 0 <= j < initial.len() && initial[j] == slots_view(slots@)[i])
                    || spec_byte_proven(slots_view(slots@)[i].unwrap(), sources@),
            ensures
                slots@.len() == old(slots)@.len(),
                slots_view(slots@) == spec_settle(first, group@, start, trees@, sources@, group@.len() as nat),
                forall|i: int| 0 <= i < slots@.len() && (#[trigger] slots_view(slots@)[i]).is_some() ==>
                    (exists|j: int| 0 <= j < initial.len() && initial[j] == slots_view(slots@)[i])
                    || spec_byte_proven(slots_view(slots@)[i].unwrap(), sources@),
            decreases remaining,
        {
            let ghost current = slots_view(slots@);
            match next_join(first, group, slots, trees, sources) {
                None => {
                    break;
                },
                Some((second, joined)) => {
                    proof {
                        lemma_next_join_found(first, group@, current, trees@, sources@, 0);
                        let q = choose|q: int| 0 <= q < group@.len() && group@[q] == second;
                        lemma_live_two(group@, current, k as int, q, group@.len() as int);
                    }
                    let ghost joined_view = joined@;
                    slots.set(first, Some(joined));
                    slots.set(second, None);
                    proof {
                        let after = slots_view(slots@);
                        assert(after =~= current.update(first as int, Some(joined_view)).update(second as int, None));
                        let q = choose|q: int| 0 <= q < group@.len() && group@[q] == second;
                        lemma_live_drops(group@, current, after, second, q, group@.len() as int);
                        remaining = (remaining - 1) as nat;
                        lemma_join_is_byte_proven(current[first as int].unwrap(), current[second as int].unwrap(), trees@, sources@);
                        assert forall|i: int| 0 <= i < slots@.len() && (#[trigger] slots_view(slots@)[i]).is_some() implies
                            (exists|j: int| 0 <= j < initial.len() && initial[j] == slots_view(slots@)[i])
                            || spec_byte_proven(slots_view(slots@)[i].unwrap(), sources@) by {
                            if i != first as int && i != second as int {
                                assert(after[i] == current[i]);
                            }
                        }
                    }
                },
            }
        }
        k = k + 1;
    }
}


// ----- restoring authored views -----

/// Sets every slot named in `indices[..m]` empty.
pub open spec fn spec_clear(slots: Seq<Option<UnnamedView>>, indices: Seq<usize>, m: int) -> Seq<Option<UnnamedView>>
    decreases m,
{
    if m <= 0 {
        slots
    } else {
        spec_clear(slots, indices, m - 1).update(indices[m - 1] as int, None)
    }
}

/// Empties every slot that `indices` names.
fn clear_positions(slots: &mut Vec<Option<Unnamed>>, indices: &Vec<usize>)
    requires
        indices_below(indices@, old(slots)@.len() as int),
    ensures
        final(slots)@.len() == old(slots)@.len(),
        slots_view(final(slots)@) == spec_clear(slots_view(old(slots)@), indices@, indices@.len() as int),
        forall|i: int| 0 <= i < final(slots)@.len() && (#[trigger] slots_view(final(slots)@)[i]).is_some() ==>
            slots_view(final(slots)@)[i] == slots_view(old(slots)@)[i],
{
    let ghost initial = slots_view(slots@);
    let mut m: usize = 0;
    while m < indices.len()
        invariant
            m <= indices@.len(),
            slots@.len() == old(slots)@.len(),
            indices_below(indices@, slots@.len() as int),
            slots_view(slots@) == spec_clear(initial, indices@, m as int),
            initial == slots_view(old(slots)@),
            forall|i: int| 0 <= i < slots@.len() && (#[trigger] slots_view(slots@)[i]).is_some() ==>
                slots_view(slots@)[i] == initial[i],
        decreases indices@.len() - m,
    {
        let index = indices[m];
        assert(index < slots@.len());
        let ghost before = slots_view(slots@);
        slots.set(index, None);
        assert(slots_view(slots@) =~= before.update(index as int, None));
        m = m + 1;
    }
}

/// The authored view, among the group's originals, that covers exactly
/// the bytes of `members`: the first one in group order.
pub open spec fn spec_original_for_range(
    group: Seq<usize>,
    originals: Seq<UnnamedView>,
    members: Seq<FingerprintView>,
    from: int,
) -> Option<UnnamedView>
    decreases group.len() - from,
{
    if from < 0 || from >= group.len() {
        None
    } else if spec_same_spans(originals[group[from] as int].members, members) {
        Some(originals[group[from] as int])
    } else {
        spec_original_for_range(group, originals, members, from + 1)
    }
}

/// Finds an authored view of the merged bytes, if one was already admitted.
fn original_for_range(group: &Vec<usize>, originals: &Vec<Unnamed>, members: &Vec<Fingerprint>) -> (found: Option<Unnamed>)
    requires
        indices_below(group@, originals@.len() as int),
    ensures
        match found {
            Some(view) => spec_original_for_range(group@, drafts_view(originals@), fingerprints_view(members@), 0) == Some(view@),
            None => spec_original_for_range(group@, drafts_view(originals@), fingerprints_view(members@), 0).is_none(),
        },
        match found {
            Some(view) => exists|j: int| 0 <= j < originals@.len() && drafts_view(originals@)[j] == view@,
            None => true,
        },
{
    let ghost all = drafts_view(originals@);
    let mut k: usize = 0;
    while k < group.len()
        invariant
            k <= group@.len(),
            all == drafts_view(originals@),
            indices_below(group@, originals@.len() as int),
            spec_original_for_range(group@, all, fingerprints_view(members@), 0)
                == spec_original_for_range(group@, all, fingerprints_view(members@), k as int),
        decreases group@.len() - k,
    {
        let index = group[k];
        assert(index < originals@.len());
        if same_spans(originals[index].members.as_slice(), members.as_slice()) {
            let copy = copy_unnamed(&originals[index]);
            assert(all[index as int] == copy@);
            return Some(copy);
        }
        k = k + 1;
    }
    None
}

/// The authored view to put back in slot `index`, when joining changed the
/// slot's extent and an authored view of the new extent exists.
pub open spec fn spec_original_replacement(
    index: usize,
    group: Seq<usize>,
    originals: Seq<UnnamedView>,
    slots: Seq<Option<UnnamedView>>,
) -> Option<UnnamedView> {
    match slots[index as int] {
        None => None,
        Some(merged) => if originals[index as int].members == merged.members {
            None
        } else {
            spec_original_for_range(group, originals, merged.members, 0)
        },
    }
}

/// Uses an authored fingerprint only when joining changed this slot's extent.
fn original_replacement(index: usize, group: &Vec<usize>, originals: &Vec<Unnamed>, slots: &Vec<Option<Unnamed>>) -> (found: Option<Unnamed>)
    requires
        index < slots@.len(),
        index < originals@.len(),
        indices_below(group@, originals@.len() as int),
    ensures
        match found {
            Some(view) => spec_original_replacement(index, group@, drafts_view(originals@), slots_view(slots@)) == Some(view@),
            None => spec_original_replacement(index, group@, drafts_view(originals@), slots_view(slots@)).is_none(),
        },
        match found {
            Some(view) => exists|j: int| 0 <= j < originals@.len() && drafts_view(originals@)[j] == view@,
            None => true,
        },
{
    match &slots[index] {
        None => None,
        Some(merged) => {
            if crate::ast::same_fingerprints(&originals[index].members, &merged.members) {
                None
            } else {
                original_for_range(group, originals, &merged.members)
            }
        },
    }
}

/// The other live views of the group over exactly `original`'s extent,
/// among the first `k` positions.
pub open spec fn spec_duplicate_positions(
    group: Seq<usize>,
    keep: usize,
    original: UnnamedView,
    slots: Seq<Option<UnnamedView>>,
    k: int,
) -> Seq<usize>
    decreases k,
{
    if k <= 0 {
        seq![]
    } else {
        let prev = spec_duplicate_positions(group, keep, original, slots, k - 1);
        let index = group[k - 1];
        match slots[index as int] {
            Some(view) => if index != keep && spec_same_spans(view.members, original.members) { prev.push(index) } else { prev },
            None => prev,
        }
    }
}

/// Other live views of exactly the same physical two-file extent.
fn duplicate_positions(group: &Vec<usize>, keep: usize, original: &Unnamed, slots: &Vec<Option<Unnamed>>) -> (found: Vec<usize>)
    requires
        indices_below(group@, slots@.len() as int),
    ensures
        found@ == spec_duplicate_positions(group@, keep, original@, slots_view(slots@), group@.len() as int),
        indices_below(found@, slots@.len() as int),
{
    let ghost view = slots_view(slots@);
    let mut found: Vec<usize> = Vec::new();
    let mut k: usize = 0;
    while k < group.len()
        invariant
            k <= group@.len(),
            view == slots_view(slots@),
            indices_below(group@, slots@.len() as int),
            indices_below(found@, slots@.len() as int),
            found@ == spec_duplicate_positions(group@, keep, original@, view, k as int),
        decreases group@.len() - k,
    {
        let index = group[k];
        assert(index < slots@.len());
        match &slots[index] {
            Some(candidate) => {
                if index != keep && same_spans(candidate.members.as_slice(), original.members.as_slice()) {
                    found.push(index);
                }
            },
            None => {},
        }
        k = k + 1;
    }
    found
}

/// The slots after `keep` takes the authored `original` and every other
/// view of the same extent is dropped.
pub open spec fn spec_discard_same_span(
    group: Seq<usize>,
    keep: usize,
    original: UnnamedView,
    slots: Seq<Option<UnnamedView>>,
) -> Seq<Option<UnnamedView>> {
    let duplicates = spec_duplicate_positions(group, keep, original, slots, group.len() as int);
    spec_clear(slots.update(keep as int, Some(original)), duplicates, duplicates.len() as int)
}

/// Keeps one original view, dropping its redundant synthetic counterparts.
fn discard_same_span(group: &Vec<usize>, keep: usize, original: &Unnamed, slots: &mut Vec<Option<Unnamed>>)
    requires
        keep < old(slots)@.len(),
        indices_below(group@, old(slots)@.len() as int),
    ensures
        final(slots)@.len() == old(slots)@.len(),
        slots_view(final(slots)@) == spec_discard_same_span(group@, keep, original@, slots_view(old(slots)@)),
        forall|i: int| 0 <= i < final(slots)@.len() && (#[trigger] slots_view(final(slots)@)[i]).is_some() ==>
            slots_view(final(slots)@)[i] == slots_view(old(slots)@)[i] || slots_view(final(slots)@)[i] == Some(original@),
{
    let duplicates = duplicate_positions(group, keep, original, slots);
    let ghost before = slots_view(slots@);
    slots.set(keep, Some(copy_unnamed(original)));
    assert(slots_view(slots@) =~= before.update(keep as int, Some(original@)));
    clear_positions(slots, &duplicates);
}

/// The slots after each of the first `k` positions has had its authored
/// view restored where joining reached an authored extent.
pub open spec fn spec_restore(
    group: Seq<usize>,
    originals: Seq<UnnamedView>,
    slots: Seq<Option<UnnamedView>>,
    k: int,
) -> Seq<Option<UnnamedView>>
    decreases k,
{
    if k <= 0 {
        slots
    } else {
        let prev = spec_restore(group, originals, slots, k - 1);
        match spec_original_replacement(group[k - 1], group, originals, prev) {
            Some(replacement) => spec_discard_same_span(group, group[k - 1], replacement, prev),
            None => prev,
        }
    }
}

/// Restores a genuine original fingerprint when a merged run has its span.
fn restore_originals(group: &Vec<usize>, originals: &Vec<Unnamed>, slots: &mut Vec<Option<Unnamed>>)
    requires
        old(slots)@.len() == originals@.len(),
        indices_below(group@, old(slots)@.len() as int),
    ensures
        final(slots)@.len() == old(slots)@.len(),
        slots_view(final(slots)@) == spec_restore(group@, drafts_view(originals@), slots_view(old(slots)@), group@.len() as int),
        forall|i: int| 0 <= i < final(slots)@.len() && (#[trigger] slots_view(final(slots)@)[i]).is_some() ==>
            slots_view(final(slots)@)[i] == slots_view(old(slots)@)[i]
            || exists|j: int| 0 <= j < originals@.len() && Some(drafts_view(originals@)[j]) == slots_view(final(slots)@)[i],
{
    let ghost initial = slots_view(slots@);
    let mut k: usize = 0;
    while k < group.len()
        invariant
            k <= group@.len(),
            slots@.len() == old(slots)@.len(),
            slots@.len() == originals@.len(),
            indices_below(group@, slots@.len() as int),
            slots_view(slots@) == spec_restore(group@, drafts_view(originals@), initial, k as int),
            initial == slots_view(old(slots)@),
            forall|i: int| 0 <= i < slots@.len() && (#[trigger] slots_view(slots@)[i]).is_some() ==>
                slots_view(slots@)[i] == initial[i]
                || exists|j: int| 0 <= j < originals@.len() && Some(drafts_view(originals@)[j]) == slots_view(slots@)[i],
        decreases group@.len() - k,
    {
        let index = group[k];
        assert(index < slots@.len());
        match original_replacement(index, group, originals, slots) {
            Some(replacement) => {
                let ghost before = slots_view(slots@);
                discard_same_span(group, index, &replacement, slots);
                assert forall|i: int| 0 <= i < slots@.len() && (#[trigger] slots_view(slots@)[i]).is_some() implies
                    slots_view(slots@)[i] == initial[i]
                    || exists|j: int| 0 <= j < originals@.len() && Some(drafts_view(originals@)[j]) == slots_view(slots@)[i] by {
                    if slots_view(slots@)[i] == before[i] {
                    } else {
                        let j = choose|j: int| 0 <= j < originals@.len() && drafts_view(originals@)[j] == replacement@;
                        assert(Some(drafts_view(originals@)[j]) == slots_view(slots@)[i]);
                    }
                }
            },
            None => {},
        }
        k = k + 1;
    }
}

// ----- dropping narrower readings -----

/// The members of every joined view among the first `k` positions: a view
/// whose members differ from the authored view its slot started with.
pub open spec fn spec_synthetic(
    group: Seq<usize>,
    originals: Seq<UnnamedView>,
    slots: Seq<Option<UnnamedView>>,
    k: int,
) -> Seq<Seq<FingerprintView>>
    decreases k,
{
    if k <= 0 {
        seq![]
    } else {
        let prev = spec_synthetic(group, originals, slots, k - 1);
        let index = group[k - 1];
        match slots[index as int] {
            Some(view) => if originals[index as int].members != view.members { prev.push(view.members) } else { prev },
            None => prev,
        }
    }
}

/// The models of a list of member lists.
pub open spec fn member_lists_view(lists: Seq<Vec<Fingerprint>>) -> Seq<Seq<FingerprintView>> {
    lists.map_values(|members: Vec<Fingerprint>| fingerprints_view(members@))
}

/// Newly joined views, excluding candidates restored to authored fingerprints.
fn synthetic_members(group: &Vec<usize>, originals: &Vec<Unnamed>, slots: &Vec<Option<Unnamed>>) -> (found: Vec<Vec<Fingerprint>>)
    requires
        slots@.len() == originals@.len(),
        indices_below(group@, slots@.len() as int),
    ensures
        member_lists_view(found@) == spec_synthetic(group@, drafts_view(originals@), slots_view(slots@), group@.len() as int),
{
    let ghost view = slots_view(slots@);
    let ghost all = drafts_view(originals@);
    let mut found: Vec<Vec<Fingerprint>> = Vec::new();
    let mut k: usize = 0;
    while k < group.len()
        invariant
            k <= group@.len(),
            view == slots_view(slots@),
            all == drafts_view(originals@),
            slots@.len() == originals@.len(),
            indices_below(group@, slots@.len() as int),
            member_lists_view(found@) == spec_synthetic(group@, all, view, k as int),
        decreases group@.len() - k,
    {
        let index = group[k];
        assert(index < slots@.len());
        match &slots[index] {
            Some(current) => {
                if !crate::ast::same_fingerprints(&originals[index].members, &current.members) {
                    let ghost before = member_lists_view(found@);
                    let copy = crate::ast::copy_fingerprints(&current.members);
                    found.push(copy);
                    assert(member_lists_view(found@) =~= before.push(fingerprints_view(current.members@)));
                }
            },
            None => {},
        }
        k = k + 1;
    }
    found
}

/// The group's live views, among the first `k` positions, that `members`
/// strictly encloses in both files.
pub open spec fn spec_covered_positions(
    group: Seq<usize>,
    members: Seq<FingerprintView>,
    slots: Seq<Option<UnnamedView>>,
    k: int,
) -> Seq<usize>
    decreases k,
{
    if k <= 0 {
        seq![]
    } else {
        let prev = spec_covered_positions(group, members, slots, k - 1);
        let index = group[k - 1];
        match slots[index as int] {
            Some(view) => if spec_encloses_both(members, view.members) { prev.push(index) } else { prev },
            None => prev,
        }
    }
}

/// Narrower exact views that one verified run makes redundant.
fn covered_positions(group: &Vec<usize>, members: &Vec<Fingerprint>, slots: &Vec<Option<Unnamed>>) -> (found: Vec<usize>)
    requires
        indices_below(group@, slots@.len() as int),
    ensures
        found@ == spec_covered_positions(group@, fingerprints_view(members@), slots_view(slots@), group@.len() as int),
        indices_below(found@, slots@.len() as int),
{
    let ghost view = slots_view(slots@);
    let mut found: Vec<usize> = Vec::new();
    let mut k: usize = 0;
    while k < group.len()
        invariant
            k <= group@.len(),
            view == slots_view(slots@),
            indices_below(group@, slots@.len() as int),
            indices_below(found@, slots@.len() as int),
            found@ == spec_covered_positions(group@, fingerprints_view(members@), view, k as int),
        decreases group@.len() - k,
    {
        let index = group[k];
        assert(index < slots@.len());
        match &slots[index] {
            Some(current) => {
                if encloses_both(members.as_slice(), current.members.as_slice()) {
                    found.push(index);
                }
            },
            None => {},
        }
        k = k + 1;
    }
    found
}

/// The slots after the first `m` joined runs have each dropped the views
/// they strictly enclose.
pub open spec fn spec_discard_all(
    group: Seq<usize>,
    synthetic: Seq<Seq<FingerprintView>>,
    slots: Seq<Option<UnnamedView>>,
    m: int,
) -> Seq<Option<UnnamedView>>
    decreases m,
{
    if m <= 0 {
        slots
    } else {
        let prev = spec_discard_all(group, synthetic, slots, m - 1);
        let covered = spec_covered_positions(group, synthetic[m - 1], prev, group.len() as int);
        spec_clear(prev, covered, covered.len() as int)
    }
}

/// The slots after every joined run of the group has dropped the narrower
/// views it makes redundant.
pub open spec fn spec_discard_covered(
    group: Seq<usize>,
    originals: Seq<UnnamedView>,
    slots: Seq<Option<UnnamedView>>,
) -> Seq<Option<UnnamedView>> {
    let synthetic = spec_synthetic(group, originals, slots, group.len() as int);
    spec_discard_all(group, synthetic, slots, synthetic.len() as int)
}

/// A newly verified exact run replaces narrower readings of those bytes.
fn discard_covered_views(group: &Vec<usize>, originals: &Vec<Unnamed>, slots: &mut Vec<Option<Unnamed>>)
    requires
        old(slots)@.len() == originals@.len(),
        indices_below(group@, old(slots)@.len() as int),
    ensures
        final(slots)@.len() == old(slots)@.len(),
        slots_view(final(slots)@) == spec_discard_covered(group@, drafts_view(originals@), slots_view(old(slots)@)),
        forall|i: int| 0 <= i < final(slots)@.len() && (#[trigger] slots_view(final(slots)@)[i]).is_some() ==>
            slots_view(final(slots)@)[i] == slots_view(old(slots)@)[i],
{
    let ghost initial = slots_view(slots@);
    let synthetic = synthetic_members(group, originals, slots);
    let ghost syn = member_lists_view(synthetic@);
    let mut m: usize = 0;
    while m < synthetic.len()
        invariant
            initial == slots_view(old(slots)@),
            forall|i: int| 0 <= i < slots@.len() && (#[trigger] slots_view(slots@)[i]).is_some() ==>
                slots_view(slots@)[i] == initial[i],
            m <= synthetic@.len(),
            syn == member_lists_view(synthetic@),
            syn == spec_synthetic(group@, drafts_view(originals@), initial, group@.len() as int),
            slots@.len() == old(slots)@.len(),
            indices_below(group@, slots@.len() as int),
            slots_view(slots@) == spec_discard_all(group@, syn, initial, m as int),
        decreases synthetic@.len() - m,
    {
        let covered = covered_positions(group, &synthetic[m], slots);
        clear_positions(slots, &covered);
        m = m + 1;
    }
}


// ----- the whole pass -----

/// Exact two-file views of one file pair, by draft position.
pub struct RunGroup {
    /// The lower file of the pair.
    pub first: FileId,
    /// The higher file of the pair.
    pub second: FileId,
    /// Positions of the drafts over this pair, ascending.
    pub members: Vec<usize>,
}

/// The model of a run group.
pub open spec fn run_group_view(group: RunGroup) -> ((FileId, FileId), Seq<usize>) {
    ((group.first, group.second), group.members@)
}

/// The models of a list of run groups.
pub open spec fn run_groups_view(groups: Seq<RunGroup>) -> Seq<((FileId, FileId), Seq<usize>)> {
    groups.map_values(|group: RunGroup| run_group_view(group))
}

/// A draft the pass may join: a byte-identical view over two files.
pub open spec fn spec_eligible(draft: UnnamedView) -> bool {
    draft.kind == ClusterKind::Identical && spec_paired(draft.members).is_some()
}

/// The file pair of an eligible draft.
pub open spec fn spec_pair_key(draft: UnnamedView) -> (FileId, FileId) {
    let pair = spec_paired(draft.members).unwrap();
    (pair.0.file_id, pair.1.file_id)
}

/// Position of the group keyed `key`, scanning from `from`; the group
/// count when there is none.
pub open spec fn spec_key_position(walk: Seq<((FileId, FileId), Seq<usize>)>, key: (FileId, FileId), from: int) -> int
    decreases walk.len() - from,
{
    if from < 0 || from >= walk.len() {
        walk.len() as int
    } else if walk[from].0 == key {
        from
    } else {
        spec_key_position(walk, key, from + 1)
    }
}

/// The groups of the first `k` drafts, in order of first appearance.
pub open spec fn spec_group_walk(drafts: Seq<UnnamedView>, k: int) -> Seq<((FileId, FileId), Seq<usize>)>
    decreases k,
{
    if k <= 0 {
        seq![]
    } else {
        let prev = spec_group_walk(drafts, k - 1);
        let draft = drafts[k - 1];
        if !spec_eligible(draft) {
            prev
        } else {
            let key = spec_pair_key(draft);
            let position = spec_key_position(prev, key, 0);
            if position < prev.len() {
                prev.update(position, (key, prev[position].1.push((k - 1) as usize)))
            } else {
                prev.push((key, seq![(k - 1) as usize]))
            }
        }
    }
}

/// The draft positions of every group.
pub open spec fn spec_groups(drafts: Seq<UnnamedView>) -> Seq<Seq<usize>> {
    spec_group_walk(drafts, drafts.len() as int).map_values(|entry: ((FileId, FileId), Seq<usize>)| entry.1)
}

/// Exact two-file views grouped by their file pair.
fn groups(drafts: &Vec<Unnamed>) -> (found: Vec<RunGroup>)
    ensures
        run_groups_view(found@) == spec_group_walk(drafts_view(drafts@), drafts@.len() as int),
        forall|g: int| 0 <= g < found@.len() ==> indices_below(#[trigger] found@[g].members@, drafts@.len() as int),
{
    let ghost all = drafts_view(drafts@);
    let mut found: Vec<RunGroup> = Vec::new();
    let mut index: usize = 0;
    while index < drafts.len()
        invariant
            index <= drafts@.len(),
            all == drafts_view(drafts@),
            run_groups_view(found@) == spec_group_walk(all, index as int),
            forall|g: int| 0 <= g < found@.len() ==> indices_below(#[trigger] found@[g].members@, index as int),
        decreases drafts@.len() - index,
    {
        let draft = &drafts[index];
        let ghost walk = run_groups_view(found@);
        if draft.kind == ClusterKind::Identical {
            match paired(draft.members.as_slice()) {
                Some((first, second)) => {
                    let mut position: usize = 0;
                    while position < found.len()
                        && !(found[position].first.0 == first.file_id.0 && found[position].second.0 == second.file_id.0)
                        invariant
                            position <= found@.len(),
                            walk == run_groups_view(found@),
                            spec_key_position(walk, (first.file_id, second.file_id), 0)
                                == spec_key_position(walk, (first.file_id, second.file_id), position as int),
                        decreases found@.len() - position,
                    {
                        position = position + 1;
                    }
                    let ghost before = found@;
                    if position < found.len() {
                        let mut group = found.remove(position);
                        group.members.push(index);
                        let ghost changed = group;
                        found.insert(position, group);
                        assert(found@ =~= before.update(position as int, changed));
                    } else {
                        let mut members: Vec<usize> = Vec::new();
                        members.push(index);
                        found.push(RunGroup { first: first.file_id, second: second.file_id, members });
                    }
                    assert(run_groups_view(found@) =~= spec_group_walk(all, index as int + 1));
                    assert forall|g: int| 0 <= g < found@.len() implies indices_below(#[trigger] found@[g].members@, index as int + 1) by {
                        if g != position as int {
                            assert(found@[g] == before[g]);
                        }
                    }
                },
                None => {},
            }
        }
        index = index + 1;
    }
    found
}


/// The slots after one group has been joined, restored and pruned.
pub open spec fn spec_process_group(
    group: Seq<usize>,
    originals: Seq<UnnamedView>,
    trees: Seq<NormalizedNode>,
    sources: Seq<SourceFile>,
    slots: Seq<Option<UnnamedView>>,
) -> Seq<Option<UnnamedView>> {
    let joined = spec_coalesce_group(group, slots, trees, sources, group.len() as int);
    let restored = spec_restore(group, originals, joined, group.len() as int);
    spec_discard_covered(group, originals, restored)
}

/// The slots after the first `g` groups have been processed in turn.
pub open spec fn spec_process_groups(
    groups: Seq<Seq<usize>>,
    originals: Seq<UnnamedView>,
    trees: Seq<NormalizedNode>,
    sources: Seq<SourceFile>,
    slots: Seq<Option<UnnamedView>>,
    g: int,
) -> Seq<Option<UnnamedView>>
    decreases g,
{
    if g <= 0 {
        slots
    } else {
        spec_process_group(groups[g - 1], originals, trees, sources, spec_process_groups(groups, originals, trees, sources, slots, g - 1))
    }
}

/// The live views of a slot list, in slot order.
pub open spec fn spec_live_values(slots: Seq<Option<UnnamedView>>) -> Seq<UnnamedView>
    decreases slots.len(),
{
    if slots.len() == 0 {
        seq![]
    } else {
        spec_live_values(slots.drop_last()) + match slots.last() {
            Some(view) => seq![view],
            None => seq![],
        }
    }
}

/// What coalescing returns: with no sources, the drafts unchanged;
/// otherwise every file pair's exact views joined, restored and pruned,
/// the surviving views in draft order.
pub open spec fn spec_coalesce(drafts: Seq<UnnamedView>, trees: Seq<NormalizedNode>, sources: Seq<SourceFile>) -> Seq<UnnamedView> {
    if sources.len() == 0 {
        drafts
    } else {
        let groups = spec_groups(drafts);
        let slots = drafts.map_values(|draft: UnnamedView| Some(draft));
        spec_live_values(spec_process_groups(groups, drafts, trees, sources, slots, groups.len() as int))
    }
}

/// The live views of a slot list, copied.
fn live_values(slots: &Vec<Option<Unnamed>>) -> (values: Vec<Unnamed>)
    ensures
        drafts_view(values@) == spec_live_values(slots_view(slots@)),
        forall|k: int| 0 <= k < values@.len() ==>
            exists|i: int| 0 <= i < slots@.len() && slots_view(slots@)[i] == Some(#[trigger] drafts_view(values@)[k]),
{
    let ghost view = slots_view(slots@);
    let mut values: Vec<Unnamed> = Vec::new();
    let mut index: usize = 0;
    while index < slots.len()
        invariant
            index <= slots@.len(),
            view == slots_view(slots@),
            drafts_view(values@) == spec_live_values(view.take(index as int)),
            forall|k: int| 0 <= k < values@.len() ==>
                exists|i: int| 0 <= i < slots@.len() && view[i] == Some(#[trigger] drafts_view(values@)[k]),
        decreases slots@.len() - index,
    {
        let ghost before = drafts_view(values@);
        assert(view.take(index as int + 1).drop_last() =~= view.take(index as int));
        match &slots[index] {
            Some(draft) => {
                values.push(copy_unnamed(draft));
                assert(drafts_view(values@) =~= before + seq![draft@]);
                assert(view[index as int] == Some(draft@));
                assert forall|k: int| 0 <= k < values@.len() implies
                    exists|i: int| 0 <= i < slots@.len() && view[i] == Some(#[trigger] drafts_view(values@)[k]) by {
                    if k < values@.len() - 1 {
                        assert(drafts_view(values@)[k] == before[k]);
                    } else {
                        assert(drafts_view(values@)[k] == draft@);
                    }
                }
            },
            None => {
                assert(drafts_view(values@) =~= before + Seq::<UnnamedView>::empty());
            },
        }
        index = index + 1;
    }
    assert(view.take(slots@.len() as int) =~= view);
    values
}

/// Extends two-file byte-identical windows only when their whole union is
/// byte-identical and has sibling boundaries in both parse trees. Sources
/// name each file once; trees are looked up by file, the last one wins.
pub fn coalesce_exact_runs(drafts: Vec<Unnamed>, trees: &[NormalizedNode], sources: &[SourceFile]) -> (coalesced: Vec<Unnamed>)
    ensures
        drafts_view(coalesced@) == spec_coalesce(drafts_view(drafts@), trees@, sources@),
        forall|k: int| 0 <= k < coalesced@.len() ==>
            spec_input_or_proven(#[trigger] drafts_view(coalesced@)[k], drafts_view(drafts@), sources@),
{
    if sources.len() == 0 {
        assert forall|k: int| 0 <= k < drafts@.len() implies
            spec_input_or_proven(#[trigger] drafts_view(drafts@)[k], drafts_view(drafts@), sources@) by {
            assert(drafts_view(drafts@)[k] == drafts_view(drafts@)[k]);
        }
        return drafts;
    }
    let ghost all = drafts_view(drafts@);
    let found = groups(&drafts);
    let ghost group_list = spec_groups(all);
    assert(group_list.len() == found@.len());
    let mut slots: Vec<Option<Unnamed>> = Vec::new();
    let mut index: usize = 0;
    while index < drafts.len()
        invariant
            index <= drafts@.len(),
            all == drafts_view(drafts@),
            slots_view(slots@) == all.take(index as int).map_values(|draft: UnnamedView| Some(draft)),
        decreases drafts@.len() - index,
    {
        let ghost before = slots_view(slots@);
        let copy = copy_unnamed(&drafts[index]);
        assert(copy@ == all[index as int]);
        slots.push(Some(copy));
        assert(slots_view(slots@) =~= before.push(Some(all[index as int])));
        assert(all.take(index as int + 1).map_values(|draft: UnnamedView| Some(draft))
            =~= all.take(index as int).map_values(|draft: UnnamedView| Some(draft)).push(Some(all[index as int])));
        index = index + 1;
    }
    assert(all.take(drafts@.len() as int) =~= all);
    let ghost initial = slots_view(slots@);
    let mut g: usize = 0;
    while g < found.len()
        invariant
            g <= found@.len(),
            all == drafts_view(drafts@),
            group_list == spec_groups(all),
            group_list.len() == found@.len(),
            run_groups_view(found@) == spec_group_walk(all, all.len() as int),
            forall|h: int| 0 <= h < found@.len() ==> indices_below(#[trigger] found@[h].members@, drafts@.len() as int),
            slots@.len() == drafts@.len(),
            initial == all.map_values(|draft: UnnamedView| Some(draft)),
            slots_view(slots@) == spec_process_groups(group_list, all, trees@, sources@, initial, g as int),
            forall|i: int| 0 <= i < slots@.len() && (#[trigger] slots_view(slots@)[i]).is_some() ==>
                spec_input_or_proven(slots_view(slots@)[i].unwrap(), all, sources@),
        decreases found@.len() - g,
    {
        let group = &found[g].members;
        assert(group@ == group_list[g as int]) by {
            assert(run_groups_view(found@)[g as int] == run_group_view(found@[g as int]));
        }
        let ghost start = slots_view(slots@);
        coalesce_group(group, &mut slots, trees, sources);
        let ghost joined = slots_view(slots@);
        assert forall|i: int| 0 <= i < slots@.len() && (#[trigger] slots_view(slots@)[i]).is_some() implies
            spec_input_or_proven(slots_view(slots@)[i].unwrap(), all, sources@) by {
            if !spec_byte_proven(slots_view(slots@)[i].unwrap(), sources@) {
                let j = choose|j: int| 0 <= j < start.len() && start[j] == slots_view(slots@)[i];
                assert(start[j].is_some());
            }
        }
        restore_originals(group, &drafts, &mut slots);
        let ghost restored = slots_view(slots@);
        assert forall|i: int| 0 <= i < slots@.len() && (#[trigger] slots_view(slots@)[i]).is_some() implies
            spec_input_or_proven(slots_view(slots@)[i].unwrap(), all, sources@) by {
            if slots_view(slots@)[i] == joined[i] {
            } else {
                let j = choose|j: int| 0 <= j < drafts@.len() && Some(all[j]) == slots_view(slots@)[i];
                assert(all[j] == slots_view(slots@)[i].unwrap());
            }
        }
        discard_covered_views(group, &drafts, &mut slots);
        assert forall|i: int| 0 <= i < slots@.len() && (#[trigger] slots_view(slots@)[i]).is_some() implies
            spec_input_or_proven(slots_view(slots@)[i].unwrap(), all, sources@) by {
            assert(slots_view(slots@)[i] == restored[i]);
        }
        g = g + 1;
    }
    let values = live_values(&slots);
    assert forall|k: int| 0 <= k < values@.len() implies
        spec_input_or_proven(#[trigger] drafts_view(values@)[k], all, sources@) by {
        let i = choose|i: int| 0 <= i < slots@.len() && slots_view(slots@)[i] == Some(drafts_view(values@)[k]);
        assert(slots_view(slots@)[i].is_some());
    }
    values
}

/// Whether the table lists every file at most once, as a table built
/// from a map keyed by file does.
pub open spec fn spec_source_files_unique(table: Seq<SourceFile>) -> bool {
    forall|i: int, j: int| 0 <= i < j < table.len() ==> #[trigger] table[i].file_id != #[trigger] table[j].file_id
}

/// In a table that lists every file at most once, the lookup of an
/// entry's file finds that entry.
pub proof fn lemma_source_lookup_finds_the_entry(table: Seq<SourceFile>, k: int)
    requires
        spec_source_files_unique(table),
        0 <= k < table.len(),
    ensures
        spec_source_of(table, table[k].file_id) == Some(table[k].bytes@),
    decreases k,
{
    if k > 0 {
        let rest = table.drop_first();
        assert(table[0].file_id != table[k].file_id);
        assert(rest[k - 1] == table[k]);
        assert forall|i: int, j: int| 0 <= i < j < rest.len() implies #[trigger] rest[i].file_id != #[trigger] rest[j].file_id by {
            assert(rest[i] == table[i + 1] && rest[j] == table[j + 1]);
        }
        lemma_source_lookup_finds_the_entry(rest, k - 1);
    }
}

} // verus!
