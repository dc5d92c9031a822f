//! Why two findings of one tree never feed the id digest the same bytes:
//! the clusters that share a source are ranked by a strict total order, so
//! each carries an ordinal of its own.

use vstd::prelude::*;

use super::{
    draft_positions, draft_sources, entry_lt, path_key, path_lt, positions_lt, rank_lt, spec_id_input,
    spec_le_bytes, spec_named, spec_ordinal, spec_position, spec_rank, spec_source, FilePath, SourceView, UnnamedView,
};

verus! {

proof fn lemma_path_key_injective(a: u8, b: u8)
    ensures
        path_key(a) == path_key(b) ==> a == b,
{
}

proof fn lemma_path_lt_irreflexive(a: Seq<u8>)
    ensures
        !path_lt(a, a),
    decreases a.len(),
{
    if a.len() > 0 {
        lemma_path_lt_irreflexive(a.drop_first());
    }
}

proof fn lemma_path_lt_transitive(a: Seq<u8>, b: Seq<u8>, c: Seq<u8>)
    requires
        path_lt(a, b),
        path_lt(b, c),
    ensures
        path_lt(a, c),
    decreases a.len(),
{
    if a.len() > 0 && path_key(a[0]) == path_key(b[0]) && path_key(b[0]) == path_key(c[0]) {
        lemma_path_lt_transitive(a.drop_first(), b.drop_first(), c.drop_first());
    }
}

proof fn lemma_path_lt_total(a: Seq<u8>, b: Seq<u8>)
    requires
        a != b,
    ensures
        path_lt(a, b) || path_lt(b, a),
    decreases a.len(),
{
    if a.len() > 0 && b.len() > 0 && path_key(a[0]) == path_key(b[0]) {
        lemma_path_key_injective(a[0], b[0]);
        if a.drop_first() == b.drop_first() {
            assert(a =~= seq![a[0]] + a.drop_first());
            assert(b =~= seq![b[0]] + b.drop_first());
        }
        lemma_path_lt_total(a.drop_first(), b.drop_first());
    } else if a.len() == 0 && b.len() == 0 {
        assert(a =~= b);
    }
}

proof fn lemma_entry_lt_irreflexive(a: (Seq<u8>, usize, usize))
    ensures
        !entry_lt(a, a),
{
    lemma_path_lt_irreflexive(a.0);
}

proof fn lemma_entry_lt_transitive(a: (Seq<u8>, usize, usize), b: (Seq<u8>, usize, usize), c: (Seq<u8>, usize, usize))
    requires
        entry_lt(a, b),
        entry_lt(b, c),
    ensures
        entry_lt(a, c),
{
    if path_lt(a.0, b.0) && path_lt(b.0, c.0) {
        lemma_path_lt_transitive(a.0, b.0, c.0);
    }
}

proof fn lemma_entry_lt_total(a: (Seq<u8>, usize, usize), b: (Seq<u8>, usize, usize))
    requires
        a != b,
    ensures
        entry_lt(a, b) || entry_lt(b, a),
{
    if a.0 != b.0 {
        lemma_path_lt_total(a.0, b.0);
    }
}

/// A pair of entries is ordered one way at most.
proof fn lemma_entry_lt_asymmetric(a: (Seq<u8>, usize, usize), b: (Seq<u8>, usize, usize))
    ensures
        !(entry_lt(a, b) && entry_lt(b, a)),
{
    if entry_lt(a, b) && entry_lt(b, a) {
        lemma_entry_lt_transitive(a, b, a);
        lemma_entry_lt_irreflexive(a);
    }
}

proof fn lemma_positions_lt_irreflexive(a: Seq<(Seq<u8>, usize, usize)>)
    ensures
        !positions_lt(a, a),
    decreases a.len(),
{
    if a.len() > 0 {
        lemma_entry_lt_irreflexive(a[0]);
        lemma_positions_lt_irreflexive(a.drop_first());
    }
}

proof fn lemma_positions_lt_transitive(
    a: Seq<(Seq<u8>, usize, usize)>,
    b: Seq<(Seq<u8>, usize, usize)>,
    c: Seq<(Seq<u8>, usize, usize)>,
)
    requires
        positions_lt(a, b),
        positions_lt(b, c),
    ensures
        positions_lt(a, c),
    decreases a.len(),
{
    if a.len() > 0 && b.len() > 0 && c.len() > 0 {
        lemma_entry_lt_asymmetric(a[0], b[0]);
        lemma_entry_lt_asymmetric(b[0], c[0]);
        lemma_entry_lt_asymmetric(a[0], c[0]);
        let ab = !entry_lt(a[0], b[0]) && !entry_lt(b[0], a[0]);
        let bc = !entry_lt(b[0], c[0]) && !entry_lt(c[0], b[0]);
        if ab && a[0] != b[0] {
            lemma_entry_lt_total(a[0], b[0]);
        }
        if bc && b[0] != c[0] {
            lemma_entry_lt_total(b[0], c[0]);
        }
        if entry_lt(a[0], b[0]) && entry_lt(b[0], c[0]) {
            lemma_entry_lt_transitive(a[0], b[0], c[0]);
        } else if ab && bc {
            lemma_positions_lt_transitive(a.drop_first(), b.drop_first(), c.drop_first());
        }
    }
}

proof fn lemma_positions_lt_total(a: Seq<(Seq<u8>, usize, usize)>, b: Seq<(Seq<u8>, usize, usize)>)
    requires
        a != b,
    ensures
        positions_lt(a, b) || positions_lt(b, a),
    decreases a.len(),
{
    if a.len() > 0 && b.len() > 0 && !entry_lt(a[0], b[0]) && !entry_lt(b[0], a[0]) {
        if a[0] != b[0] {
            lemma_entry_lt_total(a[0], b[0]);
        }
        if a.drop_first() == b.drop_first() {
            assert(a =~= seq![a[0]] + a.drop_first());
            assert(b =~= seq![b[0]] + b.drop_first());
        }
        lemma_positions_lt_total(a.drop_first(), b.drop_first());
    } else if a.len() == 0 && b.len() == 0 {
        assert(a =~= b);
    }
}

proof fn lemma_rank_lt_irreflexive(a: Seq<(Seq<u8>, usize, usize)>, i: int)
    ensures
        !rank_lt(a, i, a, i),
{
    lemma_positions_lt_irreflexive(a);
}

proof fn lemma_rank_lt_transitive(
    a: Seq<(Seq<u8>, usize, usize)>,
    i: int,
    b: Seq<(Seq<u8>, usize, usize)>,
    j: int,
    c: Seq<(Seq<u8>, usize, usize)>,
    k: int,
)
    requires
        rank_lt(a, i, b, j),
        rank_lt(b, j, c, k),
    ensures
        rank_lt(a, i, c, k),
{
    if positions_lt(a, b) && positions_lt(b, c) {
        lemma_positions_lt_transitive(a, b, c);
    }
}

proof fn lemma_rank_lt_total(a: Seq<(Seq<u8>, usize, usize)>, i: int, b: Seq<(Seq<u8>, usize, usize)>, j: int)
    requires
        i != j,
    ensures
        rank_lt(a, i, b, j) || rank_lt(b, j, a, i),
{
    if a != b {
        lemma_positions_lt_total(a, b);
    }
}

/// A cluster is never counted among those ranked before it, so its rank
/// among the first `k` is below `k` once it is one of them.
proof fn lemma_rank_bound(sources: Seq<SourceView>, positions: Seq<Seq<(Seq<u8>, usize, usize)>>, i: int, k: int)
    requires
        0 <= i,
        0 <= k <= sources.len(),
        sources.len() == positions.len(),
    ensures
        spec_rank(sources, positions, i, k) + (if i < k { 1int } else { 0int }) <= k,
    decreases k,
{
    if k > 0 {
        lemma_rank_bound(sources, positions, i, k - 1);
        if k - 1 == i {
            lemma_rank_lt_irreflexive(positions[i], i);
        }
    }
}

/// Where cluster `j` ranks before cluster `i` of the same source, every
/// cluster before `j` is also before `i`, and `j` itself is too.
proof fn lemma_rank_grows(sources: Seq<SourceView>, positions: Seq<Seq<(Seq<u8>, usize, usize)>>, i: int, j: int, k: int)
    requires
        0 <= i < sources.len(),
        0 <= j < sources.len(),
        0 <= k <= sources.len(),
        sources.len() == positions.len(),
        sources[i] == sources[j],
        rank_lt(positions[j], j, positions[i], i),
    ensures
        spec_rank(sources, positions, i, k) >= spec_rank(sources, positions, j, k) + (if j < k { 1int } else { 0int }),
    decreases k,
{
    if k > 0 {
        let m = k - 1;
        lemma_rank_grows(sources, positions, i, j, m);
        if sources[m] == sources[j] && rank_lt(positions[m], m, positions[j], j) {
            lemma_rank_lt_transitive(positions[m], m, positions[j], j, positions[i], i);
        }
        if m == j {
            lemma_rank_lt_irreflexive(positions[j], j);
        }
    }
}

/// Two different clusters with one source carry different ordinals.
pub proof fn lemma_ordinals_are_distinct(drafts: Seq<UnnamedView>, file_paths: Seq<FilePath>, i: int, j: int)
    requires
        0 <= i < drafts.len(),
        0 <= j < drafts.len(),
        i != j,
        draft_sources(drafts, file_paths)[i] == draft_sources(drafts, file_paths)[j],
    ensures
        spec_ordinal(drafts, file_paths, i) != spec_ordinal(drafts, file_paths, j),
        spec_ordinal(drafts, file_paths, i) < drafts.len(),
        spec_ordinal(drafts, file_paths, j) < drafts.len(),
{
    let sources = draft_sources(drafts, file_paths);
    let positions = draft_positions(drafts, file_paths);
    let n = drafts.len() as int;
    lemma_rank_lt_total(positions[i], i, positions[j], j);
    if rank_lt(positions[j], j, positions[i], i) {
        lemma_rank_grows(sources, positions, i, j, n);
    } else {
        lemma_rank_grows(sources, positions, j, i, n);
    }
    lemma_rank_bound(sources, positions, i, n);
    lemma_rank_bound(sources, positions, j, n);
}

proof fn lemma_le_bytes_injective(a: nat, b: nat, count: nat)
    requires
        a < pow256(count),
        b < pow256(count),
        spec_le_bytes(a, count) == spec_le_bytes(b, count),
    ensures
        a == b,
    decreases count,
{
    if count > 0 {
        let ta = spec_le_bytes(a / 256, (count - 1) as nat);
        let tb = spec_le_bytes(b / 256, (count - 1) as nat);
        assert(spec_le_bytes(a, count)[0] == (a % 256) as u8);
        assert(spec_le_bytes(b, count)[0] == (b % 256) as u8);
        assert(spec_le_bytes(a, count).drop_first() =~= ta);
        assert(spec_le_bytes(b, count).drop_first() =~= tb);
        assert(a / 256 < pow256((count - 1) as nat)) by (nonlinear_arith)
            requires a < pow256(count), pow256(count) == 256 * pow256((count - 1) as nat);
        assert(b / 256 < pow256((count - 1) as nat)) by (nonlinear_arith)
            requires b < pow256(count), pow256(count) == 256 * pow256((count - 1) as nat);
        lemma_le_bytes_injective(a / 256, b / 256, (count - 1) as nat);
        assert(a == 256 * (a / 256) + a % 256) by (nonlinear_arith);
        assert(b == 256 * (b / 256) + b % 256) by (nonlinear_arith);
    }
}

/// 256 to the power `count`.
pub open spec fn pow256(count: nat) -> nat
    decreases count,
{
    if count == 0 { 1 } else { 256 * pow256((count - 1) as nat) }
}

proof fn lemma_le_bytes_len(value: nat, count: nat)
    ensures
        spec_le_bytes(value, count).len() == count,
    decreases count,
{
    if count > 0 {
        lemma_le_bytes_len(value / 256, (count - 1) as nat);
    }
}

/// One source digested with two different ordinals gives two different
/// inputs.
pub proof fn lemma_id_inputs_differ(source: SourceView, a: u64, b: u64)
    requires
        a != b,
    ensures
        spec_id_input(source, a) != spec_id_input(source, b),
{
    lemma_le_bytes_len(a as nat, 8);
    lemma_le_bytes_len(b as nat, 8);
    let prefix = spec_id_input(source, 0);
    let ia = spec_id_input(source, a);
    let ib = spec_id_input(source, b);
    if a > 0 && b > 0 && ia == ib {
        assert(ia.subrange(prefix.len() as int, ia.len() as int) =~= spec_le_bytes(a as nat, 8));
        assert(ib.subrange(prefix.len() as int, ib.len() as int) =~= spec_le_bytes(b as nat, 8));
        reveal_with_fuel(pow256, 9);
        assert(pow256(8) == 0x1_0000_0000_0000_0000);
        lemma_le_bytes_injective(a as nat, b as nat, 8);
    }
}

/// Two different clusters of one tree never digest the same bytes: those
/// with different sources differ in the source, and those that share a
/// source differ in their ordinal.
pub proof fn lemma_id_inputs_are_distinct(drafts: Seq<UnnamedView>, file_paths: Seq<FilePath>, i: int, j: int)
    requires
        0 <= i < drafts.len(),
        0 <= j < drafts.len(),
        i != j,
        drafts.len() <= u64::MAX,
    ensures
        ({
            let sources = draft_sources(drafts, file_paths);
            sources[i] != sources[j] || spec_id_input(sources[i], spec_ordinal(drafts, file_paths, i) as u64)
                != spec_id_input(sources[j], spec_ordinal(drafts, file_paths, j) as u64)
        }),
{
    let sources = draft_sources(drafts, file_paths);
    if sources[i] == sources[j] {
        lemma_ordinals_are_distinct(drafts, file_paths, i, j);
        lemma_id_inputs_differ(sources[i], spec_ordinal(drafts, file_paths, i) as u64, spec_ordinal(drafts, file_paths, j) as u64);
    }
}

/// A cluster's rank among the first `k` depends only on the first `k`
/// sources and positions and on its own.
proof fn lemma_rank_prefix(
    sources: Seq<SourceView>,
    positions: Seq<Seq<(Seq<u8>, usize, usize)>>,
    longer_sources: Seq<SourceView>,
    longer_positions: Seq<Seq<(Seq<u8>, usize, usize)>>,
    i: int,
    k: int,
)
    requires
        0 <= i < sources.len(),
        0 <= k <= sources.len(),
        sources.len() <= longer_sources.len(),
        positions.len() == sources.len(),
        longer_positions.len() == longer_sources.len(),
        forall|j: int| 0 <= j < sources.len() ==> longer_sources[j] == sources[j] && longer_positions[j] == positions[j],
    ensures
        spec_rank(longer_sources, longer_positions, i, k) == spec_rank(sources, positions, i, k),
    decreases k,
{
    if k > 0 {
        lemma_rank_prefix(sources, positions, longer_sources, longer_positions, i, k - 1);
    }
}

/// A cluster keeps its id when another cluster arrives after it whose
/// position does not rank before its own: a second copy of a shape found
/// later does not rename the first.
pub proof fn lemma_later_copy_keeps_earlier_ids(drafts: Seq<UnnamedView>, file_paths: Seq<FilePath>, later: UnnamedView, i: int)
    requires
        0 <= i < drafts.len(),
        !positions_lt(spec_position(later.members, file_paths), spec_position(drafts[i].members, file_paths)),
    ensures
        spec_named(drafts.push(later), file_paths, i) == spec_named(drafts, file_paths, i),
{
    let longer = drafts.push(later);
    let sources = draft_sources(drafts, file_paths);
    let positions = draft_positions(drafts, file_paths);
    let longer_sources = draft_sources(longer, file_paths);
    let longer_positions = draft_positions(longer, file_paths);
    assert forall|j: int| 0 <= j < sources.len() implies longer_sources[j] == sources[j] && longer_positions[j] == positions[j] by {
        assert(longer[j] == drafts[j]);
    }
    let n = drafts.len() as int;
    lemma_rank_prefix(sources, positions, longer_sources, longer_positions, i, n);
    assert(longer[n] == later);
    assert(!rank_lt(longer_positions[n], n, longer_positions[i], i));
    assert(longer[i] == drafts[i]);
}

/// A later copy of a shape renames no earlier cluster: when every earlier
/// cluster sharing its source ranks no later than it, every earlier
/// cluster keeps its id, whatever its own source.
pub proof fn lemma_later_copy_renames_no_earlier_cluster(drafts: Seq<UnnamedView>, file_paths: Seq<FilePath>, later: UnnamedView)
    requires
        forall|j: int| 0 <= j < drafts.len() && spec_source(drafts[j].members, file_paths) == spec_source(later.members, file_paths)
            ==> !positions_lt(spec_position(later.members, file_paths), #[trigger] spec_position(drafts[j].members, file_paths)),
    ensures
        forall|i: int| 0 <= i < drafts.len() ==> #[trigger] spec_named(drafts.push(later), file_paths, i) == spec_named(drafts, file_paths, i),
{
    assert forall|i: int| 0 <= i < drafts.len() implies #[trigger] spec_named(drafts.push(later), file_paths, i) == spec_named(drafts, file_paths, i) by {
        if spec_source(drafts[i].members, file_paths) == spec_source(later.members, file_paths) {
            assert(!positions_lt(spec_position(later.members, file_paths), spec_position(drafts[i].members, file_paths)));
            lemma_later_copy_keeps_earlier_ids(drafts, file_paths, later, i);
        } else {
            let longer = drafts.push(later);
            let sources = draft_sources(drafts, file_paths);
            let positions = draft_positions(drafts, file_paths);
            let longer_sources = draft_sources(longer, file_paths);
            let longer_positions = draft_positions(longer, file_paths);
            assert forall|j: int| 0 <= j < sources.len() implies longer_sources[j] == sources[j] && longer_positions[j] == positions[j] by {
                assert(longer[j] == drafts[j]);
            }
            let n = drafts.len() as int;
            lemma_rank_prefix(sources, positions, longer_sources, longer_positions, i, n);
            assert(longer[n] == later);
            assert(longer[i] == drafts[i]);
            assert(longer_sources[n] != longer_sources[i]);
        }
    }
}

} // verus!
