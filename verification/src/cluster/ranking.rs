//! The ranking order of reported clusters is total: heavier clusters come
//! first, and the id breaks every tie between clusters of equal mass.

use vstd::prelude::*;

use super::subsume::survivor::spec_chars_order;
use super::{rank_insertion_point, rank_lt, ranked, ClusterView};

verus! {

proof fn lemma_chars_order_antisymmetric(a: Seq<char>, b: Seq<char>)
    ensures
        spec_chars_order(a, b) == -spec_chars_order(b, a),
        -1 <= spec_chars_order(a, b) <= 1,
    decreases a.len(),
{
    if a.len() > 0 && b.len() > 0 && (a[0] as u32) == (b[0] as u32) {
        lemma_chars_order_antisymmetric(a.drop_first(), b.drop_first());
    }
}

proof fn lemma_chars_order_transitive(a: Seq<char>, b: Seq<char>, c: Seq<char>)
    requires
        spec_chars_order(a, b) == -1,
        spec_chars_order(b, c) == -1,
    ensures
        spec_chars_order(a, c) == -1,
    decreases a.len(),
{
    if a.len() > 0 && b.len() > 0 && c.len() > 0 && (a[0] as u32) == (b[0] as u32) && (b[0] as u32) == (c[0] as u32) {
        lemma_chars_order_transitive(a.drop_first(), b.drop_first(), c.drop_first());
    }
}

proof fn lemma_chars_order_equal(a: Seq<char>, b: Seq<char>)
    requires
        spec_chars_order(a, b) == 0,
    ensures
        a == b,
    decreases a.len(),
{
    if a.len() > 0 && b.len() > 0 {
        vstd::utf8::char_u32_cast(a[0], a[0] as u32);
        vstd::utf8::char_u32_cast(b[0], b[0] as u32);
        assert(a[0] == b[0]);
        lemma_chars_order_equal(a.drop_first(), b.drop_first());
        assert(a =~= seq![a[0]] + a.drop_first());
        assert(b =~= seq![b[0]] + b.drop_first());
    } else {
        assert(a.len() == 0 && b.len() == 0);
        assert(a =~= b);
    }
}

proof fn lemma_rank_lt_transitive(a: ClusterView, b: ClusterView, c: ClusterView)
    requires
        rank_lt(a, b),
        rank_lt(b, c),
    ensures
        rank_lt(a, c),
{
    if a.mass == b.mass && b.mass == c.mass {
        lemma_chars_order_transitive(a.id, b.id, c.id);
    }
}

proof fn lemma_rank_lt_asymmetric(a: ClusterView, b: ClusterView)
    ensures
        !(rank_lt(a, b) && rank_lt(b, a)),
{
    lemma_chars_order_antisymmetric(a.id, b.id);
}

/// Two clusters that neither ranks before the other have one mass and one
/// id.
pub proof fn lemma_rank_ties_share_mass_and_id(a: ClusterView, b: ClusterView)
    requires
        !rank_lt(a, b),
        !rank_lt(b, a),
    ensures
        a.mass == b.mass,
        a.id == b.id,
{
    lemma_chars_order_antisymmetric(a.id, b.id);
    lemma_chars_order_equal(a.id, b.id);
}

proof fn lemma_insertion_point(sorted: Seq<ClusterView>, x: ClusterView, from: int)
    requires
        0 <= from <= sorted.len(),
    ensures
        from <= rank_insertion_point(sorted, x, from) <= sorted.len(),
        forall|k: int| from <= k < rank_insertion_point(sorted, x, from) ==> !rank_lt(x, #[trigger] sorted[k]),
        rank_insertion_point(sorted, x, from) < sorted.len() ==> rank_lt(x, sorted[rank_insertion_point(sorted, x, from)]),
    decreases sorted.len() - from,
{
    if from < sorted.len() && !rank_lt(x, sorted[from]) {
        lemma_insertion_point(sorted, x, from + 1);
    }
}

/// Whether no cluster of `clusters` ranks before one listed earlier.
pub open spec fn spec_rank_sorted(clusters: Seq<ClusterView>) -> bool {
    forall|i: int, j: int| 0 <= i < j < clusters.len() ==> !rank_lt(#[trigger] clusters[j], #[trigger] clusters[i])
}

/// The ranking holds exactly the clusters it was given, heavier first and,
/// between clusters of equal mass, the smaller id first: no cluster ranks
/// before one listed ahead of it.
pub proof fn lemma_ranking_is_a_sorted_permutation(clusters: Seq<ClusterView>)
    ensures
        ranked(clusters).to_multiset() == clusters.to_multiset(),
        ranked(clusters).len() == clusters.len(),
        spec_rank_sorted(ranked(clusters)),
    decreases clusters.len(),
{
    if clusters.len() > 0 {
        let rest = ranked(clusters.drop_last());
        let x = clusters.last();
        lemma_ranking_is_a_sorted_permutation(clusters.drop_last());
        lemma_insertion_point(rest, x, 0);
        let p = rank_insertion_point(rest, x, 0);
        let result = rest.insert(p, x);
        vstd::seq_lib::to_multiset_insert(rest, p, x);
        vstd::seq_lib::to_multiset_build(clusters.drop_last(), x);
        assert(clusters.drop_last().push(x) =~= clusters);
        assert forall|i: int, j: int| 0 <= i < j < result.len() implies !rank_lt(#[trigger] result[j], #[trigger] result[i]) by {
            if j < p {
                assert(result[i] == rest[i] && result[j] == rest[j]);
            } else if j == p {
                assert(result[i] == rest[i]);
                assert(result[j] == x);
            } else if i == p {
                assert(result[i] == x);
                assert(result[j] == rest[j - 1]);
                if rank_lt(rest[j - 1], x) {
                    lemma_rank_lt_transitive(rest[j - 1], x, rest[p]);
                    if j - 1 == p {
                        lemma_rank_lt_asymmetric(rest[p], rest[p]);
                    } else {
                        assert(!rank_lt(rest[j - 1], rest[p]));
                    }
                }
            } else if i < p {
                assert(result[i] == rest[i]);
                assert(result[j] == rest[j - 1]);
            } else {
                assert(result[i] == rest[i - 1]);
                assert(result[j] == rest[j - 1]);
            }
        }
    }
}

/// The ranking puts heavier duplicated mass first: along the ranked list
/// mass never increases, and between two clusters of one mass the id that
/// orders first comes first.
pub proof fn lemma_ranking_puts_heavier_mass_first(clusters: Seq<ClusterView>)
    ensures
        forall|i: int, j: int| 0 <= i < j < ranked(clusters).len() ==>
            (#[trigger] ranked(clusters)[i]).mass >= (#[trigger] ranked(clusters)[j]).mass,
        forall|i: int, j: int| 0 <= i < j < ranked(clusters).len() && ranked(clusters)[i].mass == ranked(clusters)[j].mass ==>
            spec_chars_order((#[trigger] ranked(clusters)[i]).id, (#[trigger] ranked(clusters)[j]).id) != 1,
{
    lemma_ranking_is_a_sorted_permutation(clusters);
    let r = ranked(clusters);
    assert forall|i: int, j: int| 0 <= i < j < r.len() implies r[i].mass >= r[j].mass
        && (r[i].mass == r[j].mass ==> spec_chars_order(r[i].id, r[j].id) != 1) by {
        assert(!rank_lt(r[j], r[i]));
        lemma_chars_order_antisymmetric(r[j].id, r[i].id);
    }
}

} // verus!
