//! Partitioning a fused component into families, and restricting the
//! component to one of them.
//!
//! Two passes split a component before signals are measured, one by the
//! source bytes a member covers and one by the normalised subtree it
//! hashes to; both group the members by a key in first-appearance order,
//! then rebuild the component around one group keeping only the discovery
//! edges whose endpoints stayed. The key is the only difference.

use vstd::prelude::*;

use crate::cluster::signals::GroupKey;
use crate::pair::{FusedCluster, FusedEdge};

verus! {

/// The families after the first `k` members: the keys met so far in
/// order of first appearance, and the members of each. A member whose key
/// is `None` joins no family.
pub open spec fn spec_families<V>(members: Seq<usize>, keys: Seq<Option<V>>, k: int) -> (Seq<V>, Seq<Seq<usize>>)
    decreases k,
{
    if k <= 0 || k > members.len() || k > keys.len() {
        (seq![], seq![])
    } else {
        let (seen, families) = spec_families(members, keys, k - 1);
        match keys[k - 1] {
            None => (seen, families),
            Some(key) => {
                let slot = seen.index_of_first(key);
                match slot {
                    Some(position) => (seen, families.update(position, families[position].push(members[k - 1]))),
                    None => (seen.push(key), families.push(seq![members[k - 1]])),
                }
            },
        }
    }
}

/// The models of a list of families.
pub open spec fn families_view(families: Seq<Vec<usize>>) -> Seq<Seq<usize>> {
    families.map_values(|family: Vec<usize>| family@)
}

/// The models of the keys met.
pub open spec fn keys_view<K: View>(keys: Seq<K>) -> Seq<K::V> {
    keys.map_values(|key: K| key@)
}

/// The models of the computed keys.
pub open spec fn optional_keys_view<K: View>(keys: Seq<Option<K>>) -> Seq<Option<K::V>> {
    keys.map_values(|key: Option<K>| match key {
        Some(k) => Some(k@),
        None => None,
    })
}

/// Position of the first key equal to `key`, if any.
fn slot_of<K: GroupKey>(seen: &Vec<K>, key: &K) -> (slot: Option<usize>)
    ensures
        match slot {
            Some(position) => keys_view(seen@).index_of_first(key@) == Some(position as int) && position < seen@.len(),
            None => keys_view(seen@).index_of_first(key@) is None,
        },
{
    let ghost view = keys_view(seen@);
    let mut index: usize = 0;
    while index < seen.len()
        invariant
            index <= seen@.len(),
            view == keys_view(seen@),
            view.len() == seen@.len(),
            forall|j: int| 0 <= j < index ==> view[j] != key@,
        decreases seen@.len() - index,
    {
        assert(view[index as int] == seen@[index as int]@);
        if seen[index].same_key(key) {
            proof {
                view.index_of_first_ensures(key@);
            }
            return Some(index);
        }
        index = index + 1;
    }
    proof {
        view.index_of_first_ensures(key@);
    }
    None
}

/// Groups `member_indices` by `key`, preserving first-appearance order
/// both between families and inside each one, so a split is deterministic.
/// A member whose key cannot be computed joins no family, which can only
/// ever make a pass do less. The result holds for the keys the closure
/// returned, one per member.
pub fn families_by<K: GroupKey, F: Fn(usize) -> Option<K>>(member_indices: &[usize], key: F) -> (families: Vec<Vec<usize>>)
    requires
        forall|i: usize| key.requires((i,)),
    ensures
        exists|keys: Seq<Option<K>>| {
            &&& keys.len() == member_indices@.len()
            &&& forall|i: int| 0 <= i < keys.len() ==> key.ensures((member_indices@[i],), #[trigger] keys[i])
            &&& families_view(families@) == spec_families(member_indices@, optional_keys_view(keys), member_indices@.len() as int).1
        },
{
    let mut seen: Vec<K> = Vec::new();
    let mut families: Vec<Vec<usize>> = Vec::new();
    let ghost mut keys: Seq<Option<K>> = Seq::empty();
    let mut index: usize = 0;
    while index < member_indices.len()
        invariant
            index <= member_indices@.len(),
            forall|i: usize| key.requires((i,)),
            keys.len() == index,
            seen@.len() == families@.len(),
            forall|i: int| 0 <= i < keys.len() ==> key.ensures((member_indices@[i],), #[trigger] keys[i]),
            spec_families(member_indices@, optional_keys_view(keys), index as int)
                == (keys_view(seen@), families_view(families@)),
        decreases member_indices@.len() - index,
    {
        let member = member_indices[index];
        let computed = key(member);
        let ghost before_keys = keys;
        proof {
            keys = keys.push(computed);
            assert(optional_keys_view(keys).take(index as int) =~= optional_keys_view(before_keys));
            lemma_families_prefix(member_indices@, optional_keys_view(keys), optional_keys_view(before_keys), index as int);
        }
        match computed {
            None => {},
            Some(found) => {
                match slot_of(&seen, &found) {
                    Some(position) => {
                        let mut family: Vec<usize> = Vec::new();
                        let ghost before = families_view(families@);
                        families.set_and_swap(position, &mut family);
                        family.push(member);
                        families.set_and_swap(position, &mut family);
                        assert(families_view(families@) =~= before.update(position as int, before[position as int].push(member)));
                    },
                    None => {
                        let ghost before_seen = keys_view(seen@);
                        let ghost before = families_view(families@);
                        seen.push(found);
                        let mut family: Vec<usize> = Vec::new();
                        family.push(member);
                        families.push(family);
                        assert(keys_view(seen@) =~= before_seen.push(found@));
                        assert(families_view(families@) =~= before.push(seq![member]));
                    },
                }
            },
        }
        index = index + 1;
    }
    families
}

/// The families over a prefix depend only on the keys of that prefix.
proof fn lemma_families_prefix<V>(members: Seq<usize>, longer: Seq<Option<V>>, shorter: Seq<Option<V>>, k: int)
    requires
        0 <= k <= shorter.len(),
        shorter.len() <= longer.len(),
        forall|i: int| 0 <= i < shorter.len() ==> longer[i] == shorter[i],
    ensures
        spec_families(members, longer, k) == spec_families(members, shorter, k),
    decreases k,
{
    if k > 0 {
        lemma_families_prefix(members, longer, shorter, k - 1);
    }
}

/// Whether an edge keeps both endpoints in `family`.
pub open spec fn spec_edge_kept(edge: FusedEdge, family: Seq<usize>) -> bool {
    family.contains(edge.left) && family.contains(edge.right)
}

/// The edges among the first `k` whose endpoints both stayed, in order.
pub open spec fn spec_kept_edges(edges: Seq<FusedEdge>, family: Seq<usize>, k: int) -> Seq<FusedEdge>
    decreases k,
{
    if k <= 0 || k > edges.len() {
        seq![]
    } else {
        let before = spec_kept_edges(edges, family, k - 1);
        if spec_edge_kept(edges[k - 1], family) { before.push(edges[k - 1]) } else { before }
    }
}

fn holds_member(family: &[usize], member: usize) -> (found: bool)
    ensures
        found == family@.contains(member),
{
    let mut index: usize = 0;
    while index < family.len()
        invariant
            index <= family@.len(),
            forall|j: int| 0 <= j < index ==> family@[j] != member,
        decreases family@.len() - index,
    {
        if family[index] == member {
            return true;
        }
        index = index + 1;
    }
    false
}

/// The component restricted to `family`: its members, and only the
/// discovery edges whose both endpoints stayed; the shape family is the
/// component's own.
pub fn restrict(fused: &FusedCluster, family: &[usize]) -> (restricted: FusedCluster)
    ensures
        restricted.members@ == family@,
        restricted.edges@ == spec_kept_edges(fused.edges@, family@, fused.edges@.len() as int),
        restricted.shape_family == fused.shape_family,
{
    let mut edges: Vec<FusedEdge> = Vec::new();
    let mut index: usize = 0;
    while index < fused.edges.len()
        invariant
            index <= fused.edges@.len(),
            edges@ == spec_kept_edges(fused.edges@, family@, index as int),
        decreases fused.edges@.len() - index,
    {
        let edge = fused.edges[index];
        if holds_member(family, edge.left) && holds_member(family, edge.right) {
            edges.push(edge);
        }
        index = index + 1;
    }
    let mut members: Vec<usize> = Vec::new();
    members.extend_from_slice(family);
    FusedCluster { members, edges, shape_family: fused.shape_family }
}

} // verus!
