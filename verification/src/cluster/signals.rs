//! Compact identities for repeated signal inputs.
//!
//! A cluster's signal triple is measured between its admitted pairs.
//! Occurrences with equal inputs give equal values, so each distinct input
//! gets a compact group id, and a value is retained only for a group pair
//! that more than one occurrence pair will ask for again.

use vstd::prelude::*;

use crate::ast::{fingerprints_view, Fingerprint, FingerprintView};
use super::identity::same_digest;

verus! {

/// A key that occurrences are grouped by, with equality decided on its
/// model.
pub trait GroupKey: View + Sized {
    /// Whether two keys are equal.
    fn same_key(&self, other: &Self) -> (same: bool)
        ensures
            same == (self@ == other@);
}

/// Merkle identity plus endpoint resolvability. Equal hashes always score
/// full overlap, but unequal hashes with an unresolvable side score none.
pub struct StructuralGroup {
    /// Merkle hash.
    pub hash: [u8; 32],
    /// Whether the endpoint range resolves when multiple hashes exist.
    pub resolvable: bool,
}

impl View for StructuralGroup {
    type V = (Seq<u8>, bool);

    open spec fn view(&self) -> (Seq<u8>, bool) {
        (self.hash@, self.resolvable)
    }
}

impl GroupKey for StructuralGroup {
    fn same_key(&self, other: &Self) -> (same: bool) {
        self.resolvable == other.resolvable && same_digest(&self.hash, &other.hash)
    }
}

impl<'a> GroupKey for &'a [u64] {
    fn same_key(&self, other: &Self) -> (same: bool) {
        if self.len() != other.len() {
            return false;
        }
        let mut index: usize = 0;
        while index < self.len()
            invariant
                index <= self@.len(),
                self@.len() == other@.len(),
                forall|j: int| 0 <= j < index ==> self@[j] == other@[j],
            decreases self@.len() - index,
        {
            if self[index] != other[index] {
                return false;
            }
            index = index + 1;
        }
        assert(self@ =~= other@);
        true
    }
}

/// Compact group ids and occurrence counts for one equality key: the key
/// at position `id` of `keys` has id `id`, and `sizes[id]` occurrences.
pub struct GroupTable<K> {
    /// The distinct keys, in order of first appearance.
    pub keys: Vec<K>,
    /// Occurrences assigned to each compact id.
    pub sizes: Vec<usize>,
}

impl<K: GroupKey> GroupTable<K> {
    /// The models of the keys, by id.
    pub open spec fn key_views(&self) -> Seq<K::V> {
        self.keys@.map_values(|key: K| key@)
    }

    /// One size per key, no key twice.
    pub open spec fn wf(&self) -> bool {
        &&& self.keys@.len() == self.sizes@.len()
        &&& forall|i: int, j: int|
            0 <= i < j < self.keys@.len() ==> #[trigger] self.key_views()[i] != #[trigger] self.key_views()[j]
    }

    /// Empty group table.
    pub fn new() -> (table: Self)
        ensures
            table.wf(),
            table.keys@.len() == 0,
            table.sizes@.len() == 0,
    {
        GroupTable { keys: Vec::new(), sizes: Vec::new() }
    }

    /// The id of the key equal to `key`, if any.
    fn find(&self, key: &K) -> (found: Option<usize>)
        requires
            self.wf(),
        ensures
            match found {
                Some(id) => id < self.keys@.len() && self.key_views()[id as int] == key@,
                None => !self.key_views().contains(key@),
            },
    {
        let ghost views = self.key_views();
        let mut index: usize = 0;
        while index < self.keys.len()
            invariant
                index <= self.keys@.len(),
                views == self.key_views(),
                views.len() == self.keys@.len(),
                forall|j: int| 0 <= j < index ==> views[j] != key@,
            decreases self.keys@.len() - index,
        {
            assert(views[index as int] == self.keys@[index as int]@);
            if self.keys[index].same_key(key) {
                return Some(index);
            }
            index = index + 1;
        }
        None
    }

    /// Returns the key's id and records one occurrence: an equal key keeps
    /// its id and grows by one (saturating), a new key takes the next id
    /// with one occurrence.
    pub fn add(&mut self, key: K) -> (id: usize)
        requires
            old(self).wf(),
        ensures
            final(self).wf(),
            id < final(self).keys@.len(),
            final(self).key_views()[id as int] == key@,
            old(self).key_views().contains(key@) ==> {
                &&& final(self).key_views() == old(self).key_views()
                &&& final(self).sizes@ == old(self).sizes@.update(
                    id as int,
                    if old(self).sizes@[id as int] == usize::MAX { usize::MAX } else { (old(self).sizes@[id as int] + 1) as usize },
                )
            },
            !old(self).key_views().contains(key@) ==> {
                &&& id == old(self).keys@.len()
                &&& final(self).key_views() == old(self).key_views().push(key@)
                &&& final(self).sizes@ == old(self).sizes@.push(1)
            },
    {
        match self.find(&key) {
            Some(id) => {
                self.bump(id);
                id
            },
            None => {
                let ghost before = self.key_views();
                let id = self.sizes.len();
                self.sizes.push(1);
                self.keys.push(key);
                assert(self.key_views() =~= before.push(key@));
                assert forall|i: int, j: int| 0 <= i < j < self.keys@.len() implies
                    #[trigger] self.key_views()[i] != #[trigger] self.key_views()[j] by {
                    if j == id {
                        assert(before[i] == self.key_views()[i]);
                    }
                }
                id
            },
        }
    }

    /// Increments an existing group's population (saturating); an id with
    /// no group changes nothing.
    pub fn bump(&mut self, id: usize)
        requires
            old(self).wf(),
        ensures
            final(self).wf(),
            final(self).keys@ == old(self).keys@,
            id < old(self).sizes@.len() ==> final(self).sizes@ == old(self).sizes@.update(
                id as int,
                if old(self).sizes@[id as int] == usize::MAX { usize::MAX } else { (old(self).sizes@[id as int] + 1) as usize },
            ),
            id >= old(self).sizes@.len() ==> final(self).sizes@ == old(self).sizes@,
    {
        if id < self.sizes.len() {
            let size = self.sizes[id];
            let grown = if size == usize::MAX { usize::MAX } else { size + 1 };
            self.sizes.set(id, grown);
        }
        assert(self.key_views() == old(self).key_views());
    }
}

/// The hashes of the fingerprints that `indices` name, in index order;
/// an index past the corpus names none.
pub open spec fn spec_present_hashes(fingerprints: Seq<FingerprintView>, indices: Seq<usize>) -> Seq<Seq<u8>>
    decreases indices.len(),
{
    if indices.len() == 0 {
        seq![]
    } else {
        let before = spec_present_hashes(fingerprints, indices.drop_last());
        let index = indices.last();
        if index < fingerprints.len() { before.push(fingerprints[index as int].hash) } else { before }
    }
}

/// Whether the named occurrences carry more than one Merkle hash.
pub open spec fn spec_has_multiple_hashes(fingerprints: Seq<FingerprintView>, indices: Seq<usize>) -> bool {
    let hashes = spec_present_hashes(fingerprints, indices);
    exists|i: int| 0 <= i < hashes.len() && #[trigger] hashes[i] != hashes[0]
}

/// Whether the rendered occurrences carry more than one Merkle hash. A
/// one-hash cluster needs no endpoint resolution: every structural pair
/// scores full overlap before the trees are consulted.
pub fn has_multiple_structural_hashes(fingerprints: &[Fingerprint], indices: &[usize]) -> (multiple: bool)
    ensures
        multiple == spec_has_multiple_hashes(fingerprints_view(fingerprints@), indices@),
{
    let ghost fv = fingerprints_view(fingerprints@);
    let mut first: Option<[u8; 32]> = None;
    let mut index: usize = 0;
    while index < indices.len()
        invariant
            index <= indices@.len(),
            fv == fingerprints_view(fingerprints@),
            fv.len() == fingerprints@.len(),
            ({
                let hashes = spec_present_hashes(fv, indices@.take(index as int));
                &&& (first is None <==> hashes.len() == 0)
                &&& (first matches Some(h) ==> h@ == hashes[0])
                &&& forall|i: int| 0 <= i < hashes.len() ==> #[trigger] hashes[i] == hashes[0]
            }),
        decreases indices@.len() - index,
    {
        let ghost before = spec_present_hashes(fv, indices@.take(index as int));
        assert(indices@.take(index as int + 1).drop_last() =~= indices@.take(index as int));
        let position = indices[index];
        if position < fingerprints.len() {
            let hash = fingerprints[position].hash;
            assert(fv[position as int] == fingerprints@[position as int]@);
            match first {
                None => {
                    first = Some(hash);
                },
                Some(seen) => {
                    if !same_digest(&seen, &hash) {
                        let ghost hashes = spec_present_hashes(fv, indices@.take(index as int + 1));
                        assert(hashes[hashes.len() - 1] != hashes[0]);
                        let k = index + 1;
                        proof {
                            assert(indices@.take(k as int) =~= indices@.take(index as int + 1));
                            lemma_present_hashes_prefix(fv, indices@, k as int);
                        }
                        return true;
                    }
                },
            }
        }
        index = index + 1;
    }
    assert(indices@.take(indices@.len() as int) =~= indices@);
    false
}

/// The hashes named by a prefix of the indices open the hashes named by
/// them all.
proof fn lemma_present_hashes_prefix(fingerprints: Seq<FingerprintView>, indices: Seq<usize>, k: int)
    requires
        0 <= k <= indices.len(),
    ensures
        spec_present_hashes(fingerprints, indices.take(k)).len() <= spec_present_hashes(fingerprints, indices).len(),
        forall|i: int| 0 <= i < spec_present_hashes(fingerprints, indices.take(k)).len() ==>
            #[trigger] spec_present_hashes(fingerprints, indices.take(k))[i] == spec_present_hashes(fingerprints, indices)[i],
    decreases indices.len() - k,
{
    if k < indices.len() {
        lemma_present_hashes_prefix(fingerprints, indices, k + 1);
        assert(indices.take(k + 1).drop_last() =~= indices.take(k));
        let shorter = spec_present_hashes(fingerprints, indices.take(k));
        let longer = spec_present_hashes(fingerprints, indices.take(k + 1));
        let full = spec_present_hashes(fingerprints, indices);
        assert(indices.take(k + 1).len() > 0);
        assert(shorter == longer || shorter == longer.drop_last());
        assert forall|i: int| 0 <= i < shorter.len() implies #[trigger] shorter[i] == full[i] by {
            assert(shorter[i] == longer[i]);
            assert(longer[i] == full[i]);
        }
    } else {
        assert(indices.take(k) =~= indices);
    }
}

/// Order-insensitive cache identity for two compact groups.
pub open spec fn spec_ordered_group_pair(groups: (usize, usize)) -> (usize, usize) {
    if groups.0 <= groups.1 { groups } else { (groups.1, groups.0) }
}

/// Order-insensitive cache identity for two compact groups.
pub fn ordered_group_pair(groups: (usize, usize)) -> (key: (usize, usize))
    ensures
        key == spec_ordered_group_pair(groups),
{
    if groups.0 <= groups.1 {
        groups
    } else {
        (groups.1, groups.0)
    }
}

/// A group pair names one cache identity whichever side comes first.
pub proof fn lemma_group_pair_is_unordered(left: usize, right: usize)
    ensures
        spec_ordered_group_pair((left, right)) == spec_ordered_group_pair((right, left)),
        spec_ordered_group_pair((left, right)).0 <= spec_ordered_group_pair((left, right)).1,
{
}

/// Number of distinct values in the one-group fast path.
pub const SINGLE_GROUP_COUNT: usize = 1;

/// Members required for two distinct same-group occurrence pairs.
pub const SAME_GROUP_CACHE_MIN_MEMBERS: usize = 3;

/// Members required for a cross-group pair value to repeat.
pub const CROSS_GROUP_CACHE_MIN_MEMBERS: usize = 2;

/// The population of group `id`, none past the known groups.
pub open spec fn spec_group_size(sizes: Seq<usize>, id: usize) -> usize {
    if id < sizes.len() { sizes[id as int] } else { 0 }
}

/// Whether more than one occurrence pair shares the group pair `key`.
pub open spec fn spec_repeats(sizes: Seq<usize>, key: (usize, usize)) -> bool {
    if key.0 == key.1 {
        spec_group_size(sizes, key.0) >= SAME_GROUP_CACHE_MIN_MEMBERS
    } else {
        spec_group_size(sizes, key.0) >= CROSS_GROUP_CACHE_MIN_MEMBERS
            || spec_group_size(sizes, key.1) >= CROSS_GROUP_CACHE_MIN_MEMBERS
    }
}

/// The value retained for `key`: the latest entry for it.
pub open spec fn spec_lookup<V>(entries: Seq<((usize, usize), V)>, key: (usize, usize)) -> Option<V>
    decreases entries.len(),
{
    if entries.len() == 0 {
        None
    } else if entries.last().0 == key {
        Some(entries.last().1)
    } else {
        spec_lookup(entries.drop_last(), key)
    }
}

/// Values retained only when a group pair occurs more than once.
pub struct PairValueCache<V> {
    /// Population per compact group id.
    pub group_sizes: Vec<usize>,
    /// Value for the common one-group cluster.
    pub single_value: Option<V>,
    /// Already measured repeated group pairs.
    pub values: Vec<((usize, usize), V)>,
}

impl<V: Copy> PairValueCache<V> {
    /// Cache over one signal's group populations.
    pub fn new(group_sizes: Vec<usize>) -> (cache: Self)
        ensures
            cache.group_sizes@ == group_sizes@,
            cache.single_value is None,
            cache.values@.len() == 0,
    {
        PairValueCache { group_sizes, single_value: None, values: Vec::new() }
    }

    /// Whether more than one occurrence pair shares this group pair.
    pub fn repeats(&self, key: (usize, usize)) -> (repeats: bool)
        ensures
            repeats == spec_repeats(self.group_sizes@, key),
    {
        let left_size = if key.0 < self.group_sizes.len() { self.group_sizes[key.0] } else { 0 };
        let right_size = if key.1 < self.group_sizes.len() { self.group_sizes[key.1] } else { 0 };
        if key.0 == key.1 {
            return left_size >= SAME_GROUP_CACHE_MIN_MEMBERS;
        }
        left_size >= CROSS_GROUP_CACHE_MIN_MEMBERS || right_size >= CROSS_GROUP_CACHE_MIN_MEMBERS
    }

    /// The value retained for `key`, if any.
    fn lookup(&self, key: (usize, usize)) -> (found: Option<V>)
        ensures
            found == spec_lookup(self.values@, key),
    {
        let mut found: Option<V> = None;
        let mut index: usize = 0;
        while index < self.values.len()
            invariant
                index <= self.values@.len(),
                found == spec_lookup(self.values@.take(index as int), key),
            decreases self.values@.len() - index,
        {
            assert(self.values@.take(index as int + 1).drop_last() =~= self.values@.take(index as int));
            let entry = self.values[index];
            if entry.0.0 == key.0 && entry.0.1 == key.1 {
                found = Some(entry.1);
            }
            index = index + 1;
        }
        assert(self.values@.take(self.values@.len() as int) =~= self.values@);
        found
    }

    /// Returns or initializes the sole group's cached value.
    pub fn single<F: FnOnce() -> V>(&mut self, compute: F) -> (value: V)
        requires
            compute.requires(()),
        ensures
            final(self).group_sizes == old(self).group_sizes,
            final(self).values == old(self).values,
            match old(self).single_value {
                Some(cached) => value == cached && final(self).single_value == old(self).single_value,
                None => compute.ensures((), value) && final(self).single_value == Some(value),
            },
    {
        match self.single_value {
            Some(cached) => cached,
            None => {
                let value = compute();
                self.single_value = Some(value);
                value
            },
        }
    }

    /// Returns one value for the group pair, retaining it only when another
    /// occurrence pair will ask for it again: the sole group's value is
    /// kept apart, a pair that does not repeat is computed afresh, and a
    /// repeating pair is computed once and then read back.
    pub fn value<F: FnOnce() -> V>(&mut self, groups: (usize, usize), compute: F) -> (value: V)
        requires
            compute.requires(()),
        ensures
            final(self).group_sizes == old(self).group_sizes,
            ({
                let key = spec_ordered_group_pair(groups);
                if old(self).group_sizes@.len() == SINGLE_GROUP_COUNT && key == (0usize, 0usize) {
                    &&& final(self).values == old(self).values
                    &&& match old(self).single_value {
                        Some(cached) => value == cached && final(self).single_value == old(self).single_value,
                        None => compute.ensures((), value) && final(self).single_value == Some(value),
                    }
                } else if !spec_repeats(old(self).group_sizes@, key) {
                    &&& compute.ensures((), value)
                    &&& final(self).values == old(self).values
                    &&& final(self).single_value == old(self).single_value
                } else {
                    &&& final(self).single_value == old(self).single_value
                    &&& match spec_lookup(old(self).values@, key) {
                        Some(cached) => value == cached && final(self).values == old(self).values,
                        None => compute.ensures((), value) && final(self).values@ == old(self).values@.push((key, value)),
                    }
                    &&& spec_lookup(final(self).values@, key) == Some(value)
                }
            }),
    {
        let key = ordered_group_pair(groups);
        if self.group_sizes.len() == SINGLE_GROUP_COUNT && key.0 == 0 && key.1 == 0 {
            return self.single(compute);
        }
        if !self.repeats(key) {
            return compute();
        }
        match self.lookup(key) {
            Some(cached) => cached,
            None => {
                let value = compute();
                self.values.push((key, value));
                assert(self.values@.drop_last() =~= old(self).values@);
                value
            },
        }
    }
}

/// The compact group ids of one occurrence's available signal inputs.
#[derive(Clone, Copy)]
pub struct GroupedIds {
    /// Structural group, partitioned by hash and resolvability.
    pub structural_group: Option<usize>,
    /// Exact signature-content group.
    pub token_group: Option<usize>,
}

/// Structural and token group ids, assigned while occurrences resolve.
pub struct SignalGroups<'a> {
    /// Structural equality groups.
    pub structural: GroupTable<StructuralGroup>,
    /// Token-signature equality groups.
    pub token: GroupTable<&'a [u64]>,
}

/// Cached values for repeated group pairs, one cache per signal.
pub struct SignalValues<V> {
    /// Structural overlap by repeated group pair.
    pub structural: PairValueCache<V>,
    /// Token estimate by repeated group pair.
    pub token: PairValueCache<V>,
}

impl<'a> SignalGroups<'a> {
    /// Both tables well formed.
    pub open spec fn wf(&self) -> bool {
        self.structural.wf() && self.token.wf()
    }

    /// Empty signal grouping state.
    pub fn new() -> (groups: Self)
        ensures
            groups.wf(),
            groups.structural.keys@.len() == 0,
            groups.token.keys@.len() == 0,
    {
        SignalGroups { structural: GroupTable::new(), token: GroupTable::new() }
    }

    /// Structural id of one occurrence. Resolvability partitions the
    /// hash only when the cluster carries unequal hashes (`resolve`);
    /// `resolvable` says whether the occurrence's endpoint range resolves.
    pub fn structural_id(&mut self, fingerprint: &Fingerprint, resolve: bool, resolvable: bool) -> (id: usize)
        requires
            old(self).wf(),
        ensures
            final(self).wf(),
            final(self).token == old(self).token,
            id < final(self).structural.keys@.len(),
            final(self).structural.key_views()[id as int] == (fingerprint.hash@, !resolve || resolvable),
            old(self).structural.key_views().contains((fingerprint.hash@, !resolve || resolvable)) ==>
                final(self).structural.key_views() == old(self).structural.key_views(),
            !old(self).structural.key_views().contains((fingerprint.hash@, !resolve || resolvable)) ==>
                final(self).structural.key_views() == old(self).structural.key_views().push((fingerprint.hash@, !resolve || resolvable)),
    {
        self.structural.add(StructuralGroup { hash: fingerprint.hash, resolvable: !resolve || resolvable })
    }

    /// Assigns group ids to one occurrence's available signal inputs; an
    /// absent input has no group.
    pub fn add(
        &mut self,
        fingerprint: Option<&Fingerprint>,
        signature: Option<&'a [u64]>,
        resolve: bool,
        resolvable: bool,
    ) -> (ids: GroupedIds)
        requires
            old(self).wf(),
        ensures
            final(self).wf(),
            (ids.structural_group is Some) == (fingerprint is Some),
            (ids.token_group is Some) == (signature is Some),
            fingerprint matches Some(f) ==> final(self).structural.key_views()[ids.structural_group.unwrap() as int]
                == (f.hash@, !resolve || resolvable) && ids.structural_group.unwrap() < final(self).structural.keys@.len(),
            fingerprint is None ==> final(self).structural == old(self).structural,
            signature matches Some(s) ==> final(self).token.key_views()[ids.token_group.unwrap() as int] == s@
                && ids.token_group.unwrap() < final(self).token.keys@.len(),
            signature is None ==> final(self).token == old(self).token,
    {
        let structural_group = match fingerprint {
            Some(f) => Some(self.structural_id(f, resolve, resolvable)),
            None => None,
        };
        let token_group = match signature {
            Some(s) => Some(self.token.add(s)),
            None => None,
        };
        GroupedIds { structural_group, token_group }
    }

    /// Converts group populations into value caches.
    pub fn into_values<V: Copy>(self) -> (values: SignalValues<V>)
        ensures
            values.structural.group_sizes@ == self.structural.sizes@,
            values.token.group_sizes@ == self.token.sizes@,
            values.structural.single_value is None && values.structural.values@.len() == 0,
            values.token.single_value is None && values.token.values@.len() == 0,
    {
        SignalValues { structural: PairValueCache::new(self.structural.sizes), token: PairValueCache::new(self.token.sizes) }
    }
}

} // verus!
