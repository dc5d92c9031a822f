//! Keep established copies when a shape family contains unrelated
//! members: a cluster's members are grouped around references, clone
//! relations apart from informational ones, and identical memberships are
//! one finding.

use vstd::prelude::*;

use super::{kind_strength, lemma_weaker_is_a_meet, spec_is_clone, spec_weaker, ClusterKind};

verus! {

/// Reference occurrence first, followed only by established matching members.
pub type KindGroup = (Vec<usize>, ClusterKind);

/// The mathematical model of a [`KindGroup`].
pub type GroupModel = (Seq<usize>, ClusterKind);

/// One group keyed by its sorted membership.
pub type Entry = (Vec<usize>, KindGroup);

/// The model of one [`Entry`]: sorted membership, then the group.
pub type EntryModel = (Seq<usize>, GroupModel);

/// The model of a group.
pub open spec fn group_model(group: KindGroup) -> GroupModel {
    (group.0@, group.1)
}

/// The models of a sequence of groups.
pub open spec fn groups_model(groups: Seq<KindGroup>) -> Seq<GroupModel> {
    groups.map_values(|g: KindGroup| group_model(g))
}

/// The groups held by a keyed collection, in key order.
pub open spec fn entry_groups(entries: Seq<EntryModel>) -> Seq<GroupModel> {
    entries.map_values(|e: EntryModel| e.1)
}

/// The model of a keyed collection of groups.
pub open spec fn entries_model(entries: Seq<Entry>) -> Seq<EntryModel> {
    entries.map_values(|e: Entry| (e.0@, group_model(e.1)))
}

// ----- sorting and ordering of member lists -----

/// Index at which insertion sort places `x` in `sorted`: before the
/// first element greater than `x`, scanning from `from`.
pub open spec fn insertion_point(sorted: Seq<usize>, x: usize, from: int) -> int
    decreases sorted.len() - from,
{
    if from < 0 || from >= sorted.len() {
        sorted.len() as int
    } else if x < sorted[from] {
        from
    } else {
        insertion_point(sorted, x, from + 1)
    }
}

/// `s` sorted ascending by insertion, in order of appearance.
pub open spec fn insertion_sorted(s: Seq<usize>) -> Seq<usize>
    decreases s.len(),
{
    if s.len() == 0 {
        s
    } else {
        let rest = insertion_sorted(s.drop_last());
        rest.insert(insertion_point(rest, s.last(), 0), s.last())
    }
}

/// Lexicographic order on member lists, the order groups are listed in.
pub open spec fn lex_lt(a: Seq<usize>, b: Seq<usize>) -> bool
    decreases a.len(),
{
    if b.len() == 0 {
        false
    } else if a.len() == 0 {
        true
    } else if a[0] < b[0] {
        true
    } else if a[0] > b[0] {
        false
    } else {
        lex_lt(a.drop_first(), b.drop_first())
    }
}

/// Sorts a copy of `members` ascending.
pub fn sorted_copy(members: &[usize]) -> (sorted: Vec<usize>)
    ensures
        sorted@ == insertion_sorted(members@),
{
    let mut sorted: Vec<usize> = Vec::new();
    let mut index: usize = 0;
    while index < members.len()
        invariant
            index <= members@.len(),
            sorted@ == insertion_sorted(members@.take(index as int)),
        decreases members@.len() - index,
    {
        let x = members[index];
        let mut position: usize = 0;
        while position < sorted.len() && !(x < sorted[position])
            invariant
                position <= sorted@.len(),
                insertion_point(sorted@, x, 0) == insertion_point(sorted@, x, position as int),
            decreases sorted@.len() - position,
        {
            position = position + 1;
        }
        assert(members@.take(index as int + 1).drop_last() =~= members@.take(index as int));
        sorted.insert(position, x);
        index = index + 1;
    }
    assert(members@.take(members@.len() as int) =~= members@);
    sorted
}

/// Lexicographic comparison of two member lists.
pub fn lex_less(a: &Vec<usize>, b: &Vec<usize>) -> (less: bool)
    ensures
        less == lex_lt(a@, b@),
{
    let mut index: usize = 0;
    assert(a@.skip(0) =~= a@);
    assert(b@.skip(0) =~= b@);
    while index < a.len() && index < b.len()
        invariant
            index <= a@.len(),
            index <= b@.len(),
            lex_lt(a@, b@) == lex_lt(a@.skip(index as int), b@.skip(index as int)),
        decreases a@.len() - index,
    {
        if a[index] < b[index] {
            return true;
        }
        if a[index] > b[index] {
            return false;
        }
        assert(a@.skip(index as int).drop_first() =~= a@.skip(index as int + 1));
        assert(b@.skip(index as int).drop_first() =~= b@.skip(index as int + 1));
        index = index + 1;
    }
    index < b.len()
}

/// Equality of two member lists.
pub fn same_members(a: &Vec<usize>, b: &Vec<usize>) -> (same: bool)
    ensures
        same == (a@ == b@),
{
    if a.len() != b.len() {
        return false;
    }
    let mut index: usize = 0;
    while index < a.len()
        invariant
            index <= a@.len(),
            a@.len() == b@.len(),
            forall|j: int| 0 <= j < index ==> a@[j] == b@[j],
        decreases a@.len() - index,
    {
        if a[index] != b[index] {
            return false;
        }
        index = index + 1;
    }
    assert(a@ =~= b@);
    true
}

/// Whether `x` occurs in `v` at or after position `from`.
pub fn contains_from(v: &Vec<usize>, from: usize, x: usize) -> (found: bool)
    ensures
        found == exists|j: int| from <= j < v@.len() && v@[j] == x,
{
    let mut index = from;
    while index < v.len()
        invariant
            from <= index,
            forall|j: int| from <= j < index && j < v@.len() ==> v@[j] != x,
        decreases v@.len() - index,
    {
        if v[index] == x {
            return true;
        }
        index = index + 1;
    }
    false
}

// ----- the grouping model -----

/// Every member of `subset` past its reference is related to that
/// reference by some relation `container` already names.
pub open spec fn spec_covers_relations(container: GroupModel, subset: GroupModel) -> bool {
    if subset.0.len() == 0 || container.0.len() == 0 {
        false
    } else {
        let reference = subset.0[0];
        let cover_reference = container.0[0];
        let cover_members = container.0.drop_first();
        forall|i: int| 1 <= i < subset.0.len() ==> {
            let member = #[trigger] subset.0[i];
            (reference == cover_reference && cover_members.contains(member)) || (member
                == cover_reference && cover_members.contains(reference))
        }
    }
}

/// Where `key` is inserted among `entries`: before the first entry whose
/// key does not sort before it.
pub open spec fn key_position(entries: Seq<EntryModel>, key: Seq<usize>, from: int) -> int
    decreases entries.len() - from,
{
    if from < 0 || from >= entries.len() {
        entries.len() as int
    } else if !lex_lt(entries[from].0, key) {
        from
    } else {
        key_position(entries, key, from + 1)
    }
}

/// Adds `group` under `key` unless that key is already present.
pub open spec fn insert_entry(entries: Seq<EntryModel>, key: Seq<usize>, group: GroupModel) -> Seq<EntryModel> {
    if exists|i: int| 0 <= i < entries.len() && #[trigger] entries[i].0 == key {
        entries
    } else {
        entries.insert(key_position(entries, key, 0), (key, group))
    }
}

/// Whether an informational `group` adds a relation absent from every
/// informational group already kept.
pub open spec fn spec_adds_information(entries: Seq<EntryModel>, group: GroupModel) -> bool {
    !exists|i: int| 0 <= i < entries.len() && !spec_is_clone(entries[i].1.1)
        && #[trigger] spec_covers_relations(entries[i].1, group)
}

/// The entries kept when `group` is admitted: informational groups whose
/// relations it covers are dropped.
pub open spec fn spec_retained(entries: Seq<EntryModel>, group: GroupModel) -> Seq<EntryModel> {
    entries.filter(|e: EntryModel| spec_is_clone(e.1.1) || !spec_covers_relations(group, e.1))
}

/// Records `group` as one finding keyed by its sorted membership.
pub open spec fn spec_insert_group(entries: Seq<EntryModel>, group: GroupModel) -> Seq<EntryModel> {
    let key = insertion_sorted(group.0);
    if !spec_is_clone(group.1) {
        if !spec_adds_information(entries, group) {
            entries
        } else {
            insert_entry(spec_retained(entries, group), key, group)
        }
    } else {
        insert_entry(entries, key, group)
    }
}

/// A reference's confirmed copies and informational matches after the
/// first `k` members, consuming observed comparison results from `cursor`.
/// Returns `(clones, information, next cursor)`.
pub open spec fn spec_reference_groups(
    reference: usize,
    members: Seq<usize>,
    observed: Seq<Option<ClusterKind>>,
    cursor: int,
    k: int,
) -> (GroupModel, GroupModel, int)
    decreases k,
{
    if k <= 0 {
        ((seq![reference], ClusterKind::Identical), (seq![reference], ClusterKind::StructuralOnly), cursor)
    } else {
        let (clones, information, next) = spec_reference_groups(reference, members, observed, cursor, k - 1);
        let member = members[k - 1];
        if member == reference {
            (clones, information, next)
        } else {
            match observed[next] {
                Some(kind) => if spec_is_clone(kind) {
                    ((clones.0.push(member), spec_weaker(clones.1, kind)), information, next + 1)
                } else {
                    (clones, (information.0.push(member), spec_weaker(information.1, kind)), next + 1)
                },
                None => (clones, information, next + 1),
            }
        }
    }
}

/// The comparisons a reference asks for over the first `k` members, in order.
pub open spec fn spec_reference_calls(reference: usize, members: Seq<usize>, k: int) -> Seq<(usize, usize)>
    decreases k,
{
    if k <= 0 {
        seq![]
    } else {
        let earlier = spec_reference_calls(reference, members, k - 1);
        if members[k - 1] == reference {
            earlier
        } else {
            earlier.push((reference, members[k - 1]))
        }
    }
}

/// The state of the grouping walk.
pub struct GroupingState {
    /// References not yet covered, ascending.
    pub uncovered: Seq<usize>,
    /// The groups found so far, keyed and ordered by sorted membership.
    pub entries: Seq<EntryModel>,
    /// Comparisons made so far, in order.
    pub calls: Seq<(usize, usize)>,
}

/// One step of the walk: take the smallest uncovered reference, group its
/// matches, and record the groups with more than one member.
pub open spec fn grouping_step(
    state: GroupingState,
    members: Seq<usize>,
    observed: Seq<Option<ClusterKind>>,
) -> GroupingState {
    let reference = state.uncovered[0];
    let (clones, information, _next) = spec_reference_groups(
        reference,
        members,
        observed,
        state.calls.len() as int,
        members.len() as int,
    );
    let rest = state.uncovered.drop_first();
    let uncovered = if clones.0.len() > 1 {
        rest.filter(|x: usize| !clones.0.contains(x))
    } else {
        rest
    };
    let with_clones = if clones.0.len() > 1 {
        spec_insert_group(state.entries, clones)
    } else {
        state.entries
    };
    let entries = if information.0.len() > 1 {
        spec_insert_group(with_clones, information)
    } else {
        with_clones
    };
    GroupingState {
        uncovered,
        entries,
        calls: state.calls + spec_reference_calls(reference, members, members.len() as int),
    }
}

/// The walk run to completion.
pub open spec fn grouping_walk(
    state: GroupingState,
    members: Seq<usize>,
    observed: Seq<Option<ClusterKind>>,
) -> GroupingState
    decreases state.uncovered.len(),
{
    if state.uncovered.len() == 0 {
        state
    } else {
        let next = grouping_step(state, members, observed);
        if next.uncovered.len() < state.uncovered.len() {
            grouping_walk(next, members, observed)
        } else {
            state
        }
    }
}

/// The walk from its start: every member uncovered, nothing grouped.
pub open spec fn grouping_of(members: Seq<usize>, observed: Seq<Option<ClusterKind>>) -> GroupingState {
    grouping_walk(
        GroupingState { uncovered: insertion_sorted(members), entries: seq![], calls: seq![] },
        members,
        observed,
    )
}

/// The groups of `members` under the comparison results `observed`, in
/// ascending order of their sorted memberships.
pub open spec fn spec_group_members(members: Seq<usize>, observed: Seq<Option<ClusterKind>>) -> Seq<GroupModel> {
    entry_groups(grouping_of(members, observed).entries)
}

// ----- lemmas -----

/// The groups a reference forms depend only on the comparison results it
/// consumes, and it consumes exactly one result per comparison it asks for.
pub proof fn lemma_reference_groups_reads_only_its_results(
    reference: usize,
    members: Seq<usize>,
    first: Seq<Option<ClusterKind>>,
    second: Seq<Option<ClusterKind>>,
    cursor: int,
    k: int,
)
    requires
        k <= members.len(),
        forall|j: int|
            cursor <= j < spec_reference_groups(reference, members, first, cursor, k).2 ==> first[j]
                == second[j],
    ensures
        spec_reference_groups(reference, members, first, cursor, k) == spec_reference_groups(
            reference,
            members,
            second,
            cursor,
            k,
        ),
        spec_reference_groups(reference, members, first, cursor, k).2 - cursor == spec_reference_calls(
            reference,
            members,
            k,
        ).len(),
    decreases k,
{
    if k > 0 {
        lemma_reference_groups_reads_only_its_results(reference, members, first, second, cursor, k - 1);
    }
}

/// A reference's clone group carries the weakest relation to its
/// reference: its kind is no stronger than any clone kind the comparisons
/// it consumed returned, and it is one of them, or `Identical` when it
/// consumed none.
pub proof fn lemma_clone_group_keeps_the_weakest_kind(
    reference: usize,
    members: Seq<usize>,
    observed: Seq<Option<ClusterKind>>,
    cursor: int,
    k: int,
)
    requires
        k <= members.len(),
    ensures
        cursor <= spec_reference_groups(reference, members, observed, cursor, k).2,
        forall|t: int| cursor <= t < spec_reference_groups(reference, members, observed, cursor, k).2
            && (#[trigger] observed[t]) is Some && spec_is_clone(observed[t].unwrap())
            ==> kind_strength(spec_reference_groups(reference, members, observed, cursor, k).0.1) <= kind_strength(observed[t].unwrap()),
        spec_reference_groups(reference, members, observed, cursor, k).0.1 == ClusterKind::Identical
            || exists|t: int| cursor <= t < spec_reference_groups(reference, members, observed, cursor, k).2
                && #[trigger] observed[t] == Some(spec_reference_groups(reference, members, observed, cursor, k).0.1)
                && spec_is_clone(spec_reference_groups(reference, members, observed, cursor, k).0.1),
    decreases k,
{
    if k > 0 {
        lemma_clone_group_keeps_the_weakest_kind(reference, members, observed, cursor, k - 1);
        let (clones, information, next) = spec_reference_groups(reference, members, observed, cursor, k - 1);
        let member = members[k - 1];
        if member != reference {
            match observed[next] {
                Some(kind) => if spec_is_clone(kind) {
                    lemma_weaker_is_a_meet(clones.1, kind, kind);
                    let weakest = spec_weaker(clones.1, kind);
                    assert forall|t: int| cursor <= t < next + 1 && (#[trigger] observed[t]) is Some
                        && spec_is_clone(observed[t].unwrap()) implies kind_strength(weakest) <= kind_strength(observed[t].unwrap()) by {
                        if t < next {
                            assert(kind_strength(clones.1) <= kind_strength(observed[t].unwrap()));
                        }
                    }
                    if weakest != clones.1 {
                        assert(weakest == kind);
                        assert(observed[next] == Some(weakest));
                    }
                },
                None => {},
            }
        }
    }
}

/// Keeping the entries that satisfy `keep` one at a time.
proof fn lemma_filter_extends<A>(s: Seq<A>, keep: spec_fn(A) -> bool, i: int)
    requires
        0 <= i < s.len(),
    ensures
        s.take(i + 1).filter(keep) == if keep(s[i]) {
            s.take(i).filter(keep).push(s[i])
        } else {
            s.take(i).filter(keep)
        },
{
    reveal(Seq::filter);
    assert(s.take(i + 1).drop_last() =~= s.take(i));
}

// ----- the walk, executed -----

/// Every member of `subset` past its reference is related to that
/// reference by some relation `container` already names.
fn covers_relations(container: &KindGroup, subset: &KindGroup) -> (covers: bool)
    ensures
        covers == spec_covers_relations(group_model(*container), group_model(*subset)),
{
    if subset.0.len() == 0 || container.0.len() == 0 {
        return false;
    }
    let reference = subset.0[0];
    let cover_reference = container.0[0];
    let ghost cover_members = container.0@.drop_first();
    let mut index: usize = 1;
    while index < subset.0.len()
        invariant
            1 <= index <= subset.0@.len(),
            subset.0@.len() > 0,
            container.0@.len() > 0,
            reference == subset.0@[0],
            cover_reference == container.0@[0],
            cover_members == container.0@.drop_first(),
            forall|i: int| 1 <= i < index ==> {
                let member = #[trigger] subset.0@[i];
                (reference == cover_reference && cover_members.contains(member)) || (member
                    == cover_reference && cover_members.contains(reference))
            },
        decreases subset.0@.len() - index,
    {
        let member = subset.0[index];
        let holds_member = contains_from(&container.0, 1, member);
        let holds_reference = contains_from(&container.0, 1, reference);
        proof {
            assert(holds_member == cover_members.contains(member)) by {
                if holds_member {
                    let j = choose|j: int| 1 <= j < container.0@.len() && container.0@[j] == member;
                    assert(cover_members[j - 1] == member);
                }
                if cover_members.contains(member) {
                    let j = choose|j: int| 0 <= j < cover_members.len() && cover_members[j] == member;
                    assert(container.0@[j + 1] == member);
                }
            }
            assert(holds_reference == cover_members.contains(reference)) by {
                if holds_reference {
                    let j = choose|j: int| 1 <= j < container.0@.len() && container.0@[j] == reference;
                    assert(cover_members[j - 1] == reference);
                }
                if cover_members.contains(reference) {
                    let j = choose|j: int| 0 <= j < cover_members.len() && cover_members[j] == reference;
                    assert(container.0@[j + 1] == reference);
                }
            }
        }
        if !((reference == cover_reference && holds_member) || (member == cover_reference && holds_reference)) {
            return false;
        }
        index = index + 1;
    }
    assert(spec_covers_relations(group_model(*container), group_model(*subset)));
    true
}

/// An informational group adds no relation absent from an informational
/// group that already contains it; when it does add one, the informational
/// groups it contains are dropped.
fn retain_new_information(entries: &mut Vec<Entry>, group: &KindGroup) -> (adds: bool)
    ensures
        adds == spec_adds_information(entries_model(old(entries)@), group_model(*group)),
        entries_model(final(entries)@) == if adds {
            spec_retained(entries_model(old(entries)@), group_model(*group))
        } else {
            entries_model(old(entries)@)
        },
{
    let ghost before = entries_model(entries@);
    let mut index: usize = 0;
    while index < entries.len()
        invariant
            index <= entries@.len(),
            before == entries_model(entries@),
            forall|i: int| 0 <= i < index ==> !(!spec_is_clone(before[i].1.1)
                && #[trigger] spec_covers_relations(before[i].1, group_model(*group))),
        decreases entries@.len() - index,
    {
        if !entries[index].1.1.is_clone() && covers_relations(&entries[index].1, group) {
            assert(!spec_is_clone(before[index as int].1.1) && spec_covers_relations(before[index as int].1, group_model(*group)));
            return false;
        }
        index = index + 1;
    }
    let ghost keep = |e: EntryModel| spec_is_clone(e.1.1) || !spec_covers_relations(group_model(*group), e.1);
    let mut kept: Vec<Entry> = Vec::new();
    let mut remaining: Vec<Entry> = Vec::new();
    std::mem::swap(&mut remaining, entries);
    let ghost all = remaining@;
    let count = remaining.len();
    assert(all.len() == count);
    let mut position: usize = 0;
    while remaining.len() > 0
        invariant
            keep == (|e: EntryModel| spec_is_clone(e.1.1) || !spec_covers_relations(group_model(*group), e.1)),
            entries_model(all) == before,
            all.len() <= usize::MAX,
            position + remaining@.len() == all.len(),
            remaining@ == all.skip(position as int),
            entries_model(kept@) == before.take(position as int).filter(keep),
        decreases remaining@.len(),
    {
        let entry = remaining.remove(0);
        proof {
            assert(all.skip(position as int).drop_first() =~= all.skip(position as int + 1));
            lemma_filter_extends(before, keep, position as int);
            assert(before[position as int] == (entry.0@, group_model(entry.1)));
        }
        let ghost kept_before = kept@;
        let clone = entry.1.1.is_clone();
        let covered = covers_relations(group, &entry.1);
        let keeps = clone || !covered;
        assert(clone == spec_is_clone(before[position as int].1.1));
        assert(covered == spec_covers_relations(group_model(*group), before[position as int].1));
        assert(keeps == keep(before[position as int]));
        if keeps {
            kept.push(entry);
            assert(entries_model(kept@) =~= entries_model(kept_before).push(before[position as int]));
        }
        position = position + 1;
    }
    assert(before.take(before.len() as int) =~= before);
    *entries = kept;
    true
}

/// Records `group` under its sorted membership unless an identical
/// membership is already recorded; an informational group first has to
/// add a relation.
fn insert_group(entries: &mut Vec<Entry>, group: KindGroup)
    ensures
        entries_model(final(entries)@) == spec_insert_group(entries_model(old(entries)@), group_model(group)),
{
    let key = sorted_copy(group.0.as_slice());
    let ghost original = entries_model(entries@);
    let ghost model = group_model(group);
    if !group.1.is_clone() {
        let adds = retain_new_information(entries, &group);
        if !adds {
            return;
        }
        assert(entries_model(entries@) == spec_retained(original, model));
    }
    let ghost current = entries_model(entries@);
    assert(spec_insert_group(original, model) == insert_entry(current, key@, model));
    let mut index: usize = 0;
    while index < entries.len()
        invariant
            index <= entries@.len(),
            current == entries_model(entries@),
            spec_insert_group(original, model) == insert_entry(current, key@, model),
            original == entries_model(old(entries)@),
            model == group_model(group),
            forall|i: int| 0 <= i < index ==> #[trigger] current[i].0 != key@,
        decreases entries@.len() - index,
    {
        if same_members(&entries[index].0, &key) {
            assert(current[index as int].0 == key@);
            assert(insert_entry(current, key@, group_model(group)) == current);
            return;
        }
        index = index + 1;
    }
    let mut position: usize = 0;
    while position < entries.len() && lex_less(&entries[position].0, &key)
        invariant
            position <= entries@.len(),
            current == entries_model(entries@),
            spec_insert_group(original, model) == insert_entry(current, key@, model),
            forall|i: int| 0 <= i < entries@.len() ==> #[trigger] current[i].0 != key@,
            key_position(current, key@, 0) == key_position(current, key@, position as int),
        decreases entries@.len() - position,
    {
        position = position + 1;
    }
    entries.insert(position, (key, group));
    assert(entries_model(entries@) =~= current.insert(position as int, (insertion_sorted(model.0), model)));
}

/// `uncovered` without the members of `covered`.
fn without(uncovered: &Vec<usize>, covered: &Vec<usize>) -> (rest: Vec<usize>)
    ensures
        rest@ == uncovered@.filter(|x: usize| !covered@.contains(x)),
{
    let ghost keep = |x: usize| !covered@.contains(x);
    let mut rest: Vec<usize> = Vec::new();
    let mut index: usize = 0;
    while index < uncovered.len()
        invariant
            index <= uncovered@.len(),
            keep == (|x: usize| !covered@.contains(x)),
            rest@ == uncovered@.take(index as int).filter(keep),
        decreases uncovered@.len() - index,
    {
        let x = uncovered[index];
        proof {
            lemma_filter_extends(uncovered@, keep, index as int);
        }
        let present = contains_from(covered, 0, x);
        proof {
            if present {
                let j = choose|j: int| 0 <= j < covered@.len() && covered@[j] == x;
                assert(covered@.contains(x));
            }
            if covered@.contains(x) {
                let j = choose|j: int| 0 <= j < covered@.len() && covered@[j] == x;
                assert(0 <= j < covered@.len() && covered@[j] == x);
            }
            assert(keep(x) == !present);
        }
        if !present {
            rest.push(x);
        }
        index = index + 1;
    }
    assert(uncovered@.take(uncovered@.len() as int) =~= uncovered@);
    rest
}

/// Separates a reference's confirmed copies from its informational
/// matches, asking `compare` once per other member in order.
fn reference_groups<F: Fn(usize, usize) -> Option<ClusterKind>>(
    reference: usize,
    members: &[usize],
    compare: &F,
    Ghost(observed): Ghost<Seq<Option<ClusterKind>>>,
) -> (result: (KindGroup, KindGroup, Ghost<Seq<Option<ClusterKind>>>))
    requires
        forall|a: usize, b: usize| compare.requires((a, b)),
    ensures
        ({
            let extended = result.2@;
            let asked = spec_reference_calls(reference, members@, members@.len() as int);
            &&& extended.len() == observed.len() + asked.len()
            &&& extended.take(observed.len() as int) == observed
            &&& forall|i: int| 0 <= i < asked.len() ==> compare.ensures(
                #[trigger] asked[i],
                extended[observed.len() + i],
            )
            &&& spec_reference_groups(reference, members@, extended, observed.len() as int, members@.len() as int)
                == (group_model(result.0), group_model(result.1), extended.len() as int)
        }),
{
    let mut clones: KindGroup = (vec![reference], ClusterKind::Identical);
    let mut information: KindGroup = (vec![reference], ClusterKind::StructuralOnly);
    let ghost mut extended = observed;
    let mut index: usize = 0;
    while index < members.len()
        invariant
            index <= members@.len(),
            forall|a: usize, b: usize| compare.requires((a, b)),
            extended.len() == observed.len() + spec_reference_calls(reference, members@, index as int).len(),
            extended.take(observed.len() as int) == observed,
            forall|i: int| 0 <= i < spec_reference_calls(reference, members@, index as int).len() ==> compare.ensures(
                #[trigger] spec_reference_calls(reference, members@, index as int)[i],
                extended[observed.len() + i],
            ),
            spec_reference_groups(reference, members@, extended, observed.len() as int, index as int)
                == (group_model(clones), group_model(information), extended.len() as int),
        decreases members@.len() - index,
    {
        let member = members[index];
        let ghost calls_before = spec_reference_calls(reference, members@, index as int);
        if member != reference {
            let verdict = compare(reference, member);
            let ghost previous = extended;
            proof {
                extended = extended.push(verdict);
                assert(extended.take(observed.len() as int) =~= observed);
                assert forall|j: int|
                    observed.len() <= j < spec_reference_groups(reference, members@, previous, observed.len() as int, index as int).2
                    implies previous[j] == extended[j] by {}
                lemma_reference_groups_reads_only_its_results(
                    reference,
                    members@,
                    previous,
                    extended,
                    observed.len() as int,
                    index as int,
                );
                let calls_after = spec_reference_calls(reference, members@, index as int + 1);
                assert(calls_after == calls_before.push((reference, member)));
                assert forall|i: int| 0 <= i < calls_after.len() implies compare.ensures(
                    #[trigger] calls_after[i],
                    extended[observed.len() + i],
                ) by {
                    if i < calls_before.len() {
                        assert(calls_after[i] == calls_before[i]);
                    }
                }
            }
            if let Some(kind) = verdict {
                if kind.is_clone() {
                    clones.0.push(member);
                    clones.1 = clones.1.weaker(kind);
                } else {
                    information.0.push(member);
                    information.1 = information.1.weaker(kind);
                }
            }
        }
        index = index + 1;
    }
    (clones, information, Ghost(extended))
}

/// Forms clone groups and informational groups without treating missing
/// edges as copies. Each uncovered member, smallest first, is a reference:
/// the members `compare` relates to it as clones form one group and those
/// it relates informationally another; a clone group covers its members.
/// Groups of one member are dropped, an identical membership is one
/// finding, and an informational group must add a relation no kept
/// informational group holds. The groups come out in ascending order of
/// their sorted memberships.
///
/// The contract speaks of the results `compare` returned, in the order
/// they were asked for: whatever they were, the groups are the ones that
/// these results determine.
pub fn group_members<F: Fn(usize, usize) -> Option<ClusterKind>>(members: &[usize], compare: F) -> (groups: Vec<KindGroup>)
    requires
        forall|a: usize, b: usize| compare.requires((a, b)),
    ensures
        exists|observed: Seq<Option<ClusterKind>>| {
            let run = #[trigger] grouping_of(members@, observed);
            &&& run.calls.len() == observed.len()
            &&& forall|i: int| 0 <= i < observed.len() ==> compare.ensures(
                #[trigger] run.calls[i],
                observed[i],
            )
            &&& groups_model(groups@) == spec_group_members(members@, observed)
        },
{
    let mut uncovered = sorted_copy(members);
    let mut entries: Vec<Entry> = Vec::new();
    let ghost mut observed: Seq<Option<ClusterKind>> = Seq::empty();
    let ghost mut calls: Seq<(usize, usize)> = Seq::empty();
    proof {
        assert(entries_model(entries@) =~= Seq::<EntryModel>::empty());
    }
    while uncovered.len() > 0
        invariant
            forall|a: usize, b: usize| compare.requires((a, b)),
            observed.len() == calls.len(),
            forall|i: int| 0 <= i < calls.len() ==> compare.ensures(#[trigger] calls[i], observed[i]),
            forall|o: Seq<Option<ClusterKind>>|
                o.len() >= observed.len() && #[trigger] o.take(observed.len() as int) == observed
                    ==> grouping_of(members@, o) == grouping_walk(
                    GroupingState { uncovered: uncovered@, entries: entries_model(entries@), calls },
                    members@,
                    o,
                ),
        decreases uncovered@.len(),
    {
        let ghost state = GroupingState { uncovered: uncovered@, entries: entries_model(entries@), calls };
        let reference = uncovered.remove(0);
        let (clones, information, Ghost(extended)) = reference_groups(reference, members, &compare, Ghost(observed));
        let ghost asked = spec_reference_calls(reference, members@, members@.len() as int);
        if clones.0.len() > 1 {
            uncovered = without(&uncovered, &clones.0);
            insert_group(&mut entries, clones);
        }
        if information.0.len() > 1 {
            insert_group(&mut entries, information);
        }
        proof {
            let next_calls = calls + asked;
            assert forall|o: Seq<Option<ClusterKind>>|
                o.len() >= extended.len() && #[trigger] o.take(extended.len() as int) == extended
                implies grouping_of(members@, o) == grouping_walk(
                    GroupingState { uncovered: uncovered@, entries: entries_model(entries@), calls: next_calls },
                    members@,
                    o,
                ) by {
                assert(o.take(observed.len() as int) =~= observed) by {
                    assert(o.take(observed.len() as int) =~= o.take(extended.len() as int).take(observed.len() as int));
                }
                assert forall|j: int|
                    observed.len() <= j < spec_reference_groups(reference, members@, extended, observed.len() as int, members@.len() as int).2
                    implies extended[j] == o[j] by {
                    assert(o.take(extended.len() as int)[j] == o[j]);
                }
                lemma_reference_groups_reads_only_its_results(
                    reference,
                    members@,
                    extended,
                    o,
                    observed.len() as int,
                    members@.len() as int,
                );
                let rest = state.uncovered.drop_first();
                rest.lemma_filter_len(|x: usize| !group_model(clones).0.contains(x));
                assert(grouping_step(state, members@, o) == GroupingState {
                    uncovered: uncovered@,
                    entries: entries_model(entries@),
                    calls: next_calls,
                });
            }
            assert forall|i: int| 0 <= i < next_calls.len() implies compare.ensures(
                #[trigger] next_calls[i],
                extended[i],
            ) by {
                if i < calls.len() {
                    assert(extended[i] == extended.take(observed.len() as int)[i]);
                } else {
                    assert(next_calls[i] == asked[i - calls.len()]);
                }
            }
            calls = next_calls;
            observed = extended;
        }
    }
    proof {
        assert(observed.take(observed.len() as int) =~= observed);
    }
    let ghost final_entries = entries_model(entries@);
    let mut groups: Vec<KindGroup> = Vec::new();
    let ghost all = entries@;
    let count = entries.len();
    assert(all.len() == count);
    let mut taken: usize = 0;
    while entries.len() > 0
        invariant
            entries_model(all) == final_entries,
            all.len() <= usize::MAX,
            taken + entries@.len() == all.len(),
            entries@ == all.skip(taken as int),
            groups@.len() == taken,
            groups_model(groups@) == entry_groups(final_entries.take(taken as int)),
        decreases entries@.len(),
    {
        let entry = entries.remove(0);
        proof {
            assert(all.skip(taken as int).drop_first() =~= all.skip(taken as int + 1));
        }
        let ghost groups_before = groups@;
        groups.push(entry.1);
        proof {
            assert(final_entries[taken as int] == (entry.0@, group_model(entry.1)));
            assert forall|i: int| 0 <= i < taken as int + 1 implies groups_model(groups@)[i]
                == entry_groups(final_entries.take(taken as int + 1))[i] by {
                if i < taken {
                    assert(groups@[i] == groups_before[i]);
                    assert(groups_model(groups_before)[i] == entry_groups(final_entries.take(taken as int))[i]);
                }
            }
            assert(groups_model(groups@) =~= entry_groups(final_entries.take(taken as int + 1)));
        }
        taken = taken + 1;
    }
    proof {
        assert(final_entries.take(final_entries.len() as int) =~= final_entries);
    }
    groups
}

} // verus!
