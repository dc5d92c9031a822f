//! Deterministic survivor selection between two views of one region.

use vstd::prelude::*;
use vstd::string::*;

use std::cmp::Ordering;

use crate::ast::{fingerprints_view, Fingerprint, FingerprintView};
use crate::buckets::spec_is_clone;
use crate::cluster::{Cluster, ClusterView};
use super::{
    covers_every_file, occurrence_contains, occurrences_describe_one_location, spec_covers_every_file,
    spec_describe_one_location, spec_names_file, spec_occurrence_contains, spec_strictly_encloses, strictly_encloses, Nesting,
};

verus! {

/// Which physical cluster view survives a subsumption comparison.
#[derive(Clone, Copy, Debug, PartialEq, Eq, Structural)]
pub enum Preference {
    /// The first view survives.
    First,
    /// The second view survives.
    Second,
    /// Neither view covers the other's files, so both survive.
    Neither,
}

/// The same verdict seen from the other view's side.
pub open spec fn spec_flipped(preference: Preference) -> Preference {
    match preference {
        Preference::First => Preference::Second,
        Preference::Second => Preference::First,
        Preference::Neither => Preference::Neither,
    }
}

impl Preference {
    /// The same verdict seen from the other view's side.
    pub fn flipped(self) -> (flipped: Preference)
        ensures
            flipped == spec_flipped(self),
    {
        match self {
            Preference::First => Preference::Second,
            Preference::Second => Preference::First,
            Preference::Neither => Preference::Neither,
        }
    }
}

// ----- one-to-one pairing -----

/// Member order for pairing: file, then start.
pub open spec fn member_key_lt(a: FingerprintView, b: FingerprintView) -> bool {
    a.file_id.0 < b.file_id.0 || (a.file_id.0 == b.file_id.0 && a.byte_range.start < b.byte_range.start)
}

/// Where a stable insertion sort places `x`.
pub open spec fn member_insertion_point(sorted: Seq<FingerprintView>, x: FingerprintView, from: int) -> int
    decreases sorted.len() - from,
{
    if from < 0 || from >= sorted.len() {
        sorted.len() as int
    } else if member_key_lt(x, sorted[from]) {
        from
    } else {
        member_insertion_point(sorted, x, from + 1)
    }
}

/// Members stably sorted by file and start.
pub open spec fn members_sorted(members: Seq<FingerprintView>) -> Seq<FingerprintView>
    decreases members.len(),
{
    if members.len() == 0 {
        members
    } else {
        let rest = members_sorted(members.drop_last());
        rest.insert(member_insertion_point(rest, members.last(), 0), members.last())
    }
}

/// One distinct copy pairs with one distinct copy by containment, in file
/// and start order (ties keep member order).
pub open spec fn spec_pair_one_to_one(first: Seq<FingerprintView>, second: Seq<FingerprintView>) -> bool {
    &&& first.len() > 0
    &&& first.len() == second.len()
    &&& forall|k: int| 0 <= k < first.len() ==>
        spec_describe_one_location(#[trigger] members_sorted(first)[k], members_sorted(second)[k])
}

/// A copy of `members` sorted by file and start, stably.
fn sorted_members(members: &[Fingerprint]) -> (sorted: Vec<Fingerprint>)
    ensures
        fingerprints_view(sorted@) == members_sorted(fingerprints_view(members@)),
{
    let ghost all = fingerprints_view(members@);
    let mut sorted: Vec<Fingerprint> = Vec::new();
    let mut index: usize = 0;
    while index < members.len()
        invariant
            index <= members@.len(),
            all == fingerprints_view(members@),
            fingerprints_view(sorted@) == members_sorted(all.take(index as int)),
        decreases members@.len() - index,
    {
        let x = members[index];
        let ghost view = fingerprints_view(sorted@);
        let mut position: usize = 0;
        while position < sorted.len()
            && !(x.file_id.0 < sorted[position].file_id.0
                || (x.file_id.0 == sorted[position].file_id.0 && x.byte_range.start < sorted[position].byte_range.start))
            invariant
                position <= sorted@.len(),
                view == fingerprints_view(sorted@),
                member_insertion_point(view, x@, 0) == member_insertion_point(view, x@, position as int),
            decreases sorted@.len() - position,
        {
            assert(view[position as int] == sorted@[position as int]@);
            position = position + 1;
        }
        proof {
            if position < sorted@.len() {
                assert(view[position as int] == sorted@[position as int]@);
            }
        }
        assert(all.take(index as int + 1).drop_last() =~= all.take(index as int));
        assert(all.take(index as int + 1).last() == x@);
        sorted.insert(position, x);
        assert(fingerprints_view(sorted@) =~= view.insert(position as int, x@));
        index = index + 1;
    }
    assert(all.take(members@.len() as int) =~= all);
    sorted
}

/// One distinct copy pairs with one distinct copy by containment. Election
/// has removed overlapping members within each file, so containment pairs
/// preserve file-and-start order.
pub fn pair_one_to_one(first: &[Fingerprint], second: &[Fingerprint]) -> (paired: bool)
    ensures
        paired == spec_pair_one_to_one(fingerprints_view(first@), fingerprints_view(second@)),
{
    let ghost fv = fingerprints_view(first@);
    let ghost sv = fingerprints_view(second@);
    assert(fv.len() == first@.len() && sv.len() == second@.len());
    if first.len() == 0 || first.len() != second.len() {
        return false;
    }
    let left = sorted_members(first);
    let right = sorted_members(second);
    let ghost lv = fingerprints_view(left@);
    let ghost rv = fingerprints_view(right@);
    proof {
        lemma_sorted_len(fv);
        lemma_sorted_len(sv);
    }
    assert(lv.len() == left@.len() && rv.len() == right@.len());
    let mut k: usize = 0;
    while k < left.len()
        invariant
            k <= left@.len(),
            left@.len() == right@.len(),
            left@.len() == fv.len(),
            fv.len() > 0,
            fv.len() == sv.len(),
            fv == fingerprints_view(first@),
            sv == fingerprints_view(second@),
            lv == fingerprints_view(left@),
            rv == fingerprints_view(right@),
            lv == members_sorted(fv),
            rv == members_sorted(sv),
            forall|j: int| 0 <= j < k ==> spec_describe_one_location(#[trigger] members_sorted(fv)[j], members_sorted(sv)[j]),
        decreases left@.len() - k,
    {
        assert(lv[k as int] == left@[k as int]@ && rv[k as int] == right@[k as int]@);
        if !occurrences_describe_one_location(&left[k], &right[k]) {
            assert(!spec_describe_one_location(members_sorted(fv)[k as int], members_sorted(sv)[k as int]));
            return false;
        }
        k = k + 1;
    }
    true
}

proof fn lemma_sorted_len(members: Seq<FingerprintView>)
    ensures
        members_sorted(members).len() == members.len(),
    decreases members.len(),
{
    if members.len() > 0 {
        lemma_sorted_len(members.drop_last());
        lemma_insertion_point_bounded(members_sorted(members.drop_last()), members.last(), 0);
    }
}

proof fn lemma_insertion_point_bounded(sorted: Seq<FingerprintView>, x: FingerprintView, from: int)
    requires
        0 <= from,
    ensures
        0 <= member_insertion_point(sorted, x, from) <= sorted.len(),
    decreases sorted.len() - from,
{
    if from < sorted.len() && !member_key_lt(x, sorted[from]) {
        lemma_insertion_point_bounded(sorted, x, from + 1);
    }
}

// ----- even holding -----

/// How many of the first `k` members lie inside `copy`.
pub open spec fn spec_held_by(copy: FingerprintView, members: Seq<FingerprintView>, k: int) -> nat
    decreases k,
{
    if k <= 0 {
        0
    } else {
        spec_held_by(copy, members, k - 1) + if spec_occurrence_contains(copy, members[k - 1]) { 1nat } else { 0nat }
    }
}

/// How many of the first `k` copies hold `member`.
pub open spec fn spec_holders_of(member: FingerprintView, copies: Seq<FingerprintView>, k: int) -> nat
    decreases k,
{
    if k <= 0 {
        0
    } else {
        spec_holders_of(member, copies, k - 1) + if spec_occurrence_contains(copies[k - 1], member) { 1nat } else { 0nat }
    }
}

/// Every outer copy holds the same positive number of inner copies, and
/// each inner copy lies in exactly one outer copy.
pub open spec fn spec_holds_evenly(outer: Seq<FingerprintView>, inner: Seq<FingerprintView>) -> bool {
    &&& outer.len() > 0
    &&& spec_held_by(outer[0], inner, inner.len() as int) > 0
    &&& forall|i: int| 0 <= i < outer.len() ==>
        spec_held_by(#[trigger] outer[i], inner, inner.len() as int) == spec_held_by(outer[0], inner, inner.len() as int)
    &&& forall|m: int| 0 <= m < inner.len() ==> spec_holders_of(#[trigger] inner[m], outer, outer.len() as int) == 1
}

/// How many of `members` lie inside `copy`.
pub fn held_by(copy: &Fingerprint, members: &[Fingerprint]) -> (count: usize)
    ensures
        count == spec_held_by(copy@, fingerprints_view(members@), members@.len() as int),
{
    let ghost mv = fingerprints_view(members@);
    let mut count: usize = 0;
    let mut k: usize = 0;
    while k < members.len()
        invariant
            k <= members@.len(),
            mv == fingerprints_view(members@),
            count <= k,
            count == spec_held_by(copy@, mv, k as int),
        decreases members@.len() - k,
    {
        assert(mv[k as int] == members@[k as int]@);
        if occurrence_contains(copy, &members[k]) {
            count = count + 1;
        }
        k = k + 1;
    }
    count
}

/// How many of `copies` hold `member`.
pub fn holders_of(member: &Fingerprint, copies: &[Fingerprint]) -> (count: usize)
    ensures
        count == spec_holders_of(member@, fingerprints_view(copies@), copies@.len() as int),
{
    let ghost cv = fingerprints_view(copies@);
    let mut count: usize = 0;
    let mut k: usize = 0;
    while k < copies.len()
        invariant
            k <= copies@.len(),
            cv == fingerprints_view(copies@),
            count <= k,
            count == spec_holders_of(member@, cv, k as int),
        decreases copies@.len() - k,
    {
        assert(cv[k as int] == copies@[k as int]@);
        if occurrence_contains(&copies[k], member) {
            count = count + 1;
        }
        k = k + 1;
    }
    count
}

/// Every outer copy holds the same number of inner copies, and each inner
/// copy lies in exactly one outer copy. A window that holds two copies
/// where another holds one cannot stand in for them.
pub fn holds_evenly(outer: &[Fingerprint], inner: &[Fingerprint]) -> (even: bool)
    ensures
        even == spec_holds_evenly(fingerprints_view(outer@), fingerprints_view(inner@)),
{
    let ghost ov = fingerprints_view(outer@);
    let ghost iv = fingerprints_view(inner@);
    assert(ov.len() == outer@.len() && iv.len() == inner@.len());
    if outer.len() == 0 {
        return false;
    }
    assert(ov[0] == outer@[0]@);
    let first = held_by(&outer[0], inner);
    if first == 0 {
        return false;
    }
    let mut i: usize = 1;
    while i < outer.len()
        invariant
            1 <= i <= outer@.len(),
            ov == fingerprints_view(outer@),
            iv == fingerprints_view(inner@),
            ov.len() == outer@.len(),
            iv.len() == inner@.len(),
            first == spec_held_by(ov[0], iv, iv.len() as int),
            forall|j: int| 0 <= j < i ==> spec_held_by(#[trigger] ov[j], iv, iv.len() as int) == first,
        decreases outer@.len() - i,
    {
        assert(ov[i as int] == outer@[i as int]@);
        if held_by(&outer[i], inner) != first {
            return false;
        }
        i = i + 1;
    }
    let mut m: usize = 0;
    while m < inner.len()
        invariant
            m <= inner@.len(),
            ov == fingerprints_view(outer@),
            iv == fingerprints_view(inner@),
            ov.len() == outer@.len(),
            iv.len() == inner@.len(),
            forall|j: int| 0 <= j < m ==> spec_holders_of(#[trigger] iv[j], ov, ov.len() as int) == 1,
        decreases inner@.len() - m,
    {
        assert(iv[m as int] == inner@[m as int]@);
        if holders_of(&inner[m], outer) != 1 {
            return false;
        }
        m = m + 1;
    }
    true
}

/// A shape-only view reports no duplication, so a wider view that holds
/// all of it, with some of it in each of its own copies, re-describes it.
pub open spec fn spec_holds_shape_only(outer: ClusterView, inner: ClusterView) -> bool {
    &&& !spec_is_clone(inner.kind)
    &&& spec_strictly_encloses(outer.members, inner.members)
    &&& forall|c: int| 0 <= c < outer.members.len() ==> spec_holds_some(#[trigger] outer.members[c], inner.members)
}

/// Some member of `inner` lies inside `copy`.
pub open spec fn spec_holds_some(copy: FingerprintView, inner: Seq<FingerprintView>) -> bool {
    exists|m: int| 0 <= m < inner.len() && spec_occurrence_contains(copy, #[trigger] inner[m])
}

/// Whether some member of `inner` lies inside `copy`.
fn holds_some(copy: &Fingerprint, inner: &[Fingerprint]) -> (found: bool)
    ensures
        found == spec_holds_some(copy@, fingerprints_view(inner@)),
{
    let mut m: usize = 0;
    while m < inner.len()
        invariant
            m <= inner@.len(),
            forall|j: int| 0 <= j < m ==> !spec_occurrence_contains(copy@, #[trigger] fingerprints_view(inner@)[j]),
        decreases inner@.len() - m,
    {
        if occurrence_contains(copy, &inner[m]) {
            assert(spec_occurrence_contains(copy@, fingerprints_view(inner@)[m as int]));
            return true;
        }
        m = m + 1;
    }
    false
}

/// A shape-only view held whole by a wider view, some of it in each copy.
pub fn holds_shape_only(outer: &Cluster, inner: &Cluster) -> (holds: bool)
    ensures
        holds == spec_holds_shape_only(outer@, inner@),
{
    let ghost ov = fingerprints_view(outer.members@);
    let ghost iv = fingerprints_view(inner.members@);
    assert(ov.len() == outer.members@.len());
    if inner.kind.is_clone() || !strictly_encloses(outer.members.as_slice(), inner.members.as_slice()) {
        return false;
    }
    let mut c: usize = 0;
    while c < outer.members.len()
        invariant
            c <= outer.members@.len(),
            ov == fingerprints_view(outer.members@),
            iv == fingerprints_view(inner.members@),
            ov.len() == outer.members@.len(),
            forall|d: int| 0 <= d < c ==> spec_holds_some(#[trigger] ov[d], iv),
        decreases outer.members@.len() - c,
    {
        assert(ov[c as int] == outer.members@[c as int]@);
        if !holds_some(&outer.members[c], inner.members.as_slice()) {
            return false;
        }
        c = c + 1;
    }
    true
}

/// Two views are one duplication when their copies pair one to one, or
/// when one reads the other at a coarser grain.
pub open spec fn spec_covers_same_region(first: ClusterView, second: ClusterView) -> bool {
    spec_pair_one_to_one(first.members, second.members)
        || spec_holds_evenly(first.members, second.members)
        || spec_holds_evenly(second.members, first.members)
        || spec_holds_shape_only(first, second)
        || spec_holds_shape_only(second, first)
}

/// Two views are one duplication.
pub fn covers_same_region(first: &Cluster, second: &Cluster) -> (same: bool)
    ensures
        same == spec_covers_same_region(first@, second@),
{
    pair_one_to_one(first.members.as_slice(), second.members.as_slice())
        || holds_evenly(first.members.as_slice(), second.members.as_slice())
        || holds_evenly(second.members.as_slice(), first.members.as_slice())
        || holds_shape_only(first, second)
        || holds_shape_only(second, first)
}

// ----- the survivor order -----

/// Lexicographic order of character strings: -1, 0 or 1.
pub open spec fn spec_chars_order(a: Seq<char>, b: Seq<char>) -> int
    decreases a.len(),
{
    if a.len() == 0 && b.len() == 0 {
        0
    } else if a.len() == 0 {
        -1
    } else if b.len() == 0 {
        1
    } else if (a[0] as u32) < (b[0] as u32) {
        -1
    } else if (a[0] as u32) > (b[0] as u32) {
        1
    } else {
        spec_chars_order(a.drop_first(), b.drop_first())
    }
}

/// The survivor order's final tie-break, occurrence coverage, then
/// duplicated mass, then stable id (the smaller id leads): 1 when `first`
/// leads, -1 when `second` does, 0 on a tie.
pub open spec fn spec_outranks(first: ClusterView, second: ClusterView) -> int {
    if first.members.len() < second.members.len() {
        -1
    } else if first.members.len() > second.members.len() {
        1
    } else if first.mass < second.mass {
        -1
    } else if first.mass > second.mass {
        1
    } else {
        spec_chars_order(second.id, first.id)
    }
}

/// Lexicographic order of two ids: -1, 0 or 1.
pub fn chars_order(a: &String, b: &String) -> (order: i8)
    ensures
        order == spec_chars_order(a@, b@),
        order == -1 || order == 0 || order == 1,
{
    id_order(a, b)
}

/// Lexicographic order of two ids: -1, 0 or 1.
fn id_order(a: &String, b: &String) -> (order: i8)
    ensures
        order == spec_chars_order(a@, b@),
        order == -1 || order == 0 || order == 1,
{
    let a_text = a.as_str();
    let b_text = b.as_str();
    let a_len = a_text.unicode_len();
    let b_len = b_text.unicode_len();
    let mut index: usize = 0;
    assert(a@.skip(0) =~= a@);
    assert(b@.skip(0) =~= b@);
    while index < a_len && index < b_len
        invariant
            a_len == a@.len(),
            b_len == b@.len(),
            a_text@ == a@,
            b_text@ == b@,
            index <= a_len,
            index <= b_len,
            spec_chars_order(a@, b@) == spec_chars_order(a@.skip(index as int), b@.skip(index as int)),
        decreases a_len - index,
    {
        let left = a_text.get_char(index);
        let right = b_text.get_char(index);
        if (left as u32) < (right as u32) {
            return -1;
        }
        if (left as u32) > (right as u32) {
            return 1;
        }
        assert(a@.skip(index as int).drop_first() =~= a@.skip(index as int + 1));
        assert(b@.skip(index as int).drop_first() =~= b@.skip(index as int + 1));
        index = index + 1;
    }
    if index < a_len {
        1
    } else if index < b_len {
        -1
    } else {
        0
    }
}

/// The survivor order's final tie-break as a total order: `Greater` when
/// `first` leads. Total, so it can decide a cycle.
pub fn outranks(first: &Cluster, second: &Cluster) -> (order: Ordering)
    ensures
        match order {
            Ordering::Less => spec_outranks(first@, second@) == -1,
            Ordering::Equal => spec_outranks(first@, second@) == 0,
            Ordering::Greater => spec_outranks(first@, second@) == 1,
        },
{
    assert(first@.members.len() == first.members@.len() && second@.members.len() == second.members@.len());
    if first.members.len() < second.members.len() {
        return Ordering::Less;
    }
    if first.members.len() > second.members.len() {
        return Ordering::Greater;
    }
    if first.mass < second.mass {
        return Ordering::Less;
    }
    if first.mass > second.mass {
        return Ordering::Greater;
    }
    let by_id = id_order(&second.id, &first.id);
    if by_id < 0 {
        Ordering::Less
    } else if by_id > 0 {
        Ordering::Greater
    } else {
        Ordering::Equal
    }
}

/// Whether `first` strictly leads `second` on occurrence coverage, mass and id.
pub fn leads(first: &Cluster, second: &Cluster) -> (leads: bool)
    ensures
        leads == (spec_outranks(first@, second@) == 1),
{
    match outranks(first, second) {
        Ordering::Greater => true,
        Ordering::Less => false,
        Ordering::Equal => false,
    }
}

/// Preserves every file before considering geometry or mass.
pub open spec fn spec_file_coverage(first: ClusterView, second: ClusterView) -> Option<Preference> {
    let mine = spec_covers_every_file(first.members, second.members);
    let theirs = spec_covers_every_file(second.members, first.members);
    if !mine && !theirs {
        Some(Preference::Neither)
    } else if !mine && theirs {
        Some(Preference::Second)
    } else if mine && !theirs {
        Some(Preference::First)
    } else {
        None
    }
}

/// The exact survivor order: file coverage, then enclosure, then
/// occurrence coverage, mass and id.
pub open spec fn spec_preferred_view(first: ClusterView, second: ClusterView, nesting: Nesting) -> Preference {
    match spec_file_coverage(first, second) {
        Some(preference) => preference,
        None => if nesting == Nesting::ProposedEncloses {
            Preference::First
        } else if spec_outranks(first, second) == -1 {
            Preference::Second
        } else {
            Preference::First
        },
    }
}

/// Which of two views survives when they describe the same duplication,
/// or `Neither` when they do not. Enclosure is nominated in both
/// directions.
#[verifier::opaque]
pub open spec fn spec_same_region_survivor(first: ClusterView, second: ClusterView) -> Preference {
    if !spec_covers_same_region(first, second) {
        Preference::Neither
    } else if spec_strictly_encloses(second.members, first.members) {
        spec_flipped(spec_preferred_view(second, first, Nesting::ProposedEncloses))
    } else if spec_strictly_encloses(first.members, second.members) {
        spec_preferred_view(first, second, Nesting::ProposedEncloses)
    } else {
        spec_preferred_view(first, second, Nesting::Neither)
    }
}

/// Preserves every file before considering geometry or mass.
pub fn file_coverage(first: &Cluster, second: &Cluster) -> (preference: Option<Preference>)
    ensures
        preference == spec_file_coverage(first@, second@),
{
    let mine = covers_every_file(first.members.as_slice(), second.members.as_slice());
    let theirs = covers_every_file(second.members.as_slice(), first.members.as_slice());
    if !mine && !theirs {
        Some(Preference::Neither)
    } else if !mine && theirs {
        Some(Preference::Second)
    } else if mine && !theirs {
        Some(Preference::First)
    } else {
        None
    }
}

/// Uses occurrence coverage, duplicated mass, then stable id.
pub fn compare_coverage_mass_and_id(first: &Cluster, second: &Cluster) -> (preference: Preference)
    ensures
        preference == (if spec_outranks(first@, second@) == -1 { Preference::Second } else { Preference::First }),
{
    match outranks(first, second) {
        Ordering::Less => Preference::Second,
        Ordering::Equal => Preference::First,
        Ordering::Greater => Preference::First,
    }
}

/// Applies the exact survivor order.
pub fn preferred_view(first: &Cluster, second: &Cluster, nesting: Nesting) -> (preference: Preference)
    ensures
        preference == spec_preferred_view(first@, second@, nesting),
{
    match file_coverage(first, second) {
        Some(preference) => preference,
        None => if nesting == Nesting::ProposedEncloses {
            Preference::First
        } else {
            compare_coverage_mass_and_id(first, second)
        },
    }
}

/// Which of two views survives when they describe the same duplication.
pub fn same_region_survivor(first: &Cluster, second: &Cluster) -> (preference: Preference)
    ensures
        preference == spec_same_region_survivor(first@, second@),
{
    reveal(spec_same_region_survivor);
    if !covers_same_region(first, second) {
        return Preference::Neither;
    }
    if strictly_encloses(second.members.as_slice(), first.members.as_slice()) {
        return preferred_view(second, first, Nesting::ProposedEncloses).flipped();
    }
    let nesting = if strictly_encloses(first.members.as_slice(), second.members.as_slice()) {
        Nesting::ProposedEncloses
    } else {
        Nesting::Neither
    };
    preferred_view(first, second, nesting)
}

/// The string order is antisymmetric and ties only equal strings.
pub proof fn lemma_chars_order_antisymmetric(a: Seq<char>, b: Seq<char>)
    ensures
        spec_chars_order(a, b) == -spec_chars_order(b, a),
        (spec_chars_order(a, b) == 0) == (a == b),
        -1 <= spec_chars_order(a, b) <= 1,
    decreases a.len(),
{
    if a.len() > 0 && b.len() > 0 && !((a[0] as u32) < (b[0] as u32)) && !((a[0] as u32) > (b[0] as u32)) {
        lemma_chars_order_antisymmetric(a.drop_first(), b.drop_first());
        let x = a[0];
        let y = b[0];
        assert(x == y) by {
            vstd::utf8::char_u32_cast(x, x as u32);
            vstd::utf8::char_u32_cast(y, y as u32);
        }
        if a.drop_first() == b.drop_first() {
            assert(a =~= seq![a[0]] + a.drop_first());
            assert(b =~= seq![b[0]] + b.drop_first());
        }
        if a == b {
            assert(a.drop_first() =~= b.drop_first());
        }
    } else if a.len() == 0 && b.len() == 0 {
        assert(a =~= b);
    }
}

/// Two views cannot each strictly enclose the other: an occurrence of the
/// first that no occurrence of the second holds is still held by one.
pub proof fn lemma_enclosure_is_one_way(first: Seq<FingerprintView>, second: Seq<FingerprintView>)
    ensures
        !(spec_strictly_encloses(first, second) && spec_strictly_encloses(second, first)),
{
    if spec_strictly_encloses(first, second) && spec_strictly_encloses(second, first) {
        let o = choose|o: int| 0 <= o < first.len() && !super::spec_some_inside(second, #[trigger] first[o]);
        assert(super::spec_some_contains(second, first[o]));
        let p = choose|p: int| 0 <= p < second.len() && spec_occurrence_contains(#[trigger] second[p], first[o]);
        assert(super::spec_some_inside(second, first[o]));
    }
}

/// Sorting keeps a view's copies: the same number, the same copies.
proof fn lemma_sorted_keeps_members(members: Seq<FingerprintView>)
    ensures
        members_sorted(members).len() == members.len(),
        forall|x: FingerprintView| #[trigger] members_sorted(members).contains(x) <==> members.contains(x),
    decreases members.len(),
{
    lemma_sorted_len(members);
    if members.len() > 0 {
        let before = members.drop_last();
        let rest = members_sorted(before);
        let last = members.last();
        lemma_sorted_keeps_members(before);
        lemma_insertion_point_bounded(rest, last, 0);
        let p = member_insertion_point(rest, last, 0);
        rest.insert_ensures(p, last);
        let ins = rest.insert(p, last);
        assert(members_sorted(members) == ins);
        assert forall|x: FingerprintView| #[trigger] members_sorted(members).contains(x) <==> members.contains(x) by {
            if ins.contains(x) {
                let j = choose|j: int| 0 <= j < ins.len() && ins[j] == x;
                if j == p {
                    assert(members[members.len() - 1] == x);
                } else {
                    let i = if j < p { j } else { j - 1 };
                    assert(rest[i] == x);
                    assert(rest.contains(x));
                    assert(before.contains(x));
                    let b = choose|b: int| 0 <= b < before.len() && before[b] == x;
                    assert(members[b] == x);
                }
            }
            if members.contains(x) {
                let i = choose|i: int| 0 <= i < members.len() && members[i] == x;
                if i == members.len() - 1 {
                    assert(ins[p] == x);
                } else {
                    assert(before[i] == x);
                    assert(before.contains(x));
                    assert(rest.contains(x));
                    let j = choose|j: int| 0 <= j < rest.len() && rest[j] == x;
                    if j < p {
                        assert(ins[j] == x);
                    } else {
                        assert(ins[j + 1] == x);
                    }
                }
            }
        }
    }
}

/// A copy with a holder has one among the copies counted.
proof fn lemma_holder_exists(member: FingerprintView, copies: Seq<FingerprintView>, k: int)
    requires
        spec_holders_of(member, copies, k) > 0,
    ensures
        exists|p: int| 0 <= p < k && p < copies.len() + k && spec_occurrence_contains(#[trigger] copies[p], member),
    decreases k,
{
    if k > 0 && !spec_occurrence_contains(copies[k - 1], member) {
        lemma_holder_exists(member, copies, k - 1);
    }
}

/// Copies each held by one of `outer`'s copies lie in files `outer` names.
proof fn lemma_held_copies_name_their_files(outer: Seq<FingerprintView>, inner: Seq<FingerprintView>)
    requires
        spec_holds_evenly(outer, inner),
    ensures
        spec_covers_every_file(outer, inner),
{
    assert forall|m: int| 0 <= m < inner.len() implies spec_names_file(outer, #[trigger] inner[m]) by {
        assert(spec_holders_of(inner[m], outer, outer.len() as int) == 1);
        lemma_holder_exists(inner[m], outer, outer.len() as int);
        let p = choose|p: int| 0 <= p < outer.len() && p < outer.len() + outer.len() && spec_occurrence_contains(#[trigger] outer[p], inner[m]);
        assert(outer[p].file_id == inner[m].file_id);
    }
}

/// A wider view holding some of a shape-only view in each of its copies
/// lies in files the shape-only view names.
proof fn lemma_holding_copies_name_their_files(outer: ClusterView, inner: ClusterView)
    requires
        spec_holds_shape_only(outer, inner),
    ensures
        spec_covers_every_file(inner.members, outer.members),
{
    assert forall|c: int| 0 <= c < outer.members.len() implies spec_names_file(inner.members, #[trigger] outer.members[c]) by {
        assert(spec_holds_some(outer.members[c], inner.members));
        let m = choose|m: int| 0 <= m < inner.members.len() && spec_occurrence_contains(outer.members[c], #[trigger] inner.members[m]);
        assert(inner.members[m].file_id == outer.members[c].file_id);
    }
}

/// Copies paired one to one lie in the same files.
proof fn lemma_paired_copies_name_their_files(first: Seq<FingerprintView>, second: Seq<FingerprintView>)
    requires
        spec_pair_one_to_one(first, second),
    ensures
        spec_covers_every_file(first, second),
{
    lemma_sorted_keeps_members(first);
    lemma_sorted_keeps_members(second);
    assert forall|r: int| 0 <= r < second.len() implies spec_names_file(first, #[trigger] second[r]) by {
        let x = second[r];
        assert(second.contains(x));
        assert(members_sorted(second).contains(x));
        let k = choose|k: int| 0 <= k < members_sorted(second).len() && members_sorted(second)[k] == x;
        assert(spec_describe_one_location(members_sorted(first)[k], members_sorted(second)[k]));
        let y = members_sorted(first)[k];
        assert(members_sorted(first).contains(y));
        assert(first.contains(y));
        let q = choose|q: int| 0 <= q < first.len() && first[q] == y;
        assert(first[q].file_id == x.file_id);
    }
}

/// Two views covering one region: one of them names every file of the
/// other.
proof fn lemma_one_region_shares_files(first: ClusterView, second: ClusterView)
    requires
        spec_covers_same_region(first, second),
    ensures
        spec_covers_every_file(first.members, second.members) || spec_covers_every_file(second.members, first.members),
{
    if spec_pair_one_to_one(first.members, second.members) {
        lemma_paired_copies_name_their_files(first.members, second.members);
    } else if spec_holds_evenly(first.members, second.members) {
        lemma_held_copies_name_their_files(first.members, second.members);
    } else if spec_holds_evenly(second.members, first.members) {
        lemma_held_copies_name_their_files(second.members, first.members);
    } else if spec_holds_shape_only(first, second) {
        lemma_holding_copies_name_their_files(first, second);
    } else {
        lemma_holding_copies_name_their_files(second, first);
    }
}

/// Views covering one region always leave one survivor.
proof fn lemma_covering_views_have_a_survivor(first: ClusterView, second: ClusterView)
    ensures
        spec_same_region_survivor(first, second) == Preference::Neither <==> !spec_covers_same_region(first, second),
{
    reveal(spec_same_region_survivor);
    if spec_covers_same_region(first, second) {
        lemma_one_region_shares_files(first, second);
        assert(spec_file_coverage(first, second) != Some(Preference::Neither));
        assert(spec_file_coverage(second, first) != Some(Preference::Neither));
        assert(spec_preferred_view(first, second, Nesting::ProposedEncloses) != Preference::Neither);
        assert(spec_preferred_view(first, second, Nesting::Neither) != Preference::Neither);
        assert(spec_preferred_view(second, first, Nesting::ProposedEncloses) != Preference::Neither);
    }
}

/// Which of two views survives does not depend on the order they are
/// asked in: swapping the views flips the verdict, since neither argument
/// position is a nesting role. Neither survives over the other exactly
/// when the views do not cover one region.
pub proof fn lemma_survivor_is_antisymmetric(first: ClusterView, second: ClusterView)
    requires
        first.id != second.id,
    ensures
        spec_same_region_survivor(first, second) == spec_flipped(spec_same_region_survivor(second, first)),
        spec_same_region_survivor(first, second) == Preference::Neither <==> !spec_covers_same_region(first, second),
{
    lemma_covering_views_have_a_survivor(first, second);
    reveal(spec_same_region_survivor);
    lemma_chars_order_antisymmetric(first.id, second.id);
    lemma_chars_order_antisymmetric(second.id, first.id);
    lemma_enclosure_is_one_way(first.members, second.members);
    assert(spec_outranks(second, first) == -spec_outranks(first, second));
    assert(spec_outranks(first, second) != 0);
    let mine = spec_covers_every_file(first.members, second.members);
    let theirs = spec_covers_every_file(second.members, first.members);
    assert(spec_preferred_view(first, second, Nesting::ProposedEncloses)
        == spec_flipped(spec_flipped(spec_preferred_view(first, second, Nesting::ProposedEncloses))));
    assert(spec_preferred_view(first, second, Nesting::Neither)
        == spec_flipped(spec_preferred_view(second, first, Nesting::Neither))) by {
        if mine && theirs {
            assert(spec_file_coverage(first, second) is None);
            assert(spec_file_coverage(second, first) is None);
            if spec_outranks(first, second) == -1 {
                assert(spec_outranks(second, first) == 1);
            } else {
                assert(spec_outranks(first, second) == 1);
                assert(spec_outranks(second, first) == -1);
            }
        }
    }
    assert(spec_covers_same_region(first, second) == spec_covers_same_region(second, first)) by {
        if spec_pair_one_to_one(first.members, second.members) {
            assert forall|k: int| 0 <= k < second.members.len() implies
                spec_describe_one_location(#[trigger] members_sorted(second.members)[k], members_sorted(first.members)[k]) by {
                assert(spec_describe_one_location(members_sorted(first.members)[k], members_sorted(second.members)[k]));
            }
        }
        if spec_pair_one_to_one(second.members, first.members) {
            assert forall|k: int| 0 <= k < first.members.len() implies
                spec_describe_one_location(#[trigger] members_sorted(first.members)[k], members_sorted(second.members)[k]) by {
                assert(spec_describe_one_location(members_sorted(second.members)[k], members_sorted(first.members)[k]));
            }
        }
    }
}

} // verus!
