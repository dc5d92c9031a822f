//! Cross-cluster subsumption.
//!
//! Nested subtrees over the same physical code form separate clusters
//! covering the same bytes at different depths; only one may reach the
//! report. Two views are one duplication when every occurrence of each is
//! paired by containment with an occurrence of the other in the same file
//! (or one reads the other evenly at a coarser grain). Which view survives
//! is decided by file coverage, physical enclosure, occurrence coverage,
//! duplicated mass and finally the stable id. A view that names a file the
//! survivor does not name is never dropped. Only views over exactly the
//! same files can re-describe or straddle one another, so each file set is
//! resolved on its own.

use vstd::prelude::*;

use crate::ast::{copy_fingerprints, fingerprints_view, Fingerprint, FingerprintView};
use crate::cluster::{Cluster, ClusterView};

pub mod survivor;
pub mod kernel;

use kernel::{region_views, resolve, spec_resolve, Region};

verus! {

/// Two occurrences in one file share at least one byte.
pub open spec fn spec_occurrences_overlap(left: FingerprintView, right: FingerprintView) -> bool {
    left.file_id == right.file_id && left.byte_range.start < right.byte_range.end
        && right.byte_range.start < left.byte_range.end
}

/// One occurrence wholly contains another in the same file.
pub open spec fn spec_occurrence_contains(outer: FingerprintView, inner: FingerprintView) -> bool {
    outer.file_id == inner.file_id && outer.byte_range.start <= inner.byte_range.start
        && inner.byte_range.end <= outer.byte_range.end
}

/// Two occurrences describe one location: one contains the other.
pub open spec fn spec_describe_one_location(left: FingerprintView, right: FingerprintView) -> bool {
    spec_occurrence_contains(left, right) || spec_occurrence_contains(right, left)
}

/// Some occurrence of `cover` shares a byte with `candidate`.
pub open spec fn spec_some_overlaps(cover: Seq<FingerprintView>, candidate: FingerprintView) -> bool {
    exists|o: int| 0 <= o < cover.len() && spec_occurrences_overlap(#[trigger] cover[o], candidate)
}

/// Some occurrence of `cover` describes `candidate`'s location.
pub open spec fn spec_some_describes(cover: Seq<FingerprintView>, candidate: FingerprintView) -> bool {
    exists|o: int| 0 <= o < cover.len() && spec_describe_one_location(#[trigger] cover[o], candidate)
}

/// Some occurrence of `outer` contains `inner`.
pub open spec fn spec_some_contains(outer: Seq<FingerprintView>, inner: FingerprintView) -> bool {
    exists|o: int| 0 <= o < outer.len() && spec_occurrence_contains(#[trigger] outer[o], inner)
}

/// Some occurrence of `nested` contains `outer`.
pub open spec fn spec_some_inside(nested: Seq<FingerprintView>, outer: FingerprintView) -> bool {
    exists|i: int| 0 <= i < nested.len() && spec_occurrence_contains(#[trigger] nested[i], outer)
}

/// Some occurrence of `candidate` lies in `needed`'s file.
pub open spec fn spec_names_file(candidate: Seq<FingerprintView>, needed: FingerprintView) -> bool {
    exists|p: int| 0 <= p < candidate.len() && (#[trigger] candidate[p]).file_id == needed.file_id
}

/// Every occurrence in `covered` shares a byte with one in `cover`.
pub open spec fn spec_all_overlap(covered: Seq<FingerprintView>, cover: Seq<FingerprintView>) -> bool {
    covered.len() > 0 && forall|c: int| 0 <= c < covered.len() ==> spec_some_overlaps(cover, #[trigger] covered[c])
}

/// Every occurrence in `covered` is paired by containment with one in `cover`.
pub open spec fn spec_all_paired(covered: Seq<FingerprintView>, cover: Seq<FingerprintView>) -> bool {
    covered.len() > 0 && forall|c: int| 0 <= c < covered.len() ==> spec_some_describes(cover, #[trigger] covered[c])
}

/// Every occurrence of `nested` lies inside one of `enclosing`, and some
/// occurrence of `enclosing` lies inside none of `nested`.
pub open spec fn spec_strictly_encloses(enclosing: Seq<FingerprintView>, nested: Seq<FingerprintView>) -> bool {
    &&& enclosing.len() > 0
    &&& nested.len() > 0
    &&& forall|i: int| 0 <= i < nested.len() ==> spec_some_contains(enclosing, #[trigger] nested[i])
    &&& exists|o: int| 0 <= o < enclosing.len() && !spec_some_inside(nested, #[trigger] enclosing[o])
}

/// Every file `required` names, `candidate` names too.
pub open spec fn spec_covers_every_file(candidate: Seq<FingerprintView>, required: Seq<FingerprintView>) -> bool {
    forall|r: int| 0 <= r < required.len() ==> spec_names_file(candidate, #[trigger] required[r])
}

/// Whether the nominated view physically encloses its rival.
#[derive(Clone, Copy, PartialEq, Eq, Structural, Debug)]
pub enum Nesting {
    /// The nominated view strictly encloses the other.
    ProposedEncloses,
    /// Neither occurrence set strictly encloses the other.
    Neither,
}

/// Two occurrences in one file share at least one byte.
pub fn occurrences_overlap(left: &Fingerprint, right: &Fingerprint) -> (overlap: bool)
    ensures
        overlap == spec_occurrences_overlap(left@, right@),
{
    left.file_id.0 == right.file_id.0 && left.byte_range.start < right.byte_range.end
        && right.byte_range.start < left.byte_range.end
}

/// One occurrence wholly contains another in the same file.
pub fn occurrence_contains(outer: &Fingerprint, inner: &Fingerprint) -> (contains: bool)
    ensures
        contains == spec_occurrence_contains(outer@, inner@),
{
    outer.file_id.0 == inner.file_id.0 && outer.byte_range.start <= inner.byte_range.start
        && inner.byte_range.end <= outer.byte_range.end
}

/// Two occurrences describe one location: containment, never bare
/// intersection, since regions that merely touch are two findings.
pub fn occurrences_describe_one_location(left: &Fingerprint, right: &Fingerprint) -> (one: bool)
    ensures
        one == spec_describe_one_location(left@, right@),
{
    occurrence_contains(left, right) || occurrence_contains(right, left)
}

/// Whether some occurrence of `cover` overlaps `candidate`.
fn any_overlaps(cover: &[Fingerprint], candidate: &Fingerprint) -> (found: bool)
    ensures
        found == spec_some_overlaps(fingerprints_view(cover@), candidate@),
{
    let mut o: usize = 0;
    while o < cover.len()
        invariant
            o <= cover@.len(),
            forall|p: int| 0 <= p < o ==> !spec_occurrences_overlap(#[trigger] fingerprints_view(cover@)[p], candidate@),
        decreases cover@.len() - o,
    {
        if occurrences_overlap(&cover[o], candidate) {
            assert(spec_occurrences_overlap(fingerprints_view(cover@)[o as int], candidate@));
            return true;
        }
        o = o + 1;
    }
    false
}

/// Whether some occurrence of `cover` describes `candidate`'s location.
fn any_describes(cover: &[Fingerprint], candidate: &Fingerprint) -> (found: bool)
    ensures
        found == spec_some_describes(fingerprints_view(cover@), candidate@),
{
    let mut o: usize = 0;
    while o < cover.len()
        invariant
            o <= cover@.len(),
            forall|p: int| 0 <= p < o ==> !spec_describe_one_location(#[trigger] fingerprints_view(cover@)[p], candidate@),
        decreases cover@.len() - o,
    {
        if occurrences_describe_one_location(&cover[o], candidate) {
            assert(spec_describe_one_location(fingerprints_view(cover@)[o as int], candidate@));
            return true;
        }
        o = o + 1;
    }
    false
}

/// Every occurrence in `covered` shares a byte with one in `cover`.
pub fn all_occurrences_overlap(covered: &[Fingerprint], cover: &[Fingerprint]) -> (all: bool)
    ensures
        all == spec_all_overlap(fingerprints_view(covered@), fingerprints_view(cover@)),
{
    let ghost cv = fingerprints_view(covered@);
    let ghost ov = fingerprints_view(cover@);
    assert(cv.len() == covered@.len() && ov.len() == cover@.len());
    if covered.len() == 0 {
        return false;
    }
    let mut c: usize = 0;
    while c < covered.len()
        invariant
            c <= covered@.len(),
            covered@.len() > 0,
            cv.len() == covered@.len(),
            cv == fingerprints_view(covered@),
            ov == fingerprints_view(cover@),
            forall|d: int| 0 <= d < c ==> spec_some_overlaps(ov, #[trigger] cv[d]),
        decreases covered@.len() - c,
    {
        if !any_overlaps(cover, &covered[c]) {
            assert(cv[c as int] == covered@[c as int]@);
            return false;
        }
        assert(cv[c as int] == covered@[c as int]@);
        c = c + 1;
    }
    true
}

/// Every occurrence in `covered` is paired by containment with one in
/// `cover`: the "same physical bytes" test.
pub fn all_occurrences_paired(covered: &[Fingerprint], cover: &[Fingerprint]) -> (all: bool)
    ensures
        all == spec_all_paired(fingerprints_view(covered@), fingerprints_view(cover@)),
{
    let ghost cv = fingerprints_view(covered@);
    let ghost ov = fingerprints_view(cover@);
    assert(cv.len() == covered@.len() && ov.len() == cover@.len());
    if covered.len() == 0 {
        return false;
    }
    let mut c: usize = 0;
    while c < covered.len()
        invariant
            c <= covered@.len(),
            covered@.len() > 0,
            cv.len() == covered@.len(),
            cv == fingerprints_view(covered@),
            ov == fingerprints_view(cover@),
            forall|d: int| 0 <= d < c ==> spec_some_describes(ov, #[trigger] cv[d]),
        decreases covered@.len() - c,
    {
        if !any_describes(cover, &covered[c]) {
            assert(cv[c as int] == covered@[c as int]@);
            return false;
        }
        assert(cv[c as int] == covered@[c as int]@);
        c = c + 1;
    }
    true
}

/// Whether some occurrence of `outer` contains `inner`.
fn any_contains(outer: &[Fingerprint], inner: &Fingerprint) -> (found: bool)
    ensures
        found == spec_some_contains(fingerprints_view(outer@), inner@),
{
    let mut o: usize = 0;
    while o < outer.len()
        invariant
            o <= outer@.len(),
            forall|p: int| 0 <= p < o ==> !spec_occurrence_contains(#[trigger] fingerprints_view(outer@)[p], inner@),
        decreases outer@.len() - o,
    {
        if occurrence_contains(&outer[o], inner) {
            assert(spec_occurrence_contains(fingerprints_view(outer@)[o as int], inner@));
            return true;
        }
        o = o + 1;
    }
    false
}

/// Whether some occurrence of `nested` contains `outer`.
fn any_inside(nested: &[Fingerprint], outer: &Fingerprint) -> (found: bool)
    ensures
        found == spec_some_inside(fingerprints_view(nested@), outer@),
{
    let mut i: usize = 0;
    while i < nested.len()
        invariant
            i <= nested@.len(),
            forall|p: int| 0 <= p < i ==> !spec_occurrence_contains(#[trigger] fingerprints_view(nested@)[p], outer@),
        decreases nested@.len() - i,
    {
        if occurrence_contains(&nested[i], outer) {
            assert(spec_occurrence_contains(fingerprints_view(nested@)[i as int], outer@));
            return true;
        }
        i = i + 1;
    }
    false
}

/// Every occurrence in `nested` lies wholly inside an occurrence in
/// `enclosing`, and `enclosing` reaches beyond it. Identical sets nest
/// both ways, so they do not strictly enclose each other.
pub fn strictly_encloses(enclosing: &[Fingerprint], nested: &[Fingerprint]) -> (encloses: bool)
    ensures
        encloses == spec_strictly_encloses(fingerprints_view(enclosing@), fingerprints_view(nested@)),
{
    let ghost ev = fingerprints_view(enclosing@);
    let ghost nv = fingerprints_view(nested@);
    assert(ev.len() == enclosing@.len() && nv.len() == nested@.len());
    if enclosing.len() == 0 || nested.len() == 0 {
        return false;
    }
    let mut i: usize = 0;
    while i < nested.len()
        invariant
            i <= nested@.len(),
            nested@.len() > 0,
            enclosing@.len() > 0,
            ev.len() == enclosing@.len(),
            nv.len() == nested@.len(),
            ev == fingerprints_view(enclosing@),
            nv == fingerprints_view(nested@),
            forall|d: int| 0 <= d < i ==> spec_some_contains(ev, #[trigger] nv[d]),
        decreases nested@.len() - i,
    {
        assert(nv[i as int] == nested@[i as int]@);
        if !any_contains(enclosing, &nested[i]) {
            return false;
        }
        i = i + 1;
    }
    let mut o: usize = 0;
    while o < enclosing.len()
        invariant
            o <= enclosing@.len(),
            nested@.len() > 0,
            enclosing@.len() > 0,
            ev.len() == enclosing@.len(),
            nv.len() == nested@.len(),
            forall|d: int| 0 <= d < nv.len() ==> spec_some_contains(ev, #[trigger] nv[d]),
            ev == fingerprints_view(enclosing@),
            nv == fingerprints_view(nested@),
            forall|p: int| 0 <= p < o ==> spec_some_inside(nv, #[trigger] ev[p]),
        decreases enclosing@.len() - o,
    {
        assert(ev[o as int] == enclosing@[o as int]@);
        if !any_inside(nested, &enclosing[o]) {
            return true;
        }
        o = o + 1;
    }
    false
}

/// Whether some occurrence of `candidate` lies in `needed`'s file.
fn names_file(candidate: &[Fingerprint], needed: &Fingerprint) -> (found: bool)
    ensures
        found == spec_names_file(fingerprints_view(candidate@), needed@),
{
    let mut p: usize = 0;
    while p < candidate.len()
        invariant
            p <= candidate@.len(),
            forall|q: int| 0 <= q < p ==> (#[trigger] fingerprints_view(candidate@)[q]).file_id != needed.file_id,
        decreases candidate@.len() - p,
    {
        if candidate[p].file_id.0 == needed.file_id.0 {
            assert(fingerprints_view(candidate@)[p as int].file_id == needed.file_id);
            return true;
        }
        p = p + 1;
    }
    false
}

/// Every file mentioned in `required` is also mentioned in `candidate`.
/// When this is false the cluster under threat covers files the survivor
/// does not, so dropping it would erase duplication no other cluster reports.
pub fn covers_every_file(candidate: &[Fingerprint], required: &[Fingerprint]) -> (covers: bool)
    ensures
        covers == spec_covers_every_file(fingerprints_view(candidate@), fingerprints_view(required@)),
{
    let ghost cv = fingerprints_view(candidate@);
    let ghost rv = fingerprints_view(required@);
    assert(cv.len() == candidate@.len() && rv.len() == required@.len());
    let mut r: usize = 0;
    while r < required.len()
        invariant
            r <= required@.len(),
            cv.len() == candidate@.len(),
            rv.len() == required@.len(),
            cv == fingerprints_view(candidate@),
            rv == fingerprints_view(required@),
            forall|q: int| 0 <= q < r ==> spec_names_file(cv, #[trigger] rv[q]),
        decreases required@.len() - r,
    {
        assert(rv[r as int] == required@[r as int]@);
        if !names_file(candidate, &required[r]) {
            return false;
        }
        r = r + 1;
    }
    true
}


// ----- file sets -----

/// Two views name exactly the same files.
pub open spec fn spec_same_file_set(a: Seq<FingerprintView>, b: Seq<FingerprintView>) -> bool {
    spec_covers_every_file(a, b) && spec_covers_every_file(b, a)
}

/// Whether two views name exactly the same files.
pub fn same_file_set(a: &[Fingerprint], b: &[Fingerprint]) -> (same: bool)
    ensures
        same == spec_same_file_set(fingerprints_view(a@), fingerprints_view(b@)),
{
    covers_every_file(a, b) && covers_every_file(b, a)
}

/// Position of the first group whose first view names the same files as
/// `cluster`, scanning from `from`; the group count when none does.
pub open spec fn spec_group_position(clusters: Seq<Cluster>, groups: Seq<Seq<usize>>, cluster: ClusterView, from: int) -> int
    decreases groups.len() - from,
{
    if from < 0 || from >= groups.len() {
        groups.len() as int
    } else if groups[from].len() > 0 && groups[from][0] < clusters.len()
        && spec_same_file_set(clusters[groups[from][0] as int]@.members, cluster.members) {
        from
    } else {
        spec_group_position(clusters, groups, cluster, from + 1)
    }
}

/// Ranked positions of the first `k` clusters grouped by the exact set of
/// files their views name, rank order kept inside each group.
pub open spec fn spec_file_set_groups(clusters: Seq<Cluster>, k: int) -> Seq<Seq<usize>>
    decreases k,
{
    if k <= 0 {
        seq![]
    } else {
        let prev = spec_file_set_groups(clusters, k - 1);
        let position = spec_group_position(clusters, prev, clusters[k - 1]@, 0);
        if position < prev.len() {
            prev.update(position, prev[position].push((k - 1) as usize))
        } else {
            prev.push(seq![(k - 1) as usize])
        }
    }
}

/// The models of a list of groups.
pub open spec fn groups_view(groups: Seq<Vec<usize>>) -> Seq<Seq<usize>> {
    groups.map_values(|group: Vec<usize>| group@)
}

/// Ranked positions grouped by the exact set of files their views name.
pub fn file_set_groups(clusters: &[Cluster]) -> (groups: Vec<Vec<usize>>)
    ensures
        groups_view(groups@) == spec_file_set_groups(clusters@, clusters@.len() as int),
        forall|g: int, p: int| 0 <= g < groups@.len() && 0 <= p < groups@[g]@.len() ==> #[trigger] groups@[g]@[p] < clusters@.len(),
        forall|g: int| 0 <= g < groups@.len() ==> (#[trigger] groups@[g])@.len() > 0,
{
    let mut groups: Vec<Vec<usize>> = Vec::new();
    let mut index: usize = 0;
    while index < clusters.len()
        invariant
            index <= clusters@.len(),
            groups_view(groups@) == spec_file_set_groups(clusters@, index as int),
            forall|g: int, p: int| 0 <= g < groups@.len() && 0 <= p < groups@[g]@.len() ==> #[trigger] groups@[g]@[p] < index,
            forall|g: int| 0 <= g < groups@.len() ==> (#[trigger] groups@[g])@.len() > 0,
        decreases clusters@.len() - index,
    {
        let ghost walk = groups_view(groups@);
        let mut position: usize = 0;
        while position < groups.len()
            && !(groups[position][0] < clusters.len()
                && same_file_set(clusters[groups[position][0]].members.as_slice(), clusters[index].members.as_slice()))
            invariant
                position <= groups@.len(),
                index < clusters@.len(),
                walk == groups_view(groups@),
                forall|g: int| 0 <= g < groups@.len() ==> (#[trigger] groups@[g])@.len() > 0,
                spec_group_position(clusters@, walk, clusters@[index as int]@, 0)
                    == spec_group_position(clusters@, walk, clusters@[index as int]@, position as int),
            decreases groups@.len() - position,
        {
            assert(walk[position as int] == groups@[position as int]@);
            position = position + 1;
        }
        proof {
            if position < groups@.len() {
                assert(walk[position as int] == groups@[position as int]@);
            }
        }
        let ghost before = groups@;
        if position < groups.len() {
            let mut list: Vec<usize> = Vec::new();
            groups.set_and_swap(position, &mut list);
            list.push(index);
            let ghost changed = list@;
            groups.set_and_swap(position, &mut list);
            assert(groups_view(groups@) =~= walk.update(position as int, walk[position as int].push(index)));
            assert forall|g: int, p: int| 0 <= g < groups@.len() && 0 <= p < groups@[g]@.len() implies #[trigger] groups@[g]@[p] < index + 1 by {
                if g != position as int {
                    assert(groups@[g] == before[g]);
                } else if p < before[g]@.len() {
                    assert(groups@[g]@[p] == before[g]@[p]);
                }
            }
        } else {
            let mut list: Vec<usize> = Vec::new();
            list.push(index);
            groups.push(list);
            assert(groups_view(groups@) =~= walk.push(seq![index]));
            assert forall|g: int, p: int| 0 <= g < groups@.len() && 0 <= p < groups@[g]@.len() implies #[trigger] groups@[g]@[p] < index + 1 by {
                if g < before.len() {
                    assert(groups@[g] == before[g]);
                }
            }
        }
        index = index + 1;
    }
    groups
}

/// The flags after the views `resolved` names, through `group`, are published.
pub open spec fn spec_mark_published(flags: Seq<bool>, group: Seq<usize>, resolved: Seq<usize>, m: int) -> Seq<bool>
    decreases m,
{
    if m <= 0 {
        flags
    } else {
        let prev = spec_mark_published(flags, group, resolved, m - 1);
        if resolved[m - 1] < group.len() && group[resolved[m - 1] as int] < prev.len() {
            prev.update(group[resolved[m - 1] as int] as int, true)
        } else {
            prev
        }
    }
}

/// The published views of one file set.
pub open spec fn spec_group_resolution(clusters: Seq<Cluster>, group: Seq<usize>) -> Seq<usize> {
    spec_resolve(region_views(clusters, group), Seq::new(group.len(), |v: int| false), (group.len() + 1) as nat)
}

/// The flags after the first `g` groups are resolved.
pub open spec fn spec_publish_groups(clusters: Seq<Cluster>, groups: Seq<Seq<usize>>, flags: Seq<bool>, g: int) -> Seq<bool>
    decreases g,
{
    if g <= 0 {
        flags
    } else {
        let prev = spec_publish_groups(clusters, groups, flags, g - 1);
        let resolved = spec_group_resolution(clusters, groups[g - 1]);
        spec_mark_published(prev, groups[g - 1], resolved, resolved.len() as int)
    }
}

/// Resolves one file set and marks its survivors in `published`.
pub fn publish_group(clusters: &[Cluster], group: &Vec<usize>, published: &mut Vec<bool>)
    requires
        forall|p: int| 0 <= p < group@.len() ==> #[trigger] group@[p] < clusters@.len(),
        old(published)@.len() == clusters@.len(),
    ensures
        final(published)@ == spec_mark_published(
            old(published)@,
            group@,
            spec_group_resolution(clusters@, group@),
            spec_group_resolution(clusters@, group@).len() as int,
        ),
        final(published)@.len() == old(published)@.len(),
{
    let mut views: Vec<usize> = Vec::new();
    let mut k: usize = 0;
    while k < group.len()
        invariant
            k <= group@.len(),
            views@ == group@.take(k as int),
        decreases group@.len() - k,
    {
        views.push(group[k]);
        assert(views@ =~= group@.take(k as int + 1));
        k = k + 1;
    }
    assert(group@.take(group@.len() as int) =~= group@);
    let region = Region::new(clusters, views);
    let resolved = resolve(&region, clusters);
    let ghost start = published@;
    let mut m: usize = 0;
    while m < resolved.len()
        invariant
            m <= resolved@.len(),
            published@.len() == start.len(),
            published@ == spec_mark_published(start, group@, resolved@, m as int),
        decreases resolved@.len() - m,
    {
        let local = resolved[m];
        if local < group.len() && group[local] < published.len() {
            published.set(group[local], true);
        }
        m = m + 1;
    }
}

/// The clusters whose flag is set, in order.
pub open spec fn spec_kept(clusters: Seq<ClusterView>, flags: Seq<bool>, k: int) -> Seq<ClusterView>
    decreases k,
{
    if k <= 0 {
        seq![]
    } else if flags[k - 1] {
        spec_kept(clusters, flags, k - 1).push(clusters[k - 1])
    } else {
        spec_kept(clusters, flags, k - 1)
    }
}

/// The models of a list of clusters.
pub open spec fn clusters_view(clusters: Seq<Cluster>) -> Seq<ClusterView> {
    clusters.map_values(|cluster: Cluster| cluster@)
}

/// What the cross-cluster collapse keeps: each file set resolved on its
/// own, the published views in rank order.
pub open spec fn spec_collapse_cross(clusters: Seq<Cluster>) -> Seq<ClusterView> {
    let groups = spec_file_set_groups(clusters, clusters.len() as int);
    let flags = spec_publish_groups(clusters, groups, Seq::new(clusters.len(), |i: int| false), groups.len() as int);
    spec_kept(clusters_view(clusters), flags, clusters.len() as int)
}

/// A copy of a cluster.
pub fn copy_cluster(cluster: &Cluster) -> (copy: Cluster)
    ensures
        copy@ == cluster@,
{
    Cluster {
        id: cluster.id.clone(),
        members: copy_fingerprints(&cluster.members),
        mass: cluster.mass,
        kind: cluster.kind,
        shape_family: cluster.shape_family,
    }
}

/// Collapses redundant clusters that cover the same physical bytes, one
/// file set at a time; survivors keep their rank order.
pub fn collapse_cross_cluster_overlap(clusters: Vec<Cluster>) -> (survivors: Vec<Cluster>)
    ensures
        clusters_view(survivors@) == spec_collapse_cross(clusters@),
{
    let groups = file_set_groups(clusters.as_slice());
    let ghost group_list = spec_file_set_groups(clusters@, clusters@.len() as int);
    let mut published: Vec<bool> = Vec::new();
    let mut k: usize = 0;
    while k < clusters.len()
        invariant
            k <= clusters@.len(),
            published@ == Seq::new(k as nat, |i: int| false),
        decreases clusters@.len() - k,
    {
        published.push(false);
        assert(published@ =~= Seq::new(k as nat + 1, |i: int| false));
        k = k + 1;
    }
    let ghost initial = published@;
    assert(group_list.len() == groups@.len());
    let mut g: usize = 0;
    while g < groups.len()
        invariant
            g <= groups@.len(),
            group_list == spec_file_set_groups(clusters@, clusters@.len() as int),
            groups_view(groups@) == group_list,
            group_list.len() == groups@.len(),
            forall|h: int, p: int| 0 <= h < groups@.len() && 0 <= p < groups@[h]@.len() ==> #[trigger] groups@[h]@[p] < clusters@.len(),
            published@.len() == clusters@.len(),
            initial == Seq::new(clusters@.len(), |i: int| false),
            published@ == spec_publish_groups(clusters@, group_list, initial, g as int),
        decreases groups@.len() - g,
    {
        assert(groups_view(groups@)[g as int] == groups@[g as int]@);
        publish_group(clusters.as_slice(), &groups[g], &mut published);
        g = g + 1;
    }
    let ghost all = clusters_view(clusters@);
    let mut survivors: Vec<Cluster> = Vec::new();
    let mut index: usize = 0;
    while index < clusters.len()
        invariant
            index <= clusters@.len(),
            published@.len() == clusters@.len(),
            all == clusters_view(clusters@),
            clusters_view(survivors@) == spec_kept(all, published@, index as int),
        decreases clusters@.len() - index,
    {
        if published[index] {
            let ghost before = clusters_view(survivors@);
            survivors.push(copy_cluster(&clusters[index]));
            assert(clusters_view(survivors@) =~= before.push(all[index as int]));
        }
        index = index + 1;
    }
    survivors
}

} // verus!
