//! Survivor selection inside one file set.
//!
//! The views over one file set, in rank order, and the same-region
//! preference between every pair that has one, form a directed graph: an
//! edge runs from the view the survivor order prefers to the view it
//! re-describes. Views are published in rank order whenever no undecided
//! or published view beats them, absorbing the rest of their region as
//! they go; when every undecided view is beaten by another undecided view
//! the order has a cycle, and the view that leads on occurrence coverage,
//! mass and id is published. Straddling pairs among the published views
//! are removed for good, and the kernel is found again without them.

use vstd::prelude::*;

use crate::cluster::{Cluster, ClusterView};
use super::{all_occurrences_overlap, spec_all_overlap, spec_strictly_encloses, strictly_encloses};
use super::survivor::{leads, same_region_survivor, spec_outranks, spec_same_region_survivor, Preference};

verus! {

/// The models of the views of a region.
pub open spec fn region_views(clusters: Seq<Cluster>, views: Seq<usize>) -> Seq<ClusterView> {
    views.map_values(|index: usize| clusters[index as int]@)
}

/// View `winner` re-describes view `loser` and outranks it.
pub open spec fn spec_beats(views: Seq<ClusterView>, winner: int, loser: int) -> bool {
    ||| (winner < loser && spec_same_region_survivor(views[winner], views[loser]) == Preference::First)
    ||| (loser < winner && spec_same_region_survivor(views[loser], views[winner]) == Preference::Second)
}

/// One of the two views beats the other.
pub open spec fn spec_neighbors(views: Seq<ClusterView>, a: int, b: int) -> bool {
    spec_beats(views, a, b) || spec_beats(views, b, a)
}

/// The views over one file set, in rank order, with the same-region
/// preference between every pair that has one.
pub struct Region {
    /// Positions of the views in the ranked cluster list, in rank order.
    pub views: Vec<usize>,
    /// `preferences[first][second]`, for `first < second`: which of the two
    /// views survives when they describe one duplication.
    pub preferences: Vec<Vec<Preference>>,
}

/// The region holds, for every pair of its views in rank order, the
/// survivor order's verdict on them.
pub open spec fn region_wf(region: Region, clusters: Seq<Cluster>) -> bool {
    let n = region.views@.len();
    let views = region_views(clusters, region.views@);
    &&& forall|v: int| 0 <= v < n ==> #[trigger] region.views@[v] < clusters.len()
    &&& region.preferences@.len() == n
    &&& forall|a: int| 0 <= a < n ==> (#[trigger] region.preferences@[a])@.len() == n
    &&& forall|a: int, b: int| 0 <= a < b < n ==>
        #[trigger] region.preferences@[a]@[b] == spec_same_region_survivor(views[a], views[b])
}

/// The survivor order's verdict on views `first < second` of `views`.
fn connect(clusters: &[Cluster], views: &Vec<usize>, first: usize, second: usize) -> (preference: Preference)
    requires
        first < views@.len(),
        second < views@.len(),
        forall|v: int| 0 <= v < views@.len() ==> #[trigger] views@[v] < clusters@.len(),
    ensures
        preference == spec_same_region_survivor(
            region_views(clusters@, views@)[first as int],
            region_views(clusters@, views@)[second as int],
        ),
{
    assert(views@[first as int] < clusters@.len() && views@[second as int] < clusters@.len());
    same_region_survivor(&clusters[views[first]], &clusters[views[second]])
}

impl Region {
    /// Evaluates every pair of views once and records who outranks whom.
    pub fn new(clusters: &[Cluster], views: Vec<usize>) -> (region: Region)
        requires
            forall|v: int| 0 <= v < views@.len() ==> #[trigger] views@[v] < clusters@.len(),
        ensures
            region.views@ == views@,
            region_wf(region, clusters@),
    {
        let n = views.len();
        let ghost rv = region_views(clusters@, views@);
        let mut preferences: Vec<Vec<Preference>> = Vec::new();
        let mut first: usize = 0;
        while first < n
            invariant
                first <= n,
                n == views@.len(),
                rv == region_views(clusters@, views@),
                forall|v: int| 0 <= v < n ==> #[trigger] views@[v] < clusters@.len(),
                preferences@.len() == first,
                forall|a: int| 0 <= a < first ==> (#[trigger] preferences@[a])@.len() == n,
                forall|a: int, b: int| 0 <= a < first && a < b < n ==>
                    #[trigger] preferences@[a]@[b] == spec_same_region_survivor(rv[a], rv[b]),
            decreases n - first,
        {
            let mut row: Vec<Preference> = Vec::new();
            let mut second: usize = 0;
            while second < n
                invariant
                    first < n,
                    second <= n,
                    n == views@.len(),
                    rv == region_views(clusters@, views@),
                    forall|v: int| 0 <= v < n ==> #[trigger] views@[v] < clusters@.len(),
                    row@.len() == second,
                    forall|b: int| first < b < second ==> #[trigger] row@[b] == spec_same_region_survivor(rv[first as int], rv[b]),
                decreases n - second,
            {
                if second > first {
                    row.push(connect(clusters, &views, first, second));
                } else {
                    row.push(Preference::Neither);
                }
                second = second + 1;
            }
            preferences.push(row);
            first = first + 1;
        }
        Region { views, preferences }
    }

    /// How many views the region holds.
    pub fn len(&self) -> (count: usize)
        ensures
            count == self.views@.len(),
    {
        self.views.len()
    }
}


// ----- the kernel -----

/// Publication state of one view while its region is resolved.
#[derive(Clone, Copy, Debug, PartialEq, Eq, Structural)]
pub enum State {
    /// Not yet judged against the published set.
    Undecided,
    /// A finding.
    Published,
    /// Re-described and outranked by a published view.
    Absorbed,
    /// Removed as a straddler in an earlier round.
    Straddled,
}

/// A view that can still beat another: undecided or published.
pub open spec fn spec_live(state: State) -> bool {
    state == State::Undecided || state == State::Published
}

/// An undecided view that no live view beats.
pub open spec fn spec_ready(views: Seq<ClusterView>, states: Seq<State>, v: int) -> bool {
    &&& states[v] == State::Undecided
    &&& forall|w: int| 0 <= w < states.len() && #[trigger] spec_beats(views, w, v) ==> !spec_live(states[w])
}

/// The best-ranked ready view at or after `from`.
pub open spec fn spec_next_source(views: Seq<ClusterView>, states: Seq<State>, from: int) -> Option<int>
    decreases states.len() - from,
{
    if from < 0 || from >= states.len() {
        None
    } else if spec_ready(views, states, from) {
        Some(from)
    } else {
        spec_next_source(views, states, from + 1)
    }
}

/// Among the first `k` views, the undecided view that leads on occurrence
/// coverage, mass and id; the later one on a tie.
pub open spec fn spec_best_undecided(views: Seq<ClusterView>, states: Seq<State>, k: int) -> Option<int>
    decreases k,
{
    if k <= 0 {
        None
    } else {
        let prev = spec_best_undecided(views, states, k - 1);
        if states[k - 1] != State::Undecided {
            prev
        } else {
            match prev {
                None => Some(k - 1),
                Some(best) => if spec_outranks(views[best], views[k - 1]) != 1 { Some(k - 1) } else { Some(best) },
            }
        }
    }
}

/// The view published next: a ready view, or else the leader of a cycle.
pub open spec fn spec_choose(views: Seq<ClusterView>, states: Seq<State>) -> Option<int> {
    match spec_next_source(views, states, 0) {
        Some(v) => Some(v),
        None => spec_best_undecided(views, states, states.len() as int),
    }
}

/// The states after `view` is published: every undecided view of its
/// region (a view it beats or that beats it) is absorbed.
pub open spec fn spec_publish(views: Seq<ClusterView>, states: Seq<State>, view: int) -> Seq<State> {
    Seq::new(states.len(), |u: int|
        if u == view {
            State::Published
        } else if spec_neighbors(views, view, u) && states[u] == State::Undecided {
            State::Absorbed
        } else {
            states[u]
        })
}

/// The states after up to `fuel` publications.
pub open spec fn spec_kernel_run(views: Seq<ClusterView>, states: Seq<State>, fuel: nat) -> Seq<State>
    decreases fuel,
{
    if fuel == 0 {
        states
    } else {
        match spec_choose(views, states) {
            None => states,
            Some(v) => spec_kernel_run(views, spec_publish(views, states, v), (fuel - 1) as nat),
        }
    }
}

/// Every view undecided except the straddlers.
pub open spec fn spec_initial_states(straddled: Seq<bool>) -> Seq<State> {
    Seq::new(straddled.len(), |v: int| if straddled[v] { State::Straddled } else { State::Undecided })
}

/// The positions among the first `k` whose state is published, ascending.
pub open spec fn spec_published_positions(states: Seq<State>, k: int) -> Seq<usize>
    decreases k,
{
    if k <= 0 {
        seq![]
    } else if states[k - 1] == State::Published {
        spec_published_positions(states, k - 1).push((k - 1) as usize)
    } else {
        spec_published_positions(states, k - 1)
    }
}

/// The kernel of the region without the straddled views: its published
/// positions, ascending.
#[verifier::opaque]
pub open spec fn spec_kernel(views: Seq<ClusterView>, straddled: Seq<bool>) -> Seq<usize> {
    let states = spec_kernel_run(views, spec_initial_states(straddled), straddled.len() as nat);
    spec_published_positions(states, states.len() as int)
}

/// How many of the first `k` views are undecided.
pub open spec fn spec_count_undecided(states: Seq<State>, k: int) -> nat
    decreases k,
{
    if k <= 0 {
        0
    } else {
        spec_count_undecided(states, k - 1) + if states[k - 1] == State::Undecided { 1nat } else { 0nat }
    }
}

proof fn lemma_count_undecided_bounded(states: Seq<State>, k: int)
    requires
        0 <= k,
    ensures
        spec_count_undecided(states, k) <= k,
    decreases k,
{
    if k > 0 {
        lemma_count_undecided_bounded(states, k - 1);
    }
}

proof fn lemma_count_undecided_drops(before: Seq<State>, after: Seq<State>, v: int, k: int)
    requires
        before.len() == after.len(),
        0 <= v < before.len(),
        before[v] == State::Undecided,
        after[v] != State::Undecided,
        forall|u: int| 0 <= u < before.len() && #[trigger] after[u] == State::Undecided ==> before[u] == State::Undecided,
        0 <= k <= before.len(),
    ensures
        spec_count_undecided(after, k) <= spec_count_undecided(before, k),
        k > v ==> spec_count_undecided(after, k) + 1 <= spec_count_undecided(before, k),
    decreases k,
{
    if k > 0 {
        lemma_count_undecided_drops(before, after, v, k - 1);
    }
}

proof fn lemma_best_undecided_found(views: Seq<ClusterView>, states: Seq<State>, k: int)
    requires
        0 <= k <= states.len(),
    ensures
        spec_best_undecided(views, states, k).is_none() <==> (forall|u: int| 0 <= u < k ==> states[u] != State::Undecided),
        spec_best_undecided(views, states, k).is_some() ==> ({
            let best = spec_best_undecided(views, states, k).unwrap();
            0 <= best < k && states[best] == State::Undecided
        }),
    decreases k,
{
    if k > 0 {
        lemma_best_undecided_found(views, states, k - 1);
    }
}

proof fn lemma_next_source_found(views: Seq<ClusterView>, states: Seq<State>, from: int)
    requires
        0 <= from,
    ensures
        spec_next_source(views, states, from).is_some() ==> ({
            let v = spec_next_source(views, states, from).unwrap();
            from <= v < states.len() && states[v] == State::Undecided
        }),
    decreases states.len() - from,
{
    if from < states.len() && !spec_ready(views, states, from) {
        lemma_next_source_found(views, states, from + 1);
    }
}

/// No published view is a neighbor of a view that is not absorbed or
/// straddled.
pub open spec fn spec_independent(views: Seq<ClusterView>, states: Seq<State>) -> bool {
    forall|p: int, u: int| 0 <= p < states.len() && 0 <= u < states.len() && states[p] == State::Published
        && #[trigger] spec_neighbors(views, p, u) ==> (states[u] == State::Absorbed || states[u] == State::Straddled)
}

/// Every absorbed view is a neighbor of a published view.
pub open spec fn spec_absorbed_by_published(views: Seq<ClusterView>, states: Seq<State>) -> bool {
    forall|u: int| 0 <= u < states.len() && #[trigger] states[u] == State::Absorbed ==>
        exists|p: int| 0 <= p < states.len() && states[p] == State::Published && #[trigger] spec_neighbors(views, p, u)
}

/// Live bookkeeping for one kernel computation over a region.
pub struct Resolution {
    /// Each view's state.
    pub states: Vec<State>,
}

impl Resolution {
    /// Every view undecided except the straddlers.
    pub fn new(straddled: &Vec<bool>) -> (resolution: Resolution)
        ensures
            resolution.states@ == spec_initial_states(straddled@),
    {
        let mut states: Vec<State> = Vec::new();
        let mut v: usize = 0;
        while v < straddled.len()
            invariant
                v <= straddled@.len(),
                states@ == spec_initial_states(straddled@).take(v as int),
            decreases straddled@.len() - v,
        {
            if straddled[v] {
                states.push(State::Straddled);
            } else {
                states.push(State::Undecided);
            }
            assert(states@ =~= spec_initial_states(straddled@).take(v as int + 1));
            v = v + 1;
        }
        assert(spec_initial_states(straddled@).take(straddled@.len() as int) =~= spec_initial_states(straddled@));
        Resolution { states }
    }

    /// The state of `view`.
    pub fn state(&self, view: usize) -> (state: State)
        requires
            view < self.states@.len(),
        ensures
            state == self.states@[view as int],
    {
        self.states[view]
    }

    /// Whether a live view beats `view`.
    fn has_live_beater(&self, region: &Region, clusters: &[Cluster], view: usize) -> (beaten: bool)
        requires
            region_wf(*region, clusters@),
            self.states@.len() == region.views@.len(),
            view < region.views@.len(),
        ensures
            beaten == exists|w: int| 0 <= w < self.states@.len()
                && #[trigger] spec_beats(region_views(clusters@, region.views@), w, view as int)
                && spec_live(self.states@[w]),
    {
        let ghost rv = region_views(clusters@, region.views@);
        let mut w: usize = 0;
        while w < self.states.len()
            invariant
                w <= self.states@.len(),
                self.states@.len() == region.views@.len(),
                region_wf(*region, clusters@),
                rv == region_views(clusters@, region.views@),
                view < region.views@.len(),
                forall|x: int| 0 <= x < w ==> !(#[trigger] spec_beats(rv, x, view as int) && spec_live(self.states@[x])),
            decreases self.states@.len() - w,
        {
            let state = self.states[w];
            if region.beats(clusters, w, view) && (state == State::Undecided || state == State::Published) {
                return true;
            }
            w = w + 1;
        }
        false
    }

    /// The best-ranked undecided view nothing live beats.
    pub fn next_source(&self, region: &Region, clusters: &[Cluster]) -> (next: Option<usize>)
        requires
            region_wf(*region, clusters@),
            self.states@.len() == region.views@.len(),
        ensures
            match next {
                Some(v) => spec_next_source(region_views(clusters@, region.views@), self.states@, 0) == Some(v as int),
                None => spec_next_source(region_views(clusters@, region.views@), self.states@, 0).is_none(),
            },
    {
        let ghost rv = region_views(clusters@, region.views@);
        let mut v: usize = 0;
        while v < self.states.len()
            invariant
                v <= self.states@.len(),
                self.states@.len() == region.views@.len(),
                region_wf(*region, clusters@),
                rv == region_views(clusters@, region.views@),
                spec_next_source(rv, self.states@, 0) == spec_next_source(rv, self.states@, v as int),
            decreases self.states@.len() - v,
        {
            if self.states[v] == State::Undecided && !self.has_live_beater(region, clusters, v) {
                return Some(v);
            }
            v = v + 1;
        }
        None
    }

    /// With every undecided view beaten by another, the view that leads on
    /// occurrence coverage, mass and id is the finding.
    pub fn break_cycle(&self, region: &Region, clusters: &[Cluster]) -> (best: Option<usize>)
        requires
            region_wf(*region, clusters@),
            self.states@.len() == region.views@.len(),
        ensures
            match best {
                Some(v) => spec_best_undecided(region_views(clusters@, region.views@), self.states@, self.states@.len() as int) == Some(v as int),
                None => spec_best_undecided(region_views(clusters@, region.views@), self.states@, self.states@.len() as int).is_none(),
            },
    {
        let ghost rv = region_views(clusters@, region.views@);
        let mut best: Option<usize> = None;
        let mut v: usize = 0;
        while v < self.states.len()
            invariant
                v <= self.states@.len(),
                self.states@.len() == region.views@.len(),
                region_wf(*region, clusters@),
                rv == region_views(clusters@, region.views@),
                match best {
                    Some(b) => spec_best_undecided(rv, self.states@, v as int) == Some(b as int) && b < v,
                    None => spec_best_undecided(rv, self.states@, v as int).is_none(),
                },
            decreases self.states@.len() - v,
        {
            if self.states[v] == State::Undecided {
                match best {
                    None => {
                        best = Some(v);
                    },
                    Some(b) => {
                        assert(region.views@[b as int] < clusters@.len() && region.views@[v as int] < clusters@.len());
                        assert(rv[b as int] == clusters@[region.views@[b as int] as int]@);
                        assert(rv[v as int] == clusters@[region.views@[v as int] as int]@);
                        if !leads(&clusters[region.views[b]], &clusters[region.views[v]]) {
                            best = Some(v);
                        }
                    },
                }
            }
            v = v + 1;
        }
        best
    }

    /// Publishes `view` and absorbs every undecided view of its region.
    pub fn publish(&mut self, region: &Region, clusters: &[Cluster], view: usize)
        requires
            region_wf(*region, clusters@),
            old(self).states@.len() == region.views@.len(),
            view < region.views@.len(),
        ensures
            final(self).states@ == spec_publish(region_views(clusters@, region.views@), old(self).states@, view as int),
    {
        let ghost rv = region_views(clusters@, region.views@);
        let ghost before = self.states@;
        let n = self.states.len();
        let mut u: usize = 0;
        while u < n
            invariant
                u <= n,
                n == before.len(),
                n == region.views@.len(),
                region_wf(*region, clusters@),
                rv == region_views(clusters@, region.views@),
                view < n,
                self.states@.len() == n,
                forall|x: int| 0 <= x < u ==> #[trigger] self.states@[x] == spec_publish(rv, before, view as int)[x],
                forall|x: int| u <= x < n ==> #[trigger] self.states@[x] == before[x],
            decreases n - u,
        {
            if u == view {
                self.states.set(u, State::Published);
            } else if (region.beats(clusters, view, u) || region.beats(clusters, u, view)) && self.states[u] == State::Undecided {
                self.absorb(u);
            }
            u = u + 1;
        }
        assert(self.states@ =~= spec_publish(rv, before, view as int));
    }

    /// Absorbs `rival` into the view being published.
    fn absorb(&mut self, rival: usize)
        requires
            rival < old(self).states@.len(),
        ensures
            final(self).states@ == old(self).states@.update(rival as int, State::Absorbed),
    {
        self.states.set(rival, State::Absorbed);
    }
}

impl Region {
    /// Whether view `winner` re-describes view `loser` and outranks it.
    pub fn beats(&self, clusters: &[Cluster], winner: usize, loser: usize) -> (beats: bool)
        requires
            region_wf(*self, clusters@),
            winner < self.views@.len(),
            loser < self.views@.len(),
        ensures
            beats == spec_beats(region_views(clusters@, self.views@), winner as int, loser as int),
    {
        if winner < loser {
            self.preferences[winner][loser] == Preference::First
        } else if loser < winner {
            self.preferences[loser][winner] == Preference::Second
        } else {
            false
        }
    }
}


proof fn lemma_publish_keeps_laws(views: Seq<ClusterView>, before: Seq<State>, v: int)
    requires
        0 <= v < before.len(),
        before[v] == State::Undecided,
        spec_independent(views, before),
        spec_absorbed_by_published(views, before),
    ensures
        spec_independent(views, spec_publish(views, before, v)),
        spec_absorbed_by_published(views, spec_publish(views, before, v)),
        forall|u: int| 0 <= u < before.len() ==>
            ((#[trigger] spec_publish(views, before, v)[u] == State::Straddled) <==> before[u] == State::Straddled),
        forall|u: int| 0 <= u < before.len() && #[trigger] spec_publish(views, before, v)[u] == State::Undecided ==>
            before[u] == State::Undecided,
        spec_publish(views, before, v)[v] == State::Published,
{
    let after = spec_publish(views, before, v);
    assert forall|p: int, u: int| 0 <= p < after.len() && 0 <= u < after.len() && after[p] == State::Published
        && #[trigger] spec_neighbors(views, p, u) implies (after[u] == State::Absorbed || after[u] == State::Straddled) by {
        if p == v {
            if before[u] != State::Undecided {
                if before[u] == State::Published {
                    assert(spec_neighbors(views, u, v));
                }
            }
        } else {
            assert(before[p] == State::Published);
            if u == v {
                assert(spec_neighbors(views, p, v));
            }
        }
    }
    assert forall|u: int| 0 <= u < after.len() && #[trigger] after[u] == State::Absorbed implies
        exists|p: int| 0 <= p < after.len() && after[p] == State::Published && #[trigger] spec_neighbors(views, p, u) by {
        if before[u] == State::Absorbed {
            let p = choose|p: int| 0 <= p < before.len() && before[p] == State::Published && #[trigger] spec_neighbors(views, p, u);
            assert(after[p] == State::Published);
        } else {
            assert(after[v] == State::Published && spec_neighbors(views, v, u));
        }
    }
}

proof fn lemma_published_positions(states: Seq<State>, k: int)
    requires
        0 <= k <= states.len(),
        states.len() <= usize::MAX,
    ensures
        forall|x: usize| #[trigger] spec_published_positions(states, k).contains(x) <==> (x < k && states[x as int] == State::Published),
        forall|i: int, j: int| 0 <= i < j < spec_published_positions(states, k).len() ==>
            spec_published_positions(states, k)[i] < spec_published_positions(states, k)[j],
        forall|i: int| 0 <= i < spec_published_positions(states, k).len() ==>
            #[trigger] spec_published_positions(states, k)[i] < k,
    decreases k,
{
    if k > 0 {
        lemma_published_positions(states, k - 1);
        let prev = spec_published_positions(states, k - 1);
        let last: usize = (k - 1) as usize;
        if states[k - 1] == State::Published {
            let next = prev.push(last);
            assert(spec_published_positions(states, k) == next);
            assert forall|x: usize| #[trigger] next.contains(x) <==> (x < k && states[x as int] == State::Published) by {
                if x == last {
                    assert(next[prev.len() as int] == x);
                } else if next.contains(x) {
                    let i = choose|i: int| 0 <= i < next.len() && #[trigger] next[i] == x;
                    assert(i < prev.len());
                    assert(prev[i] == x);
                    assert(prev.contains(x));
                } else if x < k - 1 && states[x as int] == State::Published {
                    assert(prev.contains(x));
                    let i = choose|i: int| 0 <= i < prev.len() && #[trigger] prev[i] == x;
                    assert(next[i] == x);
                }
            }
            assert forall|i: int, j: int| 0 <= i < j < next.len() implies next[i] < next[j] by {
                if j == prev.len() {
                    assert(prev[i] < k - 1);
                }
            }
        }
    }
}

/// One publication keeps every law the kernel loop carries.
#[verifier::spinoff_prover]
#[verifier::rlimit(50)]
proof fn lemma_kernel_step(
    views: Seq<ClusterView>,
    initial: Seq<State>,
    straddled: Seq<bool>,
    current: Seq<State>,
    v: int,
    fuel: nat,
    n: nat,
)
    requires
        current.len() == n,
        straddled.len() == n,
        0 <= v < n,
        spec_choose(views, current) == Some(v),
        current[v] == State::Undecided,
        spec_kernel_run(views, current, fuel) == spec_kernel_run(views, initial, n),
        fuel >= spec_count_undecided(current, n as int),
        spec_independent(views, current),
        spec_absorbed_by_published(views, current),
        forall|u: int| 0 <= u < n ==> ((#[trigger] current[u] == State::Straddled) <==> straddled[u]),
    ensures
        fuel >= 1,
        spec_publish(views, current, v).len() == n,
        spec_kernel_run(views, spec_publish(views, current, v), (fuel - 1) as nat) == spec_kernel_run(views, initial, n),
        (fuel - 1) as nat >= spec_count_undecided(spec_publish(views, current, v), n as int),
        spec_independent(views, spec_publish(views, current, v)),
        spec_absorbed_by_published(views, spec_publish(views, current, v)),
        forall|u: int| 0 <= u < n ==> ((#[trigger] spec_publish(views, current, v)[u] == State::Straddled) <==> straddled[u]),
{
    let after = spec_publish(views, current, v);
    lemma_count_undecided_drops(current, after, v, n as int);
    lemma_publish_keeps_laws(views, current, v);
}

/// The kernel of the region without the straddled views: the published
/// positions, in rank order. No published view beats another, every other
/// view that is not straddled is a neighbor of a published one, and no
/// straddled view is published.
pub fn kernel(region: &Region, clusters: &[Cluster], straddled: &Vec<bool>) -> (published: Vec<usize>)
    requires
        region_wf(*region, clusters@),
        straddled@.len() == region.views@.len(),
    ensures
        published@ == spec_kernel(region_views(clusters@, region.views@), straddled@),
        forall|i: int, j: int| 0 <= i < published@.len() && 0 <= j < published@.len() ==>
            !spec_beats(region_views(clusters@, region.views@), #[trigger] published@[i] as int, #[trigger] published@[j] as int),
        forall|u: int| 0 <= u < straddled@.len() && !straddled@[u] && !published@.contains(u as usize) ==>
            exists|i: int| 0 <= i < published@.len()
                && #[trigger] spec_neighbors(region_views(clusters@, region.views@), published@[i] as int, u),
        forall|i: int| 0 <= i < published@.len() ==> #[trigger] published@[i] < straddled@.len() && !straddled@[published@[i] as int],
        forall|i: int, j: int| 0 <= i < j < published@.len() ==> published@[i] < published@[j],
{
    let ghost rv = region_views(clusters@, region.views@);
    let n = region.len();
    let mut resolution = Resolution::new(straddled);
    let ghost initial = resolution.states@;
    let ghost mut fuel: nat = n as nat;
    proof {
        lemma_count_undecided_bounded(initial, n as int);
    }
    loop
        invariant
            n == region.views@.len(),
            region_wf(*region, clusters@),
            rv == region_views(clusters@, region.views@),
            initial == spec_initial_states(straddled@),
            straddled@.len() == n,
            resolution.states@.len() == n,
            spec_kernel_run(rv, resolution.states@, fuel) == spec_kernel_run(rv, initial, n as nat),
            fuel >= spec_count_undecided(resolution.states@, n as int),
            spec_independent(rv, resolution.states@),
            spec_absorbed_by_published(rv, resolution.states@),
            forall|u: int| 0 <= u < n ==> ((#[trigger] resolution.states@[u] == State::Straddled) <==> straddled@[u]),
        ensures
            resolution.states@.len() == n,
            resolution.states@ == spec_kernel_run(rv, initial, n as nat),
            spec_independent(rv, resolution.states@),
            spec_absorbed_by_published(rv, resolution.states@),
            forall|u: int| 0 <= u < n ==> ((#[trigger] resolution.states@[u] == State::Straddled) <==> straddled@[u]),
            forall|u: int| 0 <= u < n ==> #[trigger] resolution.states@[u] != State::Undecided,
        decreases fuel,
    {
        let ghost current = resolution.states@;
        let next = match resolution.next_source(region, clusters) {
            Some(v) => Some(v),
            None => resolution.break_cycle(region, clusters),
        };
        proof {
            lemma_next_source_found(rv, current, 0);
            lemma_best_undecided_found(rv, current, n as int);
        }
        match next {
            None => {
                break;
            },
            Some(v) => {
                proof {
                    assert(spec_choose(rv, current) == Some(v as int));
                    lemma_kernel_step(rv, initial, straddled@, current, v as int, fuel, n as nat);
                }
                resolution.publish(region, clusters, v);
                proof {
                    fuel = (fuel - 1) as nat;
                }
            },
        }
    }
    let ghost states = resolution.states@;
    let mut published: Vec<usize> = Vec::new();
    let mut u: usize = 0;
    while u < n
        invariant
            u <= n,
            n == resolution.states@.len(),
            states == resolution.states@,
            published@ == spec_published_positions(states, u as int),
        decreases n - u,
    {
        if resolution.state(u) == State::Published {
            published.push(u);
        }
        u = u + 1;
    }
    proof {
        reveal(spec_kernel);
        assert(states.len() <= usize::MAX);
        lemma_published_positions(states, n as int);
        assert forall|i: int, j: int| 0 <= i < published@.len() && 0 <= j < published@.len() implies
            !spec_beats(rv, #[trigger] published@[i] as int, #[trigger] published@[j] as int) by {
            let p = published@[i];
            let q = published@[j];
            assert(published@.contains(p) && published@.contains(q));
            if spec_beats(rv, p as int, q as int) {
                assert(spec_neighbors(rv, p as int, q as int));
            }
        }
        assert forall|x: int| 0 <= x < straddled@.len() && !straddled@[x] && !published@.contains(x as usize) implies
            exists|i: int| 0 <= i < published@.len() && #[trigger] spec_neighbors(rv, published@[i] as int, x) by {
            assert(states[x] != State::Undecided && states[x] != State::Straddled);
            if states[x] == State::Published {
                assert(published@.contains(x as usize));
            }
            assert(states[x] == State::Absorbed);
            let p = choose|p: int| 0 <= p < states.len() && states[p] == State::Published && #[trigger] spec_neighbors(rv, p, x);
            assert(published@.contains(p as usize));
            let i = choose|i: int| 0 <= i < published@.len() && #[trigger] published@[i] == p as usize;
            assert(spec_neighbors(rv, published@[i] as int, x));
        }
        assert forall|i: int| 0 <= i < published@.len() implies #[trigger] published@[i] < straddled@.len() && !straddled@[published@[i] as int] by {
            assert(published@.contains(published@[i]));
        }
    }
    published
}


// ----- straddles -----

/// Whether views `first` and `second` are two padded readings of a third
/// view of the region: every occurrence of each overlaps one of the other,
/// and some other view lies strictly inside both.
#[verifier::opaque]
pub open spec fn spec_straddle(views: Seq<ClusterView>, first: int, second: int) -> bool {
    &&& spec_all_overlap(views[first].members, views[second].members)
    &&& spec_all_overlap(views[second].members, views[first].members)
    &&& exists|core: int| 0 <= core < views.len() && core != first && core != second
        && #[trigger] spec_strictly_encloses(views[first].members, views[core].members)
        && spec_strictly_encloses(views[second].members, views[core].members)
}

impl Region {
    /// Whether views `first` and `second` straddle a third view of the
    /// region. File coverage holds by construction: the region is one
    /// file set.
    pub fn straddle(&self, clusters: &[Cluster], first: usize, second: usize) -> (straddles: bool)
        requires
            region_wf(*self, clusters@),
            first < self.views@.len(),
            second < self.views@.len(),
        ensures
            straddles == spec_straddle(region_views(clusters@, self.views@), first as int, second as int),
    {
        reveal(spec_straddle);
        let ghost rv = region_views(clusters@, self.views@);
        let left = &clusters[self.views[first]];
        let right = &clusters[self.views[second]];
        assert(rv[first as int] == clusters@[self.views@[first as int] as int]@);
        assert(rv[second as int] == clusters@[self.views@[second as int] as int]@);
        if !all_occurrences_overlap(left.members.as_slice(), right.members.as_slice())
            || !all_occurrences_overlap(right.members.as_slice(), left.members.as_slice()) {
            return false;
        }
        let mut core: usize = 0;
        while core < self.views.len()
            invariant
                core <= self.views@.len(),
                region_wf(*self, clusters@),
                rv == region_views(clusters@, self.views@),
                first < self.views@.len(),
                second < self.views@.len(),
                rv[first as int] == left@,
                rv[second as int] == right@,
                spec_all_overlap(rv[first as int].members, rv[second as int].members),
                spec_all_overlap(rv[second as int].members, rv[first as int].members),
                forall|c: int| 0 <= c < core && c != first && c != second ==>
                    !(#[trigger] spec_strictly_encloses(rv[first as int].members, rv[c].members)
                        && spec_strictly_encloses(rv[second as int].members, rv[c].members)),
            decreases self.views@.len() - core,
        {
            if core != first && core != second {
                let inner = &clusters[self.views[core]];
                assert(rv[core as int] == clusters@[self.views@[core as int] as int]@);
                if strictly_encloses(left.members.as_slice(), inner.members.as_slice())
                    && strictly_encloses(right.members.as_slice(), inner.members.as_slice()) {
                    assert(spec_strictly_encloses(rv[first as int].members, rv[core as int].members)
                        && spec_strictly_encloses(rv[second as int].members, rv[core as int].members));
                    proof {
                        reveal(spec_straddle);
                    }
                    return true;
                }
            }
            core = core + 1;
        }
        false
    }
}

/// The straddling pairs `(published[i], published[k])`, `i < k < j`.
pub open spec fn spec_pairs_with(views: Seq<ClusterView>, published: Seq<usize>, i: int, j: int) -> Seq<(usize, usize)>
    decreases j - i,
{
    if j <= i + 1 {
        seq![]
    } else {
        let prev = spec_pairs_with(views, published, i, j - 1);
        if spec_straddle(views, published[i] as int, published[j - 1] as int) {
            prev.push((published[i], published[j - 1]))
        } else {
            prev
        }
    }
}

/// Every straddling pair among the first `i` published positions and their
/// later positions, in scan order.
pub open spec fn spec_straddling_pairs(views: Seq<ClusterView>, published: Seq<usize>, i: int) -> Seq<(usize, usize)>
    decreases i,
{
    if i <= 0 {
        seq![]
    } else {
        spec_straddling_pairs(views, published, i - 1) + spec_pairs_with(views, published, i - 1, published.len() as int)
    }
}

proof fn lemma_no_pairs_no_straddle(views: Seq<ClusterView>, published: Seq<usize>, i: int)
    requires
        0 <= i <= published.len(),
        spec_straddling_pairs(views, published, i).len() == 0,
    ensures
        forall|a: int, b: int| 0 <= a < i && a < b < published.len() ==>
            !spec_straddle(views, #[trigger] published[a] as int, #[trigger] published[b] as int),
    decreases i,
{
    if i > 0 {
        lemma_no_pairs_no_straddle(views, published, i - 1);
        assert forall|b: int| i - 1 < b < published.len() implies
            !spec_straddle(views, published[i - 1] as int, #[trigger] published[b] as int) by {
            lemma_no_pairs_with(views, published, i - 1, published.len() as int, b);
        }
    }
}

proof fn lemma_no_pairs_with(views: Seq<ClusterView>, published: Seq<usize>, i: int, j: int, b: int)
    requires
        0 <= i < b < j <= published.len(),
        spec_pairs_with(views, published, i, j).len() == 0,
    ensures
        !spec_straddle(views, published[i] as int, published[b] as int),
    decreases j,
{
    if b < j - 1 {
        lemma_no_pairs_with(views, published, i, j - 1, b);
    }
}

proof fn lemma_pairs_are_straddles(views: Seq<ClusterView>, published: Seq<usize>, i: int)
    requires
        0 <= i <= published.len(),
    ensures
        forall|k: int| 0 <= k < spec_straddling_pairs(views, published, i).len() ==> ({
            let pair = #[trigger] spec_straddling_pairs(views, published, i)[k];
            published.contains(pair.0) && published.contains(pair.1) && spec_straddle(views, pair.0 as int, pair.1 as int)
        }),
    decreases i,
{
    if i > 0 {
        lemma_pairs_are_straddles(views, published, i - 1);
        lemma_pairs_with_are_straddles(views, published, i - 1, published.len() as int);
        let prev = spec_straddling_pairs(views, published, i - 1);
        let more = spec_pairs_with(views, published, i - 1, published.len() as int);
        assert forall|k: int| 0 <= k < (prev + more).len() implies ({
            let pair = #[trigger] (prev + more)[k];
            published.contains(pair.0) && published.contains(pair.1) && spec_straddle(views, pair.0 as int, pair.1 as int)
        }) by {
            if k < prev.len() {
                assert((prev + more)[k] == prev[k]);
            } else {
                assert((prev + more)[k] == more[k - prev.len()]);
            }
        }
    }
}

proof fn lemma_pairs_with_are_straddles(views: Seq<ClusterView>, published: Seq<usize>, i: int, j: int)
    requires
        0 <= i < published.len(),
        j <= published.len(),
    ensures
        forall|k: int| 0 <= k < spec_pairs_with(views, published, i, j).len() ==> ({
            let pair = #[trigger] spec_pairs_with(views, published, i, j)[k];
            published.contains(pair.0) && published.contains(pair.1) && spec_straddle(views, pair.0 as int, pair.1 as int)
        }),
    decreases j,
{
    if j > i + 1 {
        lemma_pairs_with_are_straddles(views, published, i, j - 1);
        let prev = spec_pairs_with(views, published, i, j - 1);
        if spec_straddle(views, published[i] as int, published[j - 1] as int) {
            assert forall|k: int| 0 <= k < prev.push((published[i], published[j - 1])).len() implies ({
                let pair = #[trigger] prev.push((published[i], published[j - 1]))[k];
                published.contains(pair.0) && published.contains(pair.1) && spec_straddle(views, pair.0 as int, pair.1 as int)
            }) by {
                if k == prev.len() {
                    assert(published[i] == published[i]);
                    assert(published[j - 1] == published[j - 1]);
                } else {
                    assert(prev.push((published[i], published[j - 1]))[k] == prev[k]);
                }
            }
        }
    }
}

/// Every pair of published views that straddles a third view, in rank order.
pub fn straddling_pairs(region: &Region, clusters: &[Cluster], published: &Vec<usize>) -> (pairs: Vec<(usize, usize)>)
    requires
        region_wf(*region, clusters@),
        forall|i: int| 0 <= i < published@.len() ==> #[trigger] published@[i] < region.views@.len(),
    ensures
        pairs@ == spec_straddling_pairs(region_views(clusters@, region.views@), published@, published@.len() as int),
{
    let ghost rv = region_views(clusters@, region.views@);
    let mut pairs: Vec<(usize, usize)> = Vec::new();
    let mut position: usize = 0;
    while position < published.len()
        invariant
            position <= published@.len(),
            region_wf(*region, clusters@),
            rv == region_views(clusters@, region.views@),
            forall|i: int| 0 <= i < published@.len() ==> #[trigger] published@[i] < region.views@.len(),
            pairs@ == spec_straddling_pairs(rv, published@, position as int),
        decreases published@.len() - position,
    {
        let ghost before = pairs@;
        let first = published[position];
        let mut later: usize = position + 1;
        while later < published.len()
            invariant
                position < later <= published@.len(),
                region_wf(*region, clusters@),
                rv == region_views(clusters@, region.views@),
                forall|i: int| 0 <= i < published@.len() ==> #[trigger] published@[i] < region.views@.len(),
                first == published@[position as int],
                pairs@ == before + spec_pairs_with(rv, published@, position as int, later as int),
            decreases published@.len() - later,
        {
            let second = published[later];
            if region.straddle(clusters, first, second) {
                pairs.push((first, second));
            }
            assert(pairs@ =~= before + spec_pairs_with(rv, published@, position as int, later as int + 1));
            later = later + 1;
        }
        position = position + 1;
    }
    pairs
}

/// Removes both straddlers for good; the nested view is the finding.
pub fn remove_straddlers(straddled: &mut Vec<bool>, first: usize, second: usize)
    requires
        first < old(straddled)@.len(),
        second < old(straddled)@.len(),
    ensures
        final(straddled)@ == old(straddled)@.update(first as int, true).update(second as int, true),
{
    straddled.set(first, true);
    straddled.set(second, true);
}

/// Marks both views of every pair among the first `m` straddled.
pub open spec fn spec_mark(straddled: Seq<bool>, pairs: Seq<(usize, usize)>, m: int) -> Seq<bool>
    decreases m,
{
    if m <= 0 {
        straddled
    } else {
        spec_mark(straddled, pairs, m - 1).update(pairs[m - 1].0 as int, true).update(pairs[m - 1].1 as int, true)
    }
}

/// The published positions once no two of them straddle a third view:
/// each round finds the kernel, and if straddling pairs remain, removes
/// them for good and finds it again (at most `fuel` rounds).
#[verifier::opaque]
pub open spec fn spec_resolve(views: Seq<ClusterView>, straddled: Seq<bool>, fuel: nat) -> Seq<usize>
    decreases fuel,
{
    let published = spec_kernel(views, straddled);
    let pairs = spec_straddling_pairs(views, published, published.len() as int);
    if fuel == 0 || pairs.len() == 0 {
        published
    } else {
        spec_resolve(views, spec_mark(straddled, pairs, pairs.len() as int), (fuel - 1) as nat)
    }
}

/// How many of the first `k` views are still in play.
pub open spec fn spec_count_open(straddled: Seq<bool>, k: int) -> nat
    decreases k,
{
    if k <= 0 {
        0
    } else {
        spec_count_open(straddled, k - 1) + if !straddled[k - 1] { 1nat } else { 0nat }
    }
}

proof fn lemma_count_open_bounded(straddled: Seq<bool>, k: int)
    requires
        0 <= k,
    ensures
        spec_count_open(straddled, k) <= k,
    decreases k,
{
    if k > 0 {
        lemma_count_open_bounded(straddled, k - 1);
    }
}

proof fn lemma_count_open_drops(before: Seq<bool>, after: Seq<bool>, v: int, k: int)
    requires
        before.len() == after.len(),
        0 <= v < before.len(),
        !before[v],
        after[v],
        forall|u: int| 0 <= u < before.len() && #[trigger] before[u] ==> after[u],
        0 <= k <= before.len(),
    ensures
        spec_count_open(after, k) <= spec_count_open(before, k),
        k > v ==> spec_count_open(after, k) + 1 <= spec_count_open(before, k),
    decreases k,
{
    if k > 0 {
        lemma_count_open_drops(before, after, v, k - 1);
    }
}

/// One round that removes straddlers keeps the resolution and its fuel.
proof fn lemma_resolve_step(
    views: Seq<ClusterView>,
    initial: Seq<bool>,
    before: Seq<bool>,
    after: Seq<bool>,
    published: Seq<usize>,
    pairs: Seq<(usize, usize)>,
    fuel: nat,
    n: nat,
)
    requires
        before.len() == n,
        after.len() == n,
        published == spec_kernel(views, before),
        pairs == spec_straddling_pairs(views, published, published.len() as int),
        pairs.len() > 0,
        after == spec_mark(before, pairs, pairs.len() as int),
        spec_resolve(views, before, fuel) == spec_resolve(views, initial, (n + 1) as nat),
        fuel >= spec_count_open(before, n as int) + 1,
        forall|u: int| 0 <= u < n && #[trigger] before[u] ==> after[u],
        0 <= pairs[0].0 < n,
        !before[pairs[0].0 as int],
        after[pairs[0].0 as int],
    ensures
        fuel >= 1,
        spec_resolve(views, after, (fuel - 1) as nat) == spec_resolve(views, initial, (n + 1) as nat),
        (fuel - 1) as nat >= spec_count_open(after, n as int) + 1,
{
    reveal(spec_resolve);
    lemma_count_open_drops(before, after, pairs[0].0 as int, n as int);
    lemma_count_open_bounded(after, n as int);
}

/// One straddle round: the kernel without the straddled views, and, when
/// straddling pairs remain among it, every such pair removed for good.
#[verifier::spinoff_prover]
#[verifier::rlimit(80)]
fn straddle_round(region: &Region, clusters: &[Cluster], straddled: &mut Vec<bool>) -> (settled: Option<Vec<usize>>)
    requires
        region_wf(*region, clusters@),
        old(straddled)@.len() == region.views@.len(),
    ensures
        final(straddled)@.len() == old(straddled)@.len(),
        ({
            let rv = region_views(clusters@, region.views@);
            let published = spec_kernel(rv, old(straddled)@);
            let pairs = spec_straddling_pairs(rv, published, published.len() as int);
            match settled {
                Some(p) => {
                    &&& p@ == published
                    &&& pairs.len() == 0
                    &&& final(straddled)@ == old(straddled)@
                    &&& forall|i: int, j: int| 0 <= i < p@.len() && 0 <= j < p@.len() ==>
                        !spec_beats(rv, #[trigger] p@[i] as int, #[trigger] p@[j] as int)
                    &&& forall|i: int, j: int| 0 <= i < j < p@.len() ==>
                        !spec_straddle(rv, #[trigger] p@[i] as int, #[trigger] p@[j] as int)
                    &&& forall|i: int, j: int| 0 <= i < j < p@.len() ==> p@[i] < p@[j]
                    &&& forall|i: int| 0 <= i < p@.len() ==> #[trigger] p@[i] < region.views@.len()
                },
                None => {
                    &&& pairs.len() > 0
                    &&& final(straddled)@ == spec_mark(old(straddled)@, pairs, pairs.len() as int)
                    &&& forall|u: int| 0 <= u < old(straddled)@.len() && #[trigger] old(straddled)@[u] ==> final(straddled)@[u]
                    &&& 0 <= pairs[0].0 < old(straddled)@.len()
                    &&& !old(straddled)@[pairs[0].0 as int]
                    &&& final(straddled)@[pairs[0].0 as int]
                },
            }
        }),
{
    let ghost rv = region_views(clusters@, region.views@);
    let n = region.len();
    let published = kernel(region, clusters, straddled);
    let pairs = straddling_pairs(region, clusters, &published);
    if pairs.len() == 0 {
        proof {
            lemma_no_pairs_no_straddle(rv, published@, published@.len() as int);
        }
        return Some(published);
    }
    let ghost before = straddled@;
    proof {
        lemma_pairs_are_straddles(rv, published@, published@.len() as int);
        assert(published@.contains(pairs@[0].0));
        let i = choose|i: int| 0 <= i < published@.len() && #[trigger] published@[i] == pairs@[0].0;
        assert(!before[pairs@[0].0 as int]);
        assert forall|k: int| 0 <= k < pairs@.len() implies (#[trigger] pairs@[k]).0 < n && pairs@[k].1 < n by {
            let pair = pairs@[k];
            let a = choose|a: int| 0 <= a < published@.len() && #[trigger] published@[a] == pair.0;
            let b = choose|b: int| 0 <= b < published@.len() && #[trigger] published@[b] == pair.1;
        }
    }
    let mut m: usize = 0;
    while m < pairs.len()
        invariant
            m <= pairs@.len(),
            pairs@.len() > 0,
            straddled@.len() == n,
            n == before.len(),
            !before[pairs@[0].0 as int],
            forall|k: int| 0 <= k < pairs@.len() ==> (#[trigger] pairs@[k]).0 < n && pairs@[k].1 < n,
            straddled@ == spec_mark(before, pairs@, m as int),
            forall|u: int| 0 <= u < n && #[trigger] before[u] ==> straddled@[u],
            m > 0 ==> straddled@[pairs@[0].0 as int],
        decreases pairs@.len() - m,
    {
        let (first, second) = pairs[m];
        remove_straddlers(straddled, first, second);
        m = m + 1;
    }
    None
}

/// Resolves one region: the positions of its published views, in rank
/// order. No published view beats another and no two straddle a third
/// view.
pub fn resolve(region: &Region, clusters: &[Cluster]) -> (published: Vec<usize>)
    requires
        region_wf(*region, clusters@),
    ensures
        published@ == spec_resolve(
            region_views(clusters@, region.views@),
            Seq::new(region.views@.len(), |v: int| false),
            (region.views@.len() + 1) as nat,
        ),
        forall|i: int, j: int| 0 <= i < published@.len() && 0 <= j < published@.len() ==>
            !spec_beats(region_views(clusters@, region.views@), #[trigger] published@[i] as int, #[trigger] published@[j] as int),
        forall|i: int, j: int| 0 <= i < j < published@.len() ==>
            !spec_straddle(region_views(clusters@, region.views@), #[trigger] published@[i] as int, #[trigger] published@[j] as int),
        forall|i: int, j: int| 0 <= i < j < published@.len() ==> published@[i] < published@[j],
        forall|i: int| 0 <= i < published@.len() ==> #[trigger] published@[i] < region.views@.len(),
{
    let ghost rv = region_views(clusters@, region.views@);
    let n = region.len();
    let mut straddled: Vec<bool> = Vec::new();
    let mut k: usize = 0;
    while k < n
        invariant
            k <= n,
            straddled@ == Seq::new(k as nat, |v: int| false),
        decreases n - k,
    {
        straddled.push(false);
        assert(straddled@ =~= Seq::new(k as nat + 1, |v: int| false));
        k = k + 1;
    }
    let ghost initial = straddled@;
    let ghost mut fuel: nat = (n + 1) as nat;
    proof {
        lemma_count_open_bounded(initial, n as int);
    }
    loop
        invariant
            n == region.views@.len(),
            region_wf(*region, clusters@),
            rv == region_views(clusters@, region.views@),
            initial == Seq::new(n as nat, |v: int| false),
            straddled@.len() == n,
            spec_resolve(rv, straddled@, fuel) == spec_resolve(rv, initial, (n + 1) as nat),
            fuel >= spec_count_open(straddled@, n as int) + 1,
        decreases fuel,
    {
        let ghost before = straddled@;
        match straddle_round(region, clusters, &mut straddled) {
            Some(published) => {
                proof {
                    reveal(spec_resolve);
                }
                return published;
            },
            None => {
                proof {
                    let published = spec_kernel(rv, before);
                    let pairs = spec_straddling_pairs(rv, published, published.len() as int);
                    lemma_resolve_step(rv, initial, before, straddled@, published, pairs, fuel, n as nat);
                    fuel = (fuel - 1) as nat;
                }
            },
        }
    }
}

} // verus!
