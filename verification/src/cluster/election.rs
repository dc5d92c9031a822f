//! The one view each file publishes for an overlapping run of its
//! occurrences.
//!
//! Decides, file by file, which of several overlapping views of one
//! region the cluster reports. Two occurrences in different files never
//! collapse, and two non-overlapping occurrences of one file both
//! survive: only a transitively overlapping chain collapses to one
//! member. Within a run the representative is chosen by authored scope
//! and matched width, never by pair grades.

use vstd::prelude::*;

use crate::ast::{fingerprints_view, ByteRange, FileId, Fingerprint, FingerprintView, NormalizedNode};
use crate::buckets::grouping::{insertion_sorted, sorted_copy};
use crate::cluster::matched::{spec_width, Width, WidthEvidence};
use crate::cluster::scope::{
    spec_aligned_function, spec_enclosing, spec_is_authored_node, DeclarationScopes, FileLanguage,
};
use crate::pair::{FusedCluster, FusedEdge};

verus! {

/// One same-file occurrence competing to represent an overlapping run.
#[derive(Clone, Copy, Debug, PartialEq, Eq, Structural)]
pub struct Occurrence {
    /// Fingerprint index, which is what the run finally publishes.
    pub index: usize,
    /// Byte range this occurrence claims.
    pub range: ByteRange,
    /// Normalised nodes the occurrence holds.
    pub nodes: usize,
    /// The authored declaration it sits strictly inside, if any.
    pub declaration: Option<ByteRange>,
    /// The occurrence is an authored function.
    pub aligned: bool,
    /// The occurrence is a node the author wrote, not a window.
    pub authored: bool,
}

/// One transitively overlapping run of same-file occurrences, reduced to
/// the reported location and the frontier the next window is tested against.
#[derive(Clone, Copy, Debug, PartialEq, Eq, Structural)]
pub struct OverlapRun {
    /// The best occurrence so far: the one the report publishes.
    pub representative: Occurrence,
    /// Highest end byte anywhere in the run.
    pub end: usize,
}

/// What the election reads off the corpus.
pub struct ElectionContext {
    /// The normalised trees.
    pub trees: Seq<NormalizedNode>,
    /// The file languages.
    pub languages: Seq<FileLanguage>,
    /// The component's admitted edges.
    pub edges: Seq<FusedEdge>,
    /// Every fingerprint.
    pub fingerprints: Seq<FingerprintView>,
    /// Nodes a window may add around an authored function and still be
    /// that function plus scraps.
    pub rescue_floor: usize,
}

/// The view facts of fingerprint `index`.
pub open spec fn spec_occurrence_of(ctx: ElectionContext, index: usize, member: FingerprintView) -> Occurrence {
    Occurrence {
        index,
        range: member.byte_range,
        nodes: member.node_count,
        declaration: spec_enclosing(ctx.trees, ctx.languages, member),
        aligned: spec_aligned_function(ctx.trees, ctx.languages, member).is_some(),
        authored: spec_is_authored_node(ctx.trees, member),
    }
}

/// One authored declaration covers both views, including a file around a function.
pub open spec fn spec_shares_declaration(mine: Occurrence, theirs: Occurrence) -> bool {
    match (mine.declaration, theirs.declaration) {
        (Some(a), Some(b)) => a == b,
        (None, Some(_)) => true,
        (_, None) => false,
    }
}

/// `window` is a window, not an authored node, around the authored
/// function `function` with fewer than `floor` nodes besides it.
pub open spec fn spec_is_scraps_around(window: Occurrence, function: Occurrence, floor: usize) -> bool {
    &&& !window.authored
    &&& function.aligned
    &&& window.range.spec_strictly_encloses(function.range)
    &&& (if window.nodes >= function.nodes { window.nodes - function.nodes } else { 0 }) < floor
}

/// Between two straddling views, the authored declaration is the finding.
pub open spec fn spec_declaration_verdict(incumbent: Occurrence, candidate: Occurrence) -> Option<bool> {
    if !incumbent.range.spec_partially_overlaps(candidate.range) {
        None
    } else if incumbent.aligned {
        Some(false)
    } else if candidate.aligned {
        Some(true)
    } else {
        None
    }
}

/// Between an authored function and a window that is the function plus
/// scraps, the function is the finding.
pub open spec fn spec_scraps_verdict(incumbent: Occurrence, candidate: Occurrence, floor: usize) -> Option<bool> {
    if spec_is_scraps_around(incumbent, candidate, floor) {
        Some(true)
    } else if spec_is_scraps_around(candidate, incumbent, floor) {
        Some(false)
    } else {
        None
    }
}

/// Inside one authored declaration the enclosing view stays.
pub open spec fn spec_scope_verdict(incumbent: Occurrence, candidate: Occurrence) -> Option<bool> {
    if incumbent.range.spec_strictly_encloses(candidate.range) && spec_shares_declaration(incumbent, candidate) {
        Some(false)
    } else {
        None
    }
}

/// A view whose width a copy matches beats one whose copies all miss it.
pub open spec fn spec_matched_verdict(incumbent: Width, candidate: Width) -> Option<bool> {
    match (incumbent, candidate) {
        (Width::Unmatched, Width::Matched) => Some(true),
        (Width::Matched, Width::Unmatched) => Some(false),
        _ => None,
    }
}

/// Whether `candidate` displaces the incumbent representative: the first
/// rule that decides, in order declaration, scraps, scope, matched width;
/// otherwise the strictly wider range.
pub open spec fn spec_displaces(ctx: ElectionContext, incumbent: Occurrence, candidate: Occurrence) -> bool {
    match spec_declaration_verdict(incumbent, candidate) {
        Some(verdict) => verdict,
        None => match spec_scraps_verdict(incumbent, candidate, ctx.rescue_floor) {
            Some(verdict) => verdict,
            None => match spec_scope_verdict(incumbent, candidate) {
                Some(verdict) => verdict,
                None => match spec_matched_verdict(
                    spec_width(ctx.trees, ctx.edges, ctx.fingerprints, incumbent.index),
                    spec_width(ctx.trees, ctx.edges, ctx.fingerprints, candidate.index),
                ) {
                    Some(verdict) => verdict,
                    None => candidate.range.spec_len() > incumbent.range.spec_len(),
                },
            },
        },
    }
}

/// A run after `candidate` joins it.
pub open spec fn spec_absorb(ctx: ElectionContext, run: OverlapRun, candidate: Occurrence) -> OverlapRun {
    OverlapRun {
        representative: if spec_displaces(ctx, run.representative, candidate) { candidate } else { run.representative },
        end: if run.end >= candidate.range.end { run.end } else { candidate.range.end },
    }
}

/// The runs of the first `k` occurrences of a sorted bucket.
pub open spec fn spec_runs(ctx: ElectionContext, occurrences: Seq<Occurrence>, k: int) -> Seq<OverlapRun>
    decreases k,
{
    if k <= 0 {
        seq![]
    } else {
        let prev = spec_runs(ctx, occurrences, k - 1);
        let candidate = occurrences[k - 1];
        if prev.len() > 0 && candidate.range.start < prev.last().end {
            prev.update(prev.len() - 1, spec_absorb(ctx, prev.last(), candidate))
        } else {
            prev.push(OverlapRun { representative: candidate, end: candidate.range.end })
        }
    }
}

/// The sweep order: ascending start, then descending end.
pub open spec fn sweep_lt(a: Occurrence, b: Occurrence) -> bool {
    a.range.start < b.range.start || (a.range.start == b.range.start && a.range.end > b.range.end)
}

/// Where a stable insertion sort places `x`: before the first later element.
pub open spec fn sweep_insertion_point(sorted: Seq<Occurrence>, x: Occurrence, from: int) -> int
    decreases sorted.len() - from,
{
    if from < 0 || from >= sorted.len() {
        sorted.len() as int
    } else if sweep_lt(x, sorted[from]) {
        from
    } else {
        sweep_insertion_point(sorted, x, from + 1)
    }
}

/// `occurrences` stably sorted into sweep order.
pub open spec fn sweep_sorted(occurrences: Seq<Occurrence>) -> Seq<Occurrence>
    decreases occurrences.len(),
{
    if occurrences.len() == 0 {
        occurrences
    } else {
        let rest = sweep_sorted(occurrences.drop_last());
        rest.insert(sweep_insertion_point(rest, occurrences.last(), 0), occurrences.last())
    }
}

/// The occurrences of file `file` among the first `k` component members,
/// in member order.
pub open spec fn spec_file_bucket(ctx: ElectionContext, members: Seq<usize>, file: FileId, k: int) -> Seq<Occurrence>
    decreases k,
{
    if k <= 0 {
        seq![]
    } else {
        let prev = spec_file_bucket(ctx, members, file, k - 1);
        let index = members[k - 1];
        if index < ctx.fingerprints.len() && ctx.fingerprints[index as int].file_id == file {
            prev.push(spec_occurrence_of(ctx, index, ctx.fingerprints[index as int]))
        } else {
            prev
        }
    }
}

/// The files of the first `k` component members, in order of first appearance.
pub open spec fn spec_file_order(ctx: ElectionContext, members: Seq<usize>, k: int) -> Seq<FileId>
    decreases k,
{
    if k <= 0 {
        seq![]
    } else {
        let prev = spec_file_order(ctx, members, k - 1);
        let index = members[k - 1];
        if index < ctx.fingerprints.len() && !prev.contains(ctx.fingerprints[index as int].file_id) {
            prev.push(ctx.fingerprints[index as int].file_id)
        } else {
            prev
        }
    }
}

/// The representatives of one file's runs, in sweep order.
pub open spec fn spec_file_representatives(ctx: ElectionContext, members: Seq<usize>, file: FileId) -> Seq<usize> {
    let bucket = sweep_sorted(spec_file_bucket(ctx, members, file, members.len() as int));
    let runs = spec_runs(ctx, bucket, bucket.len() as int);
    runs.map_values(|run: OverlapRun| run.representative.index)
}

/// The representatives of the first `f` files, concatenated.
pub open spec fn spec_all_representatives(ctx: ElectionContext, members: Seq<usize>, files: Seq<FileId>, f: int) -> Seq<usize>
    decreases f,
{
    if f <= 0 {
        seq![]
    } else {
        spec_all_representatives(ctx, members, files, f - 1) + spec_file_representatives(ctx, members, files[f - 1])
    }
}

/// The collapse's answer: every file's representatives, ascending.
pub open spec fn spec_collapse(ctx: ElectionContext, members: Seq<usize>) -> Seq<usize> {
    let files = spec_file_order(ctx, members, members.len() as int);
    insertion_sorted(spec_all_representatives(ctx, members, files, files.len() as int))
}

/// The election context of a component.
pub open spec fn context_of(
    fused: FusedCluster,
    fingerprints: Seq<Fingerprint>,
    scopes: DeclarationScopes,
    rescue_floor: usize,
) -> ElectionContext {
    ElectionContext {
        trees: scopes.trees@,
        languages: scopes.languages@,
        edges: fused.edges@,
        fingerprints: fingerprints_view(fingerprints),
        rescue_floor,
    }
}

impl Occurrence {
    /// Reads one member's view facts off the declaration scopes.
    pub fn of(index: usize, member: &Fingerprint, scopes: &DeclarationScopes) -> (occurrence: Occurrence)
        ensures
            occurrence.index == index,
            occurrence.range == member.byte_range,
            occurrence.nodes == member.node_count,
            occurrence.declaration == spec_enclosing(scopes.trees@, scopes.languages@, member@),
            occurrence.aligned == spec_aligned_function(scopes.trees@, scopes.languages@, member@).is_some(),
            occurrence.authored == spec_is_authored_node(scopes.trees@, member@),
    {
        Occurrence {
            index,
            range: member.byte_range,
            nodes: member.node_count,
            declaration: scopes.enclosing(member),
            aligned: scopes.aligned_function(member).is_some(),
            authored: scopes.is_authored_node(member),
        }
    }

    /// Whether one authored declaration covers both views.
    pub fn shares_declaration_with(&self, other: &Occurrence) -> (shares: bool)
        ensures
            shares == spec_shares_declaration(*self, *other),
    {
        match (self.declaration, other.declaration) {
            (Some(mine), Some(theirs)) => mine == theirs,
            (None, Some(_)) => true,
            (_, None) => false,
        }
    }

    /// This occurrence covers `other` and is wider on at least one side.
    pub fn encloses(&self, other: &Occurrence) -> (encloses: bool)
        ensures
            encloses == self.range.spec_strictly_encloses(other.range),
    {
        self.range.strictly_encloses(other.range)
    }

    /// This occurrence is a window around the authored function `function`
    /// with fewer than `floor` sibling nodes besides it.
    pub fn is_scraps_around(&self, function: &Occurrence, floor: usize) -> (scraps: bool)
        ensures
            scraps == spec_is_scraps_around(*self, *function, floor),
    {
        !self.authored && function.aligned && self.encloses(function)
            && self.nodes.saturating_sub(function.nodes) < floor
    }

    /// The two share bytes but neither covers the other.
    pub fn straddles(&self, other: &Occurrence) -> (straddles: bool)
        ensures
            straddles == self.range.spec_partially_overlaps(other.range),
    {
        self.range.partially_overlaps(other.range)
    }
}

impl OverlapRun {
    /// Opens a run at `first`.
    pub fn start(first: Occurrence) -> (run: OverlapRun)
        ensures
            run == (OverlapRun { representative: first, end: first.range.end }),
    {
        OverlapRun { end: first.range.end, representative: first }
    }

    /// Whether `candidate` overlaps the run; members arrive in ascending
    /// start order, so reaching past the frontier is the whole test.
    pub fn reaches(&self, candidate: ByteRange) -> (reaches: bool)
        ensures
            reaches == (candidate.start < self.end),
    {
        candidate.start < self.end
    }

    /// Inside one authored declaration the enclosing view stays.
    pub fn scope_verdict(&self, candidate: &Occurrence) -> (verdict: Option<bool>)
        ensures
            verdict == spec_scope_verdict(self.representative, *candidate),
    {
        if self.representative.encloses(candidate) && self.representative.shares_declaration_with(candidate) {
            Some(false)
        } else {
            None
        }
    }

    /// A view whose width a copy matches beats one whose copies miss it.
    pub fn matched_verdict(&self, candidate: &Occurrence, evidence: &WidthEvidence) -> (verdict: Option<bool>)
        ensures
            verdict == spec_matched_verdict(
                spec_width(evidence.scopes.trees@, evidence.edges@, fingerprints_view(evidence.fingerprints@), self.representative.index),
                spec_width(evidence.scopes.trees@, evidence.edges@, fingerprints_view(evidence.fingerprints@), candidate.index),
            ),
    {
        match (evidence.width(self.representative.index), evidence.width(candidate.index)) {
            (Width::Unmatched, Width::Matched) => Some(true),
            (Width::Matched, Width::Unmatched) => Some(false),
            _ => None,
        }
    }

    /// Between an authored function and a window that is the function
    /// plus scraps, the function is the finding.
    pub fn scraps_verdict(&self, candidate: &Occurrence, floor: usize) -> (verdict: Option<bool>)
        ensures
            verdict == spec_scraps_verdict(self.representative, *candidate, floor),
    {
        if self.representative.is_scraps_around(candidate, floor) {
            return Some(true);
        }
        if candidate.is_scraps_around(&self.representative, floor) {
            return Some(false);
        }
        None
    }

    /// Between two views that straddle each other, the one that is an
    /// authored declaration is the finding.
    pub fn declaration_verdict(&self, candidate: &Occurrence) -> (verdict: Option<bool>)
        ensures
            verdict == spec_declaration_verdict(self.representative, *candidate),
    {
        if !self.representative.straddles(candidate) {
            return None;
        }
        if self.representative.aligned {
            Some(false)
        } else if candidate.aligned {
            Some(true)
        } else {
            None
        }
    }

    /// Whether `candidate` displaces the incumbent representative.
    pub fn displaces(&self, candidate: &Occurrence, evidence: &WidthEvidence, floor: usize) -> (displaces: bool)
        ensures
            displaces == spec_displaces(
                ElectionContext {
                    trees: evidence.scopes.trees@,
                    languages: evidence.scopes.languages@,
                    edges: evidence.edges@,
                    fingerprints: fingerprints_view(evidence.fingerprints@),
                    rescue_floor: floor,
                },
                self.representative,
                *candidate,
            ),
    {
        match self.declaration_verdict(candidate) {
            Some(verdict) => verdict,
            None => match self.scraps_verdict(candidate, floor) {
                Some(verdict) => verdict,
                None => match self.scope_verdict(candidate) {
                    Some(verdict) => verdict,
                    None => match self.matched_verdict(candidate, evidence) {
                        Some(verdict) => verdict,
                        None => candidate.range.len() > self.representative.range.len(),
                    },
                },
            },
        }
    }

    /// Extends the run, promoting `candidate` when it displaces the incumbent.
    pub fn absorb(&mut self, candidate: Occurrence, evidence: &WidthEvidence, floor: usize)
        ensures
            *final(self) == spec_absorb(
                ElectionContext {
                    trees: evidence.scopes.trees@,
                    languages: evidence.scopes.languages@,
                    edges: evidence.edges@,
                    fingerprints: fingerprints_view(evidence.fingerprints@),
                    rescue_floor: floor,
                },
                *old(self),
                candidate,
            ),
    {
        let end = if self.end >= candidate.range.end { self.end } else { candidate.range.end };
        let displaced = self.displaces(&candidate, evidence, floor);
        self.end = end;
        if displaced {
            self.representative = candidate;
        }
    }
}


/// Sorts one file's occurrences into sweep order, stably.
fn sweep_sort(occurrences: Vec<Occurrence>) -> (sorted: Vec<Occurrence>)
    ensures
        sorted@ == sweep_sorted(occurrences@),
{
    let mut sorted: Vec<Occurrence> = Vec::new();
    let mut index: usize = 0;
    while index < occurrences.len()
        invariant
            index <= occurrences@.len(),
            sorted@ == sweep_sorted(occurrences@.take(index as int)),
        decreases occurrences@.len() - index,
    {
        let x = occurrences[index];
        let mut position: usize = 0;
        while position < sorted.len()
            && !(x.range.start < sorted[position].range.start
                || (x.range.start == sorted[position].range.start && x.range.end > sorted[position].range.end))
            invariant
                position <= sorted@.len(),
                sweep_insertion_point(sorted@, x, 0) == sweep_insertion_point(sorted@, x, position as int),
            decreases sorted@.len() - position,
        {
            position = position + 1;
        }
        assert(occurrences@.take(index as int + 1).drop_last() =~= occurrences@.take(index as int));
        sorted.insert(position, x);
        index = index + 1;
    }
    assert(occurrences@.take(occurrences@.len() as int) =~= occurrences@);
    sorted
}

/// Greedy sweep over one file's occurrences, in sweep order: one
/// representative per transitively overlapping run. The run's frontier is
/// tracked apart from its representative, since the window that bridges
/// two others is often narrower than both.
fn collapse_overlapping_single_file(
    bucket: Vec<Occurrence>,
    evidence: &WidthEvidence,
    floor: usize,
) -> (representatives: Vec<usize>)
    ensures
        ({
            let ctx = ElectionContext {
                trees: evidence.scopes.trees@,
                languages: evidence.scopes.languages@,
                edges: evidence.edges@,
                fingerprints: fingerprints_view(evidence.fingerprints@),
                rescue_floor: floor,
            };
            let sorted = sweep_sorted(bucket@);
            representatives@ == spec_runs(ctx, sorted, sorted.len() as int).map_values(|run: OverlapRun| run.representative.index)
        }),
{
    let ghost ctx = ElectionContext {
        trees: evidence.scopes.trees@,
        languages: evidence.scopes.languages@,
        edges: evidence.edges@,
        fingerprints: fingerprints_view(evidence.fingerprints@),
        rescue_floor: floor,
    };
    let sorted = sweep_sort(bucket);
    let mut runs: Vec<OverlapRun> = Vec::new();
    let mut index: usize = 0;
    while index < sorted.len()
        invariant
            index <= sorted@.len(),
            ctx.trees == evidence.scopes.trees@,
            ctx.languages == evidence.scopes.languages@,
            ctx.edges == evidence.edges@,
            ctx.fingerprints == fingerprints_view(evidence.fingerprints@),
            ctx.rescue_floor == floor,
            runs@ == spec_runs(ctx, sorted@, index as int),
        decreases sorted@.len() - index,
    {
        let candidate = sorted[index];
        let count = runs.len();
        if count > 0 && runs[count - 1].reaches(candidate.range) {
            let mut run = runs[count - 1];
            run.absorb(candidate, evidence, floor);
            runs.set(count - 1, run);
        } else {
            runs.push(OverlapRun::start(candidate));
        }
        index = index + 1;
    }
    let mut representatives: Vec<usize> = Vec::new();
    let mut k: usize = 0;
    while k < runs.len()
        invariant
            k <= runs@.len(),
            representatives@ == runs@.take(k as int).map_values(|run: OverlapRun| run.representative.index),
        decreases runs@.len() - k,
    {
        representatives.push(runs[k].representative.index);
        assert(representatives@ =~= runs@.take(k as int + 1).map_values(|run: OverlapRun| run.representative.index));
        k = k + 1;
    }
    assert(runs@.take(runs@.len() as int) =~= runs@);
    representatives
}

/// The component's occurrences in `file`, in member order.
fn members_by_file(
    fused: &FusedCluster,
    fingerprints: &[Fingerprint],
    scopes: &DeclarationScopes,
    file: FileId,
    floor: usize,
) -> (bucket: Vec<Occurrence>)
    ensures
        bucket@ == spec_file_bucket(context_of(*fused, fingerprints@, *scopes, floor), fused.members@, file, fused.members@.len() as int),
{
    let ghost ctx = context_of(*fused, fingerprints@, *scopes, floor);
    let mut bucket: Vec<Occurrence> = Vec::new();
    let mut k: usize = 0;
    while k < fused.members.len()
        invariant
            k <= fused.members@.len(),
            ctx == context_of(*fused, fingerprints@, *scopes, floor),
            bucket@ == spec_file_bucket(ctx, fused.members@, file, k as int),
        decreases fused.members@.len() - k,
    {
        let index = fused.members[k];
        if index < fingerprints.len() && fingerprints[index].file_id.0 == file.0 {
            let occurrence = Occurrence::of(index, &fingerprints[index], scopes);
            assert(ctx.fingerprints[index as int] == fingerprints@[index as int]@);
            assert(occurrence == spec_occurrence_of(ctx, index, ctx.fingerprints[index as int]));
            bucket.push(occurrence);
        }
        k = k + 1;
    }
    bucket
}

/// Whether `file` is among `files`.
fn has_file(files: &Vec<FileId>, file: FileId) -> (found: bool)
    ensures
        found == files@.contains(file),
{
    let mut index: usize = 0;
    while index < files.len()
        invariant
            index <= files@.len(),
            forall|j: int| 0 <= j < index ==> files@[j] != file,
        decreases files@.len() - index,
    {
        if files[index].0 == file.0 {
            return true;
        }
        index = index + 1;
    }
    false
}

/// The component's files, in order of first appearance.
fn file_order(fused: &FusedCluster, fingerprints: &[Fingerprint], scopes: &DeclarationScopes, floor: usize) -> (files: Vec<FileId>)
    ensures
        files@ == spec_file_order(context_of(*fused, fingerprints@, *scopes, floor), fused.members@, fused.members@.len() as int),
{
    let ghost ctx = context_of(*fused, fingerprints@, *scopes, floor);
    let mut files: Vec<FileId> = Vec::new();
    let mut k: usize = 0;
    while k < fused.members.len()
        invariant
            k <= fused.members@.len(),
            ctx == context_of(*fused, fingerprints@, *scopes, floor),
            files@ == spec_file_order(ctx, fused.members@, k as int),
        decreases fused.members@.len() - k,
    {
        let index = fused.members[k];
        if index < fingerprints.len() {
            assert(ctx.fingerprints[index as int] == fingerprints@[index as int]@);
            if !has_file(&files, fingerprints[index].file_id) {
                files.push(fingerprints[index].file_id);
            }
        }
        k = k + 1;
    }
    files
}

/// Collapses overlapping occurrences that live in one file into a single
/// canonical member per overlapping region, and returns the survivors'
/// corpus indices in ascending order. `rescue_floor` is the pair stage's
/// shared-subtree node floor: a window adding fewer nodes than it around
/// an authored function is that function plus scraps.
pub fn collapse_overlapping_per_file(
    fused: &FusedCluster,
    fingerprints: &[Fingerprint],
    scopes: &DeclarationScopes,
    rescue_floor: usize,
) -> (survivors: Vec<usize>)
    ensures
        survivors@ == spec_collapse(context_of(*fused, fingerprints@, *scopes, rescue_floor), fused.members@),
{
    let ghost ctx = context_of(*fused, fingerprints@, *scopes, rescue_floor);
    let evidence = WidthEvidence::new(fused, fingerprints, scopes);
    let files = file_order(fused, fingerprints, scopes, rescue_floor);
    let mut out: Vec<usize> = Vec::new();
    let mut f: usize = 0;
    while f < files.len()
        invariant
            f <= files@.len(),
            ctx == context_of(*fused, fingerprints@, *scopes, rescue_floor),
            evidence.fingerprints@ == fingerprints@,
            evidence.edges@ == fused.edges@,
            evidence.scopes == scopes,
            out@ == spec_all_representatives(ctx, fused.members@, files@, f as int),
        decreases files@.len() - f,
    {
        let bucket = members_by_file(fused, fingerprints, scopes, files[f], rescue_floor);
        let representatives = collapse_overlapping_single_file(bucket, &evidence, rescue_floor);
        let mut r: usize = 0;
        let ghost before = out@;
        while r < representatives.len()
            invariant
                r <= representatives@.len(),
                out@ == before + representatives@.take(r as int),
            decreases representatives@.len() - r,
        {
            out.push(representatives[r]);
            assert(out@ =~= before + representatives@.take(r as int + 1));
            r = r + 1;
        }
        assert(representatives@.take(representatives@.len() as int) =~= representatives@);
        f = f + 1;
    }
    sorted_copy(out.as_slice())
}


// ----- what the collapse keeps -----

proof fn lemma_insertion_point_bounded(sorted: Seq<usize>, x: usize, from: int)
    requires
        0 <= from,
    ensures
        0 <= crate::buckets::grouping::insertion_point(sorted, x, from) <= sorted.len(),
    decreases sorted.len() - from,
{
    if from < sorted.len() && !(x < sorted[from]) {
        lemma_insertion_point_bounded(sorted, x, from + 1);
    }
}

proof fn lemma_insertion_sorted_contains(s: Seq<usize>)
    ensures
        forall|y: usize| #[trigger] insertion_sorted(s).contains(y) <==> s.contains(y),
    decreases s.len(),
{
    if s.len() > 0 {
        let rest = insertion_sorted(s.drop_last());
        lemma_insertion_sorted_contains(s.drop_last());
        let p = crate::buckets::grouping::insertion_point(rest, s.last(), 0);
        lemma_insertion_point_bounded(rest, s.last(), 0);
        assert forall|y: usize| #[trigger] rest.insert(p, s.last()).contains(y) <==> s.contains(y) by {
            if y == s.last() {
                assert(rest.insert(p, s.last())[p] == y);
                assert(s[s.len() - 1] == y);
            } else {
                if rest.insert(p, s.last()).contains(y) {
                    let i = choose|i: int| 0 <= i < rest.insert(p, s.last()).len() && #[trigger] rest.insert(p, s.last())[i] == y;
                    if i < p {
                        assert(rest[i] == y);
                    } else {
                        assert(rest[i - 1] == y);
                    }
                    assert(rest.contains(y));
                    let k = choose|k: int| 0 <= k < s.drop_last().len() && #[trigger] s.drop_last()[k] == y;
                    assert(s[k] == y);
                }
                if s.contains(y) {
                    let k = choose|k: int| 0 <= k < s.len() && #[trigger] s[k] == y;
                    assert(k < s.len() - 1);
                    assert(s.drop_last()[k] == y);
                    assert(rest.contains(y));
                    let i = choose|i: int| 0 <= i < rest.len() && #[trigger] rest[i] == y;
                    if i < p {
                        assert(rest.insert(p, s.last())[i] == y);
                    } else {
                        assert(rest.insert(p, s.last())[i + 1] == y);
                    }
                }
            }
        }
    }
}

proof fn lemma_sweep_point_bounded(sorted: Seq<Occurrence>, x: Occurrence, from: int)
    requires
        0 <= from,
    ensures
        0 <= sweep_insertion_point(sorted, x, from) <= sorted.len(),
    decreases sorted.len() - from,
{
    if from < sorted.len() && !sweep_lt(x, sorted[from]) {
        lemma_sweep_point_bounded(sorted, x, from + 1);
    }
}

proof fn lemma_sweep_sorted_contains(s: Seq<Occurrence>)
    ensures
        forall|y: Occurrence| #[trigger] sweep_sorted(s).contains(y) <==> s.contains(y),
        sweep_sorted(s).len() == s.len(),
    decreases s.len(),
{
    if s.len() > 0 {
        let rest = sweep_sorted(s.drop_last());
        lemma_sweep_sorted_contains(s.drop_last());
        let p = sweep_insertion_point(rest, s.last(), 0);
        lemma_sweep_point_bounded(rest, s.last(), 0);
        let next = rest.insert(p, s.last());
        assert forall|y: Occurrence| #[trigger] next.contains(y) <==> s.contains(y) by {
            if y == s.last() {
                assert(next[p] == y);
                assert(s[s.len() - 1] == y);
            } else {
                if next.contains(y) {
                    let i = choose|i: int| 0 <= i < next.len() && #[trigger] next[i] == y;
                    if i < p {
                        assert(rest[i] == y);
                    } else {
                        assert(rest[i - 1] == y);
                    }
                    assert(rest.contains(y));
                    let k = choose|k: int| 0 <= k < s.drop_last().len() && #[trigger] s.drop_last()[k] == y;
                    assert(s[k] == y);
                }
                if s.contains(y) {
                    let k = choose|k: int| 0 <= k < s.len() && #[trigger] s[k] == y;
                    assert(k < s.len() - 1);
                    assert(s.drop_last()[k] == y);
                    assert(rest.contains(y));
                    let i = choose|i: int| 0 <= i < rest.len() && #[trigger] rest[i] == y;
                    if i < p {
                        assert(next[i] == y);
                    } else {
                        assert(next[i + 1] == y);
                    }
                }
            }
        }
    }
}

proof fn lemma_runs_representatives(ctx: ElectionContext, occurrences: Seq<Occurrence>, k: int)
    requires
        0 <= k <= occurrences.len(),
    ensures
        forall|r: int| 0 <= r < spec_runs(ctx, occurrences, k).len() ==>
            occurrences.take(k).contains(#[trigger] spec_runs(ctx, occurrences, k)[r].representative),
        k > 0 ==> spec_runs(ctx, occurrences, k).len() > 0,
    decreases k,
{
    if k > 0 {
        lemma_runs_representatives(ctx, occurrences, k - 1);
        let prev = spec_runs(ctx, occurrences, k - 1);
        let candidate = occurrences[k - 1];
        assert(occurrences.take(k)[k - 1] == candidate);
        assert forall|x: Occurrence| occurrences.take(k - 1).contains(x) implies occurrences.take(k).contains(x) by {
            let i = choose|i: int| 0 <= i < k - 1 && #[trigger] occurrences.take(k - 1)[i] == x;
            assert(occurrences.take(k)[i] == x);
        }
        let runs = spec_runs(ctx, occurrences, k);
        assert forall|r: int| 0 <= r < runs.len() implies occurrences.take(k).contains(#[trigger] runs[r].representative) by {
            if r < prev.len() && !(prev.len() > 0 && candidate.range.start < prev.last().end && r == prev.len() - 1) {
                assert(runs[r] == prev[r]);
            } else {
                assert(runs[r].representative == candidate || runs[r].representative == prev[r].representative);
            }
        }
    }
}

proof fn lemma_bucket_members(ctx: ElectionContext, members: Seq<usize>, file: FileId, k: int)
    requires
        0 <= k <= members.len(),
    ensures
        forall|o: Occurrence| #[trigger] spec_file_bucket(ctx, members, file, k).contains(o) ==>
            members.contains(o.index) && o.index < ctx.fingerprints.len() && ctx.fingerprints[o.index as int].file_id == file,
        forall|j: int| 0 <= j < k && members[j] < ctx.fingerprints.len() && ctx.fingerprints[members[j] as int].file_id == file ==>
            spec_file_bucket(ctx, members, file, k).len() > 0,
    decreases k,
{
    if k > 0 {
        lemma_bucket_members(ctx, members, file, k - 1);
        let prev = spec_file_bucket(ctx, members, file, k - 1);
        let index = members[k - 1];
        if index < ctx.fingerprints.len() && ctx.fingerprints[index as int].file_id == file {
            let o = spec_occurrence_of(ctx, index, ctx.fingerprints[index as int]);
            assert forall|x: Occurrence| #[trigger] prev.push(o).contains(x) implies
                members.contains(x.index) && x.index < ctx.fingerprints.len() && ctx.fingerprints[x.index as int].file_id == file by {
                let i = choose|i: int| 0 <= i < prev.push(o).len() && #[trigger] prev.push(o)[i] == x;
                if i < prev.len() {
                    assert(prev[i] == x);
                    assert(prev.contains(x));
                } else {
                    assert(members[k - 1] == x.index);
                }
            }
        }
    }
}

proof fn lemma_file_order_covers(ctx: ElectionContext, members: Seq<usize>, k: int)
    requires
        0 <= k <= members.len(),
    ensures
        forall|j: int| 0 <= j < k && members[j] < ctx.fingerprints.len() ==>
            #[trigger] spec_file_order(ctx, members, k).contains(ctx.fingerprints[members[j] as int].file_id),
    decreases k,
{
    if k > 0 {
        lemma_file_order_covers(ctx, members, k - 1);
        let prev = spec_file_order(ctx, members, k - 1);
        let now = spec_file_order(ctx, members, k);
        let index = members[k - 1];
        assert forall|x: FileId| prev.contains(x) implies now.contains(x) by {
            let i = choose|i: int| 0 <= i < prev.len() && #[trigger] prev[i] == x;
            if now != prev {
                assert(now[i] == prev[i]);
            }
        }
        if index < ctx.fingerprints.len() {
            let file = ctx.fingerprints[index as int].file_id;
            if !prev.contains(file) {
                assert(now[prev.len() as int] == file);
            }
            assert(now.contains(file));
        }
        assert forall|j: int| 0 <= j < k && members[j] < ctx.fingerprints.len() implies
            #[trigger] now.contains(ctx.fingerprints[members[j] as int].file_id) by {
            if j < k - 1 {
                assert(prev.contains(ctx.fingerprints[members[j] as int].file_id));
            }
        }
    }
}

proof fn lemma_file_representatives(ctx: ElectionContext, members: Seq<usize>, file: FileId)
    ensures
        forall|r: usize| #[trigger] spec_file_representatives(ctx, members, file).contains(r) ==>
            members.contains(r) && r < ctx.fingerprints.len() && ctx.fingerprints[r as int].file_id == file,
        (exists|j: int| 0 <= j < members.len() && members[j] < ctx.fingerprints.len()
            && ctx.fingerprints[members[j] as int].file_id == file) ==> spec_file_representatives(ctx, members, file).len() > 0,
{
    let bucket = spec_file_bucket(ctx, members, file, members.len() as int);
    let sorted = sweep_sorted(bucket);
    let runs = spec_runs(ctx, sorted, sorted.len() as int);
    lemma_bucket_members(ctx, members, file, members.len() as int);
    lemma_sweep_sorted_contains(bucket);
    lemma_runs_representatives(ctx, sorted, sorted.len() as int);
    assert(sorted.take(sorted.len() as int) =~= sorted);
    let reps = runs.map_values(|run: OverlapRun| run.representative.index);
    assert forall|r: usize| #[trigger] reps.contains(r) implies
        members.contains(r) && r < ctx.fingerprints.len() && ctx.fingerprints[r as int].file_id == file by {
        let i = choose|i: int| 0 <= i < reps.len() && #[trigger] reps[i] == r;
        let o = runs[i].representative;
        assert(sorted.contains(o));
        assert(bucket.contains(o));
    }
}

/// What the collapse keeps: only members of the component, and, for every
/// file the component reaches, at least one of that file's members. Two
/// occurrences in different files never collapse into one.
pub proof fn lemma_collapse_keeps_every_file(ctx: ElectionContext, members: Seq<usize>)
    ensures
        forall|r: usize| #[trigger] spec_collapse(ctx, members).contains(r) ==>
            members.contains(r) && r < ctx.fingerprints.len(),
        forall|j: int| 0 <= j < members.len() && #[trigger] members[j] < ctx.fingerprints.len() ==>
            exists|r: usize| spec_collapse(ctx, members).contains(r)
                && ctx.fingerprints[r as int].file_id == ctx.fingerprints[members[j] as int].file_id,
{
    let files = spec_file_order(ctx, members, members.len() as int);
    lemma_file_order_covers(ctx, members, members.len() as int);
    lemma_all_representatives(ctx, members, files, files.len() as int);
    let all = spec_all_representatives(ctx, members, files, files.len() as int);
    lemma_insertion_sorted_contains(all);
    assert forall|j: int| 0 <= j < members.len() && #[trigger] members[j] < ctx.fingerprints.len() implies
        exists|r: usize| spec_collapse(ctx, members).contains(r)
            && ctx.fingerprints[r as int].file_id == ctx.fingerprints[members[j] as int].file_id by {
        let file = ctx.fingerprints[members[j] as int].file_id;
        assert(files.contains(file));
        let g = choose|g: int| 0 <= g < files.len() && #[trigger] files[g] == file;
        lemma_file_representatives(ctx, members, file);
        let reps = spec_file_representatives(ctx, members, file);
        assert(reps.len() > 0);
        assert(reps.contains(reps[0]));
        assert(all.contains(reps[0]));
        assert(insertion_sorted(all).contains(reps[0]));
        assert(spec_collapse(ctx, members).contains(reps[0]));
        assert(ctx.fingerprints[reps[0] as int].file_id == file);
    }
}

proof fn lemma_all_representatives(ctx: ElectionContext, members: Seq<usize>, files: Seq<FileId>, f: int)
    requires
        0 <= f <= files.len(),
    ensures
        forall|r: usize| #[trigger] spec_all_representatives(ctx, members, files, f).contains(r) ==>
            members.contains(r) && r < ctx.fingerprints.len(),
        forall|g: int, r: usize| 0 <= g < f && #[trigger] spec_file_representatives(ctx, members, files[g]).contains(r) ==>
            spec_all_representatives(ctx, members, files, f).contains(r),
    decreases f,
{
    if f > 0 {
        lemma_all_representatives(ctx, members, files, f - 1);
        let prev = spec_all_representatives(ctx, members, files, f - 1);
        let last = spec_file_representatives(ctx, members, files[f - 1]);
        lemma_file_representatives(ctx, members, files[f - 1]);
        assert forall|r: usize| #[trigger] (prev + last).contains(r) implies members.contains(r) && r < ctx.fingerprints.len() by {
            let i = choose|i: int| 0 <= i < (prev + last).len() && #[trigger] (prev + last)[i] == r;
            if i < prev.len() {
                assert(prev[i] == r);
                assert(prev.contains(r));
            } else {
                assert(last[i - prev.len()] == r);
                assert(last.contains(r));
            }
        }
        assert forall|g: int, r: usize| 0 <= g < f && #[trigger] spec_file_representatives(ctx, members, files[g]).contains(r) implies
            (prev + last).contains(r) by {
            if g < f - 1 {
                assert(prev.contains(r));
                let i = choose|i: int| 0 <= i < prev.len() && #[trigger] prev[i] == r;
                assert((prev + last)[i] == r);
            } else {
                let i = choose|i: int| 0 <= i < last.len() && #[trigger] last[i] == r;
                assert((prev + last)[prev.len() + i] == r);
            }
        }
    }
}

} // verus!
