//! Materialises admitted and informational groups into reportable,
//! ranked clusters.

use vstd::prelude::*;

pub mod identity;
pub mod exact_runs;
pub mod scope;
pub mod matched;
pub mod election;
pub mod subsume;
pub mod signals;
pub mod benchmark;
pub mod ranking;

use crate::ast::{fingerprints_view, Fingerprint, FingerprintView, NormalizedNode};
use crate::buckets::grouping::KindGroup;
use crate::buckets::{spec_is_clone, ClusterKind};
use crate::pair::FusedCluster;
use election::{collapse_overlapping_per_file, context_of, spec_collapse};
use exact_runs::{coalesce_exact_runs, spec_coalesce, SourceFile};
use identity::{
    draft_sources, drafts_view, name_clusters, spec_cluster_id, spec_id_input, spec_is_short_id, spec_named, spec_ordinal, FilePath, Unnamed,
    UnnamedView,
};
use scope::{DeclarationScopes, FileLanguage};
use subsume::{clusters_view, collapse_cross_cluster_overlap, copy_cluster, spec_collapse_cross, spec_file_set_groups, spec_kept, spec_publish_groups};
use subsume::survivor::spec_chars_order;

verus! {

/// Source occurrences with an established clone or informational relation.
pub struct Cluster {
    /// Names this finding and no other: the first eight bytes, in hex, of
    /// the digest over the members' shape, their paths and the cluster's
    /// rank among the clusters sharing both.
    pub id: String,
    /// Members of the cluster, in discovery order.
    pub members: Vec<Fingerprint>,
    /// Duplicated mass. Higher means more code to fix.
    pub mass: u64,
    /// The weakest pair classification between the canonical member and
    /// any other.
    pub kind: ClusterKind,
    /// The shape family this cluster was admitted out of.
    pub shape_family: Option<usize>,
}

/// The model of a [`Cluster`].
pub struct ClusterView {
    /// The id's characters.
    pub id: Seq<char>,
    /// The members' models.
    pub members: Seq<FingerprintView>,
    /// Duplicated mass.
    pub mass: u64,
    /// The clone kind.
    pub kind: ClusterKind,
    /// The shape family.
    pub shape_family: Option<usize>,
}

impl View for Cluster {
    type V = ClusterView;

    open spec fn view(&self) -> ClusterView {
        ClusterView {
            id: self.id@,
            members: fingerprints_view(self.members@),
            mass: self.mass,
            kind: self.kind,
            shape_family: self.shape_family,
        }
    }
}

/// Duplicated mass: `nodes × max(occurrences − 1, 0)` for a clone kind,
/// saturating at `u64::MAX`; a shape-only kind duplicates nothing.
pub open spec fn spec_duplicate_mass(kind: ClusterKind, nodes: nat, occurrences: nat) -> u64 {
    if !spec_is_clone(kind) {
        0
    } else {
        let copies: nat = if occurrences == 0 { 0 } else { (occurrences - 1) as nat };
        if nodes * copies > u64::MAX { u64::MAX } else { (nodes * copies) as u64 }
    }
}

/// The duplicated mass of a cluster whose canonical member holds
/// `canonical_node_count` nodes and which shows `visible_occurrences` copies.
pub fn duplicate_mass(kind: ClusterKind, canonical_node_count: usize, visible_occurrences: usize) -> (mass: u64)
    ensures
        mass == spec_duplicate_mass(kind, canonical_node_count as nat, visible_occurrences as nat),
{
    if !kind.is_clone() {
        return 0;
    }
    let nodes = canonical_node_count as u64;
    let copies = visible_occurrences.saturating_sub(1) as u64;
    match nodes.checked_mul(copies) {
        Some(product) => product,
        None => u64::MAX,
    }
}


/// Minimum number of logical locations a reportable duplicate cluster
/// keeps after same-file overlap collapse.
pub const MIN_REPORTABLE_MEMBERS: usize = 2;

/// Node floor at which an enclosed family has the standing of copied
/// blocks rather than idiom lines.
pub const VERBATIM_OVERTURN_MIN_NODES: usize = 16;

/// Names the clone kind of one reportable cluster from its members'
/// corpus indices, canonical member first. The session implements it over
/// the pair measurement; the build stays ignorant of how a kind is measured.
pub trait ClusterKindJudge {
    /// The weakest relation between `members[0]` and every other member.
    fn kind(&self, members: &[usize]) -> Option<ClusterKind>;

    /// Separates unrelated members before counting or ranking: by default,
    /// all members in one group of the judged kind, or none.
    fn groups(&self, members: &[usize]) -> (groups: Vec<KindGroup>)
        default_ensures
            groups@.len() <= 1,
            forall|i: int| 0 <= i < groups@.len() ==> (#[trigger] groups@[i]).0@ == members@,
    {
        match self.kind(members) {
            Some(kind) => {
                let mut all: Vec<usize> = Vec::new();
                let mut index: usize = 0;
                while index < members.len()
                    invariant
                        index <= members@.len(),
                        all@ == members@.take(index as int),
                    decreases members@.len() - index,
                {
                    all.push(members[index]);
                    index = index + 1;
                    assert(all@ =~= members@.take(index as int));
                }
                assert(all@ =~= members@);
                let groups = vec![(all, kind)];
                assert(groups@[0].0@ == members@);
                groups
            },
            None => Vec::new(),
        }
    }
}

/// Inputs to [`build_ranked_fused_clusters`].
pub struct ClusterBuildInputs<'a, J: ClusterKindJudge> {
    /// Every live fingerprint, flat, in corpus order.
    pub fingerprints: &'a [Fingerprint],
    /// Transitive-closure components to rehydrate.
    pub fused_clusters: &'a [FusedCluster],
    /// Normalised trees the fingerprints walk.
    pub trees: &'a [NormalizedNode],
    /// Source bytes that verify the complete extent of joined exact windows.
    pub sources: &'a [SourceFile],
    /// The language of each file, for declaration-scope matching.
    pub file_languages: &'a [FileLanguage],
    /// The workspace-relative path of each file, which cluster ids digest.
    pub file_paths: &'a [FilePath],
    /// Names each reportable cluster's clone kind.
    pub kinds: &'a J,
    /// The pair stage's shared-subtree node floor, below which a window
    /// around an authored function is that function plus scraps.
    pub rescue_floor: usize,
}

/// The smallest node count among `members`; 0 for none.
pub open spec fn spec_smallest_node_count(members: Seq<FingerprintView>) -> nat
    decreases members.len(),
{
    if members.len() == 0 {
        0
    } else if members.len() == 1 {
        members[0].node_count as nat
    } else {
        let rest = spec_smallest_node_count(members.drop_last());
        if (members.last().node_count as nat) < rest { members.last().node_count as nat } else { rest }
    }
}

/// The smallest node count inside a reportable cluster.
pub fn smallest_node_count(members: &[Fingerprint]) -> (smallest: usize)
    ensures
        smallest == spec_smallest_node_count(fingerprints_view(members@)),
{
    let ghost all = fingerprints_view(members@);
    let mut smallest: usize = 0;
    let mut index: usize = 0;
    while index < members.len()
        invariant
            index <= members@.len(),
            all == fingerprints_view(members@),
            smallest == spec_smallest_node_count(all.take(index as int)),
        decreases members@.len() - index,
    {
        assert(all.take(index as int + 1).drop_last() =~= all.take(index as int));
        if index == 0 || members[index].node_count < smallest {
            smallest = members[index].node_count;
        }
        proof {
            if index == 0 {
                assert(all.take(1) =~= seq![members@[0]@]);
            }
        }
        index = index + 1;
    }
    assert(all.take(members@.len() as int) =~= all);
    smallest
}

/// The unnamed cluster of already-filtered members.
pub open spec fn spec_materialize(members: Seq<FingerprintView>, kind: ClusterKind, shape_family: Option<usize>) -> UnnamedView {
    UnnamedView {
        members,
        kind,
        mass: spec_duplicate_mass(kind, spec_smallest_node_count(members), members.len()),
        shape_family,
    }
}

/// Builds the reportable cluster from already-filtered members, still
/// unnamed: its id waits on the whole set.
pub fn materialize_cluster(members: Vec<Fingerprint>, kind: ClusterKind, shape_family: Option<usize>) -> (draft: Unnamed)
    ensures
        draft@ == spec_materialize(fingerprints_view(members@), kind, shape_family),
{
    let size = members.len();
    let smallest_nodes = smallest_node_count(members.as_slice());
    let mass = duplicate_mass(kind, smallest_nodes, size);
    Unnamed { members, kind, mass, shape_family }
}

/// The fingerprints `indices` name, skipping indices outside the corpus.
pub open spec fn spec_pick(fingerprints: Seq<FingerprintView>, indices: Seq<usize>) -> Seq<FingerprintView>
    decreases indices.len(),
{
    if indices.len() == 0 {
        seq![]
    } else {
        let rest = spec_pick(fingerprints, indices.drop_last());
        if indices.last() < fingerprints.len() { rest.push(fingerprints[indices.last() as int]) } else { rest }
    }
}

/// The unnamed clusters of a component's kind groups.
pub open spec fn spec_materialize_groups(
    fingerprints: Seq<FingerprintView>,
    groups: Seq<(Seq<usize>, ClusterKind)>,
    shape_family: Option<usize>,
) -> Seq<UnnamedView> {
    groups.map_values(|group: (Seq<usize>, ClusterKind)| spec_materialize(spec_pick(fingerprints, group.0), group.1, shape_family))
}

/// The models of a list of kind groups.
pub open spec fn kind_groups_view(groups: Seq<KindGroup>) -> Seq<(Seq<usize>, ClusterKind)> {
    groups.map_values(|group: KindGroup| (group.0@, group.1))
}

/// The fingerprints `indices` name, in order.
fn pick(fingerprints: &[Fingerprint], indices: &Vec<usize>) -> (picked: Vec<Fingerprint>)
    ensures
        fingerprints_view(picked@) == spec_pick(fingerprints_view(fingerprints@), indices@),
{
    let ghost all = fingerprints_view(fingerprints@);
    let mut picked: Vec<Fingerprint> = Vec::new();
    let mut k: usize = 0;
    while k < indices.len()
        invariant
            k <= indices@.len(),
            all == fingerprints_view(fingerprints@),
            fingerprints_view(picked@) == spec_pick(all, indices@.take(k as int)),
        decreases indices@.len() - k,
    {
        assert(indices@.take(k as int + 1).drop_last() =~= indices@.take(k as int));
        let index = indices[k];
        if index < fingerprints.len() {
            let ghost before = fingerprints_view(picked@);
            picked.push(fingerprints[index]);
            assert(fingerprints_view(picked@) =~= before.push(all[index as int]));
        }
        k = k + 1;
    }
    assert(indices@.take(indices@.len() as int) =~= indices@);
    picked
}

/// Materialises each kind group of one component.
pub fn materialize_groups(fingerprints: &[Fingerprint], groups: &Vec<KindGroup>, shape_family: Option<usize>) -> (drafts: Vec<Unnamed>)
    ensures
        drafts_view(drafts@) == spec_materialize_groups(fingerprints_view(fingerprints@), kind_groups_view(groups@), shape_family),
{
    let ghost target = spec_materialize_groups(fingerprints_view(fingerprints@), kind_groups_view(groups@), shape_family);
    let mut drafts: Vec<Unnamed> = Vec::new();
    let mut g: usize = 0;
    while g < groups.len()
        invariant
            g <= groups@.len(),
            target == spec_materialize_groups(fingerprints_view(fingerprints@), kind_groups_view(groups@), shape_family),
            drafts_view(drafts@) == target.take(g as int),
        decreases groups@.len() - g,
    {
        let members = pick(fingerprints, &groups[g].0);
        let draft = materialize_cluster(members, groups[g].1, shape_family);
        let ghost before = drafts_view(drafts@);
        assert(kind_groups_view(groups@)[g as int] == (groups@[g as int].0@, groups@[g as int].1));
        assert(target[g as int] == draft@);
        drafts.push(draft);
        assert(drafts_view(drafts@) =~= before.push(draft@));
        assert(drafts_view(drafts@) =~= target.take(g as int + 1));
        g = g + 1;
    }
    assert(target.take(groups@.len() as int) =~= target);
    drafts
}

/// Rehydrates one component into its reportable clusters. Same-file
/// overlap collapse can reduce a component to one logical location; such
/// a component is an artifact, not a duplicate, and yields nothing.
/// Otherwise the judge's groups are materialised.
pub fn build_fused_cluster<J: ClusterKindJudge>(
    inputs: &ClusterBuildInputs<J>,
    fused: &FusedCluster,
    scopes: &DeclarationScopes,
) -> (drafts: Vec<Unnamed>)
    ensures
        spec_collapse(context_of(*fused, inputs.fingerprints@, *scopes, inputs.rescue_floor), fused.members@).len()
            < MIN_REPORTABLE_MEMBERS ==> drafts@.len() == 0,
        exists|groups: Seq<(Seq<usize>, ClusterKind)>|
            drafts_view(drafts@) == spec_materialize_groups(fingerprints_view(inputs.fingerprints@), groups, fused.shape_family),
{
    let occurrence_indices = collapse_overlapping_per_file(fused, inputs.fingerprints, scopes, inputs.rescue_floor);
    if occurrence_indices.len() < MIN_REPORTABLE_MEMBERS {
        let drafts: Vec<Unnamed> = Vec::new();
        assert(drafts_view(drafts@) =~= spec_materialize_groups(
            fingerprints_view(inputs.fingerprints@), Seq::<(Seq<usize>, ClusterKind)>::empty(), fused.shape_family));
        return drafts;
    }
    let groups = inputs.kinds.groups(occurrence_indices.as_slice());
    materialize_groups(inputs.fingerprints, &groups, fused.shape_family)
}


/// The drafts of the first `n` components, each materialised from the
/// kind groups `groups` names for it, in component order.
pub open spec fn spec_component_drafts(
    fingerprints: Seq<FingerprintView>,
    fused: Seq<FusedCluster>,
    groups: Seq<Seq<(Seq<usize>, ClusterKind)>>,
    n: int,
) -> Seq<UnnamedView>
    decreases n,
{
    if n <= 0 {
        seq![]
    } else {
        spec_component_drafts(fingerprints, fused, groups, n - 1)
            + spec_materialize_groups(fingerprints, groups[n - 1], fused[n - 1].shape_family)
    }
}

proof fn lemma_component_drafts_prefix(
    fingerprints: Seq<FingerprintView>,
    fused: Seq<FusedCluster>,
    groups: Seq<Seq<(Seq<usize>, ClusterKind)>>,
    longer: Seq<Seq<(Seq<usize>, ClusterKind)>>,
    n: int,
)
    requires
        0 <= n <= groups.len(),
        n <= longer.len(),
        forall|i: int| 0 <= i < n ==> groups[i] == longer[i],
    ensures
        spec_component_drafts(fingerprints, fused, groups, n) == spec_component_drafts(fingerprints, fused, longer, n),
    decreases n,
{
    if n > 0 {
        lemma_component_drafts_prefix(fingerprints, fused, groups, longer, n - 1);
    }
}

/// Whether `groups` names one list of kind groups per component, with
/// none for a component that same-file overlap collapse reduces below two
/// logical locations.
pub open spec fn spec_component_grouping(
    fingerprints: Seq<Fingerprint>,
    fused: Seq<FusedCluster>,
    scopes: DeclarationScopes,
    rescue_floor: usize,
    groups: Seq<Seq<(Seq<usize>, ClusterKind)>>,
) -> bool {
    &&& groups.len() == fused.len()
    &&& forall|c: int| 0 <= c < groups.len()
        && spec_collapse(context_of(fused[c], fingerprints, scopes, rescue_floor), fused[c].members@).len()
            < MIN_REPORTABLE_MEMBERS ==> (#[trigger] groups[c]).len() == 0
}

/// The drafts of every component under `groups`, exact runs joined.
pub open spec fn spec_coalesced_components(
    fingerprints: Seq<Fingerprint>,
    fused: Seq<FusedCluster>,
    groups: Seq<Seq<(Seq<usize>, ClusterKind)>>,
    trees: Seq<NormalizedNode>,
    sources: Seq<SourceFile>,
) -> Seq<UnnamedView> {
    spec_coalesce(
        spec_component_drafts(fingerprints_view(fingerprints), fused, groups, groups.len() as int),
        trees,
        sources,
    )
}

/// Every component's drafts, in component order: component by component,
/// the clusters of the kind groups the judge names for its collapsed
/// members, and nothing for a component that same-file overlap collapse
/// reduces below two logical locations.
fn component_drafts<J: ClusterKindJudge>(inputs: &ClusterBuildInputs<J>, scopes: &DeclarationScopes) -> (drafts: Vec<Unnamed>)
    ensures
        exists|groups: Seq<Seq<(Seq<usize>, ClusterKind)>>| {
            &&& spec_component_grouping(inputs.fingerprints@, inputs.fused_clusters@, *scopes, inputs.rescue_floor, groups)
            &&& drafts_view(drafts@) == spec_component_drafts(
                fingerprints_view(inputs.fingerprints@), inputs.fused_clusters@, groups, groups.len() as int)
        },
{
    let ghost fps = fingerprints_view(inputs.fingerprints@);
    let ghost fused = inputs.fused_clusters@;
    let ghost mut chosen: Seq<Seq<(Seq<usize>, ClusterKind)>> = Seq::empty();
    let mut drafts: Vec<Unnamed> = Vec::new();
    let mut c: usize = 0;
    assert(drafts_view(drafts@) =~= spec_component_drafts(fps, fused, chosen, 0));
    while c < inputs.fused_clusters.len()
        invariant
            c <= fused.len(),
            fps == fingerprints_view(inputs.fingerprints@),
            fused == inputs.fused_clusters@,
            chosen.len() == c,
            drafts_view(drafts@) == spec_component_drafts(fps, fused, chosen, c as int),
            forall|k: int| 0 <= k < c
                && spec_collapse(
                    context_of(fused[k], inputs.fingerprints@, *scopes, inputs.rescue_floor),
                    fused[k].members@,
                ).len() < MIN_REPORTABLE_MEMBERS ==> (#[trigger] chosen[k]).len() == 0,
        decreases inputs.fused_clusters@.len() - c,
    {
        let mut built = build_fused_cluster(inputs, &inputs.fused_clusters[c], scopes);
        let ghost before = drafts_view(drafts@);
        let ghost built_view = drafts_view(built@);
        let ghost group = choose|groups: Seq<(Seq<usize>, ClusterKind)>|
            built_view == spec_materialize_groups(fps, groups, fused[c as int].shape_family);
        drafts.append(&mut built);
        proof {
            let previous = chosen;
            chosen = chosen.push(group);
            lemma_component_drafts_prefix(fps, fused, previous, chosen, c as int);
            assert(drafts_view(drafts@) =~= before + built_view);
            assert(built_view.len() == group.len());
        }
        c = c + 1;
    }
    assert(spec_component_grouping(inputs.fingerprints@, inputs.fused_clusters@, *scopes, inputs.rescue_floor, chosen));
    drafts
}

/// Materialises every component that remains reportable, joins exact
/// runs, then names the clusters together: an id ranks a cluster among
/// the others sharing its shape and paths, which only the whole set can say.
pub fn reportable_clusters<J: ClusterKindJudge>(inputs: &ClusterBuildInputs<J>, scopes: &DeclarationScopes) -> (named: Vec<Cluster>)
    ensures
        exists|groups: Seq<Seq<(Seq<usize>, ClusterKind)>>|
            #![trigger spec_coalesced_components(inputs.fingerprints@, inputs.fused_clusters@, groups, inputs.trees@, inputs.sources@)]
        {
            let coalesced = spec_coalesced_components(inputs.fingerprints@, inputs.fused_clusters@, groups, inputs.trees@, inputs.sources@);
            &&& spec_component_grouping(inputs.fingerprints@, inputs.fused_clusters@, *scopes, inputs.rescue_floor, groups)
            &&& named@.len() == coalesced.len()
            &&& forall|i: int| 0 <= i < coalesced.len() ==> #[trigger] named@[i]@ == spec_named(coalesced, inputs.file_paths@, i)
        },
        forall|i: int| 0 <= i < named@.len() ==> spec_is_short_id(#[trigger] named@[i].id@),
{
    let drafts = component_drafts(inputs, scopes);
    let ghost draft_views = drafts_view(drafts@);
    let coalesced = coalesce_exact_runs(drafts, inputs.trees, inputs.sources);
    let named = name_clusters(coalesced, inputs.file_paths);
    proof {
        let groups = choose|groups: Seq<Seq<(Seq<usize>, ClusterKind)>>| {
            &&& spec_component_grouping(inputs.fingerprints@, inputs.fused_clusters@, *scopes, inputs.rescue_floor, groups)
            &&& draft_views == spec_component_drafts(
                fingerprints_view(inputs.fingerprints@), inputs.fused_clusters@, groups, groups.len() as int)
        };
        assert(drafts_view(coalesced@) == spec_coalesced_components(inputs.fingerprints@, inputs.fused_clusters@, groups, inputs.trees@, inputs.sources@));
        assert(drafts_view(coalesced@).len() == coalesced@.len());
    }
    named
}

/// The ranking order: heavier mass first, then the smaller id.
pub open spec fn rank_lt(a: ClusterView, b: ClusterView) -> bool {
    a.mass > b.mass || (a.mass == b.mass && spec_chars_order(a.id, b.id) == -1)
}

/// Where a stable insertion sort places `x` in `sorted`.
pub open spec fn rank_insertion_point(sorted: Seq<ClusterView>, x: ClusterView, from: int) -> int
    decreases sorted.len() - from,
{
    if from < 0 || from >= sorted.len() {
        sorted.len() as int
    } else if rank_lt(x, sorted[from]) {
        from
    } else {
        rank_insertion_point(sorted, x, from + 1)
    }
}

/// `clusters` stably sorted into ranking order.
pub open spec fn ranked(clusters: Seq<ClusterView>) -> Seq<ClusterView>
    decreases clusters.len(),
{
    if clusters.len() == 0 {
        clusters
    } else {
        let rest = ranked(clusters.drop_last());
        rest.insert(rank_insertion_point(rest, clusters.last(), 0), clusters.last())
    }
}

/// Whether `a` ranks before `b`.
fn ranks_before(a: &Cluster, b: &Cluster) -> (before: bool)
    ensures
        before == rank_lt(a@, b@),
{
    if a.mass != b.mass {
        return a.mass > b.mass;
    }
    subsume::survivor::chars_order(&a.id, &b.id) == -1
}

/// The clusters in ranking order: heavier mass first, the smaller id
/// breaking ties, equal keys in input order.
pub fn rank_clusters(clusters: &Vec<Cluster>) -> (sorted: Vec<Cluster>)
    ensures
        clusters_view(sorted@) == ranked(clusters_view(clusters@)),
{
    let ghost all = clusters_view(clusters@);
    let mut sorted: Vec<Cluster> = Vec::new();
    let mut index: usize = 0;
    while index < clusters.len()
        invariant
            index <= clusters@.len(),
            all == clusters_view(clusters@),
            clusters_view(sorted@) == ranked(all.take(index as int)),
        decreases clusters@.len() - index,
    {
        let x = &clusters[index];
        let ghost view = clusters_view(sorted@);
        let mut position: usize = 0;
        while position < sorted.len() && !ranks_before(x, &sorted[position])
            invariant
                position <= sorted@.len(),
                view == clusters_view(sorted@),
                rank_insertion_point(view, x@, 0) == rank_insertion_point(view, x@, position as int),
            decreases sorted@.len() - position,
        {
            assert(view[position as int] == sorted@[position as int]@);
            position = position + 1;
        }
        proof {
            if position < sorted@.len() {
                assert(view[position as int] == sorted@[position as int]@);
            }
        }
        assert(all.take(index as int + 1).drop_last() =~= all.take(index as int));
        assert(all.take(index as int + 1).last() == x@);
        let copy = copy_cluster(x);
        sorted.insert(position, copy);
        assert(clusters_view(sorted@) =~= view.insert(position as int, x@));
        index = index + 1;
    }
    assert(all.take(clusters@.len() as int) =~= all);
    sorted
}

/// Builds ranked clusters from the components the pair stage produced:
/// each component is rehydrated into reportable clusters, exact runs are
/// joined, every cluster is named, the list is ranked by mass and id, and
/// views that re-describe one region are collapsed.
pub fn build_ranked_fused_clusters<J: ClusterKindJudge>(inputs: &ClusterBuildInputs<J>) -> (clusters: Vec<Cluster>)
    ensures
        exists|named: Seq<Cluster>| #![trigger spec_collapse_cross(named)] clusters_view(clusters@) == spec_collapse_cross(named)
            && exists|groups: Seq<Seq<(Seq<usize>, ClusterKind)>>|
                #![trigger spec_coalesced_components(inputs.fingerprints@, inputs.fused_clusters@, groups, inputs.trees@, inputs.sources@)]
            {
                let coalesced = spec_coalesced_components(inputs.fingerprints@, inputs.fused_clusters@, groups, inputs.trees@, inputs.sources@);
                &&& exists|scopes: DeclarationScopes| #![trigger spec_component_grouping(inputs.fingerprints@, inputs.fused_clusters@, scopes, inputs.rescue_floor, groups)]
                    scopes.trees@ == inputs.trees@ && scopes.languages@ == inputs.file_languages@
                    && spec_component_grouping(inputs.fingerprints@, inputs.fused_clusters@, scopes, inputs.rescue_floor, groups)
                &&& clusters_view(named) == ranked(Seq::new(coalesced.len(), |i: int| spec_named(coalesced, inputs.file_paths@, i)))
            },
        forall|i: int| 0 <= i < clusters@.len() ==> spec_is_short_id(#[trigger] clusters@[i].id@),
{
    let scopes = DeclarationScopes::new(inputs.trees, inputs.file_languages);
    let named = reportable_clusters(inputs, &scopes);
    let sorted = rank_clusters(&named);
    let ghost sorted_clusters = sorted@;
    proof {
        let groups = choose|groups: Seq<Seq<(Seq<usize>, ClusterKind)>>|
            #![trigger spec_coalesced_components(inputs.fingerprints@, inputs.fused_clusters@, groups, inputs.trees@, inputs.sources@)]
        {
            let coalesced = spec_coalesced_components(inputs.fingerprints@, inputs.fused_clusters@, groups, inputs.trees@, inputs.sources@);
            &&& spec_component_grouping(inputs.fingerprints@, inputs.fused_clusters@, scopes, inputs.rescue_floor, groups)
            &&& named@.len() == coalesced.len()
            &&& forall|i: int| 0 <= i < coalesced.len() ==> #[trigger] named@[i]@ == spec_named(coalesced, inputs.file_paths@, i)
        };
        let coalesced = spec_coalesced_components(inputs.fingerprints@, inputs.fused_clusters@, groups, inputs.trees@, inputs.sources@);
        assert(clusters_view(named@) =~= Seq::new(coalesced.len(), |i: int| spec_named(coalesced, inputs.file_paths@, i)));
        assert forall|i: int| 0 <= i < clusters_view(named@).len() implies spec_is_short_id(#[trigger] clusters_view(named@)[i].id) by {
            assert(clusters_view(named@)[i] == named@[i]@);
        }
        lemma_ranking_keeps_short_ids(clusters_view(named@));
    }
    let published = collapse_cross_cluster_overlap(sorted);
    proof {
        let views = clusters_view(sorted_clusters);
        let groups = spec_file_set_groups(sorted_clusters, sorted_clusters.len() as int);
        let flags = spec_publish_groups(sorted_clusters, groups, Seq::new(sorted_clusters.len(), |i: int| false), groups.len() as int);
        let positions = lemma_kept_positions(views, flags, views.len() as int);
        assert(views == ranked(clusters_view(named@)));
        assert(clusters_view(published@) == spec_kept(views, flags, views.len() as int));
        assert forall|i: int| 0 <= i < published@.len() implies spec_is_short_id(#[trigger] published@[i].id@) by {
            assert(clusters_view(published@)[i] == published@[i]@);
            let p = positions[i];
            assert(0 <= p < views.len());
            assert(spec_is_short_id(ranked(clusters_view(named@))[p].id));
        }
    }
    published
}

/// Public cluster ids are distinct: two clusters one build publishes carry
/// one id only where two different drafts, of different sources or with
/// different digest inputs, digest to one short id. `named` is the build's
/// ranked list of named drafts, and what it publishes is the cross-cluster
/// collapse of that list.
pub proof fn lemma_published_ids_are_distinct(coalesced: Seq<UnnamedView>, file_paths: Seq<FilePath>, named: Seq<Cluster>, i: int, j: int)
    requires
        coalesced.len() <= u64::MAX,
        clusters_view(named) == ranked(Seq::new(coalesced.len(), |d: int| spec_named(coalesced, file_paths, d))),
        0 <= i < j < spec_collapse_cross(named).len(),
        spec_collapse_cross(named)[i].id == spec_collapse_cross(named)[j].id,
    ensures
        exists|a: int, b: int| 0 <= a < coalesced.len() && 0 <= b < coalesced.len() && a != b && #[trigger] spec_draft_ids_meet(coalesced, file_paths, a, b),
{
    let all = Seq::new(coalesced.len(), |d: int| spec_named(coalesced, file_paths, d));
    let views = clusters_view(named);
    let groups = spec_file_set_groups(named, named.len() as int);
    let flags = spec_publish_groups(named, groups, Seq::new(named.len(), |d: int| false), groups.len() as int);
    let positions = lemma_kept_positions(views, flags, views.len() as int);
    assert(spec_collapse_cross(named) == spec_kept(views, flags, views.len() as int));
    let p = positions[i];
    let q = positions[j];
    assert(p < q);
    ranking::lemma_ranking_is_a_sorted_permutation(all);
    if all.no_duplicates() {
        all.lemma_multiset_has_no_duplicates();
        views.lemma_multiset_has_no_duplicates_conv();
        assert(views[p] != views[q]);
        assert(views.contains(views[p]));
        assert(views.contains(views[q]));
        vstd::seq_lib::to_multiset_contains(views, views[p]);
        vstd::seq_lib::to_multiset_contains(all, views[p]);
        vstd::seq_lib::to_multiset_contains(views, views[q]);
        vstd::seq_lib::to_multiset_contains(all, views[q]);
        let a = choose|a: int| 0 <= a < all.len() && all[a] == views[p];
        let b = choose|b: int| 0 <= b < all.len() && all[b] == views[q];
        lemma_different_drafts_meet(coalesced, file_paths, a, b);
    } else {
        let (a, b) = choose|a: int, b: int| 0 <= a < all.len() && 0 <= b < all.len() && a != b && all[a] == all[b];
        assert(all[a].id == all[b].id);
        lemma_different_drafts_meet(coalesced, file_paths, a, b);
    }
}

/// Two drafts whose named ids meet: their sources differ or their digest
/// inputs do, and the short ids of those digests are one.
pub open spec fn spec_draft_ids_meet(coalesced: Seq<UnnamedView>, file_paths: Seq<FilePath>, a: int, b: int) -> bool {
    let sources = draft_sources(coalesced, file_paths);
    let first = spec_ordinal(coalesced, file_paths, a) as u64;
    let second = spec_ordinal(coalesced, file_paths, b) as u64;
    &&& spec_cluster_id(sources[a], first) == spec_cluster_id(sources[b], second)
    &&& (sources[a] != sources[b] || spec_id_input(sources[a], first) != spec_id_input(sources[b], second))
}

proof fn lemma_different_drafts_meet(coalesced: Seq<UnnamedView>, file_paths: Seq<FilePath>, a: int, b: int)
    requires
        coalesced.len() <= u64::MAX,
        0 <= a < coalesced.len(),
        0 <= b < coalesced.len(),
        a != b,
        spec_named(coalesced, file_paths, a).id == spec_named(coalesced, file_paths, b).id,
    ensures
        spec_draft_ids_meet(coalesced, file_paths, a, b),
{
    identity::distinct::lemma_id_inputs_are_distinct(coalesced, file_paths, a, b);
    assert(draft_sources(coalesced, file_paths)[a] == identity::spec_source(coalesced[a].members, file_paths));
    assert(draft_sources(coalesced, file_paths)[b] == identity::spec_source(coalesced[b].members, file_paths));
}

/// Where the clusters a flag list keeps sit in the list: strictly
/// increasing positions below `k`, one per kept cluster.
pub proof fn lemma_kept_positions(views: Seq<ClusterView>, flags: Seq<bool>, k: int) -> (positions: Seq<int>)
    requires
        0 <= k <= views.len(),
    ensures
        positions.len() == spec_kept(views, flags, k).len(),
        forall|t: int| 0 <= t < positions.len() ==> 0 <= #[trigger] positions[t] < k && spec_kept(views, flags, k)[t] == views[positions[t]],
        forall|t: int, u: int| 0 <= t < u < positions.len() ==> #[trigger] positions[t] < #[trigger] positions[u],
    decreases k,
{
    if k <= 0 {
        seq![]
    } else {
        let before = lemma_kept_positions(views, flags, k - 1);
        if flags[k - 1] {
            before.push(k - 1)
        } else {
            before
        }
    }
}

/// Ranking keeps every cluster it is given, so a property of every
/// cluster holds of every ranked one: here, a well-formed public id.
proof fn lemma_ranking_keeps_short_ids(clusters: Seq<ClusterView>)
    requires
        forall|i: int| 0 <= i < clusters.len() ==> spec_is_short_id(#[trigger] clusters[i].id),
    ensures
        forall|i: int| 0 <= i < ranked(clusters).len() ==> spec_is_short_id(#[trigger] ranked(clusters)[i].id),
{
    ranking::lemma_ranking_is_a_sorted_permutation(clusters);
    assert forall|i: int| 0 <= i < ranked(clusters).len() implies spec_is_short_id(#[trigger] ranked(clusters)[i].id) by {
        let x = ranked(clusters)[i];
        assert(ranked(clusters).contains(x));
        vstd::seq_lib::to_multiset_contains(ranked(clusters), x);
        vstd::seq_lib::to_multiset_contains(clusters, x);
        let j = choose|j: int| 0 <= j < clusters.len() && clusters[j] == x;
        assert(spec_is_short_id(clusters[j].id));
    }
}

} // verus!
