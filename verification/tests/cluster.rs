use deslop_core::ast::{ByteRange, FileId, Fingerprint, NormalizedNode};
use deslop_core::buckets::ClusterKind;
use deslop_core::cluster::election::collapse_overlapping_per_file;
use deslop_core::cluster::exact_runs::SourceFile;
use deslop_core::cluster::identity::FilePath;
use deslop_core::cluster::scope::{DeclarationScopes, FileLanguage};
use deslop_core::cluster::subsume::collapse_cross_cluster_overlap;
use deslop_core::cluster::subsume::survivor::{same_region_survivor, Preference};
use deslop_core::cluster::{
    build_ranked_fused_clusters, duplicate_mass, materialize_cluster, smallest_node_count, Cluster, ClusterBuildInputs,
    ClusterKindJudge,
};
use deslop_core::pair::{FusedCluster, FusedEdge};

struct Judge(Option<ClusterKind>);

impl ClusterKindJudge for Judge {
    fn kind(&self, _members: &[usize]) -> Option<ClusterKind> {
        self.0
    }
}

fn member(file: u32, start: usize, end: usize, nodes: usize) -> Fingerprint {
    Fingerprint { hash: [9; 32], file_id: FileId(file), byte_range: ByteRange { start, end }, node_count: nodes }
}

fn tree(file: u32) -> NormalizedNode {
    NormalizedNode { kind: "source_file", children: Vec::new(), byte_range: ByteRange { start: 0, end: 1000 }, file_id: FileId(file) }
}

#[test]
fn mass_counts_the_extra_copies_of_the_smallest_member() {
    assert_eq!(smallest_node_count(&[member(0, 0, 10, 7), member(1, 0, 10, 5)]), 5);
    assert_eq!(smallest_node_count(&[]), 0);
    assert_eq!(duplicate_mass(ClusterKind::Identical, 5, 3), 10);
    assert_eq!(duplicate_mass(ClusterKind::StructuralOnly, 5, 3), 0);
    let draft = materialize_cluster(vec![member(0, 0, 10, 7), member(1, 0, 10, 5)], ClusterKind::NearlyIdentical, Some(2));
    assert_eq!(draft.mass, 5);
    assert_eq!(draft.shape_family, Some(2));
}

#[test]
fn a_two_file_component_becomes_one_named_cluster() {
    let fingerprints = vec![member(0, 10, 60, 12), member(1, 10, 60, 12)];
    let fused = vec![FusedCluster { members: vec![0, 1], edges: vec![FusedEdge { left: 0, right: 1 }], shape_family: None }];
    let trees = vec![tree(0), tree(1)];
    let sources: Vec<SourceFile> = Vec::new();
    let languages = vec![
        FileLanguage { file_id: FileId(0), language: "rust" },
        FileLanguage { file_id: FileId(1), language: "rust" },
    ];
    let paths = vec![
        FilePath { file_id: FileId(0), path: b"src/a.rs".to_vec() },
        FilePath { file_id: FileId(1), path: b"src/b.rs".to_vec() },
    ];
    let judge = Judge(Some(ClusterKind::Identical));
    let inputs = ClusterBuildInputs {
        fingerprints: &fingerprints,
        fused_clusters: &fused,
        trees: &trees,
        sources: &sources,
        file_languages: &languages,
        file_paths: &paths,
        kinds: &judge,
        rescue_floor: 4,
    };
    let clusters = build_ranked_fused_clusters(&inputs);
    assert_eq!(clusters.len(), 1);
    assert_eq!(clusters[0].members.len(), 2);
    assert_eq!(clusters[0].kind, ClusterKind::Identical);
    assert_eq!(clusters[0].mass, 12);
    assert_eq!(clusters[0].id.len(), 16);
    assert!(clusters[0].id.chars().all(|c| c.is_ascii_digit() || ('a'..='f').contains(&c)), "{}", clusters[0].id);
    assert_eq!(build_ranked_fused_clusters(&inputs)[0].id, clusters[0].id, "the same inputs name the same id");
    let unrelated = Judge(None);
    let inputs = ClusterBuildInputs { kinds: &unrelated, ..inputs };
    assert!(build_ranked_fused_clusters(&inputs).is_empty());
}

#[test]
fn overlapping_windows_in_one_file_keep_every_file() {
    let fingerprints = vec![member(0, 10, 60, 12), member(0, 20, 70, 12), member(1, 10, 60, 12)];
    let fused = FusedCluster { members: vec![0, 1, 2], edges: Vec::new(), shape_family: None };
    let trees = vec![tree(0), tree(1)];
    let languages: Vec<FileLanguage> = Vec::new();
    let scopes = DeclarationScopes::new(&trees, &languages);
    let survivors = collapse_overlapping_per_file(&fused, &fingerprints, &scopes, 4);
    assert!(survivors.contains(&2));
    assert!(survivors.iter().any(|index| *index == 0 || *index == 1));
    assert!(survivors.iter().all(|index| fused.members.contains(index)));
}

fn cluster(id: &str, mass: u64, members: Vec<Fingerprint>) -> Cluster {
    Cluster { id: id.to_string(), members, mass, kind: ClusterKind::NearlyIdentical, shape_family: None }
}

#[test]
fn disjoint_findings_all_survive_cross_cluster_subsumption() {
    let first = cluster("aaaa", 20, vec![member(0, 0, 10, 5), member(1, 0, 10, 5)]);
    let second = cluster("bbbb", 10, vec![member(0, 100, 110, 5), member(1, 100, 110, 5)]);
    let survivors = collapse_cross_cluster_overlap(vec![first, second]);
    let ids: Vec<&str> = survivors.iter().map(|survivor| survivor.id.as_str()).collect();
    assert_eq!(ids, vec!["aaaa", "bbbb"]);
}

#[test]
fn a_nested_view_of_one_region_is_collapsed_into_one_finding() {
    let outer = cluster("aaaa", 20, vec![member(0, 0, 100, 40), member(1, 0, 100, 40)]);
    let inner = cluster("bbbb", 10, vec![member(0, 10, 50, 12), member(1, 10, 50, 12)]);
    let survivors = collapse_cross_cluster_overlap(vec![outer, inner]);
    assert_eq!(survivors.len(), 1);
}

#[test]
fn neither_view_survives_exactly_when_the_views_are_apart() {
    let at = |file: u32, start: usize, end: usize| Fingerprint {
        hash: [7; 32],
        file_id: FileId(file),
        byte_range: ByteRange { start, end },
        node_count: 3,
    };
    let view = |id: &str, members: Vec<Fingerprint>, mass: u64| Cluster {
        id: id.to_string(),
        members,
        mass,
        kind: ClusterKind::Identical,
        shape_family: None,
    };
    let wide = view("00000000000000aa", vec![at(0, 0, 40), at(1, 0, 40)], 40);
    let narrow = view("00000000000000bb", vec![at(0, 5, 30), at(1, 5, 30)], 25);
    let apart = view("00000000000000cc", vec![at(2, 0, 40), at(3, 0, 40)], 40);
    let one_way = same_region_survivor(&wide, &narrow);
    assert_ne!(one_way, Preference::Neither, "views of one region leave a survivor");
    assert_eq!(same_region_survivor(&narrow, &wide), one_way.flipped());
    assert_eq!(same_region_survivor(&wide, &apart), Preference::Neither);
    assert_eq!(same_region_survivor(&apart, &wide), Preference::Neither);
}
