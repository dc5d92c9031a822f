use deslop_core::cluster::signals::StructuralGroup;
use deslop_core::cluster_filters::family::{families_by, restrict};
use deslop_core::pair::{FusedCluster, FusedEdge};

fn key(index: usize) -> Option<StructuralGroup> {
    if index == 3 {
        return None;
    }
    Some(StructuralGroup { hash: [u8::try_from(index % 2).unwrap_or(0); 32], resolvable: true })
}

#[test]
fn members_group_by_key_in_first_appearance_order() {
    let families = families_by(&[4, 1, 2, 3, 5], key);
    assert_eq!(families, vec![vec![4, 2], vec![1, 5]]);
    assert!(families_by(&[], key).is_empty());
    assert!(families_by(&[3], key).is_empty());
}

#[test]
fn a_restricted_component_keeps_only_edges_inside_the_family() {
    let fused = FusedCluster {
        members: vec![1, 2, 4, 5],
        edges: vec![
            FusedEdge { left: 1, right: 5 },
            FusedEdge { left: 1, right: 2 },
            FusedEdge { left: 4, right: 2 },
        ],
        shape_family: Some(7),
    };
    let restricted = restrict(&fused, &[2, 4]);
    assert_eq!(restricted.members, vec![2, 4]);
    assert_eq!(restricted.edges, vec![FusedEdge { left: 4, right: 2 }]);
    assert_eq!(restricted.shape_family, Some(7));
}
