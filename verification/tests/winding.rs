use xvarna::{
    audit_topology, orient_closed_components, repair_mesh_conservative,
    repair_winding_consistency, Mesh,
};

fn mesh(points: &[[f64; 3]], triangles: &[[u32; 3]]) -> Mesh {
    Mesh {
        positions: points
            .iter()
            .map(|p| [p[0].to_bits(), p[1].to_bits(), p[2].to_bits()])
            .collect(),
        triangles: triangles.to_vec(),
    }
}

#[test]
fn shared_edge_winding_is_repaired() {
    let source = mesh(
        &[
            [0.0, 0.0, 0.0],
            [1.0, 0.0, 0.0],
            [1.0, 1.0, 0.0],
            [0.0, 1.0, 0.0],
        ],
        &[[0, 1, 2], [0, 3, 2]],
    );
    let repaired = repair_mesh_conservative(&source, &vec![false; 2]).mesh;
    let mut healed = repaired;
    let report = repair_winding_consistency(&mut healed);
    assert_eq!(report.consistency_flips, 1);
    let audit = audit_topology(&healed, &vec![false; healed.triangles.len()]);
    assert_eq!(audit.inconsistent_winding_edge_count, 0);
}

#[test]
fn consistent_faces_are_left_alone() {
    let mut quad = mesh(
        &[
            [0.0, 0.0, 0.0],
            [1.0, 0.0, 0.0],
            [1.0, 1.0, 0.0],
            [0.0, 1.0, 0.0],
        ],
        &[[0, 1, 2], [0, 2, 3]],
    );
    let report = repair_winding_consistency(&mut quad);
    assert_eq!(report.consistency_flips, 0);
    assert_eq!(report.flipped, vec![false, false]);
    assert_eq!(quad.triangles, vec![[0, 1, 2], [0, 2, 3]]);
    assert_eq!(report.unresolved_edges, 4);
    assert_eq!(report.components, vec![vec![0, 1]]);
    assert_eq!(report.closed, vec![false]);
}

#[test]
fn reversed_faces_of_a_tetrahedron_are_made_consistent() {
    let mut tetrahedron = mesh(
        &[
            [0.0, 0.0, 0.0],
            [1.0, 0.0, 0.0],
            [0.0, 1.0, 0.0],
            [0.0, 0.0, 1.0],
        ],
        &[[0, 2, 1], [0, 3, 1], [1, 2, 3], [2, 3, 0]],
    );
    let report = repair_winding_consistency(&mut tetrahedron);
    assert_eq!(report.unresolved_edges, 0);
    assert_eq!(report.consistency_flips, 2);
    assert_eq!(report.components.len(), 1);
    assert_eq!(report.closed, vec![true]);
    let audit = audit_topology(&tetrahedron, &vec![false; 4]);
    assert!(audit.is_watertight);
}

#[test]
fn closed_components_with_negative_volume_are_reversed() {
    let mut tetrahedron = mesh(
        &[
            [0.0, 0.0, 0.0],
            [1.0, 0.0, 0.0],
            [0.0, 1.0, 0.0],
            [0.0, 0.0, 1.0],
        ],
        &[[0, 1, 2], [0, 3, 1], [1, 3, 2], [2, 3, 0]],
    );
    let report = repair_winding_consistency(&mut tetrahedron);
    assert_eq!(report.consistency_flips, 0);
    let flips = orient_closed_components(
        &mut tetrahedron,
        &report.components,
        &report.closed,
        &vec![true],
    );
    assert_eq!(flips, 1);
    assert_eq!(tetrahedron.triangles, vec![[0, 2, 1], [0, 1, 3], [1, 2, 3], [2, 0, 3]]);
}

#[test]
fn open_components_keep_their_orientation() {
    let mut triangle = mesh(&[[0.0, 0.0, 0.0], [1.0, 0.0, 0.0], [0.0, 1.0, 0.0]], &[[0, 1, 2]]);
    let report = repair_winding_consistency(&mut triangle);
    assert_eq!(report.closed, vec![false]);
    let flips = orient_closed_components(&mut triangle, &report.components, &report.closed, &vec![true]);
    assert_eq!(flips, 0);
    assert_eq!(triangle.triangles, vec![[0, 1, 2]]);
}

#[test]
fn contradictory_strip_counts_the_conflict_from_both_faces() {
    // A twisted strip of six triangles: going round it, the faces cannot all agree.
    let mut strip = mesh(
        &[
            [0.0, 0.0, 0.0],
            [1.0, 0.0, 0.0],
            [2.0, 0.0, 0.0],
            [0.0, 1.0, 0.0],
            [1.0, 1.0, 0.0],
            [2.0, 1.0, 0.0],
        ],
        &[[0, 1, 3], [1, 4, 3], [1, 2, 4], [2, 5, 4], [2, 3, 5], [3, 0, 5]],
    );
    let report = repair_winding_consistency(&mut strip);
    assert_eq!(report.components.len(), 1);
    assert_eq!(report.unresolved_edges, 8);
    assert_eq!(report.closed, vec![false]);
}

#[test]
fn reversals_spread_from_the_lowest_face() {
    let mut pair = mesh(
        &[
            [0.0, 0.0, 0.0],
            [1.0, 0.0, 0.0],
            [1.0, 1.0, 0.0],
            [0.0, 1.0, 0.0],
        ],
        &[[0, 1, 2], [0, 3, 2]],
    );
    let report = repair_winding_consistency(&mut pair);
    assert_eq!(report.flipped, vec![false, true]);
    assert_eq!(pair.triangles, vec![[0, 1, 2], [0, 2, 3]]);

    // A strip of three faces whose last face is the odd one out: the lowest
    // face keeps its winding, so only the last face is reversed.
    let mut strip = mesh(
        &[
            [0.0, 0.0, 0.0],
            [1.0, 0.0, 0.0],
            [1.0, 1.0, 0.0],
            [0.0, 1.0, 0.0],
            [2.0, 0.0, 0.0],
        ],
        &[[0, 2, 1], [0, 3, 2], [2, 1, 4]],
    );
    let report = repair_winding_consistency(&mut strip);
    assert_eq!(report.components.len(), 1);
    assert_eq!(report.components[0][0], 0);
    assert_eq!(report.flipped, vec![false, false, true]);
    assert_eq!(report.consistency_flips, 1);
    let audit = audit_topology(&strip, &vec![false; 3]);
    assert_eq!(audit.inconsistent_winding_edge_count, 0);
}
