use xvarna::{
    audit_topology, canonical_mesh_encoding, classify_faces, hash_mesh, repair_mesh_conservative,
    FaceVerdict, Mesh, MeshFaceFlags, MeshVertexFlags,
};

fn mesh(points: &[[f64; 3]], triangles: &[[u32; 3]]) -> Mesh {
    Mesh {
        positions: points
            .iter()
            .map(|p| [p[0].to_bits(), p[1].to_bits(), p[2].to_bits()])
            .collect(),
        triangles: triangles.to_vec(),
    }
}

fn open_quad() -> Mesh {
    mesh(
        &[
            [0.0, 0.0, 0.0],
            [1.0, 0.0, 0.0],
            [1.0, 1.0, 0.0],
            [0.0, 1.0, 0.0],
        ],
        &[[0, 1, 2], [0, 2, 3]],
    )
}

fn none_negligible(mesh: &Mesh) -> Vec<bool> {
    vec![false; mesh.triangles.len()]
}

#[test]
fn open_quad_has_four_boundary_edges_and_unit_area() {
    let quad = open_quad();
    let report = audit_topology(&quad, &none_negligible(&quad));
    assert!(report.is_analysis_ready);
    assert!(!report.is_watertight);
    assert_eq!(report.boundary_edge_count, 4);
    assert_eq!(report.inconsistent_winding_edge_count, 0);
    assert_eq!(report.connected_component_count, 1);
}

#[test]
fn closed_tetrahedron_reports_volume_and_watertight_topology() {
    let tetrahedron = mesh(
        &[
            [0.0, 0.0, 0.0],
            [1.0, 0.0, 0.0],
            [0.0, 1.0, 0.0],
            [0.0, 0.0, 1.0],
        ],
        &[[0, 2, 1], [0, 1, 3], [1, 2, 3], [2, 0, 3]],
    );
    let report = audit_topology(&tetrahedron, &none_negligible(&tetrahedron));
    assert!(report.is_watertight);
    assert_eq!(report.boundary_edge_count, 0);
    assert_eq!(report.non_manifold_edge_count, 0);
}

#[test]
fn duplicate_and_degenerate_faces_are_repairable() {
    let mut source = open_quad();
    source.positions.push([9.0f64.to_bits(), 9.0f64.to_bits(), 9.0f64.to_bits()]);
    source.triangles.push([2, 1, 0]);
    source.triangles.push([0, 0, 1]);
    let negligible = none_negligible(&source);

    let report = audit_topology(&source, &negligible);
    assert_eq!(report.duplicate_face_count, 1);
    assert_eq!(report.degenerate_face_count, 1);
    assert_eq!(report.isolated_vertex_count, 1);
    assert!(!report.is_analysis_ready);

    let repair = repair_mesh_conservative(&source, &negligible);
    assert_eq!(repair.removed_face_count, 2);
    assert_eq!(repair.removed_vertex_count, 1);
    let repaired = audit_topology(&repair.mesh, &none_negligible(&repair.mesh));
    assert!(repaired.is_analysis_ready);
}

#[test]
fn same_direction_shared_edge_is_reported() {
    let source = mesh(
        &[
            [0.0, 0.0, 0.0],
            [1.0, 0.0, 0.0],
            [0.0, 1.0, 0.0],
            [0.0, -1.0, 0.0],
        ],
        &[[0, 1, 2], [0, 1, 3]],
    );
    let report = audit_topology(&source, &none_negligible(&source));
    assert_eq!(report.inconsistent_winding_edge_count, 1);
}

#[test]
fn hash_normalizes_negative_zero_and_changes_with_topology() {
    let positive = open_quad();
    let mut negative = open_quad();
    negative.positions[0][0] = (-0.0f64).to_bits();
    assert_eq!(hash_mesh(&positive), hash_mesh(&negative));
    negative.triangles.swap(0, 1);
    assert_ne!(hash_mesh(&positive), hash_mesh(&negative));
}

#[test]
fn hash_is_blake3_of_the_canonical_encoding() {
    let quad = open_quad();
    let bytes = canonical_mesh_encoding(&quad);
    assert_eq!(hash_mesh(&quad), *blake3::hash(&bytes).as_bytes());
    assert_ne!(&hash_mesh(&quad)[..], &bytes[..32]);
}

#[test]
fn canonical_encoding_lays_out_counts_coordinates_and_indices() {
    let single = mesh(&[[1.0, -0.0, 2.0]], &[[0, 0, 0]]);
    let bytes = canonical_mesh_encoding(&single);
    assert_eq!(&bytes[..15], b"XVARNA_MESH_V1\0");
    assert_eq!(&bytes[15..23], &1u64.to_le_bytes());
    assert_eq!(&bytes[23..31], &1.0f64.to_bits().to_le_bytes());
    assert_eq!(&bytes[31..39], &0u64.to_le_bytes());
    assert_eq!(&bytes[39..47], &2.0f64.to_bits().to_le_bytes());
    assert_eq!(&bytes[47..55], &1u64.to_le_bytes());
    assert_eq!(&bytes[55..67], &[0u8; 12]);
    assert_eq!(bytes.len(), 67);
}

#[test]
fn verdicts_follow_the_audit_order_of_checks() {
    let nan = f64::NAN;
    let source = mesh(
        &[
            [0.0, 0.0, 0.0],
            [1.0, 0.0, 0.0],
            [0.0, 1.0, 0.0],
            [nan, 0.0, 0.0],
        ],
        &[[0, 1, 7], [0, 1, 3], [0, 1, 1], [0, 1, 2], [1, 2, 0], [2, 1, 0]],
    );
    let mut negligible = none_negligible(&source);
    negligible[3] = false;
    let verdicts = classify_faces(&source, &negligible);
    assert_eq!(
        verdicts,
        vec![
            FaceVerdict::InvalidIndex,
            FaceVerdict::NonFiniteVertex,
            FaceVerdict::Degenerate,
            FaceVerdict::Accepted,
            FaceVerdict::Duplicate,
            FaceVerdict::Duplicate,
        ]
    );
    let report = audit_topology(&source, &negligible);
    let bits: Vec<u32> = report.face_flags.iter().map(|f| f.bits()).collect();
    assert_eq!(bits, vec![1, 2, 4, 0, 8, 8]);
    assert_eq!(report.non_finite_vertex_count, 1);
    assert_eq!(report.vertex_flags[3].bits(), MeshVertexFlags::non_finite().bits());
    assert_eq!(report.invalid_index_face_count, 1);
    assert_eq!(report.non_finite_face_count, 1);
    assert_eq!(report.accepted_face_count, 1);
    assert!(report.face_flags[4].contains(MeshFaceFlags::duplicate()));
    assert!(report.face_flags[4].is_repairable());
    assert!(!report.face_flags[3].is_repairable());
}

#[test]
fn negligible_area_faces_are_degenerate() {
    let quad = open_quad();
    let negligible = vec![true, false];
    let report = audit_topology(&quad, &negligible);
    assert_eq!(report.degenerate_face_count, 1);
    assert_eq!(report.accepted_face_count, 1);
    assert_eq!(report.isolated_vertex_count, 1);
    assert_eq!(report.vertex_flags[1].bits(), 2);
    assert_eq!(report.boundary_edge_count, 3);
}

#[test]
fn disjoint_triangles_form_two_components() {
    let source = mesh(
        &[
            [0.0, 0.0, 0.0],
            [1.0, 0.0, 0.0],
            [0.0, 1.0, 0.0],
            [5.0, 0.0, 0.0],
            [6.0, 0.0, 0.0],
            [5.0, 1.0, 0.0],
            [9.0, 9.0, 9.0],
        ],
        &[[0, 1, 2], [3, 4, 5]],
    );
    let report = audit_topology(&source, &none_negligible(&source));
    assert_eq!(report.connected_component_count, 2);
    assert_eq!(report.isolated_vertex_count, 1);
    assert_eq!(report.vertex_flags[6].bits(), MeshVertexFlags::isolated().bits());
    assert_eq!(report.boundary_edge_count, 6);
}

#[test]
fn empty_mesh_is_not_analysis_ready() {
    let empty = mesh(&[], &[]);
    let report = audit_topology(&empty, &none_negligible(&empty));
    assert!(!report.is_analysis_ready);
    assert!(!report.is_watertight);
    assert_eq!(report.connected_component_count, 0);
}

#[test]
fn non_manifold_fan_is_counted() {
    let source = mesh(
        &[
            [0.0, 0.0, 0.0],
            [1.0, 0.0, 0.0],
            [0.0, 1.0, 0.0],
            [0.0, -1.0, 0.0],
            [0.0, 0.0, 1.0],
        ],
        &[[0, 1, 2], [1, 0, 3], [0, 1, 4]],
    );
    let report = audit_topology(&source, &none_negligible(&source));
    assert_eq!(report.non_manifold_edge_count, 1);
    assert_eq!(report.boundary_edge_count, 6);
}

#[test]
fn repair_renumbers_vertices_by_first_use() {
    let source = mesh(
        &[
            [9.0, 9.0, 9.0],
            [0.0, 0.0, 0.0],
            [1.0, 0.0, 0.0],
            [0.0, 1.0, 0.0],
        ],
        &[[3, 1, 2], [1, 1, 2]],
    );
    let repair = repair_mesh_conservative(&source, &none_negligible(&source));
    assert_eq!(repair.mesh.triangles, vec![[0, 1, 2]]);
    assert_eq!(
        repair.mesh.positions,
        vec![source.positions[3], source.positions[1], source.positions[2]]
    );
    assert_eq!(repair.removed_face_count, 1);
    assert_eq!(repair.removed_vertex_count, 1);
    assert_eq!(repair.before_hash, hash_mesh(&source));
    assert_eq!(repair.after_hash, hash_mesh(&repair.mesh));
}

#[test]
fn repairing_a_repaired_mesh_changes_nothing() {
    let mut source = open_quad();
    source.positions.push([9.0f64.to_bits(), 9.0f64.to_bits(), 9.0f64.to_bits()]);
    source.triangles.push([2, 1, 0]);
    source.triangles.push([0, 0, 1]);
    let once = repair_mesh_conservative(&source, &none_negligible(&source));
    let source_audit = audit_topology(&source, &none_negligible(&source));
    assert_eq!(
        once.removed_face_count,
        source_audit.face_count - source_audit.accepted_face_count
    );
    let twice = repair_mesh_conservative(&once.mesh, &none_negligible(&once.mesh));
    assert_eq!(twice.mesh.positions, once.mesh.positions);
    assert_eq!(twice.mesh.triangles, once.mesh.triangles);
    assert_eq!(twice.removed_face_count, 0);
    assert_eq!(twice.removed_vertex_count, 0);
    assert_eq!(twice.before_hash, twice.after_hash);
    let audited = audit_topology(&once.mesh, &none_negligible(&once.mesh));
    assert_eq!(audited.isolated_vertex_count, 0);
    assert_eq!(audited.accepted_face_count, once.mesh.triangles.len());
}
