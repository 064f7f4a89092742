use xvarna::{
    check_cell, check_grid_counts, check_split, hash_surface_grid, next_sensor_id,
    source_face_index, Mesh, MeshIssue, SurfaceGridError,
};

fn mesh(points: &[[f64; 3]], triangles: &[[u32; 3]]) -> Mesh {
    Mesh {
        positions: points
            .iter()
            .map(|p| [p[0].to_bits(), p[1].to_bits(), p[2].to_bits()])
            .collect(),
        triangles: triangles.to_vec(),
    }
}

#[test]
fn mesh_validation_reports_invalid_index_and_degenerate_triangle() {
    let source = mesh(&[[0.0, 0.0, 0.0], [1.0, 0.0, 0.0]], &[[0, 1, 1], [0, 1, 2]]);
    let issues = source.validate(&vec![true, false]);
    assert_eq!(issues.len(), 2);
    assert!(matches!(issues[0], MeshIssue::DegenerateTriangle { .. }));
    assert!(matches!(issues[1], MeshIssue::IndexOutOfBounds { .. }));
}

#[test]
fn validation_lists_non_finite_vertices_first() {
    let source = mesh(&[[f64::INFINITY, 0.0, 0.0], [1.0, 0.0, 0.0], [0.0, 1.0, 0.0]], &[[0, 1, 5]]);
    let issues = source.validate(&vec![false]);
    assert_eq!(
        issues,
        vec![
            MeshIssue::NonFiniteVertex { vertex_index: 0 },
            MeshIssue::IndexOutOfBounds {
                triangle_index: 0,
                indices: [0, 1, 5],
                vertex_count: 3,
            },
        ]
    );
}

#[test]
fn surface_grid_integer_checks() {
    assert_eq!(check_grid_counts(0, 10), Err(SurfaceGridError::InvalidFirstSensorId));
    assert_eq!(check_grid_counts(1, 0), Err(SurfaceGridError::InvalidMaximumCellCount));
    assert_eq!(check_grid_counts(1, 10), Ok(()));
    assert_eq!(check_split(48, 0, 0, 10), Err(SurfaceGridError::SubdivisionDepthExceeded));
    assert_eq!(check_split(3, 6, 4, 10), Err(SurfaceGridError::CellLimitExceeded));
    assert_eq!(check_split(3, usize::MAX, 4, usize::MAX), Err(SurfaceGridError::CellLimitExceeded));
    assert_eq!(check_split(3, 5, 4, 10), Ok(()));
    assert_eq!(check_cell(10, 10), Err(SurfaceGridError::CellLimitExceeded));
    assert_eq!(check_cell(9, 10), Ok(()));
    assert_eq!(next_sensor_id(1, 0), Ok(1));
    assert_eq!(next_sensor_id(5, 3), Ok(8));
    assert_eq!(next_sensor_id(u64::MAX, 1), Err(SurfaceGridError::SensorIdOverflow));
    assert_eq!(source_face_index(7), Ok(7));
}

#[test]
fn surface_grid_hash_covers_options_mesh_and_counts() {
    let quad = mesh(
        &[[0.0, 0.0, 0.0], [1.0, 0.0, 0.0], [1.0, 1.0, 0.0], [0.0, 1.0, 0.0]],
        &[[0, 1, 2], [0, 2, 3]],
    );
    let edge = 1.0f64.to_bits();
    let offset = 1.0e-4f64.to_bits();
    let first = hash_surface_grid(&quad, edge, offset, 1, 1000, 0, 2);
    assert_eq!(first, hash_surface_grid(&quad, edge, offset, 1, 1000, 0, 2));
    assert_ne!(first, hash_surface_grid(&quad, edge, offset, 2, 1000, 0, 2));
    assert_ne!(first, hash_surface_grid(&quad, edge, offset, 1, 1000, 1, 2));
    let mut bytes = b"xvarna.surface-grid.v1\0".to_vec();
    for word in [edge, offset, 1, 1000, 4] {
        bytes.extend_from_slice(&word.to_le_bytes());
    }
    for point in &quad.positions {
        for value in point {
            bytes.extend_from_slice(&value.to_le_bytes());
        }
    }
    bytes.extend_from_slice(&2u64.to_le_bytes());
    for triangle in &quad.triangles {
        for index in triangle {
            bytes.extend_from_slice(&index.to_le_bytes());
        }
    }
    bytes.extend_from_slice(&0u64.to_le_bytes());
    bytes.extend_from_slice(&2u64.to_le_bytes());
    assert_eq!(first, *blake3::hash(&bytes).as_bytes());
}
