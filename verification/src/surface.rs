use crate::flags::SurfaceGridError;
use vstd::prelude::*;

verus! {

/// Defensive ceiling on longest-edge subdivision depth.
pub const MAXIMUM_SUBDIVISION_DEPTH: u32 = 48;

/// The integer part of surface-grid option validation: sensor identifier
/// zero is reserved, and the cell ceiling must be positive.
pub fn check_grid_counts(first_sensor_id: u64, maximum_cell_count: usize) -> (outcome: Result<
    (),
    SurfaceGridError,
>)
    ensures
        outcome == if first_sensor_id == 0 {
            Err::<(), SurfaceGridError>(SurfaceGridError::InvalidFirstSensorId)
        } else if maximum_cell_count == 0 {
            Err(SurfaceGridError::InvalidMaximumCellCount)
        } else {
            Ok(())
        },
{
    if first_sensor_id == 0 {
        return Err(SurfaceGridError::InvalidFirstSensorId);
    }
    if maximum_cell_count == 0 {
        return Err(SurfaceGridError::InvalidMaximumCellCount);
    }
    Ok(())
}

/// The stable index of a source face, which must fit in `u32`.
pub fn source_face_index(face_index: usize) -> (index: Result<u32, SurfaceGridError>)
    ensures
        index == if face_index <= u32::MAX {
            Ok::<u32, SurfaceGridError>(face_index as u32)
        } else {
            Err(SurfaceGridError::SourceFaceIndexOverflow)
        },
{
    if face_index as u64 <= u32::MAX as u64 {
        Ok(face_index as u32)
    } else {
        Err(SurfaceGridError::SourceFaceIndexOverflow)
    }
}

/// Decides whether a triangle whose longest edge is still too long may be
/// split: not beyond the depth ceiling, and only while the cells emitted
/// plus the triangles pending stay below the cell ceiling.
pub fn check_split(
    depth: u32,
    cell_count: usize,
    pending_count: usize,
    maximum_cell_count: usize,
) -> (outcome: Result<(), SurfaceGridError>)
    ensures
        outcome == if depth >= MAXIMUM_SUBDIVISION_DEPTH {
            Err::<(), SurfaceGridError>(SurfaceGridError::SubdivisionDepthExceeded)
        } else if cell_count + pending_count >= maximum_cell_count {
            Err(SurfaceGridError::CellLimitExceeded)
        } else {
            Ok(())
        },
{
    if depth >= MAXIMUM_SUBDIVISION_DEPTH {
        return Err(SurfaceGridError::SubdivisionDepthExceeded);
    }
    if cell_count.saturating_add(pending_count) >= maximum_cell_count {
        return Err(SurfaceGridError::CellLimitExceeded);
    }
    Ok(())
}

/// Decides whether one more cell may be emitted.
pub fn check_cell(cell_count: usize, maximum_cell_count: usize) -> (outcome: Result<
    (),
    SurfaceGridError,
>)
    ensures
        outcome == if cell_count >= maximum_cell_count {
            Err::<(), SurfaceGridError>(SurfaceGridError::CellLimitExceeded)
        } else {
            Ok(())
        },
{
    if cell_count >= maximum_cell_count {
        return Err(SurfaceGridError::CellLimitExceeded);
    }
    Ok(())
}

/// The sensor identifier of the next cell: the first identifier plus the
/// number of cells already emitted, which must not overflow `u64`.
pub fn next_sensor_id(first_sensor_id: u64, cell_count: usize) -> (id: Result<u64, SurfaceGridError>)
    ensures
        id == if first_sensor_id + cell_count <= u64::MAX {
            Ok::<u64, SurfaceGridError>((first_sensor_id + cell_count) as u64)
        } else {
            Err(SurfaceGridError::SensorIdOverflow)
        },
{
    if cell_count as u128 > u64::MAX as u128 {
        return Err(SurfaceGridError::SensorIdOverflow);
    }
    let sensor_index = cell_count as u64;
    match first_sensor_id.checked_add(sensor_index) {
        Some(id) => Ok(id),
        None => Err(SurfaceGridError::SensorIdOverflow),
    }
}

} // verus!
