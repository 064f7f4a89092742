use xvarna::{
    adapter_backend_code, audit_summary_flags, check_buffer, daylight_metadata,
    default_morris_levels, device_type_code, hash_from_words, hash_word, map_grid_error,
    mesh_audit_lengths, micros, outcome_code, structure_size, usize_u64, validate_structure,
    write_text, SurfaceGridError, XvDaylightMetadata, XvJobProgress, XvStatus,
};

#[test]
fn job_progress_layout_is_stable() {
    assert_eq!(std::mem::size_of::<XvJobProgress>(), 32);
}

#[test]
fn text_copy_always_terminates() {
    let mut destination = [9_u8; 4];
    write_text(&mut destination, "abcdefgh");
    assert_eq!(destination, [b'a', b'b', b'c', 0]);
}

#[test]
fn text_copy_zero_fills_short_values_and_empty_buffers() {
    let mut destination = [7_u8; 6];
    write_text(&mut destination, "ab");
    assert_eq!(destination, [b'a', b'b', 0, 0, 0, 0]);
    let mut empty: [u8; 0] = [];
    write_text(&mut empty, "abc");
    let mut one = [5_u8; 1];
    write_text(&mut one, "abc");
    assert_eq!(one, [0]);
}

#[test]
fn status_codes_are_stable() {
    assert_eq!(XvStatus::Success.code(), 0);
    assert_eq!(XvStatus::NullPointer.code(), 1);
    assert_eq!(XvStatus::InvalidLength.code(), 2);
    assert_eq!(XvStatus::InvalidArgument.code(), 3);
    assert_eq!(XvStatus::InvalidHandle.code(), 4);
    assert_eq!(XvStatus::InvalidState.code(), 5);
    assert_eq!(XvStatus::Cancelled.code(), 6);
    assert_eq!(XvStatus::Panic.code(), 255);
    assert_eq!(outcome_code(Ok(())), 0);
    assert_eq!(outcome_code(Err(XvStatus::InvalidHandle)), 4);
}

#[test]
fn saturating_conversions() {
    assert_eq!(usize_u64(42), 42);
    assert_eq!(micros(1_500), 1_500);
    assert_eq!(micros(u128::from(u64::MAX) + 1), u64::MAX);
    assert_eq!(micros(u128::MAX), u64::MAX);
}

#[test]
fn structure_sizes_and_validation() {
    assert_eq!(structure_size::<XvJobProgress>(), 32);
    assert_eq!(validate_structure::<XvJobProgress>(32, 0), Ok(()));
    assert_eq!(validate_structure::<XvJobProgress>(24, 0), Err(XvStatus::InvalidArgument));
    assert_eq!(validate_structure::<XvJobProgress>(32, 1), Err(XvStatus::InvalidArgument));
}

#[test]
fn hash_words_round_trip() {
    let mut hash = [0_u8; 32];
    for (index, byte) in hash.iter_mut().enumerate() {
        *byte = index as u8;
    }
    assert_eq!(hash_word(&hash, 0), u64::from_le_bytes([0, 1, 2, 3, 4, 5, 6, 7]));
    assert_eq!(hash_word(&hash, 3), u64::from_le_bytes([24, 25, 26, 27, 28, 29, 30, 31]));
    let words = [
        hash_word(&hash, 0),
        hash_word(&hash, 1),
        hash_word(&hash, 2),
        hash_word(&hash, 3),
    ];
    assert_eq!(hash_from_words(words), hash);
}

#[test]
fn daylight_metadata_records_counts_flags_and_digests() {
    let mut matrix = [0_u8; 32];
    matrix[8] = 1;
    let content = [0xff_u8; 32];
    let metadata: XvDaylightMetadata = daylight_metadata(12, 345, true, matrix, content);
    assert_eq!(metadata.structure_size as usize, std::mem::size_of::<XvDaylightMetadata>());
    assert_eq!(metadata.flags, 1);
    assert_eq!(metadata.sensor_count, 12);
    assert_eq!(metadata.analysis_time_microseconds, 345);
    assert_eq!(metadata.matrix_hash_0, 0);
    assert_eq!(metadata.matrix_hash_1, 1);
    assert_eq!(metadata.content_hash_3, u64::MAX);
    let plain = daylight_metadata(0, u128::MAX, false, matrix, content);
    assert_eq!(plain.flags, 0);
    assert_eq!(plain.analysis_time_microseconds, u64::MAX);
}

#[test]
fn audit_summary_flags_are_stable_bits() {
    assert_eq!(audit_summary_flags(false, false, false, false), 0);
    assert_eq!(audit_summary_flags(true, false, false, false), 1);
    assert_eq!(audit_summary_flags(true, true, false, false), 3);
    assert_eq!(audit_summary_flags(false, false, true, false), 4);
    assert_eq!(audit_summary_flags(true, true, true, true), 15);
}

#[test]
fn mesh_audit_lengths_check_capacities_and_overflow() {
    assert_eq!(mesh_audit_lengths(4, 2, 2, 4), Ok((12, 6)));
    assert_eq!(mesh_audit_lengths(4, 2, 1, 4), Err(XvStatus::InvalidLength));
    assert_eq!(mesh_audit_lengths(4, 2, 2, 3), Err(XvStatus::InvalidLength));
    assert_eq!(
        mesh_audit_lengths(usize::MAX, 0, 0, usize::MAX),
        Err(XvStatus::InvalidLength)
    );
}

#[test]
fn buffers_are_checked_before_use() {
    assert_eq!(check_buffer(true, 0, 8), Ok(false));
    assert_eq!(check_buffer(true, 3, 8), Err(XvStatus::NullPointer));
    assert_eq!(check_buffer(false, usize::MAX, 8), Err(XvStatus::InvalidLength));
    assert_eq!(check_buffer(false, 3, 8), Ok(true));
}

#[test]
fn grid_errors_map_to_statuses() {
    assert_eq!(map_grid_error(SurfaceGridError::CellLimitExceeded), XvStatus::InvalidLength);
    assert_eq!(map_grid_error(SurfaceGridError::SensorIdOverflow), XvStatus::InvalidLength);
    assert_eq!(
        map_grid_error(SurfaceGridError::SourceFaceIndexOverflow),
        XvStatus::InvalidLength
    );
    assert_eq!(
        map_grid_error(SurfaceGridError::InvalidTargetEdgeLength),
        XvStatus::InvalidArgument
    );
    assert_eq!(
        map_grid_error(SurfaceGridError::SubdivisionDepthExceeded),
        XvStatus::InvalidArgument
    );
}

#[test]
fn adapter_and_device_names_map_to_codes() {
    assert_eq!(adapter_backend_code("Vulkan"), 1);
    assert_eq!(adapter_backend_code("Metal"), 2);
    assert_eq!(adapter_backend_code("Dx12"), 3);
    assert_eq!(adapter_backend_code("Gl"), 4);
    assert_eq!(adapter_backend_code("BrowserWebGpu"), 5);
    assert_eq!(adapter_backend_code("vulkan"), 0);
    assert_eq!(device_type_code("IntegratedGpu"), 1);
    assert_eq!(device_type_code("DiscreteGpu"), 2);
    assert_eq!(device_type_code("VirtualGpu"), 3);
    assert_eq!(device_type_code("Cpu"), 4);
    assert_eq!(device_type_code("Other"), 0);
    assert_eq!(default_morris_levels(), 6);
}
