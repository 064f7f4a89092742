use crate::abi::{micros, structure_size, usize_u64};
use crate::hashing::hash_word;
use vstd::bytes::spec_u64_from_le_bytes;
use vstd::prelude::*;

verus! {

/// Fixed-layout cumulative session throughput, scratch, fallback, and device-health telemetry.
#[derive(Clone, Copy, Debug)]
pub struct XvComputeRuntimeStats {
    /// Byte size of this structure.
    pub structure_size: u32,
    /// Device-health flags.
    pub flags: u32,
    /// Reserved; always zero.
    pub reserved_0: u32,
    /// Reserved; always zero.
    pub reserved_1: u32,
    /// Closest-hit and any-hit requests.
    pub trace_count: u64,
    /// Rays accepted by the session.
    pub ray_count: u64,
    /// Portable dispatches submitted.
    pub dispatch_count: u64,
    /// Successful batches served by reusable buffers.
    pub reusable_buffer_batch_count: u64,
    /// Auto-mode runtime fallbacks.
    pub runtime_fallback_count: u64,
    /// Scratch allocation/growth generations.
    pub scratch_generation_count: u64,
    /// Current ray capacity of each scratch slot.
    pub scratch_capacity_rays: u64,
    /// Current retained scratch bytes across both slots.
    pub scratch_gpu_bytes: u64,
    /// Total queue-write bytes.
    pub uploaded_bytes: u64,
    /// Total copied-back bytes.
    pub readback_bytes: u64,
    /// Device-loss callbacks observed.
    pub device_loss_count: u64,
    /// Execution errors observed.
    pub execution_error_count: u64,
    /// Geometry chunk uploads after initialization.
    pub geometry_upload_count: u64,
    /// Streamed geometry bytes uploaded after initialization.
    pub geometry_uploaded_bytes: u64,
    /// UTF-8 most recent error, nul-terminated when space permits.
    pub last_error: [u8; 256],
}

/// Process-wide bounded cache configuration.
#[derive(Clone, Copy, Debug)]
pub struct XvCacheOptions {
    /// Byte size of this structure.
    pub structure_size: u32,
    /// Reserved; must be zero.
    pub flags: u32,
    /// In-process payload budget.
    pub memory_budget_bytes: u64,
    /// On-disk entry budget.
    pub disk_budget_bytes: u64,
}

/// Process-wide cache telemetry and active configuration.
#[derive(Clone, Copy, Debug)]
pub struct XvCacheStats {
    /// Byte size of this structure.
    pub structure_size: u32,
    /// Reserved; always zero.
    pub flags: u32,
    /// Memory hits.
    pub memory_hit_count: u64,
    /// Disk hits.
    pub disk_hit_count: u64,
    /// Misses.
    pub miss_count: u64,
    /// Successful writes.
    pub write_count: u64,
    /// Memory/disk evictions.
    pub eviction_count: u64,
    /// Corrupt entries removed.
    pub corruption_count: u64,
    /// Current memory payload bytes.
    pub memory_bytes: u64,
    /// Current disk bytes.
    pub disk_bytes: u64,
    /// Current memory entries.
    pub memory_entry_count: u64,
    /// Current disk entries.
    pub disk_entry_count: u64,
    /// Configured memory budget.
    pub memory_budget_bytes: u64,
    /// Configured disk budget.
    pub disk_budget_bytes: u64,
    /// UTF-8 active directory.
    pub directory: [u8; 256],
    /// UTF-8 latest event/recovery diagnostic.
    pub last_event: [u8; 256],
}

/// Fixed-size adapter descriptor returned by enumeration.
#[derive(Clone, Copy, Debug)]
pub struct XvAdapterInfo {
    /// Byte size of this structure.
    pub structure_size: u32,
    /// Graphics API backend code.
    pub backend: u32,
    /// Adapter device class code.
    pub device_type: u32,
    /// Reserved flags; always zero.
    pub flags: u32,
    /// Adapter vendor identifier.
    pub vendor_id: u32,
    /// Adapter device identifier.
    pub device_id: u32,
    /// Reserved; always zero.
    pub reserved_0: u32,
    /// Reserved; always zero.
    pub reserved_1: u32,
    /// UTF-8 adapter name, nul-terminated when space permits.
    pub name: [u8; 128],
    /// UTF-8 driver name/detail, nul-terminated when space permits.
    pub driver: [u8; 64],
}

/// Isovist dimensions, runtime, and identity.
#[derive(Clone, Copy, Debug)]
pub struct XvIsovistMetadata {
    /// Byte size of this structure.
    pub structure_size: u32,
    /// Reserved; always zero.
    pub reserved: u32,
    /// Source viewpoint count.
    pub viewpoint_count: u64,
    /// Samples per viewpoint.
    pub sample_count: u64,
    /// Total ray output count.
    pub ray_count: u64,
    /// Native analysis duration in microseconds.
    pub analysis_time_microseconds: u64,
    /// First BLAKE3 hash word.
    pub content_hash_0: u64,
    /// Second hash word.
    pub content_hash_1: u64,
    /// Third hash word.
    pub content_hash_2: u64,
    /// Fourth hash word.
    pub content_hash_3: u64,
}

/// Directed visibility matrix dimensions, runtime, and identity.
#[derive(Clone, Copy, Debug)]
pub struct XvIntervisibilityMetadata {
    /// Byte size of this structure.
    pub structure_size: u32,
    /// Reserved; always zero.
    pub reserved: u32,
    /// Observer row count.
    pub observer_count: u64,
    /// Target column count.
    pub target_count: u64,
    /// Matrix entry count.
    pub entry_count: u64,
    /// Native analysis duration in microseconds.
    pub analysis_time_microseconds: u64,
    /// First BLAKE3 hash word.
    pub content_hash_0: u64,
    /// Second hash word.
    pub content_hash_1: u64,
    /// Third hash word.
    pub content_hash_2: u64,
    /// Fourth hash word.
    pub content_hash_3: u64,
}

/// Graph dimensions, topology, runtime, and identity.
#[derive(Clone, Copy, Debug)]
pub struct XvVisibilityGraphMetadata {
    /// Byte size of this structure.
    pub structure_size: u32,
    /// Reserved; always zero.
    pub reserved: u32,
    /// Source node count.
    pub node_count: u64,
    /// Unordered pair count.
    pub pair_count: u64,
    /// Visible edge count.
    pub visible_edge_count: u64,
    /// Connected component count.
    pub connected_component_count: u64,
    /// Native analysis duration in microseconds.
    pub analysis_time_microseconds: u64,
    /// First BLAKE3 hash word.
    pub content_hash_0: u64,
    /// Second hash word.
    pub content_hash_1: u64,
    /// Third hash word.
    pub content_hash_2: u64,
    /// Fourth hash word.
    pub content_hash_3: u64,
}

/// Fixed-layout Target View dimensions, runtime, and identity.
#[derive(Clone, Copy, Debug)]
pub struct XvTargetViewMetadata {
    /// Byte size of this structure.
    pub structure_size: u32,
    /// Reserved; always zero.
    pub reserved: u32,
    /// Observer count.
    pub observer_count: u64,
    /// Distinct target count.
    pub target_count: u64,
    /// Observer-target entry count.
    pub entry_count: u64,
    /// Native runtime.
    pub analysis_time_microseconds: u64,
    /// Content hash words.
    pub content_hash_0: u64,
    /// Content hash words.
    pub content_hash_1: u64,
    /// Content hash words.
    pub content_hash_2: u64,
    /// Content hash words.
    pub content_hash_3: u64,
}

/// Fixed-layout corridor result metadata.
#[derive(Clone, Copy, Debug)]
pub struct XvViewCorridorMetadata {
    /// Byte size.
    pub structure_size: u32,
    /// Reserved.
    pub reserved: u32,
    /// Corridor count.
    pub corridor_count: u64,
    /// Samples per corridor.
    pub samples_per_corridor: u64,
    /// Total sample count.
    pub sample_count: u64,
    /// Native runtime.
    pub analysis_time_microseconds: u64,
    /// Content hash.
    pub content_hash_0: u64,
    /// Content hash.
    pub content_hash_1: u64,
    /// Content hash.
    pub content_hash_2: u64,
    /// Content hash.
    pub content_hash_3: u64,
}

/// Fixed-layout observer-path dimensions, runtime, and identity.
#[derive(Clone, Copy, Debug)]
pub struct XvObserverPathMetadata {
    /// Byte size.
    pub structure_size: u32,
    /// Reserved.
    pub reserved: u32,
    /// Path count.
    pub path_count: u64,
    /// Total sample count.
    pub sample_count: u64,
    /// Native runtime.
    pub analysis_time_microseconds: u64,
    /// Content hash.
    pub content_hash_0: u64,
    /// Content hash.
    pub content_hash_1: u64,
    /// Content hash.
    pub content_hash_2: u64,
    /// Content hash.
    pub content_hash_3: u64,
}

/// Fixed-layout source-object material assignment.
#[derive(Clone, Copy, Debug)]
pub struct XvMaterialAssignment {
    /// Source object identity.
    pub object_id: u64,
    /// Material identity present in the supplied material array.
    pub material_id: u64,
}

/// Dimensions, actual variable-row counts, runtime, and identity for 3D isovists.
#[derive(Clone, Copy, Debug)]
pub struct XvIsovist3dMetadata {
    /// Byte size of this structure.
    pub structure_size: u32,
    /// Reserved; always zero.
    pub reserved: u32,
    /// Source viewpoint count.
    pub viewpoint_count: u64,
    /// Samples per viewpoint.
    pub sample_count: u64,
    /// Total ray count.
    pub ray_count: u64,
    /// Actual ranked attribution row count.
    pub attribution_count: u64,
    /// Actual category row count.
    pub category_count: u64,
    /// Native execution duration.
    pub analysis_time_microseconds: u64,
    /// BLAKE3 result hash words.
    pub content_hash_0: u64,
    /// BLAKE3 result hash words.
    pub content_hash_1: u64,
    /// BLAKE3 result hash words.
    pub content_hash_2: u64,
    /// BLAKE3 result hash words.
    pub content_hash_3: u64,
}

/// Dimensions, variable row counts, runtime, and identity for landmark visibility.
#[derive(Clone, Copy, Debug)]
pub struct XvLandmarkMetadata {
    /// Byte size of this structure.
    pub structure_size: u32,
    /// Reserved; always zero.
    pub reserved: u32,
    /// Observer rows.
    pub observer_count: u64,
    /// Landmark columns.
    pub landmark_count: u64,
    /// Matrix cell count.
    pub entry_count: u64,
    /// Actual ranked attribution rows.
    pub attribution_count: u64,
    /// Actual exact category rows.
    pub category_count: u64,
    /// Native execution duration.
    pub analysis_time_microseconds: u64,
    /// BLAKE3 result hash words.
    pub content_hash_0: u64,
    /// BLAKE3 result hash words.
    pub content_hash_1: u64,
    /// BLAKE3 result hash words.
    pub content_hash_2: u64,
    /// BLAKE3 result hash words.
    pub content_hash_3: u64,
}

/// Shared point/factor matrix and identity metadata.
#[derive(Clone, Copy, Debug)]
pub struct XvDaylightMetadata {
    /// Structure byte size.
    pub structure_size: u32,
    /// Matrix-reuse and future flags.
    pub flags: u32,
    /// Source sensor count.
    pub sensor_count: u64,
    /// Native wall-clock analysis duration.
    pub analysis_time_microseconds: u64,
    /// Matrix hash word zero.
    pub matrix_hash_0: u64,
    /// Matrix hash word one.
    pub matrix_hash_1: u64,
    /// Matrix hash word two.
    pub matrix_hash_2: u64,
    /// Matrix hash word three.
    pub matrix_hash_3: u64,
    /// Result hash word zero.
    pub content_hash_0: u64,
    /// Result hash word one.
    pub content_hash_1: u64,
    /// Result hash word two.
    pub content_hash_2: u64,
    /// Result hash word three.
    pub content_hash_3: u64,
}

/// Radiance export byte count and identity.
#[derive(Clone, Copy, Debug)]
pub struct XvRadianceExportMetadata {
    /// Structure byte size.
    pub structure_size: u32,
    /// Reserved; always zero.
    pub reserved: u32,
    /// UTF-8 bytes required including a trailing NUL.
    pub required_bytes: u64,
    /// Export hash word zero.
    pub content_hash_0: u64,
    /// Export hash word one.
    pub content_hash_1: u64,
    /// Export hash word two.
    pub content_hash_2: u64,
    /// Export hash word three.
    pub content_hash_3: u64,
}

/// Fixed-layout annual result dimensions, diagnostics, runtime, and identity.
#[derive(Clone, Copy, Debug)]
pub struct XvAnnualIrradianceMetadata {
    /// Byte size of this structure.
    pub structure_size: u32,
    /// Reserved; always zero.
    pub reserved: u32,
    /// Source sensor count.
    pub sensor_count: u64,
    /// Source EPW weather-record count.
    pub weather_count: u64,
    /// Sensor-major interval result count.
    pub timeline_count: u64,
    /// Native analysis duration in microseconds.
    pub analysis_time_microseconds: u64,
    /// Sanitized GHI count.
    pub missing_global_horizontal_count: u64,
    /// Sanitized DNI count.
    pub missing_direct_normal_count: u64,
    /// Sanitized DHI count.
    pub missing_diffuse_horizontal_count: u64,
    /// First little-endian word of the result BLAKE3 hash.
    pub content_hash_0: u64,
    /// Second hash word.
    pub content_hash_1: u64,
    /// Third hash word.
    pub content_hash_2: u64,
    /// Fourth hash word.
    pub content_hash_3: u64,
}

/// Fixed-layout Sky View result dimensions, runtime, and identity.
#[derive(Clone, Copy, Debug)]
pub struct XvSkyViewMetadata {
    /// Byte size of this structure.
    pub structure_size: u32,
    /// Reserved; always zero.
    pub reserved: u32,
    /// Source sensor count.
    pub sensor_count: u64,
    /// Hemisphere samples per sensor.
    pub sample_count: u64,
    /// Sensor-major shadow-mask entry count.
    pub timeline_count: u64,
    /// Native analysis duration in microseconds.
    pub analysis_time_microseconds: u64,
    /// First little-endian word of the BLAKE3 result hash.
    pub content_hash_0: u64,
    /// Second hash word.
    pub content_hash_1: u64,
    /// Third hash word.
    pub content_hash_2: u64,
    /// Fourth hash word.
    pub content_hash_3: u64,
}

/// Fixed-layout identity and counts for a calculated sun set.
#[derive(Clone, Copy, Debug)]
pub struct XvSunSetMetadata {
    /// Byte size of this structure.
    pub structure_size: u32,
    /// Refraction and future metadata flags.
    pub flags: u32,
    /// Total ordered sample count.
    pub sample_count: u64,
    /// Samples active after altitude and weight filtering.
    pub active_sample_count: u64,
    /// First little-endian word of the BLAKE3 sun-set hash.
    pub content_hash_0: u64,
    /// Second hash word.
    pub content_hash_1: u64,
    /// Third hash word.
    pub content_hash_2: u64,
    /// Fourth hash word.
    pub content_hash_3: u64,
}

/// Fixed-layout result identity, dimensions, and runtime.
#[derive(Clone, Copy, Debug)]
pub struct XvDirectSunMetadata {
    /// Byte size of this structure.
    pub structure_size: u32,
    /// Reserved; always zero.
    pub reserved: u32,
    /// Source sensor count.
    pub sensor_count: u64,
    /// Source sun sample count.
    pub sun_count: u64,
    /// Sensor-major timeline entry count.
    pub timeline_count: u64,
    /// Analysis runtime in microseconds.
    pub analysis_time_microseconds: u64,
    /// First little-endian word of the BLAKE3 result hash.
    pub content_hash_0: u64,
    /// Second hash word.
    pub content_hash_1: u64,
    /// Third hash word.
    pub content_hash_2: u64,
    /// Fourth hash word.
    pub content_hash_3: u64,
}

/// One scenario referencing ranges in shared material and assignment arrays.
#[derive(Clone, Copy, Debug)]
pub struct XvSolarScenario {
    /// Stable scenario identity.
    pub scenario_id: u64,
    /// First material index.
    pub material_offset: u64,
    /// Material range length.
    pub material_count: u64,
    /// First assignment index.
    pub assignment_offset: u64,
    /// Assignment range length.
    pub assignment_count: u64,
}

/// Variable result counts, dimensions, runtime, and identity for solar scenarios.
#[derive(Clone, Copy, Debug)]
pub struct XvSolarScenarioMetadata {
    /// Byte size of this structure.
    pub structure_size: u32,
    /// Reserved; always zero.
    pub reserved: u32,
    /// Scenario count.
    pub scenario_count: u64,
    /// Sensor count.
    pub sensor_count: u64,
    /// Sun sample count.
    pub sun_count: u64,
    /// Summary count.
    pub summary_count: u64,
    /// Timeline count.
    pub timeline_count: u64,
    /// Actual attribution count.
    pub attribution_count: u64,
    /// Actual category count.
    pub category_count: u64,
    /// Delta count.
    pub delta_count: u64,
    /// Native analysis duration.
    pub analysis_time_microseconds: u64,
    /// BLAKE3 result hash words.
    pub content_hash_0: u64,
    /// BLAKE3 result hash words.
    pub content_hash_1: u64,
    /// BLAKE3 result hash words.
    pub content_hash_2: u64,
    /// BLAKE3 result hash words.
    pub content_hash_3: u64,
}

/// Dimensions, runtime, and identity for the solar envelope.
#[derive(Clone, Copy, Debug)]
pub struct XvSolarEnvelopeMetadata {
    /// Byte size of this structure.
    pub structure_size: u32,
    /// Reserved; always zero.
    pub reserved: u32,
    /// Protected sensor count.
    pub sensor_count: u64,
    /// Candidate/cell count.
    pub candidate_count: u64,
    /// Sun sample count.
    pub sun_count: u64,
    /// Native analysis duration.
    pub analysis_time_microseconds: u64,
    /// BLAKE3 result hash words.
    pub content_hash_0: u64,
    /// BLAKE3 result hash words.
    pub content_hash_1: u64,
    /// BLAKE3 result hash words.
    pub content_hash_2: u64,
    /// BLAKE3 result hash words.
    pub content_hash_3: u64,
}

/// Fixed-layout ranked-study dimensions, runtime, and identity.
#[derive(Clone, Copy, Debug)]
pub struct XvStudyMetadata {
    /// Byte size.
    pub structure_size: u32,
    /// Reserved.
    pub reserved: u32,
    /// Candidate count.
    pub candidate_count: u64,
    /// Objective count.
    pub objective_count: u64,
    /// Constraint count.
    pub constraint_count: u64,
    /// Non-dominated front count.
    pub front_count: u64,
    /// Feasible rank-zero count.
    pub pareto_count: u64,
    /// Native runtime.
    pub analysis_time_microseconds: u64,
    /// Content hash.
    pub content_hash_0: u64,
    /// Content hash.
    pub content_hash_1: u64,
    /// Content hash.
    pub content_hash_2: u64,
    /// Content hash.
    pub content_hash_3: u64,
}

/// Daylight metadata flag: the sky matrix was reused from the cache.
pub const MATRIX_REUSED_FLAG: u32 = 1;

/// Little-endian word `index` of a 32-byte digest.
pub open spec fn digest_word(hash: Seq<u8>, index: int) -> u64 {
    spec_u64_from_le_bytes(hash.subrange(8 * index, 8 * index + 8))
}

/// Fills daylight metadata from the sensor count, the elapsed analysis time
/// in microseconds, whether the sky matrix was reused, and the matrix and
/// result digests.
pub fn daylight_metadata(
    sensor_count: usize,
    elapsed_microseconds: u128,
    matrix_reused: bool,
    matrix_hash: [u8; 32],
    content_hash: [u8; 32],
) -> (metadata: XvDaylightMetadata)
    requires
        vstd::layout::size_of::<XvDaylightMetadata>() <= u32::MAX,
    ensures
        metadata.structure_size == vstd::layout::size_of::<XvDaylightMetadata>(),
        metadata.flags == if matrix_reused {
            MATRIX_REUSED_FLAG
        } else {
            0
        },
        metadata.sensor_count == if sensor_count <= u64::MAX {
            sensor_count as u64
        } else {
            u64::MAX
        },
        metadata.analysis_time_microseconds == if elapsed_microseconds <= u64::MAX {
            elapsed_microseconds as u64
        } else {
            u64::MAX
        },
        metadata.matrix_hash_0 == digest_word(matrix_hash@, 0),
        metadata.matrix_hash_1 == digest_word(matrix_hash@, 1),
        metadata.matrix_hash_2 == digest_word(matrix_hash@, 2),
        metadata.matrix_hash_3 == digest_word(matrix_hash@, 3),
        metadata.content_hash_0 == digest_word(content_hash@, 0),
        metadata.content_hash_1 == digest_word(content_hash@, 1),
        metadata.content_hash_2 == digest_word(content_hash@, 2),
        metadata.content_hash_3 == digest_word(content_hash@, 3),
{
    XvDaylightMetadata {
        structure_size: structure_size::<XvDaylightMetadata>(),
        flags: if matrix_reused {
            MATRIX_REUSED_FLAG
        } else {
            0
        },
        sensor_count: usize_u64(sensor_count),
        analysis_time_microseconds: micros(elapsed_microseconds),
        matrix_hash_0: hash_word(&matrix_hash, 0),
        matrix_hash_1: hash_word(&matrix_hash, 1),
        matrix_hash_2: hash_word(&matrix_hash, 2),
        matrix_hash_3: hash_word(&matrix_hash, 3),
        content_hash_0: hash_word(&content_hash, 0),
        content_hash_1: hash_word(&content_hash, 1),
        content_hash_2: hash_word(&content_hash, 2),
        content_hash_3: hash_word(&content_hash, 3),
    }
}

} // verus!
