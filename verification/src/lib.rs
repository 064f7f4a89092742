//! Verified core of the XVARNA native engine: status codes, stable flag words,
//! mesh topology auditing, conservative repair, winding repair, handle
//! registries and the integer bookkeeping of the C ABI entry points.

mod status;

pub use status::{outcome_code, status_code_spec, XvStatus};
mod union_find;
pub use union_find::{connected, DisjointSet};
mod flags;
pub use flags::{
    lemma_face_flag_insert, MeshAuditError, MeshClipError, MeshFaceFlags, MeshHealError,
    MeshIssue, MeshVertexFlags, RayError, SurfaceGridError,
};
mod topology;
pub use topology::{classify_faces, FaceVerdict, Mesh};
mod audit;
pub use audit::{
    audit_topology, lemma_components_exist_iff_accepted, lemma_face_counts_partition,
    lemma_face_flag_marks_removal, lemma_isolated_vertices_are_finite_and_unused,
    lemma_rejected_face_changes_no_count, TopologyReport,
};
mod hashing;
pub use hashing::{
    blake3_digest, canonical_mesh_bytes, canonical_mesh_encoding, hash_from_words, hash_mesh,
    hash_surface_grid, surface_grid_bytes,
    hash_word, lemma_encoding_keeps_coordinates, lemma_hash_ignores_zero_sign, lemma_hash_words_round_trip,
    lemma_word_of_assembled_hash,
};
mod repair;
pub use repair::{
    lemma_removed_faces_match_audit, lemma_repair_is_idempotent, lemma_repaired_faces_accepted, lemma_repaired_vertices_are_used,
    repair_mesh_conservative,
    MeshRepairReport,
};
mod abi;
pub use abi::{micros, structure_size, usize_u64, validate_structure};
mod registry;
pub use registry::{
    lemma_registered_handle_reads_back, lemma_released_handle_is_invalid, HandleRegistry,
};
mod job;
pub use job::{
    get_job, job_cancel, job_create, job_progress, job_release, job_report_progress,
    lemma_cancel_is_visible, lemma_progress_flag_iff_cancelled, lemma_uncancelled_job_has_no_flag,
    progress_of, JobControl, JobRegistry, XvJobProgress,
    JOB_FLAG_CANCEL_REQUESTED,
};
mod scene;
pub use scene::{
    classify_instance_delta, get_ready_scene, layer_of, scene_layer, take_builder, DeltaKind,
    SceneLayer, SceneSlot, UPDATE_CATEGORY, UPDATE_LAYER, UPDATE_OBJECT, UPDATE_TRANSFORM,
};
mod winding;
pub use winding::{
    faces_adjacent, found_by, has_finder, is_manifold_walk, lemma_consistent_meshes_fully_resolve, lemma_depth_is_breadth_first_distance,
    orient_closed_components, propagation_forest, repair_winding_consistency, step_on_manifold_edge,
    visited_in_order, WindingConsistency,
};
mod metadata;
pub use metadata::{
    daylight_metadata, digest_word, MATRIX_REUSED_FLAG, XvComputeRuntimeStats, XvCacheOptions, XvCacheStats, XvAdapterInfo, XvIsovistMetadata, XvIntervisibilityMetadata, XvVisibilityGraphMetadata, XvTargetViewMetadata, XvViewCorridorMetadata, XvObserverPathMetadata, XvMaterialAssignment, XvIsovist3dMetadata, XvLandmarkMetadata, XvDaylightMetadata, XvRadianceExportMetadata, XvAnnualIrradianceMetadata, XvSkyViewMetadata, XvSunSetMetadata, XvDirectSunMetadata, XvSolarScenario, XvSolarScenarioMetadata, XvSolarEnvelopeMetadata, XvStudyMetadata,
};
mod ffi;
pub use ffi::{
    adapter_backend_code, audit_summary_flags, backend_code_of, check_buffer, default_morris_levels,
    device_code_of, device_type_code, map_grid_error, mesh_audit_lengths, write_text,
    AUDIT_FLAG_ANALYSIS_READY, AUDIT_FLAG_F32_PRECISION_RISK, AUDIT_FLAG_HAS_BOUNDS,
    AUDIT_FLAG_WATERTIGHT,
};
mod validate;
pub use validate::{lemma_validate_flags_non_finite_vertices, triangle_issues, vertex_issues};
mod surface;
pub use surface::{
    check_cell, check_grid_counts, check_split, next_sensor_id, source_face_index,
    MAXIMUM_SUBDIVISION_DEPTH,
};
mod version;
pub use version::{
    parse_u32, parse_version_component, split_bytes, version_component, ENGINE_VERSION,
};
mod sizing;
pub use sizing::{
    direct_sun_checks, distinct_target_count, intervisibility_checks, intervisibility_outputs,
    isovist_outputs, scenario_checks, pair_count, path_vertex_range,
    per_item_outputs, scenario_outputs, selected_targets, sparse_graph_outputs, text_output,
    total_samples, validate_options, visibility_graph_outputs, write_utf8,
    MAXIMUM_SPARSE_PAIRS,
};
mod study;
pub use study::{
    ask_lengths, coefficient_count, direction_of, matrix_length, objective_directions,
    optimizer_sizes, rank_lengths, solution_flags, tell_capacity, variable_kind,
    ObjectiveDirection, VariableKind, SOLUTION_FEASIBLE_FLAG,
};
