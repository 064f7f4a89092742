use xvarna::{
    classify_instance_delta, parse_version_component, scene_layer, DeltaKind, SceneLayer,
    get_job, get_ready_scene, job_cancel, job_create, job_progress, job_release,
    job_report_progress, take_builder, DisjointSet, HandleRegistry, JobRegistry, SceneSlot,
    XvStatus, JOB_FLAG_CANCEL_REQUESTED,
};

#[test]
fn job_control_reports_progress_cancellation_and_release() {
    let mut jobs: JobRegistry = HandleRegistry::new();
    let handle = job_create(&mut jobs).expect("job exists");
    assert!(get_job(&jobs, handle).is_ok());
    assert_eq!(job_report_progress(&mut jobs, handle, 25, 100), Ok(()));
    let progress = job_progress(&jobs, handle).expect("progress");
    assert_eq!(progress.total_units, 100);
    assert_eq!(progress.completed_units, 25);
    assert_eq!(progress.structure_size, 32);
    assert_eq!(job_cancel(&mut jobs, handle), Ok(()));
    let progress = job_progress(&jobs, handle).expect("progress");
    assert_ne!(progress.flags & JOB_FLAG_CANCEL_REQUESTED, 0);
    assert_eq!(job_release(&mut jobs, handle), Ok(()));
    assert_eq!(job_cancel(&mut jobs, handle), Err(XvStatus::InvalidHandle));
    assert_eq!(job_release(&mut jobs, handle), Err(XvStatus::InvalidHandle));
    assert!(matches!(get_job(&jobs, handle), Err(XvStatus::InvalidHandle)));
}

#[test]
fn handles_are_distinct_and_start_at_one() {
    let mut jobs: JobRegistry = HandleRegistry::new();
    let first = job_create(&mut jobs).expect("first");
    let second = job_create(&mut jobs).expect("second");
    assert_eq!(first, 1);
    assert_eq!(second, 2);
    let fresh = get_job(&jobs, second).expect("second job");
    assert!(!fresh.cancelled);
    assert_eq!(fresh.completed_units, 0);
    assert_eq!(fresh.total_units, 0);
}

#[test]
fn scene_slots_report_build_state() {
    let mut scenes: HandleRegistry<SceneSlot<&str, u32>> = HandleRegistry::new();
    let handle = scenes.register(SceneSlot::Building("builder")).expect("handle");
    assert!(matches!(get_ready_scene(&scenes, handle), Err(XvStatus::InvalidState)));
    assert!(matches!(get_ready_scene(&scenes, 99), Err(XvStatus::InvalidHandle)));
    assert_eq!(take_builder(&mut scenes, handle).ok(), Some("builder"));
    assert!(matches!(take_builder(&mut scenes, handle), Err(XvStatus::InvalidHandle)));
    scenes.insert(handle, SceneSlot::Ready(7));
    assert_eq!(get_ready_scene(&scenes, handle).ok().copied(), Some(7));
    assert!(matches!(take_builder(&mut scenes, handle), Err(XvStatus::InvalidState)));
    assert_eq!(scenes.release(handle), Ok(()));
    assert_eq!(scenes.release(handle), Err(XvStatus::InvalidHandle));
}

#[test]
fn union_find_joins_linked_elements() {
    let mut sets = DisjointSet::new(6);
    sets.union(0, 1);
    sets.union(2, 3);
    sets.union(1, 3);
    assert_eq!(sets.find(0), sets.find(2));
    assert_ne!(sets.find(0), sets.find(4));
    assert_ne!(sets.find(4), sets.find(5));
}

#[test]
fn instance_deltas_are_classified() {
    assert_eq!(scene_layer(0), Ok(SceneLayer::Static));
    assert_eq!(scene_layer(1), Ok(SceneLayer::Dynamic));
    assert_eq!(scene_layer(2), Err(XvStatus::InvalidArgument));
    assert_eq!(classify_instance_delta(40, 48, 0, 2, 0), Err(XvStatus::InvalidArgument));
    assert_eq!(classify_instance_delta(48, 48, 16, 0, 0), Err(XvStatus::InvalidArgument));
    assert_eq!(classify_instance_delta(48, 48, 0, 2, 9), Ok(DeltaKind::Remove));
    assert_eq!(classify_instance_delta(48, 48, 1, 2, 0), Err(XvStatus::InvalidArgument));
    assert_eq!(
        classify_instance_delta(48, 48, 0, 1, 1),
        Ok(DeltaKind::Add { layer: SceneLayer::Dynamic })
    );
    assert_eq!(classify_instance_delta(48, 48, 0, 1, 5), Err(XvStatus::InvalidArgument));
    assert_eq!(
        classify_instance_delta(48, 48, 9, 0, 0),
        Ok(DeltaKind::Update {
            transform: true,
            object: false,
            category: false,
            layer: Some(SceneLayer::Static),
        })
    );
    assert_eq!(classify_instance_delta(48, 48, 8, 0, 3), Err(XvStatus::InvalidArgument));
    assert_eq!(classify_instance_delta(48, 48, 0, 3, 0), Err(XvStatus::InvalidArgument));
}

#[test]
fn exported_versions_match_workspace_contract() {
    assert_eq!(parse_version_component("0.19.0", 0), 0);
    assert_eq!(parse_version_component("0.19.0", 1), 19);
    assert_eq!(parse_version_component("0.19.0", 2), 0);
    assert_eq!(parse_version_component("0.19.0", 3), 0);
    assert_eq!(parse_version_component("1.2.3-beta.1", 2), 3);
    assert_eq!(parse_version_component("1.x.3", 1), 0);
    assert_eq!(parse_version_component("1.+7.3", 1), 7);
    assert_eq!(parse_version_component("1.99999999999.3", 1), 0);
    assert_eq!(parse_version_component("", 0), 0);
}
