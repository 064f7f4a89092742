use xvarna::{
    direct_sun_checks, intervisibility_checks, isovist_outputs, scenario_checks,
    distinct_target_count, intervisibility_outputs, path_vertex_range, per_item_outputs,
    scenario_outputs, sparse_graph_outputs, text_output, total_samples, validate_options,
    visibility_graph_outputs, write_utf8, XvStatus,
};

#[test]
fn option_records_are_validated() {
    assert_eq!(validate_options(64, 64, 0, 1, 1), Ok(()));
    assert_eq!(validate_options(60, 64, 0, 0, 1), Err(XvStatus::InvalidArgument));
    assert_eq!(validate_options(64, 64, 2, 0, 1), Err(XvStatus::InvalidArgument));
    assert_eq!(validate_options(64, 64, 0, 2, 1), Err(XvStatus::InvalidArgument));
}

#[test]
fn per_item_outputs_check_products_and_capacities() {
    assert_eq!(per_item_outputs(3, 128, 3, 384), Ok(384));
    assert_eq!(per_item_outputs(3, 128, 2, 384), Err(XvStatus::InvalidLength));
    assert_eq!(per_item_outputs(3, 128, 3, 383), Err(XvStatus::InvalidLength));
    assert_eq!(per_item_outputs(usize::MAX, 2, usize::MAX, usize::MAX), Err(XvStatus::InvalidLength));
    assert_eq!(intervisibility_outputs(2, 5, 2, 5, 10), Ok(10));
    assert_eq!(intervisibility_outputs(2, 5, 2, 4, 10), Err(XvStatus::InvalidLength));
}

#[test]
fn visibility_graph_pairs_are_counted() {
    assert_eq!(visibility_graph_outputs(0, 0, 0), Ok(0));
    assert_eq!(visibility_graph_outputs(1, 1, 0), Ok(0));
    assert_eq!(visibility_graph_outputs(5, 5, 10), Ok(10));
    assert_eq!(visibility_graph_outputs(5, 5, 9), Err(XvStatus::InvalidLength));
    assert_eq!(visibility_graph_outputs(usize::MAX, usize::MAX, usize::MAX), Err(XvStatus::InvalidLength));
    assert_eq!(sparse_graph_outputs(10, 3, 10, 15), Ok(15));
    assert_eq!(sparse_graph_outputs(10, 3, 10, 14), Err(XvStatus::InvalidLength));
    assert_eq!(sparse_graph_outputs(100_000, 1_000, 100_000, 16_000_000), Ok(16_000_000));
}

#[test]
fn scenario_outputs_count_summaries_timeline_and_deltas() {
    assert_eq!(scenario_outputs(3, 4, 5, 12, 60, 8), Ok((12, 60, 8)));
    assert_eq!(scenario_outputs(0, 4, 5, 0, 0, 0), Ok((0, 0, 0)));
    assert_eq!(scenario_outputs(3, 4, 5, 12, 59, 8), Err(XvStatus::InvalidLength));
}

#[test]
fn observer_path_ranges_stay_inside_the_vertex_buffer() {
    assert_eq!(path_vertex_range(2, 3, 5), Ok((2, 5)));
    assert_eq!(path_vertex_range(2, 4, 5), Err(XvStatus::InvalidLength));
    assert_eq!(path_vertex_range(u64::MAX, 1, usize::MAX), Err(XvStatus::InvalidLength));
    assert_eq!(total_samples(&vec![2, 3, 4]), Ok(9));
    assert_eq!(total_samples(&vec![usize::MAX, 1]), Err(XvStatus::InvalidLength));
}

#[test]
fn distinct_targets_follow_the_category_mask() {
    let ids = vec![7, 7, 9, 11, 9];
    let masks = vec![1, 1, 2, 1, 1];
    assert_eq!(distinct_target_count(&ids, &masks, 1), 3);
    assert_eq!(distinct_target_count(&ids, &masks, 2), 1);
    assert_eq!(distinct_target_count(&ids, &masks, 4), 0);
}

#[test]
fn text_outputs_support_sizing_passes() {
    assert_eq!(text_output(5, 0), Ok(None));
    assert_eq!(text_output(5, 5), Err(XvStatus::InvalidLength));
    assert_eq!(text_output(5, 6), Ok(Some(6)));
    assert_eq!(text_output(usize::MAX, 1), Err(XvStatus::InvalidLength));
    let mut output = [9_u8; 8];
    write_utf8(&mut output, "abc");
    assert_eq!(output, [b'a', b'b', b'c', 0, 9, 9, 9, 9]);
}

#[test]
fn isovist_checks_options_then_sizes() {
    assert_eq!(isovist_outputs(48, 48, 360, 2, 2, 720), Ok((360, 720)));
    assert_eq!(isovist_outputs(40, 48, 360, 2, 2, 720), Err(XvStatus::InvalidArgument));
    assert_eq!(isovist_outputs(48, 48, 360, 2, 1, 720), Err(XvStatus::InvalidLength));
    assert_eq!(isovist_outputs(48, 48, 360, 2, 2, 719), Err(XvStatus::InvalidLength));
    assert_eq!(isovist_outputs(48, 48, u64::MAX, 2, 2, usize::MAX), Err(XvStatus::InvalidLength));
}

#[test]
fn intervisibility_checks_options_then_sizes() {
    assert_eq!(intervisibility_checks(32, 32, 0, 3, 4, 3, 4, 12), Ok(12));
    assert_eq!(intervisibility_checks(32, 32, 1, 3, 4, 3, 4, 12), Err(XvStatus::InvalidArgument));
    assert_eq!(intervisibility_checks(24, 32, 0, 3, 4, 0, 0, 0), Err(XvStatus::InvalidArgument));
    assert_eq!(intervisibility_checks(32, 32, 0, 3, 4, 3, 4, 11), Err(XvStatus::InvalidLength));
}

#[test]
fn direct_sun_checks_sizes_before_records() {
    assert_eq!(direct_sun_checks(2, 5, 2, 10, 88, 88, 5, 40, 40, 0), Ok(10));
    // A short buffer is reported before a malformed record.
    assert_eq!(direct_sun_checks(2, 5, 2, 9, 80, 88, 5, 40, 40, 0), Err(XvStatus::InvalidLength));
    assert_eq!(direct_sun_checks(2, 5, 2, 10, 80, 88, 5, 40, 40, 0), Err(XvStatus::InvalidArgument));
    assert_eq!(direct_sun_checks(2, 5, 2, 10, 88, 88, 5, 40, 40, 1), Err(XvStatus::InvalidArgument));
    assert_eq!(direct_sun_checks(2, 5, 2, 10, 88, 88, 4, 40, 40, 0), Err(XvStatus::InvalidLength));
}

#[test]
fn scenario_checks_records_before_sizes() {
    assert_eq!(scenario_checks(88, 88, 3, 32, 32, 0, 2, 4, 3, 8, 24, 4), Ok((8, 24, 4)));
    // A malformed record is reported before a short buffer.
    assert_eq!(scenario_checks(88, 88, 2, 32, 32, 0, 2, 4, 3, 0, 0, 0), Err(XvStatus::InvalidArgument));
    assert_eq!(scenario_checks(88, 88, 3, 32, 32, 1, 2, 4, 3, 8, 24, 4), Err(XvStatus::InvalidArgument));
    assert_eq!(scenario_checks(88, 88, 3, 32, 32, 0, 2, 4, 3, 8, 23, 4), Err(XvStatus::InvalidLength));
}
