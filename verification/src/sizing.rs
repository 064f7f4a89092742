use crate::status::XvStatus;
use std::collections::HashSet;
use vstd::prelude::*;
use vstd::std_specs::hash::group_hash_axioms;
use vstd::string::StringSliceAdditionalSpecFns;

verus! {

broadcast use group_hash_axioms;

/// Accepts an option record whose declared size is `expected_size`, whose
/// reserved word is zero and whose flags stay within `allowed_flags`;
/// anything else is `InvalidArgument`.
pub fn validate_options(
    structure_size: u32,
    expected_size: u32,
    reserved: u32,
    flags: u32,
    allowed_flags: u32,
) -> (outcome: Result<(), XvStatus>)
    ensures
        outcome == if structure_size != expected_size || reserved != 0 || flags & !allowed_flags
            != 0 {
            Err::<(), XvStatus>(XvStatus::InvalidArgument)
        } else {
            Ok(())
        },
{
    if structure_size != expected_size || reserved != 0 || flags & !allowed_flags != 0 {
        return Err(XvStatus::InvalidArgument);
    }
    Ok(())
}

/// Sizes a per-item analysis: one summary per item and `per_item` detail
/// records for each. The detail count must fit in `usize` and both buffers
/// must be large enough (`InvalidLength` otherwise). Returns the detail count.
pub fn per_item_outputs(
    item_count: usize,
    per_item: usize,
    summary_capacity: usize,
    detail_capacity: usize,
) -> (detail_count: Result<usize, XvStatus>)
    ensures
        detail_count == if item_count * per_item > usize::MAX || summary_capacity < item_count
            || detail_capacity < item_count * per_item {
            Err::<usize, XvStatus>(XvStatus::InvalidLength)
        } else {
            Ok((item_count * per_item) as usize)
        },
{
    let details = match item_count.checked_mul(per_item) {
        Some(value) => value,
        None => {
            return Err(XvStatus::InvalidLength);
        },
    };
    if summary_capacity < item_count || detail_capacity < details {
        return Err(XvStatus::InvalidLength);
    }
    Ok(details)
}

/// Sizes an intervisibility analysis: one summary per observer and per
/// target, and one entry per observer-target pair.
pub fn intervisibility_outputs(
    observer_count: usize,
    target_count: usize,
    observer_summary_capacity: usize,
    target_summary_capacity: usize,
    entry_capacity: usize,
) -> (entry_count: Result<usize, XvStatus>)
    ensures
        entry_count == if observer_count * target_count > usize::MAX || observer_summary_capacity
            < observer_count || target_summary_capacity < target_count || entry_capacity
            < observer_count * target_count {
            Err::<usize, XvStatus>(XvStatus::InvalidLength)
        } else {
            Ok((observer_count * target_count) as usize)
        },
{
    let entries = match observer_count.checked_mul(target_count) {
        Some(value) => value,
        None => {
            return Err(XvStatus::InvalidLength);
        },
    };
    if observer_summary_capacity < observer_count || target_summary_capacity < target_count
        || entry_capacity < entries {
        return Err(XvStatus::InvalidLength);
    }
    Ok(entries)
}

/// Number of unordered pairs of distinct nodes.
pub open spec fn pair_count(node_count: int) -> int {
    if node_count == 0 {
        0
    } else {
        node_count * (node_count - 1) / 2
    }
}

/// Sizes a dense visibility graph: one metric record per node and one pair
/// record per unordered pair of nodes.
pub fn visibility_graph_outputs(
    node_count: usize,
    metric_capacity: usize,
    pair_capacity: usize,
) -> (pairs: Result<usize, XvStatus>)
    ensures
        pairs == if node_count > 0 && node_count * (node_count - 1) > usize::MAX {
            Err::<usize, XvStatus>(XvStatus::InvalidLength)
        } else if metric_capacity < node_count || pair_capacity < pair_count(node_count as int) {
            Err(XvStatus::InvalidLength)
        } else {
            Ok(pair_count(node_count as int) as usize)
        },
{
    let others = node_count.saturating_sub(1);
    let ordered = match node_count.checked_mul(others) {
        Some(value) => value,
        None => {
            return Err(XvStatus::InvalidLength);
        },
    };
    let pairs = ordered / 2;
    if metric_capacity < node_count || pair_capacity < pairs {
        return Err(XvStatus::InvalidLength);
    }
    Ok(pairs)
}

/// Largest pair count a sparse visibility graph may report.
pub const MAXIMUM_SPARSE_PAIRS: usize = 16_000_000;

/// Sizes a sparse visibility graph: one metric record per node and room
/// for at most half of `node_count * neighbor_count` pairs, capped at
/// sixteen million.
pub fn sparse_graph_outputs(
    node_count: usize,
    neighbor_count: usize,
    metric_capacity: usize,
    pair_capacity: usize,
) -> (bound: Result<usize, XvStatus>)
    ensures
        bound == if node_count * neighbor_count > usize::MAX {
            Err::<usize, XvStatus>(XvStatus::InvalidLength)
        } else {
            let pairs = if node_count * neighbor_count / 2 < MAXIMUM_SPARSE_PAIRS {
                node_count * neighbor_count / 2
            } else {
                MAXIMUM_SPARSE_PAIRS as int
            };
            if metric_capacity < node_count || pair_capacity < pairs {
                Err(XvStatus::InvalidLength)
            } else {
                Ok(pairs as usize)
            }
        },
{
    let product = match node_count.checked_mul(neighbor_count) {
        Some(value) => value,
        None => {
            return Err(XvStatus::InvalidLength);
        },
    };
    let half = product / 2;
    let pairs = if half < MAXIMUM_SPARSE_PAIRS {
        half
    } else {
        MAXIMUM_SPARSE_PAIRS
    };
    if metric_capacity < node_count || pair_capacity < pairs {
        return Err(XvStatus::InvalidLength);
    }
    Ok(pairs)
}

/// Sizes a scenario comparison: one summary per scenario and sensor, one
/// timeline entry per summary and sun sample, and one delta per sensor for
/// every scenario after the first. Returns the three counts.
pub fn scenario_outputs(
    scenario_count: usize,
    sensor_count: usize,
    sun_count: usize,
    summary_capacity: usize,
    timeline_capacity: usize,
    delta_capacity: usize,
) -> (counts: Result<(usize, usize, usize), XvStatus>)
    ensures
        counts == if scenario_count * sensor_count > usize::MAX || scenario_count * sensor_count
            * sun_count > usize::MAX || (if scenario_count == 0 {
            0
        } else {
            scenario_count - 1
        }) * sensor_count > usize::MAX {
            Err::<(usize, usize, usize), XvStatus>(XvStatus::InvalidLength)
        } else {
            let summaries = scenario_count * sensor_count;
            let timeline = scenario_count * sensor_count * sun_count;
            let deltas = (if scenario_count == 0 {
                0
            } else {
                scenario_count - 1
            }) * sensor_count;
            if summary_capacity < summaries || timeline_capacity < timeline || delta_capacity
                < deltas {
                Err(XvStatus::InvalidLength)
            } else {
                Ok((summaries as usize, timeline as usize, deltas as usize))
            }
        },
{
    let summaries = match scenario_count.checked_mul(sensor_count) {
        Some(value) => value,
        None => {
            return Err(XvStatus::InvalidLength);
        },
    };
    let timeline = match summaries.checked_mul(sun_count) {
        Some(value) => value,
        None => {
            proof {
                assert(scenario_count * sensor_count * sun_count == summaries * sun_count);
            }
            return Err(XvStatus::InvalidLength);
        },
    };
    let deltas = match scenario_count.saturating_sub(1).checked_mul(sensor_count) {
        Some(value) => value,
        None => {
            return Err(XvStatus::InvalidLength);
        },
    };
    if summary_capacity < summaries || timeline_capacity < timeline || delta_capacity < deltas {
        return Err(XvStatus::InvalidLength);
    }
    Ok((summaries, timeline, deltas))
}

/// The checks an isovist analysis makes before it reads any array: the
/// option record must declare `expected_size` (`InvalidArgument`), its
/// sample count must fit in `usize`, one ray per viewpoint and sample must
/// fit in `usize`, and the summary and ray buffers must be large enough
/// (`InvalidLength`). Returns the sample count and the ray count.
pub fn isovist_outputs(
    options_size: u32,
    expected_size: u32,
    sample_count: u64,
    viewpoint_count: usize,
    summary_capacity: usize,
    ray_capacity: usize,
) -> (counts: Result<(usize, usize), XvStatus>)
    ensures
        counts == if options_size != expected_size {
            Err::<(usize, usize), XvStatus>(XvStatus::InvalidArgument)
        } else if sample_count > usize::MAX || viewpoint_count * sample_count > usize::MAX
            || summary_capacity < viewpoint_count || ray_capacity < viewpoint_count
            * sample_count {
            Err(XvStatus::InvalidLength)
        } else {
            Ok((sample_count as usize, (viewpoint_count * sample_count) as usize))
        },
{
    if options_size != expected_size {
        return Err(XvStatus::InvalidArgument);
    }
    if sample_count > usize::MAX as u64 {
        return Err(XvStatus::InvalidLength);
    }
    let samples = sample_count as usize;
    match per_item_outputs(viewpoint_count, samples, summary_capacity, ray_capacity) {
        Ok(rays) => Ok((samples, rays)),
        Err(status) => Err(status),
    }
}

/// The checks an intervisibility analysis makes before it reads any array:
/// the option record must declare `expected_size` and a zero reserved word
/// (`InvalidArgument`), and its outputs must be sized as
/// `intervisibility_outputs` requires. Returns the entry count.
pub fn intervisibility_checks(
    options_size: u32,
    expected_size: u32,
    reserved: u32,
    observer_count: usize,
    target_count: usize,
    observer_summary_capacity: usize,
    target_summary_capacity: usize,
    entry_capacity: usize,
) -> (entry_count: Result<usize, XvStatus>)
    ensures
        entry_count == if options_size != expected_size || reserved != 0 {
            Err::<usize, XvStatus>(XvStatus::InvalidArgument)
        } else if observer_count * target_count > usize::MAX || observer_summary_capacity
            < observer_count || target_summary_capacity < target_count || entry_capacity
            < observer_count * target_count {
            Err(XvStatus::InvalidLength)
        } else {
            Ok((observer_count * target_count) as usize)
        },
{
    if options_size != expected_size || reserved != 0 {
        return Err(XvStatus::InvalidArgument);
    }
    intervisibility_outputs(
        observer_count,
        target_count,
        observer_summary_capacity,
        target_summary_capacity,
        entry_capacity,
    )
}

/// The checks a direct-sun analysis makes before it reads any array: one
/// summary per sensor and one timeline entry per sensor and sun sample must
/// fit in `usize` and in the buffers (`InvalidLength`); then the sun-set
/// record must declare `expected_sun_size`, and the option record
/// `expected_options_size` and a zero reserved word (`InvalidArgument`);
/// and the sun set must hold exactly `sun_count` samples (`InvalidLength`).
/// Returns the timeline length.
pub fn direct_sun_checks(
    sensor_count: usize,
    sun_count: usize,
    summary_capacity: usize,
    timeline_capacity: usize,
    sun_size: u32,
    expected_sun_size: u32,
    sun_sample_count: u64,
    options_size: u32,
    expected_options_size: u32,
    options_reserved: u32,
) -> (timeline: Result<usize, XvStatus>)
    ensures
        timeline == if sensor_count * sun_count > usize::MAX || summary_capacity < sensor_count
            || timeline_capacity < sensor_count * sun_count {
            Err::<usize, XvStatus>(XvStatus::InvalidLength)
        } else if sun_size != expected_sun_size || options_size != expected_options_size
            || options_reserved != 0 {
            Err(XvStatus::InvalidArgument)
        } else if sun_sample_count != sun_count {
            Err(XvStatus::InvalidLength)
        } else {
            Ok((sensor_count * sun_count) as usize)
        },
{
    let timeline = match per_item_outputs(sensor_count, sun_count, summary_capacity, timeline_capacity) {
        Ok(value) => value,
        Err(status) => {
            return Err(status);
        },
    };
    if sun_size != expected_sun_size || options_size != expected_options_size || options_reserved
        != 0 {
        return Err(XvStatus::InvalidArgument);
    }
    if sun_sample_count != sun_count as u64 {
        return Err(XvStatus::InvalidLength);
    }
    Ok(timeline)
}

/// The checks a solar scenario comparison makes before it reads any array:
/// the sun-set record must declare `expected_sun_size` and hold `sun_count`
/// samples, and the option record must declare `expected_options_size` and
/// a zero reserved word (`InvalidArgument`); then the outputs must be sized
/// as `scenario_outputs` requires. Returns the summary, timeline and delta
/// counts.
pub fn scenario_checks(
    sun_size: u32,
    expected_sun_size: u32,
    sun_sample_count: u64,
    options_size: u32,
    expected_options_size: u32,
    options_reserved: u32,
    scenario_count: usize,
    sensor_count: usize,
    sun_count: usize,
    summary_capacity: usize,
    timeline_capacity: usize,
    delta_capacity: usize,
) -> (counts: Result<(usize, usize, usize), XvStatus>)
    ensures
        counts == if sun_size != expected_sun_size || sun_sample_count != sun_count || options_size
            != expected_options_size || options_reserved != 0 {
            Err::<(usize, usize, usize), XvStatus>(XvStatus::InvalidArgument)
        } else if scenario_count * sensor_count > usize::MAX || scenario_count * sensor_count
            * sun_count > usize::MAX || (if scenario_count == 0 {
            0
        } else {
            scenario_count - 1
        }) * sensor_count > usize::MAX {
            Err(XvStatus::InvalidLength)
        } else {
            let summaries = scenario_count * sensor_count;
            let timeline = scenario_count * sensor_count * sun_count;
            let deltas = (if scenario_count == 0 {
                0
            } else {
                scenario_count - 1
            }) * sensor_count;
            if summary_capacity < summaries || timeline_capacity < timeline || delta_capacity
                < deltas {
                Err(XvStatus::InvalidLength)
            } else {
                Ok((summaries as usize, timeline as usize, deltas as usize))
            }
        },
{
    if sun_size != expected_sun_size || sun_sample_count != sun_count as u64 || options_size
        != expected_options_size || options_reserved != 0 {
        return Err(XvStatus::InvalidArgument);
    }
    scenario_outputs(
        scenario_count,
        sensor_count,
        sun_count,
        summary_capacity,
        timeline_capacity,
        delta_capacity,
    )
}

/// The vertices `offset .. offset + count` of a shared vertex buffer of
/// `vertex_total` entries: both ends must fit in `usize` and the range must
/// lie inside the buffer (`InvalidLength` otherwise).
pub fn path_vertex_range(offset: u64, count: u64, vertex_total: usize) -> (range: Result<
    (usize, usize),
    XvStatus,
>)
    ensures
        range == if offset > usize::MAX || count > usize::MAX || offset + count > usize::MAX
            || offset + count > vertex_total {
            Err::<(usize, usize), XvStatus>(XvStatus::InvalidLength)
        } else {
            Ok((offset as usize, (offset + count) as usize))
        },
{
    if offset as u128 > usize::MAX as u128 || count as u128 > usize::MAX as u128 {
        return Err(XvStatus::InvalidLength);
    }
    let start = offset as usize;
    let length = count as usize;
    let end = match start.checked_add(length) {
        Some(value) => value,
        None => {
            return Err(XvStatus::InvalidLength);
        },
    };
    if end > vertex_total {
        return Err(XvStatus::InvalidLength);
    }
    Ok((start, end))
}

/// Adds per-path sample counts, which must not overflow `usize`.
pub fn total_samples(counts: &Vec<usize>) -> (total: Result<usize, XvStatus>)
    ensures
        total == if counts@.fold_left(0int, |sum: int, count: usize| sum + count) > usize::MAX {
            Err::<usize, XvStatus>(XvStatus::InvalidLength)
        } else {
            Ok(counts@.fold_left(0int, |sum: int, count: usize| sum + count) as usize)
        },
{
    let mut total: usize = 0;
    let mut i: usize = 0;
    while i < counts.len()
        invariant
            i <= counts@.len(),
            total == counts@.take(i as int).fold_left(0int, |sum: int, count: usize| sum + count),
        decreases counts@.len() - i,
    {
        proof {
            assert(counts@.take(i as int + 1).drop_last() =~= counts@.take(i as int));
            lemma_sum_monotone(counts@, i as int + 1);
        }
        match total.checked_add(counts[i]) {
            Some(value) => {
                total = value;
            },
            None => {
                return Err(XvStatus::InvalidLength);
            },
        }
        i = i + 1;
    }
    proof {
        assert(counts@.take(i as int) =~= counts@);
    }
    Ok(total)
}

proof fn lemma_sum_monotone(counts: Seq<usize>, prefix: int)
    requires
        0 <= prefix <= counts.len(),
    ensures
        counts.take(prefix).fold_left(0int, |sum: int, count: usize| sum + count) <= counts.fold_left(
            0int,
            |sum: int, count: usize| sum + count,
        ),
    decreases counts.len() - prefix,
{
    if prefix < counts.len() {
        lemma_sum_monotone(counts, prefix + 1);
        assert(counts.take(prefix + 1).drop_last() =~= counts.take(prefix));
    } else {
        assert(counts.take(prefix) =~= counts);
    }
}

/// Target identifiers of the patches whose category mask meets `mask`.
pub open spec fn selected_targets(target_ids: Seq<u64>, category_masks: Seq<u64>, mask: u64) -> Set<u64> {
    Set::new(
        |id: u64|
            exists|i: int|
                0 <= i < target_ids.len() && #[trigger] target_ids[i] == id && category_masks[i]
                    & mask != 0,
    )
}

/// Counts the distinct target identifiers among the patches whose category
/// mask meets `mask`.
pub fn distinct_target_count(target_ids: &Vec<u64>, category_masks: &Vec<u64>, mask: u64) -> (count:
    usize)
    requires
        target_ids@.len() == category_masks@.len(),
    ensures
        count == selected_targets(target_ids@, category_masks@, mask).len(),
{
    let mut seen: HashSet<u64> = HashSet::new();
    let mut i: usize = 0;
    while i < target_ids.len()
        invariant
            i <= target_ids@.len(),
            target_ids@.len() == category_masks@.len(),
            seen@ == selected_targets(target_ids@.take(i as int), category_masks@.take(i as int), mask),
            seen@.finite(),
            seen@.len() <= i,
        decreases target_ids@.len() - i,
    {
        let ghost before = seen@;
        if category_masks[i] & mask != 0 {
            seen.insert(target_ids[i]);
        }
        i = i + 1;
        proof {
            let ids = target_ids@.take(i as int);
            let masks = category_masks@.take(i as int);
            assert forall|id: u64| #[trigger] seen@.contains(id) == selected_targets(ids, masks, mask).contains(id) by {
                if selected_targets(ids, masks, mask).contains(id) {
                    let j = choose|j: int| 0 <= j < ids.len() && #[trigger] ids[j] == id && masks[j] & mask != 0;
                    if j < i - 1 {
                        assert(target_ids@.take(i - 1)[j] == id);
                        assert(before.contains(id));
                    }
                }
                if before.contains(id) {
                    let old_ids = target_ids@.take(i - 1);
                    let old_masks = category_masks@.take(i - 1);
                    let j = choose|j: int| 0 <= j < old_ids.len() && #[trigger] old_ids[j] == id && old_masks[j] & mask != 0;
                    assert(ids[j] == id);
                }
                if seen@.contains(id) && !before.contains(id) {
                    assert(ids[i - 1] == id);
                }
            }
            assert(seen@ =~= selected_targets(ids, masks, mask));
        }
    }
    proof {
        assert(target_ids@.take(i as int) =~= target_ids@);
        assert(category_masks@.take(i as int) =~= category_masks@);
    }
    seen.len()
}

/// Sizes a text result: the text and a terminating NUL. A zero capacity
/// only asks for the size (`Ok(None)`); a smaller positive capacity is
/// `InvalidLength`; otherwise the byte count to write (`Ok(Some(..))`).
pub fn text_output(text_length: usize, output_capacity: usize) -> (required: Result<
    Option<usize>,
    XvStatus,
>)
    ensures
        required == if text_length + 1 > usize::MAX {
            Err::<Option<usize>, XvStatus>(XvStatus::InvalidLength)
        } else if output_capacity == 0 {
            Ok(None)
        } else if output_capacity < text_length + 1 {
            Err(XvStatus::InvalidLength)
        } else {
            Ok(Some((text_length + 1) as usize))
        },
{
    let bytes = match text_length.checked_add(1) {
        Some(value) => value,
        None => {
            return Err(XvStatus::InvalidLength);
        },
    };
    if output_capacity == 0 {
        return Ok(None);
    }
    if output_capacity < bytes {
        return Err(XvStatus::InvalidLength);
    }
    Ok(Some(bytes))
}

/// Writes `value` followed by a NUL into the front of `output`.
pub fn write_utf8(output: &mut [u8], value: &str)
    requires
        value.spec_bytes().len() < old(output)@.len(),
    ensures
        final(output)@.len() == old(output)@.len(),
        final(output)@.take(value.spec_bytes().len() as int) == value.spec_bytes(),
        final(output)@[value.spec_bytes().len() as int] == 0,
        final(output)@.skip(value.spec_bytes().len() + 1int) == old(output)@.skip(
            value.spec_bytes().len() + 1int,
        ),
{
    let bytes = value.as_bytes();
    let length = bytes.len();
    let mut i: usize = 0;
    while i < length
        invariant
            i <= length,
            length == bytes@.len(),
            bytes@ == value.spec_bytes(),
            length < output@.len(),
            output@.len() == old(output)@.len(),
            forall|j: int| 0 <= j < i ==> #[trigger] output@[j] == bytes@[j],
            forall|j: int| length <= j < output@.len() ==> #[trigger] output@[j] == old(output)@[j],
        decreases length - i,
    {
        output[i] = bytes[i];
        i = i + 1;
    }
    output[length] = 0;
    proof {
        assert(output@.take(length as int) =~= value.spec_bytes());
        assert(output@.skip(length + 1int) =~= old(output)@.skip(length + 1int));
    }
}

} // verus!
