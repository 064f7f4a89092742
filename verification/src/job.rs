use crate::abi::structure_size;
use crate::registry::HandleRegistry;
use crate::status::XvStatus;
use vstd::prelude::*;

verus! {

/// Progress flag: cancellation was requested.
pub const JOB_FLAG_CANCEL_REQUESTED: u32 = 1;

/// State of one cooperative job: whether cancellation was requested and the
/// work units declared and completed so far.
#[derive(Clone, Copy, Debug, PartialEq, Eq, Structural)]
pub struct JobControl {
    /// Cancellation was requested.
    pub cancelled: bool,
    /// Work units completed at the last safe cancellation boundary.
    pub completed_units: u64,
    /// Total work units declared by the running operation.
    pub total_units: u64,
}

impl JobControl {
    /// A job with no cancellation request and no declared work.
    pub fn new() -> (job: Self)
        ensures
            !job.cancelled,
            job.completed_units == 0,
            job.total_units == 0,
    {
        JobControl { cancelled: false, completed_units: 0, total_units: 0 }
    }
}

/// Fixed-layout cooperative job progress snapshot.
#[derive(Clone, Copy, Debug)]
pub struct XvJobProgress {
    /// Byte size of this structure.
    pub structure_size: u32,
    /// Cancellation and future job-state flags.
    pub flags: u32,
    /// Total work units declared by the running operation.
    pub total_units: u64,
    /// Work units completed at the last safe cancellation boundary.
    pub completed_units: u64,
    /// Reserved; always zero.
    pub reserved: u64,
}

/// The registry of live jobs.
pub type JobRegistry = HandleRegistry<JobControl>;

/// The job behind a live handle; `InvalidHandle` when there is none.
pub fn get_job(registry: &JobRegistry, handle: u64) -> (job: Result<JobControl, XvStatus>)
    ensures
        match job {
            Ok(control) => registry.entries().contains_key(handle) && control
                == registry.entries()[handle],
            Err(status) => !registry.entries().contains_key(handle) && status
                == XvStatus::InvalidHandle,
        },
{
    match registry.get(handle) {
        Ok(control) => Ok(*control),
        Err(status) => Err(status),
    }
}

/// Creates an independent job and returns its handle.
pub fn job_create(registry: &mut JobRegistry) -> (handle: Result<u64, XvStatus>)
    requires
        old(registry).wf(),
    ensures
        match handle {
            Ok(h) => {
                &&& !old(registry).entries().contains_key(h)
                &&& final(registry).entries() == old(registry).entries().insert(
                    h,
                    JobControl { cancelled: false, completed_units: 0, total_units: 0 },
                )
                &&& final(registry).wf()
            },
            Err(status) => status == XvStatus::InvalidState && final(registry).entries() == old(
                registry,
            ).entries(),
        },
{
    registry.register(JobControl::new())
}

/// Requests cancellation of a live job.
pub fn job_cancel(registry: &mut JobRegistry, handle: u64) -> (outcome: Result<(), XvStatus>)
    ensures
        final(registry).next() == old(registry).next(),
        old(registry).wf() ==> final(registry).wf(),
        match outcome {
            Ok(()) => {
                &&& old(registry).entries().contains_key(handle)
                &&& final(registry).entries() == old(registry).entries().insert(
                    handle,
                    JobControl { cancelled: true, ..old(registry).entries()[handle] },
                )
            },
            Err(status) => {
                &&& !old(registry).entries().contains_key(handle)
                &&& status == XvStatus::InvalidHandle
                &&& final(registry).entries() == old(registry).entries()
            },
        },
{
    let job = get_job(registry, handle);
    match job {
        Ok(control) => {
            registry.insert(handle, JobControl { cancelled: true, ..control });
            proof {
                if old(registry).wf() {
                    assert(0 < handle < old(registry).next());
                }
            }
            Ok(())
        },
        Err(status) => Err(status),
    }
}

/// Records the work declared and completed by the operation running a job.
pub fn job_report_progress(
    registry: &mut JobRegistry,
    handle: u64,
    completed_units: u64,
    total_units: u64,
) -> (outcome: Result<(), XvStatus>)
    ensures
        final(registry).next() == old(registry).next(),
        old(registry).wf() ==> final(registry).wf(),
        match outcome {
            Ok(()) => {
                &&& old(registry).entries().contains_key(handle)
                &&& final(registry).entries() == old(registry).entries().insert(
                    handle,
                    JobControl { completed_units, total_units, ..old(registry).entries()[handle] },
                )
            },
            Err(status) => {
                &&& !old(registry).entries().contains_key(handle)
                &&& status == XvStatus::InvalidHandle
                &&& final(registry).entries() == old(registry).entries()
            },
        },
{
    let job = get_job(registry, handle);
    match job {
        Ok(control) => {
            registry.insert(handle, JobControl { completed_units, total_units, ..control });
            proof {
                if old(registry).wf() {
                    assert(0 < handle < old(registry).next());
                }
            }
            Ok(())
        },
        Err(status) => Err(status),
    }
}

/// The progress snapshot of a job state.
pub open spec fn progress_of(control: JobControl) -> XvJobProgress {
    XvJobProgress {
        structure_size: vstd::layout::size_of::<XvJobProgress>() as u32,
        flags: if control.cancelled {
            JOB_FLAG_CANCEL_REQUESTED
        } else {
            0
        },
        total_units: control.total_units,
        completed_units: control.completed_units,
        reserved: 0,
    }
}

/// Reads a progress snapshot of a live job.
pub fn job_progress(registry: &JobRegistry, handle: u64) -> (progress: Result<
    XvJobProgress,
    XvStatus,
>)
    requires
        vstd::layout::size_of::<XvJobProgress>() <= u32::MAX,
    ensures
        match progress {
            Ok(snapshot) => registry.entries().contains_key(handle) && snapshot == progress_of(
                registry.entries()[handle],
            ),
            Err(status) => !registry.entries().contains_key(handle) && status
                == XvStatus::InvalidHandle,
        },
{
    let job = get_job(registry, handle);
    match job {
        Ok(control) => Ok(
            XvJobProgress {
                structure_size: structure_size::<XvJobProgress>(),
                flags: if control.cancelled {
                    JOB_FLAG_CANCEL_REQUESTED
                } else {
                    0
                },
                total_units: control.total_units,
                completed_units: control.completed_units,
                reserved: 0,
            },
        ),
        Err(status) => Err(status),
    }
}

/// Releases a job handle.
pub fn job_release(registry: &mut JobRegistry, handle: u64) -> (outcome: Result<(), XvStatus>)
    ensures
        final(registry).entries() == old(registry).entries().remove(handle),
        old(registry).wf() ==> final(registry).wf(),
        outcome == (if old(registry).entries().contains_key(handle) {
            Ok::<(), XvStatus>(())
        } else {
            Err(XvStatus::InvalidHandle)
        }),
{
    registry.release(handle)
}

/// After a cancellation request on a live job, its progress snapshot carries
/// the cancellation flag and keeps the reported work units.
pub proof fn lemma_cancel_is_visible(before: JobRegistry, after: JobRegistry, handle: u64)
    requires
        before.entries().contains_key(handle),
        after.entries() == before.entries().insert(
            handle,
            JobControl { cancelled: true, ..before.entries()[handle] },
        ),
    ensures
        after.entries().contains_key(handle),
        progress_of(after.entries()[handle]).flags & JOB_FLAG_CANCEL_REQUESTED != 0,
        progress_of(after.entries()[handle]).total_units == before.entries()[handle].total_units,
        progress_of(after.entries()[handle]).completed_units
            == before.entries()[handle].completed_units,
{
    assert(1u32 & 1u32 != 0) by (bit_vector);
}

/// A progress snapshot carries the cancellation flag exactly when
/// cancellation was requested, no other flag, the reported work units, and a
/// zero reserved word.
pub proof fn lemma_progress_flag_iff_cancelled(control: JobControl)
    ensures
        (progress_of(control).flags & JOB_FLAG_CANCEL_REQUESTED != 0) <==> control.cancelled,
        progress_of(control).flags & !JOB_FLAG_CANCEL_REQUESTED == 0,
        progress_of(control).total_units == control.total_units,
        progress_of(control).completed_units == control.completed_units,
        progress_of(control).reserved == 0,
{
    assert(1u32 & 1u32 != 0) by (bit_vector);
    assert(0u32 & 1u32 == 0) by (bit_vector);
    assert(1u32 & !1u32 == 0) by (bit_vector);
    assert(0u32 & !1u32 == 0) by (bit_vector);
}

/// A freshly created job reports no flag, and reporting progress never sets
/// one: a job that was never cancelled reads back with no flag, whatever
/// work it has reported.
pub proof fn lemma_uncancelled_job_has_no_flag(
    before: JobRegistry,
    after: JobRegistry,
    handle: u64,
    completed_units: u64,
    total_units: u64,
)
    requires
        before.entries().contains_key(handle),
        !before.entries()[handle].cancelled,
        after.entries() == before.entries().insert(
            handle,
            JobControl { completed_units, total_units, ..before.entries()[handle] },
        ),
    ensures
        progress_of(JobControl { cancelled: false, completed_units: 0, total_units: 0 }).flags == 0,
        after.entries().contains_key(handle),
        progress_of(after.entries()[handle]).flags == 0,
        progress_of(after.entries()[handle]).completed_units == completed_units,
        progress_of(after.entries()[handle]).total_units == total_units,
{
}

} // verus!
