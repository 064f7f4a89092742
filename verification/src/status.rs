use vstd::prelude::*;

verus! {

/// Status returned by native ABI operations.
#[derive(Clone, Copy, Debug, PartialEq, Eq, Structural)]
pub enum XvStatus {
    /// Operation completed successfully.
    Success,
    /// A required pointer was null.
    NullPointer,
    /// A length overflowed or an output buffer was too small.
    InvalidLength,
    /// A numeric option was invalid.
    InvalidArgument,
    /// A scene handle does not exist or was already released.
    InvalidHandle,
    /// The scene handle is valid but not in the required build state.
    InvalidState,
    /// A cooperative job cancellation was observed.
    Cancelled,
    /// A Rust panic was contained at the ABI boundary.
    Panic,
}

/// The stable numeric code of a status.
pub open spec fn status_code_spec(status: XvStatus) -> i32 {
    match status {
        XvStatus::Success => 0,
        XvStatus::NullPointer => 1,
        XvStatus::InvalidLength => 2,
        XvStatus::InvalidArgument => 3,
        XvStatus::InvalidHandle => 4,
        XvStatus::InvalidState => 5,
        XvStatus::Cancelled => 6,
        XvStatus::Panic => 255,
    }
}

impl XvStatus {
    /// Returns the stable numeric code carried across the C ABI.
    pub fn code(self) -> (code: i32)
        ensures
            code == status_code_spec(self),
    {
        match self {
            XvStatus::Success => 0,
            XvStatus::NullPointer => 1,
            XvStatus::InvalidLength => 2,
            XvStatus::InvalidArgument => 3,
            XvStatus::InvalidHandle => 4,
            XvStatus::InvalidState => 5,
            XvStatus::Cancelled => 6,
            XvStatus::Panic => 255,
        }
    }
}

/// Folds the outcome of an ABI operation into its status code: zero on
/// success, the error's code otherwise.
pub fn outcome_code(outcome: Result<(), XvStatus>) -> (code: i32)
    ensures
        code == match outcome {
            Ok(()) => 0i32,
            Err(status) => status_code_spec(status),
        },
{
    match outcome {
        Ok(()) => 0,
        Err(status) => status.code(),
    }
}

} // verus!
