use crate::status::XvStatus;
use vstd::prelude::*;

verus! {

/// The byte size of an ABI structure, as carried in its `structure_size`
/// field.
pub fn structure_size<T>() -> (size: u32)
    requires
        vstd::layout::size_of::<T>() <= u32::MAX,
    ensures
        size == vstd::layout::size_of::<T>(),
{
    let size = core::mem::size_of::<T>();
    size as u32
}

/// Converts a count to `u64`, saturating at `u64::MAX`.
pub fn usize_u64(value: usize) -> (converted: u64)
    ensures
        converted == (if value <= u64::MAX {
            value as u64
        } else {
            u64::MAX
        }),
{
    if value as u128 <= u64::MAX as u128 {
        value as u64
    } else {
        u64::MAX
    }
}

/// Converts an elapsed time in microseconds to `u64`, saturating at
/// `u64::MAX`.
pub fn micros(elapsed_microseconds: u128) -> (converted: u64)
    ensures
        converted == (if elapsed_microseconds <= u64::MAX {
            elapsed_microseconds as u64
        } else {
            u64::MAX
        }),
{
    if elapsed_microseconds <= u64::MAX as u128 {
        elapsed_microseconds as u64
    } else {
        u64::MAX
    }
}

/// Accepts an input record whose declared size is that of `T` and whose
/// reserved word is zero; anything else is `InvalidArgument`.
pub fn validate_structure<T>(size: u32, reserved: u32) -> (outcome: Result<(), XvStatus>)
    requires
        vstd::layout::size_of::<T>() <= u32::MAX,
    ensures
        outcome == (if size == vstd::layout::size_of::<T>() && reserved == 0 {
            Ok::<(), XvStatus>(())
        } else {
            Err(XvStatus::InvalidArgument)
        }),
{
    if size != structure_size::<T>() || reserved != 0 {
        return Err(XvStatus::InvalidArgument);
    }
    Ok(())
}

} // verus!
