use crate::errors::CoreError;
use vstd::prelude::*;

verus! {

/// Checked addition on a 64-bit counter. Succeeds exactly when the sum
/// stays representable; on failure the enclosing operation aborts with
/// `Overflow` and persists nothing.
pub fn counter_add_u64(counter: u64, delta: u64) -> (r: Result<u64, CoreError>)
    ensures
        r is Ok <==> counter + delta <= u64::MAX,
        r matches Ok(c) ==> c == counter + delta,
        r matches Err(e) ==> e == CoreError::Overflow,
{
    if delta <= u64::MAX - counter {
        Ok(counter + delta)
    } else {
        Err(CoreError::Overflow)
    }
}

/// Checked subtraction on a 64-bit counter. Succeeds exactly when the
/// difference stays non-negative; on failure the enclosing operation
/// aborts with `Underflow` and persists nothing.
pub fn counter_sub_u64(counter: u64, delta: u64) -> (r: Result<u64, CoreError>)
    ensures
        r is Ok <==> delta <= counter,
        r matches Ok(c) ==> c == counter - delta,
        r matches Err(e) ==> e == CoreError::Underflow,
{
    if delta <= counter {
        Ok(counter - delta)
    } else {
        Err(CoreError::Underflow)
    }
}

/// Checked addition on a 32-bit counter, as `counter_add_u64`.
pub fn counter_add_u32(counter: u32, delta: u32) -> (r: Result<u32, CoreError>)
    ensures
        r is Ok <==> counter + delta <= u32::MAX,
        r matches Ok(c) ==> c == counter + delta,
        r matches Err(e) ==> e == CoreError::Overflow,
{
    if delta <= u32::MAX - counter {
        Ok(counter + delta)
    } else {
        Err(CoreError::Overflow)
    }
}

} // verus!
