use vstd::prelude::*;

verus! {

/// Relies on chrono's `Utc::now` and `DateTime::timestamp_nanos_opt`: the
/// current time in nanoseconds since the Unix epoch, or `None` where it does
/// not fit in an `i64`. `Utc::now` measures the time since the epoch, so a
/// value that is given is not negative.
#[verifier::external_body]
fn current_nanos() -> (r: Option<i64>)
    ensures
        r matches Some(n) ==> n >= 0,
{
    chrono::Utc::now().timestamp_nanos_opt()
}

/// The current time in nanoseconds since the Unix epoch, the largest `i64`
/// where it is out of range.
pub fn now_nanos() -> (r: i64)
    ensures
        r >= 0,
{
    match current_nanos() {
        Some(n) => n,
        None => i64::MAX,
    }
}

} // verus!
