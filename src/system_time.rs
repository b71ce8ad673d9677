//! Points in time as signed milliseconds from the Unix epoch.
use vstd::prelude::*;

use crate::duration::{whole_millis, Duration, DurationExt};

verus! {

#[verifier::external_type_specification]
#[verifier::external_body]
pub struct ExSystemTime(std::time::SystemTime);

/// Which side of the Unix epoch a point in time lies on (`true`: before it),
/// and its distance from the epoch in nanoseconds, as
/// `SystemTime::duration_since` measures it.
pub uninterp spec fn unix_span_of(t: std::time::SystemTime) -> (bool, nat);

/// Relies on `SystemTime::duration_since` against the Unix epoch: `Ok` with
/// the span from the epoch to `t`, or, when `t` lies before the epoch, an
/// error whose `duration` is the span back to `t`. The span comes out as
/// whole seconds and the nanoseconds below a second, which `subsec_nanos`
/// documents as below one billion.
#[verifier::external_body]
fn unix_span(t: &std::time::SystemTime) -> (r: (bool, u64, u32))
    ensures
        r.2 < 1_000_000_000,
        unix_span_of(*t) == (r.0, r.1 as nat * 1_000_000_000 + r.2 as nat),
{
    match t.duration_since(std::time::UNIX_EPOCH) {
        Ok(d) => (false, d.as_secs(), d.subsec_nanos()),
        Err(e) => (true, e.duration().as_secs(), e.duration().subsec_nanos()),
    }
}

/// Signed milliseconds for a span of `nanos` nanoseconds after the epoch, or
/// before it; `None` when they do not fit in an `i64`.
pub open spec fn signed_millis(before: bool, nanos: nat) -> Option<i64> {
    if whole_millis(nanos) <= i64::MAX {
        if before {
            Some((-whole_millis(nanos)) as i64)
        } else {
            Some(whole_millis(nanos) as i64)
        }
    } else {
        None
    }
}

/// `n` as an `i64`, or `None` when it is too large.
pub fn to_i64(n: u64) -> (r: Option<i64>)
    ensures
        r == if n <= i64::MAX {
            Some(n as i64)
        } else {
            None
        },
{
    if n <= i64::MAX as u64 {
        Some(n as i64)
    } else {
        None
    }
}

/// Milliseconds from the epoch for a time given by its distance to the
/// epoch: `Ok` after it, `Err` before it.
pub fn unix_millis_from(since: Result<Duration, Duration>) -> (r: Option<i64>)
    ensures
        r == match since {
            Ok(d) => signed_millis(false, d@),
            Err(d) => signed_millis(true, d@),
        },
{
    match since {
        Ok(d) => match d.as_millis() {
            Some(m) => to_i64(m),
            None => None,
        },
        Err(d) => match d.as_millis() {
            Some(m) => match to_i64(m) {
                Some(n) => Some(-n),
                None => None,
            },
            None => None,
        },
    }
}

/// Milliseconds between a point in time and the Unix epoch.
pub trait SystemTimeExt {
    /// The whole milliseconds from the Unix epoch to this time, negative
    /// before the epoch, or `None` when they do not fit in an `i64`.
    fn as_unix_millis(&self) -> Option<i64>;
}

impl SystemTimeExt for std::time::SystemTime {
    fn as_unix_millis(&self) -> (r: Option<i64>)
        ensures
            r == signed_millis(unix_span_of(*self).0, unix_span_of(*self).1),
    {
        let (before, secs, nanos) = unix_span(self);
        let d = Duration::new(secs, nanos);
        if before {
            unix_millis_from(Err(d))
        } else {
            unix_millis_from(Ok(d))
        }
    }
}

} // verus!
