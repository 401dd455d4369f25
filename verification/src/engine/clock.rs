//! Points in time and spans between them, in microseconds.

use core::time::Duration;
use vstd::prelude::*;

verus! {

/// The length of a `Duration` in whole microseconds.
pub uninterp spec fn whole_micros(span: Duration) -> nat;

/// `Duration::from_secs`: a span of so many seconds, a million microseconds each.
pub assume_specification[ Duration::from_secs ](secs: u64) -> (span: Duration)
    ensures
        whole_micros(span) == secs * 1_000_000,
;

/// `Duration::as_micros`: the whole microseconds of a span.
pub assume_specification[ Duration::as_micros ](span: &Duration) -> (micros: u128)
    ensures
        micros == whole_micros(*span),
;

/// The distance between two points in time, whichever comes first.
pub open spec fn distance(a: int, b: int) -> int {
    if a >= b {
        a - b
    } else {
        b - a
    }
}

/// Subtracts two `smoltcp::time::Instant`s, each given in microseconds since an
/// arbitrary start. The difference is the distance between them in microseconds,
/// whichever of the two is later; it is computed in an `i64`, which it must fit.
#[verifier::external_body]
pub(crate) fn elapsed(now: i64, since: i64) -> (micros: u64)
    requires
        i64::MIN <= now - since <= i64::MAX,
    ensures
        micros == distance(now as int, since as int),
{
    let now = smoltcp::time::Instant::from_micros_const(now);
    (now - smoltcp::time::Instant::from_micros_const(since)).total_micros()
}

/// Converts a `Duration` of `std` into a `smoltcp::time::Duration` and gives its
/// length: the whole microseconds, which must fit a `u64`.
#[verifier::external_body]
pub(crate) fn span_micros(span: Duration) -> (micros: u64)
    requires
        whole_micros(span) <= u64::MAX,
    ensures
        micros == whole_micros(span),
{
    smoltcp::time::Duration::from(span).total_micros()
}

} // verus!
