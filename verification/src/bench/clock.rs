//! Reading the clock.
use vstd::prelude::*;

verus! {

/// A reading of std's monotonic clock.
#[verifier::external_type_specification]
#[verifier::external_body]
pub struct ExInstant(std::time::Instant);

/// Calls `std::time::Instant::now`. Nothing is said of the reading.
#[verifier::external_body]
pub(crate) fn now() -> std::time::Instant {
    std::time::Instant::now()
}

/// Calls `std::time::Instant::elapsed` and gives the time in nanoseconds.
/// Nothing is said of how much time has passed.
#[verifier::external_body]
pub(crate) fn elapsed_ns(since: &std::time::Instant) -> u128 {
    since.elapsed().as_nanos()
}

/// Whether a time can have been measured: from one reading of the clock on.
pub closed spec fn measured(elapsed_ns: u128) -> bool {
    exists|since: std::time::Instant| #[trigger]
        call_ensures(now, (), since) && call_ensures(self::elapsed_ns, (&since,), elapsed_ns)
}

/// Whether each time can have been measured.
pub open spec fn all_measured(times: Seq<u128>) -> bool {
    forall|i: int| 0 <= i < times.len() ==> measured(#[trigger] times[i])
}

/// Times added up, at most `u128::MAX`.
pub open spec fn capped_sum(times: Seq<u128>) -> u128
    decreases times.len(),
{
    if times.len() == 0 {
        0
    } else {
        capped(capped_sum(times.drop_last()) + times.last(), u128::MAX as int) as u128
    }
}

/// A time that was measured.
pub(crate) fn since_ns(since: &std::time::Instant) -> (r: u128)
    requires
        call_ensures(now, (), *since),
    ensures
        measured(r),
{
    elapsed_ns(since)
}

/// The smaller of two numbers.
pub open spec fn capped(n: int, max: int) -> int {
    if n <= max {
        n
    } else {
        max
    }
}

/// The nanoseconds of a clock that gives seconds and nanoseconds, at most
/// `u64::MAX`.
pub fn timespec_ns(seconds: u64, nanoseconds: u64) -> (r: u64)
    ensures
        r == capped(
            capped(seconds * 1_000_000_000, u64::MAX as int) + nanoseconds,
            u64::MAX as int,
        ),
{
    let whole: u64 = match seconds.checked_mul(1_000_000_000) {
        Some(whole) => whole,
        None => u64::MAX,
    };
    whole.saturating_add(nanoseconds)
}

/// Times add up to their sum, as far as it can be written, and to the greatest
/// number otherwise.
pub proof fn law_times_add_up(times: Seq<u128>)
    ensures
        times.fold_left(0int, |sum: int, time: u128| sum + time) <= u128::MAX ==> capped_sum(times)
            == times.fold_left(0int, |sum: int, time: u128| sum + time),
        times.fold_left(0int, |sum: int, time: u128| sum + time) > u128::MAX ==> capped_sum(times)
            == u128::MAX,
    decreases times.len(),
{
    reveal(Seq::fold_left);
    if times.len() > 0 {
        law_times_add_up(times.drop_last());
    }
}

/// A number is cut off at the greatest one that is allowed, and kept otherwise.
pub proof fn law_great_numbers_are_cut_off(n: int, max: int)
    ensures
        capped(n, max) <= n,
        capped(n, max) <= max,
        capped(n, max) == n || capped(n, max) == max,
{
}

} // verus!
