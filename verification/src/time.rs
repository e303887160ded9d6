//! Time spans and moments.
use vstd::prelude::*;

verus! {

/// A time span, or a moment on a monotonic clock, in nanoseconds.
pub type Nanos = u128;

/// The last moment that the clock can show: 63 bits of seconds.
pub const LAST_MOMENT: Nanos = 9_223_372_036_854_775_807_999_999_999;

/// The moment a time span later, where the clock can show it.
pub open spec fn later(moment: Nanos, span: Nanos) -> Option<Nanos> {
    if moment + span <= LAST_MOMENT {
        Some((moment + span) as Nanos)
    } else {
        None
    }
}

/// The moment a time span later, where the clock can show it.
pub fn checked_later(moment: Nanos, span: Nanos) -> (r: Option<Nanos>)
    ensures
        r == later(moment, span),
{
    match moment.checked_add(span) {
        Some(sum) => if sum <= LAST_MOMENT {
            Some(sum)
        } else {
            None
        },
        None => None,
    }
}

/// The time between two moments; none where the first is the later one.
pub open spec fn between(since: Nanos, now: Nanos) -> int {
    if now >= since {
        now - since
    } else {
        0
    }
}

/// A later moment lies the whole span behind the first, and is there where it
/// fits into 63 bits of seconds.
pub proof fn law_later_lies_a_span_behind(moment: Nanos, span: Nanos)
    ensures
        later(moment, span) matches Some(end) ==> end - moment == span,
        later(moment, span) is Some <==> (moment + span) / 1_000_000_000 < 0x8000_0000_0000_0000,
{
}

/// The time between two moments leads from the first to the second; it is none
/// where the first is the later one.
pub proof fn law_between_leads_from_first_to_second(since: Nanos, now: Nanos)
    ensures
        since <= now ==> since + between(since, now) == now,
        since > now ==> between(since, now) == 0,
{
}

} // verus!
