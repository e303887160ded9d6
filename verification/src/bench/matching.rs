//! Bringing the writer and the reader of a run together.
use crate::bench::error::BenchError;
use crate::dds_listener::{DdsListener, DdsListenerBuilder, Event};
use crate::dds_qos;
use crate::dds_qos::{DdsQos, DurabilityKind, HistoryKind, ReliabilityKind};
use crate::error::DDSError;
use crate::time::Nanos;
use vstd::prelude::*;

verus! {

/// How long a write may wait.
pub const MAX_BLOCKING: Nanos = 1_000_000_000;

/// How many samples are kept.
pub const HISTORY_DEPTH: i32 = 32;

/// The policies of both sides: nothing is lost, nothing is kept for readers
/// that come late.
pub fn make_qos() -> (r: Result<DdsQos, DDSError>)
    ensures
        r matches Ok(qos) && qos@ == (dds_qos::QosView {
            reliability: Some((ReliabilityKind::Reliable, 1_000_000_000)),
            durability: Some(DurabilityKind::Volatile),
            history: Some((HistoryKind::KeepLast, 32)),
            ..dds_qos::QosView::unset()
        }),
{
    let mut qos = match DdsQos::create() {
        Ok(qos) => qos,
        Err(error) => {
            return Err(error);
        },
    };
    qos.set_reliability(ReliabilityKind::Reliable, MAX_BLOCKING);
    qos.set_durability(DurabilityKind::Volatile);
    match qos.set_history(HistoryKind::KeepLast, HISTORY_DEPTH) {
        Ok(_) => {},
        Err(error) => {
            return Err(error);
        },
    }
    Ok(qos)
}

/// A listener that calls `matched` when the number of peers changes.
pub fn matched_listener<C>(matched: C, writer: bool) -> (r: DdsListener<C>)
    ensures
        r.wf(),
        r.is_hooked(),
        forall|e: Event| #[trigger]
            r.calls_for(e) == if e == (if writer {
                Event::PublicationMatched
            } else {
                Event::SubscriptionMatched
            }) {
                seq![matched]
            } else {
                Seq::empty()
            },
{
    if writer {
        DdsListenerBuilder::new().on_publication_matched(matched).build()
    } else {
        DdsListenerBuilder::new().on_subscription_matched(matched).build()
    }
}

/// Whether a peer has been there, now that `current_count` are.
pub fn note_matched(matched: bool, current_count: u32) -> (r: bool)
    ensures
        r == (matched || current_count > 0),
{
    matched || current_count > 0
}

/// What to do while no peer is there.
#[derive(Debug)]
pub enum MatchWait {
    Matched,
    TimedOut(BenchError),
    /// Look again after a millisecond.
    LookAgain,
}

/// Whether to go on waiting for a peer.
pub fn wait_for_match(matched: bool, elapsed: Nanos, timeout: Nanos) -> (r: MatchWait)
    ensures
        match r {
            MatchWait::Matched => matched,
            MatchWait::TimedOut(error) => {
                &&& !matched
                &&& elapsed >= timeout
                &&& error.text() == "DDS publication/subscription match timeout"@
            },
            MatchWait::LookAgain => !matched && elapsed < timeout,
        },
{
    if matched {
        MatchWait::Matched
    } else if elapsed >= timeout {
        MatchWait::TimedOut(
            BenchError::CaseFailed("DDS publication/subscription match timeout".to_owned()),
        )
    } else {
        MatchWait::LookAgain
    }
}

} // verus!
