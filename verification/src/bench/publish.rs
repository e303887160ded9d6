//! The sending side of a run.
use super::message;
use super::message::{make_message, BenchmarkMessage};
use crate::text;
use vstd::prelude::*;

verus! {

/// The time between two messages at a rate; none where there is no rate.
pub open spec fn period_of(rate_hz: Option<u64>) -> Option<u64> {
    match rate_hz {
        Some(rate) => if rate > 0 {
            Some((1_000_000_000u64 / rate) as u64)
        } else {
            None
        },
        None => None,
    }
}

/// The time between two messages at a rate.
pub fn period_ns(rate_hz: Option<u64>) -> (r: Option<u64>)
    ensures
        r == period_of(rate_hz),
{
    match rate_hz {
        Some(rate) => if rate > 0 {
            Some(1_000_000_000u64 / rate)
        } else {
            None
        },
        None => None,
    }
}

/// Keeps the messages of a run apart.
#[derive(Debug, Clone, Copy, PartialEq, Eq, Structural)]
pub struct Pacer {
    pub period_ns: Option<u64>,
    /// When the next message is due.
    pub next_send_ns: u64,
}

impl Pacer {
    pub fn new(rate_hz: Option<u64>, now_ns: u64) -> (r: Self)
        ensures
            r.period_ns == period_of(rate_hz),
            r.next_send_ns == now_ns,
    {
        Pacer { period_ns: period_ns(rate_hz), next_send_ns: now_ns }
    }

    /// How long to wait before the next message.
    pub fn pause_ns(&self, now_ns: u64) -> (r: u64)
        ensures
            r == if self.period_ns is Some && self.next_send_ns > now_ns {
                self.next_send_ns - now_ns
            } else {
                0
            },
    {
        if self.period_ns.is_some() && self.next_send_ns > now_ns {
            self.next_send_ns - now_ns
        } else {
            0
        }
    }

    /// Moves on to the next message.
    pub fn advance(&mut self)
        requires
            old(self).period_ns matches Some(period) ==> old(self).next_send_ns + period
                <= u64::MAX,
        ensures
            final(self).period_ns == old(self).period_ns,
            final(self).next_send_ns == match old(self).period_ns {
                Some(period) => old(self).next_send_ns + period,
                None => old(self).next_send_ns as int,
            },
    {
        if let Some(period) = self.period_ns {
            self.next_send_ns = self.next_send_ns + period;
        }
    }
}

/// What has been sent so far.
#[derive(Debug, Clone, Copy, PartialEq, Eq, Structural)]
pub struct Publication {
    pub warmup_messages: u64,
    pub total_messages: u64,
    pub payload_bytes: usize,
    /// The message that comes next.
    pub next_sequence: u64,
    pub bytes_sent: u128,
    pub measurement_started: Option<u64>,
    pub measurement_ended: Option<u64>,
}

impl Publication {
    pub open spec fn wf(&self) -> bool {
        &&& self.next_sequence <= self.total_messages
        &&& self.total_messages + self.payload_bytes <= u64::MAX + 2
        &&& self.bytes_sent == self.next_sequence * self.payload_bytes
        &&& self.measurement_started is Some <==> self.warmup_messages < self.next_sequence
    }

    pub fn new(warmup_messages: u64, total_messages: u64, payload_bytes: usize) -> (r: Self)
        requires
            total_messages + payload_bytes <= u64::MAX + 2,
        ensures
            r.wf(),
            r == (Publication {
                warmup_messages,
                total_messages,
                payload_bytes,
                next_sequence: 0,
                bytes_sent: 0,
                measurement_started: None,
                measurement_ended: None,
            }),
    {
        assert(0 * payload_bytes == 0) by (nonlinear_arith);
        Publication {
            warmup_messages,
            total_messages,
            payload_bytes,
            next_sequence: 0,
            bytes_sent: 0,
            measurement_started: None,
            measurement_ended: None,
        }
    }

    /// Whether messages are left to send.
    pub fn wants_more(&self) -> (r: bool)
        ensures
            r == (self.next_sequence < self.total_messages),
    {
        self.next_sequence < self.total_messages
    }

    /// The next message, sent at the given time. The first one behind the
    /// warm-up starts the measurement.
    pub fn next_message(&mut self, now_ns: u64) -> (r: BenchmarkMessage)
        requires
            old(self).wf(),
            old(self).next_sequence < old(self).total_messages,
        ensures
            final(self).wf(),
            r.sequence == old(self).next_sequence,
            r.sent_monotonic_ns == now_ns,
            r.payload@ == message::payload_of(
                old(self).next_sequence,
                old(self).payload_bytes as nat,
            ),
            *final(self) == (Publication {
                next_sequence: (old(self).next_sequence + 1) as u64,
                bytes_sent: (old(self).bytes_sent + old(self).payload_bytes) as u128,
                measurement_started: if old(self).next_sequence == old(self).warmup_messages {
                    Some(now_ns)
                } else {
                    old(self).measurement_started
                },
                ..*old(self)
            }),
    {
        let sequence: u64 = self.next_sequence;
        let ghost size = self.payload_bytes;
        proof {
            assert((sequence + 1) * size == sequence * size + size) by (nonlinear_arith);
            assert((sequence + 1) * size <= 0xffff_ffff_ffff_ffff * 0xffff_ffff_ffff_ffff)
                by (nonlinear_arith)
                requires
                    sequence < 0xffff_ffff_ffff_ffff,
                    size <= 0xffff_ffff_ffff_ffff,
            ;
        }
        if sequence == self.warmup_messages {
            self.measurement_started = Some(now_ns);
        }
        let message = make_message(sequence, self.payload_bytes, now_ns);
        self.bytes_sent = self.bytes_sent + message.payload.len() as u128;
        self.next_sequence = sequence + 1;
        message
    }

    /// Notes that the last message that was made has been written. The last one
    /// of the run ends the measurement.
    pub fn written(&mut self, now_ns: u64)
        ensures
            *final(self) == (Publication {
                measurement_ended: if old(self).next_sequence == old(self).total_messages {
                    Some(now_ns)
                } else {
                    old(self).measurement_ended
                },
                ..*old(self)
            }),
    {
        if self.next_sequence == self.total_messages {
            self.measurement_ended = Some(now_ns);
        }
    }

    /// The time that the measurement took, or that the whole run took where
    /// nothing was measured.
    pub fn elapsed_ns(&self, whole_run_ns: u128) -> (r: u128)
        ensures
            r == match (self.measurement_started, self.measurement_ended) {
                (Some(start), Some(end)) => if end > start {
                    end - start
                } else {
                    0
                },
                _ => whole_run_ns as int,
            },
    {
        match (self.measurement_started, self.measurement_ended) {
            (Some(start), Some(end)) => end.saturating_sub(start) as u128,
            _ => whole_run_ns,
        }
    }
}

/// The line with which the sending process reports that it is done.
pub open spec fn done_text(run_id: Seq<char>, messages_sent: nat, bytes_sent: nat, elapsed_ns: nat) -> Seq<char> {
    "DONE role=publisher run_id="@ + run_id + " messages_sent="@ + text::decimal(messages_sent)
        + " bytes_sent="@ + text::decimal(bytes_sent) + " elapsed_ns="@ + text::decimal(elapsed_ns)
}

/// The line with which the sending process reports that it is done.
pub fn done_line(run_id: &str, messages_sent: u64, bytes_sent: u128, elapsed_ns: u128) -> (r: String)
    ensures
        r@ == done_text(run_id@, messages_sent as nat, bytes_sent as nat, elapsed_ns as nat),
{
    let mut s = "DONE role=publisher run_id=".to_owned();
    s.append(run_id);
    s.append(" messages_sent=");
    text::push_decimal(&mut s, messages_sent as u128);
    s.append(" bytes_sent=");
    text::push_decimal(&mut s, bytes_sent);
    s.append(" elapsed_ns=");
    text::push_decimal(&mut s, elapsed_ns);
    s
}

/// The time between two messages is the longest of which as many fit in a second
/// as messages are to be sent in one. Without a rate, or with a rate of none,
/// nothing is waited for.
pub proof fn law_period_fills_the_second(rate: u64)
    ensures
        period_of(None) is None,
        rate == 0 ==> period_of(Some(rate)) is None,
        rate > 0 ==> (period_of(Some(rate)) matches Some(period) && rate * period <= 1_000_000_000
            && rate * (period + 1) > 1_000_000_000),
{
    if rate > 0 {
        let period = 1_000_000_000u64 / rate;
        assert(rate * period <= 1_000_000_000 && rate * (period + 1) > 1_000_000_000)
            by (nonlinear_arith)
            requires
                rate > 0,
                period == 1_000_000_000u64 / rate,
        ;
    }
}

/// While messages are sent, as many bytes are sent as the payloads of the
/// messages before the next one hold, and the measurement has begun just where
/// one behind the warm-up is among them.
pub proof fn law_publication_counts(p: Publication)
    requires
        p.wf(),
    ensures
        p.next_sequence <= p.total_messages,
        p.bytes_sent == p.next_sequence * p.payload_bytes,
        p.measurement_started is Some <==> p.next_sequence > p.warmup_messages,
{
}

/// The line that ends a run begins with the word for it and the role, and names
/// the run, how many messages and bytes were sent, and how long it took, each
/// number in decimal, in this order and with nothing in between.
pub proof fn law_done_line_is_laid_out(
    run_id: Seq<char>,
    messages_sent: nat,
    bytes_sent: nat,
    elapsed_ns: nat,
)
    ensures
        ({
            let line = done_text(run_id, messages_sent, bytes_sent, elapsed_ns);
            let a = 27 + run_id.len() as int;
            let b = a + 15 + text::decimal(messages_sent).len();
            let c = b + 12 + text::decimal(bytes_sent).len();
            &&& line.subrange(0, 27) == "DONE role=publisher run_id="@
            &&& line.subrange(27, a) == run_id
            &&& line.subrange(a, a + 15) == " messages_sent="@
            &&& line.subrange(a + 15, b) == text::decimal(messages_sent)
            &&& line.subrange(b, b + 12) == " bytes_sent="@
            &&& line.subrange(b + 12, c) == text::decimal(bytes_sent)
            &&& line.subrange(c, c + 12) == " elapsed_ns="@
            &&& line.skip(c + 12) == text::decimal(elapsed_ns)
        }),
{
    reveal_strlit("DONE role=publisher run_id=");
    reveal_strlit(" messages_sent=");
    reveal_strlit(" bytes_sent=");
    reveal_strlit(" elapsed_ns=");
    let line = done_text(run_id, messages_sent, bytes_sent, elapsed_ns);
    let a = 27 + run_id.len() as int;
    let b = a + 15 + text::decimal(messages_sent).len();
    let c = b + 12 + text::decimal(bytes_sent).len();
    assert(line.subrange(0, 27) =~= "DONE role=publisher run_id="@);
    assert(line.subrange(27, a) =~= run_id);
    assert(line.subrange(a, a + 15) =~= " messages_sent="@);
    assert(line.subrange(a + 15, b) =~= text::decimal(messages_sent));
    assert(line.subrange(b, b + 12) =~= " bytes_sent="@);
    assert(line.subrange(b + 12, c) =~= text::decimal(bytes_sent));
    assert(line.subrange(c, c + 12) =~= " elapsed_ns="@);
    assert(line.skip(c + 12) =~= text::decimal(elapsed_ns));
}

} // verus!
