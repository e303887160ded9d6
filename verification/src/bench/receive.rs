//! The receiving side of a run.
use super::cases::{BenchmarkCase, ResolvedCase, CASE_SCHEMA_VERSION, DOMAIN_ID};
use super::latency;
use super::latency::latency_summary;
use super::message;
use super::message::{make_message, BenchmarkMessage};
use super::record::{ResultRecord, Throughput};
use crate::text;
use crate::util::same_bytes;
use std::collections::HashSet;
use vstd::prelude::*;

verus! {

broadcast use vstd::std_specs::hash::group_hash_axioms;

/// What has arrived so far.
#[derive(Debug)]
pub struct Reception {
    warmup_messages: u64,
    total_messages: u64,
    payload_bytes: usize,
    seen: HashSet<u64>,
    messages_received: u64,
    bytes_received: u128,
    duplicate: u64,
    out_of_order: u64,
    last_sequence: Option<u64>,
    latencies: Vec<u64>,
    measurement_started: Option<u64>,
    measurement_ended: Option<u64>,
    payload_error: Option<String>,
}

/// What has arrived so far, as a value.
#[verifier::ext_equal]
pub struct ReceptionView {
    /// Messages before this one warm up and are not measured.
    pub warmup_messages: u64,
    pub total_messages: u64,
    pub payload_bytes: usize,
    /// The sequence numbers that have arrived.
    pub seen: Set<u64>,
    pub messages_received: nat,
    pub bytes_received: nat,
    /// Arrivals of a number that had arrived before.
    pub duplicate: nat,
    /// Arrivals of a number below that of the arrival before.
    pub out_of_order: nat,
    pub last_sequence: Option<u64>,
    pub latencies: Seq<u64>,
    pub measurement_started: Option<u64>,
    pub measurement_ended: Option<u64>,
    pub payload_error: Option<Seq<char>>,
}

/// One arrival: a sample, whether it is valid, and when it came.
pub struct Arrival {
    pub valid: bool,
    pub message: message::MessageView,
    pub received_at: u64,
}

impl ReceptionView {
    /// Nothing has arrived.
    pub open spec fn start(warmup_messages: u64, total_messages: u64, payload_bytes: usize) -> Self {
        ReceptionView {
            warmup_messages,
            total_messages,
            payload_bytes,
            seen: Set::empty(),
            messages_received: 0,
            bytes_received: 0,
            duplicate: 0,
            out_of_order: 0,
            last_sequence: None,
            latencies: Seq::empty(),
            measurement_started: None,
            measurement_ended: None,
            payload_error: None,
        }
    }

    /// Whether a message is one of those that are measured.
    pub open spec fn measures(self, sequence: u64) -> bool {
        self.warmup_messages <= sequence < self.total_messages
    }

    /// Whether an arrival holds another payload than was sent.
    pub open spec fn mismatches(self, message: message::MessageView) -> bool {
        message.sequence < self.total_messages && message.payload != message::payload_of(
            message.sequence,
            self.payload_bytes as nat,
        )
    }

    /// Whether a measured message came before it was sent.
    pub open spec fn too_early(self, arrival: Arrival) -> bool {
        self.measures(arrival.message.sequence) && arrival.received_at
            < arrival.message.sent_monotonic_ns
    }

    /// What is known after one more arrival.
    pub open spec fn after(self, arrival: Arrival) -> Self {
        if !arrival.valid {
            ReceptionView { payload_error: Some("received invalid sample"@), ..self }
        } else {
            let message = arrival.message;
            let measured = self.measures(message.sequence);
            ReceptionView {
                seen: self.seen.insert(message.sequence),
                messages_received: self.messages_received + 1,
                bytes_received: self.bytes_received + message.payload.len(),
                duplicate: if self.seen.contains(message.sequence) {
                    self.duplicate + 1
                } else {
                    self.duplicate
                },
                out_of_order: if self.last_sequence is Some && message.sequence
                    < self.last_sequence->0 {
                    self.out_of_order + 1
                } else {
                    self.out_of_order
                },
                last_sequence: Some(message.sequence),
                latencies: if measured && !self.too_early(arrival) {
                    self.latencies.push(
                        (arrival.received_at - message.sent_monotonic_ns) as u64,
                    )
                } else {
                    self.latencies
                },
                measurement_started: if measured && self.measurement_started is None {
                    Some(arrival.received_at)
                } else {
                    self.measurement_started
                },
                measurement_ended: if measured {
                    Some(arrival.received_at)
                } else {
                    self.measurement_ended
                },
                payload_error: if self.too_early(arrival) {
                    Some("negative latency at sequence "@ + text::decimal(message.sequence as nat))
                } else if self.mismatches(message) {
                    Some("payload mismatch at sequence "@ + text::decimal(message.sequence as nat))
                } else {
                    self.payload_error
                },
                ..self
            }
        }
    }

    /// How many messages never came.
    pub open spec fn missing(self) -> nat {
        missing_below(self.seen, self.total_messages as nat)
    }

    /// The time between the first and the last measured arrival.
    pub open spec fn elapsed_ns(self) -> nat {
        if self.measurement_started is Some && self.measurement_ended is Some
            && self.measurement_ended->0 > self.measurement_started->0 {
            (self.measurement_ended->0 - self.measurement_started->0) as nat
        } else {
            0
        }
    }

    /// Whether every message came, once, in order and unharmed.
    pub open spec fn complete(self) -> bool {
        self.missing() == 0 && self.duplicate == 0 && self.out_of_order == 0
            && self.payload_error is None
    }

    /// What went wrong, where something did.
    pub open spec fn error(self) -> Option<Seq<char>> {
        if self.payload_error is Some {
            self.payload_error
        } else if self.missing() > 0 {
            Some("missing "@ + text::decimal(self.missing()) + " samples"@)
        } else {
            None
        }
    }

    /// Every valid arrival brought a new number or counts as a duplicate.
    pub open spec fn accounted(self) -> bool {
        &&& self.seen.finite()
        &&& self.seen.len() + self.duplicate == self.messages_received
        &&& self.out_of_order <= self.messages_received
        &&& self.last_sequence is Some ==> self.seen.contains(self.last_sequence->0)
        &&& self.last_sequence is None ==> self.messages_received == 0
    }
}

/// How many of the numbers below `total` are not in `seen`.
pub open spec fn missing_below(seen: Set<u64>, total: nat) -> nat
    decreases total,
{
    if total == 0 {
        0
    } else {
        missing_below(seen, (total - 1) as nat) + if seen.contains((total - 1) as u64) {
            0nat
        } else {
            1nat
        }
    }
}

/// What is known after a row of arrivals.
pub open spec fn after_all(start: ReceptionView, history: Seq<Arrival>) -> ReceptionView
    decreases history.len(),
{
    if history.len() == 0 {
        start
    } else {
        after_all(start, history.drop_last()).after(history.last())
    }
}

impl View for Reception {
    type V = ReceptionView;

    closed spec fn view(&self) -> ReceptionView {
        ReceptionView {
            warmup_messages: self.warmup_messages,
            total_messages: self.total_messages,
            payload_bytes: self.payload_bytes,
            seen: self.seen@,
            messages_received: self.messages_received as nat,
            bytes_received: self.bytes_received as nat,
            duplicate: self.duplicate as nat,
            out_of_order: self.out_of_order as nat,
            last_sequence: self.last_sequence,
            latencies: self.latencies@,
            measurement_started: self.measurement_started,
            measurement_ended: self.measurement_ended,
            payload_error: text::text_of(self.payload_error),
        }
    }
}

impl Reception {
    /// The counts agree with each other, and expected payloads can be made.
    pub open spec fn wf(&self) -> bool {
        &&& self@.accounted()
        &&& self@.bytes_received <= self@.messages_received * usize::MAX
        &&& self@.total_messages + self@.payload_bytes <= u64::MAX + 2
    }

    pub fn new(warmup_messages: u64, total_messages: u64, payload_bytes: usize) -> (r: Self)
        requires
            total_messages + payload_bytes <= u64::MAX + 2,
        ensures
            r.wf(),
            r@ == ReceptionView::start(warmup_messages, total_messages, payload_bytes),
    {
        let r = Reception {
            warmup_messages,
            total_messages,
            payload_bytes,
            seen: HashSet::new(),
            messages_received: 0,
            bytes_received: 0,
            duplicate: 0,
            out_of_order: 0,
            last_sequence: None,
            latencies: Vec::new(),
            measurement_started: None,
            measurement_ended: None,
            payload_error: None,
        };
        assert(r@ =~= ReceptionView::start(warmup_messages, total_messages, payload_bytes));
        r
    }

    /// Whether messages are still to come.
    pub fn wants_more(&self) -> (r: bool)
        requires
            self.wf(),
        ensures
            r == (self@.seen.len() < self@.total_messages),
    {
        (self.seen.len() as u64) < self.total_messages
    }

    /// Notes one arrival.
    pub fn note(&mut self, valid: bool, message: &BenchmarkMessage, received_at: u64)
        requires
            old(self).wf(),
            old(self)@.messages_received < u64::MAX,
        ensures
            final(self).wf(),
            final(self)@ == old(self)@.after(
                (Arrival { valid, message: message@, received_at }),
            ),
    {
        let ghost before = self@;
        let ghost arrival = Arrival { valid, message: message@, received_at };
        if !valid {
            self.payload_error = Some("received invalid sample".to_owned());
            assert(self@ =~= before.after(arrival));
            return ;
        }
        proof {
            let n = before.messages_received;
            assert((n + 1) * usize::MAX == n * usize::MAX + usize::MAX) by (nonlinear_arith);
            assert((n + 1) * usize::MAX <= 0xffff_ffff_ffff_ffff * 0xffff_ffff_ffff_ffff)
                by (nonlinear_arith)
                requires
                    n < 0xffff_ffff_ffff_ffff,
                    usize::MAX <= 0xffff_ffff_ffff_ffff,
            ;
        }
        self.messages_received = self.messages_received + 1;
        self.bytes_received = self.bytes_received + message.payload.len() as u128;
        if !self.seen.insert(message.sequence) {
            self.duplicate = self.duplicate + 1;
        }
        if let Some(previous) = self.last_sequence {
            if message.sequence < previous {
                self.out_of_order = self.out_of_order + 1;
            }
        }
        self.last_sequence = Some(message.sequence);
        if message.sequence < self.total_messages {
            let expected = make_message(
                message.sequence,
                self.payload_bytes,
                message.sent_monotonic_ns,
            );
            if !same_bytes(&message.payload, &expected.payload) {
                self.payload_error = Some(
                    "payload mismatch at sequence ".to_owned().concat(
                        text::decimal_text(message.sequence as u128).as_str(),
                    ),
                );
            }
        }
        if message.sequence >= self.warmup_messages && message.sequence < self.total_messages {
            if self.measurement_started.is_none() {
                self.measurement_started = Some(received_at);
            }
            self.measurement_ended = Some(received_at);
            if received_at < message.sent_monotonic_ns {
                self.payload_error = Some(
                    "negative latency at sequence ".to_owned().concat(
                        text::decimal_text(message.sequence as u128).as_str(),
                    ),
                );
            } else {
                self.latencies.push(received_at - message.sent_monotonic_ns);
            }
        }
        assert(self@ =~= before.after(arrival));
    }

    /// How many messages never came.
    pub fn missing(&self) -> (r: u64)
        ensures
            r == self@.missing(),
    {
        let mut missing: u64 = 0;
        let mut sequence: u64 = 0;
        while sequence < self.total_messages
            invariant
                sequence <= self.total_messages,
                missing <= sequence,
                missing == missing_below(self@.seen, sequence as nat),
            decreases self.total_messages - sequence,
        {
            if !self.seen.contains(&sequence) {
                missing = missing + 1;
            }
            sequence = sequence + 1;
        }
        missing
    }

    /// The time between the first and the last measured arrival.
    pub fn elapsed_ns(&self) -> (r: u64)
        ensures
            r == self@.elapsed_ns(),
    {
        match (self.measurement_started, self.measurement_ended) {
            (Some(start), Some(end)) => end.saturating_sub(start),
            _ => 0,
        }
    }

    /// The record of a finished run.
    pub fn finished(
        self,
        run_id: &str,
        case_id: &str,
        case_definition: &BenchmarkCase,
        resolved_case: &ResolvedCase,
    ) -> (r: ResultRecord<Throughput>)
        requires
            self.wf(),
        ensures
            r.describes(run_id@, case_id@, case_definition@),
            r.status@ == if self@.complete() {
                "ok"@
            } else {
                "error"@
            },
            r.shm == case_definition.shm,
            r.interface@ == "lo"@,
            r.payload_bytes == resolved_case.payload_bytes,
            r.serialized_bytes == resolved_case.serialized_bytes,
            r.elapsed_ns == self@.elapsed_ns(),
            r.messages_sent == self@.total_messages,
            r.messages_received == self@.messages_received,
            r.bytes_sent == self@.total_messages * resolved_case.payload_bytes,
            r.bytes_received == self@.bytes_received,
            r.missing == self@.missing(),
            r.duplicate == self@.duplicate,
            r.out_of_order == self@.out_of_order,
            r.throughput_bytes_per_sec == if self@.elapsed_ns() > 0 {
                Some(
                    Throughput {
                        measured_messages: case_definition.measured_messages,
                        payload_bytes: resolved_case.payload_bytes,
                        elapsed_ns: self@.elapsed_ns() as u128,
                    },
                )
            } else {
                None
            },
            r.latency == if self@.latencies.len() > 0 {
                Some(latency::summary_of(self@.latencies))
            } else {
                None
            },
            r.serialize_elapsed_ns is None,
            r.deserialize_elapsed_ns is None,
            r.roundtrip_ok is None,
            text::text_of(r.error) == self@.error(),
    {
        let missing: u64 = self.missing();
        let elapsed_ns: u128 = self.elapsed_ns() as u128;
        let complete = missing == 0 && self.duplicate == 0 && self.out_of_order == 0
            && self.payload_error.is_none();
        let total: u128 = self.total_messages as u128;
        let payload: u128 = resolved_case.payload_bytes as u128;
        assert(0 <= total * payload <= 0xffff_ffff_ffff_ffff * 0xffff_ffff_ffff_ffff)
            by (nonlinear_arith)
            requires
                0 <= total <= 0xffff_ffff_ffff_ffff,
                0 <= payload <= 0xffff_ffff_ffff_ffff,
        ;
        let bytes_sent: u128 = total * payload;
        let error = if self.payload_error.is_some() {
            self.payload_error
        } else if missing > 0 {
            Some(
                "missing ".to_owned().concat(text::decimal_text(missing as u128).as_str()).concat(
                    " samples",
                ),
            )
        } else {
            None
        };
        ResultRecord {
            schema_version: CASE_SCHEMA_VERSION,
            run_id: run_id.to_owned(),
            case_id: case_id.to_owned(),
            status: if complete {
                "ok".to_owned()
            } else {
                "error".to_owned()
            },
            kind: case_definition.kind,
            transport: case_definition.transport.clone(),
            shm: case_definition.shm,
            domain_id: DOMAIN_ID,
            interface: "lo".to_owned(),
            payload_bytes: resolved_case.payload_bytes,
            serialized_bytes: resolved_case.serialized_bytes,
            rate_hz: case_definition.rate_hz,
            burst: case_definition.burst,
            warmup_messages: case_definition.warmup_messages,
            measured_messages: case_definition.measured_messages,
            elapsed_ns,
            messages_sent: self.total_messages,
            messages_received: self.messages_received,
            bytes_sent,
            bytes_received: self.bytes_received,
            missing,
            duplicate: self.duplicate,
            out_of_order: self.out_of_order,
            throughput_bytes_per_sec: if elapsed_ns > 0 {
                Some(
                    Throughput {
                        measured_messages: case_definition.measured_messages,
                        payload_bytes: resolved_case.payload_bytes,
                        elapsed_ns,
                    },
                )
            } else {
                None
            },
            latency: latency_summary(self.latencies),
            serialize_elapsed_ns: None,
            deserialize_elapsed_ns: None,
            roundtrip_ok: None,
            unsupported: Vec::new(),
            error,
        }
    }
}

/// The sequence numbers of the valid arrivals, in their order.
pub open spec fn sequences(history: Seq<Arrival>) -> Seq<u64>
    decreases history.len(),
{
    if history.len() == 0 {
        Seq::empty()
    } else if history.last().valid {
        sequences(history.drop_last()).push(history.last().message.sequence)
    } else {
        sequences(history.drop_last())
    }
}

/// After any row of arrivals the counts agree: as many valid arrivals as were
/// received, each a new number or a duplicate.
pub proof fn law_arrivals_are_accounted(start: ReceptionView, history: Seq<Arrival>)
    requires
        start == ReceptionView::start(
            start.warmup_messages,
            start.total_messages,
            start.payload_bytes,
        ),
    ensures
        ({
            let end = after_all(start, history);
            &&& end.accounted()
            &&& end.messages_received == sequences(history).len()
            &&& forall|n: u64| #[trigger] end.seen.contains(n) <==> sequences(history).contains(n)
            &&& end.last_sequence == if sequences(history).len() > 0 {
                Some(sequences(history).last())
            } else {
                None
            }
            &&& end.total_messages == start.total_messages
        }),
    decreases history.len(),
{
    if history.len() > 0 {
        let front = history.drop_last();
        law_arrivals_are_accounted(start, front);
        let before = sequences(front);
        let all = sequences(history);
        let end = after_all(start, history);
        if history.last().valid {
            let n = history.last().message.sequence;
            assert(all == before.push(n));
            assert forall|m: u64| #[trigger] end.seen.contains(m) <==> all.contains(m) by {
                if before.contains(m) {
                    let i = choose|i: int| 0 <= i < before.len() && before[i] == m;
                    assert(all[i] == m);
                }
                assert(all[before.len() as int] == n);
                if all.contains(m) && m != n {
                    let i = choose|i: int| 0 <= i < all.len() && all[i] == m;
                    assert(before[i] == m);
                }
            }
        }
    }
}

proof fn lemma_missing_none(seen: Set<u64>, total: nat)
    requires
        missing_below(seen, total) == 0,
        total <= u64::MAX,
    ensures
        forall|n: u64| n < total ==> #[trigger] seen.contains(n),
    decreases total,
{
    if total > 0 {
        lemma_missing_none(seen, (total - 1) as nat);
    }
}

proof fn lemma_increasing(start: ReceptionView, history: Seq<Arrival>)
    requires
        start == ReceptionView::start(
            start.warmup_messages,
            start.total_messages,
            start.payload_bytes,
        ),
        after_all(start, history).duplicate == 0,
        after_all(start, history).out_of_order == 0,
    ensures
        forall|i: int, j: int|
            0 <= i < j < sequences(history).len() ==> sequences(history)[i] < sequences(history)[j],
    decreases history.len(),
{
    if history.len() > 0 {
        let front = history.drop_last();
        law_arrivals_are_accounted(start, front);
        lemma_increasing(start, front);
        let before = sequences(front);
        let all = sequences(history);
        if history.last().valid {
            let n = history.last().message.sequence;
            assert forall|i: int, j: int| 0 <= i < j < all.len() implies all[i] < all[j] by {
                if j == before.len() {
                    assert(before.contains(before.last()));
                    assert(!before.contains(n));
                    assert(before.last() < n);
                    assert(before[i] <= before.last());
                }
            }
        }
    }
}

/// A run that is complete has received the messages 0, 1, 2 and so on, in this
/// order, before any other.
pub proof fn law_complete_run_is_in_order(start: ReceptionView, history: Seq<Arrival>)
    requires
        start == ReceptionView::start(
            start.warmup_messages,
            start.total_messages,
            start.payload_bytes,
        ),
        after_all(start, history).complete(),
    ensures
        sequences(history).len() >= start.total_messages,
        forall|i: int| 0 <= i < start.total_messages ==> #[trigger] sequences(history)[i] == i,
{
    law_arrivals_are_accounted(start, history);
    lemma_increasing(start, history);
    let end = after_all(start, history);
    lemma_missing_none(end.seen, start.total_messages as nat);
    assert forall|n: u64| n < start.total_messages implies #[trigger] sequences(history).contains(
        n,
    ) by {
        assert(end.seen.contains(n));
    }
    lemma_positions(sequences(history), start.total_messages as int);
}

proof fn lemma_positions(s: Seq<u64>, total: int)
    requires
        0 <= total <= u64::MAX,
        forall|i: int, j: int| 0 <= i < j < s.len() ==> s[i] < s[j],
        forall|n: u64| n < total ==> #[trigger] s.contains(n),
    ensures
        s.len() >= total,
        forall|i: int| 0 <= i < total ==> #[trigger] s[i] == i,
    decreases total,
{
    if total > 0 {
        let k = total - 1;
        lemma_positions(s, k);
        assert(s.contains(k as u64));
        let j = choose|j: int| 0 <= j < s.len() && s[j] == k as u64;
        if j < k {
            assert(s[j] == j);
        }
        if j > k {
            assert(s[k] < s[j]);
            if k > 0 {
                assert(s[k - 1] == k - 1);
                assert(s[k - 1] < s[k]);
            }
        }
    }
}

proof fn lemma_settings_stay(start: ReceptionView, history: Seq<Arrival>)
    ensures
        after_all(start, history).warmup_messages == start.warmup_messages,
        after_all(start, history).total_messages == start.total_messages,
        after_all(start, history).payload_bytes == start.payload_bytes,
    decreases history.len(),
{
    if history.len() > 0 {
        lemma_settings_stay(start, history.drop_last());
    }
}

/// After any row of arrivals there is one latency for each valid arrival whose
/// number lies behind the warm-up and below the total and that was not received
/// before it was sent, in the order of arrival. Added to the time at which the
/// message was sent, it gives the time at which it was received.
pub proof fn law_latency_leads_from_sending_to_receipt(
    warmup: u64,
    total: u64,
    payload_bytes: usize,
    history: Seq<Arrival>,
)
    ensures
        ({
            let end = after_all(ReceptionView::start(warmup, total, payload_bytes), history);
            let timed = history.filter(
                |a: Arrival|
                    a.valid && warmup <= a.message.sequence < total && a.received_at
                        >= a.message.sent_monotonic_ns,
            );
            &&& end.latencies.len() == timed.len()
            &&& forall|i: int|
                0 <= i < timed.len() ==> #[trigger] end.latencies[i]
                    + timed[i].message.sent_monotonic_ns == timed[i].received_at
        }),
    decreases history.len(),
{
    reveal(Seq::filter);
    if history.len() > 0 {
        law_latency_leads_from_sending_to_receipt(warmup, total, payload_bytes, history.drop_last());
        lemma_settings_stay(
            ReceptionView::start(warmup, total, payload_bytes),
            history.drop_last(),
        );
    }
}

/// The time of a run is that from the first arrival behind the warm-up to the
/// last one; a run without such arrivals, or one whose clock went back, took no
/// time.
pub proof fn law_time_is_from_first_to_last_measured(
    warmup: u64,
    total: u64,
    payload_bytes: usize,
    history: Seq<Arrival>,
)
    ensures
        ({
            let end = after_all(ReceptionView::start(warmup, total, payload_bytes), history);
            let measured = history.filter(
                |a: Arrival| a.valid && warmup <= a.message.sequence < total,
            );
            if measured.len() == 0 {
                end.elapsed_ns() == 0
            } else if measured.last().received_at >= measured[0].received_at {
                measured[0].received_at + end.elapsed_ns() == measured.last().received_at
            } else {
                end.elapsed_ns() == 0
            }
        }),
{
    lemma_first_and_last(warmup, total, payload_bytes, history);
}

proof fn lemma_first_and_last(
    warmup: u64,
    total: u64,
    payload_bytes: usize,
    history: Seq<Arrival>,
)
    ensures
        ({
            let end = after_all(ReceptionView::start(warmup, total, payload_bytes), history);
            let measured = history.filter(
                |a: Arrival| a.valid && warmup <= a.message.sequence < total,
            );
            if measured.len() == 0 {
                end.measurement_started is None && end.measurement_ended is None
            } else {
                end.measurement_started == Some(measured[0].received_at) && end.measurement_ended
                    == Some(measured.last().received_at)
            }
        }),
    decreases history.len(),
{
    reveal(Seq::filter);
    if history.len() > 0 {
        lemma_first_and_last(warmup, total, payload_bytes, history.drop_last());
        lemma_settings_stay(
            ReceptionView::start(warmup, total, payload_bytes),
            history.drop_last(),
        );
    }
}

/// As many messages are received as arrivals are valid, and as many bytes as
/// their payloads hold. Those that bring no new number are the duplicates. Out of
/// order are those whose number is below that of the valid arrival before.
pub proof fn law_valid_arrivals_are_counted(
    warmup: u64,
    total: u64,
    payload_bytes: usize,
    history: Seq<Arrival>,
)
    ensures
        ({
            let end = after_all(ReceptionView::start(warmup, total, payload_bytes), history);
            let valid = history.filter(|a: Arrival| a.valid);
            let numbers = valid.map_values(|a: Arrival| a.message.sequence);
            &&& end.messages_received == valid.len()
            &&& end.bytes_received == valid.fold_left(
                0int,
                |sum: int, a: Arrival| sum + a.message.payload.len(),
            )
            &&& end.seen == numbers.to_set()
            &&& end.duplicate == numbers.len() - numbers.to_set().len()
            &&& end.out_of_order == Seq::new(numbers.len(), |i: int| i).filter(
                |i: int| i > 0 && numbers[i] < numbers[i - 1],
            ).len()
        }),
    decreases history.len(),
{
    reveal(Seq::filter);
    reveal(Seq::fold_left);
    let start = ReceptionView::start(warmup, total, payload_bytes);
    let valid = history.filter(|a: Arrival| a.valid);
    let numbers = valid.map_values(|a: Arrival| a.message.sequence);
    law_arrivals_are_accounted(start, history);
    lemma_sequences(history);
    assert(after_all(start, history).seen =~= numbers.to_set());
    if history.len() > 0 {
        let front = history.drop_last();
        law_valid_arrivals_are_counted(warmup, total, payload_bytes, front);
        law_arrivals_are_accounted(start, front);
        lemma_sequences(front);
        let before = front.filter(|a: Arrival| a.valid).map_values(
            |a: Arrival| a.message.sequence,
        );
        if history.last().valid {
            assert(valid.drop_last() =~= front.filter(|a: Arrival| a.valid));
            assert(numbers =~= before.push(history.last().message.sequence));
            let places = Seq::new(numbers.len(), |i: int| i);
            assert(places.drop_last() =~= Seq::new(before.len(), |i: int| i));
            lemma_same_filter(
                places.drop_last(),
                |i: int| i > 0 && numbers[i] < numbers[i - 1],
                |i: int| i > 0 && before[i] < before[i - 1],
            );
        }
    } else {
        assert(numbers =~= Seq::empty());
        assert(Seq::new(0, |i: int| i) =~= Seq::<int>::empty());
    }
}

proof fn lemma_sequences(history: Seq<Arrival>)
    ensures
        sequences(history) == history.filter(|a: Arrival| a.valid).map_values(
            |a: Arrival| a.message.sequence,
        ),
    decreases history.len(),
{
    reveal(Seq::filter);
    if history.len() > 0 {
        lemma_sequences(history.drop_last());
    }
    assert(sequences(history) =~= history.filter(|a: Arrival| a.valid).map_values(
        |a: Arrival| a.message.sequence,
    ));
}

proof fn lemma_same_filter(places: Seq<int>, a: spec_fn(int) -> bool, b: spec_fn(int) -> bool)
    requires
        forall|i: int| 0 <= i < places.len() ==> a(#[trigger] places[i]) == b(places[i]),
    ensures
        places.filter(a) == places.filter(b),
    decreases places.len(),
{
    reveal(Seq::filter);
    if places.len() > 0 {
        let front = places.drop_last();
        assert(forall|i: int| 0 <= i < front.len() ==> front[i] == places[i]);
        lemma_same_filter(front, a, b);
        assert(a(places[places.len() - 1]) == b(places[places.len() - 1]));
    }
}

/// Missing are as many messages as there are numbers below the total that no
/// valid arrival brought.
pub proof fn law_missing_are_those_that_never_came(
    warmup: u64,
    total: u64,
    payload_bytes: usize,
    history: Seq<Arrival>,
)
    ensures
        after_all(ReceptionView::start(warmup, total, payload_bytes), history).missing() == Seq::new(
            total as nat,
            |i: int| i,
        ).filter(
            |n: int|
                !exists|k: int|
                    0 <= k < history.len() && (#[trigger] history[k]).valid
                        && history[k].message.sequence == n,
        ).len(),
{
    let start = ReceptionView::start(warmup, total, payload_bytes);
    let end = after_all(start, history);
    lemma_settings_stay(start, history);
    law_arrivals_are_accounted(start, history);
    lemma_missing_counted(end.seen, total as nat);
    let numbers = Seq::new(total as nat, |i: int| i);
    let brought = |n: int|
        !exists|k: int|
            0 <= k < history.len() && (#[trigger] history[k]).valid
                && history[k].message.sequence == n;
    assert forall|i: int| 0 <= i < numbers.len() implies (|n: int| !end.seen.contains(n as u64))(
        #[trigger] numbers[i],
    ) == brought(numbers[i]) by {
        lemma_brought(history, i as u64);
        assert(end.seen.contains(i as u64) <==> sequences(history).contains(i as u64));
    }
    lemma_same_filter(numbers, |n: int| !end.seen.contains(n as u64), brought);
}

proof fn lemma_missing_counted(seen: Set<u64>, total: nat)
    requires
        total <= u64::MAX,
    ensures
        missing_below(seen, total) == Seq::new(total, |i: int| i).filter(
            |n: int| !seen.contains(n as u64),
        ).len(),
    decreases total,
{
    reveal(Seq::filter);
    let numbers = Seq::new(total, |i: int| i);
    if total > 0 {
        assert(numbers.drop_last() =~= Seq::new((total - 1) as nat, |i: int| i));
        lemma_missing_counted(seen, (total - 1) as nat);
    } else {
        assert(numbers =~= Seq::<int>::empty());
    }
}

proof fn lemma_brought(history: Seq<Arrival>, n: u64)
    ensures
        sequences(history).contains(n) <==> exists|k: int|
            0 <= k < history.len() && (#[trigger] history[k]).valid && history[k].message.sequence
                == n,
    decreases history.len(),
{
    if history.len() > 0 {
        let front = history.drop_last();
        lemma_brought(front, n);
        let before = sequences(front);
        let all = sequences(history);
        assert(forall|k: int| 0 <= k < front.len() ==> front[k] == history[k]);
        assert(history[history.len() - 1] == history.last());
        if history.last().valid {
            assert(all == before.push(history.last().message.sequence));
            if before.contains(n) {
                let i = choose|i: int| 0 <= i < before.len() && before[i] == n;
                assert(all[i] == n);
            }
            assert(all[before.len() as int] == history.last().message.sequence);
            if all.contains(n) && n != history.last().message.sequence {
                let i = choose|i: int| 0 <= i < all.len() && all[i] == n;
                assert(before[i] == n);
            }
        }
        if exists|k: int|
            0 <= k < front.len() && (#[trigger] front[k]).valid && front[k].message.sequence == n {
            let k = choose|k: int|
                0 <= k < front.len() && (#[trigger] front[k]).valid && front[k].message.sequence
                    == n;
            assert(history[k].valid);
        }
        if exists|k: int|
            0 <= k < history.len() && (#[trigger] history[k]).valid && history[k].message.sequence
                == n {
            let k = choose|k: int|
                0 <= k < history.len() && (#[trigger] history[k]).valid
                    && history[k].message.sequence == n;
            if k < front.len() {
                assert(front[k].valid);
            }
        }
    }
}

/// Whether nothing is to be said against an arrival of a run: it is valid, a
/// message of the run holds the bytes that belong to its number, and one that is
/// measured was not received before it was sent.
pub open spec fn is_sound(a: Arrival, warmup: u64, total: u64, payload_bytes: usize) -> bool {
    &&& a.valid
    &&& a.message.sequence < total ==> {
        &&& a.message.payload.len() == payload_bytes
        &&& forall|i: int|
            0 <= i < payload_bytes ==> (#[trigger] a.message.payload[i]) == (i + a.message.sequence)
                % 251
    }
    &&& warmup <= a.message.sequence < total ==> a.received_at >= a.message.sent_monotonic_ns
}

/// An error is reported of the payloads just where some arrival is not sound.
/// It names the last that was not.
pub proof fn law_last_unsound_arrival_is_reported(
    warmup: u64,
    total: u64,
    payload_bytes: usize,
    history: Seq<Arrival>,
)
    ensures
        ({
            let end = after_all(ReceptionView::start(warmup, total, payload_bytes), history);
            let unsound = history.filter(
                |a: Arrival| !is_sound(a, warmup, total, payload_bytes),
            );
            &&& end.payload_error is None <==> unsound.len() == 0
            &&& unsound.len() > 0 && !unsound.last().valid ==> end.payload_error == Some(
                "received invalid sample"@,
            )
            &&& unsound.len() > 0 && unsound.last().valid ==> {
                let a = unsound.last();
                let number = text::decimal(a.message.sequence as nat);
                end.payload_error == if warmup <= a.message.sequence < total && a.received_at
                    < a.message.sent_monotonic_ns {
                    Some("negative latency at sequence "@ + number)
                } else {
                    Some("payload mismatch at sequence "@ + number)
                }
            }
        }),
    decreases history.len(),
{
    reveal(Seq::filter);
    if history.len() > 0 {
        let front = history.drop_last();
        let start = ReceptionView::start(warmup, total, payload_bytes);
        law_last_unsound_arrival_is_reported(warmup, total, payload_bytes, front);
        lemma_settings_stay(start, front);
        let m = history.last().message;
        let expected = message::payload_of(m.sequence, payload_bytes as nat);
        assert(forall|i: int|
            0 <= i < payload_bytes ==> #[trigger] expected[i] == (i + m.sequence) % 251);
        if m.payload.len() == payload_bytes && forall|i: int|
            0 <= i < payload_bytes ==> (#[trigger] m.payload[i]) == (i + m.sequence) % 251 {
            assert(m.payload =~= expected);
        }
        if m.payload == expected {
            assert(m.payload.len() == payload_bytes);
        }
    }
}

/// Whether an arrival brings message `n`.
pub open spec fn brings(history: Seq<Arrival>, n: u64) -> bool {
    exists|k: int| 0 <= k < history.len() && (#[trigger] history[k]).message.sequence == n
}

/// A run is complete just where every arrival is sound, the numbers of the
/// arrivals increase, and every number below the total is among them.
pub proof fn law_complete_run(warmup: u64, total: u64, payload_bytes: usize, history: Seq<Arrival>)
    ensures
        ({
            let end = after_all(ReceptionView::start(warmup, total, payload_bytes), history);
            end.complete() <==> {
                &&& forall|k: int|
                    0 <= k < history.len() ==> is_sound(
                        #[trigger] history[k],
                        warmup,
                        total,
                        payload_bytes,
                    )
                &&& forall|j: int, k: int|
                    0 <= j < k < history.len() ==> (#[trigger] history[j]).message.sequence < (
                    #[trigger] history[k]).message.sequence
                &&& forall|n: u64| n < total ==> #[trigger] brings(history, n)
            }
        }),
{
    let start = ReceptionView::start(warmup, total, payload_bytes);
    let end = after_all(start, history);
    lemma_settings_stay(start, history);
    law_last_unsound_arrival_is_reported(warmup, total, payload_bytes, history);
    law_arrivals_are_accounted(start, history);
    let unsound = |a: Arrival| !is_sound(a, warmup, total, payload_bytes);
    lemma_all_pass(history, unsound);
    let sound = forall|k: int|
        0 <= k < history.len() ==> is_sound(#[trigger] history[k], warmup, total, payload_bytes);
    let increasing = forall|j: int, k: int|
        0 <= j < k < history.len() ==> (#[trigger] history[j]).message.sequence < (
        #[trigger] history[k]).message.sequence;
    let present = forall|n: u64| n < total ==> #[trigger] brings(history, n);
    assert(sound <==> end.payload_error is None) by {
        if end.payload_error is None {
            assert forall|k: int| 0 <= k < history.len() implies is_sound(
                #[trigger] history[k],
                warmup,
                total,
                payload_bytes,
            ) by {
                assert(!unsound(history[k]));
            }
        }
        if sound {
            assert forall|k: int| 0 <= k < history.len() implies !unsound(#[trigger] history[k]) by {
                assert(is_sound(history[k], warmup, total, payload_bytes));
            }
        }
    }
    if sound {
        assert forall|k: int| 0 <= k < history.len() implies (#[trigger] history[k]).valid by {
            assert(is_sound(history[k], warmup, total, payload_bytes));
        }
        lemma_all_valid(history);
        assert forall|n: u64| #![trigger end.seen.contains(n)] #![trigger brings(history, n)]
            end.seen.contains(n) == brings(history, n) by {
            lemma_brought(history, n);
            if end.seen.contains(n) {
                let k = choose|k: int|
                    0 <= k < history.len() && (#[trigger] history[k]).valid
                        && history[k].message.sequence == n;
                assert(history[k].message.sequence == n);
            }
            if brings(history, n) {
                let k = choose|k: int|
                    0 <= k < history.len() && (#[trigger] history[k]).message.sequence == n;
                assert(history[k].valid);
            }
        }
        if end.complete() {
            lemma_increasing(start, history);
            lemma_missing_none(end.seen, total as nat);
            assert forall|j: int, k: int| 0 <= j < k < history.len() implies (
            #[trigger] history[j]).message.sequence < (#[trigger] history[k]).message.sequence by {
                assert(sequences(history)[j] == history[j].message.sequence);
                assert(sequences(history)[k] == history[k].message.sequence);
            }
        }
        if increasing && present {
            lemma_increasing_counts(start, history);
            assert forall|n: u64| n < total implies #[trigger] end.seen.contains(n) by {
                assert(brings(history, n));
            }
            lemma_none_missing(end.seen, total as nat);
            assert(end.complete());
        }
    }
    assert(end.complete() <==> sound && increasing && present);
}

proof fn lemma_all_pass(history: Seq<Arrival>, wanted: spec_fn(Arrival) -> bool)
    ensures
        history.filter(wanted).len() == 0 <==> forall|k: int|
            0 <= k < history.len() ==> !wanted(#[trigger] history[k]),
    decreases history.len(),
{
    reveal(Seq::filter);
    if history.len() > 0 {
        let front = history.drop_last();
        lemma_all_pass(front, wanted);
        assert(forall|k: int| 0 <= k < front.len() ==> front[k] == history[k]);
        assert(history[history.len() - 1] == history.last());
        if front.filter(wanted).len() == 0 && !wanted(history.last()) {
            assert forall|k: int| 0 <= k < history.len() implies !wanted(#[trigger] history[k]) by {
                if k < front.len() {
                    assert(!wanted(front[k]));
                }
            }
        }
        if forall|k: int| 0 <= k < history.len() ==> !wanted(#[trigger] history[k]) {
            assert forall|k: int| 0 <= k < front.len() implies !wanted(#[trigger] front[k]) by {
                assert(!wanted(history[k]));
            }
        }
    }
}

proof fn lemma_all_valid(history: Seq<Arrival>)
    requires
        forall|k: int| 0 <= k < history.len() ==> (#[trigger] history[k]).valid,
    ensures
        sequences(history).len() == history.len(),
        forall|k: int|
            0 <= k < history.len() ==> #[trigger] sequences(history)[k]
                == history[k].message.sequence,
    decreases history.len(),
{
    if history.len() > 0 {
        let front = history.drop_last();
        assert(forall|k: int| 0 <= k < front.len() ==> front[k] == history[k]);
        lemma_all_valid(front);
        assert(history[history.len() - 1].valid);
    }
}

proof fn lemma_increasing_counts(start: ReceptionView, history: Seq<Arrival>)
    requires
        start == ReceptionView::start(
            start.warmup_messages,
            start.total_messages,
            start.payload_bytes,
        ),
        forall|k: int| 0 <= k < history.len() ==> (#[trigger] history[k]).valid,
        forall|j: int, k: int|
            0 <= j < k < history.len() ==> (#[trigger] history[j]).message.sequence < (
            #[trigger] history[k]).message.sequence,
    ensures
        after_all(start, history).duplicate == 0,
        after_all(start, history).out_of_order == 0,
    decreases history.len(),
{
    if history.len() > 0 {
        let front = history.drop_last();
        assert(forall|k: int| 0 <= k < front.len() ==> front[k] == history[k]);
        lemma_increasing_counts(start, front);
        law_arrivals_are_accounted(start, front);
        lemma_all_valid(front);
        let n = history[history.len() - 1].message.sequence;
        let before = after_all(start, front);
        if before.seen.contains(n) {
            assert(sequences(front).contains(n));
            let k = choose|k: int| 0 <= k < sequences(front).len() && sequences(front)[k] == n;
            assert(history[k].message.sequence == n);
        }
        if front.len() > 0 {
            assert(sequences(front).last() == history[front.len() - 1].message.sequence);
        }
    }
}

proof fn lemma_none_missing(seen: Set<u64>, total: nat)
    requires
        total <= u64::MAX,
        forall|n: u64| n < total ==> #[trigger] seen.contains(n),
    ensures
        missing_below(seen, total) == 0,
    decreases total,
{
    if total > 0 {
        lemma_none_missing(seen, (total - 1) as nat);
    }
}

/// A run that went wrong says what: what was wrong with the last message that was
/// not sound, or else how many never came. A run says nothing just where all came
/// and each was sound.
pub proof fn law_error_says_what_went_wrong(s: ReceptionView)
    ensures
        s.payload_error is Some ==> s.error() == s.payload_error,
        s.payload_error is None && s.missing() > 0 ==> s.error() == Some(
            "missing "@ + text::decimal(s.missing()) + " samples"@,
        ),
        s.error() is None <==> s.payload_error is None && s.missing() == 0,
{
}

} // verus!
