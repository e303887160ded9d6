//! The case that measures encoding and decoding.
use super::cases;
use super::cases::{BenchmarkCase, ResolvedCase, CASE_SCHEMA_VERSION, DOMAIN_ID};
use super::clock;
use super::error::BenchError;
use super::message;
use super::message::{deserialize_message, make_message, serialize_message, BenchmarkMessage};
use super::record::{ResultRecord, Throughput};
use crate::text;
use vstd::prelude::*;

verus! {

/// What a run has measured so far.
#[derive(Debug, Clone, Copy, PartialEq, Eq, Structural)]
pub struct CdrRun {
    /// Messages before this one warm up and do not count.
    pub warmup_messages: u64,
    pub serialize_elapsed_ns: u128,
    pub deserialize_elapsed_ns: u128,
    pub roundtrip_ok: bool,
    /// The size of the last encoding.
    pub serialized_bytes: usize,
}

impl CdrRun {
    pub fn new(case_definition: &BenchmarkCase, resolved_case: &ResolvedCase) -> (r: Self)
        ensures
            r == (CdrRun {
                warmup_messages: case_definition.warmup_messages,
                serialize_elapsed_ns: 0,
                deserialize_elapsed_ns: 0,
                roundtrip_ok: true,
                serialized_bytes: resolved_case.serialized_bytes,
            }),
    {
        CdrRun {
            warmup_messages: case_definition.warmup_messages,
            serialize_elapsed_ns: 0,
            deserialize_elapsed_ns: 0,
            roundtrip_ok: true,
            serialized_bytes: resolved_case.serialized_bytes,
        }
    }

    /// Notes that message `sequence` was encoded.
    pub fn serialized(&mut self, sequence: u64, elapsed_ns: u128, encoded: &Vec<u8>)
        ensures
            *final(self) == (CdrRun {
                serialize_elapsed_ns: if sequence >= old(self).warmup_messages {
                    clock::capped(
                        old(self).serialize_elapsed_ns + elapsed_ns,
                        u128::MAX as int,
                    ) as u128
                } else {
                    old(self).serialize_elapsed_ns
                },
                serialized_bytes: encoded@.len() as usize,
                ..*old(self)
            }),
    {
        if sequence >= self.warmup_messages {
            self.serialize_elapsed_ns = self.serialize_elapsed_ns.saturating_add(elapsed_ns);
        }
        self.serialized_bytes = encoded.len();
    }

    /// Notes that message `sequence` was decoded, and whether it is what was
    /// encoded.
    pub fn deserialized(
        &mut self,
        sequence: u64,
        elapsed_ns: u128,
        decoded: &BenchmarkMessage,
        message: &BenchmarkMessage,
    )
        ensures
            *final(self) == (CdrRun {
                deserialize_elapsed_ns: if sequence >= old(self).warmup_messages {
                    clock::capped(
                        old(self).deserialize_elapsed_ns + elapsed_ns,
                        u128::MAX as int,
                    ) as u128
                } else {
                    old(self).deserialize_elapsed_ns
                },
                roundtrip_ok: old(self).roundtrip_ok && !(sequence >= old(self).warmup_messages
                    && decoded@ != message@),
                ..*old(self)
            }),
    {
        if sequence >= self.warmup_messages {
            self.deserialize_elapsed_ns = self.deserialize_elapsed_ns.saturating_add(elapsed_ns);
            if !decoded.same_as(message) {
                self.roundtrip_ok = false;
            }
        }
    }

    /// The record of a finished run.
    pub fn finished(
        &self,
        run_id: &str,
        case_definition: &BenchmarkCase,
        resolved_case: &ResolvedCase,
    ) -> (r: ResultRecord<Throughput>)
        ensures
            r.describes(run_id@, case_definition.id@, case_definition@),
            r.status@ == if self.roundtrip_ok {
                "ok"@
            } else {
                "error"@
            },
            !r.shm,
            r.interface@ == "none"@,
            r.payload_bytes == resolved_case.payload_bytes,
            r.serialized_bytes == self.serialized_bytes,
            r.elapsed_ns == clock::capped(
                self.serialize_elapsed_ns + self.deserialize_elapsed_ns,
                u128::MAX as int,
            ),
            r.messages_sent == case_definition.measured_messages,
            r.messages_received == case_definition.measured_messages,
            r.bytes_sent == self.serialized_bytes * case_definition.measured_messages,
            r.bytes_received == self.serialized_bytes * case_definition.measured_messages,
            r.missing == 0,
            r.duplicate == 0,
            r.out_of_order == 0,
            r.throughput_bytes_per_sec is None,
            r.latency is None,
            r.serialize_elapsed_ns == Some(self.serialize_elapsed_ns),
            r.deserialize_elapsed_ns == Some(self.deserialize_elapsed_ns),
            r.roundtrip_ok == Some(self.roundtrip_ok),
            text::text_of(r.error) == if self.roundtrip_ok {
                None
            } else {
                Some("CDR roundtrip mismatch"@)
            },
    {
        let size: u128 = self.serialized_bytes as u128;
        let count: u128 = case_definition.measured_messages as u128;
        assert(0 <= size * count <= 0xffff_ffff_ffff_ffff * 0xffff_ffff_ffff_ffff)
            by (nonlinear_arith)
            requires
                0 <= size <= 0xffff_ffff_ffff_ffff,
                0 <= count <= 0xffff_ffff_ffff_ffff,
        ;
        let bytes: u128 = size * count;
        ResultRecord {
            schema_version: CASE_SCHEMA_VERSION,
            run_id: run_id.to_owned(),
            case_id: case_definition.id.clone(),
            status: if self.roundtrip_ok {
                "ok".to_owned()
            } else {
                "error".to_owned()
            },
            kind: case_definition.kind,
            transport: case_definition.transport.clone(),
            shm: false,
            domain_id: DOMAIN_ID,
            interface: "none".to_owned(),
            payload_bytes: resolved_case.payload_bytes,
            serialized_bytes: self.serialized_bytes,
            rate_hz: case_definition.rate_hz,
            burst: case_definition.burst,
            warmup_messages: case_definition.warmup_messages,
            measured_messages: case_definition.measured_messages,
            elapsed_ns: self.serialize_elapsed_ns.saturating_add(self.deserialize_elapsed_ns),
            messages_sent: case_definition.measured_messages,
            messages_received: case_definition.measured_messages,
            bytes_sent: bytes,
            bytes_received: bytes,
            missing: 0,
            duplicate: 0,
            out_of_order: 0,
            throughput_bytes_per_sec: None,
            latency: None,
            serialize_elapsed_ns: Some(self.serialize_elapsed_ns),
            deserialize_elapsed_ns: Some(self.deserialize_elapsed_ns),
            roundtrip_ok: Some(self.roundtrip_ok),
            unsupported: Vec::new(),
            error: if self.roundtrip_ok {
                None
            } else {
                Some("CDR roundtrip mismatch".to_owned())
            },
        }
    }
}

/// How many of the first messages count.
pub open spec fn counted(messages: u64, warmup_messages: u64) -> int {
    if messages > warmup_messages {
        messages - warmup_messages
    } else {
        0
    }
}

/// Encodes and decodes every message of a case. Whatever the clock shows, each
/// message comes back as it was, so the case ends well. The times are those of
/// the messages that count, added up.
pub fn run_cdr(run_id: &str, case_definition: &BenchmarkCase, resolved_case: &ResolvedCase) -> (r:
    Result<ResultRecord<Throughput>, BenchError>)
    requires
        resolved_case.wf(),
        case_definition.total() <= u64::MAX,
        case_definition.total() + resolved_case.payload_bytes <= u64::MAX + 2,
    ensures
        r matches Ok(record) && {
            &&& record.describes(run_id@, case_definition.id@, case_definition@)
            &&& record.ok()
            &&& record.error is None
            &&& record.roundtrip_ok == Some(true)
            &&& !record.shm
            &&& record.interface@ == "none"@
            &&& record.payload_bytes == resolved_case.payload_bytes
            &&& record.serialized_bytes == resolved_case.serialized_bytes
            &&& record.messages_sent == case_definition.measured_messages
            &&& record.messages_received == case_definition.measured_messages
            &&& record.bytes_sent == resolved_case.serialized_bytes
                * case_definition.measured_messages
            &&& record.bytes_received == record.bytes_sent
            &&& record.missing == 0 && record.duplicate == 0 && record.out_of_order == 0
            &&& record.throughput_bytes_per_sec is None && record.latency is None
            &&& exists|times: Seq<u128>|
                {
                    &&& times.len() == case_definition.measured_messages
                    &&& clock::all_measured(times)
                    &&& record.serialize_elapsed_ns == Some(#[trigger] clock::capped_sum(times))
                }
            &&& exists|times: Seq<u128>|
                {
                    &&& times.len() == case_definition.measured_messages
                    &&& clock::all_measured(times)
                    &&& record.deserialize_elapsed_ns == Some(#[trigger] clock::capped_sum(times))
                }
            &&& record.elapsed_ns == clock::capped(
                record.serialize_elapsed_ns->0 + record.deserialize_elapsed_ns->0,
                u128::MAX as int,
            )
        },
{
    let mut run = CdrRun::new(case_definition, resolved_case);
    let total: u64 = case_definition.total_messages();
    let mut sequence: u64 = 0;
    let ghost mut encoding: Seq<u128> = Seq::empty();
    let ghost mut decoding: Seq<u128> = Seq::empty();
    while sequence < total
        invariant
            run.warmup_messages == case_definition.warmup_messages,
            encoding.len() == counted(sequence, case_definition.warmup_messages),
            decoding.len() == counted(sequence, case_definition.warmup_messages),
            clock::all_measured(encoding),
            clock::all_measured(decoding),
            run.serialize_elapsed_ns == clock::capped_sum(encoding),
            run.deserialize_elapsed_ns == clock::capped_sum(decoding),
            sequence <= total,
            total == case_definition.total(),
            total + resolved_case.payload_bytes <= u64::MAX + 2,
            resolved_case.wf(),
            run.roundtrip_ok,
            run.serialized_bytes == resolved_case.serialized_bytes,
        decreases total - sequence,
    {
        let message = make_message(sequence, resolved_case.payload_bytes, 0);
        let serialize_started = clock::now();
        let encoded = match serialize_message(&message) {
            Ok(encoded) => encoded,
            Err(error) => {
                return Err(error);
            },
        };
        let encoding_ns: u128 = clock::since_ns(&serialize_started);
        run.serialized(sequence, encoding_ns, &encoded);
        proof {
            if sequence >= case_definition.warmup_messages {
                assert(encoding.push(encoding_ns).drop_last() =~= encoding);
                encoding = encoding.push(encoding_ns);
            }
            message::law_encoded_size(message@);
            message::law_decoding_undoes_encoding(message@);
        }
        let deserialize_started = clock::now();
        let decoded = match deserialize_message(&encoded) {
            Ok(decoded) => decoded,
            Err(error) => {
                return Err(error);
            },
        };
        let decoding_ns: u128 = clock::since_ns(&deserialize_started);
        run.deserialized(sequence, decoding_ns, &decoded, &message);
        proof {
            if sequence >= case_definition.warmup_messages {
                assert(decoding.push(decoding_ns).drop_last() =~= decoding);
                decoding = decoding.push(decoding_ns);
            }
        }
        sequence = sequence + 1;
    }
    Ok(run.finished(run_id, case_definition, resolved_case))
}

} // verus!
