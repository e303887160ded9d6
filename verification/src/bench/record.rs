//! What a run leaves behind.
use super::cases;
use super::cases::{BenchmarkCase, CaseKind, ResolvedCase, CASE_SCHEMA_VERSION, DOMAIN_ID};
use super::error::BenchError;
use super::latency::LatencySummary;
use crate::text;
use vstd::prelude::*;

verus! {

/// The result of one case. `T` is what a throughput is stated in.
#[derive(Debug)]
pub struct ResultRecord<T> {
    pub schema_version: u32,
    pub run_id: String,
    pub case_id: String,
    pub status: String,
    pub kind: CaseKind,
    pub transport: String,
    pub shm: bool,
    pub domain_id: u32,
    pub interface: String,
    pub payload_bytes: usize,
    pub serialized_bytes: usize,
    pub rate_hz: Option<u64>,
    pub burst: u64,
    pub warmup_messages: u64,
    pub measured_messages: u64,
    pub elapsed_ns: u128,
    pub messages_sent: u64,
    pub messages_received: u64,
    pub bytes_sent: u128,
    pub bytes_received: u128,
    pub missing: u64,
    pub duplicate: u64,
    pub out_of_order: u64,
    pub throughput_bytes_per_sec: Option<T>,
    pub latency: Option<LatencySummary>,
    pub serialize_elapsed_ns: Option<u128>,
    pub deserialize_elapsed_ns: Option<u128>,
    pub roundtrip_ok: Option<bool>,
    pub unsupported: Vec<UnsupportedMetric>,
    pub error: Option<String>,
}

/// A metric that a case does not have, and why.
#[derive(Debug, Clone)]
pub struct UnsupportedMetric {
    pub name: String,
    pub reason: String,
}

/// So many payloads of so many bytes in so many nanoseconds.
#[derive(Debug, Clone, Copy, PartialEq, Eq, Structural)]
pub struct Throughput {
    pub measured_messages: u64,
    pub payload_bytes: usize,
    pub elapsed_ns: u128,
}

impl<T> ResultRecord<T> {
    /// Whether the record names the run and the case, and carries what the
    /// case defines.
    pub open spec fn describes(&self, run_id: Seq<char>, case_id: Seq<char>, case: cases::CaseView) -> bool {
        &&& self.schema_version == CASE_SCHEMA_VERSION
        &&& self.domain_id == DOMAIN_ID
        &&& self.run_id@ == run_id
        &&& self.case_id@ == case_id
        &&& self.kind == case.kind
        &&& self.transport@ == case.transport
        &&& self.rate_hz == case.rate_hz
        &&& self.burst == case.burst
        &&& self.warmup_messages == case.warmup_messages
        &&& self.measured_messages == case.measured_messages
        &&& self.unsupported@.len() == 0
    }

    /// Whether the case ended well.
    pub open spec fn ok(&self) -> bool {
        self.status@ == "ok"@
    }

    /// Nothing where the case ended well, and else its error.
    pub fn verdict(&self) -> (r: Result<(), BenchError>)
        ensures
            r is Ok <==> self.ok(),
            r matches Err(error) ==> error matches BenchError::CaseFailed(reason) && reason@
                == match self.error {
                Some(reason) => reason@,
                None => "benchmark case failed"@,
            },
    {
        if text::same_text(self.status.as_str(), "ok") {
            return Ok(());
        }
        match &self.error {
            Some(reason) => Err(BenchError::CaseFailed(reason.clone())),
            None => Err(BenchError::CaseFailed("benchmark case failed".to_owned())),
        }
    }

    /// The record of the receiving process, completed by what the sending
    /// process reported and by how the two processes ended.
    pub fn settled(
        self,
        messages_sent: Option<u64>,
        bytes_sent: Option<u128>,
        subscriber_ok: bool,
        publisher_ok: bool,
    ) -> (r: Self)
        ensures
            r.messages_sent == match messages_sent {
                Some(n) => n,
                None => 0,
            },
            r.bytes_sent == match bytes_sent {
                Some(n) => n,
                None => 0,
            },
            subscriber_ok && publisher_ok ==> r.status == self.status && r.error == self.error,
            !(subscriber_ok && publisher_ok) ==> r.status@ == "error"@ && text::text_of(r.error) == Some(
                "publisher or subscriber exited unsuccessfully"@,
            ),
            r == (ResultRecord {
                messages_sent: r.messages_sent,
                bytes_sent: r.bytes_sent,
                status: r.status,
                error: r.error,
                ..self
            }),
    {
        let mut record = self;
        record.messages_sent = match messages_sent {
            Some(n) => n,
            None => 0,
        };
        record.bytes_sent = match bytes_sent {
            Some(n) => n,
            None => 0,
        };
        if !subscriber_ok || !publisher_ok {
            record.status = "error".to_owned();
            record.error = Some("publisher or subscriber exited unsuccessfully".to_owned());
        }
        record
    }
}

/// The record of a case that could not be run.
pub fn failed_record(
    run_id: &str,
    case_definition: &BenchmarkCase,
    resolved_case: &ResolvedCase,
    error: String,
) -> (r: ResultRecord<Throughput>)
    ensures
        r.describes(run_id@, case_definition.id@, case_definition@),
        r.status@ == "error"@,
        r.shm == case_definition.shm,
        r.interface@ == "lo"@,
        r.payload_bytes == resolved_case.payload_bytes,
        r.serialized_bytes == resolved_case.serialized_bytes,
        r.elapsed_ns == 0,
        r.messages_sent == 0,
        r.messages_received == 0,
        r.bytes_sent == 0,
        r.bytes_received == 0,
        r.missing == 0,
        r.duplicate == 0,
        r.out_of_order == 0,
        r.throughput_bytes_per_sec is None,
        r.latency is None,
        r.serialize_elapsed_ns is None,
        r.deserialize_elapsed_ns is None,
        r.roundtrip_ok is None,
        r.error == Some(error),
{
    ResultRecord {
        schema_version: CASE_SCHEMA_VERSION,
        run_id: run_id.to_owned(),
        case_id: case_definition.id.clone(),
        status: "error".to_owned(),
        kind: case_definition.kind,
        transport: case_definition.transport.clone(),
        shm: case_definition.shm,
        domain_id: DOMAIN_ID,
        interface: "lo".to_owned(),
        payload_bytes: resolved_case.payload_bytes,
        serialized_bytes: resolved_case.serialized_bytes,
        rate_hz: case_definition.rate_hz,
        burst: case_definition.burst,
        warmup_messages: case_definition.warmup_messages,
        measured_messages: case_definition.measured_messages,
        elapsed_ns: 0,
        messages_sent: 0,
        messages_received: 0,
        bytes_sent: 0,
        bytes_received: 0,
        missing: 0,
        duplicate: 0,
        out_of_order: 0,
        throughput_bytes_per_sec: None,
        latency: None,
        serialize_elapsed_ns: None,
        deserialize_elapsed_ns: None,
        roundtrip_ok: None,
        unsupported: Vec::new(),
        error: Some(error),
    }
}

/// A record that describes a case carries the version 1 and the domain 1, the
/// names of the run and the case, and what the case defines, each in its place.
pub proof fn law_record_carries_the_case<T>(
    record: ResultRecord<T>,
    run_id: Seq<char>,
    case_id: Seq<char>,
    case: cases::CaseView,
)
    requires
        record.describes(run_id, case_id, case),
    ensures
        record.schema_version == 1,
        record.domain_id == 1,
        record.run_id@ == run_id,
        record.case_id@ == case_id,
        record.kind == case.kind,
        record.transport@ == case.transport,
        record.rate_hz == case.rate_hz,
        record.burst == case.burst,
        record.warmup_messages == case.warmup_messages,
        record.measured_messages == case.measured_messages,
        record.unsupported@ == Seq::<UnsupportedMetric>::empty(),
{
    assert(record.unsupported@ =~= Seq::empty());
}

/// A case ended well just where its status is the word for it.
pub proof fn law_status_of_success<T>(record: ResultRecord<T>)
    ensures
        record.ok() <==> record.status@ == seq!['o', 'k'],
{
    reveal_strlit("ok");
    assert("ok"@ =~= seq!['o', 'k']);
}

} // verus!
