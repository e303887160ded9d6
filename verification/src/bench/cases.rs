//! The cases of a benchmark.
use super::error::BenchError;
use super::message;
use super::message::{make_message, serialize_message};
use crate::text;
use vstd::prelude::*;

verus! {

/// The version of the case file that is understood.
pub const CASE_SCHEMA_VERSION: u32 = 1;

/// The DDS domain in which benchmarks run.
pub const DOMAIN_ID: u32 = 1;

/// The size around which the boundary cases lie.
pub const BOUNDARY_WIRE_BYTES: usize = 65_535;

#[derive(Debug, Clone)]
pub struct CaseFile {
    pub schema_version: u32,
    pub domain_id: u32,
    pub interface: String,
    pub qos: QosDefinition,
    pub cases: Vec<BenchmarkCase>,
}

#[derive(Debug, Clone)]
pub struct QosDefinition {
    pub reliability: String,
    pub durability: String,
    pub history: String,
    pub history_depth: i32,
}

#[derive(Debug)]
pub struct BenchmarkCase {
    pub id: String,
    pub kind: CaseKind,
    pub transport: String,
    pub shm: bool,
    pub payload: PayloadDefinition,
    pub rate_hz: Option<u64>,
    pub burst: u64,
    pub warmup_messages: u64,
    pub measured_messages: u64,
    pub timeout_seconds: u64,
}

/// A case as a value.
#[verifier::ext_equal]
pub struct CaseView {
    pub id: Seq<char>,
    pub kind: CaseKind,
    pub transport: Seq<char>,
    pub shm: bool,
    pub payload: PayloadDefinition,
    pub rate_hz: Option<u64>,
    pub burst: u64,
    pub warmup_messages: u64,
    pub measured_messages: u64,
    pub timeout_seconds: u64,
}

impl View for BenchmarkCase {
    type V = CaseView;

    open spec fn view(&self) -> CaseView {
        CaseView {
            id: self.id@,
            kind: self.kind,
            transport: self.transport@,
            shm: self.shm,
            payload: self.payload,
            rate_hz: self.rate_hz,
            burst: self.burst,
            warmup_messages: self.warmup_messages,
            measured_messages: self.measured_messages,
            timeout_seconds: self.timeout_seconds,
        }
    }
}

impl Clone for BenchmarkCase {
    fn clone(&self) -> (r: Self)
        ensures
            r@ == self@,
    {
        BenchmarkCase {
            id: self.id.clone(),
            kind: self.kind,
            transport: self.transport.clone(),
            shm: self.shm,
            payload: self.payload,
            rate_hz: self.rate_hz,
            burst: self.burst,
            warmup_messages: self.warmup_messages,
            measured_messages: self.measured_messages,
            timeout_seconds: self.timeout_seconds,
        }
    }
}

#[derive(Debug, Clone, Copy, PartialEq, Eq, Structural)]
pub enum CaseKind {
    Latency,
    Throughput,
    Smoke,
    Cdr,
}

#[derive(Debug, Clone, Copy, PartialEq, Eq, Structural)]
pub enum PayloadDefinition {
    /// A payload of this many bytes.
    Fixed { bytes: usize },
    /// A payload next to that at which the encoding passes `wire_bytes`.
    WireBoundary { relation: BoundaryRelation, wire_bytes: usize },
}

#[derive(Debug, Clone, Copy, PartialEq, Eq, Structural)]
pub enum BoundaryRelation {
    Below,
    Above,
}

/// A case with the size of its messages.
#[derive(Debug, Clone)]
pub struct ResolvedCase {
    pub definition: BenchmarkCase,
    pub payload_bytes: usize,
    pub serialized_bytes: usize,
}

impl ResolvedCase {
    /// The payload can be encoded, and its encoding has the stated size.
    pub open spec fn wf(&self) -> bool {
        &&& self.payload_bytes <= u32::MAX
        &&& self.serialized_bytes == wire_size(self.payload_bytes as nat)
    }
}

impl CaseFile {
    /// Whether the file is of a version that is understood.
    pub fn check_schema(&self) -> (r: Result<(), BenchError>)
        ensures
            r is Ok <==> self.schema_version == CASE_SCHEMA_VERSION,
            r matches Err(error) ==> error == BenchError::UnsupportedSchema(self.schema_version),
    {
        if self.schema_version != CASE_SCHEMA_VERSION {
            return Err(BenchError::UnsupportedSchema(self.schema_version));
        }
        Ok(())
    }

    /// Whether the first case named `case_id` is the one at `i`.
    pub open spec fn first_named(&self, i: int, case_id: Seq<char>) -> bool {
        &&& 0 <= i < self.cases.len()
        &&& self.cases@[i].id@ == case_id
        &&& forall|j: int| 0 <= j < i ==> (#[trigger] self.cases@[j]).id@ != case_id
    }

    /// The first case of a name.
    pub fn find(&self, case_id: &str) -> (r: Result<BenchmarkCase, BenchError>)
        ensures
            match r {
                Ok(found) => exists|i: int|
                    #[trigger] self.first_named(i, case_id@) && found@ == self.cases@[i]@,
                Err(error) => {
                    &&& forall|j: int|
                        0 <= j < self.cases.len() ==> (#[trigger] self.cases@[j]).id@ != case_id@
                    &&& error matches BenchError::UnknownCase(id) && id@ == case_id@
                },
            },
    {
        let mut i: usize = 0;
        while i < self.cases.len()
            invariant
                i <= self.cases.len(),
                forall|j: int| 0 <= j < i ==> (#[trigger] self.cases@[j]).id@ != case_id@,
            decreases self.cases.len() - i,
        {
            if text::same_text(self.cases[i].id.as_str(), case_id) {
                assert(self.first_named(i as int, case_id@));
                return Ok(self.cases[i].clone());
            }
            i = i + 1;
        }
        Err(BenchError::UnknownCase(case_id.to_owned()))
    }
}

/// The size of the encoding of a message with a payload of `payload_bytes`.
pub open spec fn wire_size(payload_bytes: nat) -> nat {
    24 + payload_bytes
}

/// Whether an encoding ends on a word and lies on the wanted side of
/// `wire_bytes`.
pub open spec fn on_side(payload_bytes: nat, wire_bytes: usize, above: bool) -> bool {
    &&& wire_size(payload_bytes) % 4 == 0
    &&& above == (wire_size(payload_bytes) > wire_bytes)
}

/// The payload that a boundary case takes: above the boundary the least, below
/// it the greatest.
pub open spec fn is_boundary_payload(
    payload_bytes: nat,
    relation: BoundaryRelation,
    wire_bytes: usize,
) -> bool {
    match relation {
        BoundaryRelation::Above => {
            &&& on_side(payload_bytes, wire_bytes, true)
            &&& forall|n: nat| n < payload_bytes ==> !(#[trigger] on_side(n, wire_bytes, true))
        },
        BoundaryRelation::Below => {
            &&& on_side(payload_bytes, wire_bytes, false)
            &&& forall|n: nat| n > payload_bytes ==> !(#[trigger] on_side(n, wire_bytes, false))
        },
    }
}

/// The size of the encoding of the first message with such a payload.
fn size_at(payload_bytes: usize) -> (r: Result<usize, BenchError>)
    ensures
        r is Ok <==> payload_bytes <= u32::MAX,
        r matches Ok(size) ==> size == wire_size(payload_bytes as nat),
        r matches Err(error) ==> error is SequenceTooLong,
{
    let first = make_message(0, payload_bytes, 0);
    match serialize_message(&first) {
        Ok(bytes) => {
            proof {
                message::law_encoded_size(first@);
            }
            Ok(bytes.len())
        },
        Err(error) => Err(error),
    }
}

/// The payload next to that at which the encoding passes `wire_bytes`, among
/// those whose encoding ends on a word.
pub fn find_boundary_payload(relation: BoundaryRelation, wire_bytes: usize) -> (r: Result<
    usize,
    BenchError,
>)
    ensures
        r is Ok <==> wire_bytes <= u32::MAX && (relation is Below ==> wire_bytes >= wire_size(0)),
        r matches Ok(n) ==> is_boundary_payload(n as nat, relation, wire_bytes) && n <= u32::MAX,
        r matches Err(error) ==> if wire_bytes > u32::MAX {
            error is SequenceTooLong
        } else {
            error is NoBelowValue
        },
{
    let mut high: usize = if wire_bytes > 1 {
        wire_bytes
    } else {
        1
    };
    loop
        invariant_except_break
            high == if wire_bytes > 1 { wire_bytes } else { 1 },
        ensures
            high == if wire_bytes > 1 { wire_bytes } else { 1 },
            high <= u32::MAX,
            wire_size(high as nat) > wire_bytes,
        decreases 0int,
    {
        let size: usize = match size_at(high) {
            Ok(size) => size,
            Err(error) => {
                return Err(error);
            },
        };
        if size > wire_bytes {
            break;
        }
        high = match high.checked_mul(2) {
            Some(next) => next,
            None => {
                return Err(BenchError::WireBoundaryOverflow);
            },
        };
    }
    let mut low: usize = 0;
    while low < high
        invariant
            low <= high <= u32::MAX,
            wire_size(high as nat) > wire_bytes,
            low > 0 ==> wire_size((low - 1) as nat) <= wire_bytes,
            wire_bytes <= u32::MAX,
        decreases high - low,
    {
        let middle: usize = low + (high - low) / 2;
        let size: usize = match size_at(middle) {
            Ok(size) => size,
            Err(error) => {
                return Err(error);
            },
        };
        if size <= wire_bytes {
            low = middle + 1;
        } else {
            high = middle;
        }
    }
    let first_above: usize = low;
    match relation {
        BoundaryRelation::Above => {
            let r = aligned_boundary_payload(first_above, wire_bytes, true);
            proof {
                let next = (first_above + (4 - first_above % 4) % 4) as nat;
                assert(on_side(next, wire_bytes, true));
                assert forall|n: nat| n < first_above implies !(#[trigger] on_side(
                    n,
                    wire_bytes,
                    true,
                )) by {}
            }
            r
        },
        BoundaryRelation::Below => {
            if first_above == 0 {
                return Err(BenchError::NoBelowValue);
            }
            let r = aligned_boundary_payload(first_above - 1, wire_bytes, false);
            proof {
                assert(on_side(0, wire_bytes, false));
                assert forall|n: nat| n > first_above - 1 implies !(#[trigger] on_side(
                    n,
                    wire_bytes,
                    false,
                )) by {}
            }
            r
        },
    }
}

/// The first payload from `payload_bytes` on, upwards or downwards, whose
/// encoding ends on a word and lies on the wanted side.
pub fn aligned_boundary_payload(payload_bytes: usize, wire_bytes: usize, above: bool) -> (r: Result<
    usize,
    BenchError,
>)
    ensures
        match r {
            Ok(n) => {
                &&& n <= u32::MAX
                &&& on_side(n as nat, wire_bytes, above)
                &&& payload_bytes <= u32::MAX
                &&& above ==> n >= payload_bytes && forall|m: nat|
                    payload_bytes <= m < n ==> !(#[trigger] on_side(m, wire_bytes, above))
                &&& !above ==> n <= payload_bytes && forall|m: nat|
                    n < m <= payload_bytes ==> !(#[trigger] on_side(m, wire_bytes, above))
            },
            Err(error) => {
                ||| payload_bytes > u32::MAX && error is SequenceTooLong
                ||| {
                    &&& payload_bytes <= u32::MAX
                    &&& above
                    &&& forall|m: nat|
                        payload_bytes <= m <= u32::MAX ==> !(#[trigger] on_side(
                            m,
                            wire_bytes,
                            above,
                        ))
                    &&& if usize::MAX > u32::MAX {
                        error is SequenceTooLong
                    } else {
                        error is AlignedBoundaryOverflow
                    }
                }
                ||| {
                    &&& payload_bytes <= u32::MAX
                    &&& !above
                    &&& forall|m: nat|
                        m <= payload_bytes ==> !(#[trigger] on_side(m, wire_bytes, above))
                    &&& error is AlignedBoundaryOverflow
                }
            },
        },
{
    let mut at: usize = payload_bytes;
    loop
        invariant
            payload_bytes > u32::MAX ==> at == payload_bytes,
            above ==> at >= payload_bytes && forall|m: nat|
                payload_bytes <= m < at ==> !(#[trigger] on_side(m, wire_bytes, above)),
            !above ==> at <= payload_bytes && forall|m: nat|
                at < m <= payload_bytes ==> !(#[trigger] on_side(m, wire_bytes, above)),
        decreases
                if above {
                    usize::MAX - at
                } else {
                    at as int
                },
    {
        let size: usize = match size_at(at) {
            Ok(size) => size,
            Err(error) => {
                return Err(error);
            },
        };
        if size % 4 == 0 && (above == (size > wire_bytes)) {
            assert(on_side(at as nat, wire_bytes, above));
            return Ok(at);
        }
        assert(!on_side(at as nat, wire_bytes, above));
        let next: Option<usize> = if above {
            at.checked_add(1)
        } else {
            at.checked_sub(1)
        };
        at = match next {
            Some(next) => next,
            None => {
                return Err(BenchError::AlignedBoundaryOverflow);
            },
        };
    }
}

/// The payload of a case: the stated one, or that of its boundary.
pub open spec fn is_payload_of(payload: PayloadDefinition, payload_bytes: usize) -> bool {
    match payload {
        PayloadDefinition::Fixed { bytes } => payload_bytes == bytes,
        PayloadDefinition::WireBoundary { relation, wire_bytes } => is_boundary_payload(
            payload_bytes as nat,
            relation,
            wire_bytes,
        ),
    }
}

/// Whether a case has messages that can be encoded.
pub open spec fn resolvable(payload: PayloadDefinition) -> bool {
    match payload {
        PayloadDefinition::Fixed { bytes } => bytes <= u32::MAX,
        PayloadDefinition::WireBoundary { relation, wire_bytes } => wire_bytes <= u32::MAX && (
        relation is Below ==> wire_bytes >= wire_size(0)),
    }
}

impl BenchmarkCase {
    /// The case with the size of its messages.
    pub fn resolve(&self) -> (r: Result<ResolvedCase, BenchError>)
        ensures
            r is Ok <==> resolvable(self.payload),
            r matches Ok(resolved) ==> {
                &&& resolved.wf()
                &&& resolved.definition@ == self@
                &&& is_payload_of(self.payload, resolved.payload_bytes)
            },
            r matches Err(error) ==> match self.payload {
                PayloadDefinition::Fixed { bytes } => error is SequenceTooLong,
                PayloadDefinition::WireBoundary { relation, wire_bytes } => if wire_bytes
                    > u32::MAX {
                    error is SequenceTooLong
                } else {
                    error is NoBelowValue
                },
            },
    {
        let payload_bytes: usize = match self.payload {
            PayloadDefinition::Fixed { bytes } => bytes,
            PayloadDefinition::WireBoundary { relation, wire_bytes } => match find_boundary_payload(
                relation,
                wire_bytes,
            ) {
                Ok(n) => n,
                Err(error) => {
                    return Err(error);
                },
            },
        };
        let serialized_bytes: usize = match size_at(payload_bytes) {
            Ok(size) => size,
            Err(error) => {
                return Err(error);
            },
        };
        Ok(ResolvedCase { definition: self.clone(), payload_bytes, serialized_bytes })
    }

    /// How many messages a run sends: those to warm up and those that count.
    pub open spec fn total(&self) -> int {
        self.warmup_messages + self.measured_messages
    }

    /// How many messages a run sends.
    pub fn total_messages(&self) -> (r: u64)
        requires
            self.total() <= u64::MAX,
        ensures
            r == self.total(),
    {
        self.warmup_messages + self.measured_messages
    }

    /// How deep a history must be that holds all messages of a run.
    pub fn history_depth(&self) -> (r: Result<i32, BenchError>)
        requires
            self.total() <= u64::MAX,
        ensures
            r is Ok <==> self.total() <= i32::MAX,
            r matches Ok(depth) ==> depth == self.total(),
            r matches Err(error) ==> error is HistoryTooDeep,
    {
        let total: u64 = self.total_messages();
        if total <= i32::MAX as u64 {
            Ok(total as i32)
        } else {
            Err(BenchError::HistoryTooDeep)
        }
    }
}

/// The payload of a boundary case gives an encoding, of 24 bytes more, that ends
/// on a word of four bytes. Below the boundary it does not pass it, and the next
/// such encoding does. Above it passes the boundary, and the one before does not,
/// where there is one.
pub proof fn law_boundary_payload_lies_at_the_boundary(
    payload_bytes: nat,
    relation: BoundaryRelation,
    wire_bytes: usize,
)
    requires
        is_boundary_payload(payload_bytes, relation, wire_bytes),
    ensures
        (payload_bytes + 24) % 4 == 0,
        relation is Below ==> payload_bytes + 24 <= wire_bytes < payload_bytes + 28,
        relation is Above ==> payload_bytes + 24 > wire_bytes,
        relation is Above && payload_bytes > 0 ==> payload_bytes + 20 <= wire_bytes,
{
    match relation {
        BoundaryRelation::Below => {
            assert(!on_side((payload_bytes + 4) as nat, wire_bytes, false));
        },
        BoundaryRelation::Above => {
            if payload_bytes > 0 {
                assert(payload_bytes >= 4);
                assert(!on_side((payload_bytes - 4) as nat, wire_bytes, true));
            }
        },
    }
}

/// Two payloads that fit a boundary case are the same.
pub proof fn law_boundary_payload_is_the_only_one(
    a: nat,
    b: nat,
    relation: BoundaryRelation,
    wire_bytes: usize,
)
    requires
        is_boundary_payload(a, relation, wire_bytes),
        is_boundary_payload(b, relation, wire_bytes),
    ensures
        a == b,
{
    law_boundary_payload_lies_at_the_boundary(a, relation, wire_bytes);
    law_boundary_payload_lies_at_the_boundary(b, relation, wire_bytes);
}

/// The side of a boundary that an encoding of 24 bytes more than the payload lies
/// on, where it ends on a word of four bytes.
pub proof fn law_sides_of_a_boundary(payload_bytes: nat, wire_bytes: usize)
    ensures
        on_side(payload_bytes, wire_bytes, true) <==> payload_bytes % 4 == 0 && payload_bytes + 24
            > wire_bytes,
        on_side(payload_bytes, wire_bytes, false) <==> payload_bytes % 4 == 0 && payload_bytes + 24
            <= wire_bytes,
{
}

/// A fixed payload is taken as it is, where 32 bits can hold its length. A
/// boundary case needs a boundary that 32 bits can hold, and below it room for
/// the 24 bytes that every encoding has.
pub proof fn law_which_cases_resolve(bytes: usize, relation: BoundaryRelation, taken: usize)
    ensures
        resolvable(PayloadDefinition::Fixed { bytes }) <==> bytes <= 4_294_967_295,
        is_payload_of(PayloadDefinition::Fixed { bytes }, taken) <==> taken == bytes,
        resolvable(PayloadDefinition::WireBoundary { relation, wire_bytes: bytes }) <==> bytes
            <= 4_294_967_295 && (relation is Above || bytes >= 24),
        is_payload_of(PayloadDefinition::WireBoundary { relation, wire_bytes: bytes }, taken)
            <==> is_boundary_payload(taken as nat, relation, bytes),
{
}

/// A resolved case states the size of its encodings: 24 bytes more than the
/// payload.
pub proof fn law_resolved_case_states_sizes(resolved: ResolvedCase)
    requires
        resolved.wf(),
    ensures
        resolved.serialized_bytes == resolved.payload_bytes + 24,
        resolved.payload_bytes <= 4_294_967_295,
{
}

/// The case of a name is the first that has it.
pub proof fn law_case_of_a_name_is_the_first(file: CaseFile, i: int, j: int, case_id: Seq<char>)
    requires
        file.first_named(i, case_id),
        0 <= j < file.cases@.len(),
        file.cases@[j].id@ == case_id,
    ensures
        0 <= i <= j,
        file.cases@[i].id@ == case_id,
{
}

/// A run sends the messages to warm up and those that count.
pub proof fn law_total_is_warmup_and_measured(case: BenchmarkCase)
    ensures
        case.total() - case.warmup_messages == case.measured_messages,
{
}

/// A case is the first of its name just where it has that name and none before it
/// has.
pub proof fn law_which_case_is_the_first(file: CaseFile, i: int, case_id: Seq<char>)
    ensures
        file.first_named(i, case_id) <==> {
            &&& 0 <= i < file.cases@.len()
            &&& file.cases@[i].id@ == case_id
            &&& !(exists|j: int| 0 <= j < i && (#[trigger] file.cases@[j]).id@ == case_id)
        },
{
}

} // verus!
