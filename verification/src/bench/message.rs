//! The message that a benchmark sends, and its encoding.
use super::error::BenchError;
use crate::util::same_bytes;
use vstd::prelude::*;

verus! {

/// The message that a benchmark sends.
#[derive(Debug, Clone)]
pub struct BenchmarkMessage {
    pub sequence: u64,
    pub sent_monotonic_ns: u64,
    pub payload: Vec<u8>,
}

/// A message as a value.
#[verifier::ext_equal]
pub struct MessageView {
    pub sequence: u64,
    pub sent_monotonic_ns: u64,
    pub payload: Seq<u8>,
}

impl View for BenchmarkMessage {
    type V = MessageView;

    open spec fn view(&self) -> MessageView {
        MessageView {
            sequence: self.sequence,
            sent_monotonic_ns: self.sent_monotonic_ns,
            payload: self.payload@,
        }
    }
}

impl BenchmarkMessage {
    /// Whether two messages are the same.
    pub fn same_as(&self, other: &BenchmarkMessage) -> (r: bool)
        ensures
            r == (self@ == other@),
    {
        self.sequence == other.sequence && self.sent_monotonic_ns == other.sent_monotonic_ns
            && same_bytes(&self.payload, &other.payload)
    }
}

impl PartialEq for BenchmarkMessage {
    fn eq(&self, other: &Self) -> (r: bool) {
        self.same_as(other)
    }
}

impl vstd::std_specs::cmp::PartialEqSpecImpl for BenchmarkMessage {
    open spec fn obeys_eq_spec() -> bool {
        true
    }

    open spec fn eq_spec(&self, other: &Self) -> bool {
        self@ == other@
    }
}

/// The byte that stands at `index` in the payload of message `sequence`.
pub open spec fn payload_byte(sequence: u64, index: int) -> u8 {
    ((index + sequence) % 251) as u8
}

/// The payload of message `sequence`.
pub open spec fn payload_of(sequence: u64, payload_bytes: nat) -> Seq<u8> {
    Seq::new(payload_bytes, |index: int| payload_byte(sequence, index))
}

/// A message whose payload follows from its sequence number.
pub fn make_message(sequence: u64, payload_bytes: usize, sent_monotonic_ns: u64) -> (r:
    BenchmarkMessage)
    requires
        sequence + payload_bytes <= u64::MAX + 1,
    ensures
        r.sequence == sequence,
        r.sent_monotonic_ns == sent_monotonic_ns,
        r.payload@ == payload_of(sequence, payload_bytes as nat),
{
    let mut payload: Vec<u8> = Vec::new();
    let mut index: usize = 0;
    while index < payload_bytes
        invariant
            index <= payload_bytes,
            sequence + payload_bytes <= u64::MAX + 1,
            payload@ == payload_of(sequence, index as nat),
        decreases payload_bytes - index,
    {
        payload.push(((index as u64 + sequence) % 251) as u8);
        index = index + 1;
        assert(payload@ =~= payload_of(sequence, index as nat));
    }
    BenchmarkMessage { sequence, sent_monotonic_ns, payload }
}

/// `v` in `n` bytes, the most significant first.
pub open spec fn be_bytes(v: nat, n: nat) -> Seq<u8>
    decreases n,
{
    if n == 0 {
        Seq::empty()
    } else {
        be_bytes(v / 256, (n - 1) as nat).push((v % 256) as u8)
    }
}

/// The number that bytes stand for, the most significant first.
pub open spec fn be_value(s: Seq<u8>) -> nat
    decreases s.len(),
{
    if s.len() == 0 {
        0
    } else {
        be_value(s.drop_last()) * 256 + s.last() as nat
    }
}

/// The number that bytes stand for, the least significant first.
pub open spec fn le_value(s: Seq<u8>) -> nat
    decreases s.len(),
{
    if s.len() == 0 {
        0
    } else {
        le_value(s.skip(1)) * 256 + s[0] as nat
    }
}

/// The encoding of a message: four zero bytes, sequence number and time in
/// eight bytes each, the payload's length in four, then the payload.
pub open spec fn encoded(m: MessageView) -> Seq<u8> {
    seq![0u8, 0u8, 0u8, 0u8] + be_bytes(m.sequence as nat, 8) + be_bytes(
        m.sent_monotonic_ns as nat,
        8,
    ) + be_bytes(m.payload.len(), 4) + m.payload
}

/// The number in the bytes of `s` from `from` to `to`, in the order that the
/// header names.
pub open spec fn number_at(s: Seq<u8>, from: int, to: int) -> nat {
    if s[1] % 2 == 0 {
        be_value(s.subrange(from, to))
    } else {
        le_value(s.subrange(from, to))
    }
}

/// The message that bytes hold. The second byte of the header names the byte
/// order; what stands behind the payload does not count.
pub open spec fn decoded(s: Seq<u8>) -> Option<MessageView> {
    if s.len() < 24 || s[1] > 3 || s.len() < 24 + number_at(s, 20, 24) {
        None
    } else {
        Some(
            MessageView {
                sequence: number_at(s, 4, 12) as u64,
                sent_monotonic_ns: number_at(s, 12, 20) as u64,
                payload: s.subrange(24, 24 + number_at(s, 20, 24) as int),
            },
        )
    }
}

/// The error type of the crate `cdr`.
#[verifier::external_type_specification]
#[verifier::external_body]
pub struct ExCdrError(cdr::Error);

/// Calls `cdr::serialize` for big-endian CDR without a size limit on the three
/// fields of a message in their order, which that function lays out like the
/// struct that holds them. It writes a header of four zero bytes, then the
/// numbers big-endian, none of which needs padding at its place, the payload's
/// length in four bytes and the payload. It fails exactly on a payload whose
/// length does not fit in four bytes.
#[verifier::external_body]
fn cdr_serialize(sequence: u64, sent_monotonic_ns: u64, payload: &Vec<u8>) -> (r: Result<
    Vec<u8>,
    cdr::Error,
>)
    ensures
        r is Ok <==> payload@.len() <= u32::MAX,
        r matches Ok(bytes) ==> bytes@ == encoded(
            MessageView { sequence, sent_monotonic_ns, payload: payload@ },
        ),
{
    cdr::serialize::<_, _, cdr::CdrBe>(&(sequence, sent_monotonic_ns, payload), cdr::Infinite)
}

/// What `cdr::deserialize` says of bytes that hold no message: the text of its
/// error.
pub uninterp spec fn cdr_failure(bytes: Seq<u8>) -> Seq<char>;

/// Calls `cdr::deserialize` for the three fields of a message in their order.
/// It reads a header of four bytes, of which the second names the byte order (0
/// or 2 big-endian, 1 or 3 little-endian, anything else is an error), then the
/// two numbers, the payload's length in four bytes and the payload. It fails
/// where the bytes end before that, and does not look at what follows. Of an
/// error its text is given, which follows from the bytes alone.
#[verifier::external_body]
fn cdr_deserialize(bytes: &Vec<u8>) -> (r: Result<(u64, u64, Vec<u8>), String>)
    ensures
        r is Ok <==> decoded(bytes@) is Some,
        r matches Ok(fields) ==> decoded(bytes@) == Some(
            MessageView {
                sequence: fields.0,
                sent_monotonic_ns: fields.1,
                payload: fields.2@,
            },
        ),
        r matches Err(reason) ==> reason@ == cdr_failure(bytes@),
{
    cdr::deserialize::<(u64, u64, Vec<u8>)>(bytes).map_err(|error| error.to_string())
}

/// The encoding of a message. A payload of more than `u32::MAX` bytes has none.
pub fn serialize_message(message: &BenchmarkMessage) -> (r: Result<Vec<u8>, BenchError>)
    ensures
        r is Ok <==> message.payload@.len() <= u32::MAX,
        r matches Ok(bytes) ==> bytes@ == encoded(message@),
        r matches Err(error) ==> error is SequenceTooLong,
{
    match cdr_serialize(message.sequence, message.sent_monotonic_ns, &message.payload) {
        Ok(bytes) => Ok(bytes),
        Err(_) => Err(BenchError::SequenceTooLong),
    }
}

/// The message that bytes hold.
pub fn deserialize_message(bytes: &Vec<u8>) -> (r: Result<BenchmarkMessage, BenchError>)
    ensures
        r is Ok <==> decoded(bytes@) is Some,
        r matches Ok(message) ==> decoded(bytes@) == Some(message@),
        r matches Err(error) ==> error matches BenchError::Undecodable(reason) && reason@
            == cdr_failure(bytes@),
{
    match cdr_deserialize(bytes) {
        Ok((sequence, sent_monotonic_ns, payload)) => Ok(
            BenchmarkMessage { sequence, sent_monotonic_ns, payload },
        ),
        Err(reason) => Err(BenchError::Undecodable(reason)),
    }
}

/// Whether `v` fits in `n` bytes.
pub open spec fn fits(v: nat, n: nat) -> bool
    decreases n,
{
    if n == 0 {
        v == 0
    } else {
        fits(v / 256, (n - 1) as nat)
    }
}

proof fn lemma_be_roundtrip(v: nat, n: nat)
    requires
        fits(v, n),
    ensures
        be_bytes(v, n).len() == n,
        be_value(be_bytes(v, n)) == v,
    decreases n,
{
    if n > 0 {
        lemma_be_roundtrip(v / 256, (n - 1) as nat);
        let s = be_bytes(v / 256, (n - 1) as nat);
        assert(s.push((v % 256) as u8).drop_last() =~= s);
    }
}

proof fn lemma_fits(v: nat)
    ensures
        v <= u64::MAX ==> fits(v, 8),
        v <= u32::MAX ==> fits(v, 4),
{
    reveal_with_fuel(fits, 9);
}

/// An encoding is 24 bytes longer than the payload.
pub proof fn law_encoded_size(m: MessageView)
    requires
        m.payload.len() <= u32::MAX,
    ensures
        encoded(m).len() == 24 + m.payload.len(),
{
    lemma_fits(m.sequence as nat);
    lemma_fits(m.sent_monotonic_ns as nat);
    lemma_fits(m.payload.len());
    lemma_be_roundtrip(m.sequence as nat, 8);
    lemma_be_roundtrip(m.sent_monotonic_ns as nat, 8);
    lemma_be_roundtrip(m.payload.len(), 4);
}

/// Decoding gives back what was encoded.
pub proof fn law_decoding_undoes_encoding(m: MessageView)
    requires
        m.payload.len() <= u32::MAX,
    ensures
        decoded(encoded(m)) == Some(m),
{
    law_encoded_size(m);
    lemma_fits(m.sequence as nat);
    lemma_fits(m.sent_monotonic_ns as nat);
    lemma_fits(m.payload.len());
    lemma_be_roundtrip(m.sequence as nat, 8);
    lemma_be_roundtrip(m.sent_monotonic_ns as nat, 8);
    lemma_be_roundtrip(m.payload.len(), 4);
    let s = encoded(m);
    assert(s[1] == 0u8);
    assert(s.subrange(4, 12) =~= be_bytes(m.sequence as nat, 8));
    assert(s.subrange(12, 20) =~= be_bytes(m.sent_monotonic_ns as nat, 8));
    assert(s.subrange(20, 24) =~= be_bytes(m.payload.len(), 4));
    assert(s.subrange(24, 24 + m.payload.len() as int) =~= m.payload);
    assert(decoded(s)->0 =~= m);
}

/// A payload has the length asked for, and byte `i` of message `sequence` is the
/// rest of their sum by 251. So the payload of the next message is that of this
/// one, one byte further on.
pub proof fn law_payload_follows_from_the_number(sequence: u64, payload_bytes: nat)
    ensures
        payload_of(sequence, payload_bytes).len() == payload_bytes,
        forall|i: int|
            0 <= i < payload_bytes ==> #[trigger] payload_of(sequence, payload_bytes)[i] == (i
                + sequence) % 251,
        sequence < u64::MAX ==> payload_of((sequence + 1) as u64, payload_bytes) == payload_of(
            sequence,
            payload_bytes + 1,
        ).skip(1),
{
    if sequence < u64::MAX {
        assert(payload_of((sequence + 1) as u64, payload_bytes) =~= payload_of(
            sequence,
            payload_bytes + 1,
        ).skip(1));
    }
}

/// The number in eight bytes, the most significant first.
proof fn lemma_eight_bytes(v: nat)
    requires
        v <= u64::MAX,
    ensures
        ({
            let s = be_bytes(v, 8);
            &&& s.len() == 8
            &&& v == ((((((s[0] * 256 + s[1]) * 256 + s[2]) * 256 + s[3]) * 256 + s[4]) * 256
                + s[5]) * 256 + s[6]) * 256 + s[7]
        }),
{
    lemma_fits(v);
    lemma_be_roundtrip(v, 8);
    lemma_eight_value(be_bytes(v, 8));
}

proof fn lemma_eight_value(s: Seq<u8>)
    requires
        s.len() == 8,
    ensures
        be_value(s) == ((((((s[0] * 256 + s[1]) * 256 + s[2]) * 256 + s[3]) * 256 + s[4]) * 256
            + s[5]) * 256 + s[6]) * 256 + s[7],
        le_value(s) == ((((((s[7] * 256 + s[6]) * 256 + s[5]) * 256 + s[4]) * 256 + s[3]) * 256
            + s[2]) * 256 + s[1]) * 256 + s[0],
{
    reveal_with_fuel(be_value, 9);
    reveal_with_fuel(le_value, 9);
}

proof fn lemma_four_value(s: Seq<u8>)
    requires
        s.len() == 4,
    ensures
        be_value(s) == ((s[0] * 256 + s[1]) * 256 + s[2]) * 256 + s[3],
        le_value(s) == ((s[3] * 256 + s[2]) * 256 + s[1]) * 256 + s[0],
{
    reveal_with_fuel(be_value, 5);
    reveal_with_fuel(le_value, 5);
}

/// An encoding begins with four zero bytes. The sequence number stands in the
/// next eight, the time in the eight behind, the length of the payload in the
/// four behind those, each with the most significant byte first; the payload
/// ends it.
pub proof fn law_encoding_is_laid_out(m: MessageView)
    requires
        m.payload.len() <= u32::MAX,
    ensures
        ({
            let s = encoded(m);
            &&& s.len() == 24 + m.payload.len()
            &&& s[0] == 0 && s[1] == 0 && s[2] == 0 && s[3] == 0
            &&& m.sequence == ((((((s[4] * 256 + s[5]) * 256 + s[6]) * 256 + s[7]) * 256 + s[8])
                * 256 + s[9]) * 256 + s[10]) * 256 + s[11]
            &&& m.sent_monotonic_ns == ((((((s[12] * 256 + s[13]) * 256 + s[14]) * 256 + s[15]) * 256
                + s[16]) * 256 + s[17]) * 256 + s[18]) * 256 + s[19]
            &&& m.payload.len() == ((s[20] * 256 + s[21]) * 256 + s[22]) * 256 + s[23]
            &&& s.skip(24) == m.payload
        }),
{
    law_encoded_size(m);
    let s = encoded(m);
    lemma_eight_bytes(m.sequence as nat);
    lemma_eight_bytes(m.sent_monotonic_ns as nat);
    lemma_fits(m.payload.len());
    lemma_be_roundtrip(m.payload.len(), 4);
    lemma_four_value(be_bytes(m.payload.len(), 4));
    assert(s.subrange(4, 12) =~= be_bytes(m.sequence as nat, 8));
    assert(s.subrange(12, 20) =~= be_bytes(m.sent_monotonic_ns as nat, 8));
    assert(s.subrange(20, 24) =~= be_bytes(m.payload.len(), 4));
    assert(s.skip(24) =~= m.payload);
    let a = s.subrange(4, 12);
    assert(a[0] == s[4] && a[1] == s[5] && a[2] == s[6] && a[3] == s[7] && a[4] == s[8] && a[5]
        == s[9] && a[6] == s[10] && a[7] == s[11]);
    let b = s.subrange(12, 20);
    assert(b[0] == s[12] && b[1] == s[13] && b[2] == s[14] && b[3] == s[15] && b[4] == s[16] && b[5]
        == s[17] && b[6] == s[18] && b[7] == s[19]);
    let c = s.subrange(20, 24);
    assert(c[0] == s[20] && c[1] == s[21] && c[2] == s[22] && c[3] == s[23]);
}

/// What bytes hold is read from the same places. The second byte tells which
/// byte of a number comes first: the most significant where it is 0 or 2, the
/// least where it is 1 or 3. Bytes with another one, or that end before the
/// payload does, hold no message.
pub proof fn law_decoding_reads_the_places(s: Seq<u8>)
    ensures
        s.len() < 24 ==> decoded(s) is None,
        s.len() >= 24 ==> {
            let length = if s[1] % 2 == 0 {
                ((s[20] * 256 + s[21]) * 256 + s[22]) * 256 + s[23]
            } else {
                ((s[23] * 256 + s[22]) * 256 + s[21]) * 256 + s[20]
            };
            &&& decoded(s) is Some <==> s[1] <= 3 && s.len() >= 24 + length
            &&& decoded(s) matches Some(m) ==> {
                &&& m.payload == s.subrange(24, 24 + length)
                &&& s[1] % 2 == 0 ==> m.sequence == ((((((s[4] * 256 + s[5]) * 256 + s[6]) * 256
                    + s[7]) * 256 + s[8]) * 256 + s[9]) * 256 + s[10]) * 256 + s[11]
                &&& s[1] % 2 == 1 ==> m.sequence == ((((((s[11] * 256 + s[10]) * 256 + s[9]) * 256
                    + s[8]) * 256 + s[7]) * 256 + s[6]) * 256 + s[5]) * 256 + s[4]
                &&& s[1] % 2 == 0 ==> m.sent_monotonic_ns == ((((((s[12] * 256 + s[13]) * 256
                    + s[14]) * 256 + s[15]) * 256 + s[16]) * 256 + s[17]) * 256 + s[18]) * 256
                    + s[19]
                &&& s[1] % 2 == 1 ==> m.sent_monotonic_ns == ((((((s[19] * 256 + s[18]) * 256
                    + s[17]) * 256 + s[16]) * 256 + s[15]) * 256 + s[14]) * 256 + s[13]) * 256
                    + s[12]
            }
        },
{
    if s.len() >= 24 {
        lemma_eight_value(s.subrange(4, 12));
        lemma_eight_value(s.subrange(12, 20));
        lemma_four_value(s.subrange(20, 24));
    }
}

/// Two messages are equal just where their numbers, their times and their payloads
/// are.
pub proof fn law_equal_messages_have_equal_parts(a: BenchmarkMessage, b: BenchmarkMessage)
    ensures
        crate::util::has_equality::<BenchmarkMessage>(),
        vstd::std_specs::cmp::PartialEqSpec::eq_spec(&a, &b) <==> a.sequence == b.sequence
            && a.sent_monotonic_ns == b.sent_monotonic_ns && a.payload@ == b.payload@,
        a@ == b@ <==> a.sequence == b.sequence && a.sent_monotonic_ns == b.sent_monotonic_ns
            && a.payload@ == b.payload@,
{
}

} // verus!
