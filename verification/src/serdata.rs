//! Samples on their way between application and network.
use crate::stats::{count_discarded_sample, DiscardReason, DiscardedSamples};
use crate::util;
use crate::util::{push_all, SGReader};
use std::sync::Arc;
use vstd::prelude::*;
use vstd::slice::slice_subrange;

verus! {

/// The key of a sample: 16 bytes behind a four-byte encoding header.
#[derive(Debug, Clone, Copy)]
pub enum KeyHash {
    NoKey,
    CdrKey([u8; 20]),
}

impl Default for KeyHash {
    fn default() -> (r: Self)
        ensures
            r is NoKey,
    {
        KeyHash::NoKey
    }
}

impl KeyHash {
    /// The bytes of the key with its header; none where there is no key.
    pub open spec fn bytes(self) -> Seq<u8> {
        match self {
            KeyHash::NoKey => Seq::empty(),
            KeyHash::CdrKey(k) => k@,
        }
    }

    /// How many bytes the key takes.
    pub fn key_length(&self) -> (r: usize)
        ensures
            r == self.bytes().len(),
            r == if *self is NoKey {
                0int
            } else {
                20
            },
    {
        match self {
            KeyHash::CdrKey(k) => 20,
            KeyHash::NoKey => 0,
        }
    }

    /// The key of 16 bytes, behind an empty header.
    pub fn from_keyhash(keyhash: &[u8; 16]) -> (r: Self)
        ensures
            r is CdrKey,
            r.bytes() == seq![0u8, 0u8, 0u8, 0u8] + keyhash@,
    {
        let mut k: [u8; 20] = [0u8;20];
        let mut i: usize = 0;
        while i < 16
            invariant
                i <= 16,
                k@.len() == 20,
                keyhash@.len() == 16,
                forall|j: int| 0 <= j < 4 ==> k@[j] == 0,
                forall|j: int| 0 <= j < i ==> k@[4 + j] == keyhash@[j],
            decreases 16 - i,
        {
            k[4 + i] = keyhash[i];
            i = i + 1;
        }
        assert(k@ =~= seq![0u8, 0u8, 0u8, 0u8] + keyhash@);
        KeyHash::CdrKey(k)
    }

    /// Writes the 16 bytes of the key; leaves `keyhash` as it is where there is
    /// no key.
    pub fn write_to(&self, keyhash: &mut [u8; 16])
        ensures
            final(keyhash)@ == if *self is NoKey {
                old(keyhash)@
            } else {
                self.bytes().skip(4)
            },
    {
        match self {
            KeyHash::NoKey => {},
            KeyHash::CdrKey(k) => {
                let mut i: usize = 0;
                while i < 16
                    invariant
                        i <= 16,
                        keyhash@.len() == 16,
                        k@.len() == 20,
                        forall|j: int| 0 <= j < i ==> keyhash@[j] == k@[4 + j],
                    decreases 16 - i,
                {
                    keyhash[i] = k[4 + i];
                    i = i + 1;
                }
                assert(keyhash@ =~= k@.skip(4));
            },
        }
    }
}

impl PartialEq for KeyHash {
    fn eq(&self, other: &Self) -> (r: bool) {
        match (self, other) {
            (KeyHash::NoKey, KeyHash::NoKey) => true,
            (KeyHash::CdrKey(a), KeyHash::CdrKey(b)) => {
                let mut i: usize = 0;
                while i < 20
                    invariant
                        i <= 20,
                        a@.len() == 20,
                        b@.len() == 20,
                        forall|j: int| 0 <= j < i ==> a@[j] == b@[j],
                        *self == KeyHash::CdrKey(*a),
                        *other == KeyHash::CdrKey(*b),
                    decreases 20 - i,
                {
                    if a[i] != b[i] {
                        return false;
                    }
                    i = i + 1;
                }
                assert(a@ =~= b@);
                true
            },
            (KeyHash::CdrKey(k), KeyHash::NoKey) => {
                assert(k@.len() == 20);
                false
            },
            (KeyHash::NoKey, KeyHash::CdrKey(k)) => {
                assert(k@.len() == 20);
                false
            },
        }
    }
}

impl vstd::std_specs::cmp::PartialEqSpecImpl for KeyHash {
    open spec fn obeys_eq_spec() -> bool {
        true
    }

    open spec fn eq_spec(&self, other: &Self) -> bool {
        self.bytes() == other.bytes()
    }
}

/// Whether a sample carries data or only a key.
#[derive(Debug, Clone, Copy, PartialEq, Eq, Structural)]
pub enum SerdataKind {
    Empty,
    Key,
    Data,
}

/// What is known of the value of a sample.
#[derive(Debug)]
pub enum SampleData<T> {
    /// Received and not decoded yet.
    Uninitialized,
    /// Only the key is known.
    SdkKey,
    SdkData(Arc<T>),
}

/// A sample on its way between application and network. The value and its
/// encoding each come into being when they are first needed.
#[derive(Debug)]
pub struct SerData<T> {
    pub kind: SerdataKind,
    /// Whether the type of the sample is known.
    pub typed: bool,
    pub hash: u32,
    pub statusinfo: u32,
    pub timestamp: i64,
    pub sample: SampleData<T>,
    pub cdr: Option<Vec<u8>>,
    pub key_hash: KeyHash,
}

/// The encoding of a sample, where there is one.
pub open spec fn encoding<T>(serdata: SerData<T>) -> Option<Seq<u8>> {
    match serdata.cdr {
        Some(cdr) => Some(cdr@),
        None => None,
    }
}

/// A fragment of an encoding: the bytes from `min` up to `maxp1`.
#[derive(Debug, Clone, Copy)]
pub struct Fragment<'a> {
    pub min: u32,
    pub maxp1: u32,
    pub payload: &'a [u8],
}

impl<'a> Fragment<'a> {
    /// The payload holds as many bytes as the bounds say.
    pub open spec fn wf(self) -> bool {
        self.maxp1 >= self.min ==> self.payload@.len() == self.maxp1 - self.min
    }
}

/// What is put together after one more fragment: what it adds at the end counts,
/// and a gap is an error.
pub open spec fn joined_to(bytes: Seq<u8>, fragment: Fragment<'_>) -> Option<Seq<u8>> {
    if fragment.min > bytes.len() {
        None
    } else if fragment.maxp1 > bytes.len() {
        Some(bytes + fragment.payload@.skip(bytes.len() - fragment.min))
    } else {
        Some(bytes)
    }
}

/// What fragments put together; `None` where there is a gap between them, or
/// where they hold more than `size` bytes.
pub open spec fn assembled(fragments: Seq<Fragment<'_>>, size: nat) -> Option<Seq<u8>>
    decreases fragments.len(),
{
    if fragments.len() == 0 {
        Some(Seq::empty())
    } else {
        match assembled(fragments.drop_last(), size) {
            None => None,
            Some(before) => match joined_to(before, fragments.last()) {
                None => None,
                Some(bytes) => if bytes.len() > size {
                    None
                } else {
                    Some(bytes)
                },
            },
        }
    }
}

/// The encoding that fragments hold, or why they are thrown away.
pub open spec fn chain_result(fragments: Seq<Fragment<'_>>, size: nat) -> Result<
    Seq<u8>,
    DiscardReason,
> {
    match assembled(fragments, size) {
        None => Err(DiscardReason::InvalidFragchain),
        Some(bytes) => if bytes.len() == size {
            Ok(bytes)
        } else {
            Err(DiscardReason::CdrAssemblyFailed)
        },
    }
}

proof fn lemma_assembled_prefix(fragments: Seq<Fragment<'_>>, size: nat, i: int)
    requires
        0 <= i <= fragments.len(),
        assembled(fragments.take(i), size) is None,
    ensures
        assembled(fragments, size) is None,
    decreases fragments.len() - i,
{
    if i < fragments.len() {
        assert(fragments.take(i + 1).drop_last() =~= fragments.take(i));
        lemma_assembled_prefix(fragments, size, i + 1);
    } else {
        assert(fragments.take(i) =~= fragments);
    }
}

/// Puts fragments together.
pub fn assemble(fragments: &Vec<Fragment<'_>>, size: usize) -> (r: Result<Vec<u8>, DiscardReason>)
    requires
        forall|i: int| 0 <= i < fragments.len() ==> (#[trigger] fragments@[i]).wf(),
    ensures
        match chain_result(fragments@, size as nat) {
            Ok(bytes) => r matches Ok(found) && found@ == bytes,
            Err(reason) => r == Err::<Vec<u8>, DiscardReason>(reason),
        },
{
    let mut bytes: Vec<u8> = Vec::new();
    let mut off: u32 = 0;
    let mut i: usize = 0;
    assert(fragments@.take(0) =~= Seq::empty());
    assert(bytes@ =~= Seq::empty());
    while i < fragments.len()
        invariant
            i <= fragments.len(),
            off == bytes@.len(),
            bytes@.len() <= size,
            assembled(fragments@.take(i as int), size as nat) == Some(bytes@),
            forall|i: int| 0 <= i < fragments.len() ==> (#[trigger] fragments@[i]).wf(),
        decreases fragments.len() - i,
    {
        let fragment = fragments[i];
        proof {
            assert(fragments@.take(i + 1).drop_last() =~= fragments@.take(i as int));
            assert(fragments@.take(i + 1).last() == fragment);
            assert(fragments@[i as int].wf());
        }
        let skip: u32 = match off.checked_sub(fragment.min) {
            Some(skip) => skip,
            None => {
                proof {
                    lemma_assembled_prefix(fragments@, size as nat, i + 1);
                }
                return Err(DiscardReason::InvalidFragchain);
            },
        };
        if fragment.maxp1 > off {
            let part = slice_subrange(fragment.payload, skip as usize, fragment.payload.len());
            assert(part@ =~= fragment.payload@.skip(skip as int));
            push_all(&mut bytes, part);
            off = fragment.maxp1;
            if off as usize > size {
                proof {
                    lemma_assembled_prefix(fragments@, size as nat, i + 1);
                }
                return Err(DiscardReason::InvalidFragchain);
            }
        }
        i = i + 1;
    }
    assert(fragments@.take(i as int) =~= fragments@);
    if bytes.len() < size {
        return Err(DiscardReason::CdrAssemblyFailed);
    }
    Ok(bytes)
}

/// The bytes of `s` from `offset` on, at most `size` of them.
pub open spec fn window(s: Seq<u8>, offset: int, size: int) -> Seq<u8> {
    if offset < s.len() {
        s.subrange(
            offset,
            if offset + size <= s.len() {
                offset + size
            } else {
                s.len() as int
            },
        )
    } else {
        Seq::empty()
    }
}

/// The bytes of `s` from `offset` on, at most `size` of them.
pub fn window_of<'a>(s: &'a [u8], offset: usize, size: usize) -> (r: &'a [u8])
    requires
        offset < s@.len() ==> offset + size <= usize::MAX,
    ensures
        r@ == window(s@, offset as int, size as int),
{
    if offset < s.len() {
        let last: usize = if offset + size < s.len() {
            offset + size
        } else {
            s.len()
        };
        slice_subrange(s, offset, last)
    } else {
        let none = slice_subrange(s, 0, 0);
        assert(none@ =~= Seq::empty());
        none
    }
}

/// As `window`, filled up with zeros to `size` bytes.
pub open spec fn padded_window(s: Seq<u8>, offset: int, size: int) -> Seq<u8> {
    Seq::new(
        size as nat,
        |i: int|
            if offset + i < s.len() {
                s[offset + i]
            } else {
                0u8
            },
    )
}

/// The bytes of `s` from `offset` on, filled up with zeros to `size` bytes.
pub fn copy_cdr_data(s: &[u8], size: usize, offset: usize) -> (r: Vec<u8>)
    requires
        offset < s@.len() ==> offset + size <= usize::MAX,
    ensures
        r@ == padded_window(s@, offset as int, size as int),
{
    let mut bytes: Vec<u8> = Vec::new();
    push_all(&mut bytes, window_of(s, offset, size));
    while bytes.len() < size
        invariant
            bytes@.len() <= size,
            window(s@, offset as int, size as int).len() <= bytes@.len(),
            forall|i: int| 0 <= i < bytes@.len() ==> #[trigger] bytes@[i] == padded_window(s@, offset as int, size as int)[i],
        decreases size - bytes.len(),
    {
        bytes.push(0);
    }
    assert(bytes@ =~= padded_window(s@, offset as int, size as int));
    bytes
}

/// What a buffer is to hold of a sample.
#[derive(Debug)]
pub enum ToSer {
    /// There is nothing to write.
    Nothing,
    Bytes(Vec<u8>),
    /// The value cannot be encoded.
    Failed,
}

/// In which form shared memory holds a sample.
#[derive(Debug, Clone, Copy, PartialEq, Eq, Structural)]
pub enum LoanState {
    SerializedKey,
    SerializedData,
    /// Any form that is not an encoding.
    Other,
}

/// A sample in shared memory.
#[derive(Debug, Clone, Copy)]
pub struct LoanedBytes<'a> {
    pub state: LoanState,
    pub cdr_identifier: u16,
    pub cdr_options: u16,
    pub statusinfo: u32,
    pub timestamp: i64,
    pub data: &'a [u8],
}

impl<T> SerData<T> {
    /// A sample of which nothing is known yet.
    pub open spec fn blank(kind: SerdataKind) -> Self {
        SerData {
            kind,
            typed: true,
            hash: 0,
            statusinfo: 0,
            timestamp: 0,
            sample: SampleData::Uninitialized,
            cdr: None,
            key_hash: KeyHash::NoKey,
        }
    }

    pub fn new(kind: SerdataKind) -> (r: Self)
        ensures
            r == Self::blank(kind),
    {
        SerData {
            kind,
            typed: true,
            hash: 0,
            statusinfo: 0,
            timestamp: 0,
            sample: SampleData::Uninitialized,
            cdr: None,
            key_hash: KeyHash::NoKey,
        }
    }

    /// Builds a sample from the fragments in which it came over the network. A
    /// sample that cannot be put together is counted.
    pub fn from_fragchain(
        kind: SerdataKind,
        fragments: &Vec<Fragment<'_>>,
        size: usize,
        discarded: &mut DiscardedSamples,
    ) -> (r: Option<Self>)
        requires
            fragments.len() > 0,
            forall|i: int| 0 <= i < fragments.len() ==> (#[trigger] fragments@[i]).wf(),
        ensures
            match chain_result(fragments@, size as nat) {
                Ok(bytes) => {
                    &&& *final(discarded) == *old(discarded)
                    &&& r matches Some(serdata) && encoding(serdata) == Some(bytes) && serdata
                        == (SerData { cdr: serdata.cdr, ..Self::blank(kind) })
                },
                Err(reason) => {
                    &&& *final(discarded) == old(discarded).counted(reason)
                    &&& r is None
                },
            },
    {
        let mut serdata = SerData::new(kind);
        match assemble(fragments, size) {
            Ok(cdr) => {
                serdata.cdr = Some(cdr);
                Some(serdata)
            },
            Err(reason) => {
                count_discarded_sample(discarded, reason);
                None
            },
        }
    }

    /// Builds a sample from an encoding that lies in several places. A sample
    /// with fewer bytes than announced is counted.
    pub fn from_ser_iov(
        kind: SerdataKind,
        parts: &Vec<&[u8]>,
        size: usize,
        discarded: &mut DiscardedSamples,
    ) -> (r: Option<Self>)
        ensures
            r is Some <==> util::gathered(parts@).len() >= size,
            r matches Some(serdata) ==> encoding(serdata) == Some(
                util::gathered(parts@).take(size as int),
            ) && serdata == (SerData { cdr: serdata.cdr, ..Self::blank(kind) }),
            *final(discarded) == if r is Some {
                *old(discarded)
            } else {
                old(discarded).counted(DiscardReason::CdrAssemblyFailed)
            },
    {
        let mut serdata = SerData::new(kind);
        match SGReader::new(parts).into_vec(size) {
            Ok(cdr) => {
                serdata.cdr = Some(cdr);
                Some(serdata)
            },
            Err(_) => {
                count_discarded_sample(discarded, DiscardReason::CdrAssemblyFailed);
                None
            },
        }
    }

    /// A sample of which only the key is known.
    pub fn from_keyhash(keyhash: &[u8; 16]) -> (r: Self)
        ensures
            r == (SerData {
                sample: SampleData::SdkKey,
                key_hash: r.key_hash,
                ..Self::blank(SerdataKind::Key)
            }),
            r.key_hash is CdrKey,
            r.key_hash.bytes() == seq![0u8, 0u8, 0u8, 0u8] + keyhash@,
    {
        let mut serdata = SerData::new(SerdataKind::Key);
        serdata.sample = SampleData::SdkKey;
        serdata.key_hash = KeyHash::from_keyhash(keyhash);
        serdata
    }

    /// A sample that the application hands over, with the hash of its key.
    pub fn from_sample(kind: SerdataKind, sample: Arc<T>, hash: u32) -> (r: Self)
        requires
            kind is Data,
        ensures
            r == (SerData { hash, sample: SampleData::SdkData(sample), ..Self::blank(kind) }),
    {
        let mut serdata = SerData::new(kind);
        serdata.hash = hash;
        serdata.sample = SampleData::SdkData(sample);
        serdata
    }

    /// Builds a sample from its encoding in shared memory; `None` where there
    /// is no encoding, or one of another kind than plain big-endian CDR.
    pub fn from_psmx(loan: Option<&LoanedBytes<'_>>) -> (r: Option<Self>)
        ensures
            r is Some <==> loan is Some && loan->0.state !is Other && loan->0.cdr_identifier == 0
                && loan->0.cdr_options == 0,
            r matches Some(serdata) ==> {
                &&& encoding(serdata) == Some(loan->0.data@)
                &&& serdata == (SerData {
                    cdr: serdata.cdr,
                    statusinfo: loan->0.statusinfo,
                    timestamp: loan->0.timestamp,
                    ..Self::blank(
                        if loan->0.state is SerializedData {
                            SerdataKind::Data
                        } else {
                            SerdataKind::Key
                        },
                    )
                })
            },
    {
        let loan = match loan {
            Some(loan) => loan,
            None => {
                return None;
            },
        };
        let kind = match loan.state {
            LoanState::SerializedData => SerdataKind::Data,
            LoanState::SerializedKey => SerdataKind::Key,
            LoanState::Other => {
                return None;
            },
        };
        if loan.cdr_identifier != 0 || loan.cdr_options != 0 {
            return None;
        }
        let mut cdr: Vec<u8> = Vec::new();
        push_all(&mut cdr, loan.data);
        assert(cdr@ =~= loan.data@);
        let mut serdata = SerData::new(kind);
        serdata.cdr = Some(cdr);
        serdata.statusinfo = loan.statusinfo;
        serdata.timestamp = loan.timestamp;
        Some(serdata)
    }

    /// Whether two samples have the same key.
    pub fn eqkey(&self, other: &Self) -> (r: bool)
        ensures
            r == (self.key_hash.bytes() == other.key_hash.bytes()),
    {
        self.key_hash == other.key_hash
    }

    /// The sample without its type and its value: the key is left.
    pub fn to_untyped(&self) -> (r: Self)
        ensures
            r == (SerData {
                typed: false,
                sample: SampleData::SdkKey,
                key_hash: self.key_hash,
                hash: self.hash,
                ..Self::blank(SerdataKind::Key)
            }),
    {
        let mut untyped = SerData::new(SerdataKind::Key);
        untyped.typed = false;
        untyped.sample = SampleData::SdkKey;
        untyped.key_hash = self.key_hash;
        untyped.hash = self.hash;
        untyped
    }

    /// Writes the 16 bytes of the key; leaves `keyhash` as it is where there is
    /// no key.
    pub fn get_keyhash(&self, keyhash: &mut [u8; 16])
        ensures
            final(keyhash)@ == if self.key_hash is NoKey {
                old(keyhash)@
            } else {
                self.key_hash.bytes().skip(4)
            },
    {
        self.key_hash.write_to(keyhash);
    }

    /// Whether a sample has an encoding, after it was encoded where it has a value
    /// and has not been encoded yet.
    pub open spec fn encoded_by<F: FnOnce(&Arc<T>) -> Option<Vec<u8>>>(
        self,
        encode: F,
        encoded: Option<Vec<u8>>,
    ) -> bool {
        match (self.sample, self.cdr) {
            (SampleData::SdkData(value), None) => call_ensures(encode, (&value,), encoded),
            _ => encoded == self.cdr,
        }
    }

    /// Encodes the value where it has not been encoded yet, and keeps the
    /// encoding, so that it is made once. `encode` gives none where it fails.
    pub fn serialize_sample<F>(&mut self, encode: F) where
        F: FnOnce(&Arc<T>) -> Option<Vec<u8>>,

        requires
            old(self).cdr is None ==> (old(self).sample matches SampleData::SdkData(value)
                ==> call_requires(encode, (&value,))),
        ensures
            exists|encoded: Option<Vec<u8>>| #[trigger]
                old(self).encoded_by(encode, encoded) && *final(self) == (SerData {
                    cdr: encoded,
                    ..*old(self)
                }),
    {
        if self.cdr.is_none() {
            if let SampleData::SdkData(value) = &self.sample {
                let encoded = encode(value);
                self.cdr = encoded;
                assert(old(self).encoded_by(encode, encoded));
                return ;
            }
        }
        assert(old(self).encoded_by(encode, old(self).cdr));
    }

    /// A part of the encoding, which is made when it is first asked for. Of a key
    /// all of it is served, whatever was asked for. `None` where the value
    /// cannot be encoded.
    pub fn to_ser_ref<'a, F>(&'a mut self, offset: usize, size: usize, encode: F) -> (r: Option<
        &'a [u8],
    >) where F: FnOnce(&Arc<T>) -> Option<Vec<u8>>
        requires
            old(self).sample !is Uninitialized,
            old(self).cdr is None ==> (old(self).sample matches SampleData::SdkData(value)
                ==> call_requires(encode, (&value,))),
            old(self).sample is SdkData ==> forall|encoded: Option<Vec<u8>>| #[trigger]
                old(self).encoded_by(encode, encoded) ==> (encoded matches Some(cdr) ==> offset
                    < cdr@.len() ==> offset + size <= usize::MAX),
        ensures
            exists|encoded: Option<Vec<u8>>|
                {
                    &&& #[trigger] old(self).encoded_by(encode, encoded)
                    &&& *final(self) == (SerData { cdr: encoded, ..*old(self) })
                    &&& match (old(self).sample, encoded) {
                        (SampleData::SdkData(_), Some(cdr)) => r matches Some(part) && part@
                            == window(cdr@, offset as int, size as int),
                        (SampleData::SdkData(_), None) => r is None,
                        _ => r matches Some(part) && part@ == old(self).key_hash.bytes(),
                    }
                },
    {
        self.serialize_sample(encode);
        match &self.sample {
            SampleData::SdkData(_) => self.forward_to_ser_ref(offset, size),
            _ => match &self.key_hash {
                KeyHash::NoKey => {
                    let none: &'static [u8] = &[];
                    assert(none@ =~= Seq::empty());
                    Some(none)
                },
                KeyHash::CdrKey(k) => Some(k.as_slice()),
            },
        }
    }

    /// A part of the encoding, for a sample whose type is not known. `None`
    /// where there is no encoding.
    pub fn forward_to_ser_ref<'a>(&'a self, offset: usize, size: usize) -> (r: Option<&'a [u8]>)
        requires
            encoding(*self) matches Some(cdr) && offset < cdr.len() ==> offset + size <= usize::MAX,
        ensures
            match encoding(*self) {
                Some(cdr) => r matches Some(part) && part@ == window(
                    cdr,
                    offset as int,
                    size as int,
                ),
                None => r is None,
            },
    {
        match &self.cdr {
            Some(cdr) => Some(window_of(cdr.as_slice(), offset, size)),
            None => None,
        }
    }

    /// What a buffer of `size` bytes is to hold of the sample: its bytes from
    /// `offset` on. A value that has not been encoded yet is encoded for it, and
    /// the encoding is not kept.
    pub fn to_ser<F>(&self, size: usize, offset: usize, encode: F) -> (r: ToSer) where
        F: FnOnce(&Arc<T>) -> Option<Vec<u8>>,

        requires
            size > 0 && self.cdr is None ==> self.sample !is Uninitialized,
            size > 0 && self.cdr is None ==> (self.sample matches SampleData::SdkData(value)
                ==> call_requires(encode, (&value,))),
            forall|encoded: Option<Vec<u8>>| #[trigger]
                self.encoded_by(encode, encoded) ==> (encoded matches Some(cdr) ==> offset
                    < cdr@.len() ==> offset + size <= usize::MAX),
            self.cdr is None && self.sample is SdkKey && offset < self.key_hash.bytes().len()
                ==> offset + size <= usize::MAX,
        ensures
            if size == 0 {
                r is Nothing
            } else {
                exists|encoded: Option<Vec<u8>>| #[trigger]
                    self.encoded_by(encode, encoded) && match encoded {
                        Some(cdr) => r matches ToSer::Bytes(bytes) && bytes@ == padded_window(
                            cdr@,
                            offset as int,
                            size as int,
                        ),
                        None => if self.sample is SdkData {
                            r is Failed
                        } else {
                            r matches ToSer::Bytes(bytes) && bytes@ == padded_window(
                                self.key_hash.bytes(),
                                offset as int,
                                size as int,
                            )
                        },
                    }
            },
    {
        if size == 0 {
            return ToSer::Nothing;
        }
        match &self.cdr {
            Some(cdr) => {
                assert(self.encoded_by(encode, self.cdr));
                return ToSer::Bytes(copy_cdr_data(cdr.as_slice(), size, offset));
            },
            None => {},
        }
        match &self.sample {
            SampleData::SdkData(value) => {
                let encoded = encode(value);
                assert(self.encoded_by(encode, encoded));
                match encoded {
                    Some(cdr) => ToSer::Bytes(copy_cdr_data(cdr.as_slice(), size, offset)),
                    None => ToSer::Failed,
                }
            },
            _ => {
                assert(self.encoded_by(encode, self.cdr));
                match &self.key_hash {
                    KeyHash::NoKey => {
                        let none: &'static [u8] = &[];
                        assert(none@ =~= Seq::empty());
                        ToSer::Bytes(copy_cdr_data(none, size, offset))
                    },
                    KeyHash::CdrKey(k) => ToSer::Bytes(copy_cdr_data(k.as_slice(), size, offset)),
                }
            },
        }
    }

    /// What a buffer is to hold of a sample whose type is not known; nothing is
    /// written where there is no encoding.
    pub fn forward_to_ser(&self, size: usize, offset: usize) -> (r: Option<Vec<u8>>)
        requires
            encoding(*self) matches Some(cdr) && offset < cdr.len() ==> offset + size <= usize::MAX,
        ensures
            r is Some <==> size > 0 && self.cdr is Some,
            r matches Some(bytes) ==> bytes@ == padded_window(
                encoding(*self)->0,
                offset as int,
                size as int,
            ),
    {
        if size == 0 {
            return None;
        }
        match &self.cdr {
            Some(cdr) => Some(copy_cdr_data(cdr.as_slice(), size, offset)),
            None => None,
        }
    }

    /// The size of the encoding. `calculate` gives what the encoding of the value
    /// would take; it is asked where the value has not been encoded.
    pub fn get_size<F>(&self, calculate: F) -> (r: u32) where F: FnOnce(&Arc<T>) -> u64
        requires
            self.cdr is None ==> (self.sample matches SampleData::SdkData(value)
                ==> call_requires(calculate, (&value,))),
        ensures
            match (self.sample, self.cdr) {
                (SampleData::SdkKey, _) => r == self.key_hash.bytes().len(),
                (SampleData::SdkData(_), Some(cdr)) => r == cdr.len() as u32,
                (SampleData::SdkData(value), None) => exists|size: u64| #[trigger]
                    call_ensures(calculate, (&value,), size) && r == size as u32,
                (SampleData::Uninitialized, _) => r == 0,
            },
    {
        match &self.sample {
            SampleData::SdkKey => self.key_hash.key_length() as u32,
            SampleData::SdkData(value) => match &self.cdr {
                Some(cdr) => #[verifier::truncate] (cdr.len() as u32),
                None => {
                    let size: u64 = calculate(value);
                    #[verifier::truncate] (size as u32)
                },
            },
            SampleData::Uninitialized => 0,
        }
    }

    /// The size of the encoding, for a sample whose type is not known.
    pub fn forward_get_size(&self) -> (r: u32)
        ensures
            r == match self.cdr {
                Some(cdr) => cdr.len() as u32,
                None => 0,
            },
    {
        match &self.cdr {
            Some(cdr) => cdr.len() as u32,
            None => 0,
        }
    }

    /// Makes a received sample ready for the application. `decode` decodes its
    /// encoding, where there is one and that has not been done; the value is
    /// kept, so that it is decoded once.
    pub fn to_sample<F>(&mut self, decode: F) -> (r: bool) where
        F: FnOnce(&Vec<u8>) -> Option<Arc<T>>,

        requires
            old(self).sample is Uninitialized ==> (old(self).cdr matches Some(cdr)
                ==> call_requires(decode, (&cdr,))),
        ensures
            match (old(self).sample, old(self).cdr) {
                (SampleData::Uninitialized, Some(cdr)) => exists|decoded: Option<Arc<T>>|
                    {
                        &&& #[trigger] call_ensures(decode, (&cdr,), decoded)
                        &&& r == (decoded is Some)
                        &&& *final(self) == match decoded {
                            Some(value) => SerData {
                                sample: SampleData::SdkData(value),
                                ..*old(self)
                            },
                            None => *old(self),
                        }
                    },
                (SampleData::Uninitialized, None) => !r && *final(self) == *old(self),
                _ => r && *final(self) == *old(self),
            },
    {
        if !matches!(self.sample, SampleData::Uninitialized) {
            return true;
        }
        match &self.cdr {
            Some(cdr) => {
                let decoded = decode(cdr);
                match decoded {
                    Some(value) => {
                        self.sample = SampleData::SdkData(value);
                        true
                    },
                    None => false,
                }
            },
            None => false,
        }
    }

    /// Whether the application's sample is to hold on to this one.
    pub fn has_value(&self) -> (r: bool)
        ensures
            r == (self.sample is SdkData),
    {
        matches!(self.sample, SampleData::SdkData(_))
    }
}

/// Whether a fragment is a piece of `bytes`.
pub open spec fn is_piece(fragment: Fragment<'_>, bytes: Seq<u8>) -> bool {
    &&& fragment.min <= fragment.maxp1 <= bytes.len()
    &&& fragment.payload@ == bytes.subrange(fragment.min as int, fragment.maxp1 as int)
}

/// How far fragments reach.
pub open spec fn reach(fragments: Seq<Fragment<'_>>) -> nat
    decreases fragments.len(),
{
    if fragments.len() == 0 {
        0
    } else {
        let before = reach(fragments.drop_last());
        if fragments.last().maxp1 > before {
            fragments.last().maxp1 as nat
        } else {
            before
        }
    }
}

/// No fragment begins behind what those before it reach.
pub open spec fn gapless(fragments: Seq<Fragment<'_>>) -> bool {
    forall|i: int|
        0 <= i < fragments.len() ==> (#[trigger] fragments[i]).min <= reach(fragments.take(i))
}

proof fn lemma_pieces(fragments: Seq<Fragment<'_>>, bytes: Seq<u8>)
    requires
        forall|i: int| 0 <= i < fragments.len() ==> is_piece(#[trigger] fragments[i], bytes),
        gapless(fragments),
    ensures
        reach(fragments) <= bytes.len(),
        assembled(fragments, bytes.len()) == Some(bytes.take(reach(fragments) as int)),
    decreases fragments.len(),
{
    if fragments.len() == 0 {
        assert(bytes.take(0) =~= Seq::empty());
    } else {
        let front = fragments.drop_last();
        let last = fragments[fragments.len() - 1];
        assert forall|i: int| 0 <= i < front.len() implies (#[trigger] front[i]).min <= reach(
            front.take(i),
        ) by {
            assert(front[i] == fragments[i]);
            assert(front.take(i) =~= fragments.take(i));
        }
        lemma_pieces(front, bytes);
        assert(fragments.take(fragments.len() - 1) =~= front);
        assert(is_piece(last, bytes));
        let before = bytes.take(reach(front) as int);
        if last.maxp1 > before.len() {
            assert(before + last.payload@.skip(before.len() - last.min) =~= bytes.take(
                last.maxp1 as int,
            ));
        }
    }
}

/// The pieces of an encoding, in any number and with any overlap, give it back,
/// where they leave no gap and reach its end.
pub proof fn law_pieces_give_the_whole(fragments: Seq<Fragment<'_>>, bytes: Seq<u8>)
    requires
        forall|i: int| 0 <= i < fragments.len() ==> is_piece(#[trigger] fragments[i], bytes),
        gapless(fragments),
        reach(fragments) == bytes.len(),
    ensures
        chain_result(fragments, bytes.len()) == Ok::<Seq<u8>, DiscardReason>(bytes),
{
    lemma_pieces(fragments, bytes);
    assert(bytes.take(bytes.len() as int) =~= bytes);
}

/// The parts of `s` from `offset` on that are served in steps of `step` bytes,
/// one behind the other.
pub open spec fn served(s: Seq<u8>, step: nat, offset: nat) -> Seq<u8>
    decreases
            if offset <= s.len() {
                s.len() - offset
            } else {
                0
            },
{
    if offset >= s.len() || step == 0 {
        Seq::empty()
    } else {
        window(s, offset as int, step as int) + served(s, step, offset + step)
    }
}

/// Served in steps of any size, an encoding comes out as it is.
pub proof fn law_served_parts_give_the_whole(s: Seq<u8>, step: nat)
    requires
        step > 0,
    ensures
        served(s, step, 0) == s,
{
    lemma_served(s, step, 0);
    assert(s.skip(0) =~= s);
}

proof fn lemma_served(s: Seq<u8>, step: nat, offset: nat)
    requires
        step > 0,
        offset <= s.len(),
    ensures
        served(s, step, offset) == s.skip(offset as int),
    decreases s.len() - offset,
{
    if offset < s.len() {
        if offset + step <= s.len() {
            lemma_served(s, step, offset + step);
            assert(window(s, offset as int, step as int) + s.skip((offset + step) as int)
                =~= s.skip(offset as int));
        } else {
            assert(served(s, step, offset + step) =~= Seq::empty());
            assert(window(s, offset as int, step as int) =~= s.skip(offset as int));
            assert(window(s, offset as int, step as int) + Seq::empty() =~= s.skip(offset as int));
        }
    } else {
        assert(s.skip(offset as int) =~= Seq::empty());
    }
}

/// A value is encoded once: what was encoded is served from then on, whatever
/// another encoding would give.
pub proof fn law_value_is_encoded_once<T, F: FnOnce(&Arc<T>) -> Option<Vec<u8>>>(
    serdata: SerData<T>,
    encoded: Vec<u8>,
    again: F,
    later: Option<Vec<u8>>,
)
    requires
        (SerData { cdr: Some(encoded), ..serdata }).encoded_by(again, later),
    ensures
        later == Some(encoded),
{
}

/// A buffer that asks for bytes within an encoding gets just those, from the
/// offset on.
pub proof fn law_buffer_gets_the_bytes_asked_for(s: Seq<u8>, offset: int, size: int)
    requires
        0 <= offset,
        0 <= size,
        offset + size <= s.len(),
    ensures
        padded_window(s, offset, size) == s.subrange(offset, offset + size),
        size > 0 ==> window(s, offset, size) == s.subrange(offset, offset + size),
{
    assert(padded_window(s, offset, size) =~= s.subrange(offset, offset + size));
}

/// A buffer gets the same bytes of a value that is encoded when it is filled as
/// of one that was encoded before.
pub proof fn law_buffer_is_filled_alike<T, F: FnOnce(&Arc<T>) -> Option<Vec<u8>>>(
    serdata: SerData<T>,
    encode: F,
    encoded: Vec<u8>,
    later: Option<Vec<u8>>,
    offset: int,
    size: int,
)
    requires
        serdata.encoded_by(encode, Some(encoded)),
        (SerData { cdr: Some(encoded), ..serdata }).encoded_by(encode, later),
    ensures
        later matches Some(cdr) && padded_window(cdr@, offset, size) == padded_window(
            encoded@,
            offset,
            size,
        ),
{
}

/// The key of a sample that was made from 16 bytes is those bytes.
pub proof fn law_keyhash_is_given_back(key_hash: KeyHash, keyhash: Seq<u8>)
    requires
        keyhash.len() == 16,
        key_hash.bytes() == seq![0u8, 0u8, 0u8, 0u8] + keyhash,
    ensures
        key_hash.bytes().skip(4) == keyhash,
{
    assert(key_hash.bytes().skip(4) =~= keyhash);
}

proof fn lemma_assembled(fragments: Seq<Fragment<'_>>, size: nat)
    requires
        forall|i: int| 0 <= i < fragments.len() ==> (#[trigger] fragments[i]).wf(),
    ensures
        assembled(fragments, size) is Some <==> gapless(fragments) && reach(fragments) <= size,
        assembled(fragments, size) matches Some(bytes) ==> bytes.len() == reach(fragments),
    decreases fragments.len(),
{
    if fragments.len() > 0 {
        let front = fragments.drop_last();
        let last = fragments.last();
        assert(forall|i: int| 0 <= i < front.len() ==> front[i] == fragments[i]);
        lemma_assembled(front, size);
        assert(fragments[fragments.len() - 1].wf());
        assert(fragments.take(fragments.len() - 1) =~= front);
        assert(gapless(fragments) <==> gapless(front) && last.min <= reach(front)) by {
            assert forall|i: int| 0 <= i < front.len() implies front.take(i) == fragments.take(i) by {
                assert(front.take(i) =~= fragments.take(i));
            }
            if gapless(fragments) {
                assert forall|i: int| 0 <= i < front.len() implies (#[trigger] front[i]).min
                    <= reach(front.take(i)) by {
                    assert(fragments[i].min <= reach(fragments.take(i)));
                }
                assert(fragments[fragments.len() - 1].min <= reach(
                    fragments.take(fragments.len() - 1),
                ));
            }
            if gapless(front) && last.min <= reach(front) {
                assert forall|i: int| 0 <= i < fragments.len() implies (#[trigger] fragments[i]).min
                    <= reach(fragments.take(i)) by {
                    if i < front.len() {
                        assert(front[i].min <= reach(front.take(i)));
                    }
                }
            }
        }
    }
}

/// Fragments give a sample just where none begins behind what those before it
/// reach, and they reach the announced size. Where they leave no gap but fall
/// short, there are too few bytes; in any other case they do not fit together.
pub proof fn law_which_fragments_give_a_sample(fragments: Seq<Fragment<'_>>, size: nat)
    requires
        forall|i: int| 0 <= i < fragments.len() ==> (#[trigger] fragments[i]).wf(),
    ensures
        chain_result(fragments, size) is Ok <==> gapless(fragments) && reach(fragments) == size,
        chain_result(fragments, size) == Err::<Seq<u8>, DiscardReason>(
            DiscardReason::CdrAssemblyFailed,
        ) <==> gapless(fragments) && reach(fragments) < size,
        chain_result(fragments, size) == Err::<Seq<u8>, DiscardReason>(
            DiscardReason::InvalidFragchain,
        ) <==> !gapless(fragments) || reach(fragments) > size,
        chain_result(fragments, size) matches Ok(bytes) ==> bytes.len() == size,
{
    lemma_assembled(fragments, size);
}

proof fn lemma_first_fragment_counts(fragments: Seq<Fragment<'_>>, size: nat, i: int, at: int)
    requires
        forall|k: int| 0 <= k < fragments.len() ==> (#[trigger] fragments[k]).wf(),
        assembled(fragments, size) is Some,
        0 <= i < fragments.len(),
        reach(fragments.take(i)) <= at < fragments[i].maxp1,
    ensures
        at < (assembled(fragments, size)->0).len(),
        (assembled(fragments, size)->0)[at] == fragments[i].payload@[at - fragments[i].min],
    decreases fragments.len(),
{
    let front = fragments.drop_last();
    let last = fragments.last();
    assert(forall|k: int| 0 <= k < front.len() ==> front[k] == fragments[k]);
    lemma_assembled(front, size);
    assert(fragments[fragments.len() - 1].wf());
    assert(fragments.take(fragments.len() - 1) =~= front);
    if i < front.len() {
        assert(front.take(i) =~= fragments.take(i));
        lemma_first_fragment_counts(front, size, i, at);
    }
}

/// Each byte of a sample is that of the first fragment that reaches it.
pub proof fn law_first_fragment_counts(fragments: Seq<Fragment<'_>>, size: nat, i: int, at: int)
    requires
        forall|k: int| 0 <= k < fragments.len() ==> (#[trigger] fragments[k]).wf(),
        chain_result(fragments, size) is Ok,
        0 <= i < fragments.len(),
        reach(fragments.take(i)) <= at < fragments[i].maxp1,
    ensures
        at < size,
        (chain_result(fragments, size)->Ok_0)[at] == fragments[i].payload@[at - fragments[i].min],
{
    lemma_assembled(fragments, size);
    lemma_first_fragment_counts(fragments, size, i, at);
}

/// A fragment holds as many bytes as lie between its bounds.
pub proof fn law_fragment_fills_its_bounds(fragment: Fragment<'_>)
    requires
        fragment.wf(),
        fragment.min <= fragment.maxp1,
    ensures
        fragment.min + fragment.payload@.len() == fragment.maxp1,
{
}

/// A part of an encoding is what stands there from the offset on: as many bytes
/// as were asked for, or all to the end where there are fewer; none behind the
/// end.
pub proof fn law_part_of_an_encoding(s: Seq<u8>, offset: int, size: int)
    requires
        0 <= offset,
        0 <= size,
    ensures
        ({
            let part = window(s, offset, size);
            &&& forall|i: int| 0 <= i < part.len() ==> #[trigger] part[i] == s[offset + i]
            &&& part.len() <= size
            &&& offset + size <= s.len() ==> part.len() == size || size == 0
            &&& offset < s.len() < offset + size ==> offset + part.len() == s.len()
            &&& offset >= s.len() ==> part.len() == 0
        }),
{
}

/// A buffer is filled to its size: with the bytes from the offset on as far as
/// there are any, and with zeros from there.
pub proof fn law_buffer_is_filled(s: Seq<u8>, offset: int, size: int)
    requires
        0 <= offset,
        0 <= size,
    ensures
        padded_window(s, offset, size).len() == size,
        forall|i: int|
            0 <= i < size && offset + i < s.len() ==> #[trigger] padded_window(s, offset, size)[i]
                == s[offset + i],
        forall|i: int|
            0 <= i < size && offset + i >= s.len() ==> #[trigger] padded_window(s, offset, size)[i]
                == 0,
{
}

/// A sample that has an encoding is not encoded; of one that has a value and no
/// encoding, the value is handed to the encoder; of one that has neither, there
/// is no encoding.
pub proof fn law_what_is_encoded<T, F: FnOnce(&Arc<T>) -> Option<Vec<u8>>>(
    serdata: SerData<T>,
    encode: F,
    encoded: Option<Vec<u8>>,
)
    requires
        serdata.encoded_by(encode, encoded),
    ensures
        serdata.cdr is Some ==> encoded == serdata.cdr,
        serdata.cdr is None ==> (serdata.sample matches SampleData::SdkData(value) ==> call_ensures(
            encode,
            (&value,),
            encoded,
        )),
        serdata.cdr is None && !(serdata.sample is SdkData) ==> encoded is None,
{
}

/// A new sample is of the kind asked for and of a known type, and holds neither
/// value nor encoding nor key.
pub proof fn law_new_sample_holds_nothing<T>(kind: SerdataKind)
    ensures
        ({
            let serdata = SerData::<T>::blank(kind);
            &&& serdata.kind == kind
            &&& serdata.typed
            &&& serdata.hash == 0
            &&& serdata.statusinfo == 0
            &&& serdata.timestamp == 0
            &&& serdata.sample is Uninitialized
            &&& serdata.cdr is None
            &&& serdata.key_hash is NoKey
        }),
{
}

/// The encoding of a sample is the bytes that it keeps, and the key is the bytes
/// of the key.
pub proof fn law_encoding_and_key_are_the_bytes<T>(serdata: SerData<T>)
    ensures
        encoding(serdata) is Some <==> serdata.cdr is Some,
        serdata.cdr matches Some(cdr) ==> encoding(serdata) == Some(cdr@),
        serdata.key_hash is NoKey ==> serdata.key_hash.bytes().len() == 0,
        serdata.key_hash matches KeyHash::CdrKey(k) ==> serdata.key_hash.bytes() == k@,
{
}

/// Two keys are equal just where both are none, or where both are there and each
/// byte is the same.
pub proof fn law_equal_keys_have_equal_bytes(a: [u8; 20], b: [u8; 20])
    ensures
        crate::util::has_equality::<KeyHash>(),
        vstd::std_specs::cmp::PartialEqSpec::eq_spec(&KeyHash::CdrKey(a), &KeyHash::CdrKey(b))
            <==> forall|i: int| 0 <= i < 20 ==> #[trigger] a@[i] == b@[i],
        vstd::std_specs::cmp::PartialEqSpec::eq_spec(&KeyHash::NoKey, &KeyHash::NoKey),
        !vstd::std_specs::cmp::PartialEqSpec::eq_spec(&KeyHash::CdrKey(a), &KeyHash::NoKey),
        !vstd::std_specs::cmp::PartialEqSpec::eq_spec(&KeyHash::NoKey, &KeyHash::CdrKey(b)),
{
    assert(a@.len() == 20);
    assert(b@.len() == 20);
    if forall|i: int| 0 <= i < 20 ==> #[trigger] a@[i] == b@[i] {
        assert(a@ =~= b@);
    }
}

} // verus!
