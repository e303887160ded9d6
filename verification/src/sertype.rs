//! Types as DDS knows them.
use vstd::prelude::*;

verus! {

/// The name of a type that has none.
pub const DEFAULT_TYPENAME: &'static str = "Untyped";

/// The 32-bit murmur3 hash of bytes.
pub uninterp spec fn murmur3_hash(bytes: Seq<u8>, seed: u32) -> u32;

/// Calls `murmur3::murmur3_32` on bytes in memory. The hash is a function of
/// the bytes and the seed; reading from memory does not fail, so there always
/// is one. It counts the bytes in 32 bits.
#[verifier::external_body]
fn murmur3_32(bytes: &Vec<u8>, seed: u32) -> (r: Option<u32>)
    requires
        bytes@.len() <= u32::MAX,
    ensures
        r == Some(murmur3_hash(bytes@, seed)),
{
    let mut source: &[u8] = bytes.as_slice();
    murmur3::murmur3_32(&mut source, seed).ok()
}

/// What the hash of a type is taken of: its name, then its size.
pub open spec fn hashed_bytes(name: Seq<u8>, size: Seq<u8>) -> Seq<u8> {
    name + size
}

/// The name and the size of a type in one row of bytes.
pub fn hash_input(name: &[u8], size: &[u8]) -> (r: Vec<u8>)
    ensures
        r@ == hashed_bytes(name@, size@),
{
    let mut bytes: Vec<u8> = Vec::new();
    crate::util::push_all(&mut bytes, name);
    crate::util::push_all(&mut bytes, size);
    assert(bytes@ =~= hashed_bytes(name@, size@));
    bytes
}

/// The hash of a type, of its name and the bytes in which the machine holds its
/// size.
pub fn sertype_hash(name: &[u8], size: &[u8]) -> (r: u32)
    requires
        name@.len() + size@.len() <= u32::MAX,
    ensures
        r == murmur3_hash(hashed_bytes(name@, size@), 0),
{
    match murmur3_32(&hash_input(name, size), 0) {
        Some(hash) => hash,
        None => 0,
    }
}

/// The name of a type for people to read; one that is no text counts as none.
pub open spec fn label(name: Option<&[u8]>) -> Seq<char> {
    match name {
        Some(bytes) => if vstd::utf8::valid_utf8(bytes@) {
            vstd::utf8::decode_utf8(bytes@)
        } else {
            DEFAULT_TYPENAME@
        },
        None => DEFAULT_TYPENAME@,
    }
}

/// The name of a type for people to read.
pub fn type_label<'a>(name: Option<&'a [u8]>) -> (r: &'a str)
    ensures
        r@ == label(name),
{
    match name {
        Some(bytes) => match std::str::from_utf8(bytes) {
            Ok(s) => s,
            Err(_) => DEFAULT_TYPENAME,
        },
        None => DEFAULT_TYPENAME,
    }
}

/// How shared memory holds the samples of a type: the size of one, where all
/// have the same.
pub fn shared_memory_size(is_fixed_size: bool, size: u32) -> (r: Option<u32>)
    ensures
        r == if is_fixed_size {
            Some(size)
        } else {
            None
        },
{
    if is_fixed_size {
        Some(size)
    } else {
        None
    }
}

/// A row of samples that was brought to another length.
#[derive(Debug)]
pub struct Reallocation<S> {
    pub samples: Vec<S>,
    /// Those that there is no place for any more.
    pub released: Vec<S>,
}

/// How many samples are to be made before a row can be brought to another
/// length.
pub open spec fn lacking(old_count: nat, new_count: nat) -> nat {
    if new_count > old_count {
        (new_count - old_count) as nat
    } else {
        0
    }
}

/// How many samples are to be made before a row can be brought to another
/// length.
pub fn fresh_count(old_count: usize, new_count: usize) -> (r: usize)
    ensures
        r == lacking(old_count as nat, new_count as nat),
{
    if new_count > old_count {
        new_count - old_count
    } else {
        0
    }
}

/// Brings a row of samples to another length. Those that were there stay at
/// their place as far as there is one; `fresh` fills the rest.
pub fn realloc_samples<S>(old: Vec<S>, fresh: Vec<S>, new_count: usize) -> (r: Reallocation<S>)
    requires
        fresh@.len() == lacking(old@.len(), new_count as nat),
    ensures
        r.samples@.len() == new_count,
        r.samples@ == if new_count <= old@.len() {
            old@.take(new_count as int)
        } else {
            old@ + fresh@
        },
        r.released@ == if new_count <= old@.len() {
            old@.skip(new_count as int)
        } else {
            Seq::empty()
        },
{
    let mut samples = old;
    let mut fresh = fresh;
    let ghost given = samples@;
    if new_count < samples.len() {
        let released = samples.split_off(new_count);
        assert(samples@ =~= given.take(new_count as int));
        assert(released@ =~= given.skip(new_count as int));
        Reallocation { samples, released }
    } else {
        samples.append(&mut fresh);
        assert(new_count == given.len() ==> samples@ =~= given.take(new_count as int));
        assert(new_count == given.len() ==> given.skip(new_count as int) =~= Seq::empty());
        Reallocation { samples, released: Vec::new() }
    }
}

/// What is to be freed of a row of samples.
#[derive(Debug, Clone, Copy, PartialEq, Eq, Structural)]
pub enum FreeAction {
    Nothing,
    /// The samples and the row.
    All,
    /// What the samples hold.
    Contents,
}

/// What is to be freed of a row of `len` samples.
pub fn free_samples(len: usize, all: bool, contents: bool) -> (r: FreeAction)
    requires
        len == 0 || all || contents,
    ensures
        r == if len == 0 {
            FreeAction::Nothing
        } else if all {
            FreeAction::All
        } else {
            FreeAction::Contents
        },
{
    if len == 0 {
        FreeAction::Nothing
    } else if all {
        FreeAction::All
    } else {
        FreeAction::Contents
    }
}

/// Whether an encoding fits into a buffer.
pub fn fits_into(size: usize, dst_size: usize) -> (r: bool)
    ensures
        r == (size <= dst_size),
{
    size <= dst_size
}

/// The hash of a type is taken of its name and, right behind it, its size.
pub proof fn law_name_and_size_are_hashed(name: Seq<u8>, size: Seq<u8>)
    ensures
        hashed_bytes(name, size).len() == name.len() + size.len(),
        hashed_bytes(name, size).take(name.len() as int) == name,
        hashed_bytes(name, size).skip(name.len() as int) == size,
{
    assert(hashed_bytes(name, size).take(name.len() as int) =~= name);
    assert(hashed_bytes(name, size).skip(name.len() as int) =~= size);
}

/// A row lacks samples just where it is to grow, and with those that it lacks it
/// has the new length.
pub proof fn law_lacking_samples_fill_the_row(old_count: nat, new_count: nat)
    ensures
        new_count <= old_count ==> lacking(old_count, new_count) == 0,
        new_count >= old_count ==> old_count + lacking(old_count, new_count) == new_count,
{
}

/// A name that is text is shown as that text: encoded again, it is the name. Any
/// other type is shown as untyped.
pub proof fn law_label_is_the_name(name: &[u8])
    ensures
        vstd::utf8::valid_utf8(name@) ==> vstd::utf8::encode_utf8(label(Some(name))) == name@,
        !vstd::utf8::valid_utf8(name@) ==> label(Some(name)) == "Untyped"@,
        label(None) == "Untyped"@,
{
    if vstd::utf8::valid_utf8(name@) {
        vstd::utf8::decode_utf8_encode_utf8(name@);
    }
}

} // verus!
