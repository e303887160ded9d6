//! Reading bytes that lie in several places.
use vstd::prelude::*;
use vstd::slice::slice_subrange;

verus! {

/// All parts, one behind the other.
pub open spec fn gathered(parts: Seq<&[u8]>) -> Seq<u8>
    decreases parts.len(),
{
    if parts.len() == 0 {
        Seq::empty()
    } else {
        gathered(parts.drop_last()) + parts.last()@
    }
}

/// Fewer bytes than asked for.
#[derive(Debug, Clone, Copy, PartialEq, Eq, Structural)]
pub struct ShortRead;

/// A list of parts that is read as if it were one.
#[derive(Debug)]
pub struct SGReader<'a> {
    pub parts: &'a Vec<&'a [u8]>,
}

impl<'a> SGReader<'a> {
    pub fn new(parts: &'a Vec<&'a [u8]>) -> (r: Self)
        ensures
            r.parts@ == parts@,
    {
        SGReader { parts }
    }

    /// The first `size` bytes.
    pub fn into_vec(self, size: usize) -> (r: Result<Vec<u8>, ShortRead>)
        ensures
            r is Ok <==> gathered(self.parts@).len() >= size,
            r matches Ok(bytes) ==> bytes@ == gathered(self.parts@).take(size as int),
    {
        let parts = self.parts;
        let mut bytes: Vec<u8> = Vec::new();
        let mut i: usize = 0;
        assert(parts@.take(0) =~= Seq::empty());
        assert(bytes@ =~= gathered(parts@.take(0)));
        while i < parts.len()
            invariant
                i <= parts.len(),
                parts@ == self.parts@,
                bytes@.len() <= size,
                gathered(parts@.take(i as int)).len() >= bytes@.len(),
                bytes@ == gathered(parts@.take(i as int)).take(bytes@.len() as int),
                bytes@.len() < size ==> bytes@ == gathered(parts@.take(i as int)),
            decreases parts.len() - i,
        {
            let left: usize = size - bytes.len();
            let part = parts[i];
            let n: usize = if part.len() < left {
                part.len()
            } else {
                left
            };
            let ghost before = bytes@;
            let ghost whole = gathered(parts@.take(i as int));
            push_all(&mut bytes, slice_subrange(part, 0, n));
            proof {
                assert(parts@.take(i + 1).drop_last() =~= parts@.take(i as int));
                assert(gathered(parts@.take(i + 1)) == whole + part@);
                assert(part@.subrange(0, n as int) =~= part@.take(n as int));
                assert(bytes@ =~= (whole + part@).take(bytes@.len() as int));
                if bytes@.len() < size {
                    assert(part@.take(n as int) =~= part@);
                }
            }
            i = i + 1;
        }
        assert(parts@.take(i as int) =~= parts@);
        if bytes.len() < size {
            return Err(ShortRead);
        }
        Ok(bytes)
    }
}

/// Appends bytes.
pub fn push_all(bytes: &mut Vec<u8>, more: &[u8])
    ensures
        final(bytes)@ == old(bytes)@ + more@,
{
    let mut i: usize = 0;
    assert(more@.take(0) =~= Seq::empty());
    assert(bytes@ =~= old(bytes)@ + more@.take(0));
    while i < more.len()
        invariant
            i <= more.len(),
            bytes@ == old(bytes)@ + more@.take(i as int),
        decreases more.len() - i,
    {
        bytes.push(more[i]);
        i = i + 1;
        assert(bytes@ =~= old(bytes)@ + more@.take(i as int));
    }
    assert(more@.take(i as int) =~= more@);
}

/// Whether two rows of bytes are the same.
pub fn same_bytes(a: &[u8], b: &[u8]) -> (r: bool)
    ensures
        r == (a@ == b@),
{
    if a.len() != b.len() {
        return false;
    }
    let mut i: usize = 0;
    while i < a.len()
        invariant
            i <= a.len(),
            a.len() == b.len(),
            forall|j: int| 0 <= j < i ==> a@[j] == b@[j],
        decreases a.len() - i,
    {
        if a[i] != b[i] {
            return false;
        }
        i = i + 1;
    }
    assert(a@ =~= b@);
    true
}

/// One part is gathered as it is, and parts that follow others come behind what
/// those give.
pub proof fn law_parts_are_gathered_in_order(first: Seq<&[u8]>, part: &[u8], rest: Seq<&[u8]>)
    ensures
        gathered(Seq::empty()).len() == 0,
        gathered(seq![part]) == part@,
        gathered(first + rest) == gathered(first) + gathered(rest),
    decreases rest.len(),
{
    let one: Seq<&[u8]> = seq![part];
    assert(one.drop_last() =~= Seq::empty());
    assert(one.last() == part);
    assert(gathered(one.drop_last()) =~= Seq::empty());
    assert(gathered(one) =~= part@);
    if rest.len() == 0 {
        assert(first + rest =~= first);
        assert(gathered(first) + gathered(rest) =~= gathered(first));
    } else {
        assert((first + rest).drop_last() =~= first + rest.drop_last());
        law_parts_are_gathered_in_order(first, part, rest.drop_last());
        assert(gathered(first + rest) =~= gathered(first) + gathered(rest));
    }
}

/// Whether what `==` means on a type is said.
pub open spec fn has_equality<T: vstd::std_specs::cmp::PartialEqSpec>() -> bool {
    T::obeys_eq_spec()
}

} // verus!
