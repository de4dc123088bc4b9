//! Fixed-width big-endian encodings.
use vstd::prelude::*;
use crate::group::{Point, Scalar};

verus! {

/// The two big-endian bytes of a participant index.
pub open spec fn be16(x: u16) -> Seq<u8> {
    seq![(x / 256) as u8, (x % 256) as u8]
}

/// The `i`-th piece of width `w` of a byte string.
pub open spec fn piece(b: Seq<u8>, i: int, w: int) -> Seq<u8> {
    b.subrange(i * w, i * w + w)
}

pub fn push_u16(v: &mut Vec<u8>, x: u16)
    ensures
        final(v)@ == old(v)@ + be16(x),
{
    v.push((x / 256) as u8);
    v.push((x % 256) as u8);
    assert(final(v)@ =~= old(v)@ + be16(x));
}

pub fn push_point(v: &mut Vec<u8>, p: &Point)
    ensures
        final(v)@ == old(v)@ + p.bytes@,
{
    v.extend_from_slice(p.bytes.as_slice());
}

pub fn push_scalar(v: &mut Vec<u8>, s: &Scalar)
    ensures
        final(v)@ == old(v)@ + s.bytes@,
{
    v.extend_from_slice(s.bytes.as_slice());
}

/// Byte-wise equality.
pub fn bytes_eq(a: &[u8], b: &[u8]) -> (r: bool)
    ensures
        r == (a@ == b@),
{
    if a.len() != b.len() {
        return false;
    }
    let mut i: usize = 0;
    while i < a.len()
        invariant
            a@.len() == b@.len(),
            i <= a@.len(),
            forall|j: int| 0 <= j < i ==> a@[j] == b@[j],
        decreases a@.len() - i,
    {
        if a[i] != b[i] {
            return false;
        }
        i = i + 1;
    }
    assert(a@ =~= b@);
    true
}

/// Reads a big-endian index from two bytes.
pub fn read_u16(b: &[u8], at: usize) -> (r: u16)
    requires
        at + 2 <= b@.len(),
    ensures
        be16(r) == b@.subrange(at as int, at + 2),
        r == b@[at as int] as int * 256 + b@[at + 1] as int,
{
    let r = (b[at] as u16) * 256 + (b[at + 1] as u16);
    assert(be16(r) =~= b@.subrange(at as int, at + 2));
    r
}

} // verus!
