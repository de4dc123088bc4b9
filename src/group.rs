//! Scalars modulo the secp256k1 group order and curve points in compressed
//! SEC1 form. The curve arithmetic is done by the `k256` crate and hashing by
//! `sha2`; the integer model of scalars and the tagged hash are stated here.
use vstd::prelude::*;
use vstd::arithmetic::power::pow;
use k256::elliptic_curve::group::GroupEncoding;
use k256::elliptic_curve::ops::Reduce;
use k256::elliptic_curve::{Field, PrimeField};
use sha2::Digest;

verus! {

/// Width of an encoded scalar.
pub const SCALAR_LEN: usize = 32;

/// Width of an encoded point (compressed SEC1; the identity is all zeros).
pub const POINT_LEN: usize = 33;

/// The order of the secp256k1 group.
pub open spec fn group_order() -> nat {
    115792089237316195423570985008687907852837564279074904382605163141518161494337nat
}

/// The big-endian integer value of a byte string.
pub open spec fn be_nat(s: Seq<u8>) -> nat
    decreases s.len(),
{
    if s.len() == 0 {
        0
    } else {
        be_nat(s.drop_last()) * 256 + s.last() as nat
    }
}

/// The multiplicative inverse modulo the (prime) group order, by Fermat.
pub open spec fn inverse(a: nat) -> nat {
    (pow(a as int, (group_order() - 2) as nat) % (group_order() as int)) as nat
}

/// `a - b` modulo the group order.
pub open spec fn sub_mod(a: nat, b: nat) -> nat {
    ((a as int - b as int) % (group_order() as int)) as nat
}

/// An integer modulo the group order, held as 32 big-endian bytes.
#[derive(Clone, Copy, Debug, PartialEq, Eq)]
pub struct Scalar {
    pub bytes: [u8; 32],
}

impl Scalar {
    pub open spec fn value(&self) -> nat {
        be_nat(self.bytes@)
    }

    /// The encoding is canonical: the value is reduced modulo the order.
    pub open spec fn wf(&self) -> bool {
        self.value() < group_order()
    }
}

/// A curve point as its 33-byte compressed encoding.
#[derive(Clone, Copy, Debug, PartialEq, Eq)]
pub struct Point {
    pub bytes: [u8; 33],
}

impl Point {
    pub open spec fn view(&self) -> Seq<u8> {
        self.bytes@
    }

    /// The bytes encode a point of the group (possibly the identity).
    pub open spec fn decodes(&self) -> bool {
        point_decodes(self.bytes@)
    }

    /// A point usable as a key or commitment: on the curve, not the identity,
    /// and in the canonical compressed form (tag 2 or 3).
    pub open spec fn valid(&self) -> bool {
        point_decodes(self.bytes@) && (self.bytes@[0] == 2 || self.bytes@[0] == 3)
    }
}

/// Whether `k256::ProjectivePoint::from_bytes` accepts the 33 bytes.
pub uninterp spec fn point_decodes(b: Seq<u8>) -> bool;

/// The encoding of `k * G`, `G` the secp256k1 generator.
pub uninterp spec fn base_mul_of(k: nat) -> Seq<u8>;

/// The encoding of the sum of the points encoded by `a` and `b`.
pub uninterp spec fn point_add_of(a: Seq<u8>, b: Seq<u8>) -> Seq<u8>;

/// The encoding of `k * P`, `P` the point encoded by `p`.
pub uninterp spec fn point_mul_of(p: Seq<u8>, k: nat) -> Seq<u8>;

/// The SHA-256 digest of a byte string.
pub uninterp spec fn sha256_of(m: Seq<u8>) -> Seq<u8>;

/// Relies on `k256::Scalar` addition (`add_mod` by the order), after
/// `Reduce::reduce_bytes`, which leaves a canonical value unchanged.
#[verifier::external_body]
pub(crate) fn scalar_add(a: &Scalar, b: &Scalar) -> (r: Scalar)
    ensures
        r.value() == (a.value() + b.value()) % group_order(),
{
    let x = <k256::Scalar as Reduce<k256::U256>>::reduce_bytes(&a.bytes.into());
    let y = <k256::Scalar as Reduce<k256::U256>>::reduce_bytes(&b.bytes.into());
    Scalar { bytes: (x + y).to_bytes().into() }
}

/// Relies on `k256::Scalar` subtraction (`sub_mod` by the order).
#[verifier::external_body]
pub(crate) fn scalar_sub(a: &Scalar, b: &Scalar) -> (r: Scalar)
    requires
        a.wf(),
        b.wf(),
    ensures
        r.value() == sub_mod(a.value(), b.value()),
{
    let x = <k256::Scalar as Reduce<k256::U256>>::reduce_bytes(&a.bytes.into());
    let y = <k256::Scalar as Reduce<k256::U256>>::reduce_bytes(&b.bytes.into());
    Scalar { bytes: (x - y).to_bytes().into() }
}

/// Relies on `k256::Scalar` multiplication (a wide product reduced by the order).
#[verifier::external_body]
pub(crate) fn scalar_mul(a: &Scalar, b: &Scalar) -> (r: Scalar)
    requires
        a.wf(),
        b.wf(),
    ensures
        r.value() == (a.value() * b.value()) % group_order(),
{
    let x = <k256::Scalar as Reduce<k256::U256>>::reduce_bytes(&a.bytes.into());
    let y = <k256::Scalar as Reduce<k256::U256>>::reduce_bytes(&b.bytes.into());
    Scalar { bytes: (x * y).to_bytes().into() }
}

/// Relies on `k256::Scalar::invert`, which raises a non-zero scalar to the
/// power `order - 2` and is `None` only for zero.
#[verifier::external_body]
pub(crate) fn scalar_invert(a: &Scalar) -> (r: Scalar)
    requires
        a.wf(),
        a.value() != 0,
    ensures
        r.value() == inverse(a.value()),
{
    let x = <k256::Scalar as Reduce<k256::U256>>::reduce_bytes(&a.bytes.into());
    Scalar { bytes: x.invert().unwrap().to_bytes().into() }
}

/// Relies on `Reduce::<U256>::reduce_bytes` for `k256::Scalar`: the
/// big-endian integer modulo the order.
#[verifier::external_body]
pub(crate) fn scalar_reduce(b: &[u8; 32]) -> (r: Scalar)
    ensures
        r.value() == be_nat(b@) % group_order(),
{
    let x = <k256::Scalar as Reduce<k256::U256>>::reduce_bytes(&(*b).into());
    Scalar { bytes: x.to_bytes().into() }
}

proof fn lemma_be_nat_zero(s: Seq<u8>)
    ensures
        (be_nat(s) == 0) <==> (forall|i: int| 0 <= i < s.len() ==> s[i] == 0),
    decreases s.len(),
{
    if s.len() > 0 {
        lemma_be_nat_zero(s.drop_last());
        if be_nat(s) == 0 {
            assert forall|i: int| 0 <= i < s.len() implies s[i] == 0 by {
                if i < s.len() - 1 {
                    assert(s.drop_last()[i] == s[i]);
                }
            }
        } else {
            if forall|i: int| 0 <= i < s.len() ==> s[i] == 0 {
                assert forall|i: int| 0 <= i < s.drop_last().len() implies s.drop_last()[i] == 0 by {
                    assert(s.drop_last()[i] == s[i]);
                }
            }
        }
    }
}

/// The scalar of a small integer.
pub fn scalar_from_u16(x: u16) -> (r: Scalar)
    ensures
        r.value() == x as nat,
        r.wf(),
{
    let mut bytes = [0u8; 32];
    bytes[30] = (x / 256) as u8;
    bytes[31] = (x % 256) as u8;
    proof {
        let s = bytes@;
        let head = s.drop_last().drop_last();
        assert forall|i: int| 0 <= i < head.len() implies head[i] == 0 by {
            assert(head[i] == s[i]);
        }
        lemma_be_nat_zero(head);
        assert(s.drop_last().last() == s[30]);
        assert(be_nat(s.drop_last()) == be_nat(head) * 256 + s[30] as nat);
        assert(be_nat(s) == be_nat(s.drop_last()) * 256 + s[31] as nat);
    }
    Scalar { bytes }
}

/// Whether the scalar is zero.
pub fn is_zero(s: &Scalar) -> (r: bool)
    ensures
        r == (s.value() == 0),
{
    proof {
        lemma_be_nat_zero(s.bytes@);
    }
    let mut i: usize = 0;
    while i < SCALAR_LEN
        invariant
            i <= SCALAR_LEN,
            forall|j: int| 0 <= j < i ==> s.bytes@[j] == 0,
            (s.value() == 0) <==> (forall|j: int| 0 <= j < s.bytes@.len() ==> s.bytes@[j] == 0),
        decreases SCALAR_LEN - i,
    {
        if s.bytes[i] != 0 {
            assert(s.bytes@[i as int] != 0);
            return false;
        }
        i = i + 1;
    }
    true
}

/// A non-zero random scalar: a zero draw, which would commit to the identity,
/// is drawn again, a bounded number of times.
pub fn random_nonzero() -> (r: Option<Scalar>)
    ensures
        r matches Some(s) ==> s.wf() && s.value() != 0,
{
    let mut tries: u8 = 0;
    while tries < 8
        decreases 8 - tries,
    {
        let s = scalar_random();
        if !is_zero(&s) {
            return Some(s);
        }
        tries = tries + 1;
    }
    None
}

/// Relies on `k256::Scalar::from_repr`: accepts exactly the big-endian
/// encodings of integers below the order.
#[verifier::external_body]
pub(crate) fn scalar_from_slice(b: &[u8]) -> (r: Option<Scalar>)
    ensures
        r.is_some() <==> (b@.len() == SCALAR_LEN && be_nat(b@) < group_order()),
        r.is_some() ==> r.unwrap().bytes@ == b@,
{
    let arr: [u8; 32] = b.try_into().ok()?;
    let s: Option<k256::Scalar> = k256::Scalar::from_repr(arr.into()).into();
    s.map(|x| Scalar { bytes: x.to_bytes().into() })
}

/// Relies on `k256::Scalar::random` (rejection sampling) with the operating
/// system's generator: a uniformly drawn canonical scalar. `OsRng` panics only
/// if the operating system cannot supply randomness.
#[verifier::external_body]
pub(crate) fn scalar_random() -> (r: Scalar)
    ensures
        r.wf(),
{
    Scalar { bytes: k256::Scalar::random(&mut rand_core::OsRng).to_bytes().into() }
}

/// Relies on `GroupEncoding::from_bytes` for `k256::ProjectivePoint`.
#[verifier::external_body]
pub(crate) fn point_from_slice(b: &[u8]) -> (r: Option<Point>)
    ensures
        r.is_some() <==> (b@.len() == POINT_LEN && point_decodes(b@)),
        r.is_some() ==> r.unwrap().bytes@ == b@,
{
    let arr: [u8; 33] = b.try_into().ok()?;
    let p: Option<k256::ProjectivePoint> = k256::ProjectivePoint::from_bytes(&arr.into()).into();
    p.map(|_| Point { bytes: arr })
}

/// Relies on `k256::ProjectivePoint::GENERATOR` times a scalar, encoded by
/// `GroupEncoding::to_bytes`, whose output `from_bytes` accepts. The generator
/// has the group's order, so a non-zero scalar below it gives a point other
/// than the identity, which `to_bytes` writes with tag 2 or 3.
#[verifier::external_body]
pub(crate) fn base_mul(k: &Scalar) -> (r: Point)
    requires
        k.wf(),
    ensures
        r.bytes@ == base_mul_of(k.value()),
        r.decodes(),
        k.value() != 0 ==> r.valid(),
{
    let x = <k256::Scalar as Reduce<k256::U256>>::reduce_bytes(&k.bytes.into());
    Point { bytes: (k256::ProjectivePoint::GENERATOR * x).to_bytes().into() }
}

/// Relies on `k256::ProjectivePoint` addition of two decoded points.
#[verifier::external_body]
pub(crate) fn point_add(a: &Point, b: &Point) -> (r: Point)
    requires
        a.decodes(),
        b.decodes(),
    ensures
        r.bytes@ == point_add_of(a.bytes@, b.bytes@),
        r.decodes(),
{
    let x = k256::ProjectivePoint::from_bytes(&a.bytes.into()).unwrap();
    let y = k256::ProjectivePoint::from_bytes(&b.bytes.into()).unwrap();
    Point { bytes: (x + y).to_bytes().into() }
}

/// Relies on `k256::ProjectivePoint` multiplication by a scalar.
#[verifier::external_body]
pub(crate) fn point_mul(p: &Point, k: &Scalar) -> (r: Point)
    requires
        p.decodes(),
        k.wf(),
    ensures
        r.bytes@ == point_mul_of(p.bytes@, k.value()),
        r.decodes(),
{
    let x = k256::ProjectivePoint::from_bytes(&p.bytes.into()).unwrap();
    let y = <k256::Scalar as Reduce<k256::U256>>::reduce_bytes(&k.bytes.into());
    Point { bytes: (x * y).to_bytes().into() }
}

/// Relies on `sha2::Sha256::digest`.
#[verifier::external_body]
pub(crate) fn sha256(m: &[u8]) -> (r: [u8; 32])
    ensures
        r@ == sha256_of(m@),
{
    sha2::Sha256::digest(m).into()
}

/// The x coordinate of a compressed point.
pub open spec fn x_only(p: Seq<u8>) -> Seq<u8> {
    p.subrange(1, 33)
}

/// The compressed encoding of the point with x coordinate `x` and even y.
pub open spec fn lift_even(x: Seq<u8>) -> Seq<u8> {
    seq![2u8] + x
}

/// The x coordinate of a point, as bytes.
pub fn x_only_vec(p: &Point) -> (r: Vec<u8>)
    ensures
        r@ == x_only(p.bytes@),
{
    let mut v: Vec<u8> = Vec::new();
    v.extend_from_slice(vstd::slice::slice_subrange(p.bytes.as_slice(), 1, 33));
    assert(v@ =~= x_only(p.bytes@));
    v
}

/// The BIP-340 style tagged hash: `SHA256(SHA256(tag) || SHA256(tag) || m)`.
pub open spec fn tagged_hash_spec(tag: Seq<u8>, m: Seq<u8>) -> Seq<u8> {
    let t = sha256_of(tag);
    sha256_of(t + t + m)
}

/// A hash reduced to a scalar: the tagged hash read big-endian, modulo the order.
pub open spec fn hash_to_scalar_spec(tag: Seq<u8>, m: Seq<u8>) -> nat {
    be_nat(tagged_hash_spec(tag, m)) % group_order()
}

pub fn tagged_hash(tag: &[u8], m: &[u8]) -> (r: [u8; 32])
    ensures
        r@ == tagged_hash_spec(tag@, m@),
{
    let t = sha256(tag);
    let mut buf: Vec<u8> = Vec::new();
    buf.extend_from_slice(t.as_slice());
    buf.extend_from_slice(t.as_slice());
    buf.extend_from_slice(m);
    assert(buf@ =~= t@ + t@ + m@);
    sha256(buf.as_slice())
}

pub fn hash_to_scalar(tag: &[u8], m: &[u8]) -> (r: Scalar)
    ensures
        r.value() == hash_to_scalar_spec(tag@, m@),
        r.wf(),
{
    let h = tagged_hash(tag, m);
    scalar_reduce(&h)
}

/// Whether the encoding carries a compressed-point tag; the identity (all
/// zeros) and other SEC1 forms do not.
pub fn has_compressed_tag(p: &Point) -> (r: bool)
    ensures
        r == (p.bytes@[0] == 2 || p.bytes@[0] == 3),
{
    p.bytes[0] == 2 || p.bytes[0] == 3
}

} // verus!
