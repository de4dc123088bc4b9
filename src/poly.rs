//! Secret polynomials, their Feldman commitments and Lagrange coefficients.
use vstd::prelude::*;
use vstd::arithmetic::div_mod::lemma_add_mod_noop;
use crate::group::{
    base_mul, base_mul_of, group_order, inverse, point_add, point_add_of, point_mul, point_mul_of,
    scalar_add, scalar_from_u16, scalar_invert, scalar_mul, scalar_sub, sub_mod, Point, Scalar,
    POINT_LEN,
};

verus! {

/// `c0 + x * (c1 + x * (c2 + ...))` modulo the group order.
pub open spec fn poly_eval(cs: Seq<Scalar>, x: nat) -> nat
    decreases cs.len(),
{
    if cs.len() == 0 {
        0
    } else {
        (cs[0].value() + x * poly_eval(cs.drop_first(), x)) % group_order()
    }
}

/// Every coefficient is a canonical scalar.
pub open spec fn all_wf(cs: Seq<Scalar>) -> bool {
    forall|i: int| 0 <= i < cs.len() ==> #[trigger] cs[i].wf()
}

/// The byte encodings of a list of points.
pub open spec fn point_views(ps: Seq<Point>) -> Seq<Seq<u8>> {
    ps.map_values(|p: Point| p.bytes@)
}

/// Every point decodes.
pub open spec fn all_decode(ps: Seq<Point>) -> bool {
    forall|i: int| 0 <= i < ps.len() ==> #[trigger] ps[i].decodes()
}

/// The commitment evaluated in the exponent at `x`:
/// `C0 + x * (C1 + x * (C2 + ...))`, the last coefficient standing alone.
pub open spec fn feldman_eval(cms: Seq<Seq<u8>>, x: nat) -> Seq<u8>
    decreases cms.len(),
{
    if cms.len() <= 1 {
        if cms.len() == 1 { cms[0] } else { base_mul_of(0) }
    } else {
        point_add_of(cms[0], point_mul_of(feldman_eval(cms.drop_first(), x), x))
    }
}

/// Participant indices as integers.
pub open spec fn nat_indices(s: Seq<u16>) -> Seq<nat> {
    s.map_values(|j: u16| j as nat)
}

/// The Lagrange coefficient at zero of `i` over the signer set `s`:
/// the product of `j / (j - i)` over the members `j != i`.
pub open spec fn lagrange_spec(i: nat, s: Seq<nat>) -> nat
    decreases s.len(),
{
    if s.len() == 0 {
        1
    } else {
        let j = s.last();
        let rest = lagrange_spec(i, s.drop_last());
        if j == i {
            rest
        } else {
            (rest * ((j * inverse(sub_mod(j, i))) % group_order())) % group_order()
        }
    }
}

/// Evaluates the polynomial at `x` by Horner's rule.
pub fn evaluate(cs: &Vec<Scalar>, x: &Scalar) -> (r: Scalar)
    requires
        all_wf(cs@),
        x.wf(),
    ensures
        r.value() == poly_eval(cs@, x.value()),
        r.wf(),
{
    let mut acc = scalar_from_u16(0);
    let mut i: usize = cs.len();
    assert(cs@.subrange(i as int, cs@.len() as int) =~= Seq::<Scalar>::empty());
    while i > 0
        invariant
            i <= cs@.len(),
            all_wf(cs@),
            x.wf(),
            acc.value() == poly_eval(cs@.subrange(i as int, cs@.len() as int), x.value()),
            acc.wf(),
        decreases i,
    {
        let ghost tail = cs@.subrange(i as int, cs@.len() as int);
        let m = scalar_mul(x, &acc);
        acc = scalar_add(&cs[i - 1], &m);
        i = i - 1;
        proof {
            let s = cs@.subrange(i as int, cs@.len() as int);
            assert(s.drop_first() =~= tail);
            lemma_add_mod_noop(
                cs@[i as int].value() as int,
                (x.value() * poly_eval(tail, x.value())) as int,
                group_order() as int,
            );
            assert(cs@[i as int].wf());
            lemma_small_mod(cs@[i as int].value());
        }
    }
    assert(cs@.subrange(0, cs@.len() as int) =~= cs@);
    acc
}

proof fn lemma_small_mod(a: nat)
    requires
        a < group_order(),
    ensures
        a % group_order() == a,
{
    vstd::arithmetic::div_mod::lemma_small_mod(a, group_order());
}

/// The commitment to each coefficient: `c_i * G`.
pub fn commit_coefficients(cs: &Vec<Scalar>) -> (r: Vec<Point>)
    requires
        all_wf(cs@),
    ensures
        r@.len() == cs@.len(),
        forall|i: int| 0 <= i < cs@.len() ==> (#[trigger] r@[i]).bytes@ == base_mul_of(cs@[i].value()),
        all_decode(r@),
        forall|i: int| 0 <= i < cs@.len() && cs@[i].value() != 0 ==> (#[trigger] r@[i]).valid(),
{
    let mut r: Vec<Point> = Vec::new();
    let mut i: usize = 0;
    while i < cs.len()
        invariant
            i <= cs@.len(),
            all_wf(cs@),
            r@.len() == i,
            forall|k: int| 0 <= k < i ==> (#[trigger] r@[k]).bytes@ == base_mul_of(cs@[k].value()),
            all_decode(r@),
            forall|k: int| 0 <= k < i && cs@[k].value() != 0 ==> (#[trigger] r@[k]).valid(),
        decreases cs@.len() - i,
    {
        let p = base_mul(&cs[i]);
        r.push(p);
        i = i + 1;
    }
    r
}

/// Evaluates a non-empty commitment in the exponent at `x`.
pub fn feldman_evaluate(cms: &Vec<Point>, x: &Scalar) -> (r: Point)
    requires
        cms@.len() >= 1,
        all_decode(cms@),
        x.wf(),
    ensures
        r.bytes@ == feldman_eval(point_views(cms@), x.value()),
        r.decodes(),
{
    let n = cms.len();
    let mut acc = cms[n - 1];
    let mut i: usize = n - 1;
    assert(point_views(cms@).subrange(i as int, n as int) =~= seq![cms@[i as int].bytes@]);
    while i > 0
        invariant
            i < n,
            n == cms@.len(),
            all_decode(cms@),
            x.wf(),
            acc.decodes(),
            acc.bytes@ == feldman_eval(point_views(cms@).subrange(i as int, n as int), x.value()),
        decreases i,
    {
        let ghost tail = point_views(cms@).subrange(i as int, n as int);
        let m = point_mul(&acc, x);
        acc = point_add(&cms[i - 1], &m);
        i = i - 1;
        proof {
            let s = point_views(cms@).subrange(i as int, n as int);
            assert(s.drop_first() =~= tail);
            assert(s[0] == cms@[i as int].bytes@);
        }
    }
    assert(point_views(cms@).subrange(0, n as int) =~= point_views(cms@));
    acc
}

/// Byte-wise equality of two encoded points.
pub fn point_eq(a: &Point, b: &Point) -> (r: bool)
    ensures
        r == (a.bytes@ == b.bytes@),
{
    let mut i: usize = 0;
    while i < POINT_LEN
        invariant
            i <= POINT_LEN,
            forall|k: int| 0 <= k < i ==> a.bytes@[k] == b.bytes@[k],
        decreases POINT_LEN - i,
    {
        if a.bytes[i] != b.bytes[i] {
            return false;
        }
        i = i + 1;
    }
    assert(a.bytes@ =~= b.bytes@);
    true
}

/// The Lagrange coefficient at zero of participant `i` over the signer set `s`.
pub fn lagrange_coefficient(i: u16, s: &Vec<u16>) -> (r: Scalar)
    ensures
        r.value() == lagrange_spec(i as nat, nat_indices(s@)),
        r.wf(),
{
    let ghost sv = nat_indices(s@);
    let mut acc = scalar_from_u16(1);
    let xi = scalar_from_u16(i);
    let mut k: usize = 0;
    assert(sv.subrange(0, 0) =~= Seq::<nat>::empty());
    while k < s.len()
        invariant
            k <= s@.len(),
            sv == nat_indices(s@),
            xi.value() == i as nat,
            acc.wf(),
            acc.value() == lagrange_spec(i as nat, sv.subrange(0, k as int)),
        decreases s@.len() - k,
    {
        let j = s[k];
        let ghost prev = sv.subrange(0, k as int);
        if j != i {
            let xj = scalar_from_u16(j);
            let d = scalar_sub(&xj, &xi);
            proof {
                lemma_sub_mod_nonzero(j as nat, i as nat);
            }
            let dinv = scalar_invert(&d);
            let f = scalar_mul(&xj, &dinv);
            acc = scalar_mul(&acc, &f);
        }
        k = k + 1;
        proof {
            let cur = sv.subrange(0, k as int);
            assert(cur.drop_last() =~= prev);
            assert(cur.last() == j as nat);
        }
    }
    assert(sv.subrange(0, s@.len() as int) =~= sv);
    acc
}

proof fn lemma_sub_mod_nonzero(j: nat, i: nat)
    requires
        j < 65536,
        i < 65536,
        j != i,
    ensures
        sub_mod(j, i) != 0,
{
    let n = group_order() as int;
    let d = j as int - i as int;
    if d > 0 {
        vstd::arithmetic::div_mod::lemma_small_mod(d as nat, n as nat);
    } else {
        vstd::arithmetic::div_mod::lemma_mod_add_multiples_vanish(d, n);
        vstd::arithmetic::div_mod::lemma_small_mod((d + n) as nat, n as nat);
    }
}

} // verus!
