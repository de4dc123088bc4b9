//! Distributed key generation: three rounds per participant, each consuming
//! the session and handing it back advanced by one round.
use vstd::prelude::*;
use vstd::slice::slice_subrange;
use vstd::string::StringSliceAdditionalSpecFns;
use crate::codec::{be16, piece, push_point, push_scalar, push_u16};
use crate::collect::Contributions;
use crate::error::FrostError;
use crate::group::{
    base_mul, base_mul_of, be_nat, group_order, hash_to_scalar, hash_to_scalar_spec, has_compressed_tag,
    point_add, point_add_of, point_decodes, point_from_slice, point_mul, point_mul_of,
    random_nonzero, scalar_add, scalar_from_slice, scalar_from_u16, scalar_mul, Point, Scalar,
};
use crate::poly::{all_decode, point_eq, point_views};

verus! {

/// Domain tag of the proof of knowledge in a key-generation commitment.
pub open spec fn pok_tag() -> Seq<u8> {
    "frostdao/keygen/pok".spec_bytes()
}

fn pok_tag_bytes() -> (r: &'static [u8])
    ensures
        r@ == pok_tag(),
{
    "frostdao/keygen/pok".as_bytes()
}

/// Length of a broadcast commitment: `t` points, then the proof's nonce
/// point and response scalar.
pub open spec fn commitment_len(t: nat) -> nat {
    33 * t + 65
}

pub open spec fn commitment_points(b: Seq<u8>, t: nat) -> Seq<Seq<u8>> {
    Seq::new(t, |i: int| piece(b, i, 33))
}

pub open spec fn pok_nonce_bytes(b: Seq<u8>, t: nat) -> Seq<u8> {
    piece(b, t as int, 33)
}

pub open spec fn pok_response_bytes(b: Seq<u8>, t: nat) -> Seq<u8> {
    b.subrange(33 * t as int + 33, 33 * t as int + 65)
}

/// The bytes encode a point of the group other than the identity, in the
/// canonical compressed form.
pub open spec fn valid_point_bytes(p: Seq<u8>) -> bool {
    point_decodes(p) && (p[0] == 2 || p[0] == 3)
}

/// The challenge of the proof of knowledge of participant `user`'s secret.
pub open spec fn pok_challenge(ctx: Seq<u8>, user: u16, c0: Seq<u8>, r: Seq<u8>) -> nat {
    hash_to_scalar_spec(pok_tag(), ctx + be16(user) + c0 + r)
}

/// Schnorr verification of the proof: `s * G == R + c * C0`.
pub open spec fn pok_holds(ctx: Seq<u8>, user: u16, c0: Seq<u8>, r: Seq<u8>, s: nat) -> bool {
    base_mul_of(s) == point_add_of(r, point_mul_of(c0, pok_challenge(ctx, user, c0, r)))
}

/// A commitment is well formed: its length, points and response scalar.
pub open spec fn commitment_well_formed(b: Seq<u8>, t: nat) -> bool {
    &&& b.len() == commitment_len(t)
    &&& forall|i: int| 0 <= i < t ==> valid_point_bytes(#[trigger] commitment_points(b, t)[i])
    &&& valid_point_bytes(pok_nonce_bytes(b, t))
    &&& be_nat(pok_response_bytes(b, t)) < group_order()
}

/// A commitment from `user` is well formed and its proof verifies.
pub open spec fn commitment_accepted(b: Seq<u8>, t: nat, user: u16, ctx: Seq<u8>) -> bool {
    &&& commitment_well_formed(b, t)
    &&& pok_holds(
        ctx,
        user,
        commitment_points(b, t)[0],
        pok_nonce_bytes(b, t),
        be_nat(pok_response_bytes(b, t)),
    )
}

/// Reads a point of the group other than the identity.
pub(crate) fn read_valid_point(b: &[u8], at: usize) -> (r: Result<Point, FrostError>)
    requires
        at + 33 <= b@.len(),
    ensures
        r.is_ok() <==> valid_point_bytes(b@.subrange(at as int, at + 33)),
        r.is_ok() ==> r.unwrap().bytes@ == b@.subrange(at as int, at + 33) && r.unwrap().decodes(),
        r.is_err() ==> r == Err::<Point, FrostError>(FrostError::InvalidPoint),
{
    let len = b.len();
    let sl = slice_subrange(b, at, at + 33);
    match point_from_slice(sl) {
        None => Err(FrostError::InvalidPoint),
        Some(p) => {
            if !has_compressed_tag(&p) {
                Err(FrostError::InvalidPoint)
            } else {
                Ok(p)
            }
        },
    }
}

/// The challenge of a proof of knowledge, computed.
fn pok_challenge_exec(ctx: &[u8], user: u16, c0: &Point, r: &Point) -> (c: Scalar)
    ensures
        c.value() == pok_challenge(ctx@, user, c0.bytes@, r.bytes@),
        c.wf(),
{
    let mut buf: Vec<u8> = Vec::new();
    buf.extend_from_slice(ctx);
    assert(buf@ =~= ctx@);
    push_u16(&mut buf, user);
    push_point(&mut buf, c0);
    push_point(&mut buf, r);
    hash_to_scalar(pok_tag_bytes(), buf.as_slice())
}

/// Reads a broadcast commitment of threshold `t`: its points, the proof's
/// nonce point and its response, each checked for form only.
pub fn read_commitment(b: &[u8], t: u16) -> (r: Result<(Vec<Point>, Point, Scalar), FrostError>)
    ensures
        r.is_ok() <==> commitment_well_formed(b@, t as nat),
        r.is_ok() ==> {
            let (ps, rp, s) = r.unwrap();
            &&& point_views(ps@) == commitment_points(b@, t as nat)
            &&& all_decode(ps@)
            &&& ps@.len() == t
            &&& rp.bytes@ == pok_nonce_bytes(b@, t as nat)
            &&& rp.decodes()
            &&& s.bytes@ == pok_response_bytes(b@, t as nat)
            &&& s.wf()
        },
        r matches Err(e) ==> e == FrostError::InvalidLength || e == FrostError::InvalidPoint
            || e == FrostError::NonCanonicalScalar,
        r == Err::<(Vec<Point>, Point, Scalar), FrostError>(FrostError::InvalidLength) <==> b@.len() != commitment_len(t as nat),
{
    let tt = t as usize;
    if b.len() != 33 * tt + 65 {
        return Err(FrostError::InvalidLength);
    }
    let ghost cps = commitment_points(b@, t as nat);
    let mut ps: Vec<Point> = Vec::new();
    let mut i: usize = 0;
    while i < tt
        invariant
            i <= tt,
            tt == t as usize,
            b@.len() == 33 * tt + 65,
            cps == commitment_points(b@, t as nat),
            ps@.len() == i,
            forall|k: int| 0 <= k < i ==> (#[trigger] ps@[k]).bytes@ == cps[k],
            forall|k: int| 0 <= k < i ==> valid_point_bytes(#[trigger] cps[k]),
            all_decode(ps@),
        decreases tt - i,
    {
        let p = read_valid_point(b, 33 * i);
        match p {
            Err(e) => {
                assert(!valid_point_bytes(cps[i as int]));
                return Err(e);
            },
            Ok(p) => {
                ps.push(p);
            },
        }
        i = i + 1;
    }
    assert(point_views(ps@) =~= cps);
    let r = read_valid_point(b, 33 * tt);
    let rp = match r {
        Err(e) => {
            return Err(e);
        },
        Ok(rp) => rp,
    };
    let ssl = slice_subrange(b, 33 * tt + 33, 33 * tt + 65);
    let s = match scalar_from_slice(ssl) {
        None => {
            return Err(FrostError::NonCanonicalScalar);
        },
        Some(s) => s,
    };
    Ok((ps, rp, s))
}

/// Parses a broadcast commitment of threshold `t` from `user` and verifies its
/// proof of knowledge; returns the committed points.
pub fn parse_commitment(b: &[u8], t: u16, user: u16, ctx: &[u8]) -> (r: Result<Vec<Point>, FrostError>)
    requires
        t >= 1,
    ensures
        r.is_ok() <==> commitment_accepted(b@, t as nat, user, ctx@),
        r.is_ok() ==> point_views(r.unwrap()@) == commitment_points(b@, t as nat),
        r.is_ok() ==> all_decode(r.unwrap()@) && r.unwrap()@.len() == t,
        r matches Err(e) ==> e == FrostError::InvalidLength || e == FrostError::InvalidPoint
            || e == FrostError::NonCanonicalScalar || e == (FrostError::InvalidProof { user }),
        r == Err::<Vec<Point>, FrostError>(FrostError::InvalidLength) ==> b@.len() != commitment_len(t as nat),
        r == Err::<Vec<Point>, FrostError>(FrostError::InvalidProof { user }) ==> commitment_well_formed(b@, t as nat),
        commitment_well_formed(b@, t as nat) && !commitment_accepted(b@, t as nat, user, ctx@)
            ==> r == Err::<Vec<Point>, FrostError>(FrostError::InvalidProof { user }),
{
    let (ps, rp, s) = match read_commitment(b, t) {
        Err(e) => {
            return Err(e);
        },
        Ok(x) => x,
    };
    let c0 = ps[0];
    let c = pok_challenge_exec(ctx, user, &c0, &rp);
    let lhs = base_mul(&s);
    let cc = point_mul(&c0, &c);
    let rhs = point_add(&rp, &cc);
    if !point_eq(&lhs, &rhs) {
        return Err(FrostError::InvalidProof { user });
    }
    Ok(ps)
}

/// The byte encodings of the commitments `c_i * G` to a list of coefficients.
pub open spec fn commitment_of(cs: Seq<Scalar>) -> Seq<Seq<u8>> {
    cs.map_values(|c: Scalar| base_mul_of(c.value()))
}

/// The other participants of a group of `n`, in increasing order.
pub open spec fn others(n: u16, index: u16) -> Seq<u16> {
    Seq::new(
        (n - 1) as nat,
        |i: int| if i + 1 < index { (i + 1) as u16 } else { (i + 2) as u16 },
    )
}

/// The sum of a non-empty list of points, added left to right.
pub open spec fn point_sum(ps: Seq<Seq<u8>>) -> Seq<u8>
    decreases ps.len(),
{
    if ps.len() <= 1 {
        if ps.len() == 1 { ps[0] } else { base_mul_of(0) }
    } else {
        point_add_of(point_sum(ps.drop_last()), ps.last())
    }
}

/// The sum of scalar values modulo the group order.
pub open spec fn scalar_sum(vs: Seq<nat>) -> nat
    decreases vs.len(),
{
    if vs.len() == 0 {
        0
    } else {
        (scalar_sum(vs.drop_last()) + vs.last()) % group_order()
    }
}

/// Copies a list of points.
fn copy_points(v: &Vec<Point>) -> (r: Vec<Point>)
    ensures
        r@ == v@,
{
    let mut r: Vec<Point> = Vec::new();
    let mut i: usize = 0;
    while i < v.len()
        invariant
            i <= v@.len(),
            r@ == v@.subrange(0, i as int),
        decreases v@.len() - i,
    {
        r.push(v[i]);
        i = i + 1;
        assert(r@ =~= v@.subrange(0, i as int));
    }
    assert(v@.subrange(0, v@.len() as int) =~= v@);
    r
}

/// Commitments collected in the second round, from every other participant
/// of a group of `n` with threshold `threshold`, for participant `index`.
/// Each is checked for form when it arrives; its proof is checked in the round.
pub struct ParamsKeygen2 {
    pub threshold: u16,
    pub n: u16,
    pub index: u16,
    pub contributions: Contributions,
}

impl ParamsKeygen2 {
    /// Senders are other participants of the group, and each commitment is
    /// well formed.
    pub open spec fn wf(&self) -> bool {
        &&& self.contributions.wf()
        &&& self.contributions.senders_ok(self.n, self.index)
        &&& forall|i: int|
            0 <= i < self.contributions.users().len() ==> commitment_well_formed(
                #[trigger] self.contributions.data()[i],
                self.threshold as nat,
            )
    }

    pub fn new(threshold: u16, n: u16, index: u16) -> (r: Self)
        ensures
            r.wf(),
            r.threshold == threshold,
            r.n == n,
            r.index == index,
            r.contributions.users().len() == 0,
    {
        ParamsKeygen2 { threshold, n, index, contributions: Contributions::new() }
    }

    /// Records the broadcast commitment of `user`. A sender that is not another
    /// participant, a malformed commitment, and a second commitment from one
    /// index are refused and change nothing.
    pub fn add_commitment_from_user(&mut self, user: u16, commitment: &[u8]) -> (r: Result<(), FrostError>)
        requires
            old(self).wf(),
        ensures
            final(self).wf(),
            final(self).threshold == old(self).threshold,
            final(self).n == old(self).n,
            final(self).index == old(self).index,
            !sender_in_range(user, old(self).n, old(self).index)
                ==> r == Err::<(), FrostError>(FrostError::IndexOutOfRange { user }),
            sender_in_range(user, old(self).n, old(self).index) && commitment@.len() != commitment_len(old(self).threshold as nat)
                ==> r == Err::<(), FrostError>(FrostError::InvalidLength),
            sender_in_range(user, old(self).n, old(self).index) && !commitment_well_formed(commitment@, old(self).threshold as nat)
                ==> r.is_err() && crate::error::kind_of(r->Err_0) == crate::error::ErrorKind::InputValidation,
            sender_in_range(user, old(self).n, old(self).index) && commitment_well_formed(commitment@, old(self).threshold as nat)
                && old(self).contributions.has(user) ==> r == Err::<(), FrostError>(FrostError::DuplicateIndex { user }),
            sender_in_range(user, old(self).n, old(self).index) && commitment_well_formed(commitment@, old(self).threshold as nat)
                && !old(self).contributions.has(user) ==> r.is_ok(),
            r.is_err() ==> final(self).contributions.users() == old(self).contributions.users()
                && final(self).contributions.data() == old(self).contributions.data(),
            r.is_ok() ==> final(self).contributions.users() == old(self).contributions.users().push(user)
                && final(self).contributions.data() == old(self).contributions.data().push(commitment@)
                && final(self).contributions.has(user),
    {
        if user == 0 || user > self.n || user == self.index {
            return Err(FrostError::IndexOutOfRange { user });
        }
        match read_commitment(commitment, self.threshold) {
            Err(e) => {
                return Err(e);
            },
            Ok(_) => {},
        }
        let r = self.contributions.add(user, commitment);
        proof {
            old(self).contributions.lemma_lengths();
            self.contributions.lemma_lengths();
            if r.is_ok() {
                assert forall|i: int| 0 <= i < self.contributions.users().len() implies commitment_well_formed(
                    #[trigger] self.contributions.data()[i],
                    self.threshold as nat,
                ) by {
                    if i < old(self).contributions.users().len() {
                        assert(self.contributions.data()[i] == old(self).contributions.data()[i]);
                    }
                }
                assert forall|i: int| 0 <= i < self.contributions.users().len() implies 1 <= #[trigger] self.contributions.users()[i] <= self.n
                    && self.contributions.users()[i] != self.index by {
                    if i < old(self).contributions.users().len() {
                        assert(self.contributions.users()[i] == old(self).contributions.users()[i]);
                    }
                }
            }
        }
        r
    }
}

/// `user` is a participant of a group of `n` other than `own`.
pub open spec fn sender_in_range(user: u16, n: u16, own: u16) -> bool {
    1 <= user <= n && user != own
}

/// Shares collected in the third round, from every other participant of a
/// group of `n`, for participant `index`. Each is checked to be a canonical
/// scalar when it arrives; its Feldman check is made in the round.
pub struct ParamsKeygen3 {
    pub n: u16,
    pub index: u16,
    pub contributions: Contributions,
}

/// A share or partial signature: a canonical 32-byte scalar.
pub open spec fn canonical_scalar_bytes(b: Seq<u8>) -> bool {
    b.len() == 32 && be_nat(b) < group_order()
}

impl ParamsKeygen3 {
    /// Senders are other participants of the group, and each share is canonical.
    pub open spec fn wf(&self) -> bool {
        &&& self.contributions.wf()
        &&& self.contributions.senders_ok(self.n, self.index)
        &&& forall|i: int|
            0 <= i < self.contributions.users().len() ==> canonical_scalar_bytes(
                #[trigger] self.contributions.data()[i],
            )
    }

    pub fn new(n: u16, index: u16) -> (r: Self)
        ensures
            r.wf(),
            r.n == n,
            r.index == index,
            r.contributions.users().len() == 0,
    {
        ParamsKeygen3 { n, index, contributions: Contributions::new() }
    }

    /// Records the share that `user` sent to this participant. A sender that
    /// is not another participant, a share that is not a canonical 32-byte
    /// scalar, and a second share from one index are refused and change nothing.
    pub fn add_share_from_user(&mut self, user: u16, share: &[u8]) -> (r: Result<(), FrostError>)
        requires
            old(self).wf(),
        ensures
            final(self).wf(),
            final(self).n == old(self).n,
            final(self).index == old(self).index,
            !sender_in_range(user, old(self).n, old(self).index)
                ==> r == Err::<(), FrostError>(FrostError::IndexOutOfRange { user }),
            sender_in_range(user, old(self).n, old(self).index) && share@.len() != 32
                ==> r == Err::<(), FrostError>(FrostError::InvalidLength),
            sender_in_range(user, old(self).n, old(self).index) && share@.len() == 32 && be_nat(share@) >= group_order()
                ==> r == Err::<(), FrostError>(FrostError::NonCanonicalScalar),
            sender_in_range(user, old(self).n, old(self).index) && canonical_scalar_bytes(share@)
                && old(self).contributions.has(user) ==> r == Err::<(), FrostError>(FrostError::DuplicateIndex { user }),
            sender_in_range(user, old(self).n, old(self).index) && canonical_scalar_bytes(share@)
                && !old(self).contributions.has(user) ==> r.is_ok(),
            r.is_err() ==> final(self).contributions.users() == old(self).contributions.users()
                && final(self).contributions.data() == old(self).contributions.data(),
            r.is_ok() ==> final(self).contributions.users() == old(self).contributions.users().push(user)
                && final(self).contributions.data() == old(self).contributions.data().push(share@)
                && final(self).contributions.has(user),
    {
        if user == 0 || user > self.n || user == self.index {
            return Err(FrostError::IndexOutOfRange { user });
        }
        let r = self.contributions.add_scalar(user, share);
        proof {
            old(self).contributions.lemma_lengths();
            self.contributions.lemma_lengths();
            if r.is_ok() {
                assert forall|i: int| 0 <= i < self.contributions.users().len() implies canonical_scalar_bytes(
                    #[trigger] self.contributions.data()[i],
                ) by {
                    if i < old(self).contributions.users().len() {
                        assert(self.contributions.data()[i] == old(self).contributions.data()[i]);
                    }
                }
                assert forall|i: int| 0 <= i < self.contributions.users().len() implies 1 <= #[trigger] self.contributions.users()[i] <= self.n
                    && self.contributions.users()[i] != self.index by {
                    if i < old(self).contributions.users().len() {
                        assert(self.contributions.users()[i] == old(self).contributions.users()[i]);
                    }
                }
            }
        }
        r
    }
}

/// One participant's key-generation session.
pub struct SchnorrKeyGenWrapper {
    threshold: u16,
    n: u16,
    index: u16,
    context: Vec<u8>,
    /// 0: created; 1: commitment published; 2: shares sent.
    round: u8,
    coefficients: Vec<Scalar>,
    /// Every participant's commitment, participant `k` at position `k - 1`
    /// (filled in the second round).
    table: Vec<Vec<Point>>,
}

impl SchnorrKeyGenWrapper {
    pub closed spec fn threshold(&self) -> u16 {
        self.threshold
    }

    pub closed spec fn n(&self) -> u16 {
        self.n
    }

    pub closed spec fn index(&self) -> u16 {
        self.index
    }

    pub closed spec fn context(&self) -> Seq<u8> {
        self.context@
    }

    pub closed spec fn round(&self) -> u8 {
        self.round
    }

    /// The secret polynomial, constant term first.
    pub closed spec fn coefficients(&self) -> Seq<Scalar> {
        self.coefficients@
    }

    /// Every participant's commitment, as byte encodings.
    pub closed spec fn table(&self) -> Seq<Seq<Seq<u8>>> {
        self.table@.map_values(|v: Vec<Point>| point_views(v@))
    }

    pub closed spec fn wf(&self) -> bool {
        &&& 1 <= self.threshold <= self.n
        &&& 1 <= self.index <= self.n
        &&& self.round <= 2
        &&& self.round >= 1 ==> self.coefficients@.len() == self.threshold
        &&& crate::poly::all_wf(self.coefficients@)
        &&& self.round == 2 ==> {
            &&& self.table@.len() == self.n
            &&& forall|k: int| 0 <= k < self.n ==> #[trigger] self.table@[k]@.len() == self.threshold
            &&& forall|k: int| 0 <= k < self.n ==> all_decode(#[trigger] self.table@[k]@)
            &&& point_views(self.table@[self.index - 1]@) == commitment_of(self.coefficients@)
        }
    }

    /// What a well-formed session guarantees, for use outside this module.
    pub proof fn lemma_wf(&self)
        requires
            self.wf(),
        ensures
            1 <= self.threshold() <= self.n(),
            1 <= self.index() <= self.n(),
            self.round() <= 2,
            crate::poly::all_wf(self.coefficients()),
            self.round() >= 1 ==> self.coefficients().len() == self.threshold(),
    {
    }

    /// Starts a session for participant `index` of a group of `n` with threshold
    /// `threshold`, bound to `context`.
    pub fn new(threshold: u16, n: u16, index: u16, context: &str) -> (r: Result<Self, FrostError>)
        ensures
            r.is_ok() <==> (1 <= threshold <= n && 1 <= index <= n),
            r.is_err() ==> r == Err::<Self, FrostError>(FrostError::InvalidParameters),
            r.is_ok() ==> {
                let s = r.unwrap();
                &&& s.wf()
                &&& s.threshold() == threshold
                &&& s.n() == n
                &&& s.index() == index
                &&& s.context() == context.spec_bytes()
                &&& s.round() == 0
            },
    {
        if !(1 <= threshold && threshold <= n && 1 <= index && index <= n) {
            return Err(FrostError::InvalidParameters);
        }
        let mut ctx: Vec<u8> = Vec::new();
        ctx.extend_from_slice(context.as_bytes());
        assert(ctx@ =~= context.spec_bytes());
        Ok(SchnorrKeyGenWrapper {
            threshold,
            n,
            index,
            context: ctx,
            round: 0,
            coefficients: Vec::new(),
            table: Vec::new(),
        })
    }
}

proof fn lemma_piece_prefix(a: Seq<u8>, b: Seq<u8>, j: int, m: int)
    requires
        0 <= j < m,
        a.len() == 33 * m,
    ensures
        piece(a + b, j, 33) == piece(a, j, 33),
{
    assert((j + 1) * 33 <= 33 * m) by (nonlinear_arith)
        requires
            j < m,
    ;
    assert(piece(a + b, j, 33) =~= piece(a, j, 33));
}

proof fn lemma_piece_last(a: Seq<u8>, p: Seq<u8>, j: int)
    requires
        0 <= j,
        a.len() == j * 33,
        p.len() == 33,
    ensures
        piece(a + p, j, 33) == p,
{
    assert(piece(a + p, j, 33) =~= p);
}

proof fn lemma_encode_step(before: Seq<u8>, p: Seq<u8>, ps: Seq<Seq<u8>>, i: int)
    requires
        0 <= i < ps.len(),
        before.len() == 33 * i,
        p == ps[i],
        p.len() == 33,
        forall|j: int| 0 <= j < i ==> #[trigger] piece(before, j, 33) == ps[j],
    ensures
        forall|j: int| 0 <= j < i + 1 ==> #[trigger] piece(before + p, j, 33) == ps[j],
{
    assert forall|j: int| 0 <= j < i + 1 implies #[trigger] piece(before + p, j, 33) == ps[j] by {
        if j < i {
            lemma_piece_prefix(before, p, j, i);
        } else {
            lemma_piece_last(before, p, j);
        }
    }
}

/// Encodes a list of points one after another.
pub fn encode_points(ps: &Vec<Point>) -> (r: Vec<u8>)
    ensures
        r@.len() == 33 * ps@.len(),
        forall|j: int| 0 <= j < ps@.len() ==> #[trigger] piece(r@, j, 33) == point_views(ps@)[j],
{
    let ghost views = point_views(ps@);
    let mut r: Vec<u8> = Vec::new();
    let mut i: usize = 0;
    while i < ps.len()
        invariant
            i <= ps@.len(),
            views == point_views(ps@),
            r@.len() == 33 * i,
            forall|j: int| 0 <= j < i ==> #[trigger] piece(r@, j, 33) == views[j],
        decreases ps@.len() - i,
    {
        let ghost before = r@;
        let p = ps[i];
        push_point(&mut r, &p);
        proof {
            lemma_encode_step(before, p.bytes@, views, i as int);
        }
        i = i + 1;
    }
    r
}

/// The outcome of the first round: the advanced session and the commitment
/// to broadcast.
pub struct ResultKeygen1 {
    pub keygen: SchnorrKeyGenWrapper,
    pub res: Vec<u8>,
}

impl ResultKeygen1 {
    pub fn new(keygen: SchnorrKeyGenWrapper, res: Vec<u8>) -> (r: Self)
        ensures
            r.keygen == keygen,
            r.res == res,
    {
        ResultKeygen1 { keygen, res }
    }

    pub fn get_keygen(self) -> (r: SchnorrKeyGenWrapper)
        ensures
            r == self.keygen,
    {
        self.keygen
    }

    pub fn get_res(&self) -> (r: Vec<u8>)
        ensures
            r@ == self.res@,
    {
        let mut v: Vec<u8> = Vec::new();
        v.extend_from_slice(self.res.as_slice());
        assert(v@ =~= self.res@);
        v
    }
}

impl SchnorrKeyGenWrapper {
    /// First round: draws the secret polynomial of degree `threshold - 1`,
    /// commits to its coefficients and proves knowledge of the constant term.
    pub fn key_gen_1_create_commitments(self) -> (r: Result<ResultKeygen1, FrostError>)
        requires
            self.wf(),
        ensures
            self.round() != 0 ==> r == Err::<ResultKeygen1, FrostError>(FrostError::SessionConsumed),
            self.round() == 0 ==> r.is_ok() || r == Err::<ResultKeygen1, FrostError>(FrostError::RandomnessFailure),
            r.is_ok() ==> {
                let k = r.unwrap().keygen;
                let res = r.unwrap().res@;
                let t = self.threshold() as nat;
                &&& k.wf()
                &&& k.round() == 1
                &&& k.threshold() == self.threshold()
                &&& k.n() == self.n()
                &&& k.index() == self.index()
                &&& k.context() == self.context()
                &&& k.coefficients().len() == t
                &&& forall|i: int| 0 <= i < t ==> (#[trigger] k.coefficients()[i]).value() != 0
                &&& exists|nonce: nat|
                    0 < nonce < group_order() && #[trigger] self.commitment_message(k.coefficients(), nonce, res)
            },
    {
        if self.round != 0 {
            return Err(FrostError::SessionConsumed);
        }
        let tt = self.threshold as usize;
        let mut coeffs: Vec<Scalar> = Vec::new();
        let mut i: usize = 0;
        while i < tt
            invariant
                i <= tt,
                self.round == 0,
                coeffs@.len() == i,
                crate::poly::all_wf(coeffs@),
                forall|j: int| 0 <= j < i ==> (#[trigger] coeffs@[j]).value() != 0,
            decreases tt - i,
        {
            match random_nonzero() {
                Some(c) => coeffs.push(c),
                None => {
                    return Err(FrostError::RandomnessFailure);
                },
            }
            i = i + 1;
        }
        let nonce = match random_nonzero() {
            Some(k) => k,
            None => {
                return Err(FrostError::RandomnessFailure);
            },
        };
        let r = self.commit_with(coeffs, nonce);
        proof {
            if r.is_ok() {
                let out = r.unwrap();
                assert(self.commitment_message(out.keygen.coefficients(), nonce.value(), out.res@));
            }
        }
        r
    }

    /// `res` is the broadcast of this session committing to the coefficients
    /// `cs` with proof nonce `nonce`: the commitments `c_i * G`, the nonce point
    /// `nonce * G`, and the response `nonce + c_0 * challenge`, all well formed.
    pub open spec fn commitment_message(&self, cs: Seq<Scalar>, nonce: nat, res: Seq<u8>) -> bool {
        let t = self.threshold() as nat;
        &&& res.len() == commitment_len(t)
        &&& commitment_points(res, t) == commitment_of(cs)
        &&& pok_nonce_bytes(res, t) == base_mul_of(nonce)
        &&& be_nat(pok_response_bytes(res, t)) == (nonce + cs[0].value() * pok_challenge(
            self.context(),
            self.index(),
            commitment_points(res, t)[0],
            pok_nonce_bytes(res, t),
        )) % group_order()
        &&& commitment_well_formed(res, t)
    }

    /// First round with the secret polynomial `coefficients` (constant term
    /// first) and the proof nonce `nonce` given: commits to the coefficients
    /// and proves knowledge of the constant term.
    pub fn commit_with(self, coefficients: Vec<Scalar>, nonce: Scalar) -> (r: Result<ResultKeygen1, FrostError>)
        requires
            self.wf(),
            coefficients@.len() == self.threshold(),
            crate::poly::all_wf(coefficients@),
            forall|i: int| 0 <= i < coefficients@.len() ==> (#[trigger] coefficients@[i]).value() != 0,
            nonce.wf(),
            nonce.value() != 0,
        ensures
            self.round() != 0 ==> r == Err::<ResultKeygen1, FrostError>(FrostError::SessionConsumed),
            self.round() == 0 ==> r.is_ok(),
            r.is_ok() ==> {
                let k = r.unwrap().keygen;
                &&& k.wf()
                &&& k.round() == 1
                &&& k.threshold() == self.threshold()
                &&& k.n() == self.n()
                &&& k.index() == self.index()
                &&& k.context() == self.context()
                &&& k.coefficients() == coefficients@
                &&& self.commitment_message(coefficients@, nonce.value(), r.unwrap().res@)
            },
    {
        if self.round != 0 {
            return Err(FrostError::SessionConsumed);
        }
        let coeffs = coefficients;
        let cms = crate::poly::commit_coefficients(&coeffs);
        let rp = base_mul(&nonce);
        let c0 = cms[0];
        let c = pok_challenge_exec(self.context.as_slice(), self.index, &c0, &rp);
        let a0 = coeffs[0];
        let prod = scalar_mul(&a0, &c);
        let s = scalar_add(&nonce, &prod);
        let mut res = encode_points(&cms);
        let ghost before = res@;
        push_point(&mut res, &rp);
        let ghost mid = res@;
        push_scalar(&mut res, &s);
        let ghost t = self.threshold as nat;
        proof {
            assert forall|j: int| 0 <= j < t implies #[trigger] commitment_points(res@, t)[j] == commitment_of(coeffs@)[j] by {
                lemma_piece_prefix(before, rp.bytes@ + s.bytes@, j, t as int);
                assert(res@ =~= before + (rp.bytes@ + s.bytes@));
            }
            assert(commitment_points(res@, t) =~= commitment_of(coeffs@));
            lemma_piece_prefix(mid, s.bytes@, t as int, t as int + 1);
            lemma_piece_last(before, rp.bytes@, t as int);
            assert(pok_response_bytes(res@, t) =~= s.bytes@);
            assert(crate::poly::all_wf(coeffs@));
            assert(coeffs@[0].wf());
            vstd::arithmetic::div_mod::lemma_add_mod_noop(
                nonce.value() as int,
                (a0.value() * c.value()) as int,
                group_order() as int,
            );
            vstd::arithmetic::div_mod::lemma_small_mod(nonce.value(), group_order());
            assert(commitment_points(res@, t)[0] == point_views(cms@)[0]);
            assert forall|j: int| 0 <= j < t implies valid_point_bytes(#[trigger] commitment_points(res@, t)[j]) by {
                assert(commitment_points(res@, t)[j] == commitment_of(coeffs@)[j]);
                assert(coeffs@[j].value() != 0);
                assert(cms@[j].valid());
            }
            assert(pok_nonce_bytes(res@, t) == rp.bytes@);
            assert(commitment_well_formed(res@, t));
        }
        let keygen = SchnorrKeyGenWrapper {
            threshold: self.threshold,
            n: self.n,
            index: self.index,
            context: self.context,
            round: 1,
            coefficients: coeffs,
            table: Vec::new(),
        };
        Ok(ResultKeygen1 { keygen, res })
    }
}

/// The commitment of participant `k` was collected and is accepted.
pub open spec fn peer_commitment_ok(p: crate::collect::Contributions, k: u16, t: nat, ctx: Seq<u8>) -> bool {
    p.has(k) && commitment_accepted(p.entry(k), t, k, ctx)
}

/// The commitment of participant `k` was collected and is well formed.
pub open spec fn peer_commitment_well_formed(p: crate::collect::Contributions, k: u16, t: nat) -> bool {
    p.has(k) && commitment_well_formed(p.entry(k), t)
}

/// The outcome of the second round: the advanced session and the share owed
/// to each other participant.
pub struct ResultKeygen2 {
    pub keygen: SchnorrKeyGenWrapper,
    pub user_indices: Vec<u16>,
    pub shares: Vec<Vec<u8>>,
}

impl ResultKeygen2 {
    pub fn get_keygen(self) -> (r: SchnorrKeyGenWrapper)
        ensures
            r == self.keygen,
    {
        self.keygen
    }

    /// The recipients of the shares, in increasing order.
    pub fn get_user_indices(&self) -> (r: Vec<u16>)
        ensures
            r@ == self.user_indices@,
    {
        let mut v: Vec<u16> = Vec::new();
        v.extend_from_slice(self.user_indices.as_slice());
        assert(v@ =~= self.user_indices@);
        v
    }

    /// The share for the recipient at position `i` of `get_user_indices`.
    pub fn get_shares_at(&self, i: usize) -> (r: Vec<u8>)
        requires
            i < self.shares@.len(),
        ensures
            r@ == self.shares@[i as int]@,
    {
        let mut v: Vec<u8> = Vec::new();
        v.extend_from_slice(self.shares[i].as_slice());
        assert(v@ =~= self.shares@[i as int]@);
        v
    }
}

/// The 32 bytes of a scalar.
pub fn scalar_to_vec(s: &Scalar) -> (r: Vec<u8>)
    ensures
        r@ == s.bytes@,
{
    let mut v: Vec<u8> = Vec::new();
    push_scalar(&mut v, s);
    assert(v@ =~= s.bytes@);
    v
}

impl SchnorrKeyGenWrapper {
    /// What the second round needs: the session is in it, and every other
    /// participant, and no one else, sent a commitment whose proof verifies.
    pub open spec fn round2_accepts(&self, p: &ParamsKeygen2) -> bool {
        &&& self.round() == 1
        &&& self.params2_match(p)
        &&& p.contributions.users().len() == self.n() - 1
        &&& p.contributions.senders_ok(self.n(), self.index())
        &&& forall|k: u16|
            1 <= k <= self.n() && k != self.index() ==> #[trigger] peer_commitment_ok(
                p.contributions,
                k,
                self.threshold() as nat,
                self.context(),
            )
    }

    /// Every other participant sent a well-formed commitment (its proof aside).
    pub open spec fn round2_well_formed(&self, p: &ParamsKeygen2) -> bool {
        forall|k: u16|
            1 <= k <= self.n() && k != self.index() ==> #[trigger] peer_commitment_well_formed(
                p.contributions,
                k,
                self.threshold() as nat,
            )
    }

    /// The commitments were collected for this session's group and index.
    pub open spec fn params2_match(&self, p: &ParamsKeygen2) -> bool {
        p.threshold == self.threshold() && p.n == self.n() && p.index == self.index()
    }

    /// The shares were collected for this session's group and index.
    pub open spec fn params3_match(&self, p: &ParamsKeygen3) -> bool {
        p.n == self.n() && p.index == self.index()
    }

    /// Second round: verifies every other participant's commitment and proof,
    /// and evaluates the secret polynomial at each other participant's index.
    pub fn key_gen_2_generate_shares(self, params: ParamsKeygen2) -> (r: Result<ResultKeygen2, FrostError>)
        requires
            self.wf(),
            params.wf(),
        ensures
            r.is_ok() <==> self.round2_accepts(&params),
            self.round() != 1 ==> r == Err::<ResultKeygen2, FrostError>(FrostError::SessionConsumed),
            self.round() == 1 && !self.params2_match(&params)
                ==> r == Err::<ResultKeygen2, FrostError>(FrostError::InvalidParameters),
            self.round() == 1 && self.params2_match(&params) && params.contributions.users().len() != self.n() - 1
                ==> r == Err::<ResultKeygen2, FrostError>(FrostError::WrongParticipantCount),
            r matches Err(FrostError::MissingParticipant { user }) ==> !params.contributions.has(user),
            r matches Err(FrostError::IndexOutOfRange { user }) ==> params.contributions.has(user)
                && (user > self.n() || user == self.index()),
            self.round() == 1 && self.params2_match(&params) && params.contributions.users().len() == self.n() - 1
                && self.round2_well_formed(&params)
                && !self.round2_accepts(&params) ==> r matches Err(FrostError::InvalidProof { .. }),
            r matches Err(FrostError::InvalidProof { user }) ==> 1 <= user <= self.n() && user != self.index()
                && params.contributions.has(user) && !commitment_accepted(
                params.contributions.entry(user),
                self.threshold() as nat,
                user,
                self.context(),
            ),
            r.is_ok() ==> {
                let out = r.unwrap();
                let k = out.keygen;
                &&& k.wf()
                &&& k.round() == 2
                &&& k.threshold() == self.threshold()
                &&& k.n() == self.n()
                &&& k.index() == self.index()
                &&& k.context() == self.context()
                &&& k.coefficients() == self.coefficients()
                &&& k.table()[self.index() - 1] == commitment_of(self.coefficients())
                &&& forall|q: int| 0 <= q < self.n() && q + 1 != self.index()
                    ==> #[trigger] k.table()[q] == commitment_points(
                    params.contributions.entry((q + 1) as u16),
                    self.threshold() as nat,
                )
                &&& out.user_indices@ == others(self.n(), self.index())
                &&& out.shares@.len() == self.n() - 1
                &&& forall|i: int| 0 <= i < self.n() - 1 ==> {
                    &&& (#[trigger] out.shares@[i])@.len() == 32
                    &&& be_nat(out.shares@[i]@) == crate::poly::poly_eval(
                        self.coefficients(),
                        others(self.n(), self.index())[i] as nat,
                    )
                }
            },
    {
        if self.round != 1 {
            return Err(FrostError::SessionConsumed);
        }
        if params.threshold != self.threshold || params.n != self.n || params.index != self.index {
            return Err(FrostError::InvalidParameters);
        }
        if params.contributions.len() != (self.n - 1) as usize {
            return Err(FrostError::WrongParticipantCount);
        }
        match params.contributions.check_senders(self.n, self.index) {
            Err(e) => {
                return Err(e);
            },
            Ok(()) => {},
        }
        let n = self.n as usize;
        let t = self.threshold;
        let ghost ctx = self.context@;
        let own = crate::poly::commit_coefficients(&self.coefficients);
        proof {
            assert(point_views(own@) =~= commitment_of(self.coefficients@));
        }
        let mut table: Vec<Vec<Point>> = Vec::new();
        let mut pos: usize = 0;
        while pos < n
            invariant
                n == self.n as usize,
                t == self.threshold,
                self.wf(),
                self.round == 1,
                params.contributions.wf(),
                params.contributions.users().len() == self.n - 1,
                params.contributions.senders_ok(self.n, self.index),
                params.threshold == self.threshold && params.n == self.n && params.index == self.index,
                point_views(own@) == commitment_of(self.coefficients@),
                all_decode(own@),
                own@.len() == t,
                pos <= n,
                table@.len() == pos,
                forall|q: int| 0 <= q < pos ==> #[trigger] table@[q]@.len() == t,
                forall|q: int| 0 <= q < pos ==> all_decode(#[trigger] table@[q]@),
                forall|q: int| 0 <= q < pos && q + 1 == self.index ==> point_views(#[trigger] table@[q]@) == commitment_of(self.coefficients@),
                forall|q: int| 0 <= q < pos && q + 1 != self.index ==> point_views(#[trigger] table@[q]@) == commitment_points(
                    params.contributions.entry((q + 1) as u16),
                    t as nat,
                ),
                forall|k: u16| 1 <= k <= pos && k != self.index ==> #[trigger] peer_commitment_ok(
                    params.contributions,
                    k,
                    t as nat,
                    self.context@,
                ),
            decreases n - pos,
        {
            let k = (pos + 1) as u16;
            if k == self.index {
                table.push(copy_points(&own));
            } else {
                match params.contributions.find(k) {
                    None => {
                        assert(!peer_commitment_ok(params.contributions, k, t as nat, self.context@));
                        assert(1 <= k <= self.n && k != self.index);
                        assert(self.threshold() as nat == t as nat);
                        assert(self.context() == self.context@);
                        assert(!peer_commitment_ok(params.contributions, k, self.threshold() as nat, self.context()));
                        assert(!peer_commitment_well_formed(params.contributions, k, self.threshold() as nat));
                        assert(!self.round2_accepts(&params));
                        return Err(FrostError::MissingParticipant { user: k });
                    },
                    Some(i) => {
                        let b = params.contributions.bytes_at(i);
                        assert(b@ == params.contributions.entry(k));
                        match parse_commitment(b.as_slice(), t, k, self.context.as_slice()) {
                            Err(e) => {
                                assert(!peer_commitment_ok(params.contributions, k, t as nat, self.context@));
                                assert(1 <= k <= self.n && k != self.index);
                                assert(self.threshold() as nat == t as nat);
                                assert(self.context() == self.context@);
                                assert(!peer_commitment_ok(params.contributions, k, self.threshold() as nat, self.context()));
                                assert(!self.round2_accepts(&params));
                                assert(!commitment_accepted(b@, t as nat, k, self.context@));
                                match e {
                                    FrostError::InvalidProof { .. } => {},
                                    _ => {
                                        assert(!commitment_well_formed(b@, t as nat));
                                        assert(!peer_commitment_well_formed(params.contributions, k, self.threshold() as nat));
                                    },
                                }
                                return Err(e);
                            },
                            Ok(ps) => {
                                assert(peer_commitment_ok(params.contributions, k, t as nat, self.context@));
                                table.push(ps);
                            },
                        }
                    },
                }
            }
            pos = pos + 1;
        }
        let mut user_indices: Vec<u16> = Vec::new();
        let mut shares: Vec<Vec<u8>> = Vec::new();
        let ghost oth = others(self.n, self.index);
        let mut j: usize = 0;
        while j < n
            invariant
                n == self.n as usize,
                self.wf(),
                self.round == 1,
                oth == others(self.n, self.index),
                j <= n,
                j < self.index ==> user_indices@.len() == j,
                j >= self.index ==> user_indices@.len() == j - 1,
                shares@.len() == user_indices@.len(),
                forall|i: int| 0 <= i < user_indices@.len() ==> #[trigger] user_indices@[i] == oth[i],
                forall|i: int| 0 <= i < shares@.len() ==> {
                    &&& (#[trigger] shares@[i])@.len() == 32
                    &&& be_nat(shares@[i]@) == crate::poly::poly_eval(self.coefficients@, oth[i] as nat)
                },
            decreases n - j,
        {
            let k = (j + 1) as u16;
            if k != self.index {
                let x = scalar_from_u16(k);
                proof {
                    vstd::arithmetic::div_mod::lemma_small_mod(k as nat, group_order());
                }
                let y = crate::poly::evaluate(&self.coefficients, &x);
                user_indices.push(k);
                shares.push(scalar_to_vec(&y));
            }
            j = j + 1;
        }
        assert(user_indices@ =~= oth);
        let keygen = SchnorrKeyGenWrapper {
            threshold: self.threshold,
            n: self.n,
            index: self.index,
            context: self.context,
            round: 2,
            coefficients: self.coefficients,
            table,
        };
        proof {
            assert forall|q: int| 0 <= q < keygen.n && q + 1 != keygen.index
                implies #[trigger] keygen.table()[q] == commitment_points(
                    params.contributions.entry((q + 1) as u16),
                    keygen.threshold as nat,
                ) by {
                assert(keygen.table()[q] == point_views(keygen.table@[q]@));
            }
            assert(point_views(keygen.table@[keygen.index - 1]@) == commitment_of(keygen.coefficients@));
            assert forall|k: u16| 1 <= k <= keygen.n && k != keygen.index implies #[trigger] peer_commitment_ok(
                params.contributions,
                k,
                keygen.threshold as nat,
                keygen.context@,
            ) by {
            }
        }
        Ok(ResultKeygen2 { keygen, user_indices, shares })
    }
}

/// Serialized width of a key share: threshold, group size and index (two
/// bytes each), the secret share, then the group key.
pub const KEY_LEN: usize = 71;

/// A participant's long-lived key material: its secret share and the group key.
pub struct SchnorrKeyWrapper {
    threshold: u16,
    n: u16,
    index: u16,
    secret: Scalar,
    group_key: Point,
}

impl SchnorrKeyWrapper {
    pub closed spec fn threshold(&self) -> u16 {
        self.threshold
    }

    pub closed spec fn n(&self) -> u16 {
        self.n
    }

    pub closed spec fn index(&self) -> u16 {
        self.index
    }

    pub closed spec fn secret(&self) -> Scalar {
        self.secret
    }

    pub closed spec fn group_key(&self) -> Point {
        self.group_key
    }

    pub closed spec fn wf(&self) -> bool {
        &&& 1 <= self.threshold <= self.n
        &&& 1 <= self.index <= self.n
        &&& self.secret.wf()
        &&& self.group_key.valid()
    }

    /// The fixed-width encoding.
    pub open spec fn serialized(&self) -> Seq<u8> {
        be16(self.threshold()) + be16(self.n()) + be16(self.index()) + self.secret().bytes@
            + self.group_key().bytes@
    }

    /// The group public key, x-only: the x coordinate of the point, as
    /// BIP-340 keys are written.
    pub fn get_bitcoin_encoded_key(&self) -> (r: Vec<u8>)
        ensures
            r@ == crate::group::x_only(self.group_key().bytes@),
    {
        crate::group::x_only_vec(&self.group_key)
    }

    pub fn serialize(&self) -> (r: Vec<u8>)
        ensures
            r@ == self.serialized(),
            r@.len() == KEY_LEN,
    {
        let mut v: Vec<u8> = Vec::new();
        push_u16(&mut v, self.threshold);
        push_u16(&mut v, self.n);
        push_u16(&mut v, self.index);
        push_scalar(&mut v, &self.secret);
        push_point(&mut v, &self.group_key);
        assert(v@ =~= self.serialized());
        v
    }

    /// Reads a key share back; every field is checked as the key generation
    /// established it.
    pub fn from_serialized(b: &[u8]) -> (r: Result<Self, FrostError>)
        ensures
            b@.len() != KEY_LEN ==> r == Err::<Self, FrostError>(FrostError::InvalidLength),
            b@.len() == KEY_LEN && !key_header_ok(b@) ==> r == Err::<Self, FrostError>(FrostError::InvalidParameters),
            b@.len() == KEY_LEN && key_header_ok(b@) && be_nat(b@.subrange(6, 38)) >= group_order()
                ==> r == Err::<Self, FrostError>(FrostError::NonCanonicalScalar),
            b@.len() == KEY_LEN && key_header_ok(b@) && be_nat(b@.subrange(6, 38)) < group_order()
                && !valid_point_bytes(b@.subrange(38, 71)) ==> r == Err::<Self, FrostError>(FrostError::InvalidPoint),
            r matches Err(e) ==> crate::error::kind_of(e) == crate::error::ErrorKind::InputValidation,
            r.is_ok() <==> b@.len() == KEY_LEN && exists|k: Self| k.wf() && k.serialized() == b@,
            r.is_ok() ==> r.unwrap().wf() && r.unwrap().serialized() == b@,
    {
        if b.len() != KEY_LEN {
            return Err(FrostError::InvalidLength);
        }
        let threshold = crate::codec::read_u16(b, 0);
        let n = crate::codec::read_u16(b, 2);
        let index = crate::codec::read_u16(b, 4);
        let ghost rest = b@.subrange(38, 71);
        proof {
            assert forall|k: Self| k.serialized() == b@ implies k.threshold == threshold && k.n == n
                && k.index == index && k.secret.bytes@ == b@.subrange(6, 38)
                && k.group_key.bytes@ == b@.subrange(38, 71) by {
                assert(k.serialized().subrange(0, 2) == be16(k.threshold));
                assert(k.serialized().subrange(2, 4) == be16(k.n));
                assert(k.serialized().subrange(4, 6) == be16(k.index));
                assert(k.serialized().subrange(6, 38) == k.secret.bytes@);
                assert(k.serialized().subrange(38, 71) == k.group_key.bytes@);
                lemma_be16_injective(k.threshold, threshold);
                lemma_be16_injective(k.n, n);
                lemma_be16_injective(k.index, index);
            }
        }
        if !(1 <= threshold && threshold <= n && 1 <= index && index <= n) {
            return Err(FrostError::InvalidParameters);
        }
        let secret = match scalar_from_slice(slice_subrange(b, 6, 38)) {
            None => {
                return Err(FrostError::NonCanonicalScalar);
            },
            Some(s) => s,
        };
        let group_key = match read_valid_point(b, 38) {
            Err(e) => {
                return Err(e);
            },
            Ok(p) => p,
        };
        let k = SchnorrKeyWrapper { threshold, n, index, secret, group_key };
        assert(k.serialized() =~= b@);
        Ok(k)
    }

    /// What a well-formed key guarantees, for use outside this module.
    pub proof fn lemma_wf(&self)
        requires
            self.wf(),
        ensures
            1 <= self.threshold() <= self.n(),
            1 <= self.index() <= self.n(),
            self.secret().wf(),
            self.group_key().valid(),
    {
    }

    pub fn get_threshold(&self) -> (r: u16)
        ensures
            r == self.threshold(),
    {
        self.threshold
    }

    pub fn get_n(&self) -> (r: u16)
        ensures
            r == self.n(),
    {
        self.n
    }

    pub fn get_index(&self) -> (r: u16)
        ensures
            r == self.index(),
    {
        self.index
    }

    pub(crate) fn secret_share(&self) -> (r: Scalar)
        ensures
            r == self.secret(),
    {
        self.secret
    }

    pub(crate) fn group_point(&self) -> (r: Point)
        ensures
            r == self.group_key(),
    {
        self.group_key
    }
}

/// The big-endian index at `at`.
pub open spec fn u16_at(b: Seq<u8>, at: int) -> int {
    b[at] as int * 256 + b[at + 1] as int
}

/// The encoded threshold, group size and index are in range.
pub open spec fn key_header_ok(b: Seq<u8>) -> bool {
    &&& 1 <= u16_at(b, 0) <= u16_at(b, 2)
    &&& 1 <= u16_at(b, 4) <= u16_at(b, 2)
}

proof fn lemma_be16_injective(a: u16, b: u16)
    requires
        be16(a) == be16(b),
    ensures
        a == b,
{
    assert(be16(a)[0] == be16(b)[0]);
    assert(be16(a)[1] == be16(b)[1]);
    assert((a / 256) as u8 == a / 256);
    assert((b / 256) as u8 == b / 256);
}

/// The share of participant `k` was collected, is canonical, and matches the
/// commitment `cms` evaluated at the recipient's index.
pub open spec fn peer_share_ok(p: crate::collect::Contributions, k: u16, cms: Seq<Seq<u8>>, index: u16) -> bool {
    &&& p.has(k)
    &&& p.entry(k).len() == 32
    &&& be_nat(p.entry(k)) < group_order()
    &&& base_mul_of(be_nat(p.entry(k))) == crate::poly::feldman_eval(cms, index as nat)
}

/// The share of participant `k` was collected and is a canonical scalar.
pub open spec fn peer_share_well_formed(p: crate::collect::Contributions, k: u16) -> bool {
    &&& p.has(k)
    &&& p.entry(k).len() == 32
    &&& be_nat(p.entry(k)) < group_order()
}

impl SchnorrKeyGenWrapper {
    /// Every other participant sent a canonical share (its Feldman check aside).
    pub open spec fn round3_well_formed(&self, p: &ParamsKeygen3) -> bool {
        forall|k: u16|
            1 <= k <= self.n() && k != self.index() ==> #[trigger] peer_share_well_formed(p.contributions, k)
    }

    /// What the third round needs: the session is in it, and every other
    /// participant, and no one else, sent a share that passes Feldman verification.
    pub open spec fn round3_accepts(&self, p: &ParamsKeygen3) -> bool {
        &&& self.round() == 2
        &&& self.params3_match(p)
        &&& p.contributions.users().len() == self.n() - 1
        &&& p.contributions.senders_ok(self.n(), self.index())
        &&& forall|k: u16|
            1 <= k <= self.n() && k != self.index() ==> #[trigger] peer_share_ok(
                p.contributions,
                k,
                self.table()[k - 1],
                self.index(),
            )
    }

    /// The values summed into the secret share: participant `q + 1`'s share
    /// at position `q`, one's own evaluation at one's own position.
    pub open spec fn share_values(&self, p: &ParamsKeygen3) -> Seq<nat> {
        Seq::new(
            self.n() as nat,
            |q: int|
                if q + 1 == self.index() {
                    crate::poly::poly_eval(self.coefficients(), self.index() as nat)
                } else {
                    be_nat(p.contributions.entry((q + 1) as u16))
                },
        )
    }

    /// The constant terms of every participant's commitment, by index.
    pub open spec fn constant_terms(&self) -> Seq<Seq<u8>> {
        Seq::new(self.n() as nat, |q: int| self.table()[q][0])
    }

    /// Third round: verifies each share received against its sender's
    /// commitment, sums the shares into the secret share and the constant
    /// terms into the group key.
    pub fn key_gen_3_complete(self, params: ParamsKeygen3) -> (r: Result<SchnorrKeyWrapper, FrostError>)
        requires
            self.wf(),
            params.wf(),
        ensures
            r.is_ok() <==> self.round3_accepts(&params) && (point_sum(self.constant_terms())[0] == 2 || point_sum(self.constant_terms())[0] == 3),
            self.round() != 2 ==> r == Err::<SchnorrKeyWrapper, FrostError>(FrostError::SessionConsumed),
            self.round() == 2 && !self.params3_match(&params)
                ==> r == Err::<SchnorrKeyWrapper, FrostError>(FrostError::InvalidParameters),
            self.round() == 2 && self.params3_match(&params) && params.contributions.users().len() != self.n() - 1
                ==> r == Err::<SchnorrKeyWrapper, FrostError>(FrostError::WrongParticipantCount),
            r matches Err(FrostError::IndexOutOfRange { user }) ==> params.contributions.has(user)
                && (user > self.n() || user == self.index()),
            self.round() == 2 && self.params3_match(&params) && params.contributions.users().len() == self.n() - 1
                && self.round3_well_formed(&params)
                && !self.round3_accepts(&params) ==> r matches Err(FrostError::MaliciousShare { .. }),
            r matches Err(FrostError::MaliciousShare { user }) ==> 1 <= user <= self.n() && user != self.index()
                && params.contributions.has(user)
                && !peer_share_ok(params.contributions, user, self.table()[user - 1], self.index()),
            r.is_ok() ==> {
                let key = r.unwrap();
                &&& key.wf()
                &&& key.threshold() == self.threshold()
                &&& key.n() == self.n()
                &&& key.index() == self.index()
                &&& key.secret().value() == scalar_sum(self.share_values(&params))
                &&& key.group_key().bytes@ == point_sum(self.constant_terms())
                &&& key.group_key().valid()
            },
    {
        if self.round != 2 {
            return Err(FrostError::SessionConsumed);
        }
        if params.n != self.n || params.index != self.index {
            return Err(FrostError::InvalidParameters);
        }
        if params.contributions.len() != (self.n - 1) as usize {
            return Err(FrostError::WrongParticipantCount);
        }
        match params.contributions.check_senders(self.n, self.index) {
            Err(e) => {
                return Err(e);
            },
            Ok(()) => {},
        }
        let n = self.n as usize;
        let ghost vals = self.share_values(&params);
        let ghost cts = self.constant_terms();
        let xi = scalar_from_u16(self.index);
        proof {
            vstd::arithmetic::div_mod::lemma_small_mod(self.index as nat, group_order());
        }
        let mut acc = scalar_from_u16(0);
        let mut gk = self.table[0][0];
        let mut pos: usize = 0;
        assert(vals.subrange(0, 0) =~= Seq::<nat>::empty());
        while pos < n
            invariant
                n == self.n as usize,
                self.wf(),
                self.round == 2,
                params.contributions.wf(),
                params.contributions.users().len() == self.n - 1,
                params.contributions.senders_ok(self.n, self.index),
                params.n == self.n && params.index == self.index,
                vals == self.share_values(&params),
                cts == self.constant_terms(),
                xi.value() == self.index as nat,
                xi.wf(),
                pos <= n,
                acc.wf(),
                acc.value() == scalar_sum(vals.subrange(0, pos as int)),
                gk.decodes(),
                pos >= 1 ==> gk.bytes@ == point_sum(cts.subrange(0, pos as int)),
                pos == 0 ==> gk == self.table@[0]@[0],
                forall|k: u16| 1 <= k <= pos && k != self.index ==> #[trigger] peer_share_ok(
                    params.contributions,
                    k,
                    self.table()[k - 1],
                    self.index,
                ),
            decreases n - pos,
        {
            let k = (pos + 1) as u16;
            let cms = &self.table[pos];
            assert(self.table()[pos as int] == point_views(cms@));
            assert(cms@.len() == self.threshold);
            assert(all_decode(cms@));
            let val: Scalar;
            if k == self.index {
                val = crate::poly::evaluate(&self.coefficients, &xi);
            } else {
                assert(1 <= k <= self.n && k != self.index);
                match params.contributions.find(k) {
                    None => {
                        assert(!peer_share_ok(params.contributions, k, self.table()[k - 1], self.index()));
                        assert(!peer_share_well_formed(params.contributions, k));
                        assert(!self.round3_accepts(&params));
                        return Err(FrostError::MissingParticipant { user: k });
                    },
                    Some(i) => {
                        let b = params.contributions.bytes_at(i);
                        if b.len() != 32 {
                            assert(!peer_share_ok(params.contributions, k, self.table()[k - 1], self.index()));
                            assert(!peer_share_well_formed(params.contributions, k));
                            assert(!self.round3_accepts(&params));
                            return Err(FrostError::InvalidLength);
                        }
                        match scalar_from_slice(b.as_slice()) {
                            None => {
                                assert(!peer_share_ok(params.contributions, k, self.table()[k - 1], self.index()));
                                assert(!peer_share_well_formed(params.contributions, k));
                                assert(!self.round3_accepts(&params));
                                return Err(FrostError::NonCanonicalScalar);
                            },
                            Some(s) => {
                                let lhs = base_mul(&s);
                                let rhs = crate::poly::feldman_evaluate(cms, &xi);
                                if !point_eq(&lhs, &rhs) {
                                    assert(!peer_share_ok(params.contributions, k, self.table()[k - 1], self.index));
                                    assert(!self.round3_accepts(&params));
                                    return Err(FrostError::MaliciousShare { user: k });
                                }
                                val = s;
                            },
                        }
                    },
                }
            }
            let ghost prev_acc = acc.value();
            acc = scalar_add(&acc, &val);
            let c0 = cms[0];
            assert(cts[pos as int] == c0.bytes@);
            if pos > 0 {
                gk = point_add(&gk, &c0);
            }
            pos = pos + 1;
            proof {
                let cur = vals.subrange(0, pos as int);
                assert(cur.drop_last() =~= vals.subrange(0, pos - 1));
                assert(val.value() == vals[pos - 1]);
                let cc = cts.subrange(0, pos as int);
                assert(cc.drop_last() =~= cts.subrange(0, pos - 1));
                if pos == 1 {
                    assert(point_sum(cc) == cc[0]);
                }
            }
        }
        assert(vals.subrange(0, n as int) =~= vals);
        assert(cts.subrange(0, n as int) =~= cts);
        if !has_compressed_tag(&gk) {
            return Err(FrostError::InvalidPoint);
        }
        Ok(SchnorrKeyWrapper {
            threshold: self.threshold,
            n: self.n,
            index: self.index,
            secret: acc,
            group_key: gk,
        })
    }
}




/// The constant terms of the broadcast commitments, participant `q + 1` at `q`.
pub open spec fn broadcast_constant_terms(broadcast: Seq<Seq<u8>>, t: nat) -> Seq<Seq<u8>> {
    Seq::new(broadcast.len(), |q: int| commitment_points(broadcast[q], t)[0])
}

/// Participants that hold the same broadcast commitments derive the same group
/// key: the sum, in index order, of the broadcast constant terms. The second
/// round gives each participant the others' commitments as broadcast, and the
/// first round its own; the third returns the sum of the table's constant terms.
pub proof fn lemma_group_key_agreement(
    a: SchnorrKeyGenWrapper,
    b: SchnorrKeyGenWrapper,
    broadcast: Seq<Seq<u8>>,
)
    requires
        a.wf(),
        b.wf(),
        a.round() == 2,
        b.round() == 2,
        a.n() == b.n(),
        a.threshold() == b.threshold(),
        broadcast.len() == a.n(),
        forall|q: int| 0 <= q < a.n() ==> #[trigger] a.table()[q] == commitment_points(broadcast[q], a.threshold() as nat),
        forall|q: int| 0 <= q < b.n() ==> #[trigger] b.table()[q] == commitment_points(broadcast[q], b.threshold() as nat),
    ensures
        point_sum(a.constant_terms()) == point_sum(b.constant_terms()),
        point_sum(a.constant_terms()) == point_sum(broadcast_constant_terms(broadcast, a.threshold() as nat)),
{
    let t = a.threshold() as nat;
    assert(a.constant_terms() =~= broadcast_constant_terms(broadcast, t)) by {
        assert forall|q: int| 0 <= q < a.n() implies a.constant_terms()[q] == broadcast_constant_terms(broadcast, t)[q] by {
            assert(a.table()[q] == commitment_points(broadcast[q], t));
        }
    }
    assert(b.constant_terms() =~= broadcast_constant_terms(broadcast, t)) by {
        assert forall|q: int| 0 <= q < b.n() implies b.constant_terms()[q] == broadcast_constant_terms(broadcast, t)[q] by {
            assert(b.table()[q] == commitment_points(broadcast[q], t));
        }
    }
}

/// A key share is determined by its encoding, so what `from_serialized` returns
/// for the bytes that `serialize` wrote (a key with that same encoding) is the
/// key share that was written.
pub proof fn lemma_key_round_trip(k: SchnorrKeyWrapper, decoded: SchnorrKeyWrapper)
    requires
        decoded.serialized() == k.serialized(),
    ensures
        decoded == k,
{
    let e = k.serialized();
    assert(decoded.serialized().subrange(0, 2) == be16(decoded.threshold));
    assert(e.subrange(0, 2) == be16(k.threshold));
    assert(decoded.serialized().subrange(2, 4) == be16(decoded.n));
    assert(e.subrange(2, 4) == be16(k.n));
    assert(decoded.serialized().subrange(4, 6) == be16(decoded.index));
    assert(e.subrange(4, 6) == be16(k.index));
    lemma_be16_injective(decoded.threshold, k.threshold);
    lemma_be16_injective(decoded.n, k.n);
    lemma_be16_injective(decoded.index, k.index);
    assert(decoded.serialized().subrange(6, 38) == decoded.secret.bytes@);
    assert(e.subrange(6, 38) == k.secret.bytes@);
    assert(decoded.serialized().subrange(38, 71) == decoded.group_key.bytes@);
    assert(e.subrange(38, 71) == k.group_key.bytes@);
    assert(decoded.secret.bytes =~= k.secret.bytes);
    assert(decoded.group_key.bytes =~= k.group_key.bytes);
}

} // verus!
