//! Threshold signing: preprocessing, partial signatures and aggregation into
//! one ordinary Schnorr signature under the group key.
use vstd::prelude::*;
use vstd::slice::slice_subrange;
use vstd::string::StringSliceAdditionalSpecFns;
use crate::codec::{be16, bytes_eq, push_point, push_scalar, push_u16};
use crate::collect::Contributions;
use crate::error::FrostError;
use crate::group::{
    lift_even, x_only, x_only_vec,
    base_mul, base_mul_of, be_nat, group_order, hash_to_scalar, hash_to_scalar_spec, has_compressed_tag,
    point_add, point_add_of, point_decodes, point_from_slice, point_mul, point_mul_of, scalar_add,
    random_nonzero, scalar_from_slice, scalar_mul, scalar_sub, sha256, sha256_of, tagged_hash,
    tagged_hash_spec, Point, Scalar,
};
use crate::keygen::{
    canonical_scalar_bytes, sender_in_range,
    point_sum, read_valid_point, scalar_sum, scalar_to_vec, valid_point_bytes, SchnorrKeyWrapper,
};
use crate::poly::{lagrange_coefficient, lagrange_spec, point_eq};

verus! {

/// Width of a broadcast nonce commitment pair: hiding point, then binding point.
pub const PAIR_LEN: usize = 66;

/// Width of a signature: the x coordinate of `R`, then the scalar `s`.
pub const SIGNATURE_LEN: usize = 64;

/// How the challenge hash binds the message.
#[derive(Clone, Copy, Debug, PartialEq, Eq)]
pub enum SignMode {
    /// The message bytes themselves, under the plain challenge tag.
    Normal,
    /// A digest of a transaction and the script of the output it spends,
    /// under the BIP-340 challenge tag. The digest is this library's own
    /// (`sighash`), not Bitcoin's BIP-341 signature hash, which would need the
    /// spent amounts and the parsed transaction.
    Transaction,
}

pub open spec fn binding_tag() -> Seq<u8> {
    "frostdao/sign/binding".spec_bytes()
}

pub open spec fn challenge_tag(mode: SignMode) -> Seq<u8> {
    match mode {
        SignMode::Normal => "frostdao/sign/challenge".spec_bytes(),
        SignMode::Transaction => "BIP0340/challenge".spec_bytes(),
    }
}

pub open spec fn sighash_tag() -> Seq<u8> {
    "frostdao/sign/tx-sighash".spec_bytes()
}

fn binding_tag_bytes() -> (r: &'static [u8])
    ensures
        r@ == binding_tag(),
{
    "frostdao/sign/binding".as_bytes()
}

fn challenge_tag_bytes(mode: SignMode) -> (r: &'static [u8])
    ensures
        r@ == challenge_tag(mode),
{
    match mode {
        SignMode::Normal => "frostdao/sign/challenge".as_bytes(),
        SignMode::Transaction => "BIP0340/challenge".as_bytes(),
    }
}

fn sighash_tag_bytes() -> (r: &'static [u8])
    ensures
        r@ == sighash_tag(),
{
    "frostdao/sign/tx-sighash".as_bytes()
}

/// The digest that a transaction-mode signature binds: the tagged hash of the
/// digests of the transaction and of the spent output's script. It is this
/// library's own rule, not Bitcoin's BIP-341 signature hash: a signature over
/// it verifies under BIP-340, but is not a valid Taproot input signature.
pub open spec fn sighash_spec(tx: Seq<u8>, script: Seq<u8>) -> Seq<u8> {
    tagged_hash_spec(sighash_tag(), sha256_of(tx) + sha256_of(script))
}

pub fn sighash(tx: &[u8], script: &[u8]) -> (r: Vec<u8>)
    ensures
        r@ == sighash_spec(tx@, script@),
{
    let a = sha256(tx);
    let b = sha256(script);
    let mut buf: Vec<u8> = Vec::new();
    buf.extend_from_slice(a.as_slice());
    buf.extend_from_slice(b.as_slice());
    assert(buf@ =~= a@ + b@);
    let h = tagged_hash(sighash_tag_bytes(), buf.as_slice());
    let mut v: Vec<u8> = Vec::new();
    v.extend_from_slice(h.as_slice());
    assert(v@ =~= h@);
    v
}

/// The point with x coordinate `x` and even y, where there is one.
fn lift_even_point(x: &[u8]) -> (r: Option<Point>)
    requires
        x@.len() == 32,
    ensures
        r.is_some() <==> point_decodes(lift_even(x@)),
        r.is_some() ==> r.unwrap().bytes@ == lift_even(x@) && r.unwrap().decodes(),
{
    let mut v: Vec<u8> = Vec::new();
    v.push(2u8);
    v.extend_from_slice(x);
    assert(v@ =~= lift_even(x@));
    point_from_slice(v.as_slice())
}

/// The Schnorr challenge `c = H(R.x || P.x || m)` under the mode's tag.
pub open spec fn challenge_spec(mode: SignMode, rx: Seq<u8>, px: Seq<u8>, m: Seq<u8>) -> nat {
    hash_to_scalar_spec(challenge_tag(mode), rx + px + m)
}

fn challenge(mode: SignMode, rx: &[u8], px: &[u8], m: &[u8]) -> (c: Scalar)
    ensures
        c.value() == challenge_spec(mode, rx@, px@, m@),
        c.wf(),
{
    let mut buf: Vec<u8> = Vec::new();
    buf.extend_from_slice(rx);
    buf.extend_from_slice(px);
    buf.extend_from_slice(m);
    assert(buf@ =~= rx@ + px@ + m@);
    hash_to_scalar(challenge_tag_bytes(mode), buf.as_slice())
}

/// `sig` is a BIP-340 style Schnorr signature of `m` under the x-only key `px`:
/// with `R` and `P` the even-y points of those x coordinates, `s * G == R + c * P`.
pub open spec fn signature_valid(px: Seq<u8>, m: Seq<u8>, sig: Seq<u8>, mode: SignMode) -> bool {
    let rx = sig.subrange(0, 32);
    let s = be_nat(sig.subrange(32, 64));
    &&& sig.len() == SIGNATURE_LEN
    &&& point_decodes(lift_even(rx))
    &&& s < group_order()
    &&& base_mul_of(s) == point_add_of(
        lift_even(rx),
        point_mul_of(lift_even(px), challenge_spec(mode, rx, px, m)),
    )
}

/// Ordinary single-key verification of a 64-byte signature under the x-only key `px`.
pub fn verify_xonly(px: &[u8], m: &[u8], sig: &[u8], mode: SignMode) -> (r: bool)
    ensures
        r == (px@.len() == 32 && point_decodes(lift_even(px@)) && signature_valid(px@, m@, sig@, mode)),
{
    if px.len() != 32 {
        return false;
    }
    let pk = match lift_even_point(px) {
        None => {
            return false;
        },
        Some(p) => p,
    };
    if sig.len() != SIGNATURE_LEN {
        return false;
    }
    let rx = slice_subrange(sig, 0, 32);
    let rp = match lift_even_point(rx) {
        None => {
            return false;
        },
        Some(p) => p,
    };
    let s = match scalar_from_slice(slice_subrange(sig, 32, 64)) {
        None => {
            return false;
        },
        Some(s) => s,
    };
    let c = challenge(mode, rx, px, m);
    let lhs = base_mul(&s);
    let cp = point_mul(&pk, &c);
    let rhs = point_add(&rp, &cp);
    point_eq(&lhs, &rhs)
}

/// Verifies a signature of `msg` made in the normal mode under the x-only key `pk`.
pub fn verify_normal(pk: &[u8], msg: &[u8], sig: &[u8]) -> (r: bool)
    ensures
        r == (pk@.len() == 32 && point_decodes(lift_even(pk@)) && signature_valid(pk@, msg@, sig@, SignMode::Normal)),
{
    verify_xonly(pk, msg, sig, SignMode::Normal)
}

/// Verifies a signature made in the transaction mode over `tx` and the script
/// `prev_out_script` under the x-only key `pk`.
pub fn verify_transaction(pk: &[u8], tx: &[u8], prev_out_script: &[u8], sig: &[u8]) -> (r: bool)
    ensures
        r == (pk@.len() == 32 && point_decodes(lift_even(pk@)) && signature_valid(
            pk@,
            sighash_spec(tx@, prev_out_script@),
            sig@,
            SignMode::Transaction,
        )),
{
    let m = sighash(tx, prev_out_script);
    verify_xonly(pk, m.as_slice(), sig, SignMode::Transaction)
}

/// Nonce commitment pairs collected from the other signers, participants of a
/// group of `n`, for participant `index`. Each is checked for form on arrival.
pub struct SignParams2 {
    pub n: u16,
    pub index: u16,
    pub contributions: Contributions,
}

impl SignParams2 {
    /// Senders are other participants of the group, and each pair is two
    /// valid points.
    pub open spec fn wf(&self) -> bool {
        &&& self.contributions.wf()
        &&& self.contributions.senders_ok(self.n, self.index)
        &&& forall|i: int| 0 <= i < self.contributions.users().len() ==> pair_ok(#[trigger] self.contributions.data()[i])
    }

    pub fn new(n: u16, index: u16) -> (r: Self)
        ensures
            r.wf(),
            r.n == n,
            r.index == index,
            r.contributions.users().len() == 0,
    {
        SignParams2 { n, index, contributions: Contributions::new() }
    }

    /// Records the nonce commitment pair of signer `user`. A sender that is not
    /// another participant, a pair that is not 66 bytes of two valid points,
    /// and a second pair from one index are refused and change nothing.
    pub fn add_commitment_from_user(&mut self, user: u16, commitment: &[u8]) -> (r: Result<(), FrostError>)
        requires
            old(self).wf(),
        ensures
            final(self).wf(),
            final(self).n == old(self).n,
            final(self).index == old(self).index,
            !sender_in_range(user, old(self).n, old(self).index)
                ==> r == Err::<(), FrostError>(FrostError::IndexOutOfRange { user }),
            sender_in_range(user, old(self).n, old(self).index) && commitment@.len() != PAIR_LEN
                ==> r == Err::<(), FrostError>(FrostError::InvalidLength),
            sender_in_range(user, old(self).n, old(self).index) && commitment@.len() == PAIR_LEN && !pair_ok(commitment@)
                ==> r == Err::<(), FrostError>(FrostError::InvalidPoint),
            sender_in_range(user, old(self).n, old(self).index) && pair_ok(commitment@) && old(self).contributions.has(user)
                ==> r == Err::<(), FrostError>(FrostError::DuplicateIndex { user }),
            sender_in_range(user, old(self).n, old(self).index) && pair_ok(commitment@) && !old(self).contributions.has(user)
                ==> r.is_ok(),
            r.is_err() ==> final(self).contributions.users() == old(self).contributions.users()
                && final(self).contributions.data() == old(self).contributions.data(),
            r.is_ok() ==> final(self).contributions.users() == old(self).contributions.users().push(user)
                && final(self).contributions.data() == old(self).contributions.data().push(commitment@)
                && final(self).contributions.has(user),
    {
        if user == 0 || user > self.n || user == self.index {
            return Err(FrostError::IndexOutOfRange { user });
        }
        if commitment.len() != PAIR_LEN {
            return Err(FrostError::InvalidLength);
        }
        if read_valid_point(commitment, 0).is_err() || read_valid_point(commitment, 33).is_err() {
            return Err(FrostError::InvalidPoint);
        }
        let r = self.contributions.add(user, commitment);
        proof {
            old(self).contributions.lemma_lengths();
            self.contributions.lemma_lengths();
            if r.is_ok() {
                assert forall|i: int| 0 <= i < self.contributions.users().len() implies pair_ok(
                    #[trigger] self.contributions.data()[i],
                ) by {
                    if i < old(self).contributions.users().len() {
                        assert(self.contributions.data()[i] == old(self).contributions.data()[i]);
                    }
                }
                assert forall|i: int| 0 <= i < self.contributions.users().len() implies 1 <= #[trigger] self.contributions.users()[i] <= self.n
                    && self.contributions.users()[i] != self.index by {
                    if i < old(self).contributions.users().len() {
                        assert(self.contributions.users()[i] == old(self).contributions.users()[i]);
                    }
                }
            }
        }
        r
    }
}

/// Partial signatures collected from the other signers, participants of a
/// group of `n`, for participant `index`. Each is checked to be a canonical
/// scalar on arrival.
pub struct SignParams3 {
    pub n: u16,
    pub index: u16,
    pub contributions: Contributions,
}

impl SignParams3 {
    /// Senders are other participants of the group, and each partial
    /// signature is canonical.
    pub open spec fn wf(&self) -> bool {
        &&& self.contributions.wf()
        &&& self.contributions.senders_ok(self.n, self.index)
        &&& forall|i: int|
            0 <= i < self.contributions.users().len() ==> canonical_scalar_bytes(#[trigger] self.contributions.data()[i])
    }

    pub fn new(n: u16, index: u16) -> (r: Self)
        ensures
            r.wf(),
            r.n == n,
            r.index == index,
            r.contributions.users().len() == 0,
    {
        SignParams3 { n, index, contributions: Contributions::new() }
    }

    /// Records the partial signature of signer `user`. A sender that is not
    /// another participant, a value that is not a canonical 32-byte scalar,
    /// and a second one from one index are refused and change nothing.
    pub fn add_share_of_user(&mut self, user: u16, share: &[u8]) -> (r: Result<(), FrostError>)
        requires
            old(self).wf(),
        ensures
            final(self).wf(),
            final(self).n == old(self).n,
            final(self).index == old(self).index,
            !sender_in_range(user, old(self).n, old(self).index)
                ==> r == Err::<(), FrostError>(FrostError::IndexOutOfRange { user }),
            sender_in_range(user, old(self).n, old(self).index) && share@.len() != 32
                ==> r == Err::<(), FrostError>(FrostError::InvalidLength),
            sender_in_range(user, old(self).n, old(self).index) && share@.len() == 32 && be_nat(share@) >= group_order()
                ==> r == Err::<(), FrostError>(FrostError::NonCanonicalScalar),
            sender_in_range(user, old(self).n, old(self).index) && canonical_scalar_bytes(share@)
                && old(self).contributions.has(user) ==> r == Err::<(), FrostError>(FrostError::DuplicateIndex { user }),
            sender_in_range(user, old(self).n, old(self).index) && canonical_scalar_bytes(share@)
                && !old(self).contributions.has(user) ==> r.is_ok(),
            r.is_err() ==> final(self).contributions.users() == old(self).contributions.users()
                && final(self).contributions.data() == old(self).contributions.data(),
            r.is_ok() ==> final(self).contributions.users() == old(self).contributions.users().push(user)
                && final(self).contributions.data() == old(self).contributions.data().push(share@)
                && final(self).contributions.has(user),
    {
        if user == 0 || user > self.n || user == self.index {
            return Err(FrostError::IndexOutOfRange { user });
        }
        let r = self.contributions.add_scalar(user, share);
        proof {
            old(self).contributions.lemma_lengths();
            self.contributions.lemma_lengths();
            if r.is_ok() {
                assert forall|i: int| 0 <= i < self.contributions.users().len() implies canonical_scalar_bytes(
                    #[trigger] self.contributions.data()[i],
                ) by {
                    if i < old(self).contributions.users().len() {
                        assert(self.contributions.data()[i] == old(self).contributions.data()[i]);
                    }
                }
                assert forall|i: int| 0 <= i < self.contributions.users().len() implies 1 <= #[trigger] self.contributions.users()[i] <= self.n
                    && self.contributions.users()[i] != self.index by {
                    if i < old(self).contributions.users().len() {
                        assert(self.contributions.users()[i] == old(self).contributions.users()[i]);
                    }
                }
            }
        }
        r
    }
}

/// The bytes held, if any.
pub open spec fn bytes_option_view(o: Option<Vec<u8>>) -> Option<Seq<u8>> {
    match o {
        Some(v) => Some(v@),
        None => None,
    }
}

/// One signer's signing session.
pub struct SchnorrSignWrapper {
    threshold: u16,
    n: u16,
    index: u16,
    secret: Scalar,
    group_key: Point,
    /// The number of signers taking part.
    signers: u16,
    /// 0: created; 1: preprocessed; 2: partially signed.
    round: u8,
    /// The secret nonce pair, held only between preprocessing and signing.
    nonce: Option<(Scalar, Scalar)>,
    hiding: Point,
    binding: Point,
    /// Set by the partial signature: the signers in increasing order, the
    /// group commitment `R`, the challenge, one's own partial signature, and
    /// what the challenge bound.
    signer_set: Vec<u16>,
    group_commitment: Point,
    challenge: Scalar,
    own_share: Scalar,
    message: Vec<u8>,
    mode: SignMode,
    /// The message that preprocessing was bound to, if any.
    bound_message: Option<Vec<u8>>,
}

impl SchnorrSignWrapper {
    pub closed spec fn bound_message(&self) -> Option<Seq<u8>> {
        match self.bound_message {
            Some(v) => Some(v@),
            None => None,
        }
    }

    /// Partial signing of `raw` is allowed by the message bound at
    /// preprocessing: none was bound, or it is `raw`.
    pub open spec fn message_allowed(&self, raw: Seq<u8>) -> bool {
        match self.bound_message() {
            Some(b) => b == raw,
            None => true,
        }
    }

    pub closed spec fn threshold(&self) -> u16 {
        self.threshold
    }

    pub closed spec fn n(&self) -> u16 {
        self.n
    }

    pub closed spec fn index(&self) -> u16 {
        self.index
    }

    pub closed spec fn secret(&self) -> Scalar {
        self.secret
    }

    pub closed spec fn group_key(&self) -> Point {
        self.group_key
    }

    pub closed spec fn signers(&self) -> u16 {
        self.signers
    }

    pub closed spec fn round(&self) -> u8 {
        self.round
    }

    pub closed spec fn nonce(&self) -> Option<(Scalar, Scalar)> {
        self.nonce
    }

    /// One's own nonce commitment pair as broadcast.
    pub closed spec fn own_pair(&self) -> Seq<u8> {
        self.hiding.bytes@ + self.binding.bytes@
    }

    pub closed spec fn signer_set(&self) -> Seq<u16> {
        self.signer_set@
    }

    pub closed spec fn group_commitment(&self) -> Point {
        self.group_commitment
    }

    pub closed spec fn challenge(&self) -> Scalar {
        self.challenge
    }

    pub closed spec fn own_share(&self) -> Scalar {
        self.own_share
    }

    pub closed spec fn message(&self) -> Seq<u8> {
        self.message@
    }

    pub closed spec fn mode(&self) -> SignMode {
        self.mode
    }

    pub closed spec fn wf(&self) -> bool {
        &&& 1 <= self.threshold <= self.signers <= self.n
        &&& 1 <= self.index <= self.n
        &&& self.secret.wf()
        &&& self.group_key.valid()
        &&& self.round <= 2
        &&& self.round != 1 ==> self.nonce.is_none()
        &&& self.round == 1 ==> {
            &&& self.nonce.is_some()
            &&& self.nonce.unwrap().0.wf()
            &&& self.nonce.unwrap().1.wf()
            &&& self.hiding.bytes@ == base_mul_of(self.nonce.unwrap().0.value())
            &&& self.binding.bytes@ == base_mul_of(self.nonce.unwrap().1.value())
        }
        &&& self.round >= 1 ==> self.hiding.decodes() && self.binding.decodes()
        &&& self.round == 2 ==> {
            &&& self.group_commitment.decodes()
            &&& self.challenge.wf()
            &&& self.own_share.wf()
            &&& self.signer_set@.len() == self.signers
            &&& self.group_commitment.valid()
            &&& self.challenge.value() == challenge_spec(
                self.mode,
                x_only(self.group_commitment.bytes@),
                x_only(self.group_key.bytes@),
                self.message@,
            )
        }
    }

    /// Starts a signing session with `key` among `threshold` signers; fewer
    /// signers than the key's threshold, or more than its group, are refused.
    pub fn new_instance_for_signing(key: &SchnorrKeyWrapper, threshold: u32) -> (r: Result<Self, FrostError>)
        requires
            key.wf(),
        ensures
            r.is_err() <==> (threshold < key.threshold() || threshold > key.n()),
            r.is_err() ==> r == Err::<Self, FrostError>(FrostError::InsufficientSigners),
            r.is_ok() ==> {
                let w = r.unwrap();
                &&& w.wf()
                &&& w.round() == 0
                &&& w.signers() == threshold
                &&& w.threshold() == key.threshold()
                &&& w.n() == key.n()
                &&& w.index() == key.index()
                &&& w.secret() == key.secret()
                &&& w.group_key() == key.group_key()
            },
    {
        let t = key.get_threshold();
        let n = key.get_n();
        if threshold < t as u32 || threshold > n as u32 {
            return Err(FrostError::InsufficientSigners);
        }
        proof {
            key.lemma_wf();
        }
        // Filled in by the later rounds.
        let identity = Point { bytes: [0u8; 33] };
        let zero = crate::group::scalar_from_u16(0);
        Ok(SchnorrSignWrapper {
            threshold: t,
            n,
            index: key.get_index(),
            secret: key.secret_share(),
            group_key: key.group_point(),
            signers: threshold as u16,
            round: 0,
            nonce: None,
            hiding: identity,
            binding: identity,
            signer_set: Vec::new(),
            group_commitment: identity,
            challenge: zero,
            own_share: zero,
            message: Vec::new(),
            mode: SignMode::Normal,
            bound_message: None,
        })
    }

    /// Preprocessing: draws a fresh secret nonce pair `(d, e)`, non-zero, and
    /// returns the commitments `D = d * G`, `E = e * G` to broadcast. No message
    /// is bound: partial signing may then sign any message.
    pub fn sign_1_preprocess(self) -> (r: Result<SignResult1, FrostError>)
        requires
            self.wf(),
        ensures
            self.round() != 0 ==> r == Err::<SignResult1, FrostError>(FrostError::SessionConsumed),
            self.round() == 0 ==> r.is_ok() || r == Err::<SignResult1, FrostError>(FrostError::RandomnessFailure),
            r.is_ok() ==> self.preprocessed(r.unwrap()) && r.unwrap().wrapper.bound_message() == None::<Seq<u8>>,
    {
        self.draw_and_preprocess(None)
    }

    /// Preprocessing bound to `msg`: as `sign_1_preprocess`, and partial
    /// signing of any other message is then refused.
    pub fn sign_1_preprocess_for_message(self, msg: &[u8]) -> (r: Result<SignResult1, FrostError>)
        requires
            self.wf(),
        ensures
            self.round() != 0 ==> r == Err::<SignResult1, FrostError>(FrostError::SessionConsumed),
            self.round() == 0 ==> r.is_ok() || r == Err::<SignResult1, FrostError>(FrostError::RandomnessFailure),
            r.is_ok() ==> self.preprocessed(r.unwrap()) && r.unwrap().wrapper.bound_message() == Some(msg@),
    {
        let mut v: Vec<u8> = Vec::new();
        v.extend_from_slice(msg);
        assert(v@ =~= msg@);
        self.draw_and_preprocess(Some(v))
    }

    /// `out` is this session preprocessed: the same key and signers, a
    /// non-zero nonce pair, and its commitments `D || E` as the 66-byte broadcast.
    pub open spec fn preprocessed(&self, out: SignResult1) -> bool {
        let w = out.wrapper;
        &&& w.wf()
        &&& w.round() == 1
        &&& w.signers() == self.signers()
        &&& w.threshold() == self.threshold()
        &&& w.n() == self.n()
        &&& w.index() == self.index()
        &&& w.secret() == self.secret()
        &&& w.group_key() == self.group_key()
        &&& w.nonce().unwrap().0.value() != 0
        &&& w.nonce().unwrap().1.value() != 0
        &&& out.preprocess@ == w.own_pair()
        &&& out.preprocess@.len() == PAIR_LEN
        &&& out.preprocess@.subrange(0, 33) == base_mul_of(w.nonce().unwrap().0.value())
        &&& out.preprocess@.subrange(33, 66) == base_mul_of(w.nonce().unwrap().1.value())
        &&& pair_ok(out.preprocess@)
    }

    fn draw_and_preprocess(self, bound: Option<Vec<u8>>) -> (r: Result<SignResult1, FrostError>)
        requires
            self.wf(),
        ensures
            self.round() != 0 ==> r == Err::<SignResult1, FrostError>(FrostError::SessionConsumed),
            self.round() == 0 ==> r.is_ok() || r == Err::<SignResult1, FrostError>(FrostError::RandomnessFailure),
            r.is_ok() ==> self.preprocessed(r.unwrap()) && r.unwrap().wrapper.bound_message() == bytes_option_view(bound),
    {
        if self.round != 0 {
            return Err(FrostError::SessionConsumed);
        }
        let d = match random_nonzero() {
            Some(d) => d,
            None => {
                return Err(FrostError::RandomnessFailure);
            },
        };
        let e = match random_nonzero() {
            Some(e) => e,
            None => {
                return Err(FrostError::RandomnessFailure);
            },
        };
        self.preprocess_with(d, e, bound)
    }

    /// Preprocessing with the secret nonce pair `(d, e)` given: returns the
    /// commitments `D = d * G`, `E = e * G` to broadcast, and binds `bound`,
    /// if any, as the only message that partial signing will accept.
    pub fn preprocess_with(self, d: Scalar, e: Scalar, bound: Option<Vec<u8>>) -> (r: Result<SignResult1, FrostError>)
        requires
            self.wf(),
            d.wf(),
            e.wf(),
            d.value() != 0,
            e.value() != 0,
        ensures
            self.round() != 0 ==> r == Err::<SignResult1, FrostError>(FrostError::SessionConsumed),
            self.round() == 0 ==> r.is_ok(),
            r.is_ok() ==> self.preprocessed(r.unwrap()) && r.unwrap().wrapper.nonce() == Some((d, e))
                && r.unwrap().wrapper.bound_message() == bytes_option_view(bound),
    {
        if self.round != 0 {
            return Err(FrostError::SessionConsumed);
        }
        let hiding = base_mul(&d);
        let binding = base_mul(&e);
        let mut preprocess: Vec<u8> = Vec::new();
        push_point(&mut preprocess, &hiding);
        push_point(&mut preprocess, &binding);
        assert(preprocess@ =~= hiding.bytes@ + binding.bytes@);
        assert(preprocess@.subrange(0, 33) =~= hiding.bytes@);
        assert(preprocess@.subrange(33, 66) =~= binding.bytes@);
        let wrapper = SchnorrSignWrapper {
            round: 1,
            nonce: Some((d, e)),
            hiding,
            binding,
            bound_message: bound,
            ..self
        };
        Ok(SignResult1 { wrapper, preprocess })
    }
}

/// The outcome of preprocessing: the advanced session and the commitment
/// pair to broadcast.
pub struct SignResult1 {
    pub wrapper: SchnorrSignWrapper,
    pub preprocess: Vec<u8>,
}

impl SignResult1 {
    pub fn get_preprocess(&self) -> (r: Vec<u8>)
        ensures
            r@ == self.preprocess@,
    {
        let mut v: Vec<u8> = Vec::new();
        v.extend_from_slice(self.preprocess.as_slice());
        assert(v@ =~= self.preprocess@);
        v
    }

    pub fn get_wrapper(self) -> (r: SchnorrSignWrapper)
        ensures
            r == self.wrapper,
    {
        self.wrapper
    }
}


/// A broadcast nonce commitment pair: two points of the group other than the identity.
pub open spec fn pair_ok(b: Seq<u8>) -> bool {
    &&& b.len() == PAIR_LEN
    &&& valid_point_bytes(b.subrange(0, 33))
    &&& valid_point_bytes(b.subrange(33, 66))
}

/// `v`, negated where `neg` holds.
pub open spec fn signed(neg: bool, v: int) -> int {
    if neg {
        -v
    } else {
        v
    }
}

/// A signer's partial signature `(±(d + e * rho) ± lambda * x * c) mod q`: the
/// nonce part is negated where `R` has odd y, the key part where the group key
/// has odd y, so that the sum verifies against the even-y points of their x
/// coordinates.
pub open spec fn partial_spec(d: nat, e: nat, rho: nat, lambda: nat, x: nat, c: nat, r_odd: bool, pk_odd: bool) -> nat {
    ((signed(r_odd, (d + e * rho) as int) + signed(pk_odd, (lambda * x * c) as int)) % (group_order() as int)) as nat
}

/// The outcome of partial signing: the advanced session and the partial
/// signature to send to the aggregator.
pub struct SignResult2 {
    pub wrapper: SchnorrSignWrapper,
    pub share: Vec<u8>,
}

impl SignResult2 {
    pub fn get_share(&self) -> (r: Vec<u8>)
        ensures
            r@ == self.share@,
    {
        let mut v: Vec<u8> = Vec::new();
        v.extend_from_slice(self.share.as_slice());
        assert(v@ =~= self.share@);
        v
    }

    pub fn get_wrapper(self) -> (r: SchnorrSignWrapper)
        ensures
            r == self.wrapper,
    {
        self.wrapper
    }
}

impl SchnorrSignWrapper {
    /// Signer `k`'s nonce commitment pair: one's own, or the one collected.
    pub open spec fn pair_of(&self, p: Contributions, k: u16) -> Seq<u8> {
        if k == self.index() {
            self.own_pair()
        } else {
            p.entry(k)
        }
    }

    /// The signers among `1..=upto`, in increasing order: oneself and every sender.
    pub open spec fn members(&self, p: Contributions, upto: nat) -> Seq<u16>
        decreases upto,
    {
        if upto == 0 {
            Seq::empty()
        } else {
            let rest = self.members(p, (upto - 1) as nat);
            if upto == self.index() || p.has(upto as u16) {
                rest.push(upto as u16)
            } else {
                rest
            }
        }
    }

    /// The list of signers and their commitment pairs that binding factors hash.
    pub open spec fn encoded_list(&self, p: Contributions, s: Seq<u16>) -> Seq<u8>
        decreases s.len(),
    {
        if s.len() == 0 {
            Seq::empty()
        } else {
            self.encoded_list(p, s.drop_last()) + be16(s.last()) + self.pair_of(p, s.last())
        }
    }

    /// Signer `k`'s binding factor for message `m`.
    pub open spec fn binding_factor(&self, p: Contributions, k: u16, m: Seq<u8>) -> nat {
        hash_to_scalar_spec(
            binding_tag(),
            be16(k) + m + self.encoded_list(p, self.members(p, self.n() as nat)),
        )
    }

    /// Signer `k`'s share of the group commitment: `D_k + rho_k * E_k`.
    pub open spec fn signer_commitment(&self, p: Contributions, k: u16, m: Seq<u8>) -> Seq<u8> {
        let pair = self.pair_of(p, k);
        point_add_of(
            pair.subrange(0, 33),
            point_mul_of(pair.subrange(33, 66), self.binding_factor(p, k, m)),
        )
    }

    /// The signers' shares of the group commitment, in index order.
    pub open spec fn signer_commitments(&self, p: Contributions, m: Seq<u8>) -> Seq<Seq<u8>> {
        let s = self.members(p, self.n() as nat);
        Seq::new(s.len(), |j: int| self.signer_commitment(p, s[j], m))
    }

    /// The group commitment `R`: the signers' shares of it summed in index order.
    pub open spec fn group_commitment_spec(&self, p: Contributions, m: Seq<u8>) -> Seq<u8> {
        point_sum(self.signer_commitments(p, m))
    }

    /// What partial signing needs: the session is preprocessed, and exactly
    /// the other signers sent well-formed commitment pairs.
    pub open spec fn sign_accepts(&self, p: Contributions) -> bool {
        &&& self.round() == 1
        &&& p.users().len() == self.signers() - 1
        &&& forall|i: int|
            0 <= i < p.users().len() ==> 1 <= #[trigger] p.users()[i] <= self.n() && p.users()[i] != self.index()
        &&& forall|i: int| 0 <= i < p.users().len() ==> pair_ok(#[trigger] p.data()[i])
        &&& self.members(p, self.n() as nat).len() == self.signers()
    }
}


impl SchnorrSignWrapper {
    /// Checks each collected pair: sender index in range and not one's own,
    /// two valid points.
    fn check_pairs(&self, p: &Contributions) -> (r: Result<(), FrostError>)
        requires
            self.wf(),
            p.wf(),
        ensures
            r.is_ok() <==> (forall|i: int|
                0 <= i < p.users().len() ==> 1 <= #[trigger] p.users()[i] <= self.n() && p.users()[i] != self.index())
                && (forall|i: int| 0 <= i < p.users().len() ==> pair_ok(#[trigger] p.data()[i])),
    {
        let len = p.len();
        let mut i: usize = 0;
        while i < len
            invariant
                len == p.users().len(),
                p.wf(),
                i <= len,
                forall|j: int| 0 <= j < i ==> 1 <= #[trigger] p.users()[j] <= self.n && p.users()[j] != self.index,
                forall|j: int| 0 <= j < i ==> pair_ok(#[trigger] p.data()[j]),
            decreases len - i,
        {
            let user = p.user_at(i);
            if user == 0 || user > self.n || user == self.index {
                return Err(FrostError::IndexOutOfRange { user });
            }
            let b = p.bytes_at(i);
            if b.len() != PAIR_LEN {
                assert(!pair_ok(p.data()[i as int]));
                return Err(FrostError::InvalidLength);
            }
            let h = read_valid_point(b.as_slice(), 0);
            let e = read_valid_point(b.as_slice(), 33);
            if h.is_err() || e.is_err() {
                assert(!pair_ok(p.data()[i as int]));
                return Err(FrostError::InvalidPoint);
            }
            i = i + 1;
        }
        Ok(())
    }
}


impl SchnorrSignWrapper {
    /// The signers in increasing order, with their commitment pairs decoded.
    fn collect_members(&self, p: &Contributions) -> (r: (Vec<u16>, Vec<Point>, Vec<Point>))
        requires
            self.wf(),
            self.round() == 1,
            p.wf(),
            forall|i: int| 0 <= i < p.users().len() ==> pair_ok(#[trigger] p.data()[i]),
        ensures
            r.0@ == self.members(*p, self.n() as nat),
            r.1@.len() == r.0@.len(),
            r.2@.len() == r.0@.len(),
            forall|j: int| 0 <= j < r.0@.len() ==> (#[trigger] r.1@[j]).bytes@ == self.pair_of(*p, r.0@[j]).subrange(0, 33)
                && r.1@[j].decodes(),
            forall|j: int| 0 <= j < r.0@.len() ==> (#[trigger] r.2@[j]).bytes@ == self.pair_of(*p, r.0@[j]).subrange(33, 66)
                && r.2@[j].decodes(),
            forall|j: int| 0 <= j < r.0@.len() ==> 1 <= #[trigger] r.0@[j] <= self.n(),
            forall|j: int| 0 <= j < r.0@.len() ==> (#[trigger] self.pair_of(*p, r.0@[j])).len() == PAIR_LEN,
    {
        let n = self.n as usize;
        let mut s: Vec<u16> = Vec::new();
        let mut hs: Vec<Point> = Vec::new();
        let mut bs: Vec<Point> = Vec::new();
        let mut pos: usize = 0;
        proof {
            assert(self.own_pair().subrange(0, 33) =~= self.hiding.bytes@);
            assert(self.own_pair().subrange(33, 66) =~= self.binding.bytes@);
        }
        while pos < n
            invariant
                n == self.n as usize,
                self.wf(),
                self.round == 1,
                p.wf(),
                forall|i: int| 0 <= i < p.users().len() ==> pair_ok(#[trigger] p.data()[i]),
                self.own_pair().subrange(0, 33) == self.hiding.bytes@,
                self.own_pair().subrange(33, 66) == self.binding.bytes@,
                pos <= n,
                s@ == self.members(*p, pos as nat),
                hs@.len() == s@.len(),
                bs@.len() == s@.len(),
                forall|j: int| 0 <= j < s@.len() ==> (#[trigger] hs@[j]).bytes@ == self.pair_of(*p, s@[j]).subrange(0, 33)
                    && hs@[j].decodes(),
                forall|j: int| 0 <= j < s@.len() ==> (#[trigger] bs@[j]).bytes@ == self.pair_of(*p, s@[j]).subrange(33, 66)
                    && bs@[j].decodes(),
                forall|j: int| 0 <= j < s@.len() ==> 1 <= #[trigger] s@[j] <= pos,
                forall|j: int| 0 <= j < s@.len() ==> (#[trigger] self.pair_of(*p, s@[j])).len() == PAIR_LEN,
            decreases n - pos,
        {
            let k = (pos + 1) as u16;
            if k == self.index {
                s.push(k);
                hs.push(self.hiding);
                bs.push(self.binding);
            } else {
                match p.find(k) {
                    None => {},
                    Some(i) => {
                        let b = p.bytes_at(i);
                        assert(pair_ok(p.data()[i as int]));
                        let h = read_valid_point(b.as_slice(), 0);
                        let e = read_valid_point(b.as_slice(), 33);
                        match (h, e) {
                            (Ok(h), Ok(e)) => {
                                s.push(k);
                                hs.push(h);
                                bs.push(e);
                            },
                            _ => {
                                assert(false);
                            },
                        }
                    },
                }
            }
            pos = pos + 1;
        }
        (s, hs, bs)
    }

    /// Encodes the signers and their pairs as the binding factors hash them.
    fn encode_list(&self, p: &Contributions, s: &Vec<u16>, hs: &Vec<Point>, bs: &Vec<Point>) -> (r: Vec<u8>)
        requires
            hs@.len() == s@.len(),
            bs@.len() == s@.len(),
            forall|j: int| 0 <= j < s@.len() ==> (#[trigger] hs@[j]).bytes@ == self.pair_of(*p, s@[j]).subrange(0, 33),
            forall|j: int| 0 <= j < s@.len() ==> (#[trigger] bs@[j]).bytes@ == self.pair_of(*p, s@[j]).subrange(33, 66),
            forall|j: int| 0 <= j < s@.len() ==> (#[trigger] self.pair_of(*p, s@[j])).len() == PAIR_LEN,
        ensures
            r@ == self.encoded_list(*p, s@),
    {
        let mut v: Vec<u8> = Vec::new();
        let mut j: usize = 0;
        assert(s@.subrange(0, 0) =~= Seq::<u16>::empty());
        while j < s.len()
            invariant
                j <= s@.len(),
                hs@.len() == s@.len(),
                bs@.len() == s@.len(),
                forall|i: int| 0 <= i < s@.len() ==> (#[trigger] hs@[i]).bytes@ == self.pair_of(*p, s@[i]).subrange(0, 33),
                forall|i: int| 0 <= i < s@.len() ==> (#[trigger] bs@[i]).bytes@ == self.pair_of(*p, s@[i]).subrange(33, 66),
                forall|i: int| 0 <= i < s@.len() ==> (#[trigger] self.pair_of(*p, s@[i])).len() == PAIR_LEN,
                v@ == self.encoded_list(*p, s@.subrange(0, j as int)),
            decreases s@.len() - j,
        {
            let ghost before = v@;
            push_u16(&mut v, s[j]);
            push_point(&mut v, &hs[j]);
            push_point(&mut v, &bs[j]);
            proof {
                let pair = self.pair_of(*p, s@[j as int]);
                assert(pair =~= pair.subrange(0, 33) + pair.subrange(33, 66));
                let cur = s@.subrange(0, j + 1);
                assert(cur.drop_last() =~= s@.subrange(0, j as int));
                assert(v@ =~= before + be16(s@[j as int]) + pair);
            }
            j = j + 1;
        }
        assert(s@.subrange(0, s@.len() as int) =~= s@);
        v
    }
}


proof fn lemma_partial(
    d: nat,
    e: nat,
    rho: nat,
    lambda: nat,
    x: nat,
    c: nat,
    r_odd: bool,
    pk_odd: bool,
    t2: nat,
    k: nat,
    xs: nat,
    t4: nat,
    z: nat,
)
    requires
        d < group_order(),
        x < group_order(),
        t2 == (d + (e * rho) % group_order()) % group_order(),
        k == (if r_odd { crate::group::sub_mod(0, t2) } else { t2 }),
        xs == (if pk_odd { crate::group::sub_mod(0, x) } else { x }),
        t4 == ((lambda * xs) % group_order() * c) % group_order(),
        z == (k + t4) % group_order(),
    ensures
        z == partial_spec(d, e, rho, lambda, x, c, r_odd, pk_odd),
{
    let q = group_order() as int;
    let a = (d + e * rho) as int;
    let sx = signed(pk_odd, x as int);
    vstd::arithmetic::div_mod::lemma_add_mod_noop_right(d as int, (e * rho) as int, q);
    assert(t2 == a % q);
    if r_odd {
        vstd::arithmetic::div_mod::lemma_sub_mod_noop(0, a, q);
        vstd::arithmetic::div_mod::lemma_small_mod(0, q as nat);
    }
    assert(k == signed(r_odd, a) % q);
    if !pk_odd {
        vstd::arithmetic::div_mod::lemma_small_mod(x, q as nat);
    }
    assert(xs == sx % q);
    vstd::arithmetic::div_mod::lemma_mul_mod_noop_right(lambda as int, sx, q);
    vstd::arithmetic::div_mod::lemma_mul_mod_noop_left((lambda * xs) as int, c as int, q);
    vstd::arithmetic::div_mod::lemma_mul_mod_noop_left(lambda as int * sx, c as int, q);
    assert(t4 == (lambda as int * sx * c) % q);
    assert(lambda as int * sx * c == signed(pk_odd, (lambda * x * c) as int)) by (nonlinear_arith)
        requires
            sx == signed(pk_odd, x as int),
    ;
    vstd::arithmetic::div_mod::lemma_add_mod_noop(signed(r_odd, a), signed(pk_odd, (lambda * x * c) as int), q);
}

/// `±(d + e * rho) ± lambda * x * c`, computed as `partial_spec` states.
fn combine(d: &Scalar, e: &Scalar, rho: &Scalar, lambda: &Scalar, x: &Scalar, c: &Scalar, r_odd: bool, pk_odd: bool) -> (z: Scalar)
    requires
        d.wf(),
        e.wf(),
        rho.wf(),
        lambda.wf(),
        x.wf(),
        c.wf(),
    ensures
        z.value() == partial_spec(d.value(), e.value(), rho.value(), lambda.value(), x.value(), c.value(), r_odd, pk_odd),
        z.wf(),
{
    let zero = crate::group::scalar_from_u16(0);
    let t1 = scalar_mul(e, rho);
    let t2 = scalar_add(d, &t1);
    let k = if r_odd { scalar_sub(&zero, &t2) } else { t2 };
    let xs = if pk_odd { scalar_sub(&zero, x) } else { *x };
    let t3 = scalar_mul(lambda, &xs);
    let t4 = scalar_mul(&t3, c);
    let z = scalar_add(&k, &t4);
    proof {
        lemma_partial(
            d.value(), e.value(), rho.value(), lambda.value(), x.value(), c.value(), r_odd, pk_odd,
            t2.value(), k.value(), xs.value(), t4.value(), z.value(),
        );
    }
    z
}

impl SchnorrSignWrapper {
    /// The binding factor of signer `k`, computed.
    fn binding_factor_exec(k: u16, m: &[u8], list: &[u8]) -> (r: Scalar)
        ensures
            r.value() == hash_to_scalar_spec(binding_tag(), be16(k) + m@ + list@),
            r.wf(),
    {
        let mut buf: Vec<u8> = Vec::new();
        push_u16(&mut buf, k);
        buf.extend_from_slice(m);
        buf.extend_from_slice(list);
        assert(buf@ =~= be16(k) + m@ + list@);
        hash_to_scalar(binding_tag_bytes(), buf.as_slice())
    }

    /// The pairs were collected for this session's group and index.
    pub open spec fn params2_match(&self, p: &SignParams2) -> bool {
        p.n == self.n() && p.index == self.index()
    }

    /// The partial signatures were collected for this session's group and index.
    pub open spec fn params3_match(&self, p: &SignParams3) -> bool {
        p.n == self.n() && p.index == self.index()
    }

    /// The group commitment computed from `p` for `m` is a point other than
    /// the identity, so that it has an x coordinate.
    pub open spec fn commitment_usable(&self, p: Contributions, m: Seq<u8>) -> bool {
        let r = self.group_commitment_spec(p, m);
        r[0] == 2 || r[0] == 3
    }

    /// `out` is this session after partially signing the message `raw` in
    /// `mode` with the other signers' pairs `p`, the challenge binding `m`
    /// (`raw` itself, or its transaction digest): the same key and signers, no
    /// nonce left, the group commitment `R` from binding factors over `raw`,
    /// the challenge over `m` and the x coordinates of `R` and of the group
    /// key, and one's own partial signature.
    pub open spec fn partially_signed(&self, out: SignResult2, p: Contributions, raw: Seq<u8>, m: Seq<u8>, mode: SignMode) -> bool {
        let w = out.wrapper;
        let s = self.members(p, self.n() as nat);
        let r = self.group_commitment_spec(p, raw);
        let pk = self.group_key().bytes@;
        &&& w.wf()
        &&& w.round() == 2
        &&& w.nonce().is_none()
        &&& w.threshold() == self.threshold()
        &&& w.n() == self.n()
        &&& w.index() == self.index()
        &&& w.secret() == self.secret()
        &&& w.group_key() == self.group_key()
        &&& w.signers() == self.signers()
        &&& w.signer_set() == s
        &&& w.group_commitment().bytes@ == r
        &&& w.message() == m
        &&& w.mode() == mode
        &&& w.challenge().value() == challenge_spec(mode, x_only(r), x_only(pk), m)
        &&& w.own_share().value() == partial_spec(
            self.nonce().unwrap().0.value(),
            self.nonce().unwrap().1.value(),
            self.binding_factor(p, self.index(), raw),
            lagrange_spec(self.index() as nat, crate::poly::nat_indices(s)),
            self.secret().value(),
            w.challenge().value(),
            r[0] == 3,
            pk[0] == 3,
        )
        &&& out.share@ == w.own_share().bytes@
    }

    /// Partial signing, in either mode: computes the binding factors, the
    /// group commitment `R`, the challenge, and one's own partial signature,
    /// consuming the secret nonce pair. `m` is what the challenge binds and
    /// `raw` what is compared with a message bound at preprocessing.
    fn sign_2(self, params: SignParams2, m: Vec<u8>, raw: &[u8], mode: SignMode) -> (r: Result<SignResult2, FrostError>)
        requires
            self.wf(),
            params.wf(),
        ensures
            r.is_ok() <==> self.params2_match(&params) && self.sign_accepts(params.contributions)
                && self.message_allowed(raw@) && self.commitment_usable(params.contributions, raw@),
            self.round() != 1 ==> r == Err::<SignResult2, FrostError>(FrostError::SessionConsumed),
            self.round() == 1 && self.params2_match(&params) && !self.message_allowed(raw@)
                ==> r == Err::<SignResult2, FrostError>(FrostError::MessageMismatch),
            self.round() == 1 && !self.params2_match(&params)
                ==> r == Err::<SignResult2, FrostError>(FrostError::InvalidParameters),
            self.round() == 1 && self.params2_match(&params) && self.message_allowed(raw@)
                && params.contributions.users().len() != self.signers() - 1
                ==> r == Err::<SignResult2, FrostError>(FrostError::WrongParticipantCount),
            r.is_ok() ==> self.partially_signed(r.unwrap(), params.contributions, raw@, m@, mode),
    {
        if self.round != 1 {
            return Err(FrostError::SessionConsumed);
        }
        if params.n != self.n || params.index != self.index {
            return Err(FrostError::InvalidParameters);
        }
        match &self.bound_message {
            Some(b) => {
                if !bytes_eq(b.as_slice(), raw) {
                    return Err(FrostError::MessageMismatch);
                }
            },
            None => {},
        }
        if params.contributions.len() != (self.signers - 1) as usize {
            return Err(FrostError::WrongParticipantCount);
        }
        let p = &params.contributions;
        match self.check_pairs(p) {
            Err(e) => {
                return Err(e);
            },
            Ok(()) => {},
        }
        let (s, hs, bs) = self.collect_members(p);
        if s.len() != self.signers as usize {
            return Err(FrostError::WrongParticipantCount);
        }
        let list = self.encode_list(p, &s, &hs, &bs);
        let ghost cs = self.signer_commitments(*p, raw@);
        let ghost sm = self.members(*p, self.n as nat);
        let mut rpt = hs[0];
        let mut j: usize = 0;
        while j < s.len()
            invariant
                self.wf(),
                self.round == 1,
                s@ == sm,
                sm == self.members(*p, self.n as nat),
                cs == self.signer_commitments(*p, raw@),
                cs.len() == s@.len(),
                list@ == self.encoded_list(*p, sm),
                hs@.len() == s@.len(),
                bs@.len() == s@.len(),
                s@.len() >= 1,
                forall|i: int| 0 <= i < s@.len() ==> (#[trigger] hs@[i]).bytes@ == self.pair_of(*p, s@[i]).subrange(0, 33)
                    && hs@[i].decodes(),
                forall|i: int| 0 <= i < s@.len() ==> (#[trigger] bs@[i]).bytes@ == self.pair_of(*p, s@[i]).subrange(33, 66)
                    && bs@[i].decodes(),
                j <= s@.len(),
                rpt.decodes(),
                j >= 1 ==> rpt.bytes@ == point_sum(cs.subrange(0, j as int)),
            decreases s@.len() - j,
        {
            let k = s[j];
            let rho = Self::binding_factor_exec(k, raw, list.as_slice());
            let re = point_mul(&bs[j], &rho);
            let cj = point_add(&hs[j], &re);
            assert(cj.bytes@ == cs[j as int]);
            if j == 0 {
                rpt = cj;
            } else {
                rpt = point_add(&rpt, &cj);
            }
            j = j + 1;
            proof {
                let cur = cs.subrange(0, j as int);
                assert(cur.drop_last() =~= cs.subrange(0, j - 1));
                if j == 1 {
                    assert(point_sum(cur) == cur[0]);
                }
            }
        }
        assert(cs.subrange(0, cs.len() as int) =~= cs);
        if !has_compressed_tag(&rpt) {
            return Err(FrostError::InvalidPoint);
        }
        let own_rho = Self::binding_factor_exec(self.index, raw, list.as_slice());
        let rx = x_only_vec(&rpt);
        let px = x_only_vec(&self.group_key);
        let c = challenge(mode, rx.as_slice(), px.as_slice(), m.as_slice());
        let lambda = lagrange_coefficient(self.index, &s);
        let (d, e) = match self.nonce {
            Some(pair) => pair,
            None => {
                return Err(FrostError::SessionConsumed);
            },
        };
        let z = combine(&d, &e, &own_rho, &lambda, &self.secret, &c, rpt.bytes[0] == 3, self.group_key.bytes[0] == 3);
        let share = scalar_to_vec(&z);
        let wrapper = SchnorrSignWrapper {
            round: 2,
            nonce: None,
            signer_set: s,
            group_commitment: rpt,
            challenge: c,
            own_share: z,
            message: m,
            mode,
            ..self
        };
        Ok(SignResult2 { wrapper, share })
    }

    /// Partial signing of `msg` in the normal mode.
    pub fn sign_2_sign_normal(self, params: SignParams2, msg: &[u8]) -> (r: Result<SignResult2, FrostError>)
        requires
            self.wf(),
            params.wf(),
        ensures
            r.is_ok() <==> self.params2_match(&params) && self.sign_accepts(params.contributions)
                && self.message_allowed(msg@) && self.commitment_usable(params.contributions, msg@),
            self.round() != 1 ==> r == Err::<SignResult2, FrostError>(FrostError::SessionConsumed),
            self.round() == 1 && !self.params2_match(&params)
                ==> r == Err::<SignResult2, FrostError>(FrostError::InvalidParameters),
            self.round() == 1 && self.params2_match(&params) && !self.message_allowed(msg@)
                ==> r == Err::<SignResult2, FrostError>(FrostError::MessageMismatch),
            self.round() == 1 && self.params2_match(&params) && self.message_allowed(msg@)
                && params.contributions.users().len() != self.signers() - 1
                ==> r == Err::<SignResult2, FrostError>(FrostError::WrongParticipantCount),
            r.is_ok() ==> self.partially_signed(r.unwrap(), params.contributions, msg@, msg@, SignMode::Normal),
    {
        let mut m: Vec<u8> = Vec::new();
        m.extend_from_slice(msg);
        assert(m@ =~= msg@);
        self.sign_2(params, m, msg, SignMode::Normal)
    }

    /// Partial signing in the transaction mode. Binding factors and `R` are as
    /// in the normal mode, over the transaction bytes `msg`; only the challenge
    /// differs: it binds the digest of `msg` and the spent output's script,
    /// under the BIP-340 challenge tag. A message bound at preprocessing is
    /// compared with `msg`.
    pub fn sign_2_sign_bitcoin(self, params: SignParams2, msg: &[u8], prev_out_script: &[u8]) -> (r: Result<SignResult2, FrostError>)
        requires
            self.wf(),
            params.wf(),
        ensures
            r.is_ok() <==> self.params2_match(&params) && self.sign_accepts(params.contributions)
                && self.message_allowed(msg@) && self.commitment_usable(params.contributions, msg@),
            self.round() != 1 ==> r == Err::<SignResult2, FrostError>(FrostError::SessionConsumed),
            self.round() == 1 && !self.params2_match(&params)
                ==> r == Err::<SignResult2, FrostError>(FrostError::InvalidParameters),
            self.round() == 1 && self.params2_match(&params) && !self.message_allowed(msg@)
                ==> r == Err::<SignResult2, FrostError>(FrostError::MessageMismatch),
            self.round() == 1 && self.params2_match(&params) && self.message_allowed(msg@)
                && params.contributions.users().len() != self.signers() - 1
                ==> r == Err::<SignResult2, FrostError>(FrostError::WrongParticipantCount),
            r.is_ok() ==> self.partially_signed(
                r.unwrap(),
                params.contributions,
                msg@,
                sighash_spec(msg@, prev_out_script@),
                SignMode::Transaction,
            ),
    {
        let m = sighash(msg, prev_out_script);
        self.sign_2(params, m, msg, SignMode::Transaction)
    }
}

impl SchnorrSignWrapper {
    /// The partial signatures summed into `s`, in the order of the signer set:
    /// one's own, and the one collected from each other signer.
    pub open spec fn partial_values(&self, p: Contributions) -> Seq<nat> {
        let s = self.signer_set();
        Seq::new(
            s.len(),
            |j: int|
                if s[j] == self.index() {
                    self.own_share().value()
                } else {
                    be_nat(p.entry(s[j]))
                },
        )
    }

    /// What aggregation needs: the session has signed, and every other signer
    /// of the set sent a canonical partial signature.
    pub open spec fn aggregate_accepts(&self, p: Contributions) -> bool {
        &&& self.round() == 2
        &&& p.users().len() == self.signers() - 1
        &&& forall|j: int|
            0 <= j < self.signer_set().len() && #[trigger] self.signer_set()[j] != self.index() ==> {
                &&& p.has(self.signer_set()[j])
                &&& p.entry(self.signer_set()[j]).len() == 32
                &&& be_nat(p.entry(self.signer_set()[j])) < group_order()
            }
    }

    /// `s * G == R + c * P` for the summed `s`, with `R` and `P` the even-y
    /// points of the x coordinates of the group commitment and group key.
    pub open spec fn aggregate_verifies(&self, s: nat) -> bool {
        let rx = x_only(self.group_commitment().bytes@);
        let px = x_only(self.group_key().bytes@);
        &&& point_decodes(lift_even(rx))
        &&& point_decodes(lift_even(px))
        &&& base_mul_of(s) == point_add_of(
            lift_even(rx),
            point_mul_of(lift_even(px), challenge_spec(self.mode(), rx, px, self.message())),
        )
    }

    /// Aggregation: sums one's own and the other signers' partial signatures
    /// into `s`, and returns the 64-byte `(R.x, s)` only if it verifies under
    /// the group key.
    pub fn sign_3_complete(self, params: SignParams3) -> (r: Result<Vec<u8>, FrostError>)
        requires
            self.wf(),
            params.wf(),
        ensures
            r.is_ok() <==> self.params3_match(&params) && self.aggregate_accepts(params.contributions) && self.aggregate_verifies(
                scalar_sum(self.partial_values(params.contributions)),
            ),
            self.round() != 2 ==> r == Err::<Vec<u8>, FrostError>(FrostError::SessionConsumed),
            self.round() == 2 && !self.params3_match(&params)
                ==> r == Err::<Vec<u8>, FrostError>(FrostError::InvalidParameters),
            self.round() == 2 && self.params3_match(&params) && params.contributions.users().len() != self.signers() - 1
                ==> r == Err::<Vec<u8>, FrostError>(FrostError::WrongParticipantCount),
            r == Err::<Vec<u8>, FrostError>(FrostError::InvalidSignature) <==> self.params3_match(&params) && self.aggregate_accepts(params.contributions)
                && !self.aggregate_verifies(scalar_sum(self.partial_values(params.contributions))),
            r.is_ok() ==> {
                let sig = r.unwrap()@;
                &&& sig.len() == SIGNATURE_LEN
                &&& sig.subrange(0, 32) == x_only(self.group_commitment().bytes@)
                &&& be_nat(sig.subrange(32, 64)) == scalar_sum(self.partial_values(params.contributions))
                &&& signature_valid(x_only(self.group_key().bytes@), self.message(), sig, self.mode())
            },
    {
        if self.round != 2 {
            return Err(FrostError::SessionConsumed);
        }
        if params.n != self.n || params.index != self.index {
            return Err(FrostError::InvalidParameters);
        }
        let p = &params.contributions;
        if p.len() != (self.signers - 1) as usize {
            return Err(FrostError::WrongParticipantCount);
        }
        let ghost vals = self.partial_values(*p);
        let mut acc = crate::group::scalar_from_u16(0);
        let mut j: usize = 0;
        assert(vals.subrange(0, 0) =~= Seq::<nat>::empty());
        while j < self.signer_set.len()
            invariant
                self.wf(),
                self.round == 2,
                *p == params.contributions,
                params.n == self.n && params.index == self.index,
                p.wf(),
                p.users().len() == self.signers - 1,
                vals == self.partial_values(*p),
                j <= self.signer_set@.len(),
                acc.wf(),
                acc.value() == scalar_sum(vals.subrange(0, j as int)),
                forall|i: int|
                    0 <= i < j && #[trigger] self.signer_set@[i] != self.index ==> {
                        &&& p.has(self.signer_set@[i])
                        &&& p.entry(self.signer_set@[i]).len() == 32
                        &&& be_nat(p.entry(self.signer_set@[i])) < group_order()
                    },
            decreases self.signer_set@.len() - j,
        {
            let k = self.signer_set[j];
            assert(params.contributions.users().len() == self.signers() - 1);
            assert(self.signer_set()[j as int] == k);
            let val: Scalar;
            if k == self.index {
                val = self.own_share;
            } else {
                match p.find(k) {
                    None => {
                        assert(!self.aggregate_accepts(*p));
                        return Err(FrostError::MissingParticipant { user: k });
                    },
                    Some(i) => {
                        let b = p.bytes_at(i);
                        if b.len() != 32 {
                            assert(!self.aggregate_accepts(*p));
                            return Err(FrostError::InvalidLength);
                        }
                        assert(b@ == p.entry(k));
                        match scalar_from_slice(b.as_slice()) {
                            None => {
                                assert(be_nat(p.entry(self.signer_set()[j as int])) >= group_order());
                                assert(!self.aggregate_accepts(*p));
                                return Err(FrostError::NonCanonicalScalar);
                            },
                            Some(s) => {
                                val = s;
                            },
                        }
                    },
                }
            }
            acc = scalar_add(&acc, &val);
            j = j + 1;
            proof {
                let cur = vals.subrange(0, j as int);
                assert(cur.drop_last() =~= vals.subrange(0, j - 1));
            }
        }
        assert(vals.subrange(0, vals.len() as int) =~= vals);
        let mut sig = x_only_vec(&self.group_commitment);
        let ghost rx = sig@;
        push_scalar(&mut sig, &acc);
        proof {
            assert(sig@.subrange(0, 32) =~= rx);
            assert(sig@.subrange(32, 64) =~= acc.bytes@);
        }
        let px = x_only_vec(&self.group_key);
        if !verify_xonly(px.as_slice(), self.message.as_slice(), sig.as_slice(), self.mode) {
            return Err(FrostError::InvalidSignature);
        }
        Ok(sig)
    }
}


/// An ordinary single-key Schnorr signer in the transaction mode, for checking
/// signatures against the same verification rules.
pub struct SchnorrSingleSignTest {
    secret: Scalar,
    public: Point,
}

impl SchnorrSingleSignTest {
    pub closed spec fn secret(&self) -> Scalar {
        self.secret
    }

    pub closed spec fn public(&self) -> Point {
        self.public
    }

    pub closed spec fn wf(&self) -> bool {
        self.secret.wf() && self.public.valid() && self.public.bytes@ == base_mul_of(self.secret.value())
    }

    /// Draws a fresh key pair.
    pub fn new() -> (r: Result<Self, FrostError>)
        ensures
            r.is_ok() ==> r.unwrap().wf(),
            r matches Err(e) ==> e == FrostError::RandomnessFailure,
    {
        match random_nonzero() {
            Some(x) => Ok(Self::from_secret(x)),
            None => Err(FrostError::RandomnessFailure),
        }
    }

    /// The key pair of the non-zero secret `secret`.
    pub fn from_secret(secret: Scalar) -> (r: Self)
        requires
            secret.wf(),
            secret.value() != 0,
        ensures
            r.wf(),
            r.secret() == secret,
    {
        let public = base_mul(&secret);
        SchnorrSingleSignTest { secret, public }
    }

    /// The public key, x-only.
    pub fn get_bitcoin_encoded_key(&self) -> (r: Vec<u8>)
        ensures
            r@ == x_only(self.public().bytes@),
    {
        x_only_vec(&self.public)
    }

    /// Signs the transaction `msg` spending an output with script
    /// `prev_out_script`, with a fresh nonce.
    pub fn sign_tx(&self, msg: &[u8], prev_out_script: &[u8]) -> (r: Result<Vec<u8>, FrostError>)
        requires
            self.wf(),
        ensures
            r matches Err(e) ==> e == FrostError::RandomnessFailure,
            r.is_ok() ==> exists|k: nat|
                0 < k < group_order() && #[trigger] self.tx_signature(msg@, prev_out_script@, k, r.unwrap()@),
    {
        let k = match random_nonzero() {
            Some(k) => k,
            None => {
                return Err(FrostError::RandomnessFailure);
            },
        };
        let sig = self.sign_tx_with_nonce(msg, prev_out_script, k);
        let r: Result<Vec<u8>, FrostError> = Ok(sig);
        assert(self.tx_signature(msg@, prev_out_script@, k.value(), r.unwrap()@));
        r
    }

    /// `sig` is the transaction-mode signature with nonce `k`: `(R.x, ±k ± x * c)`
    /// with `R = k * G`, negated as BIP-340 asks for odd-y `R` and odd-y key.
    pub open spec fn tx_signature(&self, msg: Seq<u8>, script: Seq<u8>, k: nat, sig: Seq<u8>) -> bool {
        let rp = base_mul_of(k);
        let pk = self.public().bytes@;
        &&& sig.len() == SIGNATURE_LEN
        &&& sig.subrange(0, 32) == x_only(rp)
        &&& be_nat(sig.subrange(32, 64)) == partial_spec(
            k,
            0,
            0,
            1,
            self.secret().value(),
            challenge_spec(SignMode::Transaction, x_only(rp), x_only(pk), sighash_spec(msg, script)),
            rp[0] == 3,
            pk[0] == 3,
        )
    }

    /// Signs the transaction `msg` spending an output with script
    /// `prev_out_script`, with the non-zero nonce `k` given.
    pub fn sign_tx_with_nonce(&self, msg: &[u8], prev_out_script: &[u8], k: Scalar) -> (r: Vec<u8>)
        requires
            self.wf(),
            k.wf(),
            k.value() != 0,
        ensures
            self.tx_signature(msg@, prev_out_script@, k.value(), r@),
    {
        let m = sighash(msg, prev_out_script);
        let rp = base_mul(&k);
        let rx = x_only_vec(&rp);
        let px = x_only_vec(&self.public);
        let c = challenge(SignMode::Transaction, rx.as_slice(), px.as_slice(), m.as_slice());
        let zero = crate::group::scalar_from_u16(0);
        let one = crate::group::scalar_from_u16(1);
        let s = combine(&k, &zero, &zero, &one, &self.secret, &c, rp.bytes[0] == 3, self.public.bytes[0] == 3);
        let mut sig = rx;
        let ghost rxv = sig@;
        push_scalar(&mut sig, &s);
        proof {
            assert(sig@.subrange(0, 32) =~= rxv);
            assert(sig@.subrange(32, 64) =~= s.bytes@);
        }
        sig
    }
}

/// A session that has produced its partial signature holds no secret nonce,
/// and is no longer in the round that signs: its nonce pair can sign once only.
pub proof fn lemma_nonce_single_use(w: SchnorrSignWrapper)
    requires
        w.wf(),
        w.round() == 2,
    ensures
        w.nonce().is_none(),
        w.round() != 1,
{
}

/// Whatever the other signers sent, a signature that aggregation returns is an
/// ordinary 64-byte Schnorr signature of the session's message under the
/// x-only group key.
pub proof fn lemma_aggregate_sound(w: SchnorrSignWrapper, p: Contributions, sig: Seq<u8>)
    requires
        w.wf(),
        w.aggregate_accepts(p),
        w.aggregate_verifies(scalar_sum(w.partial_values(p))),
        sig.len() == SIGNATURE_LEN,
        sig.subrange(0, 32) == x_only(w.group_commitment().bytes@),
        be_nat(sig.subrange(32, 64)) == scalar_sum(w.partial_values(p)),
    ensures
        signature_valid(x_only(w.group_key().bytes@), w.message(), sig, w.mode()),
{
    let vals = w.partial_values(p);
    lemma_scalar_sum_bound(vals);
}

proof fn lemma_scalar_sum_bound(vs: Seq<nat>)
    ensures
        scalar_sum(vs) < group_order(),
    decreases vs.len(),
{
    if vs.len() > 0 {
        lemma_scalar_sum_bound(vs.drop_last());
    }
}


/// No partial signature comes from fewer signers than the threshold: partial
/// signing accepts only a signer set, oneself included, of the size that the
/// session was created for, and creation refuses a size below the threshold.
pub proof fn lemma_partial_needs_threshold(w: SchnorrSignWrapper, p: Contributions)
    requires
        w.wf(),
        w.sign_accepts(p),
    ensures
        w.members(p, w.n() as nat).len() >= w.threshold(),
{
}

} // verus!
