use frostdao::error::{ErrorKind, FrostError};
use frostdao::keygen::{
    ParamsKeygen2, ParamsKeygen3, ResultKeygen2, SchnorrKeyGenWrapper, SchnorrKeyWrapper, KEY_LEN,
};
use frostdao::sign::{
    verify_normal, verify_transaction, SchnorrSignWrapper, SchnorrSingleSignTest, SignParams2,
    SignParams3, SIGNATURE_LEN,
};

const CONTEXT: &str = "test group";

/// Runs the first two rounds for every participant; returns the sessions and
/// the broadcasts and shares that each participant received.
fn dkg_to_round3(t: u16, n: u16) -> (Vec<SchnorrKeyGenWrapper>, Vec<Vec<(u16, Vec<u8>)>>) {
    let mut sessions = Vec::new();
    let mut broadcasts = Vec::new();
    for i in 1..=n {
        let s = SchnorrKeyGenWrapper::new(t, n, i, CONTEXT).unwrap();
        let r = s.key_gen_1_create_commitments().unwrap();
        broadcasts.push(r.get_res());
        sessions.push(r.get_keygen());
    }
    let mut inbox: Vec<Vec<(u16, Vec<u8>)>> = vec![Vec::new(); n as usize];
    let mut next = Vec::new();
    for (pos, s) in sessions.into_iter().enumerate() {
        let me = pos as u16 + 1;
        let mut p = ParamsKeygen2::new(t, n, me);
        for j in 1..=n {
            if j != me {
                p.add_commitment_from_user(j, &broadcasts[j as usize - 1]).unwrap();
            }
        }
        let r: ResultKeygen2 = s.key_gen_2_generate_shares(p).unwrap();
        let users = r.get_user_indices();
        assert_eq!(users.len(), n as usize - 1);
        for (k, to) in users.iter().enumerate() {
            inbox[*to as usize - 1].push((me, r.get_shares_at(k)));
        }
        next.push(r.get_keygen());
    }
    (next, inbox)
}

fn run_dkg(t: u16, n: u16) -> Vec<SchnorrKeyWrapper> {
    let (sessions, inbox) = dkg_to_round3(t, n);
    let mut keys = Vec::new();
    for (pos, s) in sessions.into_iter().enumerate() {
        let mut p = ParamsKeygen3::new(n, pos as u16 + 1);
        for (from, share) in &inbox[pos] {
            p.add_share_from_user(*from, share).unwrap();
        }
        keys.push(s.key_gen_3_complete(p).unwrap());
    }
    keys
}

enum Mode<'a> {
    Normal,
    Tx(&'a [u8]),
}

/// Signs `msg` with the keys of `subset` (1-based indices) and aggregates at
/// the first of them.
fn sign(keys: &[SchnorrKeyWrapper], subset: &[u16], msg: &[u8], mode: Mode) -> Result<Vec<u8>, FrostError> {
    let count = subset.len() as u32;
    let n = keys[0].get_n();
    let mut sessions = Vec::new();
    let mut pre = Vec::new();
    for i in subset {
        let w = SchnorrSignWrapper::new_instance_for_signing(&keys[*i as usize - 1], count)?;
        let r = w.sign_1_preprocess()?;
        pre.push(r.get_preprocess());
        sessions.push(r.get_wrapper());
    }
    let mut partials = Vec::new();
    let mut signed = Vec::new();
    for (pos, w) in sessions.into_iter().enumerate() {
        let mut p = SignParams2::new(n, subset[pos]);
        for (q, j) in subset.iter().enumerate() {
            if q != pos {
                p.add_commitment_from_user(*j, &pre[q])?;
            }
        }
        let r = match mode {
            Mode::Normal => w.sign_2_sign_normal(p, msg)?,
            Mode::Tx(script) => w.sign_2_sign_bitcoin(p, msg, script)?,
        };
        partials.push(r.get_share());
        signed.push(r.get_wrapper());
    }
    let aggregator = signed.remove(0);
    let mut received = SignParams3::new(n, subset[0]);
    for (q, j) in subset.iter().enumerate().skip(1) {
        received.add_share_of_user(*j, &partials[q])?;
    }
    aggregator.sign_3_complete(received)
}

#[test]
fn dkg_agrees_on_the_group_key_for_many_sizes() {
    for (t, n) in [(1u16, 1u16), (1, 2), (2, 2), (2, 3), (3, 3), (2, 4), (3, 5), (5, 5)] {
        let keys = run_dkg(t, n);
        let gk = keys[0].get_bitcoin_encoded_key();
        assert_eq!(gk.len(), 32);
        for k in &keys {
            assert_eq!(k.get_bitcoin_encoded_key(), gk);
        }
    }
}

#[test]
fn every_subset_of_at_least_threshold_signs() {
    let keys = run_dkg(2, 4);
    let gk = keys[0].get_bitcoin_encoded_key();
    let subsets: [&[u16]; 6] = [&[1, 2], &[2, 4], &[1, 3, 4], &[3, 4], &[1, 2, 3, 4], &[4, 1]];
    for s in subsets {
        let sig = sign(&keys, s, b"subset message", Mode::Normal).unwrap();
        assert_eq!(sig.len(), SIGNATURE_LEN);
        assert!(verify_normal(&gk, b"subset message", &sig));
        assert!(!verify_normal(&gk, b"another message", &sig));
    }
}

#[test]
fn subset_below_threshold_is_refused_before_signing() {
    let keys = run_dkg(3, 4);
    let r = SchnorrSignWrapper::new_instance_for_signing(&keys[0], 2);
    assert!(matches!(r, Err(FrostError::InsufficientSigners)));
    assert_eq!(FrostError::InsufficientSigners.kind(), ErrorKind::Misuse);
    let r = SchnorrSignWrapper::new_instance_for_signing(&keys[0], 5);
    assert!(matches!(r, Err(FrostError::InsufficientSigners)));
    assert!(SchnorrSignWrapper::new_instance_for_signing(&keys[0], 3).is_ok());
}

#[test]
fn consumed_session_cannot_sign_twice() {
    let keys = run_dkg(2, 2);
    let a = SchnorrSignWrapper::new_instance_for_signing(&keys[0], 2).unwrap().sign_1_preprocess().unwrap();
    let b = SchnorrSignWrapper::new_instance_for_signing(&keys[1], 2).unwrap().sign_1_preprocess().unwrap();
    let pre_b = b.get_preprocess();
    let mut p = SignParams2::new(2, 1);
    p.add_commitment_from_user(2, &pre_b).unwrap();
    let first = a.get_wrapper().sign_2_sign_normal(p, b"one").unwrap();
    assert_eq!(first.get_share().len(), 32);
    let again = first.get_wrapper();
    let mut p = SignParams2::new(2, 1);
    p.add_commitment_from_user(2, &pre_b).unwrap();
    let second = again.sign_2_sign_normal(p, b"two");
    assert!(matches!(second, Err(FrostError::SessionConsumed)));
    assert_eq!(FrostError::SessionConsumed.kind(), ErrorKind::Misuse);
}

#[test]
fn preprocessing_twice_is_refused() {
    let keys = run_dkg(1, 1);
    let w = SchnorrSignWrapper::new_instance_for_signing(&keys[0], 1).unwrap();
    let w = w.sign_1_preprocess().unwrap().get_wrapper();
    assert!(matches!(w.sign_1_preprocess(), Err(FrostError::SessionConsumed)));
}

#[test]
fn tampered_share_aborts_the_recipient() {
    let (sessions, mut inbox) = dkg_to_round3(2, 3);
    // Flip one bit of the share that participant 2 sent to participant 1.
    let entry = inbox[0].iter_mut().find(|(from, _)| *from == 2).unwrap();
    entry.1[31] ^= 1;
    let mut results = Vec::new();
    for (pos, s) in sessions.into_iter().enumerate() {
        let mut p = ParamsKeygen3::new(3, pos as u16 + 1);
        for (from, share) in &inbox[pos] {
            p.add_share_from_user(*from, share).unwrap();
        }
        results.push(s.key_gen_3_complete(p));
    }
    assert!(matches!(results[0], Err(FrostError::MaliciousShare { user: 2 })));
    assert!(results[1].is_ok());
    assert!(results[2].is_ok());
    assert_eq!(FrostError::MaliciousShare { user: 2 }.kind(), ErrorKind::ProtocolViolation);
}

#[test]
fn tampered_commitment_fails_its_proof() {
    let mut sessions = Vec::new();
    let mut broadcasts = Vec::new();
    for i in 1..=2u16 {
        let r = SchnorrKeyGenWrapper::new(2, 2, i, CONTEXT).unwrap().key_gen_1_create_commitments().unwrap();
        broadcasts.push(r.get_res());
        sessions.push(r.get_keygen());
    }
    let mut forged = broadcasts[1].clone();
    let len = forged.len();
    forged[len - 1] ^= 1;
    let mut p = ParamsKeygen2::new(2, 2, 1);
    p.add_commitment_from_user(2, &forged).unwrap();
    let r = sessions.remove(0).key_gen_2_generate_shares(p);
    assert!(matches!(r, Err(FrostError::InvalidProof { user: 2 })));
}

#[test]
fn commitment_from_another_context_fails_its_proof() {
    let a = SchnorrKeyGenWrapper::new(1, 2, 1, "group a").unwrap().key_gen_1_create_commitments().unwrap();
    let b = SchnorrKeyGenWrapper::new(1, 2, 2, "group b").unwrap().key_gen_1_create_commitments().unwrap();
    let mut p = ParamsKeygen2::new(1, 2, 1);
    p.add_commitment_from_user(2, &b.get_res()).unwrap();
    assert!(matches!(a.get_keygen().key_gen_2_generate_shares(p), Err(FrostError::InvalidProof { user: 2 })));
}

#[test]
fn normal_and_transaction_signatures_differ() {
    let keys = run_dkg(2, 3);
    let gk = keys[0].get_bitcoin_encoded_key();
    let script: &[u8] = b"\x51\x20script";
    let normal = sign(&keys, &[1, 2], b"tx bytes", Mode::Normal).unwrap();
    let tx = sign(&keys, &[1, 2], b"tx bytes", Mode::Tx(script)).unwrap();
    assert_ne!(normal, tx);
    assert!(verify_normal(&gk, b"tx bytes", &normal));
    assert!(verify_transaction(&gk, b"tx bytes", script, &tx));
    assert!(!verify_transaction(&gk, b"tx bytes", script, &normal));
    assert!(!verify_normal(&gk, b"tx bytes", &tx));
    assert!(!verify_transaction(&gk, b"tx bytes", b"other script", &tx));
}

#[test]
fn two_of_three_scenario() {
    let keys = run_dkg(2, 3);
    let gk = keys[0].get_bitcoin_encoded_key();
    assert_eq!(keys[1].get_bitcoin_encoded_key(), gk);
    assert_eq!(keys[2].get_bitcoin_encoded_key(), gk);
    let sig = sign(&keys, &[1, 3], b"hello", Mode::Normal).unwrap();
    assert!(verify_normal(&gk, b"hello", &sig));
    let alone = sign(&keys, &[2], b"hello", Mode::Normal);
    assert!(matches!(alone, Err(FrostError::InsufficientSigners)));
}

#[test]
fn aggregation_fails_on_a_corrupted_partial_signature() {
    let keys = run_dkg(2, 2);
    let a = SchnorrSignWrapper::new_instance_for_signing(&keys[0], 2).unwrap().sign_1_preprocess().unwrap();
    let b = SchnorrSignWrapper::new_instance_for_signing(&keys[1], 2).unwrap().sign_1_preprocess().unwrap();
    let (pa, pb) = (a.get_preprocess(), b.get_preprocess());
    let mut p = SignParams2::new(2, 1);
    p.add_commitment_from_user(2, &pb).unwrap();
    let ra = a.get_wrapper().sign_2_sign_normal(p, b"m").unwrap();
    let mut p = SignParams2::new(2, 2);
    p.add_commitment_from_user(1, &pa).unwrap();
    let rb = b.get_wrapper().sign_2_sign_normal(p, b"m").unwrap();
    let mut share = rb.get_share();
    share[31] ^= 1;
    let mut received = SignParams3::new(2, 1);
    received.add_share_of_user(2, &share).unwrap();
    let r = ra.get_wrapper().sign_3_complete(received);
    assert!(matches!(r, Err(FrostError::InvalidSignature)));
    assert_eq!(FrostError::InvalidSignature.kind(), ErrorKind::ProtocolViolation);
}

#[test]
fn collection_refuses_bad_contributions_and_keeps_what_it_had() {
    let r = SchnorrKeyGenWrapper::new(2, 3, 2, CONTEXT).unwrap().key_gen_1_create_commitments().unwrap();
    let good = r.get_res();
    let mut p = ParamsKeygen2::new(2, 3, 1);
    assert!(matches!(p.add_commitment_from_user(0, &good), Err(FrostError::IndexOutOfRange { user: 0 })));
    assert!(matches!(p.add_commitment_from_user(4, &good), Err(FrostError::IndexOutOfRange { user: 4 })));
    assert!(matches!(p.add_commitment_from_user(1, &good), Err(FrostError::IndexOutOfRange { user: 1 })));
    assert!(matches!(p.add_commitment_from_user(2, b"x"), Err(FrostError::InvalidLength)));
    let mut off_curve = good.clone();
    off_curve[0] = 7;
    assert!(matches!(p.add_commitment_from_user(2, &off_curve), Err(FrostError::InvalidPoint)));
    let mut big_response = good.clone();
    let len = big_response.len();
    for x in &mut big_response[len - 32..] {
        *x = 0xff;
    }
    assert!(matches!(p.add_commitment_from_user(2, &big_response), Err(FrostError::NonCanonicalScalar)));
    assert_eq!(p.contributions.len(), 0);
    assert!(p.add_commitment_from_user(2, &good).is_ok());
    assert!(matches!(p.add_commitment_from_user(2, &good), Err(FrostError::DuplicateIndex { user: 2 })));
    assert_eq!(p.contributions.len(), 1);
    assert_eq!(FrostError::DuplicateIndex { user: 2 }.kind(), ErrorKind::InputValidation);

    let mut s = SignParams3::new(3, 1);
    assert!(s.add_share_of_user(3, &[1u8; 32]).is_ok());
    assert!(matches!(s.add_share_of_user(3, &[2u8; 32]), Err(FrostError::DuplicateIndex { user: 3 })));
    assert!(matches!(s.add_share_of_user(2, b"z"), Err(FrostError::InvalidLength)));
    assert!(matches!(s.add_share_of_user(2, &[0xffu8; 32]), Err(FrostError::NonCanonicalScalar)));
    assert!(matches!(s.add_share_of_user(4, &[0u8; 32]), Err(FrostError::IndexOutOfRange { user: 4 })));
    assert_eq!(s.contributions.len(), 1);

    let mut k = ParamsKeygen3::new(3, 1);
    assert!(matches!(k.add_share_from_user(2, &[0u8; 33]), Err(FrostError::InvalidLength)));
    assert!(matches!(k.add_share_from_user(2, &[0xffu8; 32]), Err(FrostError::NonCanonicalScalar)));
    assert!(matches!(k.add_share_from_user(1, &[0u8; 32]), Err(FrostError::IndexOutOfRange { user: 1 })));
    assert!(k.add_share_from_user(2, &[0u8; 32]).is_ok());

    let mut c = SignParams2::new(3, 1);
    assert!(matches!(c.add_commitment_from_user(2, &[0u8; 66]), Err(FrostError::InvalidPoint)));
    assert!(matches!(c.add_commitment_from_user(2, &[0u8; 65]), Err(FrostError::InvalidLength)));
    assert_eq!(c.contributions.len(), 0);
}

#[test]
fn keygen_parameters_are_checked() {
    assert!(matches!(SchnorrKeyGenWrapper::new(0, 3, 1, CONTEXT), Err(FrostError::InvalidParameters)));
    assert!(matches!(SchnorrKeyGenWrapper::new(4, 3, 1, CONTEXT), Err(FrostError::InvalidParameters)));
    assert!(matches!(SchnorrKeyGenWrapper::new(2, 3, 0, CONTEXT), Err(FrostError::InvalidParameters)));
    assert!(matches!(SchnorrKeyGenWrapper::new(2, 3, 4, CONTEXT), Err(FrostError::InvalidParameters)));
    assert!(SchnorrKeyGenWrapper::new(3, 3, 3, CONTEXT).is_ok());
}

#[test]
fn keygen_rounds_out_of_order_are_refused() {
    let s = SchnorrKeyGenWrapper::new(1, 2, 1, CONTEXT).unwrap();
    assert!(matches!(s.key_gen_2_generate_shares(ParamsKeygen2::new(1, 2, 1)), Err(FrostError::SessionConsumed)));
    let s = SchnorrKeyGenWrapper::new(1, 2, 1, CONTEXT).unwrap();
    let s = s.key_gen_1_create_commitments().unwrap().get_keygen();
    assert!(matches!(s.key_gen_1_create_commitments(), Err(FrostError::SessionConsumed)));
}

#[test]
fn keygen_counts_and_missing_participants() {
    let mut sessions = Vec::new();
    let mut broadcasts = Vec::new();
    for i in 1..=3u16 {
        let r = SchnorrKeyGenWrapper::new(2, 3, i, CONTEXT).unwrap().key_gen_1_create_commitments().unwrap();
        broadcasts.push(r.get_res());
        sessions.push(r.get_keygen());
    }
    let mut p = ParamsKeygen2::new(2, 3, 1);
    p.add_commitment_from_user(2, &broadcasts[1]).unwrap();
    let first = sessions.remove(0);
    assert!(matches!(first.key_gen_2_generate_shares(p), Err(FrostError::WrongParticipantCount)));
    // Commitments collected for participant 1 do not serve participant 2.
    let mut p = ParamsKeygen2::new(2, 3, 1);
    p.add_commitment_from_user(2, &broadcasts[1]).unwrap();
    p.add_commitment_from_user(3, &broadcasts[2]).unwrap();
    let second = sessions.remove(0);
    assert!(matches!(second.key_gen_2_generate_shares(p), Err(FrostError::InvalidParameters)));
}

#[test]
fn signing_refuses_bad_peer_commitments() {
    let keys = run_dkg(2, 3);
    let mk = |k: &SchnorrKeyWrapper| SchnorrSignWrapper::new_instance_for_signing(k, 2).unwrap().sign_1_preprocess().unwrap();
    let pre2 = mk(&keys[1]).get_preprocess();
    let mut p = SignParams2::new(3, 1);
    assert!(matches!(p.add_commitment_from_user(9, &pre2), Err(FrostError::IndexOutOfRange { user: 9 })));
    assert!(matches!(p.add_commitment_from_user(2, &pre2[..65]), Err(FrostError::InvalidLength)));
    let mut bad = pre2.clone();
    bad[0] = 7;
    assert!(matches!(p.add_commitment_from_user(2, &bad), Err(FrostError::InvalidPoint)));
    assert!(matches!(mk(&keys[0]).get_wrapper().sign_2_sign_normal(p, b"m"), Err(FrostError::WrongParticipantCount)));
    let mut other = SignParams2::new(3, 3);
    other.add_commitment_from_user(2, &pre2).unwrap();
    assert!(matches!(mk(&keys[0]).get_wrapper().sign_2_sign_normal(other, b"m"), Err(FrostError::InvalidParameters)));
}

#[test]
fn aggregation_refuses_a_missing_partial() {
    let keys = run_dkg(2, 3);
    let a = SchnorrSignWrapper::new_instance_for_signing(&keys[0], 2).unwrap().sign_1_preprocess().unwrap();
    let b = SchnorrSignWrapper::new_instance_for_signing(&keys[1], 2).unwrap().sign_1_preprocess().unwrap();
    let mut p = SignParams2::new(3, 1);
    p.add_commitment_from_user(2, &b.get_preprocess()).unwrap();
    let w = a.get_wrapper().sign_2_sign_normal(p, b"m").unwrap().get_wrapper();
    // Signer 3 is not in the signer set {1, 2}; signer 2's partial is missing.
    let mut received = SignParams3::new(3, 1);
    received.add_share_of_user(3, &[0u8; 32]).unwrap();
    assert!(matches!(w.sign_3_complete(received), Err(FrostError::MissingParticipant { user: 2 })));
}

#[test]
fn key_share_serialization_round_trips() {
    let keys = run_dkg(2, 3);
    for k in &keys {
        let bytes = k.serialize();
        assert_eq!(bytes.len(), KEY_LEN);
        assert_eq!(&bytes[0..6], &[0, 2, 0, 3, 0, k.get_index() as u8]);
        let back = SchnorrKeyWrapper::from_serialized(&bytes).unwrap();
        assert_eq!(back.serialize(), bytes);
        assert_eq!(back.get_bitcoin_encoded_key(), k.get_bitcoin_encoded_key());
    }
    let restored: Vec<SchnorrKeyWrapper> =
        keys.iter().map(|k| SchnorrKeyWrapper::from_serialized(&k.serialize()).unwrap()).collect();
    let gk = restored[0].get_bitcoin_encoded_key();
    let sig = sign(&restored, &[2, 3], b"after restore", Mode::Normal).unwrap();
    assert!(verify_normal(&gk, b"after restore", &sig));
}

#[test]
fn key_share_deserialization_rejects_bad_input() {
    let keys = run_dkg(1, 1);
    let bytes = keys[0].serialize();
    assert!(matches!(SchnorrKeyWrapper::from_serialized(&bytes[..70]), Err(FrostError::InvalidLength)));
    let mut b = bytes.clone();
    b[1] = 5;
    assert!(matches!(SchnorrKeyWrapper::from_serialized(&b), Err(FrostError::InvalidParameters)));
    let mut b = bytes.clone();
    for x in &mut b[6..38] {
        *x = 0xff;
    }
    assert!(matches!(SchnorrKeyWrapper::from_serialized(&b), Err(FrostError::NonCanonicalScalar)));
    let mut b = bytes.clone();
    b[38] = 0;
    assert!(matches!(SchnorrKeyWrapper::from_serialized(&b), Err(FrostError::InvalidPoint)));
    // Tag 5 (the compact form) would name the same x coordinate, but is not canonical.
    let mut b = bytes.clone();
    b[38] = 5;
    assert!(matches!(SchnorrKeyWrapper::from_serialized(&b), Err(FrostError::InvalidPoint)));
    assert_eq!(FrostError::InvalidPoint.kind(), ErrorKind::InputValidation);
}

#[test]
fn single_key_signer_produces_transaction_signatures() {
    let s = SchnorrSingleSignTest::new().unwrap();
    let pk = s.get_bitcoin_encoded_key();
    assert_eq!(pk.len(), 32);
    let sig = s.sign_tx(b"tx", b"script").unwrap();
    assert_eq!(sig.len(), SIGNATURE_LEN);
    assert!(verify_transaction(&pk, b"tx", b"script", &sig));
    assert!(!verify_normal(&pk, b"tx", &sig));
    assert!(!verify_transaction(&pk, b"tx2", b"script", &sig));
}

#[test]
fn signatures_are_sixty_four_bytes_and_exact_width() {
    let keys = run_dkg(1, 1);
    let gk = keys[0].get_bitcoin_encoded_key();
    let sig = sign(&keys, &[1], b"m", Mode::Normal).unwrap();
    assert_eq!(sig.len(), 64);
    assert!(verify_normal(&gk, b"m", &sig));
    let mut longer = sig.clone();
    longer.push(0);
    assert!(!verify_normal(&gk, b"m", &longer));
    assert!(!verify_normal(&gk, b"m", &sig[..63]));
    let mut bad_s = sig.clone();
    bad_s[63] ^= 1;
    assert!(!verify_normal(&gk, b"m", &bad_s));
    let mut bad_key = gk.clone();
    bad_key.insert(0, 2);
    assert!(!verify_normal(&bad_key, b"m", &sig));
}

#[test]
fn transaction_signatures_verify_as_bip340() {
    let keys = run_dkg(2, 3);
    let gk = keys[0].get_bitcoin_encoded_key();
    let script: &[u8] = b"\x51\x20script";
    for subset in [&[1u16, 2][..], &[2, 3], &[1, 2, 3]] {
        let sig = sign(&keys, subset, b"transaction", Mode::Tx(script)).unwrap();
        let digest = frostdao::sign::sighash(b"transaction", script);
        let vk = k256::schnorr::VerifyingKey::from_bytes(&gk).unwrap();
        let s = k256::schnorr::Signature::try_from(sig.as_slice()).unwrap();
        assert!(vk.verify_raw(&digest, &s).is_ok());
        assert!(vk.verify_raw(b"other digest", &s).is_err());
    }
    let single = SchnorrSingleSignTest::new().unwrap();
    let sig = single.sign_tx(b"tx", b"script").unwrap();
    let vk = k256::schnorr::VerifyingKey::from_bytes(&single.get_bitcoin_encoded_key()).unwrap();
    let s = k256::schnorr::Signature::try_from(sig.as_slice()).unwrap();
    assert!(vk.verify_raw(&frostdao::sign::sighash(b"tx", b"script"), &s).is_ok());
}

#[test]
fn message_bound_at_preprocessing_is_enforced() {
    let keys = run_dkg(2, 2);
    let bound = |k: &SchnorrKeyWrapper| {
        SchnorrSignWrapper::new_instance_for_signing(k, 2)
            .unwrap()
            .sign_1_preprocess_for_message(b"agreed")
            .unwrap()
    };
    let a = bound(&keys[0]);
    let b = bound(&keys[1]);
    let pb = b.get_preprocess();
    let mut p = SignParams2::new(2, 1);
    p.add_commitment_from_user(2, &pb).unwrap();
    let r = a.get_wrapper().sign_2_sign_normal(p, b"changed");
    assert!(matches!(r, Err(FrostError::MessageMismatch)));
    assert_eq!(FrostError::MessageMismatch.kind(), ErrorKind::Misuse);
    let a = bound(&keys[0]);
    let pa = a.get_preprocess();
    let mut p = SignParams2::new(2, 1);
    p.add_commitment_from_user(2, &pb).unwrap();
    let ra = a.get_wrapper().sign_2_sign_normal(p, b"agreed").unwrap();
    let mut p = SignParams2::new(2, 2);
    p.add_commitment_from_user(1, &pa).unwrap();
    let rb = b.get_wrapper().sign_2_sign_normal(p, b"agreed").unwrap();
    let mut received = SignParams3::new(2, 1);
    received.add_share_of_user(2, &rb.get_share()).unwrap();
    let sig = ra.get_wrapper().sign_3_complete(received).unwrap();
    assert!(verify_normal(&keys[0].get_bitcoin_encoded_key(), b"agreed", &sig));
}

#[test]
fn keygen_third_round_checks_collection_and_counts() {
    let (mut sessions, inbox) = dkg_to_round3(2, 3);
    let mut p = ParamsKeygen3::new(3, 1);
    p.add_share_from_user(2, &inbox[0][0].1).unwrap();
    let first = sessions.remove(0);
    assert!(matches!(first.key_gen_3_complete(p), Err(FrostError::WrongParticipantCount)));
    // Participant 2 receives from 1 and 3; a share under index 7 is refused on arrival.
    let mut p = ParamsKeygen3::new(3, 2);
    assert!(matches!(p.add_share_from_user(7, &inbox[1][0].1), Err(FrostError::IndexOutOfRange { user: 7 })));
    for (from, share) in &inbox[1] {
        p.add_share_from_user(*from, share).unwrap();
    }
    let second = sessions.remove(0);
    assert!(second.key_gen_3_complete(p).is_ok());
}
