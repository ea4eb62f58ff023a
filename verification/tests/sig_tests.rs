use rust_tc::sig::{aggregate, core_aggregate_verify, verify_messages};
use rust_tc::util::hash_g2;
use rust_tc::{Error, Fr, G2, SecretKey, Signature};

#[test]
fn verify_agg() {
    let sk1 = SecretKey::random();
    let pk1 = sk1.public_key();
    let sk2 = SecretKey::random();
    let pk2 = sk2.public_key();
    let msg1 = b"Rip and tear";
    let msg2 = b"till is done";

    let sig1 = sk1.sign(msg1);
    let sig2 = sk2.sign(msg2);

    if let Ok(agg_sig) = aggregate(&[sig1, sig2]) {
        println!("sig: {:?}", agg_sig);
        if let Ok(res) = verify_messages(&agg_sig, &[msg1, msg2], &[pk1, pk2]) {
            assert!(res)
        } else {
            assert!(false)
        }
    } else {
        assert!(false)
    }
}

#[test]
fn is_valid_sig() {
    let sk = SecretKey::random();
    let msg = b"Rip and tear, until it's done";
    let sig = sk.sign(msg);
    assert!(sig.is_valid())
}

#[test]
#[should_panic]
fn invalid_msg_agg() {
    let sk1 = SecretKey::random();
    let pk1 = sk1.public_key();
    let sk2 = SecretKey::random();
    let pk2 = sk2.public_key();

    let msg1 = b"Rip and tear";
    let msg2 = b"till is done";

    let msg3 = b"Nooooooo";

    let sig1 = sk1.sign(msg1);
    let sig2 = sk2.sign(msg2);

    if let Ok(agg_sig) = aggregate(&[sig1, sig2]) {
        // sig2 is over msg2 not msg3, expect test to fail
        if let Ok(res) = verify_messages(&agg_sig, &[msg1, msg3], &[pk1, pk2]) {
            assert!(res)
        } else {
            assert!(false)
        }
    } else {
        assert!(false)
    }
}

#[test]
#[should_panic]
fn invalid_sig_agg() {
    let sk1 = SecretKey::random();
    let pk1 = sk1.public_key();
    let sk2 = SecretKey::random();
    let pk2 = sk2.public_key();

    let msg1 = b"Rip and tear";
    let msg2 = b"till is done";

    let msg3 = b"Nooooooo";

    let sig1 = sk1.sign(msg1);
    let sig3 = sk2.sign(msg3);

    // Signature is over msg3, but msg2 is being checked
    if let Ok(agg_sig) = aggregate(&[sig1, sig3]) {
        if let Ok(res) = verify_messages(&agg_sig, &[msg1, msg2], &[pk1, pk2]) {
            assert!(res)
        } else {
            assert!(false)
        }
    } else {
        assert!(false)
    }
}

#[test]
#[should_panic]
fn invalid_pubkey_agg() {
    let sk1 = SecretKey::random();
    let pk1 = sk1.public_key();
    let sk2 = SecretKey::random();
    let _pk2 = sk2.public_key();
    let sk3 = SecretKey::random();
    let pk3 = sk3.public_key();

    let msg1 = b"Rip and tear";
    let msg2 = b"till is done";

    let sig1 = sk1.sign(msg1);
    let sig2 = sk2.sign(msg2);

    if let Ok(agg_sig) = aggregate(&[sig1, sig2]) {
        // pk3 is not for msg2, expect test to fail
        if let Ok(res) = verify_messages(&agg_sig, &[msg1, msg2], &[pk1, pk3]) {
            assert!(res)
        } else {
            assert!(false)
        }
    } else {
        assert!(false)
    }
}

#[test]
#[should_panic]
fn missing_pubkey_agg() {
    let sk1 = SecretKey::random();
    let pk1 = sk1.public_key();
    let sk2 = SecretKey::random();
    let _pk2 = sk2.public_key();

    let msg1 = b"Rip and tear";
    let msg2 = b"till is done";

    let sig1 = sk1.sign(msg1);
    let sig2 = sk2.sign(msg2);

    if let Ok(agg_sig) = aggregate(&[sig1, sig2]) {
        // pk2 is missing, expect test to fail
        if let Ok(res) = verify_messages(&agg_sig, &[msg1, msg2], &[pk1]) {
            assert!(res)
        } else {
            assert!(false)
        }
    } else {
        assert!(false)
    }
}

#[test]
fn aggregate_verification_with_a_swapped_message() {
    let sk1 = SecretKey::random();
    let sk2 = SecretKey::random();
    let keys = [sk1.public_key(), sk2.public_key()];
    let m1: &[u8] = b"first message";
    let m2: &[u8] = b"second message";
    let m3: &[u8] = b"third message";
    let sig = aggregate(&[sk1.sign(m1), sk2.sign(m2)]).unwrap();
    assert_eq!(Ok(true), verify_messages(&sig, &[m1, m2], &keys));
    assert_eq!(Ok(false), verify_messages(&sig, &[m1, m3], &keys));
    assert_eq!(Ok(false), verify_messages(&sig, &[m2, m1], &keys));
}

#[test]
fn aggregate_verification_refuses_bad_shapes() {
    let sk1 = SecretKey::random();
    let sk2 = SecretKey::random();
    let keys = [sk1.public_key(), sk2.public_key()];
    let m1: &[u8] = b"first message";
    let m2: &[u8] = b"second message";
    let sig = aggregate(&[sk1.sign(m1), sk2.sign(m2)]).unwrap();
    let invalid = Err(Error::InvalidSignature);
    assert_eq!(invalid, verify_messages(&sig, &[], &[]));
    assert_eq!(invalid, verify_messages(&sig, &[m1, m2], &[]));
    assert_eq!(invalid, verify_messages(&sig, &[], &keys));
    assert_eq!(invalid, verify_messages(&sig, &[m1, m2], &keys[..1]));
    assert_eq!(invalid, verify_messages(&sig, &[m1], &keys));
    // The same message twice hashes to the same point twice.
    assert_eq!(invalid, verify_messages(&sig, &[m1, m1], &keys));
    let hashes = [hash_g2(m1), hash_g2(m2)];
    assert_eq!(Ok(true), core_aggregate_verify(&sig, &hashes, &keys));
    let repeated = [hash_g2(m1), hash_g2(m1)];
    assert_eq!(invalid, core_aggregate_verify(&sig, &repeated, &keys));
}

#[test]
fn aggregate_of_one_and_of_none() {
    let sk = SecretKey::random();
    let sig = sk.sign(b"alone");
    assert_eq!(Ok(sig), aggregate(&[sig]));
    assert_eq!(Err(Error::InvalidSignature), aggregate(&[]));
    let m: &[u8] = b"alone";
    assert_eq!(Ok(true), verify_messages(&sig, &[m], &[sk.public_key()]));
}

#[test]
fn aggregate_adds_every_signature() {
    let sk = SecretKey::from_scalar(Fr::from_u64(3));
    let m: &[u8] = b"same message";
    let sig = sk.sign(m);
    let thrice = aggregate(&[sig, sig, sig]).unwrap();
    // Three times the signature of key 3 is the signature of key 9.
    assert_eq!(SecretKey::from_scalar(Fr::from_u64(9)).sign(m), thrice);
    assert_eq!(Signature(sig.0.plus(&sig.0).plus(&sig.0)), thrice);
    assert_ne!(sig, thrice);
}

#[test]
fn signature_is_the_hash_times_the_key() {
    let key = Fr::from_u64(41);
    let sk = SecretKey::from_scalar(key);
    assert_eq!(Signature(hash_g2(b"text").times(&key)), sk.sign(b"text"));
    assert_eq!(Signature(G2::identity()), SecretKey::default().sign(b"text"));
}

#[test]
fn signature_bytes_round_trip() {
    let sk = SecretKey::random();
    let msg = b"Rip and tear, until it's done";
    let sig = sk.sign(msg);
    let bytes = sig.to_bytes();
    assert_eq!(96, bytes.len());
    assert_eq!(Ok(sig), Signature::from_bytes(&bytes));
    assert_eq!(Err(Error::InvalidSignature), Signature::from_bytes(&[0u8; 96]));
    assert_eq!(Err(Error::InvalidSignature), Signature::from_bytes(&[0xff; 96]));
}

#[test]
fn sig_serde_roundtrip() {
    let sk = SecretKey::random();
    let msg = b"Rip and tear, until it's done";
    let sig = sk.sign(msg);

    let bin_sig = sig.to_bytes();
    let deser_sig: Signature = Signature::from_bytes(&bin_sig).expect("boom deserialize signature");
    assert_eq!(deser_sig, sig);
}
