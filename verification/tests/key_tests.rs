use rust_tc::util::{hash_g1_g2, hash_g2, sha3_256, xor_with_hash};
use rust_tc::{Ciphertext, Fr, G1, G2, PublicKey, SecretKey};

#[test]
fn valid() {
    let sk = SecretKey::random();
    let pk = sk.public_key();
    assert!(pk.is_valid())
}

#[test]
fn enc_dec() {
    let sk = SecretKey::random();
    let pk = sk.public_key();
    let msg = b"Rip and tear, until it's done";
    let encrypted = pk.encrypt(msg);
    assert!(encrypted.verify());
    if let Some(decrypted) = sk.decrypt(&encrypted) {
        assert_eq!(decrypted, msg)
    } else {
        assert!(false)
    }
}

#[test]
#[should_panic]
fn other_sk_enc_dec() {
    let sk = SecretKey::random();
    let other_sk = SecretKey::random();
    let pk = sk.public_key();
    let msg = b"Rip and tear, until it's done";
    let encrypted = pk.encrypt(msg);
    assert!(encrypted.verify());
    if let Some(decrypted) = other_sk.decrypt(&encrypted) {
        assert_eq!(decrypted, msg)
    } else {
        assert!(false)
    }
}

#[test]
#[should_panic]
fn other_msg_enc_dec() {
    let sk = SecretKey::random();
    let pk = sk.public_key();
    let msg = b"Rip and tear, until it's done";
    let other_msg = b"Don't Rip and tear, until it's done";
    let encrypted = pk.encrypt(msg);
    assert!(encrypted.verify());
    if let Some(decrypted) = sk.decrypt(&encrypted) {
        assert_eq!(decrypted, other_msg)
    } else {
        assert!(false)
    }
}

#[test]
fn random() {
    let sk = SecretKey::random();
    let pk = sk.public_key();
    let msg = b"Rip and tear, until it's done";
    let sig = sk.sign(msg);
    assert!(pk.verify(&sig, msg));
    // should not be able to verify other msg
    let other_msg = b"Other msg";
    assert_eq!(false, pk.verify(&sig, other_msg));
    // the signature of another message does not verify this one
    let other_sig = sk.sign(other_msg);
    assert_eq!(false, pk.verify(&other_sig, msg));
}

#[test]
fn default() {
    assert_eq!(SecretKey::from_scalar(Fr::zero()), SecretKey::default())
}

#[test]
fn sk_test_zeroize() {
    let zero_sk = SecretKey::from_mut(&mut Fr::zero());

    let mut sk = SecretKey::random();
    assert_ne!(zero_sk, sk);

    sk.zeroize();
    assert_eq!(zero_sk, sk);
}

#[test]
fn sign_and_verify_the_named_message() {
    let sk = SecretKey::random();
    let pk = sk.public_key();
    let sig = sk.sign(b"Rip and tear, until it's done");
    assert!(pk.verify(&sig, b"Rip and tear, until it's done"));
    assert!(!pk.verify(&sig, b"other"));
    assert!(!SecretKey::random().public_key().verify(&sig, b"Rip and tear, until it's done"));
}

#[test]
fn encrypt_hello() {
    let sk = SecretKey::random();
    let pk = sk.public_key();
    let ct = pk.encrypt(b"hello");
    assert!(ct.verify());
    assert_eq!(Some(b"hello".to_vec()), sk.decrypt(&ct));
    let other = SecretKey::random();
    assert_ne!(Some(b"hello".to_vec()), other.decrypt(&ct));
}

#[test]
fn encryption_with_a_given_nonce_is_determined() {
    let sk = SecretKey::from_scalar(Fr::from_u64(1234));
    let pk = sk.public_key();
    let nonce = Fr::from_u64(99);
    let ct = pk.encrypt_with_scalar(&nonce, b"some text");
    let again = pk.encrypt_with_scalar(&nonce, b"some text");
    assert_eq!(ct, again);
    assert_eq!(G1::generator().times(&nonce), ct.0);
    assert_eq!(9, ct.1.len());
    assert_ne!(b"some text".to_vec(), ct.1);
    assert!(ct.verify());
    assert_eq!(Some(b"some text".to_vec()), sk.decrypt(&ct));
    let other = pk.encrypt_with_scalar(&Fr::from_u64(100), b"some text");
    assert_ne!(ct, other);
}

#[test]
fn a_tampered_ciphertext_is_refused() {
    let sk = SecretKey::random();
    let pk = sk.public_key();
    let ct = pk.encrypt(b"hello");
    let mut v = ct.1.clone();
    v[0] ^= 1;
    let tampered = Ciphertext(ct.0, v, ct.2);
    assert!(!tampered.verify());
    assert_eq!(None, sk.decrypt(&tampered));
    let swapped = Ciphertext(G1::generator(), ct.1.clone(), ct.2);
    assert!(!swapped.verify());
    assert_eq!(None, sk.decrypt(&swapped));
}

#[test]
fn empty_and_long_messages_encrypt() {
    let sk = SecretKey::random();
    let pk = sk.public_key();
    let empty = pk.encrypt(b"");
    assert!(empty.verify());
    assert_eq!(Some(vec![]), sk.decrypt(&empty));
    let long = vec![7u8; 200];
    let ct = pk.encrypt(&long);
    assert!(ct.verify());
    assert_eq!(200, ct.1.len());
    assert_eq!(Some(long), sk.decrypt(&ct));
}

#[test]
fn public_key_is_the_generator_times_the_secret() {
    let sk = SecretKey::from_scalar(Fr::from_u64(5));
    let pk = sk.public_key();
    let g = G1::generator();
    let five = g.plus(&g).plus(&g).plus(&g).plus(&g);
    assert_eq!(PublicKey(five), pk);
    assert_eq!(PublicKey(G1::identity()), SecretKey::default().public_key());
    assert_ne!(PublicKey(g), pk);
    assert!(pk.ct_eq(&PublicKey(five)));
}

#[test]
fn public_key_bytes_round_trip() {
    let pk = SecretKey::random().public_key();
    let bytes = pk.to_bytes();
    assert_eq!(Some(pk), PublicKey::from_bytes(&bytes));
    assert_eq!(None, PublicKey::from_bytes(&[0u8; 48]));
    assert_eq!(None, PublicKey::from_bytes(&[0xff; 48]));
}

#[test]
fn secret_key_from_bytes_and_raw() {
    let mut bytes = [0u8; 32];
    bytes[0] = 9;
    let sk = SecretKey::from_bytes(&bytes).unwrap();
    assert_eq!(SecretKey::from_scalar(Fr::from_u64(9)), sk);
    assert_eq!(SecretKey::from_raw([9, 0, 0, 0]), sk);
    assert_eq!(None, SecretKey::from_bytes(&[0xff; 32]));
    assert!(sk.ct_eq(&sk.clone()));
}

#[test]
fn from_mut_clears_the_source() {
    let mut scalar = Fr::from_u64(77);
    let sk = SecretKey::from_mut(&mut scalar);
    assert_eq!(Fr::zero(), scalar);
    assert_eq!(SecretKey::from_scalar(Fr::from_u64(77)), sk);
}

#[test]
fn sha3_of_the_empty_string_and_of_abc() {
    let empty = sha3_256(b"");
    assert_eq!(
        [
            0xa7, 0xff, 0xc6, 0xf8, 0xbf, 0x1e, 0xd7, 0x66, 0x51, 0xc1, 0x47, 0x56, 0xa0, 0x61,
            0xd6, 0x62, 0xf5, 0x80, 0xff, 0x4d, 0xe4, 0x3b, 0x49, 0xfa, 0x82, 0xd8, 0x0a, 0x4b,
            0x80, 0xf8, 0x43, 0x4a
        ],
        empty
    );
    let abc = sha3_256(b"abc");
    assert_eq!(0x3a, abc[0]);
    assert_eq!(0x98, abc[1]);
    assert_eq!(0x32, abc[31]);
}

#[test]
fn hashing_to_g2_is_reproducible() {
    let a = hash_g2(b"message");
    let b = hash_g2(b"message");
    let c = hash_g2(b"massage");
    assert_eq!(a, b);
    assert_ne!(a, c);
    assert_ne!(G2::identity(), a);
    assert_eq!(G2::from_seed(&sha3_256(b"message")), a);
}

#[test]
fn hashing_with_a_point_separates_long_and_short_messages() {
    let g = G1::generator();
    let short = vec![1u8; 64];
    let long = vec![1u8; 65];
    let mut tagged = short.clone();
    tagged.extend_from_slice(&g.to_compressed());
    assert_eq!(hash_g2(&tagged), hash_g1_g2(g, &short));
    let mut digest = sha3_256(&long).to_vec();
    digest.extend_from_slice(&g.to_compressed());
    assert_eq!(hash_g2(&digest), hash_g1_g2(g, &long));
    assert_ne!(hash_g1_g2(g, &short), hash_g1_g2(G1::identity(), &short));
}

#[test]
fn xor_with_hash_keeps_the_length_and_undoes_itself() {
    let g = G1::generator().times(&Fr::from_u64(3));
    let text = b"to be masked".to_vec();
    let masked = xor_with_hash(g, &text);
    assert_eq!(text.len(), masked.len());
    assert_ne!(text, masked);
    assert_eq!(text, xor_with_hash(g, &masked));
    assert_ne!(masked, xor_with_hash(G1::generator(), &text));
    // The pad does not depend on the bytes it masks.
    let zeros = xor_with_hash(g, &[0u8; 4]);
    let ones = xor_with_hash(g, &[0xff; 4]);
    for i in 0..4 {
        assert_eq!(zeros[i] ^ 0xff, ones[i]);
    }
    assert!(xor_with_hash(g, &[]).is_empty());
}

#[test]
fn ciphertexts_are_ordered_part_by_part() {
    let pk = SecretKey::from_scalar(Fr::from_u64(5)).public_key();
    let a = pk.encrypt_with_scalar(&Fr::from_u64(2), b"abc");
    let b = pk.encrypt_with_scalar(&Fr::from_u64(3), b"abc");
    let by_u = a.0.to_compressed().as_ref().cmp(b.0.to_compressed().as_ref());
    assert_ne!(std::cmp::Ordering::Equal, by_u);
    assert_eq!(by_u, a.cmp(&b));
    assert_eq!(std::cmp::Ordering::Equal, a.cmp(&a.clone()));
    let shorter = Ciphertext(a.0, vec![1, 2], a.2);
    let longer = Ciphertext(a.0, vec![1, 2, 0], a.2);
    let greater = Ciphertext(a.0, vec![1, 3], a.2);
    assert_eq!(std::cmp::Ordering::Less, shorter.cmp(&longer));
    assert_eq!(std::cmp::Ordering::Less, longer.cmp(&greater));
    assert_eq!(std::cmp::Ordering::Greater, greater.cmp(&shorter));
    let by_w = a.2.to_compressed().as_ref().cmp(b.2.to_compressed().as_ref());
    let last = Ciphertext(a.0, vec![1, 2], b.2);
    assert_eq!(by_w, shorter.cmp(&last));
    assert_eq!(Some(by_w), shorter.partial_cmp(&last));
}

#[test]
fn ciphertext_bytes_round_trip() {
    let pk = SecretKey::random().public_key();
    for msg in [&b""[..], &b"x"[..], &b"hello"[..], &[7u8; 300][..]] {
        let ct = pk.encrypt(msg);
        let bytes = ct.to_bytes();
        assert_eq!(152 + msg.len(), bytes.len());
        assert_eq!(&ct.0.to_compressed()[..], &bytes[..48]);
        assert_eq!(&(msg.len() as u64).to_le_bytes()[..], &bytes[48..56]);
        assert_eq!(&ct.1[..], &bytes[56..56 + msg.len()]);
        assert_eq!(&ct.2.to_compressed()[..], &bytes[56 + msg.len()..]);
        assert_eq!(Ok(ct), Ciphertext::from_bytes(&bytes));
    }
}

#[test]
fn ciphertext_bytes_that_are_no_encoding() {
    let pk = SecretKey::random().public_key();
    let bytes = pk.encrypt(b"hello").to_bytes();
    let malformed = Err(rust_tc::Error::MalformedCiphertext);
    assert_eq!(malformed, Ciphertext::from_bytes(&[]));
    assert_eq!(malformed, Ciphertext::from_bytes(&bytes[..151]));
    assert_eq!(malformed, Ciphertext::from_bytes(&bytes[..bytes.len() - 1]));
    let mut longer = bytes.clone();
    longer.push(0);
    assert_eq!(malformed, Ciphertext::from_bytes(&longer));
    let mut wrong_length = bytes.clone();
    wrong_length[48] = 4;
    assert_eq!(malformed, Ciphertext::from_bytes(&wrong_length));
    let mut high_length = bytes.clone();
    high_length[55] = 1;
    assert_eq!(malformed, Ciphertext::from_bytes(&high_length));
    let mut no_point = bytes.clone();
    no_point[0] = 0;
    assert_eq!(malformed, Ciphertext::from_bytes(&no_point));
    let mut no_second_point = bytes.clone();
    let at = bytes.len() - 96;
    no_second_point[at] = 0;
    assert_eq!(malformed, Ciphertext::from_bytes(&no_second_point));
    // Bytes that decode need not pass the ciphertext's own check.
    let mut other_text = bytes.clone();
    other_text[56] ^= 1;
    let decoded = Ciphertext::from_bytes(&other_text).unwrap();
    assert!(!decoded.verify());
}

#[test]
fn std_dist() {
    let sk: SecretKey = SecretKey::random();
    let pk = sk.public_key();
    let msg = b"Rip and tear, until it's done";
    let sig = sk.sign(msg);
    assert!(pk.verify(&sig, msg));
}
