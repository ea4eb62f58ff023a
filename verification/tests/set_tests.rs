use rust_tc::{
    Commitment, DecryptionShare, Error, Fr, G1, Poly, SecretKey, SecretKeySet, SecretKeyShare,
    SignatureShare,
};

#[test]
fn threshold_signatures() {
    let sk_set = SecretKeySet::random(10);
    assert_eq!(10, sk_set.threshold());
    let pk_set = sk_set.public_keys();
    assert_eq!(10, pk_set.threshold());
    let msg = b"Rip and tear, until it's done";
    let shares: Vec<(usize, SignatureShare)> = (0..11)
        .map(|i| (i * 3 + 1, sk_set.secret_key_share(i * 3 + 1).sign(msg)))
        .collect();
    for (i, share) in &shares {
        assert!(pk_set.public_key_share(*i).verify(share, msg));
    }
    let sig = pk_set.combine_signatures(&shares).unwrap();
    assert!(pk_set.public_key().verify(&sig, msg));
    assert_eq!(sk_set.secret_key().sign(msg), sig);
    assert_eq!(
        Err(Error::NotEnoughShares),
        pk_set.combine_signatures(&shares[..10])
    );
}

#[test]
fn any_threshold_plus_one_shares_give_the_same_signature() {
    let sk_set = SecretKeySet::random(2);
    let pk_set = sk_set.public_keys();
    let msg = b"the same for every subset";
    let share = |i: usize| (i, sk_set.secret_key_share(i).sign(msg));
    let master = sk_set.secret_key().sign(msg);
    assert_eq!(Ok(master), pk_set.combine_signatures(&[share(0), share(1), share(2)]));
    assert_eq!(Ok(master), pk_set.combine_signatures(&[share(5), share(3), share(9)]));
    // Only the first three of four are used.
    assert_eq!(
        Ok(master),
        pk_set.combine_signatures(&[share(7), share(2), share(4), share(4)])
    );
    // A wrong share gives a signature that does not verify.
    let wrong = pk_set
        .combine_signatures(&[share(0), share(1), (2, share(3).1)])
        .unwrap();
    assert_ne!(master, wrong);
    assert!(!pk_set.public_key().verify(&wrong, msg));
}

#[test]
fn combining_refuses_too_few_and_repeated_shares() {
    let sk_set = SecretKeySet::random(2);
    let pk_set = sk_set.public_keys();
    let msg = b"message";
    let share = |i: usize| (i, sk_set.secret_key_share(i).sign(msg));
    let none: Vec<(usize, SignatureShare)> = vec![];
    assert_eq!(Err(Error::NotEnoughShares), pk_set.combine_signatures(&none));
    assert_eq!(
        Err(Error::NotEnoughShares),
        pk_set.combine_signatures(&[share(0), share(1)])
    );
    assert_eq!(
        Err(Error::DuplicateShare),
        pk_set.combine_signatures(&[share(0), share(1), share(0)])
    );
    assert_eq!(
        Err(Error::DuplicateShare),
        pk_set.combine_signatures(&[share(1), share(1), share(1)])
    );
}

#[test]
fn threshold_zero_needs_one_share() {
    let sk_set = SecretKeySet::from(Poly::constant(Fr::from_u64(5)));
    let pk_set = sk_set.public_keys();
    assert_eq!(0, pk_set.threshold());
    let msg = b"message";
    let share = (8usize, sk_set.secret_key_share(8usize).sign(msg));
    assert_eq!(SecretKey::from_scalar(Fr::from_u64(5)).sign(msg), share.1 .0);
    assert_eq!(Ok(share.1 .0), pk_set.combine_signatures(&[share]));
}

#[test]
fn threshold_decryption() {
    let sk_set = SecretKeySet::random(3);
    let pk_set = sk_set.public_keys();
    let msg = b"Totally real news";
    let ct = pk_set.public_key().encrypt(msg);
    let shares: Vec<(usize, DecryptionShare)> = [2usize, 5, 7, 11]
        .iter()
        .map(|&i| (i, sk_set.secret_key_share(i).decrypt_share(&ct).unwrap()))
        .collect();
    for (i, share) in &shares {
        assert!(pk_set.public_key_share(*i).verify_decryption_share(share, &ct));
    }
    assert!(!pk_set.public_key_share(3usize).verify_decryption_share(&shares[0].1, &ct));
    assert_eq!(Ok(msg.to_vec()), pk_set.decrypt(&shares, &ct));
    assert_eq!(Some(msg.to_vec()), sk_set.secret_key().decrypt(&ct));
    assert_eq!(Err(Error::NotEnoughShares), pk_set.decrypt(&shares[..3], &ct));
    let mut repeated = shares.clone();
    repeated[3] = repeated[0];
    assert_eq!(Err(Error::DuplicateShare), pk_set.decrypt(&repeated, &ct));
    let mut wrong = shares.clone();
    wrong[3].0 = 12;
    assert_ne!(Ok(msg.to_vec()), pk_set.decrypt(&wrong, &ct));
    let mut tampered = ct.clone();
    tampered.1[0] ^= 1;
    assert_eq!(Err(Error::MalformedCiphertext), pk_set.decrypt(&shares, &tampered));
    assert_eq!(Err(Error::MalformedCiphertext), pk_set.decrypt(&shares[..1], &tampered));
    assert_eq!(None, sk_set.secret_key_share(2usize).decrypt_share(&tampered));
}

#[test]
fn shares_are_values_of_the_polynomial() {
    // 7 + 2 X
    let poly = Poly::from(vec![Fr::from_u64(7), Fr::from_u64(2)]);
    let sk_set = SecretKeySet::from(poly.clone());
    assert_eq!(1, sk_set.threshold());
    assert_eq!(SecretKey::from_scalar(Fr::from_u64(7)), sk_set.secret_key());
    // Share `i` is the value at `i + 1`.
    assert_eq!(
        SecretKeyShare::from_sk(SecretKey::from_scalar(Fr::from_u64(9))),
        sk_set.secret_key_share(0usize)
    );
    assert_eq!(
        SecretKeyShare::from_sk(SecretKey::from_scalar(Fr::from_u64(15))),
        sk_set.secret_key_share(3u64)
    );
    let pk_set = sk_set.public_keys();
    assert_eq!(sk_set.secret_key().public_key(), pk_set.public_key());
    assert_eq!(
        sk_set.secret_key_share(3u64).public_key_share(),
        pk_set.public_key_share(3u64)
    );
    assert_eq!(
        G1::generator().times(&Fr::from_u64(15)),
        pk_set.public_key_share(3u64).0 .0
    );
}

#[test]
fn combining_key_sets_adds_the_polynomials() {
    let a = SecretKeySet::random(2);
    let b = SecretKeySet::random(3);
    let sum = a.public_keys().combine(b.public_keys());
    assert_eq!(3, sum.threshold());
    let expected = a.secret_key_share(4usize).public_key_share().combine(&b.secret_key_share(4usize).public_key_share());
    assert_eq!(expected, sum.public_key_share(4usize));
    assert_eq!(sum.clone(), b.public_keys().combine(a.public_keys()));
    assert_ne!(sum, a.public_keys());
}

#[test]
fn commitment_of_a_polynomial() {
    let poly = Poly::from(vec![Fr::from_u64(7), Fr::from_u64(2), Fr::from_u64(4)]);
    let c = poly.commitment();
    assert_eq!(2, c.degree());
    let g = G1::generator();
    assert_eq!(g.times(&Fr::from_u64(2)), c.coefficient(1));
    assert_eq!(G1::identity(), c.coefficient(3));
    for x in 0u64..4 {
        assert_eq!(g.times(&poly.evaluate(x)), c.evaluate(x));
    }
    assert_eq!(g.times(&Fr::from_u64(7)), c.public_key().0);
    let zero = Poly::zero().commitment();
    assert_eq!(0, zero.degree());
    assert_eq!(G1::identity(), zero.evaluate(5u64));
    assert_eq!(G1::identity(), zero.public_key().0);
    assert_eq!(zero, Commitment::from(vec![G1::identity(), G1::identity()]));
    let other = Poly::from(vec![Fr::from_u64(1), Fr::from_u64(1), Fr::from_u64(4).negate()]);
    let sum = c.add(&other.commitment());
    assert_eq!(poly.add(&other).commitment(), sum);
    assert_eq!(1, sum.degree());
}

#[test]
fn try_random_and_share_helpers() {
    assert_eq!(
        Some(Error::DegreeOverflow),
        SecretKeySet::try_random(usize::MAX).err()
    );
    let set = SecretKeySet::try_random(1).unwrap();
    assert_eq!(set, set.clone());
    let share = SecretKeyShare::new();
    assert_eq!(share, share.clone());
    assert_ne!(share, SecretKeyShare::default());
    let mut scalar = Fr::from_u64(3);
    let from_mut = SecretKeyShare::from_mut(&mut scalar);
    assert_eq!(Fr::zero(), scalar);
    assert_eq!(
        SecretKey::from_scalar(Fr::from_u64(3)).public_key(),
        from_mut.public_key_share().0
    );
}

#[test]
fn error_messages() {
    assert_eq!("not enough shares", Error::NotEnoughShares.message());
    assert_eq!("two samples with the same x", Error::InterpolationInvalid.message());
    assert_ne!(Error::DuplicateShare.message(), Error::DegreeOverflow.message());
    assert_ne!(Error::MalformedCiphertext.message(), Error::InvalidSignature.message());
}

#[test]
fn commitments_are_ordered_by_length_and_then_by_points() {
    let short = Poly::from(vec![Fr::from_u64(9)]).commitment();
    let a = Poly::from(vec![Fr::from_u64(1), Fr::from_u64(2)]).commitment();
    let b = Poly::from(vec![Fr::from_u64(1), Fr::from_u64(3)]).commitment();
    assert_eq!(std::cmp::Ordering::Less, short.cmp(&a));
    assert_eq!(std::cmp::Ordering::Greater, a.cmp(&short));
    assert_eq!(std::cmp::Ordering::Equal, a.cmp(&a.clone()));
    let two = G1::generator().times(&Fr::from_u64(2)).to_compressed();
    let three = G1::generator().times(&Fr::from_u64(3)).to_compressed();
    let expected = two.as_ref().cmp(three.as_ref());
    assert_ne!(std::cmp::Ordering::Equal, expected);
    assert_eq!(expected, a.cmp(&b));
    assert_eq!(expected.reverse(), b.cmp(&a));
    assert_eq!(Some(expected), a.partial_cmp(&b));
    assert_eq!(expected == std::cmp::Ordering::Less, a < b);
}
