use rust_tc::{BivarPoly, Fr, G1, IntoScalar, Poly, PublicKeySet, SecretKeySet};

#[test]
fn bipoly_with_secret() {
    let degree: usize = 3;
    let secret: u64 = 42;
    let bipoly_with_secret = BivarPoly::with_secret(secret, degree);
    assert_eq!(secret.into_scalar(), bipoly_with_secret.coefficient(0, 0))
}

#[test]
fn bipoly_test_zeroize() {
    let mut poly = Poly::monomial(3) + Poly::monomial(2) - 1;
    poly.zeroize();
    assert!(poly.is_zero());

    let mut bi_poly = BivarPoly::random(3);
    let random_commitment = bi_poly.commitment();

    bi_poly.zeroize();

    let zero_commitment = bi_poly.commitment();
    assert_ne!(random_commitment, zero_commitment);

    let (x, y): (Fr, Fr) = (Fr::random(), Fr::random());
    assert_eq!(zero_commitment.evaluate(x, y), G1::identity());
}

#[test]
fn basic() {
    // p1 = 5 X³ + X - 2.
    let x_pow_3 = Poly::monomial(3);
    let x_pow_1 = Poly::monomial(1);
    let poly = x_pow_3 * 5 + x_pow_1 - 2;

    let sks = SecretKeySet::from(poly.clone());

    let c = poly.commitment();

    let pks = PublicKeySet::from(c);

    assert_eq!(pks, sks.public_keys())
}

#[test]
fn bivariate_polynomial_is_symmetric() {
    let f = BivarPoly::random(3);
    assert_eq!(3, f.degree());
    for (m, s) in [(1u64, 2u64), (3, 7), (0, 5), (4, 4)] {
        assert_eq!(f.evaluate(m, s), f.evaluate(s, m));
        assert_eq!(f.coefficient(1, 2), f.coefficient(2, 1));
    }
}

#[test]
fn rows_agree_with_evaluation() {
    let f = BivarPoly::random(2);
    for m in 0u64..4 {
        let row = f.row(m);
        assert!(row.degree() <= 2);
        for s in 0u64..4 {
            assert_eq!(f.evaluate(m, s), row.evaluate(s));
        }
    }
}

#[test]
fn rows_commute_with_commitment() {
    let f = BivarPoly::random(2);
    let c = f.commitment();
    assert_eq!(2, c.degree());
    for m in 0u64..3 {
        assert_eq!(f.row(m).commitment(), c.row(m));
        for s in 0u64..3 {
            assert_eq!(G1::generator().times(&f.evaluate(m, s)), c.evaluate(m, s));
        }
    }
}

#[test]
fn constant_bivariate_polynomial() {
    let f = BivarPoly::with_secret(9u64, 0);
    assert_eq!(0, f.degree());
    assert_eq!(Fr::from_u64(9), f.evaluate(3u64, 4u64));
    assert_eq!(Poly::constant(Fr::from_u64(9)), f.row(5u64));
    assert_eq!(G1::generator().times(&Fr::from_u64(9)), f.commitment().evaluate(1u64, 2u64));
}

#[test]
fn evaluation_at_zero_is_the_secret() {
    let f = BivarPoly::with_secret(42u64, 3);
    assert_eq!(Fr::from_u64(42), f.evaluate(0u64, 0u64));
    assert_eq!(Fr::from_u64(42), f.row(0u64).evaluate(0u64));
    assert_eq!(f.coefficient(0, 1), f.row(0u64).coefficient(1));
}

#[test]
fn too_high_a_degree_is_refused() {
    assert_eq!(
        Some(rust_tc::Error::DegreeOverflow),
        BivarPoly::try_random(usize::MAX).err()
    );
    assert_eq!(
        Some(rust_tc::Error::DegreeOverflow),
        BivarPoly::try_random(1 << (usize::BITS / 2)).err()
    );
    assert!(BivarPoly::try_random(2).is_ok());
}

#[test]
fn bivariate_polynomial_from_its_coefficients() {
    // 1 + 2 (x + y) + 3 x y
    let coeff = vec![Fr::from_u64(1), Fr::from_u64(2), Fr::from_u64(3)];
    let f = BivarPoly::from_coefficients(1, coeff.clone()).unwrap();
    assert_eq!(Some(3), BivarPoly::coefficient_count(1));
    assert_eq!(Some(6), BivarPoly::coefficient_count(2));
    assert_eq!(None, BivarPoly::coefficient_count(usize::MAX));
    assert_eq!(Fr::from_u64(2), f.coefficient(0, 1));
    assert_eq!(Fr::from_u64(2), f.coefficient(1, 0));
    assert_eq!(Fr::from_u64(3), f.coefficient(1, 1));
    assert_eq!(Fr::zero(), f.coefficient(2, 0));
    assert_eq!(Fr::zero(), f.coefficient(0, 2));
    // at (2, 5): 1 + 2 * 7 + 3 * 10 = 45
    assert_eq!(Fr::from_u64(45), f.evaluate(2u64, 5u64));
    // the row at 2 is 5 + 8 y
    assert_eq!(Poly::from(vec![Fr::from_u64(5), Fr::from_u64(8)]), f.row(2u64));
    assert!(BivarPoly::from_coefficients(2, coeff.clone()).is_none());
    assert!(BivarPoly::from_coefficients(0, coeff).is_none());
    // 4 + 0 (x + y) + 0 x y: the row's trailing zero is dropped
    let flat = BivarPoly::from_coefficients(1, vec![Fr::from_u64(4), Fr::zero(), Fr::zero()]);
    assert_eq!(Poly::constant(Fr::from_u64(4)), flat.unwrap().row(9u64));
}

#[test]
fn clone_of_a_bivariate_polynomial() {
    let f = BivarPoly::random(2);
    let g = f.clone();
    assert_eq!(f.evaluate(2u64, 3u64), g.evaluate(2u64, 3u64));
    assert_eq!(f.commitment(), g.commitment());
    assert_eq!(f.commitment(), f.commitment().clone());
    assert!(f.revealed().starts_with("BivarPoly { degree: 2"));
    assert!(f.commitment().revealed().starts_with("BivarCommitment { degree: 2"));
}

#[test]
fn bivariate_commitments_are_ordered_by_degree_first() {
    let low = BivarPoly::random(1).commitment();
    let high = BivarPoly::random(2).commitment();
    assert_eq!(std::cmp::Ordering::Less, low.cmp(&high));
    assert_eq!(std::cmp::Ordering::Greater, high.cmp(&low));
    assert_eq!(std::cmp::Ordering::Equal, low.cmp(&low.clone()));
    let other = BivarPoly::random(1).commitment();
    assert_ne!(std::cmp::Ordering::Equal, low.cmp(&other));
    assert_eq!(low.cmp(&other).reverse(), other.cmp(&low));
    assert_eq!(Some(low.cmp(&other)), low.partial_cmp(&other));
}
