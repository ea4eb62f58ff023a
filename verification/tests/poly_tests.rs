use rust_tc::{Error, Fr, IntoScalar, Poly};

#[test]
fn rand_degree() {
    let deg = 2;
    let p = Poly::random(deg);
    assert_eq!(deg, p.degree())
}

#[test]
fn add() {
    let p1 = Poly::from(vec![Fr::zero(), Fr::one()]);
    let p2 = Poly::from(vec![Fr::one(), Fr::zero()]);
    let expected = Poly::from(vec![Fr::one(), Fr::one()]);
    assert_eq!(expected, p1 + p2);

    let p3 = Poly::from(vec![]);
    let p4 = Poly::from(vec![Fr::one()]);
    assert_eq!(Poly::from(vec![Fr::one()]), p3 + p4)
}

#[test]
fn add_diff_degree() {
    let p1 = Poly::from(vec![Fr::one(), Fr::one(), Fr::one()]);
    let p2 = Poly::from(vec![Fr::zero(), Fr::zero()]);
    let expected = Poly::from(vec![Fr::one(), Fr::one(), Fr::one()]);
    assert_eq!(expected, p1.clone() + p2.clone());

    let p3 = Poly::from(vec![Fr::zero(), Fr::zero(), Fr::zero(), Fr::one()]);
    let expected2 = Poly::from(vec![Fr::one(), Fr::one(), Fr::one(), Fr::one()]);
    assert_eq!(expected2, (p1 + p2) + p3)
}

#[test]
fn mul() {
    // f(x) = x + 1
    let p1 = Poly::from(vec![Fr::one(), Fr::one()]);
    // g(x) = x
    let p2 = Poly::from(vec![Fr::zero(), Fr::one()]);
    // h(x) = x*x + x
    let expected = Poly::from(vec![Fr::zero(), Fr::one(), Fr::one()]);
    assert_eq!(expected, p1.mul(&p2));
}

#[test]
fn full() {
    // p1 = 5 X³ + X - 2.
    let x_pow_3 = Poly::monomial(3);
    let x_pow_1 = Poly::monomial(1);
    let p1 = x_pow_3 * 5 + x_pow_1 - 2;

    let coeff: Vec<Fr> = [-2, 1, 0, 5].iter().map(|c: &i32| c.into_scalar()).collect();
    let p2 = Poly::from(coeff);
    assert_eq!(p2, p1);
    let samples = vec![(-1, -8), (2, 40), (3, 136), (5, 628)];
    for &(x, y) in &samples {
        assert_eq!(y.into_scalar(), p1.evaluate(x));
    }
    let interp = Poly::interpolate(&samples).unwrap();
    assert_eq!(interp, p1);
}

#[test]
fn zeroize() {
    let mut poly = Poly::monomial(3) + Poly::monomial(2) - 1;
    poly.zeroize();
    assert!(poly.is_zero());
}

#[test]
fn zero_polynomial_has_degree_zero_and_value_zero() {
    let zero = Poly::zero();
    assert!(zero.is_zero());
    assert_eq!(0, zero.degree());
    assert_eq!(Fr::zero(), zero.evaluate(7u64));
    assert_eq!(zero, Poly::constant(Fr::zero()));
    assert_eq!(zero, Poly::from(vec![Fr::zero(), Fr::zero()]));
}

#[test]
fn constructors_give_the_expected_coefficients() {
    assert_eq!(Poly::from(vec![Fr::one()]), Poly::one());
    assert_eq!(Poly::from(vec![Fr::zero(), Fr::one()]), Poly::identity());
    assert_eq!(Poly::from(vec![Fr::from_u64(9)]), Poly::constant(Fr::from_u64(9)));
    let cubic = Poly::monomial(3);
    assert_eq!(3, cubic.degree());
    assert_eq!(Fr::one(), cubic.coefficient(3));
    assert_eq!(Fr::zero(), cubic.coefficient(2));
    assert_eq!(Fr::zero(), cubic.coefficient(4));
    assert_eq!(Fr::from_u64(8), cubic.evaluate(2u64));
}

#[test]
fn evaluation_uses_every_coefficient() {
    // 3 + 2 X + X^2 at 4 is 27.
    let p = Poly::from(vec![Fr::from_u64(3), Fr::from_u64(2), Fr::from_u64(1)]);
    assert_eq!(Fr::from_u64(27), p.evaluate(4u64));
    assert_eq!(Fr::from_u64(3), p.evaluate(0u64));
    assert_eq!(Fr::from_u64(2), p.evaluate(-1i32));
}

#[test]
fn evaluation_respects_sum_difference_and_product() {
    let p = Poly::from(vec![Fr::from_u64(3), Fr::from_u64(2), Fr::from_u64(1)]);
    let q = Poly::from(vec![Fr::from_u64(5), Fr::from_u64(7)]);
    let x = Fr::from_u64(11);
    let px = p.evaluate(x);
    let qx = q.evaluate(x);
    assert_eq!(px.plus(&qx), p.add(&q).evaluate(x));
    assert_eq!(px.minus(&qx), p.sub(&q).evaluate(x));
    assert_eq!(px.times(&qx), p.mul(&q).evaluate(x));
    assert_eq!(px.negate(), p.neg().evaluate(x));
    assert_eq!(px.times(&Fr::from_u64(6)), p.scale(6u64).evaluate(x));
    // (3 + 2X + X^2)(5 + 7X) = 15 + 31 X + 19 X^2 + 7 X^3
    let product = Poly::from(vec![
        Fr::from_u64(15),
        Fr::from_u64(31),
        Fr::from_u64(19),
        Fr::from_u64(7),
    ]);
    assert_eq!(product, p.mul(&q));
}

#[test]
fn operations_strip_trailing_zeros() {
    let p = Poly::from(vec![Fr::from_u64(3), Fr::from_u64(2)]);
    assert_eq!(Poly::zero(), p.sub(&p));
    assert_eq!(0, p.sub(&p).degree());
    assert_eq!(Poly::zero(), p.scale(0u64));
    assert_eq!(Poly::zero(), p.mul(&Poly::zero()));
    let q = Poly::from(vec![Fr::from_u64(1), Fr::from_u64(2).negate()]);
    assert_eq!(Poly::constant(Fr::from_u64(4)), p.add(&q));
}

#[test]
fn assigning_operations_agree_with_the_others() {
    let p = Poly::from(vec![Fr::from_u64(3), Fr::from_u64(2)]);
    let q = Poly::from(vec![Fr::from_u64(5), Fr::from_u64(7), Fr::from_u64(1)]);
    let mut a = p.clone();
    a.add_assign(&q);
    assert_eq!(p.add(&q), a);
    let mut s = p.clone();
    s.sub_assign(&q);
    assert_eq!(p.sub(&q), s);
    let mut m = p.clone();
    m.mul_assign(&q);
    assert_eq!(p.mul(&q), m);
    let mut c = p.clone();
    c.scale_assign(3u64);
    assert_eq!(p.scale(3u64), c);
    assert_eq!(
        Poly::from(vec![Fr::from_u64(7), Fr::from_u64(2)]),
        p.add_scalar(4u64)
    );
}

#[test]
fn interpolation_fits_every_sample() {
    let samples = vec![(1u64, 10u64), (2, 3), (5, 8), (9, 1), (4, 4)];
    let p = Poly::interpolate(&samples).unwrap();
    assert!(p.degree() <= 4);
    for &(x, y) in &samples {
        assert_eq!(y.into_scalar(), p.evaluate(x));
    }
}

#[test]
fn interpolation_of_samples_on_a_line() {
    // Three samples of 2 X + 1: the correction for the third is zero.
    let samples = vec![(1u64, 3u64), (2, 5), (3, 7), (4, 9)];
    let p = Poly::interpolate(&samples).unwrap();
    assert_eq!(Poly::from(vec![Fr::one(), Fr::from_u64(2)]), p);
}

#[test]
fn interpolation_of_nothing_and_of_one_sample() {
    let none: Vec<(u64, u64)> = vec![];
    assert_eq!(Ok(Poly::zero()), Poly::interpolate(&none));
    assert_eq!(
        Ok(Poly::constant(Fr::from_u64(6))),
        Poly::interpolate(&[(3u64, 6u64)])
    );
}

#[test]
fn interpolation_rejects_a_repeated_x() {
    let samples = vec![(1u64, 3u64), (2, 5), (1, 7)];
    assert_eq!(Err(Error::InterpolationInvalid), Poly::interpolate(&samples));
    let twice = vec![(4u64, 1u64), (4, 1)];
    assert_eq!(Err(Error::InterpolationInvalid), Poly::interpolate(&twice));
}

#[test]
fn clone_is_equal_and_independent() {
    let p = Poly::from(vec![Fr::from_u64(3), Fr::from_u64(2)]);
    let mut q = p.clone();
    assert_eq!(p, q);
    q.zeroize();
    assert_ne!(p, q);
    assert_eq!(Fr::from_u64(3), p.coefficient(0));
}

#[test]
fn operators_agree_with_the_methods() {
    let p = Poly::from(vec![Fr::from_u64(3), Fr::from_u64(2)]);
    let q = Poly::from(vec![Fr::from_u64(5), Fr::from_u64(7), Fr::from_u64(1)]);
    assert_eq!(p.add(&q), &p + &q);
    assert_eq!(p.sub(&q), &p - &q);
    assert_eq!(p.mul(&q), &p * &q);
    assert_eq!(p.add(&q), p.clone() + &q);
    assert_eq!(p.sub(&q), p.clone() - q.clone());
    assert_eq!(p.mul(&q), p.clone() * q.clone());
    assert_eq!(p.scale(4u64), p.clone() * Fr::from_u64(4));
    assert_eq!(p.add_scalar(4u64), p.clone() + Fr::from_u64(4));
    assert_eq!(p.sub_scalar(4u64), p.clone() - Fr::from_u64(4));
    assert_eq!(p.commitment().add(&q.commitment()), p.commitment() + q.commitment());
    assert_eq!(p.add(&q).commitment(), &p.commitment() + &q.commitment());
}
