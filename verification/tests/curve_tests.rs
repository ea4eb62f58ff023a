use rust_tc::curve::{pairing_eq, pairing_product_eq};
use rust_tc::util::{cmp_g1_affine, hash_g2};
use rust_tc::{Fr, G1, G2};
use std::cmp::Ordering;

#[test]
fn mul_test() {
    let x: Fr = Fr::from_u64(42);
    let zero = G1::identity();
    let mut one = G1::generator();
    one = one.times(&x);
    println!("zero: {:#?}", zero);
    println!("one: {:#?}", one);
    assert_ne!(zero, one);
}

#[test]
fn mul_test2() {
    let x: Fr = Fr::from_u64(42);
    let zero = G1::identity();
    let mut one = G1::generator();
    one = one.times(&x);
    println!("zero: {:#?}", zero);
    println!("one: {:#?}", one);
    assert_ne!(zero, one);
}

#[test]
fn group_operations_agree_with_scalar_arithmetic() {
    let g = G1::generator();
    let a = Fr::from_u64(17);
    let b = Fr::from_u64(25);
    assert_eq!(g.times(&a.plus(&b)), g.times(&a).plus(&g.times(&b)));
    assert_eq!(g.times(&a.times(&b)), g.times(&a).times(&b));
    assert_eq!(g, g.plus(&G1::identity()));
    assert_eq!(g, g.times(&Fr::one()));
    assert_eq!(G1::identity(), g.times(&Fr::zero()));
    assert_eq!(G1::identity(), g.times(&a).plus(&g.times(&a.negate())));
    assert!(G1::identity().is_identity());
    assert!(!g.is_identity());
    let h = hash_g2(b"a point of the second group");
    assert_eq!(h.times(&a.plus(&b)), h.times(&a).plus(&h.times(&b)));
    assert_eq!(h, h.plus(&G2::identity()));
    assert_ne!(h, h.plus(&h));
}

#[test]
fn compressed_points_round_trip() {
    let p = G1::generator().times(&Fr::from_u64(5));
    let bytes = p.to_compressed();
    assert_eq!(Some(p), G1::from_compressed(&bytes));
    assert_eq!(None, G1::from_compressed(&[0u8; 48]));
    let mut infinity = [0u8; 48];
    infinity[0] = 0xc0;
    assert_eq!(Some(G1::identity()), G1::from_compressed(&infinity));
    assert_eq!(infinity, G1::identity().to_compressed());
    let q = hash_g2(b"some point");
    assert_eq!(Some(q), G2::from_compressed(&q.to_compressed()));
    assert_eq!(None, G2::from_compressed(&[0u8; 96]));
}

#[test]
fn pairing_is_bilinear() {
    let g = G1::generator();
    let h = hash_g2(b"a point of the second group");
    let a = Fr::from_u64(6);
    let b = Fr::from_u64(35);
    assert!(pairing_eq(&g.times(&a), &h.times(&b), &g.times(&b), &h.times(&a)));
    assert!(pairing_eq(&g.times(&a.times(&b)), &h, &g, &h.times(&a.times(&b))));
    assert!(!pairing_eq(&g.times(&a), &h, &g.times(&b), &h));
    assert!(!pairing_eq(&g, &h, &G1::identity(), &h));
}

#[test]
fn pairing_products() {
    let g = G1::generator();
    let h = hash_g2(b"a point of the second group");
    let two = Fr::from_u64(2);
    let three = Fr::from_u64(3);
    let five = Fr::from_u64(5);
    // e(2g, h) e(g, 3h) == e(g, 5h)
    assert!(pairing_product_eq(
        &[g.times(&two), g],
        &[h, h.times(&three)],
        &g,
        &h.times(&five)
    ));
    assert!(!pairing_product_eq(
        &[g.times(&two), g],
        &[h, h.times(&three)],
        &g,
        &h.times(&three)
    ));
    // The empty product is the neutral element.
    assert!(pairing_product_eq(&[], &[], &G1::identity(), &h));
    assert!(!pairing_product_eq(&[], &[], &g, &h));
}

#[test]
fn points_are_ordered_by_their_encodings() {
    let g = G1::generator();
    let p = g.times(&Fr::from_u64(2));
    assert_eq!(Ordering::Equal, cmp_g1_affine(&g, &g));
    let expected = g.to_compressed().as_ref().cmp(p.to_compressed().as_ref());
    assert_ne!(Ordering::Equal, expected);
    assert_eq!(expected, cmp_g1_affine(&g, &p));
    assert_eq!(expected.reverse(), cmp_g1_affine(&p, &g));
}
