//! The groups `G1` and `G2` of BLS12-381 and the pairing between them.
//!
//! Both groups are cyclic of the prime order `q` of the scalar field. A point is held as its
//! compressed encoding and modelled by its discrete logarithm: the `k` in `0 .. q` for which
//! the point is `k` times the group's fixed generator. Adding points adds logarithms,
//! multiplying a point by a scalar multiplies its logarithm, and the pairing of two points
//! is determined by the product of theirs. The curve arithmetic is done by `bls12_381`:
//! each operation decodes its arguments, which cannot fail for bytes that a `G1` or a `G2`
//! holds, and encodes its result.
use crate::field::{ct_eq_bytes, fadd, fmul, modulus, Fr};
use bls12_381::{
    multi_miller_loop, pairing, G1Affine, G1Projective, G2Affine, G2Prepared, G2Projective, Scalar,
};
use group::Group;
use rand::SeedableRng;
use rand_chacha::ChaChaRng;
use vstd::prelude::*;

verus! {

/// The compressed encoding of `k` times the generator of `G1`.
pub uninterp spec fn g1_point(k: int) -> Seq<u8>;

/// The `k` in `0 .. q` for which `b` is the compressed encoding of `k` times the generator
/// of `G1`; a number outside that range where `b` encodes no point of the group.
pub uninterp spec fn g1_log(b: Seq<u8>) -> int;

/// The compressed encoding of `k` times the generator of `G2`.
pub uninterp spec fn g2_point(k: int) -> Seq<u8>;

/// The `k` in `0 .. q` for which `b` is the compressed encoding of `k` times the generator
/// of `G2`; a number outside that range where `b` encodes no point of the group.
pub uninterp spec fn g2_log(b: Seq<u8>) -> int;

/// The discrete logarithm of the point of `G2` that `G2Projective::random` draws from a
/// ChaCha20 generator seeded with `seed`.
pub uninterp spec fn seeded_g2_log(seed: Seq<u8>) -> int;

/// `b` is the compressed encoding of a point of `G1`.
pub open spec fn g1_valid(b: Seq<u8>) -> bool {
    0 <= g1_log(b) < modulus() && g1_point(g1_log(b)) == b
}

/// `b` is the compressed encoding of a point of `G2`.
pub open spec fn g2_valid(b: Seq<u8>) -> bool {
    0 <= g2_log(b) < modulus() && g2_point(g2_log(b)) == b
}

/// The sum of the products of the entries of `a` and `b`, place by place, over the first
/// `n` places.
pub open spec fn dot(a: Seq<int>, b: Seq<int>, n: int) -> int
    decreases n,
{
    if n <= 0 {
        0
    } else {
        dot(a, b, n - 1) + a[n - 1] * b[n - 1]
    }
}

/// A point of `G1`.
#[derive(Clone, Copy, Debug, Hash)]
pub struct G1 {
    bytes: [u8; 48],
}

/// A point of `G2`.
#[derive(Clone, Copy, Debug, Hash)]
pub struct G2 {
    bytes: [u8; 96],
}

impl View for G1 {
    type V = int;

    /// The point's discrete logarithm.
    closed spec fn view(&self) -> int {
        g1_log(self.bytes@)
    }
}

impl View for G2 {
    type V = int;

    /// The point's discrete logarithm.
    closed spec fn view(&self) -> int {
        g2_log(self.bytes@)
    }
}

/// The logarithms of a sequence of points of `G1`.
pub open spec fn g1_logs(s: Seq<G1>) -> Seq<int> {
    Seq::new(s.len(), |i: int| s[i]@)
}

/// The logarithms of a sequence of points of `G2`.
pub open spec fn g2_logs(s: Seq<G2>) -> Seq<int> {
    Seq::new(s.len(), |i: int| s[i]@)
}

impl G1 {
    /// The bytes held are always the encoding of a point of the group: the point's logarithm
    /// is reduced, and the bytes are the encoding of that multiple of the generator.
    #[verifier::type_invariant]
    pub open spec fn valid(self) -> bool {
        0 <= self@ < modulus() && self.encoding() == g1_point(self@) && self@ == g1_log(
            self.encoding(),
        )
    }

    /// The compressed encoding that this point has.
    pub closed spec fn encoding(self) -> Seq<u8> {
        self.bytes@
    }

    /// The fixed generator of the group.
    pub fn generator() -> (r: G1)
        ensures
            r@ == 1,
    {
        g1_generator()
    }

    /// The neutral element.
    pub fn identity() -> (r: G1)
        ensures
            r@ == 0,
    {
        g1_identity()
    }

    /// Decodes a compressed point; `None` where the bytes encode no point of the group.
    pub fn from_compressed(bytes: &[u8; 48]) -> (r: Option<G1>)
        ensures
            r.is_some() == g1_valid(bytes@),
            r matches Some(p) ==> p.encoding() == bytes@ && p@ == g1_log(bytes@),
    {
        g1_decode(bytes)
    }

    /// The 48-byte compressed encoding.
    pub fn to_compressed(&self) -> (r: [u8; 48])
        ensures
            r@ == self.encoding(),
            r@ == g1_point(self@),
            g1_log(r@) == self@,
    {
        proof {
            use_type_invariant(self);
        }
        self.bytes
    }

    /// The sum of two points.
    pub fn plus(&self, rhs: &G1) -> (r: G1)
        ensures
            r@ == fadd(self@, rhs@),
    {
        g1_add(self, rhs)
    }

    /// The point multiplied by a scalar.
    pub fn times(&self, s: &Fr) -> (r: G1)
        ensures
            r@ == fmul(self@, s@),
    {
        g1_mul(self, s)
    }

    /// Whether two points are the same, decided in constant time on their encodings.
    pub fn equals(&self, other: &G1) -> (r: bool)
        ensures
            r == (self@ == other@),
    {
        proof {
            use_type_invariant(self);
            use_type_invariant(other);
        }
        ct_eq_bytes(&self.bytes, &other.bytes)
    }

    /// Whether this is the neutral element.
    pub fn is_identity(&self) -> (r: bool)
        ensures
            r == (self@ == 0),
    {
        let e = G1::identity();
        self.equals(&e)
    }
}

impl G2 {
    /// The bytes held are always the encoding of a point of the group: the point's logarithm
    /// is reduced, and the bytes are the encoding of that multiple of the generator.
    #[verifier::type_invariant]
    pub open spec fn valid(self) -> bool {
        0 <= self@ < modulus() && self.encoding() == g2_point(self@) && self@ == g2_log(
            self.encoding(),
        )
    }

    /// The compressed encoding that this point has.
    pub closed spec fn encoding(self) -> Seq<u8> {
        self.bytes@
    }

    /// The neutral element.
    pub fn identity() -> (r: G2)
        ensures
            r@ == 0,
    {
        g2_identity()
    }

    /// Decodes a compressed point; `None` where the bytes encode no point of the group.
    pub fn from_compressed(bytes: &[u8; 96]) -> (r: Option<G2>)
        ensures
            r.is_some() == g2_valid(bytes@),
            r matches Some(p) ==> p.encoding() == bytes@ && p@ == g2_log(bytes@),
    {
        g2_decode(bytes)
    }

    /// The 96-byte compressed encoding.
    pub fn to_compressed(&self) -> (r: [u8; 96])
        ensures
            r@ == self.encoding(),
            r@ == g2_point(self@),
            g2_log(r@) == self@,
    {
        proof {
            use_type_invariant(self);
        }
        self.bytes
    }

    /// The point that a ChaCha20 generator seeded with `seed` yields.
    pub fn from_seed(seed: &[u8; 32]) -> (r: G2)
        ensures
            r@ == seeded_g2_log(seed@),
    {
        g2_seeded(seed)
    }

    /// The sum of two points.
    pub fn plus(&self, rhs: &G2) -> (r: G2)
        ensures
            r@ == fadd(self@, rhs@),
    {
        g2_add(self, rhs)
    }

    /// The point multiplied by a scalar.
    pub fn times(&self, s: &Fr) -> (r: G2)
        ensures
            r@ == fmul(self@, s@),
    {
        g2_mul(self, s)
    }

    /// Whether two points are the same, decided in constant time on their encodings.
    pub fn equals(&self, other: &G2) -> (r: bool)
        ensures
            r == (self@ == other@),
    {
        proof {
            use_type_invariant(self);
            use_type_invariant(other);
        }
        ct_eq_bytes(&self.bytes, &other.bytes)
    }
}

impl PartialEq for G1 {
    fn eq(&self, other: &G1) -> (r: bool) {
        self.equals(other)
    }
}

impl Eq for G1 {

}

impl vstd::std_specs::cmp::PartialEqSpecImpl for G1 {
    open spec fn obeys_eq_spec() -> bool {
        true
    }

    open spec fn eq_spec(&self, other: &G1) -> bool {
        self@ == other@
    }
}

impl PartialEq for G2 {
    fn eq(&self, other: &G2) -> (r: bool) {
        self.equals(other)
    }
}

impl Eq for G2 {

}

impl vstd::std_specs::cmp::PartialEqSpecImpl for G2 {
    open spec fn obeys_eq_spec() -> bool {
        true
    }

    open spec fn eq_spec(&self, other: &G2) -> bool {
        self@ == other@
    }
}

/// Whether `e(p1, q1) == e(p2, q2)`.
pub fn pairing_eq(p1: &G1, q1: &G2, p2: &G1, q2: &G2) -> (r: bool)
    ensures
        r == (fmul(p1@, q1@) == fmul(p2@, q2@)),
{
    pairings_agree(p1, q1, p2, q2)
}

/// Whether the product of the pairings `e(ps[i], qs[i])` equals `e(p, q)`.
pub fn pairing_product_eq(ps: &[G1], qs: &[G2], p: &G1, q: &G2) -> (r: bool)
    requires
        ps@.len() == qs@.len(),
    ensures
        r == (dot(g1_logs(ps@), g2_logs(qs@), ps@.len() as int) % modulus() == fmul(p@, q@)),
{
    pairing_product_agrees(ps, qs, p, q)
}

/// `G1Affine::generator`: the fixed generator, whose logarithm is one by definition.
#[verifier::external_body]
fn g1_generator() -> (r: G1)
    ensures
        r@ == 1,
        r.valid(),
{
    G1 { bytes: G1Affine::generator().to_compressed() }
}

/// `G1Affine::identity`: the neutral element, zero times the generator.
#[verifier::external_body]
fn g1_identity() -> (r: G1)
    ensures
        r@ == 0,
        r.valid(),
{
    G1 { bytes: G1Affine::identity().to_compressed() }
}

/// `G1Affine::from_compressed`: accepts exactly the encodings of the group's points, and
/// `to_compressed` gives the accepted bytes back.
#[verifier::external_body]
fn g1_decode(bytes: &[u8; 48]) -> (r: Option<G1>)
    ensures
        r.is_some() == (0 <= g1_log(bytes@) < modulus() && g1_point(g1_log(bytes@)) == bytes@),
        r matches Some(p) ==> p.bytes@ == bytes@,
        r matches Some(p) ==> p.valid(),
{
    match Option::<G1Affine>::from(G1Affine::from_compressed(bytes)) {
        Some(p) => Some(G1 { bytes: p.to_compressed() }),
        None => None,
    }
}

/// Addition of `G1Projective`: the sum of two points is the sum of their multiples of the
/// generator. The arguments decode, and the result is a point of the group too.
#[verifier::external_body]
fn g1_add(a: &G1, b: &G1) -> (r: G1)
    ensures
        r@ == fadd(a@, b@),
        r.valid(),
{
    let x = G1Affine::from_compressed_unchecked(&a.bytes).unwrap();
    let y = G1Affine::from_compressed_unchecked(&b.bytes).unwrap();
    G1 { bytes: G1Affine::from(G1Projective::from(x).add_mixed(&y)).to_compressed() }
}

/// Multiplication of a `G1Affine` by a `Scalar`: `s` times `k` times the generator, which is
/// a point of the group too.
#[verifier::external_body]
fn g1_mul(a: &G1, s: &Fr) -> (r: G1)
    ensures
        r@ == fmul(a@, s@),
        r.valid(),
{
    let x = G1Affine::from_compressed_unchecked(&a.bytes).unwrap();
    let k = Scalar::from_bytes(&s.to_bytes()).unwrap();
    G1 { bytes: G1Affine::from(x * k).to_compressed() }
}

/// `G2Affine::identity`: the neutral element, zero times the generator.
#[verifier::external_body]
fn g2_identity() -> (r: G2)
    ensures
        r@ == 0,
        r.valid(),
{
    G2 { bytes: G2Affine::identity().to_compressed() }
}

/// `G2Affine::from_compressed`: accepts exactly the encodings of the group's points, and
/// `to_compressed` gives the accepted bytes back.
#[verifier::external_body]
fn g2_decode(bytes: &[u8; 96]) -> (r: Option<G2>)
    ensures
        r.is_some() == (0 <= g2_log(bytes@) < modulus() && g2_point(g2_log(bytes@)) == bytes@),
        r matches Some(p) ==> p.bytes@ == bytes@,
        r matches Some(p) ==> p.valid(),
{
    match Option::<G2Affine>::from(G2Affine::from_compressed(bytes)) {
        Some(p) => Some(G2 { bytes: p.to_compressed() }),
        None => None,
    }
}

/// `G2Projective::random` on a `ChaChaRng` made by `from_seed`: a point that depends on the
/// seed alone.
#[verifier::external_body]
fn g2_seeded(seed: &[u8; 32]) -> (r: G2)
    ensures
        r@ == seeded_g2_log(seed@),
        r.valid(),
{
    let mut rng = ChaChaRng::from_seed(*seed);
    G2 { bytes: G2Affine::from(G2Projective::random(&mut rng)).to_compressed() }
}

/// Addition of `G2Projective`: the sum of two points is the sum of their multiples of the
/// generator. The arguments decode, and the result is a point of the group too.
#[verifier::external_body]
fn g2_add(a: &G2, b: &G2) -> (r: G2)
    ensures
        r@ == fadd(a@, b@),
        r.valid(),
{
    let x = G2Affine::from_compressed_unchecked(&a.bytes).unwrap();
    let y = G2Affine::from_compressed_unchecked(&b.bytes).unwrap();
    G2 { bytes: G2Affine::from(G2Projective::from(x).add_mixed(&y)).to_compressed() }
}

/// Multiplication of a `G2Affine` by a `Scalar`: `s` times `k` times the generator, which is
/// a point of the group too.
#[verifier::external_body]
fn g2_mul(a: &G2, s: &Fr) -> (r: G2)
    ensures
        r@ == fmul(a@, s@),
        r.valid(),
{
    let x = G2Affine::from_compressed_unchecked(&a.bytes).unwrap();
    let k = Scalar::from_bytes(&s.to_bytes()).unwrap();
    G2 { bytes: G2Affine::from(x * k).to_compressed() }
}

/// `pairing`, twice, and the equality of `Gt`. The pairing is bilinear and not degenerate
/// and its target group has order `q`, so two pairings agree exactly where the products of
/// their arguments' logarithms agree modulo `q`.
#[verifier::external_body]
fn pairings_agree(p1: &G1, q1: &G2, p2: &G1, q2: &G2) -> (r: bool)
    ensures
        r == (fmul(p1@, q1@) == fmul(p2@, q2@)),
{
    let a1 = G1Affine::from_compressed_unchecked(&p1.bytes).unwrap();
    let b1 = G2Affine::from_compressed_unchecked(&q1.bytes).unwrap();
    let a2 = G1Affine::from_compressed_unchecked(&p2.bytes).unwrap();
    let b2 = G2Affine::from_compressed_unchecked(&q2.bytes).unwrap();
    pairing(&a1, &b1) == pairing(&a2, &b2)
}

/// `multi_miller_loop` with `final_exponentiation` against `pairing`: the product of the
/// pairings of the listed couples equals the one pairing exactly where the sum of the
/// products of their logarithms agrees with the product of the one couple's modulo `q`.
#[verifier::external_body]
fn pairing_product_agrees(ps: &[G1], qs: &[G2], p: &G1, q: &G2) -> (r: bool)
    requires
        ps@.len() == qs@.len(),
    ensures
        r == (dot(g1_logs(ps@), g2_logs(qs@), ps@.len() as int) % modulus() == fmul(p@, q@)),
{
    let a: Vec<G1Affine> =
        ps.iter().map(|x| G1Affine::from_compressed_unchecked(&x.bytes).unwrap()).collect();
    let b: Vec<G2Prepared> = qs.iter().map(
        |x| G2Prepared::from(G2Affine::from_compressed_unchecked(&x.bytes).unwrap()),
    ).collect();
    let terms: Vec<(&G1Affine, &G2Prepared)> = a.iter().zip(b.iter()).collect();
    let lhs = multi_miller_loop(&terms).final_exponentiation();
    let g = G1Affine::from_compressed_unchecked(&p.bytes).unwrap();
    let h = G2Affine::from_compressed_unchecked(&q.bytes).unwrap();
    lhs == pairing(&g, &h)
}

} // verus!
