//! The scalar field of BLS12-381.
//!
//! A scalar is held as its canonical 32-byte little-endian encoding, so that its value is a
//! plain number to the verifier. The arithmetic itself is done by `bls12_381::Scalar`: each
//! operation decodes its arguments, which cannot fail for the bytes that an `Fr` holds, and
//! encodes its result.
use bls12_381::Scalar;
use ff::Field;
use subtle::ConstantTimeEq;
use vstd::arithmetic::div_mod::{
    lemma_add_mod_noop, lemma_fundamental_div_mod, lemma_mod_twice, lemma_mul_mod_noop_general,
    lemma_small_mod,
};
use vstd::prelude::*;
use zeroize::Zeroize;

verus! {

/// The order `q` of the scalar field, a 255-bit prime.
pub open spec fn modulus() -> int {
    0x73eda753299d7d483339d80809a1d80553bda402fffe5bfeffffffff00000001int
}

/// Addition in the field.
pub open spec fn fadd(a: int, b: int) -> int {
    (a + b) % modulus()
}

/// Subtraction in the field.
pub open spec fn fsub(a: int, b: int) -> int {
    (a - b) % modulus()
}

/// Multiplication in the field.
pub open spec fn fmul(a: int, b: int) -> int {
    (a * b) % modulus()
}

/// Negation in the field.
pub open spec fn fneg(a: int) -> int {
    (-a) % modulus()
}

/// `b` is the reduced multiplicative inverse of `a`.
pub open spec fn is_inverse(a: int, b: int) -> bool {
    0 <= b < modulus() && fmul(a, b) == 1
}

/// The multiplicative inverse of `a`, where it has one.
pub open spec fn finv(a: int) -> int {
    choose|b: int| is_inverse(a, b)
}

/// The number that a little-endian byte string denotes.
pub open spec fn le_value(s: Seq<u8>) -> int
    decreases s.len(),
{
    if s.len() == 0 {
        0
    } else {
        s[0] as int + 256 * le_value(s.skip(1))
    }
}

/// The number that four 64-bit limbs denote, least significant limb first.
pub open spec fn limbs_value(l: Seq<u64>) -> int
    recommends
        l.len() == 4,
{
    l[0] as int + 0x1_0000_0000_0000_0000 * (l[1] as int + 0x1_0000_0000_0000_0000 * (l[2] as int
        + 0x1_0000_0000_0000_0000 * (l[3] as int)))
}

/// A byte string of zeros denotes zero.
pub proof fn lemma_le_value_zeros(s: Seq<u8>)
    requires
        forall|i: int| 0 <= i < s.len() ==> s[i] == 0,
    ensures
        le_value(s) == 0,
    decreases s.len(),
{
    if s.len() > 0 {
        lemma_le_value_zeros(s.skip(1));
    }
}

/// Two byte strings of one length that denote the same number are the same string.
pub proof fn lemma_le_value_injective(a: Seq<u8>, b: Seq<u8>)
    requires
        a.len() == b.len(),
        le_value(a) == le_value(b),
    ensures
        a == b,
    decreases a.len(),
{
    if a.len() > 0 {
        let x = le_value(a.skip(1));
        let y = le_value(b.skip(1));
        assert(a[0] as int + 256 * x == b[0] as int + 256 * y);
        assert(x == y && a[0] == b[0]) by {
            if x < y {
                assert(256 * x + 256 <= 256 * y);
            } else if y < x {
                assert(256 * y + 256 <= 256 * x);
            }
        }
        lemma_le_value_injective(a.skip(1), b.skip(1));
        assert(a =~= seq![a[0]] + a.skip(1));
        assert(b =~= seq![b[0]] + b.skip(1));
    } else {
        assert(a =~= b);
    }
}

/// A value has at most one reduced inverse.
pub proof fn lemma_inverse_unique(a: int, b: int, c: int)
    requires
        is_inverse(a, b),
        is_inverse(a, c),
    ensures
        b == c,
{
    let m = modulus();
    // b == b * (a * c) == (b * a) * c == c, all modulo m
    assert(b * (a * c) == c * (a * b)) by (nonlinear_arith);
    lemma_mul_mod_noop_general(b, a * c, m);
    lemma_mul_mod_noop_general(c, a * b, m);
    assert((b * 1) % m == (c * 1) % m);
    lemma_small_mod(b as nat, m as nat);
    lemma_small_mod(c as nat, m as nat);
}

/// A value that has a reduced inverse `b` has `b` as its inverse.
pub proof fn lemma_finv_is(a: int, b: int)
    requires
        is_inverse(a, b),
    ensures
        finv(a) == b,
{
    lemma_inverse_unique(a, b, finv(a));
}

/// Multiplication in the field is commutative and associative, and factors may be reduced
/// first.
pub proof fn lemma_fmul_laws(a: int, b: int, c: int)
    ensures
        fmul(a, b) == fmul(b, a),
        fmul(a, fmul(b, c)) == fmul(fmul(a, b), c),
        fmul(a % modulus(), b) == fmul(a, b),
        fmul(a, b % modulus()) == fmul(a, b),
        0 <= fmul(a, b) < modulus(),
{
    let m = modulus();
    assert(a * b == b * a) by (nonlinear_arith);
    assert(a * (b * c) == (a * b) * c) by (nonlinear_arith);
    lemma_mul_mod_noop_general(a, b * c, m);
    lemma_mul_mod_noop_general(a * b, c, m);
    lemma_mul_mod_noop_general(a, b, m);
}

/// Addition in the field is commutative and associative, and summands may be reduced first.
pub proof fn lemma_fadd_laws(a: int, b: int, c: int)
    ensures
        fadd(a, b) == fadd(b, a),
        fadd(a, fadd(b, c)) == fadd(fadd(a, b), c),
        fadd(a % modulus(), b) == fadd(a, b),
        fadd(a, b % modulus()) == fadd(a, b),
        0 <= fadd(a, b) < modulus(),
{
    let m = modulus();
    lemma_add_mod_noop(a, b + c, m);
    lemma_add_mod_noop(a + b, c, m);
    lemma_add_mod_noop(a, b, m);
    lemma_add_mod_noop(b, c, m);
    lemma_mod_twice(a, m);
    lemma_mod_twice(b, m);
    lemma_mod_twice(c, m);
    lemma_mod_twice(a + b, m);
    lemma_mod_twice(b + c, m);
    lemma_add_mod_noop(a % m, b, m);
    lemma_add_mod_noop(a, b % m, m);
    lemma_add_mod_noop(a, (b + c) % m, m);
    lemma_add_mod_noop((a + b) % m, c, m);
}

/// A reduced number is its own residue.
pub proof fn lemma_reduced(a: int)
    requires
        0 <= a < modulus(),
    ensures
        a % modulus() == a,
        fadd(a, 0) == a,
        fmul(a, 1) == a,
        fmul(a, 0) == 0,
        fsub(a, a) == 0,
{
    lemma_small_mod(a as nat, modulus() as nat);
    lemma_small_mod(0, modulus() as nat);
    assert(a * 1 == a);
    assert(a * 0 == 0);
}

/// Two reduced numbers whose difference is zero in the field are the same.
pub proof fn lemma_fsub_zero(a: int, b: int)
    requires
        0 <= a < modulus(),
        0 <= b < modulus(),
        fsub(a, b) == 0,
    ensures
        a == b,
{
    let m = modulus();
    lemma_fundamental_div_mod(a - b, m);
    let q = (a - b) / m;
    assert(a - b == m * q);
    if q > 0 {
        assert(m * q >= m) by (nonlinear_arith)
            requires
                q >= 1,
                m > 0,
        ;
    } else if q < 0 {
        assert(m * q <= -m) by (nonlinear_arith)
            requires
                q <= -1,
                m > 0,
        ;
    }
}

/// An element of the scalar field.
#[derive(Clone, Copy, Debug)]
pub struct Fr {
    bytes: [u8; 32],
}

impl View for Fr {
    type V = int;

    /// The scalar as a number.
    closed spec fn view(&self) -> int {
        le_value(self.bytes@)
    }
}

impl Fr {
    /// Every scalar is reduced: it lies in `0 .. q`.
    #[verifier::type_invariant]
    pub open spec fn canonical(self) -> bool {
        0 <= self@ < modulus()
    }

    /// The additive identity.
    pub fn zero() -> (r: Fr)
        ensures
            r@ == 0,
    {
        let bytes = [0u8; 32];
        proof {
            lemma_le_value_zeros(bytes@);
        }
        Fr { bytes }
    }

    /// The multiplicative identity.
    pub fn one() -> (r: Fr)
        ensures
            r@ == 1,
    {
        let mut bytes = [0u8; 32];
        bytes[0] = 1;
        proof {
            lemma_le_value_zeros(bytes@.skip(1));
        }
        Fr { bytes }
    }

    /// The scalar with the value of `x`.
    pub fn from_u64(x: u64) -> (r: Fr)
        ensures
            r@ == x,
    {
        scalar_from_u64(x)
    }

    /// The scalar congruent to the 256-bit number that `limbs` denote.
    pub fn from_raw(limbs: [u64; 4]) -> (r: Fr)
        ensures
            r@ == limbs_value(limbs@) % modulus(),
    {
        scalar_from_raw(limbs)
    }

    /// Decodes a canonical little-endian encoding; `None` where the number is not below `q`.
    pub fn from_bytes(bytes: &[u8; 32]) -> (r: Option<Fr>)
        ensures
            r.is_some() == (le_value(bytes@) < modulus()),
            r matches Some(x) ==> x@ == le_value(bytes@),
    {
        scalar_from_bytes(bytes)
    }

    /// The canonical little-endian encoding.
    pub fn to_bytes(&self) -> (r: [u8; 32])
        ensures
            le_value(r@) == self@,
    {
        self.bytes
    }

    /// A scalar drawn from the operating system's random number generator. Whatever is
    /// drawn, it is an element of the field: a number in `0 .. q`.
    pub fn random() -> (r: Fr)
        ensures
            0 <= r@ < modulus(),
    {
        scalar_random()
    }

    /// Whether this is the additive identity.
    pub fn is_zero(&self) -> (r: bool)
        ensures
            r == (self@ == 0),
    {
        let z = Fr::zero();
        self.equals(&z)
    }

    /// Equality, decided in constant time.
    pub fn equals(&self, other: &Fr) -> (r: bool)
        ensures
            r == (self@ == other@),
    {
        let r = ct_eq_bytes(&self.bytes, &other.bytes);
        proof {
            if self@ == other@ {
                lemma_le_value_injective(self.bytes@, other.bytes@);
            }
        }
        r
    }

    /// The sum.
    pub fn plus(&self, rhs: &Fr) -> (r: Fr)
        ensures
            r@ == fadd(self@, rhs@),
    {
        scalar_add(self, rhs)
    }

    /// The difference.
    pub fn minus(&self, rhs: &Fr) -> (r: Fr)
        ensures
            r@ == fsub(self@, rhs@),
    {
        scalar_sub(self, rhs)
    }

    /// The product.
    pub fn times(&self, rhs: &Fr) -> (r: Fr)
        ensures
            r@ == fmul(self@, rhs@),
            r@ == 0 ==> self@ == 0 || rhs@ == 0,
    {
        scalar_mul(self, rhs)
    }

    /// The additive inverse.
    pub fn negate(&self) -> (r: Fr)
        ensures
            r@ == fneg(self@),
    {
        scalar_neg(self)
    }

    /// The multiplicative inverse; `None` for zero and for nothing else.
    pub fn invert(&self) -> (r: Option<Fr>)
        ensures
            r.is_some() == (self@ != 0),
            r matches Some(i) ==> is_inverse(self@, i@) && i@ == finv(self@),
    {
        let r = scalar_invert(self);
        proof {
            if let Some(i) = r {
                use_type_invariant(&i);
                lemma_finv_is(self@, i@);
            }
        }
        r
    }

    /// Overwrites the scalar with zero.
    pub fn clear(&mut self)
        ensures
            final(self)@ == 0,
        opens_invariants none
        no_unwind
    {
        wipe_scalar(self);
    }
}

/// The numbers that a sequence of scalars holds.
pub open spec fn values(v: Seq<Fr>) -> Seq<int> {
    Seq::new(v.len(), |i: int| v[i]@)
}

impl PartialEq for Fr {
    fn eq(&self, other: &Fr) -> (r: bool) {
        self.equals(other)
    }
}

impl Eq for Fr {

}

impl vstd::std_specs::cmp::PartialEqSpecImpl for Fr {
    open spec fn obeys_eq_spec() -> bool {
        true
    }

    open spec fn eq_spec(&self, other: &Fr) -> bool {
        self@ == other@
    }
}

/// `subtle`'s `ct_eq` on byte slices: whether the two hold the same bytes, in time that does
/// not depend on the bytes.
#[verifier::external_body]
pub(crate) fn ct_eq_bytes(a: &[u8], b: &[u8]) -> (r: bool)
    ensures
        r == (a@ == b@),
{
    bool::from(a.ct_eq(b))
}

/// `Scalar::from(u64)`: the field element of that value.
#[verifier::external_body]
fn scalar_from_u64(x: u64) -> (r: Fr)
    ensures
        r@ == x,
        r.canonical(),
{
    Fr { bytes: Scalar::from(x).to_bytes() }
}

/// `Scalar::from_raw`: the field element congruent to a 256-bit number given by its limbs.
#[verifier::external_body]
fn scalar_from_raw(limbs: [u64; 4]) -> (r: Fr)
    ensures
        r@ == limbs_value(limbs@) % modulus(),
        r.canonical(),
{
    Fr { bytes: Scalar::from_raw(limbs).to_bytes() }
}

/// `Scalar::from_bytes`: accepts exactly the encodings of numbers below the modulus.
#[verifier::external_body]
fn scalar_from_bytes(bytes: &[u8; 32]) -> (r: Option<Fr>)
    ensures
        r.is_some() == (le_value(bytes@) < modulus()),
        r matches Some(x) ==> x@ == le_value(bytes@),
        r matches Some(x) ==> x.canonical(),
{
    match Option::<Scalar>::from(Scalar::from_bytes(bytes)) {
        Some(s) => Some(Fr { bytes: s.to_bytes() }),
        None => None,
    }
}

/// `Scalar::random` on `OsRng`: some field element; nothing is known of which.
#[verifier::external_body]
fn scalar_random() -> (r: Fr)
    ensures
        r.canonical(),
{
    Fr { bytes: Scalar::random(rand::rngs::OsRng).to_bytes() }
}

/// `Scalar::add`: the sum modulo `q`.
#[verifier::external_body]
fn scalar_add(a: &Fr, b: &Fr) -> (r: Fr)
    ensures
        r@ == fadd(a@, b@),
        r.canonical(),
{
    let x = Scalar::from_bytes(&a.bytes).unwrap();
    let y = Scalar::from_bytes(&b.bytes).unwrap();
    Fr { bytes: x.add(&y).to_bytes() }
}

/// `Scalar::sub`: the difference modulo `q`.
#[verifier::external_body]
fn scalar_sub(a: &Fr, b: &Fr) -> (r: Fr)
    ensures
        r@ == fsub(a@, b@),
        r.canonical(),
{
    let x = Scalar::from_bytes(&a.bytes).unwrap();
    let y = Scalar::from_bytes(&b.bytes).unwrap();
    Fr { bytes: x.sub(&y).to_bytes() }
}

/// `Scalar::mul`: the product modulo `q`. The scalars form a field, so the product is zero
/// only where a factor is.
#[verifier::external_body]
fn scalar_mul(a: &Fr, b: &Fr) -> (r: Fr)
    ensures
        r@ == fmul(a@, b@),
        r@ == 0 ==> a@ == 0 || b@ == 0,
        r.canonical(),
{
    let x = Scalar::from_bytes(&a.bytes).unwrap();
    let y = Scalar::from_bytes(&b.bytes).unwrap();
    Fr { bytes: x.mul(&y).to_bytes() }
}

/// `Scalar::neg`: the additive inverse modulo `q`.
#[verifier::external_body]
fn scalar_neg(a: &Fr) -> (r: Fr)
    ensures
        r@ == fneg(a@),
        r.canonical(),
{
    Fr { bytes: Scalar::from_bytes(&a.bytes).unwrap().neg().to_bytes() }
}

/// `Scalar::invert`: the multiplicative inverse, which every element but zero has.
#[verifier::external_body]
fn scalar_invert(a: &Fr) -> (r: Option<Fr>)
    ensures
        r.is_some() == (a@ != 0),
        r matches Some(i) ==> fmul(a@, i@) == 1,
        r matches Some(x) ==> x.canonical(),
{
    let x = Scalar::from_bytes(&a.bytes).unwrap();
    match Option::<Scalar>::from(x.invert()) {
        Some(s) => Some(Fr { bytes: s.to_bytes() }),
        None => None,
    }
}

/// `Zeroize::zeroize` on the scalar's bytes: every byte is overwritten with zero, by writes
/// that the compiler may not remove.
#[verifier::external_body]
fn wipe_scalar(a: &mut Fr)
    ensures
        final(a)@ == 0,
    opens_invariants none
    no_unwind
{
    a.bytes.zeroize();
}

/// `Zeroize::zeroize` on the bytes of each scalar of the vector, in place: every byte is
/// overwritten with zero, and the vector keeps its length.
#[verifier::external_body]
pub(crate) fn wipe_scalars(v: &mut Vec<Fr>)
    ensures
        final(v)@.len() == old(v)@.len(),
        forall|i: int| 0 <= i < final(v)@.len() ==> (#[trigger] final(v)@[i])@ == 0,
    opens_invariants none
    no_unwind
{
    for c in v.iter_mut() {
        c.bytes.zeroize();
    }
}

} // verus!
