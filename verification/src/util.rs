//! Hashing, key streams and other helpers shared by the polynomial and key modules.
use crate::curve::{g1_point, g2_point, seeded_g2_log, G1, G2};
use crate::field::{fadd, lemma_fmul_laws, lemma_reduced, modulus, Fr};
use crate::into_scalar::IntoScalar;
use crate::order::{compare_bytes, lexicographic};
use rand::distributions::Standard;
use rand::{Rng, SeedableRng};
use rand_chacha::ChaChaRng;
use std::cmp::Ordering;
use tiny_keccak::{Hasher, Sha3};
use vstd::arithmetic::power::pow;
use vstd::prelude::*;
use vstd::slice::slice_to_vec;

verus! {

/// The SHA3-256 digest of `data`, 32 bytes.
pub uninterp spec fn sha3_digest(data: Seq<u8>) -> Seq<u8>;

/// The first `n` bytes that a ChaCha20 generator seeded with `seed` yields when it is asked
/// for one byte at a time.
pub uninterp spec fn chacha_bytes(seed: Seq<u8>, n: int) -> Seq<u8>;

/// The discrete logarithm of the point of `G2` that a message is hashed to.
pub open spec fn hash_g2_log(msg: Seq<u8>) -> int {
    seeded_g2_log(sha3_digest(msg))
}

/// The message that a group element and a message are hashed through: the message itself
/// up to 64 bytes, else its digest, followed by the element's compressed encoding.
pub open spec fn tagged_message(g1: int, msg: Seq<u8>) -> Seq<u8> {
    (if msg.len() > 64 {
        sha3_digest(msg)
    } else {
        msg
    }) + g1_point(g1)
}

/// The discrete logarithm of the point of `G2` that a point of `G1`, given by its
/// logarithm, and a message are hashed to.
pub open spec fn hash_g1_g2_log(g1: int, msg: Seq<u8>) -> int {
    hash_g2_log(tagged_message(g1, msg))
}

/// Byte by byte, the exclusive or of `bytes` with the start of `pad`.
pub open spec fn xor_bytes(pad: Seq<u8>, bytes: Seq<u8>) -> Seq<u8> {
    Seq::new(bytes.len(), |i: int| pad[i] ^ bytes[i])
}

/// The `n` pseudorandom bytes that the point of `G1` with logarithm `g1` determines.
pub open spec fn pad_of(g1: int, n: int) -> Seq<u8> {
    chacha_bytes(sha3_digest(g1_point(g1)), n)
}

/// The value of `x` to the `i`, in the field.
pub open spec fn power_mod(x: int, i: nat) -> int {
    pow(x, i) % modulus()
}

/// The place of coefficient `(i, j)` of a symmetric bivariate polynomial in its triangular
/// packing: the rows of the lower triangle one after another.
pub open spec fn packed_pos(i: int, j: int) -> int {
    let lo = if i <= j {
        i
    } else {
        j
    };
    let hi = if i <= j {
        j
    } else {
        i
    };
    lo + hi * (hi + 1) / 2
}

/// Whether `packed_pos(i, j)` can be computed in `usize` without overflow.
pub open spec fn packed_pos_fits(i: int, j: int) -> bool {
    let hi = if i <= j {
        j
    } else {
        i
    };
    hi * (hi + 1) <= usize::MAX && packed_pos(i, j) <= usize::MAX
}

/// The number of coefficients that a symmetric bivariate polynomial of degree `d` has in
/// triangular packing.
pub open spec fn packed_len(d: int) -> int {
    packed_pos(d, d) + 1
}

/// The places of the coefficients `(i, j)` with `i` and `j` up to `d` lie below
/// `packed_len(d)`, and can be computed wherever that of `(d, d)` can.
pub proof fn lemma_packed_pos_bound(i: int, j: int, d: int)
    requires
        0 <= i <= d,
        0 <= j <= d,
    ensures
        0 <= packed_pos(i, j) < packed_len(d),
        packed_pos_fits(d, d) ==> packed_pos_fits(i, j),
{
    let hi = if i <= j {
        j
    } else {
        i
    };
    let lo = if i <= j {
        i
    } else {
        j
    };
    assert(hi * (hi + 1) <= d * (d + 1)) by (nonlinear_arith)
        requires
            0 <= hi <= d,
    ;
    assert(0 <= hi * (hi + 1)) by (nonlinear_arith)
        requires
            0 <= hi,
    ;
}

/// Applying the same pad twice gives the bytes back.
pub proof fn lemma_xor_twice(pad: Seq<u8>, bytes: Seq<u8>)
    ensures
        xor_bytes(pad, xor_bytes(pad, bytes)) == bytes,
{
    let once = xor_bytes(pad, bytes);
    let twice = xor_bytes(pad, once);
    assert forall|i: int| 0 <= i < bytes.len() implies twice[i] == bytes[i] by {
        let p = pad[i];
        let b = bytes[i];
        assert(p ^ (p ^ b) == b) by (bit_vector);
    }
    assert(twice =~= bytes);
}

/// `Sha3::v256`, `update` and `finalize` of `tiny_keccak`: the SHA3-256 digest of `data`.
#[verifier::external_body]
pub fn sha3_256(data: &[u8]) -> (r: [u8; 32])
    ensures
        r@ == sha3_digest(data@),
{
    let mut sha3 = Sha3::v256();
    sha3.update(data);
    let mut output = [0u8; 32];
    sha3.finalize(&mut output);
    output
}

/// `sample_iter` of `rand` on a `ChaChaRng` made by `from_seed`, with the `Standard`
/// distribution of bytes: the first `n` bytes drawn, which depend on the seed alone.
#[verifier::external_body]
fn keystream(seed: &[u8; 32], n: usize) -> (r: Vec<u8>)
    ensures
        r@ == chacha_bytes(seed@, n as int),
        r@.len() == n,
{
    ChaChaRng::from_seed(*seed).sample_iter(&Standard).take(n).collect()
}

/// Returns a hash of the given message in `G2`.
pub fn hash_g2(msg: &[u8]) -> (r: G2)
    ensures
        r@ == hash_g2_log(msg@),
{
    let digest = sha3_256(msg);
    G2::from_seed(&digest)
}

/// Returns the bitwise xor of `bytes` with a sequence of pseudorandom bytes determined by
/// `g1`.
pub fn xor_with_hash(g1: G1, bytes: &[u8]) -> (r: Vec<u8>)
    ensures
        r@ == xor_bytes(pad_of(g1@, bytes@.len() as int), bytes@),
{
    let compressed = g1.to_compressed();
    let digest = sha3_256(&compressed);
    let n = bytes.len();
    let pad = keystream(&digest, n);
    let mut out: Vec<u8> = Vec::with_capacity(n);
    let mut i: usize = 0;
    while i < n
        invariant
            i <= n,
            n == bytes@.len(),
            n == pad@.len(),
            out.len() == i,
            forall|k: int| 0 <= k < i ==> out[k] == pad[k] ^ bytes[k],
        decreases n - i,
    {
        out.push(pad[i] ^ bytes[i]);
        i += 1;
    }
    assert(out@ =~= xor_bytes(pad@, bytes@));
    out
}

/// Returns a hash of the group element and message, in the second group.
pub fn hash_g1_g2(g1: G1, msg: &[u8]) -> (r: G2)
    ensures
        r@ == hash_g1_g2_log(g1@, msg@),
{
    // If the message is large, hash it, otherwise copy it.
    let mut tagged: Vec<u8> = if msg.len() > 64 {
        let digest = sha3_256(msg);
        slice_to_vec(&digest)
    } else {
        slice_to_vec(msg)
    };
    let compressed = g1.to_compressed();
    let ghost head = tagged@;
    let mut i: usize = 0;
    while i < 48
        invariant
            i <= 48,
            tagged@ == head + compressed@.take(i as int),
        decreases 48 - i,
    {
        tagged.push(compressed[i]);
        assert(compressed@.take(i + 1) =~= compressed@.take(i as int).push(compressed@[i as int]));
        i += 1;
    }
    assert(compressed@.take(48) =~= compressed@);
    hash_g2(tagged.as_slice())
}

/// Overwrites a single field element with zeros.
pub fn clear_scalar(scalar: &mut Fr)
    ensures
        final(scalar)@ == 0,
{
    scalar.clear();
}

/// Compares two curve elements by their compressed encodings and returns their `Ordering`.
pub fn cmp_g1_affine(x: &G1, y: &G1) -> (r: Ordering)
    ensures
        r == lexicographic(g1_point(x@), g1_point(y@)),
        (r == Ordering::Equal) == (x@ == y@),
{
    let xc = x.to_compressed();
    let yc = y.to_compressed();
    compare_bytes(xc.as_slice(), yc.as_slice())
}

/// Compares two elements of the second group by their compressed encodings.
pub fn cmp_g2_affine(x: &G2, y: &G2) -> (r: Ordering)
    ensures
        r == lexicographic(g2_point(x@), g2_point(y@)),
        (r == Ordering::Equal) == (x@ == y@),
{
    let xc = x.to_compressed();
    let yc = y.to_compressed();
    compare_bytes(xc.as_slice(), yc.as_slice())
}

/// The scalar that stands for share index `x`: one more than `x`.
pub fn into_scalar_plus_1<I: IntoScalar>(x: I) -> (r: Fr)
    ensures
        r@ == fadd(1, x.scalar()),
{
    let one = Fr::one();
    one.plus(&x.into_scalar())
}

/// Returns the position of coefficient `(i, j)` in the vector describing a symmetric bivariate
/// polynomial, or `None` where computing it would overflow.
pub fn coeff_pos(i: usize, j: usize) -> (r: Option<usize>)
    ensures
        r == if packed_pos_fits(i as int, j as int) {
            Some(packed_pos(i as int, j as int) as usize)
        } else {
            None
        },
{
    // Since the polynomial is symmetric, we can order such that `hi >= lo`.
    let (hi, lo) = if j >= i {
        (j, i)
    } else {
        (i, j)
    };
    let succ = match hi.checked_add(1) {
        Some(s) => s,
        None => {
            assert(hi * (hi + 1) > usize::MAX) by (nonlinear_arith)
                requires
                    hi == usize::MAX,
                    usize::MAX >= 1,
            ;
            return None;
        },
    };
    let prod = match hi.checked_mul(succ) {
        Some(p) => p,
        None => {
            return None;
        },
    };
    lo.checked_add(prod / 2)
}

/// The position of coefficient `(i, j)` of a polynomial of degree `d` whose coefficients
/// fit a vector.
pub(crate) fn packed_index(i: usize, j: usize, d: usize) -> (r: usize)
    requires
        i <= d,
        j <= d,
        packed_pos_fits(d as int, d as int),
    ensures
        r == packed_pos(i as int, j as int),
        r < packed_len(d as int),
{
    proof {
        lemma_packed_pos_bound(i as int, j as int, d as int);
    }
    match coeff_pos(i, j) {
        Some(index) => index,
        None => 0,
    }
}

/// Returns the `0`-th to `degree`-th power of `x`.
pub fn powers<T: IntoScalar>(into_x: T, degree: usize) -> (r: Vec<Fr>)
    requires
        degree < usize::MAX,
    ensures
        r.len() == degree + 1,
        forall|i: int| 0 <= i <= degree ==> r[i]@ == power_mod(into_x.scalar(), i as nat),
{
    let x = into_x.into_scalar();
    let mut x_pow_i = Fr::one();
    let mut out: Vec<Fr> = Vec::with_capacity(degree + 1);
    out.push(x_pow_i);
    proof {
        lemma_reduced(1);
        reveal(pow);
        assert(pow(x@, 0) == 1);
    }
    let mut i: usize = 0;
    while i < degree
        invariant
            i <= degree,
            out.len() == i + 1,
            x_pow_i@ == power_mod(x@, i as nat),
            forall|k: int| 0 <= k <= i ==> out[k]@ == power_mod(x@, k as nat),
        decreases degree - i,
    {
        proof {
            reveal(pow);
            assert(pow(x@, (i + 1) as nat) == x@ * pow(x@, i as nat));
            lemma_fmul_laws(pow(x@, i as nat), x@, 0);
            assert(pow(x@, i as nat) * x@ == x@ * pow(x@, i as nat)) by (nonlinear_arith);
        }
        x_pow_i = x_pow_i.times(&x);
        out.push(x_pow_i);
        i += 1;
    }
    out
}

} // verus!
