//! Ciphertexts of the pairing-based encryption scheme.
use crate::curve::{pairing_eq, G1, G2};
use crate::field::{fmul, lemma_fmul_laws, lemma_reduced, modulus};
use crate::order::{cipher_order, compare_bytes};
use crate::util::{
    cmp_g1_affine, cmp_g2_affine, hash_g1_g2, hash_g1_g2_log, lemma_xor_twice, pad_of, xor_bytes,
};
use std::cmp::Ordering;
use vstd::prelude::*;
use vstd::slice::slice_to_vec;

verus! {

/// An encrypted message: the nonce times the generator of `G1`, the masked message, and the
/// point of `G2` that binds the two.
#[derive(Debug, Hash)]
pub struct Ciphertext(pub G1, pub Vec<u8>, pub G2);

/// The masked message: `msg` under the pad that the nonce `r` and the key `pk` determine.
pub open spec fn cipher_v(pk: int, r: int, msg: Seq<u8>) -> Seq<u8> {
    xor_bytes(pad_of(fmul(pk, r), msg.len() as int), msg)
}

/// The logarithm of the binding point: the hash of the first two parts, times the nonce.
pub open spec fn cipher_w(r: int, v: Seq<u8>) -> int {
    fmul(hash_g1_g2_log(r, v), r)
}

/// Whether the three parts of a ciphertext belong together:
/// `e(g1, w) == e(u, H(u, v))`.
pub open spec fn cipher_valid(u: int, v: Seq<u8>, w: int) -> bool {
    fmul(1, w) == fmul(u, hash_g1_g2_log(u, v))
}

/// The message that the secret key `sk` unmasks from the first two parts of a ciphertext.
pub open spec fn plaintext(sk: int, u: int, v: Seq<u8>) -> Seq<u8> {
    xor_bytes(pad_of(fmul(u, sk), v.len() as int), v)
}

/// Whatever the secret key, the nonce and the message: the ciphertext made for the key's
/// public key passes its check, and the secret key unmasks the message from it.
pub proof fn law_encrypt_decrypt(sk: int, r: int, msg: Seq<u8>)
    requires
        0 <= sk < modulus(),
        0 <= r < modulus(),
    ensures
        cipher_valid(r, cipher_v(sk, r, msg), cipher_w(r, cipher_v(sk, r, msg))),
        plaintext(sk, r, cipher_v(sk, r, msg)) == msg,
{
    let v = cipher_v(sk, r, msg);
    let h = hash_g1_g2_log(r, v);
    lemma_fmul_laws(h, r, 0);
    lemma_fmul_laws(1, fmul(h, r), 0);
    lemma_fmul_laws(r, h, 0);
    lemma_reduced(fmul(h, r));
    assert(1 * fmul(h, r) == fmul(h, r));
    lemma_fmul_laws(sk, r, 0);
    lemma_xor_twice(pad_of(fmul(sk, r), msg.len() as int), msg);
}

impl Ciphertext {
    /// Whether the parts of this ciphertext belong together.
    pub open spec fn valid(&self) -> bool {
        cipher_valid(self.0@, self.1@, self.2@)
    }

    /// Returns `true` if this is a valid ciphertext. This check is necessary to prevent
    /// chosen-ciphertext attacks.
    pub fn verify(&self) -> (r: bool)
        ensures
            r == self.valid(),
    {
        let hash = hash_g1_g2(self.0, self.1.as_slice());
        let generator = G1::generator();
        pairing_eq(&generator, &self.2, &self.0, &hash)
    }
}

impl Ciphertext {
    /// How this ciphertext compares with the other: by the encoding of the first part, then
    /// by the bytes, then by the encoding of the last part.
    pub fn cmp(&self, other: &Ciphertext) -> (r: Ordering)
        ensures
            r == cipher_order(self.0@, self.1@, self.2@, other.0@, other.1@, other.2@),
    {
        match cmp_g1_affine(&self.0, &other.0) {
            Ordering::Equal => match compare_bytes(self.1.as_slice(), other.1.as_slice()) {
                Ordering::Equal => cmp_g2_affine(&self.2, &other.2),
                Ordering::Less => Ordering::Less,
                Ordering::Greater => Ordering::Greater,
            },
            Ordering::Less => Ordering::Less,
            Ordering::Greater => Ordering::Greater,
        }
    }
}

impl PartialOrd for Ciphertext {
    fn partial_cmp(&self, other: &Ciphertext) -> (r: Option<Ordering>) {
        Some(self.cmp(other))
    }
}

impl vstd::std_specs::cmp::PartialOrdSpecImpl for Ciphertext {
    open spec fn obeys_partial_cmp_spec() -> bool {
        true
    }

    open spec fn partial_cmp_spec(&self, other: &Ciphertext) -> Option<Ordering> {
        Some(cipher_order(self.0@, self.1@, self.2@, other.0@, other.1@, other.2@))
    }
}

impl Clone for Ciphertext {
    fn clone(&self) -> (r: Ciphertext)
        ensures
            r.0@ == self.0@,
            r.1@ == self.1@,
            r.2@ == self.2@,
    {
        Ciphertext(self.0, slice_to_vec(self.1.as_slice()), self.2)
    }
}

impl PartialEq for Ciphertext {
    fn eq(&self, other: &Ciphertext) -> (r: bool) {
        if !self.0.equals(&other.0) || !self.2.equals(&other.2) {
            return false;
        }
        let n = self.1.len();
        if n != other.1.len() {
            return false;
        }
        let mut i: usize = 0;
        while i < n
            invariant
                i <= n,
                n == self.1.len(),
                n == other.1.len(),
                forall|k: int| 0 <= k < i ==> self.1[k] == other.1[k],
            decreases n - i,
        {
            if self.1[i] != other.1[i] {
                return false;
            }
            i += 1;
        }
        assert(self.1@ =~= other.1@);
        true
    }
}

impl Eq for Ciphertext {

}

impl vstd::std_specs::cmp::PartialEqSpecImpl for Ciphertext {
    open spec fn obeys_eq_spec() -> bool {
        true
    }

    open spec fn eq_spec(&self, other: &Ciphertext) -> bool {
        self.0@ == other.0@ && self.1@ == other.1@ && self.2@ == other.2@
    }
}

} // verus!
