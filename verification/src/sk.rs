//! Secret keys.
use crate::ciphertext::{plaintext, Ciphertext};
use crate::field::{fmul, le_value, lemma_fmul_laws, lemma_reduced, limbs_value, modulus, Fr};
use crate::pk::PublicKey;
use crate::sig::Signature;
use crate::curve::G1;
use crate::util::{hash_g2, hash_g2_log, xor_with_hash};
use vstd::prelude::*;

verus! {

/// A secret key: a scalar, which is overwritten with zero when the key is dropped.
#[derive(Debug)]
pub struct SecretKey(pub Fr);

impl View for SecretKey {
    type V = int;

    /// The key's scalar as a number.
    open spec fn view(&self) -> int {
        self.0@
    }
}

impl SecretKey {
    /// Takes the key out of `scalar`, which is overwritten with zero.
    pub fn from_mut(scalar: &mut Fr) -> (r: SecretKey)
        ensures
            r@ == old(scalar)@,
            final(scalar)@ == 0,
    {
        let sk = SecretKey(*scalar);
        scalar.clear();
        sk
    }

    /// Returns the matching public key.
    pub fn public_key(&self) -> (r: PublicKey)
        ensures
            r@ == self@,
    {
        proof {
            use_type_invariant(&self.0);
            lemma_fmul_laws(1, self@, 0);
            lemma_reduced(self@);
        }
        PublicKey(G1::generator().times(&self.0))
    }

    /// Signs the given message: its hash in `G2`, multiplied by the key.
    pub fn sign(&self, msg: &[u8]) -> (r: Signature)
        ensures
            r@ == fmul(hash_g2_log(msg@), self@),
    {
        Signature(hash_g2(msg).times(&self.0))
    }

    /// The key whose scalar is zero.
    pub fn default() -> (r: SecretKey)
        ensures
            r@ == 0,
    {
        SecretKey::from_scalar(Fr::zero())
    }

    /// Returns the decrypted text, or `None`, if the ciphertext isn't valid.
    pub fn decrypt(&self, ct: &Ciphertext) -> (r: Option<Vec<u8>>)
        ensures
            r.is_some() == ct.valid(),
            r matches Some(text) ==> text@ == plaintext(self@, ct.0@, ct.1@),
    {
        if !ct.verify() {
            return None;
        }
        let g = ct.0.times(&self.0);
        Some(xor_with_hash(g, ct.1.as_slice()))
    }

    /// A key drawn from the operating system's random number generator. Whatever is drawn,
    /// the key's scalar is an element of the field: a number in `0 .. q`.
    pub fn random() -> (r: SecretKey)
        ensures
            0 <= r@ < modulus(),
    {
        SecretKey(Fr::random())
    }

    /// The key congruent to the 256-bit number that `limbs` denote, least significant first.
    pub fn from_raw(limbs: [u64; 4]) -> (r: SecretKey)
        ensures
            r@ == limbs_value(limbs@) % modulus(),
    {
        SecretKey(Fr::from_raw(limbs))
    }

    /// Decodes a key from its canonical 32-byte little-endian encoding; `None` where the
    /// number is not below the field's order.
    pub fn from_bytes(bytes: &[u8; 32]) -> (r: Option<SecretKey>)
        ensures
            r.is_some() == (le_value(bytes@) < modulus()),
            r matches Some(k) ==> k@ == le_value(bytes@),
    {
        match Fr::from_bytes(bytes) {
            Some(scalar) => Some(SecretKey(scalar)),
            None => None,
        }
    }

    /// The key with the given scalar.
    pub fn from_scalar(scalar: Fr) -> (r: SecretKey)
        ensures
            r@ == scalar@,
    {
        SecretKey(scalar)
    }

    /// Overwrites the key's scalar with zero.
    pub fn zeroize(&mut self)
        ensures
            final(self)@ == 0,
        opens_invariants none
        no_unwind
    {
        self.0.clear();
    }

    /// Equality, decided in constant time.
    pub fn ct_eq(&self, other: &SecretKey) -> (r: bool)
        ensures
            r == (self@ == other@),
    {
        self.0.equals(&other.0)
    }
}

impl Clone for SecretKey {
    fn clone(&self) -> (r: SecretKey)
        ensures
            r@ == self@,
    {
        SecretKey(self.0)
    }
}

impl PartialEq for SecretKey {
    fn eq(&self, other: &SecretKey) -> (r: bool) {
        self.ct_eq(other)
    }
}

impl Eq for SecretKey {

}

impl vstd::std_specs::cmp::PartialEqSpecImpl for SecretKey {
    open spec fn obeys_eq_spec() -> bool {
        true
    }

    open spec fn eq_spec(&self, other: &SecretKey) -> bool {
        self@ == other@
    }
}

impl Drop for SecretKey {
    fn drop(&mut self)
        opens_invariants none
        no_unwind
    {
        self.zeroize();
    }
}

} // verus!
