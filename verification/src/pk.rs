//! Public keys.
use crate::ciphertext::{cipher_v, cipher_w, law_encrypt_decrypt, plaintext, Ciphertext};
use crate::curve::{g1_log, g1_valid, pairing_eq, G1};
use crate::field::{fmul, lemma_fmul_laws, lemma_reduced, modulus, Fr};
use crate::sig::Signature;
use crate::util::{hash_g1_g2, hash_g2, hash_g2_log, xor_with_hash};
use vstd::prelude::*;

verus! {

/// A public key: the secret key times the generator of `G1`.
#[derive(Clone, Copy, Debug, Hash)]
pub struct PublicKey(pub G1);

impl View for PublicKey {
    type V = int;

    /// The discrete logarithm of the key's point, which is the secret key.
    open spec fn view(&self) -> int {
        self.0@
    }
}

/// Whether a signature with logarithm `sig` is one of the key with logarithm `pk` on `msg`:
/// `e(g1, sig) == e(pk, H(msg))`.
pub open spec fn signature_holds(pk: int, sig: int, msg: Seq<u8>) -> bool {
    fmul(1, sig) == fmul(pk, hash_g2_log(msg))
}

/// Whatever the secret key and the message: the signature that the key makes of the message
/// is one of its public key on it.
pub proof fn law_sign_verify(sk: int, msg: Seq<u8>)
    ensures
        signature_holds(sk, fmul(hash_g2_log(msg), sk), msg),
{
    let h = hash_g2_log(msg);
    lemma_fmul_laws(h, sk, 0);
    lemma_fmul_laws(1, h * sk, 0);
    assert(1 * (h * sk) == h * sk);
    lemma_fmul_laws(1, fmul(h, sk), 0);
}

impl PublicKey {
    /// Returns `true` if the signature matches the message.
    pub fn verify(&self, sig: &Signature, msg: &[u8]) -> (r: bool)
        ensures
            r == signature_holds(self@, sig@, msg@),
    {
        let generator = G1::generator();
        let hash = hash_g2(msg);
        pairing_eq(&generator, &sig.0, &self.0, &hash)
    }

    /// Whether the key survives a round trip through its 48-byte encoding: whether the
    /// bytes that it compresses to decode to a point of `G1` again. Every key held in this
    /// type does.
    pub fn is_valid(&self) -> (r: bool)
        ensures
            r == g1_valid(self.0.encoding()),
            r,
    {
        let bytes = self.0.to_compressed();
        proof {
            use_type_invariant(&self.0);
        }
        G1::from_compressed(&bytes).is_some()
    }

    /// Encrypts the message with a nonce from the operating system's random number
    /// generator. Whatever the nonce, the result is what `encrypt_with_scalar` gives for it.
    pub fn encrypt(&self, msg: &[u8]) -> (ct: Ciphertext)
        ensures
            0 <= ct.0@ < modulus(),
            ct.1@ == cipher_v(self@, ct.0@, msg@),
            ct.2@ == cipher_w(ct.0@, ct.1@),
            ct.valid(),
            plaintext(self@, ct.0@, ct.1@) == msg@,
    {
        let r = Fr::random();
        proof {
            use_type_invariant(&r);
        }
        self.encrypt_with_scalar(&r, msg)
    }

    /// Encrypts the message with the nonce `r`.
    pub fn encrypt_with_scalar(&self, r: &Fr, msg: &[u8]) -> (ct: Ciphertext)
        ensures
            ct.0@ == r@,
            ct.1@ == cipher_v(self@, r@, msg@),
            ct.2@ == cipher_w(r@, ct.1@),
            ct.valid(),
            plaintext(self@, r@, ct.1@) == msg@,
    {
        proof {
            use_type_invariant(r);
            use_type_invariant(&self.0);
            lemma_reduced(r@);
            lemma_fmul_laws(1, r@, 0);
            law_encrypt_decrypt(self@, r@, msg@);
        }
        let u = G1::generator().times(r);
        let g = self.0.times(r);
        let v: Vec<u8> = xor_with_hash(g, msg);
        let w = hash_g1_g2(u, v.as_slice()).times(r);
        Ciphertext(u, v, w)
    }

    /// The canonical 48-byte encoding.
    pub fn to_bytes(&self) -> (r: [u8; 48])
        ensures
            r@ == self.0.encoding(),
            g1_valid(r@),
            g1_log(r@) == self@,
    {
        proof {
            use_type_invariant(&self.0);
        }
        self.0.to_compressed()
    }

    /// Decodes a public key; `None` where the bytes are not the encoding of a point of `G1`.
    pub fn from_bytes(bytes: &[u8; 48]) -> (r: Option<PublicKey>)
        ensures
            r.is_some() == g1_valid(bytes@),
            r matches Some(k) ==> k.0.encoding() == bytes@ && k@ == g1_log(bytes@),
    {
        match G1::from_compressed(bytes) {
            Some(point) => Some(PublicKey(point)),
            None => None,
        }
    }

    /// Equality, decided in constant time.
    pub fn ct_eq(&self, other: &PublicKey) -> (r: bool)
        ensures
            r == (self@ == other@),
    {
        self.0.equals(&other.0)
    }
}

impl PartialEq for PublicKey {
    fn eq(&self, other: &PublicKey) -> (r: bool) {
        self.ct_eq(other)
    }
}

impl Eq for PublicKey {

}

impl vstd::std_specs::cmp::PartialEqSpecImpl for PublicKey {
    open spec fn obeys_eq_spec() -> bool {
        true
    }

    open spec fn eq_spec(&self, other: &PublicKey) -> bool {
        self@ == other@
    }
}

} // verus!
