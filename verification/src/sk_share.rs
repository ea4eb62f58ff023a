//! Secret key shares.
use crate::ciphertext::Ciphertext;
use crate::dec_share::DecryptionShare;
use crate::field::{fmul, modulus, Fr};
use crate::pk_share::PublicKeyShare;
use crate::sig_share::SignatureShare;
use crate::sk::SecretKey;
use crate::util::hash_g2_log;
use vstd::prelude::*;

verus! {

/// A secret key share: the value of the key set's polynomial at the share's index.
#[derive(Debug)]
pub struct SecretKeyShare(SecretKey);

impl View for SecretKeyShare {
    type V = int;

    /// The share's scalar as a number.
    closed spec fn view(&self) -> int {
        self.0@
    }
}

impl SecretKeyShare {
    /// The share that holds the given key.
    pub fn from_sk(sk: SecretKey) -> (r: SecretKeyShare)
        ensures
            r@ == sk@,
    {
        SecretKeyShare(sk)
    }

    /// A share drawn from the operating system's random number generator. Whatever is
    /// drawn, the share's scalar is an element of the field: a number in `0 .. q`.
    pub fn new() -> (r: SecretKeyShare)
        ensures
            0 <= r@ < modulus(),
    {
        SecretKeyShare(SecretKey::random())
    }

    /// Returns the matching public key share.
    pub fn public_key_share(&self) -> (r: PublicKeyShare)
        ensures
            r@ == self@,
    {
        PublicKeyShare(self.0.public_key())
    }

    /// Signs the given message.
    pub fn sign(&self, msg: &[u8]) -> (r: SignatureShare)
        ensures
            r@ == fmul(hash_g2_log(msg@), self@),
    {
        SignatureShare(self.0.sign(msg))
    }

    /// Returns a decryption share, or `None`, if the ciphertext isn't valid.
    pub fn decrypt_share(&self, ct: &Ciphertext) -> (r: Option<DecryptionShare>)
        ensures
            r.is_some() == ct.valid(),
            r matches Some(share) ==> share@ == fmul(ct.0@, self@),
    {
        if !ct.verify() {
            return None;
        }
        Some(DecryptionShare(ct.0.times(&self.0.0)))
    }

    /// Takes the share out of `scalar`, which is overwritten with zero.
    pub fn from_mut(scalar: &mut Fr) -> (r: SecretKeyShare)
        ensures
            r@ == old(scalar)@,
            final(scalar)@ == 0,
    {
        SecretKeyShare(SecretKey::from_mut(scalar))
    }
}

impl Clone for SecretKeyShare {
    fn clone(&self) -> (r: SecretKeyShare)
        ensures
            r@ == self@,
    {
        SecretKeyShare(self.0.clone())
    }
}

impl Default for SecretKeyShare {
    /// A share drawn at random, as `new` gives it.
    fn default() -> (r: SecretKeyShare)
        ensures
            0 <= r@ < modulus(),
    {
        SecretKeyShare::new()
    }
}

impl PartialEq for SecretKeyShare {
    fn eq(&self, other: &SecretKeyShare) -> (r: bool) {
        self.0.ct_eq(&other.0)
    }
}

impl Eq for SecretKeyShare {

}

impl vstd::std_specs::cmp::PartialEqSpecImpl for SecretKeyShare {
    open spec fn obeys_eq_spec() -> bool {
        true
    }

    open spec fn eq_spec(&self, other: &SecretKeyShare) -> bool {
        self@ == other@
    }
}

} // verus!
