//! Public key shares.
use crate::ciphertext::Ciphertext;
use crate::curve::pairing_eq;
use crate::dec_share::DecryptionShare;
use crate::field::{fadd, fmul};
use crate::pk::{signature_holds, PublicKey};
use crate::sig_share::SignatureShare;
use crate::util::{hash_g1_g2, hash_g1_g2_log};
use vstd::prelude::*;

verus! {

/// A public key share: the public key of a secret key share.
#[derive(Clone, Copy, Debug, Hash)]
pub struct PublicKeyShare(pub PublicKey);

impl View for PublicKeyShare {
    type V = int;

    /// The discrete logarithm of the share's point, which is the secret key share.
    open spec fn view(&self) -> int {
        self.0@
    }
}

/// Whether a decryption share with logarithm `share` is the one that the key share with
/// logarithm `pk` makes of the ciphertext: `e(share, H(u, v)) == e(pk, w)`.
pub open spec fn decryption_share_holds(pk: int, share: int, u: int, v: Seq<u8>, w: int) -> bool {
    fmul(share, hash_g1_g2_log(u, v)) == fmul(pk, w)
}

impl PublicKeyShare {
    /// Returns `true` if the decryption share matches the ciphertext.
    pub fn verify_decryption_share(&self, share: &DecryptionShare, ct: &Ciphertext) -> (r: bool)
        ensures
            r == decryption_share_holds(self@, share@, ct.0@, ct.1@, ct.2@),
    {
        let hash = hash_g1_g2(ct.0, ct.1.as_slice());
        pairing_eq(&share.0, &hash, &self.0.0, &ct.2)
    }

    /// Returns `true` if the signature share matches the message.
    pub fn verify(&self, sig: &SignatureShare, msg: &[u8]) -> (r: bool)
        ensures
            r == signature_holds(self@, sig@, msg@),
    {
        self.0.verify(&sig.0, msg)
    }

    /// The share of the sum of the keys that this and the other are shares of.
    pub fn combine(&self, other: &PublicKeyShare) -> (r: PublicKeyShare)
        ensures
            r@ == fadd(self@, other@),
    {
        PublicKeyShare(PublicKey(self.0.0.plus(&other.0.0)))
    }
}

impl PartialEq for PublicKeyShare {
    fn eq(&self, other: &PublicKeyShare) -> (r: bool) {
        self.0.ct_eq(&other.0)
    }
}

impl Eq for PublicKeyShare {

}

impl vstd::std_specs::cmp::PartialEqSpecImpl for PublicKeyShare {
    open spec fn obeys_eq_spec() -> bool {
        true
    }

    open spec fn eq_spec(&self, other: &PublicKeyShare) -> bool {
        self@ == other@
    }
}

} // verus!
