//! Decryption shares.
use crate::curve::G1;
use vstd::prelude::*;

verus! {

/// A decryption share: a ciphertext's first part multiplied by a secret key share. A
/// threshold of decryption shares can be used to decrypt a message.
#[derive(Clone, Copy, Debug, Hash)]
pub struct DecryptionShare(pub G1);

impl View for DecryptionShare {
    type V = int;

    /// The discrete logarithm of the share's point.
    open spec fn view(&self) -> int {
        self.0@
    }
}

impl PartialEq for DecryptionShare {
    fn eq(&self, other: &DecryptionShare) -> (r: bool) {
        self.0.equals(&other.0)
    }
}

impl Eq for DecryptionShare {

}

impl vstd::std_specs::cmp::PartialEqSpecImpl for DecryptionShare {
    open spec fn obeys_eq_spec() -> bool {
        true
    }

    open spec fn eq_spec(&self, other: &DecryptionShare) -> bool {
        self@ == other@
    }
}

} // verus!
