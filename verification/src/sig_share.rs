//! Signature shares.
use crate::sig::Signature;
use vstd::prelude::*;

verus! {

/// A signature share: the signature of a secret key share. A threshold of signature shares
/// can be combined into a signature.
#[derive(Clone, Copy, Debug, Hash)]
pub struct SignatureShare(pub Signature);

impl View for SignatureShare {
    type V = int;

    /// The discrete logarithm of the share's point.
    open spec fn view(&self) -> int {
        self.0@
    }
}

impl PartialEq for SignatureShare {
    fn eq(&self, other: &SignatureShare) -> (r: bool) {
        self.0.0.equals(&other.0.0)
    }
}

impl Eq for SignatureShare {

}

impl vstd::std_specs::cmp::PartialEqSpecImpl for SignatureShare {
    open spec fn obeys_eq_spec() -> bool {
        true
    }

    open spec fn eq_spec(&self, other: &SignatureShare) -> bool {
        self@ == other@
    }
}

} // verus!
