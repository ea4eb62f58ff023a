//! Secret key sets: a master secret key and the secret key shares that belong to it.
use crate::algebra::poly_eval;
use crate::error::Error;
use crate::field::fadd;
use crate::into_scalar::IntoScalar;
use crate::pk_set::{threshold_of, PublicKeySet};
use crate::poly::Poly;
use crate::sk::SecretKey;
use crate::sk_share::SecretKeyShare;
use crate::util::into_scalar_plus_1;
use vstd::prelude::*;

verus! {

/// A secret key and an associated set of secret key shares.
#[derive(Debug)]
pub struct SecretKeySet {
    /// The coefficients of a polynomial whose value at `0` is the "master key", and value at
    /// `i + 1` is key share number `i`.
    poly: Poly,
}

impl View for SecretKeySet {
    type V = Seq<int>;

    /// The coefficients of the polynomial.
    closed spec fn view(&self) -> Seq<int> {
        self.poly@
    }
}

impl SecretKeySet {
    /// The key set that the polynomial holds.
    pub fn from(poly: Poly) -> (r: SecretKeySet)
        ensures
            r@ == poly@,
    {
        SecretKeySet { poly }
    }

    /// Creates a set of secret key shares, where any `threshold + 1` of them can
    /// collaboratively sign and decrypt.
    pub fn random(threshold: usize) -> (r: SecretKeySet)
        requires
            threshold < usize::MAX,
        ensures
            threshold_of(r@) <= threshold,
    {
        SecretKeySet::from(Poly::random(threshold))
    }

    /// Creates a set of secret key shares, where any `threshold + 1` of them can
    /// collaboratively sign and decrypt. Fails where `random` could not be called: where the
    /// threshold is too large for the coefficients to fit into a `Vec`.
    pub fn try_random(threshold: usize) -> (r: Result<SecretKeySet, Error>)
        ensures
            r.is_ok() == (threshold < usize::MAX),
            r matches Ok(s) ==> threshold_of(s@) <= threshold,
            r matches Err(e) ==> e == Error::DegreeOverflow,
    {
        if threshold == usize::MAX {
            Err(Error::DegreeOverflow)
        } else {
            Ok(SecretKeySet::random(threshold))
        }
    }

    /// Returns the threshold `t`: any set of `t + 1` signature shares can be combined into a
    /// full signature.
    pub fn threshold(&self) -> (r: usize)
        ensures
            r == threshold_of(self@),
    {
        self.poly.degree()
    }

    /// Returns the `i`-th secret key share.
    pub fn secret_key_share<T: IntoScalar>(&self, i: T) -> (r: SecretKeyShare)
        ensures
            r@ == poly_eval(self@, fadd(1, i.scalar())),
    {
        let mut scalar = self.poly.evaluate(into_scalar_plus_1(i));
        SecretKeyShare::from_mut(&mut scalar)
    }

    /// Returns the corresponding public key set. That information can be shared publicly.
    pub fn public_keys(&self) -> (r: PublicKeySet)
        ensures
            r@ == self@,
    {
        PublicKeySet { commit: self.poly.commitment() }
    }

    /// Returns the secret master key.
    pub fn secret_key(&self) -> (r: SecretKey)
        ensures
            r@ == poly_eval(self@, 0),
    {
        let mut fr = self.poly.evaluate(0u64);
        SecretKey::from_mut(&mut fr)
    }
}

impl Clone for SecretKeySet {
    fn clone(&self) -> (r: SecretKeySet)
        ensures
            r@ == self@,
    {
        SecretKeySet { poly: self.poly.clone() }
    }
}

impl PartialEq for SecretKeySet {
    fn eq(&self, other: &SecretKeySet) -> (r: bool) {
        self.poly == other.poly
    }
}

impl Eq for SecretKeySet {

}

impl vstd::std_specs::cmp::PartialEqSpecImpl for SecretKeySet {
    open spec fn obeys_eq_spec() -> bool {
        true
    }

    open spec fn eq_spec(&self, other: &SecretKeySet) -> bool {
        self@ == other@
    }
}

} // verus!
