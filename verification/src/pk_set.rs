//! Public key sets: a master public key and the public key shares that belong to it.
use crate::algebra::{coeff_at, distinct, poly_add, poly_eval};
use crate::ciphertext::Ciphertext;
use crate::commitment::Commitment;
use crate::curve::{G1, G2};
use crate::dec_share::DecryptionShare;
use crate::error::Error;
use crate::field::{fadd, fmul, lemma_fadd_laws, lemma_fmul_laws, modulus, values, Fr};
use crate::into_scalar::IntoScalar;
use crate::lagrange::{coefficients_at_zero, combination, lagrange_at_zero, weights_exist};
use crate::order::points_order;
use crate::pk::PublicKey;
use crate::pk_share::PublicKeyShare;
use crate::reconstruction::{law_shares_combine, lemma_weights_distinct};
use crate::sig::Signature;
use crate::sig_share::SignatureShare;
use crate::util::{into_scalar_plus_1, pad_of, xor_bytes, xor_with_hash};
use std::cmp::Ordering;
use vstd::arithmetic::div_mod::lemma_small_mod;
use vstd::prelude::*;

verus! {

/// A public key and an associated set of public key shares.
#[derive(Debug, Hash)]
pub struct PublicKeySet {
    /// The coefficients of a polynomial whose value at `0` is the "master key", and value at
    /// `i + 1` is key share number `i`.
    pub commit: Commitment,
}

impl View for PublicKeySet {
    type V = Seq<int>;

    /// The coefficients of the polynomial committed to.
    open spec fn view(&self) -> Seq<int> {
        self.commit@
    }
}

/// The threshold of a key set whose polynomial has the coefficients `p`: its degree.
pub open spec fn threshold_of(p: Seq<int>) -> int {
    if p.len() == 0 {
        0
    } else {
        p.len() - 1
    }
}

/// The scalars that stand for the first `n` share indices: each index plus one.
pub open spec fn share_points<T: IntoScalar, V>(shares: Seq<(T, V)>, n: int) -> Seq<int> {
    Seq::new(n as nat, |i: int| fadd(1, shares[i].0.scalar()))
}

/// The logarithms of the first `n` signature shares.
pub open spec fn signature_share_logs<T>(shares: Seq<(T, SignatureShare)>, n: int) -> Seq<int> {
    Seq::new(n as nat, |i: int| shares[i].1@)
}

/// The logarithms of the first `n` decryption shares.
pub open spec fn decryption_share_logs<T>(shares: Seq<(T, DecryptionShare)>, n: int) -> Seq<
    int,
> {
    Seq::new(n as nat, |i: int| shares[i].1@)
}

/// What combining `t + 1` shares with the given points and logarithms gives: their
/// Lagrange combination at zero, or the error that the points call for.
pub open spec fn combined(t: int, supplied: int, xs: Seq<int>, logs: Seq<int>) -> Result<
    int,
    Error,
> {
    if supplied <= t {
        Err(Error::NotEnoughShares)
    } else if !distinct(xs) {
        Err(Error::DuplicateShare)
    } else {
        Ok(combination(xs, logs, t + 1) % modulus())
    }
}

/// Whatever the key set of threshold `t` and the message: where `t + 1` or more shares are
/// supplied and the weights for the first `t + 1` of their points exist, the shares that
/// the holders of the secret key shares make of the hash `h` combine to what the master
/// key makes of it. With `t` shares or fewer the combination fails.
pub proof fn law_threshold_combination(poly: Seq<int>, xs: Seq<int>, h: int, supplied: int)
    requires
        xs.len() == threshold_of(poly) + 1,
    ensures
        supplied >= xs.len() && weights_exist(xs) ==> combined(
            threshold_of(poly),
            supplied,
            xs,
            Seq::new(xs.len(), |k: int| fmul(h, poly_eval(poly, xs[k]))),
        ) == Ok::<int, Error>(fmul(h, poly_eval(poly, 0))),
        supplied < xs.len() ==> combined(
            threshold_of(poly),
            supplied,
            xs,
            Seq::new(xs.len(), |k: int| fmul(h, poly_eval(poly, xs[k]))),
        ) == Err::<int, Error>(Error::NotEnoughShares),
{
    if supplied >= xs.len() && weights_exist(xs) {
        lemma_weights_distinct(xs);
        law_shares_combine(poly, xs, h);
    }
}

impl PublicKeySet {
    /// The key set that the commitment holds.
    pub fn from(commit: Commitment) -> (r: PublicKeySet)
        ensures
            r@ == commit@,
    {
        PublicKeySet { commit }
    }

    /// Returns the threshold `t`: any set of `t + 1` signature shares can be combined into a
    /// full signature.
    pub fn threshold(&self) -> (r: usize)
        ensures
            r == threshold_of(self@),
    {
        self.commit.degree()
    }

    /// Returns the public key.
    pub fn public_key(&self) -> (r: PublicKey)
        ensures
            r@ == coeff_at(self@, 0),
    {
        self.commit.public_key()
    }

    /// Returns the `i`-th public key share.
    pub fn public_key_share<T: IntoScalar>(&self, i: T) -> (r: PublicKeyShare)
        ensures
            r@ == poly_eval(self@, fadd(1, i.scalar())),
    {
        let value = self.commit.evaluate(into_scalar_plus_1(i));
        PublicKeyShare(PublicKey(value))
    }

    /// Combines the shares into a signature that can be verified with the main public key.
    /// The first `threshold + 1` of the shares are used.
    pub fn combine_signatures<T: IntoScalar>(&self, shares: &[(T, SignatureShare)]) -> (r:
        Result<Signature, Error>)
        ensures
            match combined(
                threshold_of(self@),
                shares@.len() as int,
                share_points(shares@, threshold_of(self@) + 1),
                signature_share_logs(shares@, threshold_of(self@) + 1),
            ) {
                Ok(log) => r matches Ok(s) && s@ == log,
                Err(e) => r == Err::<Signature, Error>(e),
            },
            r.is_ok() ==> weights_exist(share_points(shares@, threshold_of(self@) + 1)),
    {
        let t = self.commit.degree();
        match combine_signatures_(t, shares) {
            Ok(point) => Ok(Signature(point)),
            Err(e) => Err(e),
        }
    }

    /// Combine two PublicKeySet into a single one (used from threshold generation).
    pub fn combine(&self, other: PublicKeySet) -> (r: PublicKeySet)
        ensures
            r@ == poly_add(self@, other@),
    {
        let mut commit = self.commit.clone();
        commit.add_assign(&other.commit);
        PublicKeySet::from(commit)
    }

    /// Combines the shares to decrypt the ciphertext, which has to pass its own check first.
    /// The first `threshold + 1` of the shares are used.
    pub fn decrypt<T: IntoScalar>(&self, shares: &[(T, DecryptionShare)], ct: &Ciphertext) -> (r:
        Result<Vec<u8>, Error>)
        ensures
            !ct.valid() ==> r == Err::<Vec<u8>, Error>(Error::MalformedCiphertext),
            ct.valid() ==> match combined(
                threshold_of(self@),
                shares@.len() as int,
                share_points(shares@, threshold_of(self@) + 1),
                decryption_share_logs(shares@, threshold_of(self@) + 1),
            ) {
                Ok(log) => r matches Ok(text) && text@ == xor_bytes(
                    pad_of(log, ct.1@.len() as int),
                    ct.1@,
                ),
                Err(e) => r == Err::<Vec<u8>, Error>(e),
            },
            r.is_ok() ==> weights_exist(share_points(shares@, threshold_of(self@) + 1)),
    {
        if !ct.verify() {
            return Err(Error::MalformedCiphertext);
        }
        let t = self.commit.degree();
        match decrypt_(t, shares) {
            Ok(g) => Ok(xor_with_hash(g, ct.1.as_slice())),
            Err(e) => Err(e),
        }
    }
}

impl PublicKeySet {
    /// How this key set compares with the other: as their commitments do.
    pub fn cmp(&self, other: &PublicKeySet) -> (r: Ordering)
        ensures
            r == points_order(self@, other@),
    {
        self.commit.cmp(&other.commit)
    }
}

impl PartialOrd for PublicKeySet {
    fn partial_cmp(&self, other: &PublicKeySet) -> (r: Option<Ordering>) {
        Some(self.cmp(other))
    }
}

impl vstd::std_specs::cmp::PartialOrdSpecImpl for PublicKeySet {
    open spec fn obeys_partial_cmp_spec() -> bool {
        true
    }

    open spec fn partial_cmp_spec(&self, other: &PublicKeySet) -> Option<Ordering> {
        Some(points_order(self@, other@))
    }
}

impl Clone for PublicKeySet {
    fn clone(&self) -> (r: PublicKeySet)
        ensures
            r@ == self@,
    {
        PublicKeySet { commit: self.commit.clone() }
    }
}

impl PartialEq for PublicKeySet {
    fn eq(&self, other: &PublicKeySet) -> (r: bool) {
        self.commit == other.commit
    }
}

impl Eq for PublicKeySet {

}

impl vstd::std_specs::cmp::PartialEqSpecImpl for PublicKeySet {
    open spec fn obeys_eq_spec() -> bool {
        true
    }

    open spec fn eq_spec(&self, other: &PublicKeySet) -> bool {
        self@ == other@
    }
}

/// The scalars that the first `n` share indices stand for.
fn collect_points<T: IntoScalar, V>(shares: &[(T, V)], n: usize) -> (r: Vec<Fr>)
    requires
        n <= shares@.len(),
    ensures
        values(r@) == share_points(shares@, n as int),
{
    let mut xs: Vec<Fr> = Vec::with_capacity(n);
    let mut i: usize = 0;
    while i < n
        invariant
            i <= n <= shares@.len(),
            xs.len() == i,
            forall|k: int| 0 <= k < i ==> xs[k]@ == fadd(1, shares@[k].0.scalar()),
        decreases n - i,
    {
        xs.push(into_scalar_plus_1(shares[i].0));
        i += 1;
    }
    assert(values(xs@) =~= share_points(shares@, n as int));
    xs
}

/// Lagrange interpolation at zero, in `G1`: combines the first `t + 1` decryption shares.
pub fn decrypt_<T: IntoScalar>(t: usize, items: &[(T, DecryptionShare)]) -> (r: Result<G1, Error>)
    ensures
        match combined(
            t as int,
            items@.len() as int,
            share_points(items@, t + 1),
            decryption_share_logs(items@, t + 1),
        ) {
            Ok(log) => r matches Ok(g) && g@ == log,
            Err(e) => r == Err::<G1, Error>(e),
        },
        r.is_ok() ==> weights_exist(share_points(items@, t + 1)),
{
    if items.len() <= t {
        return Err(Error::NotEnoughShares);
    }
    let n = t + 1;
    let samples = collect_points(items, n);
    let ghost xs = share_points(items@, n as int);
    let ghost logs = decryption_share_logs(items@, n as int);
    let weights = match coefficients_at_zero(&samples) {
        Ok(weights) => weights,
        Err(e) => {
            return Err(e);
        },
    };
    let mut result = G1::identity();
    proof {
        lemma_small_mod(0, modulus() as nat);
    }
    let mut k: usize = 0;
    while k < n
        invariant
            k <= n <= items@.len(),
            weights.len() == n,
            xs == share_points(items@, n as int),
            logs == decryption_share_logs(items@, n as int),
            forall|a: int| 0 <= a < n ==> weights[a]@ == lagrange_at_zero(xs, a),
            result@ == combination(xs, logs, k as int) % modulus(),
        decreases n - k,
    {
        proof {
            lemma_fmul_laws(logs[k as int], lagrange_at_zero(xs, k as int), 0);
            lemma_fadd_laws(
                combination(xs, logs, k as int),
                lagrange_at_zero(xs, k as int) * logs[k as int],
                0,
            );
            lemma_fadd_laws(
                combination(xs, logs, k as int) % modulus(),
                lagrange_at_zero(xs, k as int) * logs[k as int],
                0,
            );
        }
        result = result.plus(&items[k].1.0.times(&weights[k]));
        k += 1;
    }
    Ok(result)
}

/// Lagrange interpolation at zero, in `G2`: combines the first `t + 1` signature shares.
pub fn combine_signatures_<T: IntoScalar>(t: usize, items: &[(T, SignatureShare)]) -> (r: Result<
    G2,
    Error,
>)
    ensures
        match combined(
            t as int,
            items@.len() as int,
            share_points(items@, t + 1),
            signature_share_logs(items@, t + 1),
        ) {
            Ok(log) => r matches Ok(g) && g@ == log,
            Err(e) => r == Err::<G2, Error>(e),
        },
        r.is_ok() ==> weights_exist(share_points(items@, t + 1)),
{
    if items.len() <= t {
        return Err(Error::NotEnoughShares);
    }
    let n = t + 1;
    let samples = collect_points(items, n);
    let ghost xs = share_points(items@, n as int);
    let ghost logs = signature_share_logs(items@, n as int);
    let weights = match coefficients_at_zero(&samples) {
        Ok(weights) => weights,
        Err(e) => {
            return Err(e);
        },
    };
    let mut result = G2::identity();
    proof {
        lemma_small_mod(0, modulus() as nat);
    }
    let mut k: usize = 0;
    while k < n
        invariant
            k <= n <= items@.len(),
            weights.len() == n,
            xs == share_points(items@, n as int),
            logs == signature_share_logs(items@, n as int),
            forall|a: int| 0 <= a < n ==> weights[a]@ == lagrange_at_zero(xs, a),
            result@ == combination(xs, logs, k as int) % modulus(),
        decreases n - k,
    {
        proof {
            lemma_fmul_laws(logs[k as int], lagrange_at_zero(xs, k as int), 0);
            lemma_fadd_laws(
                combination(xs, logs, k as int),
                lagrange_at_zero(xs, k as int) * logs[k as int],
                0,
            );
            lemma_fadd_laws(
                combination(xs, logs, k as int) % modulus(),
                lagrange_at_zero(xs, k as int) * logs[k as int],
                0,
            );
        }
        result = result.plus(&items[k].1.0.0.times(&weights[k]));
        k += 1;
    }
    Ok(result)
}

} // verus!
