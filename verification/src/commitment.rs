//! Commitments to univariate polynomials.
use crate::algebra::{
    coeff_at, is_stripped, lemma_horner_single, lemma_horner_step, lemma_strip_fixed,
    lemma_strip_is_take, lemma_strip_props, poly_add, poly_eval, residues, strip, zip_add,
};
use crate::curve::{g1_logs, G1};
use crate::field::modulus;
use crate::into_scalar::IntoScalar;
use crate::order::{
    differing_points, lemma_first_unequal_points, lemma_first_unequal_same, place, points_differ_at,
    points_order,
};
use crate::pk::PublicKey;
use crate::util::cmp_g1_affine;
use std::cmp::Ordering;
use vstd::arithmetic::div_mod::lemma_small_mod;
use vstd::prelude::*;

verus! {

/// A commitment to a univariate polynomial: each coefficient times the generator of `G1`.
#[derive(Debug, Hash)]
pub struct Commitment {
    /// The coefficients of the polynomial, each as a point.
    coeff: Vec<G1>,
}

impl View for Commitment {
    type V = Seq<int>;

    /// The discrete logarithms of the points, lowest degree first and without trailing
    /// zeros: the coefficients of the polynomial committed to.
    closed spec fn view(&self) -> Seq<int> {
        strip(g1_logs(self.coeff@))
    }
}

/// The number of points that are left when the trailing neutral elements are taken away.
fn stripped_len(coeff: &Vec<G1>) -> (len: usize)
    ensures
        len <= coeff.len(),
        strip(g1_logs(coeff@)) == g1_logs(coeff@).take(len as int),
{
    let mut len = coeff.len();
    while len > 0 && coeff[len - 1].is_identity()
        invariant
            len <= coeff.len(),
            forall|i: int| len <= i < coeff.len() ==> coeff[i]@ == 0,
        decreases len,
    {
        len -= 1;
    }
    proof {
        lemma_strip_is_take(g1_logs(coeff@), len as int);
    }
    len
}

/// Removes all trailing neutral elements.
fn remove_zeros(coeff: &mut Vec<G1>)
    ensures
        g1_logs(final(coeff)@) == strip(g1_logs(old(coeff)@)),
{
    let len = stripped_len(coeff);
    coeff.truncate(len);
    assert(g1_logs(coeff@) =~= g1_logs(old(coeff)@).take(len as int));
}

impl Commitment {
    /// Whatever the commitment, its logarithms do not end in a zero.
    pub proof fn lemma_stripped(self)
        ensures
            is_stripped(self@),
    {
        lemma_strip_props(g1_logs(self.coeff@));
    }

    /// Creates a commitment from the points. Trailing neutral elements do not count.
    pub fn from(coeff: Vec<G1>) -> (r: Commitment)
        ensures
            r@ == strip(g1_logs(coeff@)),
    {
        let mut stripped = coeff;
        remove_zeros(&mut stripped);
        proof {
            lemma_strip_props(g1_logs(coeff@));
            lemma_strip_fixed(strip(g1_logs(coeff@)));
        }
        Commitment { coeff: stripped }
    }

    /// Returns the polynomial's degree; `0` for the commitment to the zero polynomial.
    pub fn degree(&self) -> (r: usize)
        ensures
            r == if self@.len() == 0 {
                0
            } else {
                self@.len() - 1
            },
    {
        let n = stripped_len(&self.coeff);
        if n == 0 {
            0
        } else {
            n - 1
        }
    }

    /// Returns the point of degree `i`, which is the neutral element beyond the degree.
    pub fn coefficient(&self, i: usize) -> (r: G1)
        ensures
            r@ == coeff_at(self@, i as int),
    {
        let n = stripped_len(&self.coeff);
        if i < n {
            self.coeff[i]
        } else {
            G1::identity()
        }
    }

    /// Returns the `i`-th public key share.
    pub fn evaluate<T: IntoScalar>(&self, i: T) -> (r: G1)
        ensures
            r@ == poly_eval(self@, i.scalar()),
    {
        let n = stripped_len(&self.coeff);
        if n == 0 {
            proof {
                lemma_small_mod(0, modulus() as nat);
            }
            return G1::identity();
        }
        let x = i.into_scalar();
        let mut result = self.coeff[n - 1];
        let mut k = n - 1;
        proof {
            use_type_invariant(&result);
            lemma_horner_single(self@.skip(k as int), x@);
            lemma_small_mod(result@ as nat, modulus() as nat);
        }
        while k > 0
            invariant
                k < n <= self.coeff.len(),
                self@ == g1_logs(self.coeff@).take(n as int),
                result@ == poly_eval(self@.skip(k as int), x@),
            decreases k,
        {
            k -= 1;
            proof {
                lemma_horner_step(self@, k as int, x@, result@);
            }
            result = result.times(&x).plus(&self.coeff[k]);
        }
        assert(self@.skip(0) =~= self@);
        result
    }

    /// Returns the sum of the two commitments, which commits to the sum of the polynomials.
    pub fn add(&self, rhs: &Commitment) -> (r: Commitment)
        ensures
            r@ == poly_add(self@, rhs@),
    {
        let la = stripped_len(&self.coeff);
        let lb = stripped_len(&rhs.coeff);
        let n = if la >= lb {
            la
        } else {
            lb
        };
        let ghost sum = residues(zip_add(self@, rhs@));
        let mut coeff: Vec<G1> = Vec::with_capacity(n);
        let mut i: usize = 0;
        while i < n
            invariant
                i <= n,
                la <= self.coeff.len(),
                lb <= rhs.coeff.len(),
                self@ == g1_logs(self.coeff@).take(la as int),
                rhs@ == g1_logs(rhs.coeff@).take(lb as int),
                n == sum.len(),
                sum == residues(zip_add(self@, rhs@)),
                coeff.len() == i,
                forall|k: int| 0 <= k < i ==> coeff[k]@ == sum[k],
            decreases n - i,
        {
            let x = if i < la {
                self.coeff[i]
            } else {
                G1::identity()
            };
            let y = if i < lb {
                rhs.coeff[i]
            } else {
                G1::identity()
            };
            coeff.push(x.plus(&y));
            i += 1;
        }
        assert(g1_logs(coeff@) =~= sum);
        Commitment::from(coeff)
    }

    /// Adds `rhs` to this commitment.
    pub fn add_assign(&mut self, rhs: &Commitment)
        ensures
            final(self)@ == poly_add(old(self)@, rhs@),
    {
        let sum = self.add(rhs);
        *self = sum;
    }

    /// The public key that the commitment holds: its coefficient of degree zero.
    pub fn public_key(&self) -> (r: PublicKey)
        ensures
            r@ == coeff_at(self@, 0),
    {
        PublicKey(self.coefficient(0))
    }
}

/// The first two points in which the commitments differ, where they differ.
fn first_unequal_points(a: &Commitment, b: &Commitment) -> (r: Option<(G1, G1)>)
    requires
        a@.len() == b@.len(),
    ensures
        match r {
            Some((x, y)) => differing_points(a@, b@, x@, y@),
            None => a@ == b@,
        },
{
    let n = stripped_len(&a.coeff);
    let k = stripped_len(&b.coeff);
    let mut i: usize = 0;
    while i < n
        invariant
            i <= n <= a.coeff.len(),
            n == k <= b.coeff.len(),
            a@ == g1_logs(a.coeff@).take(n as int),
            b@ == g1_logs(b.coeff@).take(n as int),
            a@.take(i as int) == b@.take(i as int),
        decreases n - i,
    {
        if !a.coeff[i].equals(&b.coeff[i]) {
            assert(points_differ_at(a@, b@, i) && a@[place(i)] == a.coeff[i as int]@ && b@[place(
                i,
            )] == b.coeff[i as int]@);
            return Some((a.coeff[i], b.coeff[i]));
        }
        assert(a@.take(i + 1) =~= a@.take(i as int).push(a@[i as int]));
        assert(b@.take(i + 1) =~= b@.take(i as int).push(b@[i as int]));
        i += 1;
    }
    assert(a@.take(n as int) =~= a@);
    assert(b@.take(n as int) =~= b@);
    None
}

impl Commitment {
    /// How this commitment compares with the other: the one of lower degree first, and
    /// those of one degree by the encodings of the first two points that differ.
    pub fn cmp(&self, other: &Commitment) -> (r: Ordering)
        ensures
            r == points_order(self@, other@),
    {
        let n = self.count();
        let k = other.count();
        if n < k {
            Ordering::Less
        } else if n > k {
            Ordering::Greater
        } else {
            match first_unequal_points(self, other) {
                Some((x, y)) => {
                    proof {
                        lemma_first_unequal_points(self@, other@, x@, y@);
                    }
                    cmp_g1_affine(&x, &y)
                },
                None => {
                    proof {
                        lemma_first_unequal_same(self@);
                    }
                    Ordering::Equal
                },
            }
        }
    }

    /// The number of points, trailing neutral elements apart.
    fn count(&self) -> (n: usize)
        ensures
            n == self@.len(),
    {
        stripped_len(&self.coeff)
    }
}

impl PartialOrd for Commitment {
    fn partial_cmp(&self, other: &Commitment) -> (r: Option<Ordering>) {
        Some(self.cmp(other))
    }
}

impl vstd::std_specs::cmp::PartialOrdSpecImpl for Commitment {
    open spec fn obeys_partial_cmp_spec() -> bool {
        true
    }

    open spec fn partial_cmp_spec(&self, other: &Commitment) -> Option<Ordering> {
        Some(points_order(self@, other@))
    }
}

impl Clone for Commitment {
    fn clone(&self) -> (r: Commitment)
        ensures
            r@ == self@,
    {
        let n = self.coeff.len();
        let mut coeff: Vec<G1> = Vec::with_capacity(n);
        let mut i: usize = 0;
        while i < n
            invariant
                i <= n,
                n == self.coeff.len(),
                coeff.len() == i,
                forall|k: int| 0 <= k < i ==> coeff[k] == self.coeff[k],
            decreases n - i,
        {
            coeff.push(self.coeff[i]);
            i += 1;
        }
        assert(g1_logs(coeff@) =~= g1_logs(self.coeff@));
        Commitment { coeff }
    }
}

impl PartialEq for Commitment {
    fn eq(&self, other: &Commitment) -> (r: bool) {
        let n = stripped_len(&self.coeff);
        if n != stripped_len(&other.coeff) {
            assert(self@.len() != other@.len());
            return false;
        }
        let mut i: usize = 0;
        while i < n
            invariant
                i <= n <= self.coeff.len(),
                n <= other.coeff.len(),
                self@ == g1_logs(self.coeff@).take(n as int),
                other@ == g1_logs(other.coeff@).take(n as int),
                forall|k: int| 0 <= k < i ==> self@[k] == other@[k],
            decreases n - i,
        {
            if !self.coeff[i].equals(&other.coeff[i]) {
                assert(self@[i as int] != other@[i as int]);
                return false;
            }
            i += 1;
        }
        assert(self@ =~= other@);
        true
    }
}

impl Eq for Commitment {

}

impl vstd::std_specs::cmp::PartialEqSpecImpl for Commitment {
    open spec fn obeys_eq_spec() -> bool {
        true
    }

    open spec fn eq_spec(&self, other: &Commitment) -> bool {
        self@ == other@
    }
}

} // verus!
