//! Commitments to symmetric bivariate polynomials.
use crate::commitment::Commitment;
use crate::curve::{g1_logs, G1};
use crate::field::{lemma_fmul_laws, modulus, Fr};
use crate::into_scalar::IntoScalar;
use crate::order::{
    bivar_order, differing_points, lemma_first_unequal_points, lemma_first_unequal_same, place,
    points_differ_at,
};
use crate::sums::{
    bi_coeff, bi_eval, bi_row, bi_sum, lemma_bi_accumulate, lemma_bi_sum_step, lemma_row_accumulate,
    lemma_row_sum_step, row_sum,
};
use crate::util::{cmp_g1_affine, packed_index, packed_len, packed_pos_fits, power_mod, powers};
use std::cmp::Ordering;
use vstd::arithmetic::div_mod::lemma_small_mod;
use vstd::arithmetic::power::pow;
use vstd::prelude::*;

verus! {

/// A commitment to a symmetric bivariate polynomial.
#[derive(Debug, Hash)]
pub struct BivarCommitment {
    /// The polynomial's degree in each of the two variables.
    degree: usize,
    /// The commitments to the coefficients.
    coeff: Vec<G1>,
}

impl View for BivarCommitment {
    type V = Seq<int>;

    /// The discrete logarithms of the points, in triangular packing: the coefficients of
    /// the polynomial committed to.
    closed spec fn view(&self) -> Seq<int> {
        g1_logs(self.coeff@).take(packed_len(self.degree as int))
    }
}

impl BivarCommitment {
    /// There are points for every position that the degree asks for.
    #[verifier::type_invariant]
    pub closed spec fn well_formed(self) -> bool {
        packed_pos_fits(self.degree as int, self.degree as int) && packed_len(self.degree as int)
            <= usize::MAX && self.coeff.len() >= packed_len(self.degree as int)
    }

    /// The polynomial's degree, which is the same in both variables.
    pub closed spec fn spec_degree(&self) -> int {
        self.degree as int
    }

    /// The commitment of the given degree that has the given points as its coefficients.
    pub(crate) fn from_points(degree: usize, coeff: Vec<G1>) -> (r: BivarCommitment)
        requires
            packed_pos_fits(degree as int, degree as int),
            packed_len(degree as int) <= usize::MAX,
            coeff.len() >= packed_len(degree as int),
        ensures
            r.spec_degree() == degree,
            r@ == g1_logs(coeff@).take(packed_len(degree as int)),
    {
        BivarCommitment { degree, coeff }
    }

    /// Returns the polynomial's degree: It is the same in both variables.
    pub fn degree(&self) -> (r: usize)
        ensures
            r == self.spec_degree(),
    {
        self.degree
    }

    /// Returns the commitment's value at the point `(x, y)`.
    pub fn evaluate<T: IntoScalar>(&self, x: T, y: T) -> (r: G1)
        ensures
            r@ == bi_eval(self@, self.spec_degree(), x.scalar(), y.scalar()),
    {
        proof {
            use_type_invariant(self);
        }
        let d = self.degree;
        let x_pow = self.powers(x);
        let y_pow = self.powers(y);
        let ghost c = self@;
        let ghost xs = x.scalar();
        let ghost ys = y.scalar();
        let mut result = G1::identity();
        proof {
            lemma_bi_sum_step(c, d as int, xs, ys, 0);
            lemma_small_mod(0, modulus() as nat);
        }
        let mut i: usize = 0;
        while i <= d
            invariant
                i <= d + 1,
                d == self.degree,
                packed_pos_fits(d as int, d as int),
                packed_len(d as int) <= usize::MAX,
                c == self@,
                self.coeff.len() >= packed_len(d as int),
                x_pow.len() == d + 1,
                y_pow.len() == d + 1,
                forall|k: int| 0 <= k <= d ==> x_pow[k]@ == power_mod(xs, k as nat),
                forall|k: int| 0 <= k <= d ==> y_pow[k]@ == power_mod(ys, k as nat),
                result@ == bi_sum(c, d as int, xs, ys, i as int) % modulus(),
            decreases d + 1 - i,
        {
            let mut j: usize = 0;
            proof {
                lemma_row_sum_step(c, ys, i as int, 0);
                assert(pow(xs, i as nat) * 0 == 0);
            }
            while j <= d
                invariant
                    i <= d,
                    j <= d + 1,
                    d == self.degree,
                    packed_pos_fits(d as int, d as int),
                    packed_len(d as int) <= usize::MAX,
                    c == self@,
                    self.coeff.len() >= packed_len(d as int),
                    x_pow.len() == d + 1,
                    y_pow.len() == d + 1,
                    forall|k: int| 0 <= k <= d ==> x_pow[k]@ == power_mod(xs, k as nat),
                    forall|k: int| 0 <= k <= d ==> y_pow[k]@ == power_mod(ys, k as nat),
                    result@ == (bi_sum(c, d as int, xs, ys, i as int) + pow(xs, i as nat)
                        * row_sum(c, ys, i as int, j as int)) % modulus(),
                decreases d + 1 - j,
            {
                let index = packed_index(i, j, d);
                // One multiplication of the point, by the product of the two powers.
                let weight = x_pow[i].times(&y_pow[j]);
                let summand = self.coeff[index].times(&weight);
                proof {
                    lemma_fmul_laws(self.coeff[index as int]@, x_pow[i as int]@, y_pow[j as int]@);
                    let total = bi_sum(c, d as int, xs, ys, i as int) + pow(xs, i as nat)
                        * row_sum(c, ys, i as int, j as int);
                    lemma_bi_accumulate(
                        total,
                        bi_coeff(c, i as int, j as int),
                        pow(xs, i as nat),
                        pow(ys, j as nat),
                    );
                    lemma_row_sum_step(c, ys, i as int, j as int);
                    let px = pow(xs, i as nat);
                    let rs = row_sum(c, ys, i as int, j as int);
                    let t = bi_coeff(c, i as int, j as int) * pow(ys, j as nat);
                    assert(px * (rs + t) == px * rs + px * t) by (nonlinear_arith);
                }
                result = result.plus(&summand);
                j += 1;
            }
            proof {
                lemma_bi_sum_step(c, d as int, xs, ys, i as int);
            }
            i += 1;
        }
        result
    }

    /// Returns the `x`-th row, as a commitment to a univariate polynomial.
    pub fn row<T: IntoScalar>(&self, x: T) -> (r: Commitment)
        ensures
            r@ == bi_row(self@, self.spec_degree(), x.scalar()),
    {
        proof {
            use_type_invariant(self);
        }
        let d = self.degree;
        let x_pow = self.powers(x);
        let ghost c = self@;
        let ghost xs = x.scalar();
        let mut coeff: Vec<G1> = Vec::with_capacity(d + 1);
        let mut i: usize = 0;
        while i <= d
            invariant
                i <= d + 1,
                d == self.degree,
                packed_pos_fits(d as int, d as int),
                packed_len(d as int) <= usize::MAX,
                c == self@,
                self.coeff.len() >= packed_len(d as int),
                x_pow.len() == d + 1,
                forall|k: int| 0 <= k <= d ==> x_pow[k]@ == power_mod(xs, k as nat),
                coeff.len() == i,
                forall|k: int|
                    0 <= k < i ==> coeff[k]@ == row_sum(c, xs, k, d + 1) % modulus(),
            decreases d + 1 - i,
        {
            let mut result = G1::identity();
            let mut j: usize = 0;
            proof {
                lemma_row_sum_step(c, xs, i as int, 0);
                lemma_small_mod(0, modulus() as nat);
            }
            while j <= d
                invariant
                    i <= d,
                    j <= d + 1,
                    d == self.degree,
                    packed_pos_fits(d as int, d as int),
                    packed_len(d as int) <= usize::MAX,
                    c == self@,
                    self.coeff.len() >= packed_len(d as int),
                    x_pow.len() == d + 1,
                    forall|k: int| 0 <= k <= d ==> x_pow[k]@ == power_mod(xs, k as nat),
                    result@ == row_sum(c, xs, i as int, j as int) % modulus(),
                decreases d + 1 - j,
            {
                let index = packed_index(i, j, d);
                let summand = self.coeff[index].times(&x_pow[j]);
                proof {
                    lemma_row_accumulate(
                        row_sum(c, xs, i as int, j as int),
                        bi_coeff(c, i as int, j as int),
                        pow(xs, j as nat),
                    );
                    lemma_row_sum_step(c, xs, i as int, j as int);
                }
                result = result.plus(&summand);
                j += 1;
            }
            coeff.push(result);
            i += 1;
        }
        assert(g1_logs(coeff@) =~= Seq::new(
            (d + 1) as nat,
            |i: int| row_sum(c, xs, i, d + 1) % modulus(),
        ));
        Commitment::from(coeff)
    }

    /// Returns the `0`-th to `degree`-th power of `x`.
    fn powers<T: IntoScalar>(&self, x: T) -> (r: Vec<Fr>)
        ensures
            r.len() == self.spec_degree() + 1,
            forall|i: int|
                0 <= i <= self.spec_degree() ==> r[i]@ == power_mod(x.scalar(), i as nat),
    {
        proof {
            use_type_invariant(self);
        }
        powers(x, self.degree)
    }

    /// Generates a non-redacted debug string. This method differs from the `Debug`
    /// implementation in that it *does* leak the the struct's internal state.
    #[verifier::external_body]
    pub fn revealed(&self) -> String {
        format!("BivarCommitment {{ degree: {}, coeff: {:?} }}", self.degree, self.coeff)
    }
}

/// The first two points in which the commitments differ, where they differ.
fn first_unequal_points(a: &BivarCommitment, b: &BivarCommitment) -> (r: Option<(G1, G1)>)
    requires
        a.spec_degree() == b.spec_degree(),
    ensures
        match r {
            Some((x, y)) => differing_points(a@, b@, x@, y@),
            None => a@ == b@,
        },
{
    proof {
        use_type_invariant(a);
        use_type_invariant(b);
    }
    let n = packed_index(a.degree, a.degree, a.degree) + 1;
    let mut i: usize = 0;
    while i < n
        invariant
            i <= n,
            n == packed_len(a.degree as int),
            a.degree == b.degree,
            n <= a.coeff.len(),
            n <= b.coeff.len(),
            a@.take(i as int) == b@.take(i as int),
        decreases n - i,
    {
        if !a.coeff[i].equals(&b.coeff[i]) {
            assert(points_differ_at(a@, b@, i) && a@[place(i)] == a.coeff[i as int]@ && b@[place(
                i,
            )] == b.coeff[i as int]@);
            return Some((a.coeff[i], b.coeff[i]));
        }
        assert(a@.take(i + 1) =~= a@.take(i as int).push(a@[i as int]));
        assert(b@.take(i + 1) =~= b@.take(i as int).push(b@[i as int]));
        i += 1;
    }
    assert(a@.take(n as int) =~= a@);
    assert(b@.take(n as int) =~= b@);
    None
}

impl BivarCommitment {
    /// How this commitment compares with the other: the one of lower degree first, and
    /// those of one degree by the encodings of the first two points that differ.
    pub fn cmp(&self, other: &BivarCommitment) -> (r: Ordering)
        ensures
            r == bivar_order(self.spec_degree(), self@, other.spec_degree(), other@),
    {
        let n = self.degree();
        let k = other.degree();
        if n < k {
            Ordering::Less
        } else if n > k {
            Ordering::Greater
        } else {
            match first_unequal_points(self, other) {
                Some((x, y)) => {
                    proof {
                        lemma_first_unequal_points(self@, other@, x@, y@);
                    }
                    cmp_g1_affine(&x, &y)
                },
                None => {
                    proof {
                        lemma_first_unequal_same(self@);
                    }
                    Ordering::Equal
                },
            }
        }
    }
}

impl PartialOrd for BivarCommitment {
    fn partial_cmp(&self, other: &BivarCommitment) -> (r: Option<Ordering>) {
        Some(self.cmp(other))
    }
}

impl vstd::std_specs::cmp::PartialOrdSpecImpl for BivarCommitment {
    open spec fn obeys_partial_cmp_spec() -> bool {
        true
    }

    open spec fn partial_cmp_spec(&self, other: &BivarCommitment) -> Option<Ordering> {
        Some(bivar_order(self.spec_degree(), self@, other.spec_degree(), other@))
    }
}

impl Clone for BivarCommitment {
    fn clone(&self) -> (r: BivarCommitment)
        ensures
            r.spec_degree() == self.spec_degree(),
            r@ == self@,
    {
        proof {
            use_type_invariant(self);
        }
        let n = self.coeff.len();
        let mut coeff: Vec<G1> = Vec::with_capacity(n);
        let mut i: usize = 0;
        while i < n
            invariant
                i <= n,
                n == self.coeff.len(),
                coeff.len() == i,
                forall|k: int| 0 <= k < i ==> coeff[k] == self.coeff[k],
            decreases n - i,
        {
            coeff.push(self.coeff[i]);
            i += 1;
        }
        assert(g1_logs(coeff@) =~= g1_logs(self.coeff@));
        BivarCommitment { degree: self.degree, coeff }
    }
}

impl PartialEq for BivarCommitment {
    fn eq(&self, other: &BivarCommitment) -> (r: bool) {
        proof {
            use_type_invariant(self);
            use_type_invariant(other);
        }
        if self.degree != other.degree {
            return false;
        }
        let n = packed_index(self.degree, self.degree, self.degree) + 1;
        let mut i: usize = 0;
        while i < n
            invariant
                i <= n,
                n == packed_len(self.degree as int),
                self.degree == other.degree,
                n <= self.coeff.len(),
                n <= other.coeff.len(),
                forall|k: int| 0 <= k < i ==> self.coeff[k]@ == other.coeff[k]@,
            decreases n - i,
        {
            if !self.coeff[i].equals(&other.coeff[i]) {
                assert(self@[i as int] != other@[i as int]);
                return false;
            }
            i += 1;
        }
        assert(self@ =~= other@);
        true
    }
}

impl Eq for BivarCommitment {

}

impl vstd::std_specs::cmp::PartialEqSpecImpl for BivarCommitment {
    open spec fn obeys_eq_spec() -> bool {
        true
    }

    open spec fn eq_spec(&self, other: &BivarCommitment) -> bool {
        self.spec_degree() == other.spec_degree() && self@ == other@
    }
}

} // verus!
