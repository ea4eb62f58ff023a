//! Symmetric bivariate polynomials over the scalar field.
use crate::bicommitment::BivarCommitment;
use crate::curve::{g1_logs, G1};
use crate::error::Error;
use crate::field::{lemma_fmul_laws, lemma_reduced, modulus, values, wipe_scalars, Fr};
use crate::into_scalar::IntoScalar;
use crate::poly::Poly;
use crate::sums::{
    bi_coeff, bi_eval, bi_row, bi_sum, bivar_commitment_logs, lemma_bi_accumulate,
    lemma_bi_sum_step, lemma_row_accumulate, lemma_row_sum_step, row_sum,
};
use crate::util::{coeff_pos, packed_index, packed_len, packed_pos_fits, power_mod, powers};
use vstd::arithmetic::div_mod::lemma_small_mod;
use vstd::arithmetic::power::pow;
use vstd::prelude::*;

verus! {

/// A symmetric bivariate polynomial in the prime field.
///
/// This can be used for Verifiable Secret Sharing and Distributed Key Generation.
#[derive(Debug)]
pub struct BivarPoly {
    /// The polynomial's degree in each of the two variables.
    degree: usize,
    /// The coefficients of the polynomial. Coefficient `(i, j)` for `i <= j` is in position
    /// `j * (j + 1) / 2 + i`.
    coeff: Vec<Fr>,
}

impl View for BivarPoly {
    type V = Seq<int>;

    /// The coefficients as numbers, in triangular packing.
    closed spec fn view(&self) -> Seq<int> {
        values(self.coeff@).take(packed_len(self.degree as int))
    }
}

/// Whether a vector for the coefficients of a polynomial of degree `d` can be had: their
/// positions and their number fit `usize`.
pub open spec fn degree_fits(d: int) -> bool {
    packed_pos_fits(d, d) && packed_len(d) <= usize::MAX
}

impl BivarPoly {
    /// There are coefficients for every position that the degree asks for.
    #[verifier::type_invariant]
    pub closed spec fn well_formed(self) -> bool {
        degree_fits(self.degree as int) && self.coeff.len() >= packed_len(self.degree as int)
    }

    /// The polynomial's degree, which is the same in both variables.
    pub closed spec fn spec_degree(&self) -> int {
        self.degree as int
    }

    /// The number of coefficients of a polynomial of the given degree; `None` where their
    /// positions or their number do not fit `usize`.
    pub fn coefficient_count(degree: usize) -> (r: Option<usize>)
        ensures
            r.is_some() == degree_fits(degree as int),
            r matches Some(n) ==> n == packed_len(degree as int),
    {
        match coeff_pos(degree, degree) {
            Some(last) => last.checked_add(1),
            None => None,
        }
    }

    /// Creates a polynomial of the given degree from random coefficients.
    pub fn random(degree: usize) -> (r: BivarPoly)
        requires
            degree_fits(degree as int),
        ensures
            r.spec_degree() == degree,
            r@.len() == packed_len(degree as int),
    {
        let len = packed_index(degree, degree, degree) + 1;
        let mut coeff: Vec<Fr> = Vec::with_capacity(len);
        let mut i: usize = 0;
        while i < len
            invariant
                i <= len,
                coeff.len() == i,
            decreases len - i,
        {
            coeff.push(Fr::random());
            i += 1;
        }
        BivarPoly { degree, coeff }
    }

    /// Creates a polynomial of the given degree from random coefficients. Fails where the
    /// degree is too high for the coefficients to fit into a `Vec`.
    pub fn try_random(degree: usize) -> (r: Result<BivarPoly, Error>)
        ensures
            r.is_ok() == degree_fits(degree as int),
            r matches Ok(p) ==> p.spec_degree() == degree && p@.len() == packed_len(
                degree as int,
            ),
            r matches Err(e) ==> e == Error::DegreeOverflow,
    {
        match BivarPoly::coefficient_count(degree) {
            Some(_) => Ok(BivarPoly::random(degree)),
            None => Err(Error::DegreeOverflow),
        }
    }

    /// Creates the polynomial of the given degree that has the given coefficients, in
    /// triangular packing. `None` where the degree is too high or the vector does not hold
    /// as many coefficients as the degree asks for.
    pub fn from_coefficients(degree: usize, coeff: Vec<Fr>) -> (r: Option<BivarPoly>)
        ensures
            r.is_some() == (degree_fits(degree as int) && coeff.len() == packed_len(
                degree as int,
            )),
            r matches Some(p) ==> p.spec_degree() == degree && p@ == values(coeff@),
    {
        match BivarPoly::coefficient_count(degree) {
            Some(len) => {
                if coeff.len() == len {
                    assert(values(coeff@).take(len as int) =~= values(coeff@));
                    Some(BivarPoly { degree, coeff })
                } else {
                    None
                }
            },
            None => None,
        }
    }

    /// Creates a polynomial where the 0th coeff is set to `secret`.
    pub fn with_secret<T: IntoScalar>(secret: T, degree: usize) -> (r: BivarPoly)
        requires
            degree_fits(degree as int),
        ensures
            r.spec_degree() == degree,
            r@.len() == packed_len(degree as int),
            r@[0] == secret.scalar(),
    {
        let bipoly = BivarPoly::random(degree);
        proof {
            use_type_invariant(&bipoly);
        }
        let n = bipoly.coeff.len();
        let mut coeff: Vec<Fr> = Vec::with_capacity(n);
        coeff.push(secret.into_scalar());
        let mut i: usize = 1;
        while i < n
            invariant
                1 <= i <= n,
                n == bipoly.coeff.len(),
                coeff.len() == i,
                coeff[0]@ == secret.scalar(),
            decreases n - i,
        {
            coeff.push(bipoly.coeff[i]);
            i += 1;
        }
        BivarPoly { degree, coeff }
    }

    /// Returns the polynomial's degree; which is the same in both variables.
    pub fn degree(&self) -> (r: usize)
        ensures
            r == self.spec_degree(),
    {
        self.degree
    }

    /// Returns the coefficient of `x^i y^j`, which is zero beyond the polynomial's degree.
    pub fn coefficient(&self, i: usize, j: usize) -> (r: Fr)
        ensures
            r@ == if i <= self.spec_degree() && j <= self.spec_degree() {
                bi_coeff(self@, i as int, j as int)
            } else {
                0
            },
    {
        proof {
            use_type_invariant(self);
        }
        if i <= self.degree && j <= self.degree {
            self.coeff[packed_index(i, j, self.degree)]
        } else {
            Fr::zero()
        }
    }

    /// Returns the polynomial's value at the point `(x, y)`.
    pub fn evaluate<T: IntoScalar>(&self, x: T, y: T) -> (r: Fr)
        ensures
            r@ == bi_eval(self@, self.spec_degree(), x.scalar(), y.scalar()),
    {
        proof {
            use_type_invariant(self);
        }
        let d = self.degree;
        let x_pow = self.powers(x);
        let y_pow = self.powers(y);
        let ghost c = self@;
        let ghost xs = x.scalar();
        let ghost ys = y.scalar();
        let mut result = Fr::zero();
        proof {
            lemma_bi_sum_step(c, d as int, xs, ys, 0);
            lemma_small_mod(0, modulus() as nat);
        }
        let mut i: usize = 0;
        while i <= d
            invariant
                i <= d + 1,
                d == self.degree,
                degree_fits(d as int),
                c == self@,
                self.coeff.len() >= packed_len(d as int),
                x_pow.len() == d + 1,
                y_pow.len() == d + 1,
                forall|k: int| 0 <= k <= d ==> x_pow[k]@ == power_mod(xs, k as nat),
                forall|k: int| 0 <= k <= d ==> y_pow[k]@ == power_mod(ys, k as nat),
                result@ == bi_sum(c, d as int, xs, ys, i as int) % modulus(),
            decreases d + 1 - i,
        {
            let mut j: usize = 0;
            proof {
                lemma_row_sum_step(c, ys, i as int, 0);
                assert(pow(xs, i as nat) * 0 == 0);
            }
            while j <= d
                invariant
                    i <= d,
                    j <= d + 1,
                    d == self.degree,
                    degree_fits(d as int),
                    c == self@,
                    self.coeff.len() >= packed_len(d as int),
                    x_pow.len() == d + 1,
                    y_pow.len() == d + 1,
                    forall|k: int| 0 <= k <= d ==> x_pow[k]@ == power_mod(xs, k as nat),
                    forall|k: int| 0 <= k <= d ==> y_pow[k]@ == power_mod(ys, k as nat),
                    result@ == (bi_sum(c, d as int, xs, ys, i as int) + pow(xs, i as nat)
                        * row_sum(c, ys, i as int, j as int)) % modulus(),
                decreases d + 1 - j,
            {
                let index = packed_index(i, j, d);
                let summand = self.coeff[index].times(&x_pow[i]).times(&y_pow[j]);
                proof {
                    let total = bi_sum(c, d as int, xs, ys, i as int) + pow(xs, i as nat)
                        * row_sum(c, ys, i as int, j as int);
                    lemma_bi_accumulate(
                        total,
                        bi_coeff(c, i as int, j as int),
                        pow(xs, i as nat),
                        pow(ys, j as nat),
                    );
                    lemma_row_sum_step(c, ys, i as int, j as int);
                    let px = pow(xs, i as nat);
                    let rs = row_sum(c, ys, i as int, j as int);
                    let t = bi_coeff(c, i as int, j as int) * pow(ys, j as nat);
                    assert(px * (rs + t) == px * rs + px * t) by (nonlinear_arith);
                }
                result = result.plus(&summand);
                j += 1;
            }
            proof {
                lemma_bi_sum_step(c, d as int, xs, ys, i as int);
            }
            i += 1;
        }
        result
    }

    /// Returns the `x`-th row, as a univariate polynomial.
    pub fn row<T: IntoScalar>(&self, x: T) -> (r: Poly)
        ensures
            r@ == bi_row(self@, self.spec_degree(), x.scalar()),
    {
        proof {
            use_type_invariant(self);
        }
        let d = self.degree;
        let x_pow = self.powers(x);
        let ghost c = self@;
        let ghost xs = x.scalar();
        let mut coeff: Vec<Fr> = Vec::with_capacity(d + 1);
        let mut i: usize = 0;
        while i <= d
            invariant
                i <= d + 1,
                d == self.degree,
                degree_fits(d as int),
                c == self@,
                self.coeff.len() >= packed_len(d as int),
                x_pow.len() == d + 1,
                forall|k: int| 0 <= k <= d ==> x_pow[k]@ == power_mod(xs, k as nat),
                coeff.len() == i,
                forall|k: int|
                    0 <= k < i ==> coeff[k]@ == row_sum(c, xs, k, d + 1) % modulus(),
            decreases d + 1 - i,
        {
            let mut result = Fr::zero();
            let mut j: usize = 0;
            proof {
                lemma_row_sum_step(c, xs, i as int, 0);
                lemma_small_mod(0, modulus() as nat);
            }
            while j <= d
                invariant
                    i <= d,
                    j <= d + 1,
                    d == self.degree,
                    degree_fits(d as int),
                    c == self@,
                    self.coeff.len() >= packed_len(d as int),
                    x_pow.len() == d + 1,
                    forall|k: int| 0 <= k <= d ==> x_pow[k]@ == power_mod(xs, k as nat),
                    result@ == row_sum(c, xs, i as int, j as int) % modulus(),
                decreases d + 1 - j,
            {
                let index = packed_index(i, j, d);
                let summand = self.coeff[index].times(&x_pow[j]);
                proof {
                    lemma_row_accumulate(
                        row_sum(c, xs, i as int, j as int),
                        bi_coeff(c, i as int, j as int),
                        pow(xs, j as nat),
                    );
                    lemma_row_sum_step(c, xs, i as int, j as int);
                }
                result = result.plus(&summand);
                j += 1;
            }
            coeff.push(result);
            i += 1;
        }
        assert(values(coeff@) =~= Seq::new(
            (d + 1) as nat,
            |i: int| row_sum(c, xs, i, d + 1) % modulus(),
        ));
        Poly::from(coeff)
    }

    /// Returns the corresponding commitment. That information can be shared publicly.
    pub fn commitment(&self) -> (r: BivarCommitment)
        ensures
            r.spec_degree() == self.spec_degree(),
            r@ == self@,
            r@ == bivar_commitment_logs(self@),
    {
        proof {
            use_type_invariant(self);
        }
        let n = self.coeff.len();
        let generator = G1::generator();
        let mut points: Vec<G1> = Vec::with_capacity(n);
        let mut i: usize = 0;
        while i < n
            invariant
                i <= n,
                n == self.coeff.len(),
                generator@ == 1,
                points.len() == i,
                forall|k: int| 0 <= k < i ==> points[k]@ == self.coeff[k]@,
                forall|k: int| 0 <= k < i ==> 0 <= (#[trigger] self.coeff[k])@ < modulus(),
            decreases n - i,
        {
            let c = self.coeff[i];
            proof {
                use_type_invariant(&c);
                lemma_fmul_laws(1, c@, 0);
                lemma_reduced(c@);
            }
            points.push(generator.times(&c));
            i += 1;
        }
        assert(g1_logs(points@) =~= values(self.coeff@));
        proof {
            assert forall|k: int| 0 <= k < self@.len() implies bivar_commitment_logs(self@)[k]
                == self@[k] by {
                lemma_reduced(self@[k]);
            }
            assert(bivar_commitment_logs(self@) =~= self@);
        }
        BivarCommitment::from_points(self.degree, points)
    }

    /// Returns the `0`-th to `degree`-th power of `x`.
    fn powers<T: IntoScalar>(&self, x: T) -> (r: Vec<Fr>)
        ensures
            r.len() == self.spec_degree() + 1,
            forall|i: int|
                0 <= i <= self.spec_degree() ==> r[i]@ == power_mod(x.scalar(), i as nat),
    {
        proof {
            use_type_invariant(self);
        }
        powers(x, self.degree)
    }

    /// Overwrites every coefficient and the degree with zero.
    pub fn zeroize(&mut self)
        ensures
            final(self).spec_degree() == 0,
            final(self)@ == seq![0int],
        opens_invariants none
        no_unwind
    {
        proof {
            use_type_invariant(&*self);
        }
        wipe_scalars(&mut self.coeff);
        self.degree = 0;
        assert(self@ =~= seq![0int]);
    }

    /// Generates a non-redacted debug string. This method differs from the `Debug`
    /// implementation in that it *does* leak the the struct's internal state.
    #[verifier::external_body]
    pub fn revealed(&self) -> String {
        format!("BivarPoly {{ degree: {}, coeff: {:?} }}", self.degree, self.coeff)
    }
}

impl Clone for BivarPoly {
    fn clone(&self) -> (r: BivarPoly)
        ensures
            r.spec_degree() == self.spec_degree(),
            r@ == self@,
    {
        proof {
            use_type_invariant(self);
        }
        let n = self.coeff.len();
        let mut coeff: Vec<Fr> = Vec::with_capacity(n);
        let mut i: usize = 0;
        while i < n
            invariant
                i <= n,
                n == self.coeff.len(),
                coeff.len() == i,
                forall|k: int| 0 <= k < i ==> coeff[k] == self.coeff[k],
            decreases n - i,
        {
            coeff.push(self.coeff[i]);
            i += 1;
        }
        assert(values(coeff@) =~= values(self.coeff@));
        BivarPoly { degree: self.degree, coeff }
    }
}

impl Drop for BivarPoly {
    fn drop(&mut self)
        opens_invariants none
        no_unwind
    {
        self.zeroize();
    }
}

} // verus!
