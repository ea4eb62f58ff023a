//! Univariate polynomials over the scalar field.
use crate::algebra::{
    coeff_at, commitment_logs, conv, conv_sum, distinct, horner, is_stripped, law_eval_add,
    law_eval_mul, law_eval_scale, lemma_commitment_logs, lemma_eval_linear, lemma_horner_single,
    lemma_horner_step, lemma_horner_strip, lemma_newton_step, lemma_strip_fixed,
    lemma_strip_is_take, lemma_strip_props, lemma_vanishing_root, monomial_spec, poly_add,
    poly_eval, poly_mul, poly_neg, poly_scale, poly_sub, residues, row_part, scaled, strip,
    vanishing, zip_add, zip_sub,
};
use crate::commitment::Commitment;
use crate::curve::{g1_logs, G1};
use crate::error::Error;
use crate::field::{
    fneg, is_inverse, lemma_fmul_laws, lemma_fsub_zero, lemma_reduced, modulus, values,
    wipe_scalars, Fr,
};
use crate::into_scalar::IntoScalar;
use crate::lagrange::{differences_invertible, invertible};
use crate::reconstruction::lemma_vanishing_invertible;
use vstd::arithmetic::div_mod::{lemma_add_mod_noop, lemma_mod_bound, lemma_small_mod};
use vstd::prelude::*;

verus! {

/// A univariate polynomial in the prime field. Its coefficients are overwritten with zero
/// when it is dropped.
#[derive(Debug)]
pub struct Poly {
    /// The coefficients of the polynomial, lowest degree first.
    coeff: Vec<Fr>,
}

impl View for Poly {
    type V = Seq<int>;

    /// The coefficients as numbers, lowest degree first and without trailing zeros.
    closed spec fn view(&self) -> Seq<int> {
        strip(values(self.coeff@))
    }
}

/// The number of coefficients that are left when the trailing zeros are taken away.
fn stripped_len(coeff: &Vec<Fr>) -> (len: usize)
    ensures
        len <= coeff.len(),
        strip(values(coeff@)) == values(coeff@).take(len as int),
{
    let mut len = coeff.len();
    while len > 0 && coeff[len - 1].is_zero()
        invariant
            len <= coeff.len(),
            forall|i: int| len <= i < coeff.len() ==> coeff[i]@ == 0,
        decreases len,
    {
        len -= 1;
    }
    proof {
        lemma_strip_is_take(values(coeff@), len as int);
    }
    len
}

/// Removes all trailing zero coefficients.
fn remove_zeros(coeff: &mut Vec<Fr>)
    ensures
        values(final(coeff)@) == strip(values(old(coeff)@)),
{
    let len = stripped_len(coeff);
    coeff.truncate(len);
    assert(values(coeff@) =~= values(old(coeff)@).take(len as int));
}

/// The sum of two polynomials given by their coefficients.
fn add_coeffs(a: &Vec<Fr>, b: &Vec<Fr>) -> (r: Poly)
    ensures
        r@ == poly_add(strip(values(a@)), strip(values(b@))),
{
    let la = stripped_len(a);
    let lb = stripped_len(b);
    let n = if la >= lb {
        la
    } else {
        lb
    };
    let ghost p = strip(values(a@));
    let ghost q = strip(values(b@));
    let ghost sum = residues(zip_add(p, q));
    let mut coeff: Vec<Fr> = Vec::with_capacity(n);
    let mut i: usize = 0;
    while i < n
        invariant
            i <= n,
            la <= a.len(),
            lb <= b.len(),
            p == values(a@).take(la as int),
            q == values(b@).take(lb as int),
            n == sum.len(),
            sum == residues(zip_add(p, q)),
            coeff.len() == i,
            forall|k: int| 0 <= k < i ==> coeff[k]@ == sum[k],
        decreases n - i,
    {
        let x = if i < la {
            a[i]
        } else {
            Fr::zero()
        };
        let y = if i < lb {
            b[i]
        } else {
            Fr::zero()
        };
        coeff.push(x.plus(&y));
        i += 1;
    }
    assert(values(coeff@) =~= sum);
    Poly::from(coeff)
}

/// The difference of two polynomials given by their coefficients.
fn sub_coeffs(a: &Vec<Fr>, b: &Vec<Fr>) -> (r: Poly)
    ensures
        r@ == poly_sub(strip(values(a@)), strip(values(b@))),
{
    let la = stripped_len(a);
    let lb = stripped_len(b);
    let n = if la >= lb {
        la
    } else {
        lb
    };
    let ghost p = strip(values(a@));
    let ghost q = strip(values(b@));
    let ghost difference = residues(zip_sub(p, q));
    let mut coeff: Vec<Fr> = Vec::with_capacity(n);
    let mut i: usize = 0;
    while i < n
        invariant
            i <= n,
            la <= a.len(),
            lb <= b.len(),
            p == values(a@).take(la as int),
            q == values(b@).take(lb as int),
            n == difference.len(),
            difference == residues(zip_sub(p, q)),
            coeff.len() == i,
            forall|k: int| 0 <= k < i ==> coeff[k]@ == difference[k],
        decreases n - i,
    {
        let x = if i < la {
            a[i]
        } else {
            Fr::zero()
        };
        let y = if i < lb {
            b[i]
        } else {
            Fr::zero()
        };
        coeff.push(x.minus(&y));
        i += 1;
    }
    assert(values(coeff@) =~= difference);
    Poly::from(coeff)
}

impl Poly {
    /// Whatever the polynomial, its coefficients do not end in a zero.
    pub proof fn lemma_stripped(self)
        ensures
            is_stripped(self@),
    {
        lemma_strip_props(values(self.coeff@));
    }

    /// Creates a new `Poly` instance from a vector of scalars representing the coefficients of
    /// the polynomial. Trailing zeros do not count.
    pub fn from(coeff: Vec<Fr>) -> (r: Poly)
        ensures
            r@ == strip(values(coeff@)),
    {
        let mut stripped = coeff;
        remove_zeros(&mut stripped);
        proof {
            lemma_strip_props(values(coeff@));
            lemma_strip_fixed(strip(values(coeff@)));
        }
        Poly { coeff: stripped }
    }

    /// Returns the degree; `0` for the zero polynomial.
    pub fn degree(&self) -> (r: usize)
        ensures
            r == if self@.len() == 0 {
                0
            } else {
                self@.len() - 1
            },
    {
        let n = stripped_len(&self.coeff);
        if n == 0 {
            0
        } else {
            n - 1
        }
    }

    /// Returns the polynomial with constant value `0`.
    pub fn zero() -> (r: Poly)
        ensures
            r@ == Seq::<int>::empty(),
    {
        let r = Poly { coeff: Vec::new() };
        assert(values(r.coeff@) =~= Seq::<int>::empty());
        r
    }

    /// Returns `true` if the polynomial is the constant value `0`.
    pub fn is_zero(&self) -> (r: bool)
        ensures
            r == (self@.len() == 0),
    {
        stripped_len(&self.coeff) == 0
    }

    /// Returns the polynomial with constant value `1`.
    pub fn one() -> (r: Poly)
        ensures
            r@ == seq![1int],
    {
        let r = Poly::constant(Fr::one());
        proof {
            lemma_strip_fixed(seq![1int]);
        }
        r
    }

    /// Returns the polynomial with constant value `c`.
    pub fn constant(c: Fr) -> (r: Poly)
        ensures
            r@ == strip(seq![c@]),
    {
        let mut coeff = Vec::new();
        coeff.push(c);
        assert(values(coeff@) =~= seq![c@]);
        Poly::from(coeff)
    }

    /// Returns the identity function, i.e. the polynomial "`x`".
    pub fn identity() -> (r: Poly)
        ensures
            r@ == monomial_spec(1),
    {
        Poly::monomial(1)
    }

    /// Returns the (monic) monomial: `x.pow(degree)`.
    pub fn monomial(degree: usize) -> (r: Poly)
        requires
            degree < usize::MAX,
        ensures
            r@ == monomial_spec(degree as nat),
    {
        let mut coeff: Vec<Fr> = Vec::new();
        let mut i: usize = 0;
        while i < degree
            invariant
                i <= degree,
                coeff.len() == i,
                forall|k: int| 0 <= k < i ==> coeff[k]@ == 0,
            decreases degree - i,
        {
            coeff.push(Fr::zero());
            i += 1;
        }
        coeff.push(Fr::one());
        proof {
            assert(values(coeff@) =~= monomial_spec(degree as nat));
            lemma_strip_fixed(monomial_spec(degree as nat));
        }
        Poly::from(coeff)
    }

    /// Returns a polynomial with `degree + 1` random coefficients; its degree is `degree`
    /// unless the highest of them came out as zero.
    pub fn random(degree: usize) -> (r: Poly)
        requires
            degree < usize::MAX,
        ensures
            r@.len() <= degree + 1,
    {
        let mut coeff: Vec<Fr> = Vec::new();
        let mut i: usize = 0;
        while i <= degree
            invariant
                i <= degree + 1,
                degree < usize::MAX,
                coeff.len() == i,
            decreases degree + 1 - i,
        {
            coeff.push(Fr::random());
            i += 1;
        }
        proof {
            lemma_strip_props(values(coeff@));
        }
        Poly::from(coeff)
    }

    /// Returns the coefficient of degree `i`, which is zero beyond the polynomial's degree.
    pub fn coefficient(&self, i: usize) -> (r: Fr)
        ensures
            r@ == coeff_at(self@, i as int),
    {
        let n = stripped_len(&self.coeff);
        if i < n {
            self.coeff[i]
        } else {
            Fr::zero()
        }
    }

    /// Returns the value at the point `i`.
    pub fn evaluate<T: IntoScalar>(&self, i: T) -> (r: Fr)
        ensures
            r@ == poly_eval(self@, i.scalar()),
    {
        let n = stripped_len(&self.coeff);
        if n == 0 {
            proof {
                lemma_small_mod(0, modulus() as nat);
            }
            return Fr::zero();
        }
        let x = i.into_scalar();
        let mut result = self.coeff[n - 1];
        let mut k = n - 1;
        proof {
            use_type_invariant(&result);
            lemma_horner_single(self@.skip(k as int), x@);
            lemma_small_mod(result@ as nat, modulus() as nat);
        }
        while k > 0
            invariant
                k < n <= self.coeff.len(),
                self@ == values(self.coeff@).take(n as int),
                result@ == poly_eval(self@.skip(k as int), x@),
            decreases k,
        {
            k -= 1;
            proof {
                lemma_horner_step(self@, k as int, x@, result@);
            }
            result = result.times(&x).plus(&self.coeff[k]);
        }
        assert(self@.skip(0) =~= self@);
        result
    }

    /// Returns the sum of the two polynomials.
    pub fn add(&self, rhs: &Poly) -> (r: Poly)
        ensures
            r@ == poly_add(self@, rhs@),
    {
        add_coeffs(&self.coeff, &rhs.coeff)
    }

    /// Adds `rhs` to this polynomial.
    pub fn add_assign(&mut self, rhs: &Poly)
        ensures
            final(self)@ == poly_add(old(self)@, rhs@),
    {
        let sum = self.add(rhs);
        *self = sum;
    }

    /// Returns the difference of the two polynomials.
    pub fn sub(&self, rhs: &Poly) -> (r: Poly)
        ensures
            r@ == poly_sub(self@, rhs@),
    {
        sub_coeffs(&self.coeff, &rhs.coeff)
    }

    /// Subtracts `rhs` from this polynomial.
    pub fn sub_assign(&mut self, rhs: &Poly)
        ensures
            final(self)@ == poly_sub(old(self)@, rhs@),
    {
        let difference = self.sub(rhs);
        *self = difference;
    }

    /// Returns the product of the two polynomials.
    pub fn mul(&self, rhs: &Poly) -> (r: Poly)
        requires
            self@.len() + rhs@.len() - 1 <= usize::MAX,
        ensures
            r@ == poly_mul(self@, rhs@),
    {
        if rhs.is_zero() || self.is_zero() {
            return Poly::zero();
        }
        let pl = stripped_len(&self.coeff);
        let ql = stripped_len(&rhs.coeff);
        let n = pl - 1 + ql;
        let mut coeffs: Vec<Fr> = Vec::with_capacity(n);
        let mut k: usize = 0;
        while k < n
            invariant
                k <= n,
                coeffs.len() == k,
                forall|t: int| 0 <= t < k ==> coeffs[t]@ == 0,
            decreases n - k,
        {
            coeffs.push(Fr::zero());
            k += 1;
        }
        let mut tmp = Fr::zero();
        let mut i: usize = 0;
        proof {
            lemma_small_mod(0, modulus() as nat);
        }
        while i < pl
            invariant
                i <= pl <= self.coeff.len(),
                ql <= rhs.coeff.len(),
                self@ == values(self.coeff@).take(pl as int),
                rhs@ == values(rhs.coeff@).take(ql as int),
                n == pl + ql - 1,
                coeffs.len() == n,
                forall|t: int|
                    0 <= t < n ==> coeffs[t]@ == conv_sum(self@, rhs@, t, i as int) % modulus(),
            decreases pl - i,
        {
            let mut j: usize = 0;
            while j < ql
                invariant
                    i < pl <= self.coeff.len(),
                    j <= ql <= rhs.coeff.len(),
                    self@ == values(self.coeff@).take(pl as int),
                    rhs@ == values(rhs.coeff@).take(ql as int),
                    n == pl + ql - 1,
                    coeffs.len() == n,
                    forall|t: int|
                        0 <= t < n ==> coeffs[t]@ == (conv_sum(self@, rhs@, t, i as int)
                            + row_part(self@, rhs@, i as int, j as int, t)) % modulus(),
                decreases ql - j,
            {
                tmp = self.coeff[i].times(&rhs.coeff[j]);
                let cur = coeffs[i + j];
                proof {
                    lemma_add_mod_noop(
                        conv_sum(self@, rhs@, i + j, i as int),
                        self@[i as int] * rhs@[j as int],
                        modulus(),
                    );
                }
                coeffs[i + j] = cur.plus(&tmp);
                j += 1;
            }
            proof {
                assert forall|t: int| 0 <= t < n implies coeffs[t]@ == conv_sum(
                    self@,
                    rhs@,
                    t,
                    i + 1,
                ) % modulus() by {
                    assert(self@[i as int] * 0 == 0);
                }
            }
            i += 1;
        }
        tmp.clear();
        assert(values(coeffs@) =~= residues(conv(self@, rhs@)));
        Poly::from(coeffs)
    }

    /// Multiplies this polynomial by `rhs`.
    pub fn mul_assign(&mut self, rhs: &Poly)
        requires
            old(self)@.len() + rhs@.len() - 1 <= usize::MAX,
        ensures
            final(self)@ == poly_mul(old(self)@, rhs@),
    {
        let product = self.mul(rhs);
        *self = product;
    }

    /// Returns the polynomial multiplied by the scalar `c`.
    pub fn scale<T: IntoScalar>(&self, c: T) -> (r: Poly)
        ensures
            r@ == poly_scale(self@, c.scalar()),
    {
        let factor = c.into_scalar();
        let n = stripped_len(&self.coeff);
        let mut coeff: Vec<Fr> = Vec::with_capacity(n);
        let mut i: usize = 0;
        while i < n
            invariant
                i <= n <= self.coeff.len(),
                self@ == values(self.coeff@).take(n as int),
                coeff.len() == i,
                forall|k: int|
                    0 <= k < i ==> coeff[k]@ == residues(scaled(self@, factor@))[k],
            decreases n - i,
        {
            coeff.push(self.coeff[i].times(&factor));
            i += 1;
        }
        assert(values(coeff@) =~= residues(scaled(self@, factor@)));
        Poly::from(coeff)
    }

    /// Multiplies this polynomial by the scalar `c`. Where `c` is zero the coefficients are
    /// overwritten before they are released.
    pub fn scale_assign<T: IntoScalar>(&mut self, c: T)
        ensures
            final(self)@ == poly_scale(old(self)@, c.scalar()),
    {
        let product = self.scale(c);
        self.zeroize();
        *self = product;
    }

    /// Returns the negated polynomial.
    pub fn neg(&self) -> (r: Poly)
        ensures
            r@ == poly_neg(self@),
    {
        let n = stripped_len(&self.coeff);
        let mut coeff: Vec<Fr> = Vec::with_capacity(n);
        let mut i: usize = 0;
        while i < n
            invariant
                i <= n <= self.coeff.len(),
                self@ == values(self.coeff@).take(n as int),
                coeff.len() == i,
                forall|k: int| 0 <= k < i ==> coeff[k]@ == residues(scaled(self@, -1))[k],
            decreases n - i,
        {
            coeff.push(self.coeff[i].negate());
            i += 1;
        }
        assert(values(coeff@) =~= residues(scaled(self@, -1)));
        Poly::from(coeff)
    }

    /// Returns the polynomial with the scalar `c` added to its constant coefficient.
    pub fn add_scalar<T: IntoScalar>(&self, c: T) -> (r: Poly)
        ensures
            r@ == poly_add(self@, strip(seq![c.scalar()])),
    {
        let mut single: Vec<Fr> = Vec::new();
        single.push(c.into_scalar());
        assert(values(single@) =~= seq![c.scalar()]);
        add_coeffs(&self.coeff, &single)
    }

    /// Returns the polynomial with the scalar `c` subtracted from its constant coefficient.
    pub fn sub_scalar<T: IntoScalar>(&self, c: T) -> (r: Poly)
        ensures
            r@ == poly_sub(self@, strip(seq![c.scalar()])),
    {
        let mut single: Vec<Fr> = Vec::new();
        single.push(c.into_scalar());
        assert(values(single@) =~= seq![c.scalar()]);
        sub_coeffs(&self.coeff, &single)
    }

    /// Overwrites every coefficient with zero, which leaves the zero polynomial.
    pub fn zeroize(&mut self)
        ensures
            final(self)@ == Seq::<int>::empty(),
        opens_invariants none
        no_unwind
    {
        wipe_scalars(&mut self.coeff);
        proof {
            lemma_strip_is_take(values(self.coeff@), 0);
            assert(values(self.coeff@).take(0) =~= Seq::<int>::empty());
        }
    }
}

impl Drop for Poly {
    fn drop(&mut self)
        opens_invariants none
        no_unwind
    {
        self.zeroize();
    }
}

/// The `x` of each sample.
pub open spec fn sample_xs(samples: Seq<(Fr, Fr)>) -> Seq<int> {
    Seq::new(samples.len(), |i: int| samples[i].0@)
}

/// The `y` of each sample.
pub open spec fn sample_ys(samples: Seq<(Fr, Fr)>) -> Seq<int> {
    Seq::new(samples.len(), |i: int| samples[i].1@)
}

/// The polynomial has the value `ys[i]` at `xs[i]`, for each of the first `n` samples.
pub open spec fn fits(p: Seq<int>, xs: Seq<int>, ys: Seq<int>, n: int) -> bool {
    forall|i: int| 0 <= i < n ==> poly_eval(p, #[trigger] xs[i]) == ys[i]
}

/// The product of the differences between `x` and the first `n` of the samples' `x`, and
/// with it whether `x` is one of them.
fn denominator(samples: &Vec<(Fr, Fr)>, n: usize, x: &Fr) -> (r: Fr)
    requires
        n <= samples.len(),
    ensures
        r@ == vanishing(sample_xs(samples@), n as int, x@) % modulus(),
        (r@ == 0) == exists|i: int| 0 <= i < n && sample_xs(samples@)[i] == x@,
{
    let ghost xs = sample_xs(samples@);
    let mut product = Fr::one();
    let mut i: usize = 0;
    proof {
        lemma_reduced(1);
    }
    while i < n
        invariant
            i <= n <= samples.len(),
            xs == sample_xs(samples@),
            product@ == vanishing(xs, i as int, x@) % modulus(),
            (product@ == 0) == exists|k: int| 0 <= k < i && xs[k] == x@,
        decreases n - i,
    {
        let other = samples[i].0;
        let difference = x.minus(&other);
        let ghost before = product@;
        product = product.times(&difference);
        proof {
            use_type_invariant(x);
            use_type_invariant(&other);
            lemma_fmul_laws(vanishing(xs, i as int, x@), x@ - xs[i as int], 0);
            lemma_fmul_laws(before, x@ - xs[i as int], 0);
            if product@ == 0 {
                if before != 0 {
                    lemma_fsub_zero(x@, other@);
                    assert(xs[i as int] == x@);
                }
            } else {
                if xs[i as int] == x@ {
                    lemma_reduced(x@);
                    lemma_reduced(before);
                    assert(false);
                }
                if before == 0 {
                    assert(0 * difference@ == 0);
                    lemma_reduced(0);
                    assert(false);
                }
            }
        }
        i += 1;
    }
    product
}

impl Poly {
    /// Returns the unique polynomial `f` of degree at most `samples.len() - 1` with the given
    /// values `(x, f(x))`, or fails where two samples share their `x`.
    pub fn interpolate<T: IntoScalar, U: IntoScalar>(samples: &[(T, U)]) -> (r: Result<
        Poly,
        Error,
    >)
        ensures
            r.is_ok() == distinct(Seq::new(samples@.len(), |i: int| samples@[i].0.scalar())),
            r.is_ok() ==> differences_invertible(
                Seq::new(samples@.len(), |i: int| samples@[i].0.scalar()),
                samples@.len() as int,
            ),
            r matches Ok(p) ==> p@.len() <= samples@.len() && forall|i: int|
                0 <= i < samples@.len() ==> poly_eval(p@, #[trigger] samples@[i].0.scalar())
                    == samples@[i].1.scalar(),
            r matches Err(e) ==> e == Error::InterpolationInvalid,
    {
        let n = samples.len();
        let mut converted: Vec<(Fr, Fr)> = Vec::with_capacity(n);
        let mut i: usize = 0;
        while i < n
            invariant
                i <= n,
                n == samples@.len(),
                converted.len() == i,
                forall|k: int|
                    0 <= k < i ==> converted[k].0@ == samples@[k].0.scalar() && converted[k].1@
                        == samples@[k].1.scalar(),
            decreases n - i,
        {
            let x = samples[i].0.into_scalar();
            let y = samples[i].1.into_scalar();
            converted.push((x, y));
            i += 1;
        }
        assert(sample_xs(converted@) =~= Seq::new(
            samples@.len(),
            |i: int| samples@[i].0.scalar(),
        ));
        let r = Poly::compute_interpolation(&converted);
        proof {
            if let Ok(p) = &r {
                assert forall|i: int| 0 <= i < samples@.len() implies poly_eval(
                    p@,
                    #[trigger] samples@[i].0.scalar(),
                ) == samples@[i].1.scalar() by {
                    assert(sample_xs(converted@)[i] == samples@[i].0.scalar());
                    assert(sample_ys(converted@)[i] == samples@[i].1.scalar());
                }
            }
        }
        r
    }

    /// Newton's construction on samples that are scalars already: the polynomial grows by
    /// one sample at a time, each time by the multiple of the product of the `x - x_i` so far
    /// that corrects its value at the new `x`.
    pub fn compute_interpolation(samples: &Vec<(Fr, Fr)>) -> (r: Result<Poly, Error>)
        ensures
            r.is_ok() == distinct(sample_xs(samples@)),
            r.is_ok() ==> differences_invertible(sample_xs(samples@), samples.len() as int),
            r matches Ok(p) ==> p@.len() <= samples.len() && fits(
                p@,
                sample_xs(samples@),
                sample_ys(samples@),
                samples.len() as int,
            ),
            r matches Err(e) ==> e == Error::InterpolationInvalid,
    {
        let n = samples.len();
        if n == 0 {
            return Ok(Poly::zero());
        }
        let ghost xs = sample_xs(samples@);
        let ghost ys = sample_ys(samples@);
        // Interpolates on the first `j` samples.
        let mut poly = Poly::constant(samples[0].1);
        // Is zero on the first `j` samples.
        let mut base = Poly::linear(&samples[0].0);
        let first = samples[0].1;
        proof {
            use_type_invariant(&first);
            lemma_strip_props(seq![first@]);
            lemma_horner_strip(seq![first@], xs[0]);
            lemma_horner_single(seq![first@], xs[0]);
            lemma_reduced(first@);
            assert forall|x: int| #[trigger] poly_eval(base@, x) == vanishing(xs, 1, x)
                % modulus() by {
                lemma_eval_linear(base@, xs[0], x);
                assert(vanishing(xs, 0, x) == 1);
                assert(1 * (x - xs[0]) == x - xs[0]);
            }
        }
        let mut j: usize = 1;
        while j < n
            invariant
                1 <= j <= n,
                n == samples.len(),
                xs == sample_xs(samples@),
                ys == sample_ys(samples@),
                poly@.len() <= j,
                fits(poly@, xs, ys, j as int),
                distinct(xs.take(j as int)),
                differences_invertible(xs, j as int),
                j < n ==> base@.len() <= j + 1,
                j < n ==> forall|x: int| #[trigger]
                    poly_eval(base@, x) == vanishing(xs, j as int, x) % modulus(),
            decreases n - j,
        {
            let x = samples[j].0;
            let y = samples[j].1;
            let base_val = denominator(samples, j, &x);
            let inverse = match base_val.invert() {
                Some(inverse) => inverse,
                None => {
                    proof {
                        let i = choose|i: int| 0 <= i < j && xs[i] == x@;
                        assert(xs[i] == xs[j as int]);
                    }
                    return Err(Error::InterpolationInvalid);
                },
            };
            // Scale `base` so that its value at `x` is the difference between `y` and `poly`'s
            // current value at `x`: adding it to `poly` will then make it correct for `x`.
            let current = poly.evaluate(x);
            let delta = y.minus(&current).times(&inverse);
            let correction = base.scale(delta);
            let next = poly.add(&correction);
            proof {
                use_type_invariant(&y);
                lemma_strip_props(residues(scaled(base@, delta@)));
                lemma_strip_props(residues(zip_add(poly@, correction@)));
                lemma_fmul_laws(vanishing(xs, j as int, x@), inverse@, 0);
                assert(is_inverse(vanishing(xs, j as int, x@), inverse@));
                assert forall|a: int, b: int|
                    0 <= a < j + 1 && 0 <= b < j + 1 && a != b implies invertible(
                    #[trigger] xs[a] - #[trigger] xs[b],
                ) by {
                    if a == j {
                        lemma_vanishing_invertible(xs, j as int, x@, b);
                    } else if b == j {
                        lemma_vanishing_invertible(xs, j as int, x@, a);
                    }
                }
                let longer = xs.take(j + 1);
                let shorter = xs.take(j as int);
                assert(distinct(longer)) by {
                    assert forall|a: int, b: int| 0 <= a < b < longer.len() implies longer[a]
                        != longer[b] by {
                        if b < j {
                            assert(shorter[a] != shorter[b]);
                        }
                    }
                }
                assert forall|i: int| 0 <= i < j + 1 implies poly_eval(next@, #[trigger] xs[i])
                    == ys[i] by {
                    law_eval_add(poly@, correction@, xs[i]);
                    law_eval_scale(base@, delta@, xs[i]);
                    if i < j {
                        lemma_vanishing_root(xs, j as int, i);
                        assert(poly_eval(base@, xs[i]) == 0);
                        assert(0 * delta@ == 0);
                        lemma_mod_bound(horner(poly@, xs[i]), modulus());
                        lemma_reduced(ys[i]);
                    } else {
                        lemma_fmul_laws(base_val@, delta@, 0);
                        lemma_newton_step(current@, base_val@, inverse@, y@);
                    }
                }
            }
            poly = next;
            if j + 1 < n {
                // Finally, multiply `base` by X - x, so that it is zero at `x`, too, now.
                let factor = Poly::linear(&x);
                let next_base = base.mul(&factor);
                proof {
                    lemma_strip_props(residues(conv(base@, factor@)));
                    assert forall|t: int| #[trigger]
                        poly_eval(next_base@, t) == vanishing(xs, j + 1, t) % modulus() by {
                        law_eval_mul(base@, factor@, t);
                        lemma_eval_linear(factor@, x@, t);
                        lemma_fmul_laws(vanishing(xs, j as int, t), t - x@, 0);
                        lemma_fmul_laws(poly_eval(base@, t), t - x@, 0);
                    }
                }
                base = next_base;
            }
            j += 1;
        }
        assert(xs.take(n as int) =~= xs);
        Ok(poly)
    }

    /// Returns the corresponding commitment: each coefficient times the generator of `G1`.
    pub fn commitment(&self) -> (r: Commitment)
        ensures
            r@ == self@,
            r@ == commitment_logs(self@),
    {
        let n = stripped_len(&self.coeff);
        let generator = G1::generator();
        let mut points: Vec<G1> = Vec::with_capacity(n);
        let mut i: usize = 0;
        while i < n
            invariant
                i <= n <= self.coeff.len(),
                generator@ == 1,
                self@ == values(self.coeff@).take(n as int),
                points.len() == i,
                forall|k: int| 0 <= k < i ==> points[k]@ == self@[k],
                forall|k: int| 0 <= k < i ==> 0 <= #[trigger] self@[k] < modulus(),
            decreases n - i,
        {
            let c = self.coeff[i];
            proof {
                use_type_invariant(&c);
                lemma_fmul_laws(1, c@, 0);
                lemma_reduced(c@);
            }
            points.push(generator.times(&c));
            i += 1;
        }
        proof {
            assert(g1_logs(points@) =~= self@);
            lemma_strip_props(values(self.coeff@));
            lemma_strip_fixed(self@);
            lemma_commitment_logs(self@);
        }
        Commitment::from(points)
    }

    /// The polynomial `X - a`.
    fn linear(a: &Fr) -> (r: Poly)
        ensures
            r@ == seq![fneg(a@), 1int],
    {
        let mut coeff: Vec<Fr> = Vec::new();
        coeff.push(a.negate());
        coeff.push(Fr::one());
        assert(values(coeff@) =~= seq![fneg(a@), 1int]);
        proof {
            lemma_strip_fixed(seq![fneg(a@), 1int]);
        }
        Poly::from(coeff)
    }
}

impl Clone for Poly {
    fn clone(&self) -> (r: Poly)
        ensures
            r@ == self@,
    {
        let n = self.coeff.len();
        let mut coeff: Vec<Fr> = Vec::with_capacity(n);
        let mut i: usize = 0;
        while i < n
            invariant
                i <= n,
                n == self.coeff.len(),
                coeff.len() == i,
                forall|k: int| 0 <= k < i ==> coeff[k] == self.coeff[k],
            decreases n - i,
        {
            coeff.push(self.coeff[i]);
            i += 1;
        }
        assert(values(coeff@) =~= values(self.coeff@));
        Poly { coeff }
    }
}

impl PartialEq for Poly {
    fn eq(&self, other: &Poly) -> (r: bool) {
        let n = stripped_len(&self.coeff);
        if n != stripped_len(&other.coeff) {
            assert(self@.len() != other@.len());
            return false;
        }
        let mut i: usize = 0;
        while i < n
            invariant
                i <= n <= self.coeff.len(),
                n <= other.coeff.len(),
                self@ == values(self.coeff@).take(n as int),
                other@ == values(other.coeff@).take(n as int),
                forall|k: int| 0 <= k < i ==> self@[k] == other@[k],
            decreases n - i,
        {
            if !self.coeff[i].equals(&other.coeff[i]) {
                assert(self@[i as int] != other@[i as int]);
                return false;
            }
            i += 1;
        }
        assert(self@ =~= other@);
        true
    }
}

impl Eq for Poly {

}

impl vstd::std_specs::cmp::PartialEqSpecImpl for Poly {
    open spec fn obeys_eq_spec() -> bool {
        true
    }

    open spec fn eq_spec(&self, other: &Poly) -> bool {
        self@ == other@
    }
}

} // verus!
