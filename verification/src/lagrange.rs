//! Lagrange interpolation at zero: the weights by which `t + 1` values of a polynomial of
//! degree `t` combine to its value at zero.
use crate::algebra::distinct;
use crate::error::Error;
use crate::field::{
    finv, fmul, is_inverse, lemma_fmul_laws, lemma_fsub_zero, lemma_reduced, modulus, values, Fr,
};
use vstd::prelude::*;

verus! {

/// The product of `xs[lo]`, ..., `xs[hi - 1]`.
pub open spec fn product(xs: Seq<int>, lo: int, hi: int) -> int
    decreases hi - lo,
{
    if hi <= lo {
        1
    } else {
        product(xs, lo, hi - 1) * xs[hi - 1]
    }
}

/// The product of all `xs` but the `k`-th.
pub open spec fn numerator(xs: Seq<int>, k: int) -> int {
    product(xs, 0, k) * product(xs, k + 1, xs.len() as int)
}

/// The product of `xs[j] - xs[k]` over the `j < n` other than `k`.
pub open spec fn differences(xs: Seq<int>, k: int, n: int) -> int
    decreases n,
{
    if n <= 0 {
        1
    } else if n - 1 == k {
        differences(xs, k, n - 1)
    } else {
        differences(xs, k, n - 1) * (xs[n - 1] - xs[k])
    }
}

/// The value at zero of the Lagrange polynomial that is one at `xs[k]` and zero at the
/// others: the product of `xs[j] / (xs[j] - xs[k])` over `j` other than `k`.
pub open spec fn lagrange_at_zero(xs: Seq<int>, k: int) -> int {
    fmul(numerator(xs, k), finv(differences(xs, k, xs.len() as int) % modulus()))
}

/// The sum of `lagrange_at_zero(xs, k) * vals[k]` over `k < n`.
pub open spec fn combination(xs: Seq<int>, vals: Seq<int>, n: int) -> int
    decreases n,
{
    if n <= 0 {
        0
    } else {
        combination(xs, vals, n - 1) + lagrange_at_zero(xs, n - 1) * vals[n - 1]
    }
}

/// `d` has a multiplicative inverse modulo `q`.
pub open spec fn invertible(d: int) -> bool {
    exists|u: int| is_inverse(d, u)
}

/// Each of the Lagrange weights for the points exists: the product of the differences
/// between a point and the others has an inverse.
pub open spec fn weights_exist(xs: Seq<int>) -> bool {
    forall|k: int|
        0 <= k < xs.len() ==> invertible(#[trigger] differences(xs, k, xs.len() as int))
}

/// The difference of any two of the first `n` points has an inverse.
pub open spec fn differences_invertible(xs: Seq<int>, n: int) -> bool {
    forall|i: int, j: int|
        0 <= i < n && 0 <= j < n && i != j ==> invertible(#[trigger] xs[i] - #[trigger] xs[j])
}

/// A product with its first factor split off.
pub proof fn lemma_product_first(xs: Seq<int>, lo: int, hi: int)
    requires
        lo < hi,
    ensures
        product(xs, lo, hi) == xs[lo] * product(xs, lo + 1, hi),
    decreases hi - lo,
{
    if hi - 1 == lo {
        assert(product(xs, lo, lo) == 1);
        assert(product(xs, lo + 1, hi) == 1);
        assert(1 * xs[lo] == xs[lo] * 1);
    } else {
        lemma_product_first(xs, lo, hi - 1);
        let a = xs[lo];
        let b = product(xs, lo + 1, hi - 1);
        let c = xs[hi - 1];
        assert((a * b) * c == a * (b * c)) by (nonlinear_arith);
    }
}

/// The weights for the given points, one for each: `lagrange_at_zero`. Fails where two of
/// the points are the same.
pub fn coefficients_at_zero(xs: &Vec<Fr>) -> (r: Result<Vec<Fr>, Error>)
    requires
        xs.len() > 0,
    ensures
        r.is_ok() == distinct(values(xs@)),
        r.is_ok() ==> weights_exist(values(xs@)),
        r matches Ok(l) ==> l.len() == xs.len() && forall|k: int|
            0 <= k < xs.len() ==> l[k]@ == lagrange_at_zero(values(xs@), k),
        r matches Err(e) ==> e == Error::DuplicateShare,
{
    let n = xs.len();
    let ghost v = values(xs@);
    // Compute the products `x_prod[i]` of all but the `i`-th entry.
    let mut x_prod: Vec<Fr> = Vec::with_capacity(n);
    let mut tmp = Fr::one();
    x_prod.push(tmp);
    proof {
        lemma_reduced(1);
    }
    let mut i: usize = 0;
    while i + 1 < n
        invariant
            i < n,
            n == xs.len(),
            v == values(xs@),
            x_prod.len() == i + 1,
            tmp@ == product(v, 0, i as int) % modulus(),
            forall|a: int| 0 <= a <= i ==> x_prod[a]@ == product(v, 0, a) % modulus(),
        decreases n - i,
    {
        proof {
            lemma_fmul_laws(product(v, 0, i as int), v[i as int], 0);
        }
        tmp = tmp.times(&xs[i]);
        x_prod.push(tmp);
        i += 1;
    }
    tmp = Fr::one();
    let mut i: usize = n - 1;
    proof {
        assert(product(v, n as int, n as int) == 1);
        lemma_fmul_laws(product(v, 0, n - 1), 1, 0);
        assert(product(v, 0, n - 1) * 1 == product(v, 0, n - 1));
        lemma_fmul_laws(product(v, 0, n - 1) % modulus(), 1, 0);
        vstd::arithmetic::div_mod::lemma_mod_twice(product(v, 0, n - 1), modulus());
    }
    while i > 0
        invariant
            i < n,
            n == xs.len(),
            v == values(xs@),
            x_prod.len() == n,
            tmp@ == product(v, i + 1, n as int) % modulus(),
            forall|a: int| 0 <= a < i ==> x_prod[a]@ == product(v, 0, a) % modulus(),
            forall|a: int| i <= a < n ==> x_prod[a]@ == numerator(v, a) % modulus(),
        decreases i,
    {
        proof {
            lemma_product_first(v, i as int, n as int);
            lemma_fmul_laws(product(v, i + 1, n as int), v[i as int], 0);
            lemma_fmul_laws(v[i as int], product(v, i + 1, n as int), 0);
            lemma_fmul_laws(product(v, 0, i - 1), product(v, i as int, n as int), 0);
            lemma_fmul_laws(product(v, 0, i - 1) % modulus(), product(v, i as int, n as int), 0);
        }
        tmp = tmp.times(&xs[i]);
        let partial = x_prod[i - 1];
        x_prod[i - 1] = partial.times(&tmp);
        i -= 1;
    }
    let mut out: Vec<Fr> = Vec::with_capacity(n);
    let mut k: usize = 0;
    while k < n
        invariant
            k <= n,
            n == xs.len(),
            v == values(xs@),
            x_prod.len() == n,
            out.len() == k,
            forall|a: int| 0 <= a < n ==> x_prod[a]@ == numerator(v, a) % modulus(),
            forall|a: int| 0 <= a < k ==> out[a]@ == lagrange_at_zero(v, a),
            forall|a: int| 0 <= a < k ==> invertible(#[trigger] differences(v, a, n as int)),
            forall|a: int, b: int| 0 <= a < k && 0 <= b < n && a != b ==> v[a] != v[b],
        decreases n - k,
    {
        // Compute the value at 0 of the Lagrange polynomial that is `0` at the other data
        // points but `1` at `x`.
        let x = xs[k];
        let mut denom = Fr::one();
        let mut j: usize = 0;
        while j < n
            invariant
                j <= n,
                k < n,
                n == xs.len(),
                v == values(xs@),
                x@ == v[k as int],
                denom@ == differences(v, k as int, j as int) % modulus(),
                denom@ != 0,
                forall|b: int| 0 <= b < j && b != k ==> v[b] != v[k as int],
            decreases n - j,
        {
            if j != k {
                let other = xs[j];
                if other.equals(&x) {
                    assert(v[j as int] == v[k as int]);
                    return Err(Error::DuplicateShare);
                }
                let diff = other.minus(&x);
                proof {
                    use_type_invariant(&other);
                    use_type_invariant(&x);
                    if diff@ == 0 {
                        lemma_fsub_zero(other@, x@);
                    }
                    lemma_fmul_laws(differences(v, k as int, j as int), v[j as int] - x@, 0);
                    lemma_fmul_laws(denom@, v[j as int] - x@, 0);
                }
                denom = denom.times(&diff);
            }
            j += 1;
        }
        let inverse = match denom.invert() {
            Some(inverse) => inverse,
            None => Fr::zero(),
        };
        proof {
            lemma_fmul_laws(numerator(v, k as int), inverse@, 0);
            lemma_fmul_laws(differences(v, k as int, n as int), inverse@, 0);
            assert(is_inverse(differences(v, k as int, n as int), inverse@));
        }
        out.push(x_prod[k].times(&inverse));
        k += 1;
    }
    proof {
        assert forall|a: int, b: int| 0 <= a < b < v.len() implies v[a] != v[b] by {}
    }
    Ok(out)
}

} // verus!
