//! Finite sums of integers, and the bivariate polynomials that are stated with them.
use crate::algebra::{
    commitment_logs, horner, lemma_commitment_logs, lemma_eval_residues, lemma_horner_strip,
    lemma_strip_props, poly_eval, residues, scaled, strip,
};
use crate::field::{fadd, fmul, lemma_fadd_laws, lemma_fmul_laws, modulus};
use crate::util::{lemma_packed_pos_bound, packed_len, packed_pos};
use vstd::arithmetic::div_mod::lemma_add_mod_noop;
use vstd::arithmetic::power::pow;
use vstd::prelude::*;

verus! {

/// The sum of `f(0)`, ..., `f(n - 1)`.
pub open spec fn sum(f: spec_fn(int) -> int, n: int) -> int
    decreases n,
{
    if n <= 0 {
        0
    } else {
        sum(f, n - 1) + f(n - 1)
    }
}

/// Sums of terms that agree are the same.
pub proof fn lemma_sum_equal(f: spec_fn(int) -> int, g: spec_fn(int) -> int, n: int)
    requires
        forall|i: int| 0 <= i < n ==> #[trigger] f(i) == g(i),
    ensures
        sum(f, n) == sum(g, n),
    decreases n,
{
    if n > 0 {
        lemma_sum_equal(f, g, n - 1);
    }
}

/// Sums of terms that agree modulo `q` agree modulo `q`.
pub proof fn lemma_sum_congruent(f: spec_fn(int) -> int, g: spec_fn(int) -> int, n: int)
    requires
        forall|i: int| 0 <= i < n ==> #[trigger] f(i) % modulus() == g(i) % modulus(),
    ensures
        sum(f, n) % modulus() == sum(g, n) % modulus(),
    decreases n,
{
    if n > 0 {
        lemma_sum_congruent(f, g, n - 1);
        lemma_add_mod_noop(sum(f, n - 1), f(n - 1), modulus());
        lemma_add_mod_noop(sum(g, n - 1), g(n - 1), modulus());
    }
}

/// A factor common to all terms can be taken out of the sum.
pub proof fn lemma_sum_scale(f: spec_fn(int) -> int, c: int, n: int)
    ensures
        sum(|i: int| c * f(i), n) == c * sum(f, n),
    decreases n,
{
    let g = |i: int| c * f(i);
    if n > 0 {
        lemma_sum_scale(f, c, n - 1);
        assert(c * (sum(f, n - 1) + f(n - 1)) == c * sum(f, n - 1) + c * f(n - 1))
            by (nonlinear_arith);
    } else {
        assert(c * 0 == 0);
    }
}

/// The sum of sums of two terms is the sum of the two sums.
pub proof fn lemma_sum_add(f: spec_fn(int) -> int, g: spec_fn(int) -> int, n: int)
    ensures
        sum(|i: int| f(i) + g(i), n) == sum(f, n) + sum(g, n),
    decreases n,
{
    if n > 0 {
        lemma_sum_add(f, g, n - 1);
    }
}

/// A double sum can be taken in either order.
pub proof fn lemma_sum_swap(g: spec_fn(int, int) -> int, n: int, k: int)
    ensures
        sum(|i: int| sum(|j: int| g(i, j), k), n) == sum(|j: int| sum(|i: int| g(i, j), n), k),
    decreases n,
{
    let rows = |i: int| sum(|j: int| g(i, j), k);
    let cols = |j: int| sum(|i: int| g(i, j), n);
    if n <= 0 {
        let zero = |j: int| 0int;
        assert forall|j: int| 0 <= j < k implies #[trigger] cols(j) == zero(j) by {}
        lemma_sum_equal(cols, zero, k);
        lemma_sum_zero(k);
    } else {
        lemma_sum_swap(g, n - 1, k);
        let fewer = |j: int| sum(|i: int| g(i, j), n - 1);
        let last = |j: int| g(n - 1, j);
        let both = |j: int| fewer(j) + last(j);
        assert forall|j: int| 0 <= j < k implies #[trigger] cols(j) == both(j) by {
            let inner = |i: int| g(i, j);
            assert(sum(inner, n) == sum(inner, n - 1) + inner(n - 1));
        }
        lemma_sum_equal(cols, both, k);
        lemma_sum_add(fewer, last, k);
        assert(rows(n - 1) == sum(last, k));
    }
}

/// A sum of zeros is zero.
pub proof fn lemma_sum_zero(n: int)
    ensures
        sum(|j: int| 0int, n) == 0,
    decreases n,
{
    if n > 0 {
        lemma_sum_zero(n - 1);
    }
}

/// A coefficient more at the end adds its multiple of the power of `x` to the value.
pub proof fn lemma_horner_push(p: Seq<int>, c: int, x: int)
    ensures
        horner(p.push(c), x) == horner(p, x) + c * pow(x, p.len()),
    decreases p.len(),
{
    reveal(pow);
    if p.len() == 0 {
        assert(p.push(c).skip(1) =~= Seq::<int>::empty());
        assert(horner(p.push(c).skip(1), x) == 0);
        assert(x * 0 == 0);
        assert(pow(x, 0) == 1);
        assert(c * 1 == c);
    } else {
        let t = p.skip(1);
        lemma_horner_push(t, c, x);
        assert(p.push(c).skip(1) =~= t.push(c));
        let h = horner(t, x);
        let w = pow(x, t.len());
        assert(pow(x, p.len()) == x * w);
        assert(x * (h + c * w) == x * h + c * (x * w)) by (nonlinear_arith);
    }
}

/// The value of a polynomial is the sum of its coefficients times the powers of `x`.
pub proof fn lemma_horner_is_sum(p: Seq<int>, x: int)
    ensures
        horner(p, x) == sum(|i: int| p[i] * pow(x, i as nat), p.len() as int),
    decreases p.len(),
{
    let f = |i: int| p[i] * pow(x, i as nat);
    if p.len() > 0 {
        let d = p.drop_last();
        let g = |i: int| d[i] * pow(x, i as nat);
        lemma_horner_is_sum(d, x);
        lemma_horner_push(d, p.last(), x);
        assert(d.push(p.last()) =~= p);
        assert forall|i: int| 0 <= i < d.len() implies #[trigger] f(i) == g(i) by {}
        lemma_sum_equal(f, g, d.len() as int);
    }
}

/// The coefficient of `x^i y^j` of a symmetric bivariate polynomial in triangular packing.
pub open spec fn bi_coeff(c: Seq<int>, i: int, j: int) -> int {
    c[packed_pos(i, j)]
}

/// The sum of `c(i, j) * x^j` over `j < n`: at `n = degree + 1` the coefficient of degree
/// `i` of the row at `x`.
pub open spec fn row_sum(c: Seq<int>, x: int, i: int, n: int) -> int {
    sum(|j: int| bi_coeff(c, i, j) * pow(x, j as nat), n)
}

/// The row at `x` of the polynomial of degree `d`: the univariate polynomial `f(x, Y)`.
pub open spec fn bi_row(c: Seq<int>, d: int, x: int) -> Seq<int> {
    strip(Seq::new((d + 1) as nat, |i: int| row_sum(c, x, i, d + 1) % modulus()))
}

/// The sum of `x^i * c(i, j) * y^j` over `i < n` and all `j` up to the degree `d`.
pub open spec fn bi_sum(c: Seq<int>, d: int, x: int, y: int, n: int) -> int {
    sum(|i: int| pow(x, i as nat) * row_sum(c, y, i, d + 1), n)
}

/// The value at `(x, y)` of the polynomial of degree `d`, in the field.
pub open spec fn bi_eval(c: Seq<int>, d: int, x: int, y: int) -> int {
    bi_sum(c, d, x, y, d + 1) % modulus()
}

/// The sum over the whole square does not depend on which variable the rows belong to.
pub proof fn lemma_bi_sum_symmetric(c: Seq<int>, d: int, x: int, y: int)
    ensures
        bi_sum(c, d, x, y, d + 1) == bi_sum(c, d, y, x, d + 1),
{
    let n = d + 1;
    let term = |i: int, j: int| pow(x, i as nat) * (bi_coeff(c, i, j) * pow(y, j as nat));
    let left = |i: int| pow(x, i as nat) * row_sum(c, y, i, n);
    let left_wide = |i: int| sum(|j: int| term(i, j), n);
    assert forall|i: int| 0 <= i < n implies #[trigger] left(i) == left_wide(i) by {
        let inner = |j: int| bi_coeff(c, i, j) * pow(y, j as nat);
        lemma_sum_scale(inner, pow(x, i as nat), n);
        let scaled_inner = |j: int| pow(x, i as nat) * inner(j);
        let wide = |j: int| term(i, j);
        assert forall|j: int| 0 <= j < n implies #[trigger] scaled_inner(j) == wide(j) by {}
        lemma_sum_equal(scaled_inner, wide, n);
    }
    lemma_sum_equal(left, left_wide, n);
    lemma_sum_swap(term, n, n);
    let right = |j: int| pow(y, j as nat) * row_sum(c, x, j, n);
    let right_wide = |j: int| sum(|i: int| term(i, j), n);
    assert forall|j: int| 0 <= j < n implies #[trigger] right(j) == right_wide(j) by {
        let inner = |i: int| bi_coeff(c, j, i) * pow(x, i as nat);
        lemma_sum_scale(inner, pow(y, j as nat), n);
        let scaled_inner = |i: int| pow(y, j as nat) * inner(i);
        let wide = |i: int| term(i, j);
        assert forall|i: int| 0 <= i < n implies #[trigger] scaled_inner(i) == wide(i) by {
            assert(packed_pos(i, j) == packed_pos(j, i));
            let a = pow(x, i as nat);
            let b = bi_coeff(c, i, j);
            let e = pow(y, j as nat);
            assert(e * (b * a) == a * (b * e)) by (nonlinear_arith);
        }
        lemma_sum_equal(scaled_inner, wide, n);
    }
    lemma_sum_equal(right, right_wide, n);
}

/// A symmetric bivariate polynomial has the same value at `(x, y)` and at `(y, x)`.
pub proof fn law_bi_eval_symmetric(c: Seq<int>, d: int, x: int, y: int)
    ensures
        bi_eval(c, d, x, y) == bi_eval(c, d, y, x),
{
    lemma_bi_sum_symmetric(c, d, x, y);
}

/// The row at `x`, evaluated at `y`, is the polynomial's value at `(x, y)`.
pub proof fn law_bi_row_eval(c: Seq<int>, d: int, x: int, y: int)
    requires
        0 <= d,
    ensures
        poly_eval(bi_row(c, d, x), y) == bi_eval(c, d, x, y),
{
    let n = d + 1;
    let row = Seq::new(n as nat, |i: int| row_sum(c, x, i, n));
    let reduced_row = Seq::new(n as nat, |i: int| row_sum(c, x, i, n) % modulus());
    assert(reduced_row =~= residues(row));
    lemma_horner_strip(reduced_row, y);
    lemma_eval_residues(row, y);
    lemma_horner_is_sum(row, y);
    let f = |i: int| row[i] * pow(y, i as nat);
    let g = |i: int| pow(y, i as nat) * row_sum(c, x, i, n);
    assert forall|i: int| 0 <= i < n implies #[trigger] f(i) == g(i) by {
        let a = row_sum(c, x, i, n);
        let b = pow(y, i as nat);
        assert(a * b == b * a) by (nonlinear_arith);
    }
    lemma_sum_equal(f, g, n);
    assert(horner(row, y) == bi_sum(c, d, y, x, n));
    lemma_bi_sum_symmetric(c, d, x, y);
}

/// One more term of a row's sum.
pub proof fn lemma_row_sum_step(c: Seq<int>, x: int, i: int, j: int)
    requires
        0 <= j,
    ensures
        row_sum(c, x, i, 0) == 0,
        row_sum(c, x, i, j + 1) == row_sum(c, x, i, j) + bi_coeff(c, i, j) * pow(x, j as nat),
{
    let f = |k: int| bi_coeff(c, i, k) * pow(x, k as nat);
    assert(sum(f, 0) == 0);
    assert(sum(f, j + 1) == sum(f, j) + f(j));
}

/// One more row of the whole sum.
pub proof fn lemma_bi_sum_step(c: Seq<int>, d: int, x: int, y: int, i: int)
    requires
        0 <= i,
    ensures
        bi_sum(c, d, x, y, 0) == 0,
        bi_sum(c, d, x, y, i + 1) == bi_sum(c, d, x, y, i) + pow(x, i as nat) * row_sum(
            c,
            y,
            i,
            d + 1,
        ),
{
    let f = |k: int| pow(x, k as nat) * row_sum(c, y, k, d + 1);
    assert(sum(f, 0) == 0);
    assert(sum(f, i + 1) == sum(f, i) + f(i));
}

/// What adding the product of a coefficient with a reduced power does to a reduced sum.
pub proof fn lemma_row_accumulate(total: int, c: int, power: int)
    ensures
        fadd(total % modulus(), fmul(c, power % modulus())) == (total + c * power) % modulus(),
{
    let m = modulus();
    lemma_fmul_laws(c, power, 0);
    lemma_fadd_laws(total, c * power, 0);
    lemma_fadd_laws(total % m, c * power, 0);
}

/// What adding the product of a coefficient with two reduced powers does to a reduced sum.
pub proof fn lemma_bi_accumulate(total: int, c: int, px: int, py: int)
    ensures
        fadd(total % modulus(), fmul(fmul(c, px % modulus()), py % modulus())) == (total + px * (c
            * py)) % modulus(),
{
    let m = modulus();
    lemma_fmul_laws(c, px, 0);
    lemma_fmul_laws(fmul(c, px), py, 0);
    lemma_fmul_laws(c * px, py, 0);
    assert((c * px) * py == px * (c * py)) by (nonlinear_arith);
    lemma_fadd_laws(total, px * (c * py), 0);
    lemma_fadd_laws(total % m, px * (c * py), 0);
}

/// The commitment to the bivariate polynomial with the coefficients `c`: each coefficient
/// times the logarithm of the generator, which is one.
pub open spec fn bivar_commitment_logs(c: Seq<int>) -> Seq<int> {
    residues(scaled(c, 1))
}

/// The row of the commitment to a bivariate polynomial is the commitment to the
/// polynomial's row.
pub proof fn law_bi_row_commitment(c: Seq<int>, d: int, x: int)
    requires
        0 <= d,
        c.len() >= packed_len(d),
    ensures
        commitment_logs(bi_row(c, d, x)) == bi_row(bivar_commitment_logs(c), d, x),
{
    let n = d + 1;
    let m = modulus();
    let rc = bivar_commitment_logs(c);
    let row = Seq::new(n as nat, |i: int| row_sum(c, x, i, n) % m);
    let other = Seq::new(n as nat, |i: int| row_sum(rc, x, i, n) % m);
    assert forall|i: int| 0 <= i < n implies row[i] == other[i] by {
        let f = |j: int| bi_coeff(c, i, j) * pow(x, j as nat);
        let g = |j: int| bi_coeff(rc, i, j) * pow(x, j as nat);
        assert forall|j: int| 0 <= j < n implies #[trigger] f(j) % m == g(j) % m by {
            lemma_packed_pos_bound(i, j, d);
            let k = packed_pos(i, j);
            assert(rc[k] == (c[k] * 1) % m);
            assert(c[k] * 1 == c[k]);
            lemma_fmul_laws(c[k], pow(x, j as nat), 0);
        }
        lemma_sum_congruent(f, g, n);
    }
    assert(row =~= other);
    let r = bi_row(c, d, x);
    lemma_strip_props(row);
    assert forall|i: int| 0 <= i < r.len() implies 0 <= #[trigger] r[i] < m by {
        assert(r[i] == row[i]);
        lemma_fadd_laws(row_sum(c, x, i, n), 0, 0);
    }
    lemma_commitment_logs(r);
}

} // verus!
