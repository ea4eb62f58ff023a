//! Polynomials over the scalar field as sequences of coefficients, lowest degree first, and
//! the facts about them that the rest of the library is proved from.
use crate::field::{fadd, fmul, fneg, fsub, lemma_fmul_laws, lemma_reduced, modulus};
use vstd::arithmetic::div_mod::{
    lemma_add_mod_noop, lemma_mod_twice, lemma_mul_mod_noop, lemma_mul_mod_noop_general,
    lemma_mul_mod_noop_right, lemma_small_mod, lemma_sub_mod_noop,
};
use vstd::prelude::*;

verus! {

/// The coefficient of degree `i`, which is zero beyond the sequence's end.
pub open spec fn coeff_at(p: Seq<int>, i: int) -> int {
    if 0 <= i < p.len() {
        p[i]
    } else {
        0
    }
}

/// Every coefficient lies in `0 .. q`.
pub open spec fn reduced(p: Seq<int>) -> bool {
    forall|i: int| 0 <= i < p.len() ==> 0 <= #[trigger] p[i] < modulus()
}

/// The sequence has no trailing zero coefficient.
pub open spec fn is_stripped(p: Seq<int>) -> bool {
    p.len() == 0 || p.last() != 0
}

/// The sequence without its trailing zero coefficients.
pub open spec fn strip(p: Seq<int>) -> Seq<int>
    decreases p.len(),
{
    if p.len() > 0 && p.last() == 0 {
        strip(p.drop_last())
    } else {
        p
    }
}

/// Each coefficient replaced by its residue modulo `q`.
pub open spec fn residues(p: Seq<int>) -> Seq<int> {
    Seq::new(p.len(), |i: int| p[i] % modulus())
}

/// The value at `x` as an integer, before any reduction: the sum of `p[i] * x^i`.
pub open spec fn horner(p: Seq<int>, x: int) -> int
    decreases p.len(),
{
    if p.len() == 0 {
        0
    } else {
        p[0] + x * horner(p.skip(1), x)
    }
}

/// The value of the polynomial at `x`, in the field.
pub open spec fn poly_eval(p: Seq<int>, x: int) -> int {
    horner(p, x) % modulus()
}

/// Coefficient by coefficient, the sum of the integers, the shorter sequence continued with
/// zeros.
pub open spec fn zip_add(p: Seq<int>, q: Seq<int>) -> Seq<int> {
    Seq::new(
        if p.len() >= q.len() {
            p.len()
        } else {
            q.len()
        },
        |i: int| coeff_at(p, i) + coeff_at(q, i),
    )
}

/// Coefficient by coefficient, the difference of the integers, the shorter sequence
/// continued with zeros.
pub open spec fn zip_sub(p: Seq<int>, q: Seq<int>) -> Seq<int> {
    Seq::new(
        if p.len() >= q.len() {
            p.len()
        } else {
            q.len()
        },
        |i: int| coeff_at(p, i) - coeff_at(q, i),
    )
}

/// Each coefficient multiplied by `c`, as integers.
pub open spec fn scaled(p: Seq<int>, c: int) -> Seq<int> {
    Seq::new(p.len(), |i: int| p[i] * c)
}

/// The part of the coefficient of degree `k` of the product that the first `n` coefficients
/// of `p` contribute: the sum of `p[i] * q[k - i]` over `i < n`.
pub open spec fn conv_sum(p: Seq<int>, q: Seq<int>, k: int, n: int) -> int
    decreases n,
{
    if n <= 0 {
        0
    } else {
        conv_sum(p, q, k, n - 1) + coeff_at(p, n - 1) * coeff_at(q, k - (n - 1))
    }
}

/// What the products of `p[i]` with the first `j` coefficients of `q` add to the coefficient
/// of degree `t` of the product.
pub open spec fn row_part(p: Seq<int>, q: Seq<int>, i: int, j: int, t: int) -> int {
    if i <= t < i + j {
        p[i] * q[t - i]
    } else {
        0
    }
}

/// The product of two non-empty coefficient sequences, as integers.
pub open spec fn conv(p: Seq<int>, q: Seq<int>) -> Seq<int> {
    Seq::new((p.len() + q.len() - 1) as nat, |k: int| conv_sum(p, q, k, p.len() as int))
}

/// The sum of two polynomials over the field.
pub open spec fn poly_add(p: Seq<int>, q: Seq<int>) -> Seq<int> {
    strip(residues(zip_add(p, q)))
}

/// The difference of two polynomials over the field.
pub open spec fn poly_sub(p: Seq<int>, q: Seq<int>) -> Seq<int> {
    strip(residues(zip_sub(p, q)))
}

/// The polynomial multiplied by the scalar `c`.
pub open spec fn poly_scale(p: Seq<int>, c: int) -> Seq<int> {
    strip(residues(scaled(p, c)))
}

/// The negated polynomial.
pub open spec fn poly_neg(p: Seq<int>) -> Seq<int> {
    strip(residues(scaled(p, -1)))
}

/// The product of two polynomials over the field.
pub open spec fn poly_mul(p: Seq<int>, q: Seq<int>) -> Seq<int> {
    if p.len() == 0 || q.len() == 0 {
        Seq::empty()
    } else {
        strip(residues(conv(p, q)))
    }
}

/// The monomial `x^d`.
pub open spec fn monomial_spec(d: nat) -> Seq<int> {
    Seq::new(d + 1, |i: int| if i == d { 1int } else { 0int })
}

/// Stripping leaves a sequence without trailing zeros, no longer than it was, and keeps
/// what is in front.
pub proof fn lemma_strip_props(p: Seq<int>)
    ensures
        is_stripped(strip(p)),
        strip(p).len() <= p.len(),
        strip(p) == p.take(strip(p).len() as int),
        forall|i: int| strip(p).len() <= i < p.len() ==> p[i] == 0,
        reduced(p) ==> reduced(strip(p)),
    decreases p.len(),
{
    if p.len() > 0 && p.last() == 0 {
        let d = p.drop_last();
        lemma_strip_props(d);
        assert(d.take(strip(d).len() as int) =~= p.take(strip(d).len() as int));
        assert forall|i: int| strip(p).len() <= i < p.len() implies p[i] == 0 by {
            if i < d.len() {
                assert(d[i] == p[i]);
            }
        }
    } else {
        assert(p.take(p.len() as int) =~= p);
    }
}

/// A sequence without trailing zeros is left as it is.
pub proof fn lemma_strip_fixed(p: Seq<int>)
    requires
        is_stripped(p),
    ensures
        strip(p) == p,
{
}

/// Where the sequence holds only zeros from place `n` on, and place `n - 1` holds none (or
/// `n` is zero), stripping it leaves its first `n` places.
pub proof fn lemma_strip_is_take(p: Seq<int>, n: int)
    requires
        0 <= n <= p.len(),
        forall|i: int| n <= i < p.len() ==> p[i] == 0,
        n == 0 || p[n - 1] != 0,
    ensures
        strip(p) == p.take(n),
    decreases p.len(),
{
    if n < p.len() {
        let d = p.drop_last();
        lemma_strip_is_take(d, n);
        assert(d.take(n) =~= p.take(n));
    } else {
        assert(p.take(n) =~= p);
    }
}

/// A trailing zero coefficient adds nothing to the value.
pub proof fn lemma_horner_drop_zero(p: Seq<int>, x: int)
    requires
        p.len() > 0,
        p.last() == 0,
    ensures
        horner(p.drop_last(), x) == horner(p, x),
    decreases p.len(),
{
    if p.len() == 1 {
        assert(p.drop_last().len() == 0);
        assert(horner(p.skip(1), x) == 0);
        assert(x * 0 == 0);
    } else {
        lemma_horner_drop_zero(p.skip(1), x);
        assert(p.skip(1).drop_last() =~= p.drop_last().skip(1));
        assert(p.drop_last()[0] == p[0]);
    }
}

/// Stripping does not change the value.
pub proof fn lemma_horner_strip(p: Seq<int>, x: int)
    ensures
        horner(strip(p), x) == horner(p, x),
    decreases p.len(),
{
    if p.len() > 0 && p.last() == 0 {
        lemma_horner_strip(p.drop_last(), x);
        lemma_horner_drop_zero(p, x);
    }
}

/// Coefficients that agree modulo `q` give values that agree modulo `q`.
pub proof fn lemma_horner_congruent(p: Seq<int>, r: Seq<int>, x: int)
    requires
        p.len() == r.len(),
        forall|i: int| 0 <= i < p.len() ==> p[i] % modulus() == r[i] % modulus(),
    ensures
        horner(p, x) % modulus() == horner(r, x) % modulus(),
    decreases p.len(),
{
    if p.len() > 0 {
        let m = modulus();
        lemma_horner_congruent(p.skip(1), r.skip(1), x);
        let hp = horner(p.skip(1), x);
        let hr = horner(r.skip(1), x);
        lemma_mul_mod_noop_right(x, hp, m);
        lemma_mul_mod_noop_right(x, hr, m);
        lemma_add_mod_noop(p[0], x * hp, m);
        lemma_add_mod_noop(r[0], x * hr, m);
    }
}

/// Reducing the coefficients does not change the value in the field.
pub proof fn lemma_eval_residues(p: Seq<int>, x: int)
    ensures
        poly_eval(residues(p), x) == poly_eval(p, x),
{
    assert forall|i: int| 0 <= i < p.len() implies residues(p)[i] % modulus() == p[i]
        % modulus() by {
        lemma_mod_twice(p[i], modulus());
    }
    lemma_horner_congruent(residues(p), p, x);
}

/// The value of a sum taken coefficient by coefficient is the sum of the values.
pub proof fn lemma_horner_zip_add(p: Seq<int>, q: Seq<int>, x: int)
    ensures
        horner(zip_add(p, q), x) == horner(p, x) + horner(q, x),
    decreases p.len() + q.len(),
{
    let s = zip_add(p, q);
    if p.len() == 0 {
        assert(s =~= q);
    } else if q.len() == 0 {
        assert(s =~= p);
    } else {
        lemma_horner_zip_add(p.skip(1), q.skip(1), x);
        assert(s.skip(1) =~= zip_add(p.skip(1), q.skip(1)));
        assert(x * (horner(p.skip(1), x) + horner(q.skip(1), x)) == x * horner(p.skip(1), x) + x
            * horner(q.skip(1), x)) by (nonlinear_arith);
    }
}

/// The value of a polynomial multiplied by `c` is `c` times its value.
pub proof fn lemma_horner_scaled(p: Seq<int>, c: int, x: int)
    ensures
        horner(scaled(p, c), x) == c * horner(p, x),
    decreases p.len(),
{
    let s = scaled(p, c);
    if p.len() == 0 {
        assert(c * 0 == 0);
    } else {
        lemma_horner_scaled(p.skip(1), c, x);
        assert(s.skip(1) =~= scaled(p.skip(1), c));
        let h = horner(p.skip(1), x);
        assert(p[0] * c + x * (c * h) == c * (p[0] + x * h)) by (nonlinear_arith);
    }
}

/// The value of a difference taken coefficient by coefficient is the difference of the
/// values.
pub proof fn lemma_horner_zip_sub(p: Seq<int>, q: Seq<int>, x: int)
    ensures
        horner(zip_sub(p, q), x) == horner(p, x) - horner(q, x),
{
    let n = scaled(q, -1);
    lemma_horner_scaled(q, -1, x);
    lemma_horner_zip_add(p, n, x);
    assert(zip_sub(p, q) =~= zip_add(p, n));
}

/// A zero in front multiplies the value by `x`.
pub proof fn lemma_horner_shift(p: Seq<int>, x: int)
    ensures
        horner(seq![0int] + p, x) == x * horner(p, x),
{
    let s = seq![0int] + p;
    assert(s.skip(1) =~= p);
}

/// The contribution of the first `n` coefficients of `p` to the product, with the first of
/// them split off.
pub proof fn lemma_conv_sum_head(p: Seq<int>, q: Seq<int>, k: int, n: int)
    requires
        1 <= n,
        p.len() > 0,
    ensures
        conv_sum(p, q, k, n) == p[0] * coeff_at(q, k) + conv_sum(p.skip(1), q, k - 1, n - 1),
    decreases n,
{
    if n == 1 {
        assert(conv_sum(p, q, k, 0) == 0);
        assert(conv_sum(p.skip(1), q, k - 1, 0) == 0);
    } else {
        lemma_conv_sum_head(p, q, k, n - 1);
        assert(coeff_at(p, n - 1) == coeff_at(p.skip(1), n - 2));
    }
}

/// The value of a product is the product of the values.
pub proof fn lemma_horner_conv(p: Seq<int>, q: Seq<int>, x: int)
    requires
        p.len() > 0,
        q.len() > 0,
    ensures
        horner(conv(p, q), x) == horner(p, x) * horner(q, x),
    decreases p.len(),
{
    let c = conv(p, q);
    let t = p.skip(1);
    let first = scaled(q, p[0]);
    if p.len() == 1 {
        assert forall|k: int| 0 <= k < c.len() implies c[k] == first[k] by {
            lemma_conv_sum_head(p, q, k, 1);
            assert(conv_sum(t, q, k - 1, 0) == 0);
            assert(p[0] * q[k] == q[k] * p[0]) by (nonlinear_arith);
        }
        assert(c =~= first);
        lemma_horner_scaled(q, p[0], x);
        assert(t.len() == 0);
        assert(horner(p, x) == p[0]) by {
            assert(horner(t, x) == 0);
            assert(x * 0 == 0);
        }
    } else {
        let rest = seq![0int] + conv(t, q);
        assert forall|k: int| 0 <= k < c.len() implies c[k] == coeff_at(first, k) + coeff_at(
            rest,
            k,
        ) by {
            lemma_conv_sum_head(p, q, k, p.len() as int);
            assert(p[0] * coeff_at(q, k) == coeff_at(q, k) * p[0]) by (nonlinear_arith);
            if k == 0 {
                lemma_conv_sum_zero(t, q, -1, t.len() as int);
            }
        }
        assert(c =~= zip_add(first, rest));
        lemma_horner_zip_add(first, rest, x);
        lemma_horner_scaled(q, p[0], x);
        lemma_horner_shift(conv(t, q), x);
        lemma_horner_conv(t, q, x);
        let hq = horner(q, x);
        let ht = horner(t, x);
        assert(p[0] * hq + x * (ht * hq) == (p[0] + x * ht) * hq) by (nonlinear_arith);
    }
}

/// Nothing contributes to a coefficient of negative degree.
pub proof fn lemma_conv_sum_zero(p: Seq<int>, q: Seq<int>, k: int, n: int)
    requires
        k < 0,
    ensures
        conv_sum(p, q, k, n) == 0,
    decreases n,
{
    if n > 0 {
        lemma_conv_sum_zero(p, q, k, n - 1);
        if 0 <= n - 1 < p.len() {
            assert(coeff_at(q, k - (n - 1)) == 0);
            assert(coeff_at(p, n - 1) * 0 == 0);
        } else {
            assert(0 * coeff_at(q, k - (n - 1)) == 0);
        }
    }
}

/// One step of Horner's rule: from the value of the coefficients above place `k` to the
/// value of those from place `k` on.
pub proof fn lemma_horner_step(p: Seq<int>, k: int, x: int, above: int)
    requires
        0 <= k < p.len(),
        above == poly_eval(p.skip(k + 1), x),
    ensures
        fadd(fmul(above, x), p[k]) == poly_eval(p.skip(k), x),
{
    let m = modulus();
    let h = horner(p.skip(k + 1), x);
    assert(p.skip(k).skip(1) =~= p.skip(k + 1));
    assert(p.skip(k)[0] == p[k]);
    lemma_mul_mod_noop_general(h, x, m);
    lemma_add_mod_noop(h * x, p[k], m);
    lemma_add_mod_noop((h * x) % m, p[k], m);
    lemma_mod_twice(h * x, m);
    assert(h * x == x * h) by (nonlinear_arith);
}

/// The value of a polynomial with one coefficient is that coefficient.
pub proof fn lemma_horner_single(p: Seq<int>, x: int)
    requires
        p.len() == 1,
    ensures
        horner(p, x) == p[0],
{
    assert(horner(p.skip(1), x) == 0);
    assert(x * 0 == 0);
}

/// The value of a sum is the sum of the values.
pub proof fn law_eval_add(p: Seq<int>, q: Seq<int>, x: int)
    ensures
        poly_eval(poly_add(p, q), x) == fadd(poly_eval(p, x), poly_eval(q, x)),
{
    let z = zip_add(p, q);
    lemma_horner_strip(residues(z), x);
    lemma_eval_residues(z, x);
    lemma_horner_zip_add(p, q, x);
    lemma_add_mod_noop(horner(p, x), horner(q, x), modulus());
}

/// The value of a difference is the difference of the values.
pub proof fn law_eval_sub(p: Seq<int>, q: Seq<int>, x: int)
    ensures
        poly_eval(poly_sub(p, q), x) == fsub(poly_eval(p, x), poly_eval(q, x)),
{
    let z = zip_sub(p, q);
    lemma_horner_strip(residues(z), x);
    lemma_eval_residues(z, x);
    lemma_horner_zip_sub(p, q, x);
    lemma_sub_mod_noop(horner(p, x), horner(q, x), modulus());
}

/// The value of a polynomial multiplied by a scalar is the scalar times the value.
pub proof fn law_eval_scale(p: Seq<int>, c: int, x: int)
    ensures
        poly_eval(poly_scale(p, c), x) == fmul(poly_eval(p, x), c),
{
    let z = scaled(p, c);
    lemma_horner_strip(residues(z), x);
    lemma_eval_residues(z, x);
    lemma_horner_scaled(p, c, x);
    lemma_mul_mod_noop_general(horner(p, x), c, modulus());
    assert(c * horner(p, x) == horner(p, x) * c) by (nonlinear_arith);
}

/// The value of the negated polynomial is the negated value.
pub proof fn law_eval_neg(p: Seq<int>, x: int)
    ensures
        poly_eval(poly_neg(p), x) == fneg(poly_eval(p, x)),
{
    let z = scaled(p, -1);
    lemma_horner_strip(residues(z), x);
    lemma_eval_residues(z, x);
    lemma_horner_scaled(p, -1, x);
    lemma_sub_mod_noop(0, horner(p, x), modulus());
    lemma_small_mod(0, modulus() as nat);
}

/// The value of a product is the product of the values.
pub proof fn law_eval_mul(p: Seq<int>, q: Seq<int>, x: int)
    ensures
        poly_eval(poly_mul(p, q), x) == fmul(poly_eval(p, x), poly_eval(q, x)),
{
    let m = modulus();
    if p.len() == 0 || q.len() == 0 {
        lemma_mul_mod_noop(horner(p, x), horner(q, x), m);
        assert(horner(p, x) * horner(q, x) == 0) by (nonlinear_arith)
            requires
                horner(p, x) == 0 || horner(q, x) == 0,
        ;
        lemma_small_mod(0, m as nat);
    } else {
        let z = conv(p, q);
        lemma_horner_strip(residues(z), x);
        lemma_eval_residues(z, x);
        lemma_horner_conv(p, q, x);
        lemma_mul_mod_noop(horner(p, x), horner(q, x), m);
    }
}

/// The commitment to the polynomial `p`: each coefficient times the logarithm of the
/// generator, which is one.
pub open spec fn commitment_logs(p: Seq<int>) -> Seq<int> {
    poly_scale(p, 1)
}

/// The commitment to a polynomial, evaluated at `x`, is the generator times the value of
/// the polynomial at `x`.
pub proof fn law_commitment_evaluate(p: Seq<int>, x: int)
    ensures
        poly_eval(commitment_logs(p), x) == fmul(1, poly_eval(p, x)),
{
    law_eval_scale(p, 1, x);
    lemma_fmul_laws(poly_eval(p, x), 1, 0);
}

/// The commitment to a polynomial with reduced coefficients and no trailing zero has the
/// polynomial's coefficients as its logarithms.
pub proof fn lemma_commitment_logs(p: Seq<int>)
    requires
        is_stripped(p),
        forall|i: int| 0 <= i < p.len() ==> 0 <= #[trigger] p[i] < modulus(),
    ensures
        commitment_logs(p) == p,
{
    let r = residues(scaled(p, 1));
    assert forall|i: int| 0 <= i < p.len() implies r[i] == p[i] by {
        lemma_reduced(p[i]);
    }
    assert(r =~= p);
    lemma_strip_fixed(p);
}

/// The product of `x - xs[i]` over `i < n`, as an integer: the value at `x` of the monic
/// polynomial that vanishes at the first `n` of the `xs`.
pub open spec fn vanishing(xs: Seq<int>, n: int, x: int) -> int
    decreases n,
{
    if n <= 0 {
        1
    } else {
        vanishing(xs, n - 1, x) * (x - xs[n - 1])
    }
}

/// No two entries of the sequence are the same.
pub open spec fn distinct(xs: Seq<int>) -> bool {
    forall|i: int, j: int| 0 <= i < j < xs.len() ==> xs[i] != xs[j]
}

/// The vanishing product is zero at each of the points it was built from.
pub proof fn lemma_vanishing_root(xs: Seq<int>, n: int, i: int)
    requires
        0 <= i < n <= xs.len(),
    ensures
        vanishing(xs, n, xs[i]) == 0,
    decreases n,
{
    let x = xs[i];
    if i == n - 1 {
        assert(vanishing(xs, n - 1, x) * 0 == 0);
    } else {
        lemma_vanishing_root(xs, n - 1, i);
        assert(0 * (x - xs[n - 1]) == 0);
    }
}

/// The value at `x` of the polynomial `X - a`, given by its two reduced coefficients.
pub proof fn lemma_eval_linear(p: Seq<int>, a: int, x: int)
    requires
        p.len() == 2,
        p[0] == fneg(a),
        p[1] == 1,
    ensures
        poly_eval(p, x) == (x - a) % modulus(),
{
    let m = modulus();
    lemma_horner_single(p.skip(1), x);
    assert(x * 1 == x);
    assert(horner(p, x) == fneg(a) + x);
    lemma_add_mod_noop(-a, x, m);
    lemma_add_mod_noop((-a) % m, x, m);
    lemma_mod_twice(-a, m);
}

/// One step of Newton's interpolation: adding to a polynomial of value `cur` the right
/// multiple of one of value `base` makes the value `y`.
pub proof fn lemma_newton_step(cur: int, base: int, inv: int, y: int)
    requires
        fmul(base, inv) == 1,
        0 <= y < modulus(),
    ensures
        fadd(cur, fmul(base, fmul(fsub(y, cur), inv))) == y,
{
    let m = modulus();
    let t = fsub(y, cur);
    // base * (t * inv) == (base * inv) * t == t
    lemma_fmul_laws(t, inv, 0);
    lemma_fmul_laws(base, inv, t);
    lemma_fmul_laws(1, t, 0);
    lemma_fmul_laws(fmul(base, inv), t, 0);
    assert(fmul(base, fmul(t, inv)) == fmul(1, t));
    assert(1 * t == t);
    lemma_mod_twice(y - cur, m);
    assert(fmul(1, t) == t);
    // cur + (y - cur) == y
    lemma_add_mod_noop(cur, y - cur, m);
    lemma_mod_twice(cur, m);
    lemma_add_mod_noop(cur % m, t, m);
    lemma_add_mod_noop(cur, t, m);
    lemma_small_mod(y as nat, m as nat);
}

} // verus!
