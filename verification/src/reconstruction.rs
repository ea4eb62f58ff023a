//! Why Lagrange's weights reconstruct: a polynomial of degree below `n` is determined by its
//! values at `n` points whose differences have inverses, and in particular so is its value at
//! zero.
use crate::algebra::{
    conv, horner, lemma_horner_conv, lemma_horner_scaled, lemma_horner_single,
    lemma_horner_zip_add, lemma_horner_zip_sub, poly_eval, scaled, vanishing, zip_add, zip_sub,
};
use crate::field::{finv, fmul, is_inverse, lemma_finv_is, lemma_fmul_laws, modulus};
use crate::lagrange::{
    combination, differences, differences_invertible, invertible, lagrange_at_zero, numerator,
    product, weights_exist,
};
use vstd::arithmetic::div_mod::{
    lemma_add_mod_noop, lemma_mod_twice, lemma_mul_mod_noop_general, lemma_small_mod,
    lemma_sub_mod_noop,
};
use vstd::prelude::*;

verus! {

/// The quotient of the polynomial `p` by `X - a`.
pub open spec fn quotient(p: Seq<int>, a: int) -> Seq<int>
    decreases p.len(),
{
    if p.len() <= 1 {
        Seq::empty()
    } else {
        zip_add(p.skip(1), scaled(quotient(p.skip(1), a), a))
    }
}

/// The product of `xs[j] - x` over the `j < n` other than `k`.
pub open spec fn factor_product(xs: Seq<int>, k: int, n: int, x: int) -> int
    decreases n,
{
    if n <= 0 {
        1
    } else if n - 1 == k {
        factor_product(xs, k, n - 1, x)
    } else {
        factor_product(xs, k, n - 1, x) * (xs[n - 1] - x)
    }
}

/// The coefficients of the product of `xs[j] - X` over the `j < n` other than `k`.
pub open spec fn basis(xs: Seq<int>, k: int, n: int) -> Seq<int>
    decreases n,
{
    if n <= 0 {
        seq![1int]
    } else if n - 1 == k {
        basis(xs, k, n - 1)
    } else {
        conv(basis(xs, k, n - 1), seq![xs[n - 1], -1int])
    }
}

/// The sum of `cs[k]` times the `k`-th basis polynomial of `n` points, over `k < j`.
pub open spec fn interpolant(xs: Seq<int>, cs: Seq<int>, n: int, j: int) -> Seq<int>
    decreases j,
{
    if j <= 0 {
        Seq::empty()
    } else {
        zip_add(interpolant(xs, cs, n, j - 1), scaled(basis(xs, j - 1, n), cs[j - 1]))
    }
}

/// The sum of `cs[k]` times the value at `x` of the `k`-th basis polynomial, over `k < j`.
pub open spec fn weighted(xs: Seq<int>, cs: Seq<int>, n: int, j: int, x: int) -> int
    decreases j,
{
    if j <= 0 {
        0
    } else {
        weighted(xs, cs, n, j - 1, x) + cs[j - 1] * factor_product(xs, j - 1, n, x)
    }
}

/// The quotient is one coefficient shorter, and the polynomial is its value at `a` plus
/// `X - a` times the quotient.
pub proof fn lemma_quotient(p: Seq<int>, a: int, x: int)
    ensures
        quotient(p, a).len() == if p.len() == 0 {
            0
        } else {
            p.len() - 1
        },
        horner(p, x) == horner(p, a) + (x - a) * horner(quotient(p, a), x),
    decreases p.len(),
{
    if p.len() == 0 {
        assert((x - a) * 0 == 0);
    } else if p.len() == 1 {
        lemma_horner_single(p, x);
        lemma_horner_single(p, a);
        assert((x - a) * 0 == 0);
    } else {
        let t = p.skip(1);
        let qt = quotient(t, a);
        lemma_quotient(t, a, x);
        lemma_horner_zip_add(t, scaled(qt, a), x);
        lemma_horner_scaled(qt, a, x);
        let tx = horner(t, x);
        let ta = horner(t, a);
        let qx = horner(qt, x);
        assert(p[0] + x * tx == (p[0] + a * ta) + (x - a) * (tx + a * qx)) by (nonlinear_arith)
            requires
                tx == ta + (x - a) * qx,
        ;
    }
}

/// Where `d` has an inverse and `d * v` is zero modulo `q`, so is `v`.
pub proof fn lemma_cancel(d: int, v: int)
    requires
        invertible(d),
        (d * v) % modulus() == 0,
    ensures
        v % modulus() == 0,
{
    let m = modulus();
    let u = choose|u: int| is_inverse(d, u);
    // v == (d * u) * v == u * (d * v) == 0, all modulo m
    lemma_mul_mod_noop_general(d * u, v, m);
    assert((d * u) * v == u * (d * v)) by (nonlinear_arith);
    lemma_mul_mod_noop_general(u, d * v, m);
    assert(1 * v == v);
    assert(u * 0 == 0);
    lemma_small_mod(0, m as nat);
}

/// A factor of a number that has an inverse has one.
pub proof fn lemma_factor_invertible(a: int, b: int)
    requires
        invertible(a * b),
    ensures
        invertible(a),
        invertible(b),
{
    let m = modulus();
    let ab = a * b;
    let u = choose|u: int| is_inverse(ab, u);
    assert((a * b) * u == a * (b * u)) by (nonlinear_arith);
    assert((a * b) * u == b * (a * u)) by (nonlinear_arith);
    lemma_fmul_laws(a, b * u, 0);
    lemma_fmul_laws(b, a * u, 0);
    assert(is_inverse(a, (b * u) % m));
    assert(is_inverse(b, (a * u) % m));
}

/// Where the weights exist, the difference of any two of the points has an inverse.
pub proof fn lemma_differences_invertible(xs: Seq<int>, k: int, n: int, j: int)
    requires
        0 <= j < n <= xs.len(),
        j != k,
        invertible(differences(xs, k, n)),
    ensures
        invertible(xs[j] - xs[k]),
    decreases n,
{
    if n - 1 == k {
        lemma_differences_invertible(xs, k, n - 1, j);
    } else {
        lemma_factor_invertible(differences(xs, k, n - 1), xs[n - 1] - xs[k]);
        if j < n - 1 {
            lemma_differences_invertible(xs, k, n - 1, j);
        }
    }
}

/// Where the weights exist, the difference of any two of the points has an inverse.
pub proof fn lemma_weights_differences(xs: Seq<int>)
    requires
        weights_exist(xs),
    ensures
        differences_invertible(xs, xs.len() as int),
{
    let n = xs.len() as int;
    assert forall|i: int, j: int| 0 <= i < n && 0 <= j < n && i != j implies invertible(
        #[trigger] xs[i] - #[trigger] xs[j],
    ) by {
        assert(invertible(differences(xs, j, n)));
        lemma_differences_invertible(xs, j, n, i);
    }
}

/// The negative of a number that has an inverse has one.
pub proof fn lemma_negative_invertible(a: int)
    requires
        invertible(a),
    ensures
        invertible(-a),
{
    let m = modulus();
    let u = choose|u: int| is_inverse(a, u);
    assert((-a) * (-u) == a * u) by (nonlinear_arith);
    lemma_fmul_laws(-a, -u, 0);
    assert(is_inverse(-a, (-u) % m));
}

/// Where the product of the differences between `x` and the first `n` points has an
/// inverse, so has each of the differences, either way round.
pub proof fn lemma_vanishing_invertible(xs: Seq<int>, n: int, x: int, i: int)
    requires
        0 <= i < n,
        invertible(vanishing(xs, n, x)),
    ensures
        invertible(x - xs[i]),
        invertible(xs[i] - x),
    decreases n,
{
    lemma_factor_invertible(vanishing(xs, n - 1, x), x - xs[n - 1]);
    if i < n - 1 {
        lemma_vanishing_invertible(xs, n - 1, x, i);
    } else {
        lemma_negative_invertible(x - xs[i]);
        assert(-(x - xs[i]) == xs[i] - x);
    }
}

/// Two polynomials with no more coefficients than there are points, which have the same
/// values at the points, have the same value everywhere: the polynomial that interpolation
/// finds is the only one.
pub proof fn law_interpolation_unique(p: Seq<int>, q: Seq<int>, xs: Seq<int>, x: int)
    requires
        p.len() <= xs.len(),
        q.len() <= xs.len(),
        differences_invertible(xs, xs.len() as int),
        forall|i: int| 0 <= i < xs.len() ==> poly_eval(p, #[trigger] xs[i]) == poly_eval(q, xs[i]),
    ensures
        poly_eval(p, x) == poly_eval(q, x),
{
    let m = modulus();
    let d = zip_sub(p, q);
    assert forall|i: int| 0 <= i < xs.len() implies horner(d, #[trigger] xs[i]) % m == 0 by {
        lemma_horner_zip_sub(p, q, xs[i]);
        lemma_sub_mod_noop(horner(p, xs[i]), horner(q, xs[i]), m);
        lemma_small_mod(0, m as nat);
    }
    lemma_roots_vanish(d, xs, xs.len() as int, x);
    lemma_horner_zip_sub(p, q, x);
    lemma_sub_mod_noop(horner(p, x), horner(q, x), m);
    lemma_mod_twice(horner(p, x), m);
    lemma_mod_twice(horner(q, x), m);
    vstd::arithmetic::div_mod::lemma_mod_bound(horner(p, x), m);
    vstd::arithmetic::div_mod::lemma_mod_bound(horner(q, x), m);
    lemma_same_residue(poly_eval(p, x), poly_eval(q, x));
}

/// A polynomial with fewer than `n + 1` coefficients that is zero modulo `q` at `n` points
/// whose differences have inverses is zero modulo `q` everywhere.
pub proof fn lemma_roots_vanish(p: Seq<int>, xs: Seq<int>, n: int, x: int)
    requires
        0 <= n <= xs.len(),
        p.len() <= n,
        forall|i: int| 0 <= i < n ==> horner(p, #[trigger] xs[i]) % modulus() == 0,
        differences_invertible(xs, n),
    ensures
        horner(p, x) % modulus() == 0,
    decreases n,
{
    let m = modulus();
    if p.len() == 0 {
        lemma_small_mod(0, m as nat);
    } else {
        let a = xs[n - 1];
        let q = quotient(p, a);
        lemma_quotient(p, a, a);
        assert forall|i: int| 0 <= i < n - 1 implies horner(q, #[trigger] xs[i]) % m == 0 by {
            lemma_quotient(p, a, xs[i]);
            let d = xs[i] - a;
            let v = horner(q, xs[i]);
            assert(horner(p, xs[i]) % m == 0);
            assert(horner(p, a) % m == 0);
            lemma_sub_mod_noop(horner(p, xs[i]), horner(p, a), m);
            lemma_small_mod(0, m as nat);
            assert((d * v) % m == 0);
            assert(invertible(xs[i] - xs[n - 1]));
            lemma_cancel(d, v);
        }
        lemma_roots_vanish(q, xs, n - 1, x);
        lemma_quotient(p, a, x);
        let v = horner(q, x);
        lemma_mul_mod_noop_general(x - a, v, m);
        assert((x - a) * 0 == 0);
        lemma_add_mod_noop(horner(p, a), (x - a) * v, m);
        lemma_small_mod(0, m as nat);
    }
}

/// The basis polynomial has one coefficient more than it has factors, and its value at `x`
/// is the product of its factors' values.
pub proof fn lemma_basis(xs: Seq<int>, k: int, n: int, x: int)
    requires
        0 <= n,
    ensures
        basis(xs, k, n).len() == if 0 <= k < n {
            n
        } else {
            n + 1
        },
        horner(basis(xs, k, n), x) == factor_product(xs, k, n, x),
    decreases n,
{
    if n == 0 {
        lemma_horner_single(seq![1int], x);
    } else if n - 1 == k {
        lemma_basis(xs, k, n - 1, x);
    } else {
        lemma_basis(xs, k, n - 1, x);
        let linear = seq![xs[n - 1], -1int];
        lemma_horner_conv(basis(xs, k, n - 1), linear, x);
        lemma_horner_single(linear.skip(1), x);
        assert(horner(linear, x) == xs[n - 1] + x * (-1));
        assert(x * (-1) == -x);
    }
}

/// At zero the product of the factors is the product of the points.
pub proof fn lemma_factor_product_at_zero(xs: Seq<int>, k: int, n: int)
    requires
        0 <= n,
        0 <= k,
    ensures
        factor_product(xs, k, n, 0) == if n <= k {
            product(xs, 0, n)
        } else {
            product(xs, 0, k) * product(xs, k + 1, n)
        },
    decreases n,
{
    if n > 0 {
        lemma_factor_product_at_zero(xs, k, n - 1);
        if n - 1 == k {
            assert(product(xs, k + 1, n) == 1);
            assert(product(xs, 0, k) * 1 == product(xs, 0, k));
        } else if n - 1 > k {
            let a = product(xs, 0, k);
            let b = product(xs, k + 1, n - 1);
            let c = xs[n - 1];
            assert((a * b) * c == a * (b * c)) by (nonlinear_arith);
        }
    }
}

/// At the `k`-th point the product of the factors is the product of the differences.
pub proof fn lemma_factor_product_at_own(xs: Seq<int>, k: int, n: int)
    ensures
        factor_product(xs, k, n, xs[k]) == differences(xs, k, n),
    decreases n,
{
    if n > 0 {
        lemma_factor_product_at_own(xs, k, n - 1);
    }
}

/// At another of the points the product of the factors is zero.
pub proof fn lemma_factor_product_at_other(xs: Seq<int>, k: int, n: int, i: int)
    requires
        0 <= i < n,
        i != k,
    ensures
        factor_product(xs, k, n, xs[i]) == 0,
    decreases n,
{
    if n - 1 == i {
        assert(factor_product(xs, k, n - 1, xs[i]) * 0 == 0);
    } else {
        lemma_factor_product_at_other(xs, k, n - 1, i);
        if n - 1 != k {
            assert(0 * (xs[n - 1] - xs[i]) == 0);
        }
    }
}

/// The sum of multiples of the basis polynomials has at most `n` coefficients, and its
/// value at `x` is the sum of the multiples of their values.
pub proof fn lemma_interpolant(xs: Seq<int>, cs: Seq<int>, n: int, j: int, x: int)
    requires
        0 <= j <= n,
    ensures
        interpolant(xs, cs, n, j).len() <= n,
        horner(interpolant(xs, cs, n, j), x) == weighted(xs, cs, n, j, x),
    decreases j,
{
    if j > 0 {
        lemma_interpolant(xs, cs, n, j - 1, x);
        lemma_basis(xs, j - 1, n, x);
        lemma_horner_zip_add(
            interpolant(xs, cs, n, j - 1),
            scaled(basis(xs, j - 1, n), cs[j - 1]),
            x,
        );
        lemma_horner_scaled(basis(xs, j - 1, n), cs[j - 1], x);
    }
}

/// At the `i`-th point only the `i`-th basis polynomial counts.
pub proof fn lemma_weighted_at_point(xs: Seq<int>, cs: Seq<int>, n: int, j: int, i: int)
    requires
        0 <= j <= n,
        0 <= i < n,
    ensures
        weighted(xs, cs, n, j, xs[i]) == if i < j {
            cs[i] * differences(xs, i, n)
        } else {
            0
        },
    decreases j,
{
    if j > 0 {
        lemma_weighted_at_point(xs, cs, n, j - 1, i);
        if j - 1 == i {
            lemma_factor_product_at_own(xs, i, n);
        } else {
            lemma_factor_product_at_other(xs, j - 1, n, i);
            assert(cs[j - 1] * 0 == 0);
        }
    }
}

/// The multiple of the `k`-th basis polynomial in the interpolant of the values `vs`: the
/// value times the inverse of the product of differences.
pub open spec fn scaled_values(xs: Seq<int>, vs: Seq<int>) -> Seq<int> {
    Seq::new(xs.len(), |k: int| vs[k] * finv(differences(xs, k, xs.len() as int) % modulus()))
}

/// The sum of the weighted values agrees with the Lagrange combination, modulo `q`.
pub proof fn lemma_weighted_is_combination(xs: Seq<int>, vs: Seq<int>, j: int)
    requires
        0 <= j <= xs.len(),
    ensures
        weighted(xs, scaled_values(xs, vs), xs.len() as int, j, 0) % modulus() == combination(
            xs,
            vs,
            j,
        ) % modulus(),
    decreases j,
{
    let m = modulus();
    let n = xs.len() as int;
    let cs = scaled_values(xs, vs);
    if j > 0 {
        let k = j - 1;
        lemma_weighted_is_combination(xs, vs, k);
        lemma_factor_product_at_zero(xs, k, n);
        let u = finv(differences(xs, k, n) % m);
        let num = numerator(xs, k);
        // the new terms agree modulo m
        let left = cs[k] * factor_product(xs, k, n, 0);
        let right = lagrange_at_zero(xs, k) * vs[k];
        assert(left == (num * u) * vs[k]) by (nonlinear_arith)
            requires
                left == (vs[k] * u) * num,
        ;
        lemma_mul_mod_noop_general(num * u, vs[k], m);
        lemma_mul_mod_noop_general(fmul(num, u), vs[k], m);
        lemma_mod_twice(num * u, m);
        assert(left % m == right % m);
        lemma_add_mod_noop(weighted(xs, cs, n, k, 0), left, m);
        lemma_add_mod_noop(combination(xs, vs, k), right, m);
    }
}

/// Lagrange's weights reconstruct the value at zero: for a polynomial `p` with no more
/// coefficients than there are points, the combination of its values at the points is its
/// value at zero.
pub proof fn lemma_reconstruction(p: Seq<int>, xs: Seq<int>)
    requires
        p.len() <= xs.len(),
        weights_exist(xs),
    ensures
        combination(xs, Seq::new(xs.len(), |k: int| horner(p, xs[k])), xs.len() as int)
            % modulus() == poly_eval(p, 0),
{
    let m = modulus();
    let n = xs.len() as int;
    let vs = Seq::new(xs.len(), |k: int| horner(p, xs[k]));
    let cs = scaled_values(xs, vs);
    let g = zip_sub(interpolant(xs, cs, n, n), p);
    lemma_interpolant(xs, cs, n, n, 0);
    assert(g.len() <= n);
    assert forall|i: int| 0 <= i < n implies horner(g, #[trigger] xs[i]) % m == 0 by {
        lemma_horner_zip_sub(interpolant(xs, cs, n, n), p, xs[i]);
        lemma_interpolant(xs, cs, n, n, xs[i]);
        lemma_weighted_at_point(xs, cs, n, n, i);
        let d = differences(xs, i, n);
        assert(invertible(d));
        let w = choose|w: int| is_inverse(d, w);
        lemma_fmul_laws(d, w, 0);
        lemma_finv_is(d % m, w);
        let u = finv(d % m);
        let v = horner(p, xs[i]);
        // (v * u) * d - v == v * (u * d - 1), and u * d is one modulo m
        assert(cs[i] * d == v * (u * d)) by (nonlinear_arith)
            requires
                cs[i] == v * u,
        ;
        lemma_fmul_laws(u, d, 0);
        lemma_mul_mod_noop_general(v, u * d, m);
        assert(v * 1 == v);
        lemma_sub_mod_noop(cs[i] * d, v, m);
        assert((v % m - v % m) % m == 0) by {
            lemma_small_mod(0, m as nat);
        }
    }
    lemma_weights_differences(xs);
    lemma_roots_vanish(g, xs, n, 0);
    lemma_horner_zip_sub(interpolant(xs, cs, n, n), p, 0);
    lemma_weighted_is_combination(xs, vs, n);
    let s = weighted(xs, cs, n, n, 0);
    let f = horner(p, 0);
    // (s - f) % m == 0, so s % m == f % m
    lemma_sub_mod_noop(s, f, m);
    lemma_mod_twice(s, m);
    lemma_mod_twice(f, m);
    assert((s % m - f % m) % m == 0);
    lemma_same_residue(s % m, f % m);
}

/// Two residues whose difference is zero modulo `q` are the same.
pub proof fn lemma_same_residue(a: int, b: int)
    requires
        0 <= a < modulus(),
        0 <= b < modulus(),
        (a - b) % modulus() == 0,
    ensures
        a == b,
{
    crate::field::lemma_fsub_zero(a, b);
}

/// Combinations of values that agree modulo `q` agree modulo `q`.
pub proof fn lemma_combination_congruent(xs: Seq<int>, vs: Seq<int>, ws: Seq<int>, n: int)
    requires
        forall|k: int| 0 <= k < n ==> #[trigger] vs[k] % modulus() == ws[k] % modulus(),
    ensures
        combination(xs, vs, n) % modulus() == combination(xs, ws, n) % modulus(),
    decreases n,
{
    let m = modulus();
    if n > 0 {
        lemma_combination_congruent(xs, vs, ws, n - 1);
        let l = lagrange_at_zero(xs, n - 1);
        assert(vs[n - 1] % m == ws[n - 1] % m);
        lemma_mul_mod_noop_general(l, vs[n - 1], m);
        lemma_mul_mod_noop_general(l, ws[n - 1], m);
        lemma_add_mod_noop(combination(xs, vs, n - 1), l * vs[n - 1], m);
        lemma_add_mod_noop(combination(xs, ws, n - 1), l * ws[n - 1], m);
    }
}

/// Every residue but zero has an inverse modulo `q`, as in a field.
pub open spec fn residues_invertible() -> bool {
    forall|a: int| 0 < a < modulus() ==> invertible(a)
}

/// The product of two numbers that have inverses has one.
pub proof fn lemma_product_invertible(a: int, b: int)
    requires
        invertible(a),
        invertible(b),
    ensures
        invertible(a * b),
{
    let m = modulus();
    let u = choose|u: int| is_inverse(a, u);
    let w = choose|w: int| is_inverse(b, w);
    assert((a * b) * (u * w) == (a * u) * (b * w)) by (nonlinear_arith);
    lemma_mul_mod_noop_general(a * u, b * w, m);
    lemma_fmul_laws(a * b, u * w, 0);
    assert(1 * 1 == 1);
    lemma_small_mod(1, m as nat);
    assert(is_inverse(a * b, (u * w) % m));
}

/// In a field the weights exist for any reduced points that are distinct.
pub proof fn law_distinct_weights_exist(xs: Seq<int>)
    requires
        residues_invertible(),
        crate::algebra::distinct(xs),
        crate::algebra::reduced(xs),
    ensures
        weights_exist(xs),
{
    let n = xs.len() as int;
    assert forall|k: int| 0 <= k < xs.len() implies invertible(
        #[trigger] differences(xs, k, n),
    ) by {
        lemma_differences_product_invertible(xs, k, n);
    }
}

/// In a field the product of the differences between one of distinct reduced points and the
/// first `n` others has an inverse.
proof fn lemma_differences_product_invertible(xs: Seq<int>, k: int, n: int)
    requires
        residues_invertible(),
        crate::algebra::distinct(xs),
        crate::algebra::reduced(xs),
        0 <= k < xs.len(),
        0 <= n <= xs.len(),
    ensures
        invertible(differences(xs, k, n)),
    decreases n,
{
    let m = modulus();
    if n == 0 {
        lemma_small_mod(1, m as nat);
        assert(1 * 1 == 1);
        assert(is_inverse(1, 1));
    } else {
        lemma_differences_product_invertible(xs, k, n - 1);
        if n - 1 != k {
            let d = xs[n - 1] - xs[k];
            assert(xs[n - 1] != xs[k]) by {
                if n - 1 < k {
                    assert(xs[n - 1] != xs[k]);
                } else {
                    assert(xs[k] != xs[n - 1]);
                }
            }
            assert(0 <= xs[n - 1] < m && 0 <= xs[k] < m);
            // the residue of the difference is not zero, so it has an inverse, and so has
            // the difference
            let r = d % m;
            if r == 0 {
                crate::field::lemma_fsub_zero(xs[n - 1], xs[k]);
            }
            lemma_mod_twice(d, m);
            vstd::arithmetic::div_mod::lemma_mod_bound(d, m);
            assert(invertible(r));
            let u = choose|u: int| is_inverse(r, u);
            lemma_fmul_laws(d, u, 0);
            assert(is_inverse(d, u));
            lemma_product_invertible(differences(xs, k, n - 1), d);
        }
    }
}

/// Points for which the weights exist are distinct.
pub proof fn lemma_weights_distinct(xs: Seq<int>)
    requires
        weights_exist(xs),
    ensures
        crate::algebra::distinct(xs),
{
    let n = xs.len() as int;
    assert forall|i: int, j: int| 0 <= i < j < xs.len() implies xs[i] != xs[j] by {
        assert(invertible(differences(xs, j, n)));
        lemma_differences_invertible(xs, j, n, i);
        if xs[i] == xs[j] {
            let u = choose|u: int| is_inverse(0, u);
            assert(0 * u == 0);
            lemma_small_mod(0, modulus() as nat);
        }
    }
}

/// The shares that the holders of the values of a polynomial at the points `xs` make of `h`
/// combine to what the holder of the polynomial's value at zero makes of it: where the
/// polynomial has no more coefficients than there are points, the Lagrange combination of
/// `h * p(xs[k])` is `h * p(0)`.
pub proof fn law_shares_combine(p: Seq<int>, xs: Seq<int>, h: int)
    requires
        p.len() <= xs.len(),
        weights_exist(xs),
    ensures
        combination(
            xs,
            Seq::new(xs.len(), |k: int| fmul(h, poly_eval(p, xs[k]))),
            xs.len() as int,
        ) % modulus() == fmul(h, poly_eval(p, 0)),
{
    let m = modulus();
    let n = xs.len() as int;
    let hp = scaled(p, h);
    let shares = Seq::new(xs.len(), |k: int| fmul(h, poly_eval(p, xs[k])));
    let values = Seq::new(xs.len(), |k: int| horner(hp, xs[k]));
    lemma_reconstruction(hp, xs);
    assert forall|k: int| 0 <= k < n implies #[trigger] shares[k] % m == values[k] % m by {
        lemma_horner_scaled(p, h, xs[k]);
        lemma_fmul_laws(h, horner(p, xs[k]), 0);
        lemma_mod_twice(h * horner(p, xs[k]), m);
    }
    lemma_combination_congruent(xs, shares, values, n);
    lemma_horner_scaled(p, h, 0);
    lemma_fmul_laws(h, horner(p, 0), 0);
}

} // verus!
