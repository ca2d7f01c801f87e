//! How evaluation acts on the operations of the algebra.

use vstd::prelude::*;
use crate::index::{
    has_variable, is_order, join, lemma_join_bound, lemma_join_within, lemma_single,
    lemma_within_zero, single, within,
};
use crate::poly::{
    eval, pair_term, poly_mul, poly_not, poly_or, poly_var, poly_xor, poly_zero, row_term,
    term_at,
};
use crate::sums::{
    lemma_sum_add, lemma_sum_ext, lemma_sum_scale, lemma_sum_single, lemma_sum_swap,
    lemma_sum_zero, sum,
};

verus! {

/// The zero polynomial evaluates to 0.
pub proof fn lemma_eval_zero(n: nat, x: usize)
    ensures
        eval(poly_zero(n), x) == 0,
{
    lemma_sum_zero(term_at(poly_zero(n), x), n);
}

/// A variable evaluates to what the assignment gives it.
pub proof fn lemma_eval_var(n: usize, v: usize, z: usize, x: usize)
    requires
        is_order(n, v),
        z < v,
    ensures
        eval(poly_var(n as nat, z), x) == if has_variable(x, z) { 1int } else { 0int },
{
    let p = poly_var(n as nat, z);
    lemma_single(z, 0, x, n, v);
    lemma_sum_single(term_at(p, x), single(z) as int, n as nat);
}

/// Evaluation is additive: where `c = s * a + t * b` coefficient by
/// coefficient, the value of `c` is `s` times that of `a` plus `t` times that
/// of `b`.
pub proof fn lemma_eval_linear(c: Seq<int>, s: int, a: Seq<int>, t: int, b: Seq<int>, x: usize)
    requires
        a.len() == c.len(),
        b.len() == c.len(),
        forall|i: int| 0 <= i < c.len() ==> #[trigger] c[i] == s * a[i] + t * b[i],
    ensures
        eval(c, x) == s * eval(a, x) + t * eval(b, x),
{
    let n = c.len();
    let sa = |i: int| s * term_at(a, x)(i);
    let tb = |i: int| t * term_at(b, x)(i);
    assert forall|i: int| 0 <= i < n implies #[trigger] term_at(c, x)(i) == sa(i) + tb(i) by {
        assert(c[i] == s * a[i] + t * b[i]);
        assert(s * 0 + t * 0 == 0) by (nonlinear_arith);
    }
    lemma_sum_add(term_at(c, x), sa, tb, n);
    lemma_sum_scale(sa, s, term_at(a, x), n);
    lemma_sum_scale(tb, t, term_at(b, x), n);
}

/// Evaluation is multiplicative: the value of a product is the product of
/// the values.
pub proof fn lemma_eval_mul(a: Seq<int>, b: Seq<int>, n: usize, v: usize, x: usize)
    requires
        is_order(n, v),
        a.len() == n,
        b.len() == n,
    ensures
        eval(poly_mul(a, b), x) == eval(a, x) * eval(b, x),
{
    let m = poly_mul(a, b);
    let nn = n as nat;
    let ea = eval(a, x);
    let eb = eval(b, x);
    // What the pair (i, j) gives to the value of the product through term k.
    let g = |k: int, i: int, j: int|
        if within(k as usize, x) && join(i as usize, j as usize) == k {
            a[i] * b[j]
        } else {
            0int
        };
    let h = |k: int, i: int| sum(|j: int| g(k, i, j), nn);
    let by_term = term_at(m, x);
    let by_left = |i: int| sum(|k: int| h(k, i), nn);
    assert forall|k: int| 0 <= k < nn implies #[trigger] by_term(k) == sum(
        |i: int| h(k, i),
        nn,
    ) by {
        let hk = |i: int| h(k, i);
        if within(k as usize, x) {
            assert forall|i: int| 0 <= i < nn implies #[trigger] row_term(a, b, k)(i) == hk(i) by {
                lemma_sum_ext(pair_term(a, b, k, i), |j: int| g(k, i, j), nn);
            }
            lemma_sum_ext(row_term(a, b, k), hk, nn);
        } else {
            assert forall|i: int| 0 <= i < nn implies #[trigger] hk(i) == 0 by {
                lemma_sum_zero(|j: int| g(k, i, j), nn);
            }
            lemma_sum_zero(hk, nn);
        }
    }
    lemma_sum_swap(by_term, by_left, h, nn, nn);
    assert forall|i: int| 0 <= i < nn implies #[trigger] by_left(i) == eb * term_at(a, x)(i) by {
        let ai = term_at(a, x)(i);
        let gi = |k: int, j: int| g(k, i, j);
        let over_k = |k: int| h(k, i);
        let over_j = |j: int| sum(|k: int| gi(k, j), nn);
        assert forall|k: int| 0 <= k < nn implies #[trigger] over_k(k) == sum(
            |j: int| gi(k, j),
            nn,
        ) by {
            lemma_sum_ext(|j: int| g(k, i, j), |j: int| gi(k, j), nn);
        }
        lemma_sum_swap(over_k, over_j, gi, nn, nn);
        assert forall|j: int| 0 <= j < nn implies #[trigger] over_j(j) == ai * term_at(b, x)(j) by {
            let c = join(i as usize, j as usize);
            lemma_join_bound(i as usize, j as usize, n, v);
            lemma_join_within(i as usize, j as usize, x);
            lemma_sum_single(|k: int| gi(k, j), c as int, nn);
            assert(a[i] * 0 == 0 && 0 * b[j] == 0 && 0 * 0 == 0) by (nonlinear_arith);
        }
        lemma_sum_scale(over_j, ai, term_at(b, x), nn);
        assert(ai * eb == eb * ai) by (nonlinear_arith);
    }
    lemma_sum_scale(by_left, eb, term_at(a, x), nn);
    assert(eb * ea == ea * eb) by (nonlinear_arith);
}

/// The negation evaluates to one minus the value.
pub proof fn lemma_eval_not(a: Seq<int>, x: usize)
    requires
        a.len() > 0,
    ensures
        eval(poly_not(a), x) == 1 - eval(a, x),
{
    let n = a.len();
    let r = poly_not(a);
    let one = Seq::new(n, |k: int| if k == 0 { 1int } else { 0int });
    lemma_within_zero(0, x);
    lemma_sum_single(term_at(one, x), 0, n);
    assert forall|i: int| 0 <= i < n implies #[trigger] r[i] == 1 * one[i] + (-1) * a[i] by {}
    lemma_eval_linear(r, 1, one, -1, a, x);
}

/// The disjunction evaluates to `a + b - ab` of the values.
pub proof fn lemma_eval_or(a: Seq<int>, b: Seq<int>, n: usize, v: usize, x: usize)
    requires
        is_order(n, v),
        a.len() == n,
        b.len() == n,
    ensures
        eval(poly_or(a, b), x) == eval(a, x) + eval(b, x) - eval(a, x) * eval(b, x),
{
    let m = poly_mul(a, b);
    let s = Seq::new(n as nat, |k: int| a[k] + b[k]);
    lemma_eval_mul(a, b, n, v, x);
    lemma_eval_linear(s, 1, a, 1, b, x);
    lemma_eval_linear(poly_or(a, b), -1, m, 1, s, x);
}

/// The exclusive disjunction evaluates to `a + b - 2ab` of the values.
pub proof fn lemma_eval_xor(a: Seq<int>, b: Seq<int>, n: usize, v: usize, x: usize)
    requires
        is_order(n, v),
        a.len() == n,
        b.len() == n,
    ensures
        eval(poly_xor(a, b), x) == eval(a, x) + eval(b, x) - 2 * (eval(a, x) * eval(b, x)),
{
    let m = poly_mul(a, b);
    let s = Seq::new(n as nat, |k: int| a[k] + b[k]);
    lemma_eval_mul(a, b, n, v, x);
    lemma_eval_linear(s, 1, a, 1, b, x);
    lemma_eval_linear(poly_xor(a, b), -2, m, 1, s, x);
}

} // verus!
