//! What the values of a polynomial say about its coefficients: the values
//! determine the coefficients, and bounded values mean bounded coefficients.

use vstd::prelude::*;
use crate::eval::lemma_eval_linear;
use crate::index::{
    is_order, lemma_order_step, lemma_orders, lemma_within_halves, lemma_within_zero,
};
use crate::poly::{boolean_valued, eval, term_at};
use crate::sums::{lemma_sum_ext, lemma_sum_split, lemma_sum_zero, sum};

verus! {

/// `w` doubled `v - 1` times: the width that an interval of values of width
/// `w` leaves to the coefficients of a polynomial over `v` variables.
pub open spec fn span(w: int, v: nat) -> int
    decreases v,
{
    if v <= 1 {
        w
    } else {
        2 * span(w, (v - 1) as nat)
    }
}

/// A width that is not negative does not shrink by doubling.
pub proof fn lemma_span_grows(w: int, v: nat)
    requires
        w >= 0,
    ensures
        span(w, v) >= w,
        span(w, v + 1) >= span(w, v),
    decreases v,
{
    if v > 1 {
        lemma_span_grows(w, (v - 1) as nat);
    }
}

/// A polynomial over `v + 1` variables, split into the terms without the
/// last variable (`low`) and those with it (`high`): where the last variable
/// is 0 it has the value of `low`, and where it is 1 the value of `low` plus
/// that of `high`.
pub proof fn lemma_eval_halves(p: Seq<int>, h: usize, v: usize, x: usize, y: usize)
    requires
        is_order(h, v),
        v < 8,
        p.len() == h + h,
        x < h,
        y == x + h,
    ensures
        eval(p, x) == eval(p.subrange(0, h as int), x),
        eval(p, y) == eval(p.subrange(0, h as int), x) + eval(p.subrange(h as int, h + h), x),
{
    lemma_orders(h, v);
    let hn = h as nat;
    let low = p.subrange(0, h as int);
    let high = p.subrange(h as int, h + h);
    let upper_x = |i: int| term_at(p, x)(h + i);
    let upper_y = |i: int| term_at(p, y)(h + i);
    lemma_sum_split(term_at(p, x), upper_x, hn, hn);
    assert forall|i: int| 0 <= i < hn implies #[trigger] term_at(p, x)(i) == term_at(low, x)(i) by {}
    lemma_sum_ext(term_at(p, x), term_at(low, x), hn);
    assert forall|i: int| 0 <= i < hn implies #[trigger] upper_x(i) == 0 by {
        lemma_within_halves(i as usize, x, (i + h) as usize, y, h, v);
    }
    lemma_sum_zero(upper_x, hn);
    lemma_sum_split(term_at(p, y), upper_y, hn, hn);
    assert forall|i: int| 0 <= i < hn implies #[trigger] term_at(p, y)(i) == term_at(low, x)(i) by {
        lemma_within_halves(i as usize, x, (i + h) as usize, y, h, v);
    }
    lemma_sum_ext(term_at(p, y), term_at(low, x), hn);
    assert forall|i: int| 0 <= i < hn implies #[trigger] upper_y(i) == term_at(high, x)(i) by {
        lemma_within_halves(i as usize, x, (i + h) as usize, y, h, v);
    }
    lemma_sum_ext(upper_y, term_at(high, x), hn);
}

/// Where every value of a polynomial lies between `lo` and `hi`, so does its
/// constant term, and every other coefficient is at most `span(hi - lo, v)`
/// in absolute value.
pub proof fn lemma_coefficient_range(p: Seq<int>, n: usize, v: usize, lo: int, hi: int)
    requires
        is_order(n, v),
        p.len() == n,
        forall|x: usize| x < n ==> lo <= #[trigger] eval(p, x) <= hi,
    ensures
        lo <= p[0] <= hi,
        forall|i: int|
            1 <= i < n ==> -span(hi - lo, v as nat) <= #[trigger] p[i] <= span(hi - lo, v as nat),
    decreases v,
{
    lemma_orders(n, v);
    if v == 0 {
        let f = term_at(p, 0);
        lemma_within_zero(0, 0);
        assert(sum(f, 1) == sum(f, 0) + f(0));
        assert(eval(p, 0) == p[0]);
    } else {
        let h = (n / 2) as usize;
        let u = (v - 1) as usize;
        lemma_order_step(n, v);
        let low = p.subrange(0, h as int);
        let high = p.subrange(h as int, h + h);
        let both = Seq::new(h as nat, |i: int| low[i] + high[i]);
        assert forall|x: usize| x < h implies lo <= #[trigger] eval(low, x) <= hi by {
            let y = (x + h) as usize;
            lemma_eval_halves(p, h, u, x, y);
            assert(lo <= eval(p, x) <= hi);
        }
        assert forall|x: usize| x < h implies lo <= #[trigger] eval(both, x) <= hi by {
            let y = (x + h) as usize;
            lemma_eval_halves(p, h, u, x, y);
            lemma_eval_linear(both, 1, low, 1, high, x);
            assert(lo <= eval(p, y) <= hi);
        }
        lemma_coefficient_range(low, h, u, lo, hi);
        lemma_coefficient_range(both, h, u, lo, hi);
        lemma_span_grows(hi - lo, u as nat);
        assert(p[0] == low[0]);
        assert forall|i: int| 1 <= i < n implies -span(hi - lo, v as nat) <= #[trigger] p[i]
            <= span(hi - lo, v as nat) by {
            if i < h {
                assert(p[i] == low[i]);
            } else {
                let k = i - h;
                assert(p[i] == high[k]);
                assert(both[k] == low[k] + high[k]);
                if k > 0 {
                    assert(-span(hi - lo, u as nat) <= low[k] <= span(hi - lo, u as nat));
                    assert(-span(hi - lo, u as nat) <= both[k] <= span(hi - lo, u as nat));
                }
            }
        }
    }
}

/// A polynomial is determined by its values: two polynomials that agree
/// under every assignment have the same coefficients.
pub proof fn lemma_values_determine(a: Seq<int>, b: Seq<int>, n: usize, v: usize)
    requires
        is_order(n, v),
        a.len() == n,
        b.len() == n,
        forall|x: usize| x < n ==> #[trigger] eval(a, x) == eval(b, x),
    ensures
        a == b,
{
    let d = Seq::new(n as nat, |i: int| a[i] - b[i]);
    assert forall|x: usize| x < n implies 0 <= #[trigger] eval(d, x) <= 0 by {
        lemma_eval_linear(d, 1, a, -1, b, x);
        assert(eval(a, x) == eval(b, x));
    }
    lemma_coefficient_range(d, n, v, 0, 0);
    lemma_span_zero(v as nat);
    assert forall|i: int| 0 <= i < n implies a[i] == b[i] by {
        assert(d[i] == a[i] - b[i]);
        if i > 0 {
            assert(-span(0, v as nat) <= d[i] <= span(0, v as nat));
        }
    }
    assert(a =~= b);
}

/// Doubling zero leaves zero.
pub proof fn lemma_span_zero(v: nat)
    ensures
        span(0, v) == 0,
    decreases v,
{
    if v > 1 {
        lemma_span_zero((v - 1) as nat);
    }
}

/// The coefficients of a polynomial that stands for a boolean function are
/// small: the constant term is 0 or 1, and no coefficient exceeds 128 in
/// absolute value.
pub proof fn lemma_boolean_coefficients(p: Seq<int>, n: usize, v: usize)
    requires
        is_order(n, v),
        p.len() == n,
        boolean_valued(p),
    ensures
        p[0] == 0 || p[0] == 1,
        forall|i: int| 0 <= i < n ==> -128 <= #[trigger] p[i] <= 128,
{
    assert forall|x: usize| x < n implies 0 <= #[trigger] eval(p, x) <= 1 by {}
    lemma_coefficient_range(p, n, v, 0, 1);
    reveal_with_fuel(span, 9);
    assert(span(1, v as nat) <= 128);
    assert forall|i: int| 0 <= i < n implies -128 <= #[trigger] p[i] <= 128 by {
        if i > 0 {
            assert(-span(1, v as nat) <= p[i] <= span(1, v as nat));
        }
    }
}

} // verus!
