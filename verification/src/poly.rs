//! The mathematical model: a multilinear polynomial is the sequence of its
//! integer coefficients, indexed by monomial.

use vstd::prelude::*;
use crate::index::{within, join, single};
use crate::sums::sum;

verus! {

/// The coefficients held in a vector, as mathematical integers.
pub open spec fn coefficients(c: Seq<i32>) -> Seq<int> {
    Seq::new(c.len(), |i: int| c[i] as int)
}

/// The value that the monomials of `p` contribute under assignment `x`, as a
/// function of the monomial's index.
pub open spec fn term_at(p: Seq<int>, x: usize) -> spec_fn(int) -> int {
    |i: int|
        if within(i as usize, x) {
            p[i]
        } else {
            0
        }
}

/// The value of polynomial `p` under assignment `x`.
pub open spec fn eval(p: Seq<int>, x: usize) -> int {
    sum(term_at(p, x), p.len())
}

/// Whether `p` takes only the values 0 and 1, that is, whether it stands for a
/// boolean function.
pub open spec fn boolean_valued(p: Seq<int>) -> bool {
    forall|x: usize| x < p.len() ==> #[trigger] eval(p, x) == 0 || eval(p, x) == 1
}

/// Whether the boolean function that `p` stands for is true under
/// assignment `x`.
pub open spec fn holds(p: Seq<int>, x: usize) -> bool {
    eval(p, x) == 1
}

/// What the product of the `i`-th term of `a` with each term of `b` gives to
/// the `k`-th term of the product, as a function of the index into `b`.
pub open spec fn pair_term(a: Seq<int>, b: Seq<int>, k: int, i: int) -> spec_fn(int) -> int {
    |j: int|
        if join(i as usize, j as usize) == k {
            a[i] * b[j]
        } else {
            0
        }
}

/// What the `i`-th term of `a` times all of `b` gives to the `k`-th term of
/// the product, as a function of `i`.
pub open spec fn row_term(a: Seq<int>, b: Seq<int>, k: int) -> spec_fn(int) -> int {
    |i: int| sum(pair_term(a, b, k, i), b.len())
}

/// The `k`-th coefficient of the product of `a` and `b`: the sum of
/// `a[i] * b[j]` over all pairs of monomials whose product is monomial `k`.
pub open spec fn product_at(a: Seq<int>, b: Seq<int>, k: int) -> int {
    sum(row_term(a, b, k), a.len())
}

/// The product of two polynomials.
pub open spec fn poly_mul(a: Seq<int>, b: Seq<int>) -> Seq<int> {
    Seq::new(a.len(), |k: int| product_at(a, b, k))
}

/// The polynomial that is 0 everywhere.
pub open spec fn poly_zero(n: nat) -> Seq<int> {
    Seq::new(n, |k: int| 0int)
}

/// The polynomial of `n` terms that is variable `z`.
pub open spec fn poly_var(n: nat, z: usize) -> Seq<int> {
    Seq::new(n, |k: int| if k == single(z) { 1int } else { 0int })
}

/// The negation `1 - a`.
pub open spec fn poly_not(a: Seq<int>) -> Seq<int> {
    Seq::new(a.len(), |k: int| if k == 0 { 1 - a[0] } else { -a[k] })
}

/// The conjunction `ab`.
pub open spec fn poly_and(a: Seq<int>, b: Seq<int>) -> Seq<int> {
    poly_mul(a, b)
}

/// The disjunction `a + b - ab`.
pub open spec fn poly_or(a: Seq<int>, b: Seq<int>) -> Seq<int> {
    Seq::new(a.len(), |k: int| -product_at(a, b, k) + a[k] + b[k])
}

/// The exclusive disjunction `a + b - 2ab`.
pub open spec fn poly_xor(a: Seq<int>, b: Seq<int>) -> Seq<int> {
    Seq::new(a.len(), |k: int| -2 * product_at(a, b, k) + a[k] + b[k])
}

} // verus!
