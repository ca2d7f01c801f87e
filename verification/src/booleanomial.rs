//! Boolean functions as multilinear integer polynomials, and the boolean
//! connectives on them.

use vstd::prelude::*;
use crate::bounds::lemma_boolean_coefficients;
use crate::eval::{
    lemma_eval_mul, lemma_eval_not, lemma_eval_or, lemma_eval_var, lemma_eval_xor, lemma_eval_zero,
};
use crate::index::{is_order, lemma_join_bound, lemma_orders, lemma_single, variable_count};
use crate::order::{BoolyOrder, GoodBooly};
use crate::poly::{
    boolean_valued, coefficients, eval, holds, pair_term, poly_and, poly_mul, poly_not, poly_or,
    poly_var, poly_xor, poly_zero, row_term, term_at,
};
use crate::render::{format_polynomial, render};
use crate::sums::sum;

verus! {

/// A Booleanomial of `N` terms.
///
/// Has `N` terms and `log2(N)` variables. For example, a `Booleanomial<4>`
/// has four terms and two variables, so it can represent a XOR b, which is
/// a + b - 2ab.
///
/// A Booleanomial of `v` variables needs only `2^v` terms, because a power
/// of a variable is the variable itself: b^2 = b holds for b = 0 and for
/// b = 1. So every term holds each variable once or not at all.
pub struct Booleanomial<const N: usize> where BoolyOrder<N>: GoodBooly<N> {
    /// The coefficients of the `N` terms.
    ///
    /// Bit `k` of an index is 1 if the term it stands for holds variable
    /// `k`. The term 2abc has index 111b = 7, so `coeffs[7]` is 2; the term
    /// 3ac has index 101b = 5, so `coeffs[5]` is 3.
    coeffs: Vec<i32>,
}

/// Why a `Booleanomial` could not be made.
///
/// A term count that is not a power of two from 1 to 256, and two operands
/// of different term counts, are no values of this type: neither can be
/// written down, since `Booleanomial<N>` exists only for the `N` for which
/// `BoolyOrder<N>` implements `GoodBooly<N>`, and every connective takes two
/// operands of one `N`.
#[derive(Debug, Clone, Copy, PartialEq, Eq)]
pub enum BoolyError {
    /// The variable asked for is not among the `log2(N)` variables of a
    /// polynomial of `N` terms.
    OutOfRange,
}

/// A vector of `n` zeros.
fn zeros(n: usize) -> (r: Vec<i32>)
    ensures
        r@.len() == n,
        forall|i: int| 0 <= i < n ==> r@[i] == 0,
{
    let mut r: Vec<i32> = Vec::new();
    let mut i: usize = 0;
    while i < n
        invariant
            i <= n,
            r@.len() == i,
            forall|k: int| 0 <= k < i ==> r@[k] == 0,
        decreases n - i,
    {
        r.push(0);
        i += 1;
    }
    r
}

impl<const N: usize> Booleanomial<N> where BoolyOrder<N>: GoodBooly<N> {
    /// Every value of this type has `N` coefficients and stands for a boolean
    /// function.
    #[verifier::type_invariant]
    spec fn well_formed(self) -> bool {
        self.coeffs@.len() == N && boolean_valued(self@)
    }

    /// The polynomial: its coefficients, indexed by monomial.
    pub closed spec fn view(&self) -> Seq<int> {
        coefficients(self.coeffs@)
    }

    /// Create a new `Booleanomial` with a value of 0 (y = 0).
    pub fn new_false() -> (r: Self)
        ensures
            r@ == poly_zero(N as nat),
            boolean_valued(r@),
    {
        let coeffs = zeros(N);
        proof {
            assert(coefficients(coeffs@) =~= poly_zero(N as nat));
            assert forall|x: usize| x < N implies #[trigger] eval(poly_zero(N as nat), x) == 0 by {
                lemma_eval_zero(N as nat, x);
            }
        }
        Booleanomial { coeffs }
    }

    /// Create a new `Booleanomial` which is 1 when the `z`th variable is 1
    /// (y = z).
    pub fn new(z: usize) -> (r: Self)
        requires
            z < variable_count(N as nat),
        ensures
            r@ == poly_var(N as nat, z),
            boolean_valued(r@),
    {
        let v = <BoolyOrder<N> as GoodBooly<N>>::value();
        let mut coeffs = zeros(N);
        proof {
            lemma_single(z, 0, 0, N, v);
        }
        let s: usize = 1usize << z;
        coeffs.set(s, 1);
        proof {
            assert(coefficients(coeffs@) =~= poly_var(N as nat, z));
            assert forall|x: usize| x < N implies #[trigger] eval(poly_var(N as nat, z), x) == 0
                || eval(poly_var(N as nat, z), x) == 1 by {
                lemma_eval_var(N, v, z, x);
            }
        }
        Booleanomial { coeffs }
    }

    /// Create the `Booleanomial` of the `z`th variable, or report that `N`
    /// terms hold no such variable.
    pub fn try_new(z: usize) -> (r: Result<Self, BoolyError>)
        ensures
            z < variable_count(N as nat) ==> r is Ok && r.unwrap()@ == poly_var(N as nat, z)
                && boolean_valued(r.unwrap()@),
            z >= variable_count(N as nat) ==> r matches Err(BoolyError::OutOfRange),
    {
        let v = <BoolyOrder<N> as GoodBooly<N>>::value();
        if z < v {
            Ok(Self::new(z))
        } else {
            Err(BoolyError::OutOfRange)
        }
    }

    /// Compute the product of two booleanomials.
    ///
    /// The bits of an index tell which variables are in the term, so the
    /// product of term `i` and term `j` is the term whose index is the
    /// bitwise or of the two. For 3ab * 2bc = 6abc, 011 | 110 = 111.
    pub fn mul(&self, other: &Self) -> (r: Self)
        ensures
            r@ == poly_mul(self@, other@),
            boolean_valued(r@),
    {
        let v = <BoolyOrder<N> as GoodBooly<N>>::value();
        let ghost a = self@;
        let ghost b = other@;
        proof {
            use_type_invariant(self);
            use_type_invariant(other);
            lemma_orders(N, v);
            lemma_boolean_coefficients(a, N, v);
            lemma_boolean_coefficients(b, N, v);
        }
        let mut coeffs = zeros(N);
        let ghost mut count: int = 0;
        let mut i: usize = 0;
        while i < N
            invariant
                is_order(N, v),
                N <= 256,
                i <= N,
                coeffs@.len() == N,
                self.coeffs@.len() == N,
                other.coeffs@.len() == N,
                a == self@,
                b == other@,
                forall|k: int| 0 <= k < N ==> -128 <= #[trigger] a[k] <= 128,
                forall|k: int| 0 <= k < N ==> -128 <= #[trigger] b[k] <= 128,
                0 <= count <= i * 256,
                forall|k: int|
                    0 <= k < N ==> -count * 16384 <= #[trigger] coeffs@[k] <= count * 16384,
                forall|k: int|
                    0 <= k < N ==> #[trigger] coeffs@[k] as int == sum(
                        row_term(a, b, k),
                        i as nat,
                    ),
            decreases N - i,
        {
            let mut j: usize = 0;
            while j < N
                invariant
                    is_order(N, v),
                    N <= 256,
                    i < N,
                    j <= N,
                    coeffs@.len() == N,
                    self.coeffs@.len() == N,
                    other.coeffs@.len() == N,
                    a == self@,
                    b == other@,
                    forall|k: int| 0 <= k < N ==> -128 <= #[trigger] a[k] <= 128,
                    forall|k: int| 0 <= k < N ==> -128 <= #[trigger] b[k] <= 128,
                    0 <= count <= i * 256 + j,
                    forall|k: int|
                        0 <= k < N ==> -count * 16384 <= #[trigger] coeffs@[k] <= count * 16384,
                    forall|k: int|
                        0 <= k < N ==> #[trigger] coeffs@[k] as int == sum(
                            row_term(a, b, k),
                            i as nat,
                        ) + sum(pair_term(a, b, k, i as int), j as nat),
                decreases N - j,
            {
                proof {
                    lemma_join_bound(i, j, N, v);
                    let x = a[i as int];
                    let y = b[j as int];
                    assert(-16384 <= x * y <= 16384) by (nonlinear_arith)
                        requires
                            -128 <= x <= 128,
                            -128 <= y <= 128,
                    ;
                }
                let k = i | j;
                let product = self.coeffs[i] * other.coeffs[j];
                let sum_so_far = coeffs[k];
                coeffs.set(k, sum_so_far + product);
                proof {
                    count = count + 1;
                }
                j += 1;
            }
            i += 1;
        }
        proof {
            assert(coefficients(coeffs@) =~= poly_mul(a, b));
            assert forall|x: usize| x < N implies #[trigger] eval(poly_mul(a, b), x) == 0 || eval(
                poly_mul(a, b),
                x,
            ) == 1 by {
                lemma_eval_mul(a, b, N, v, x);
                let ea = eval(a, x);
                let eb = eval(b, x);
                assert(ea * eb == 0 || ea * eb == 1) by (nonlinear_arith)
                    requires
                        ea == 0 || ea == 1,
                        eb == 0 || eb == 1,
                ;
            }
        }
        Booleanomial { coeffs }
    }

    /// Calculate the opposite of this booleanomial (1 -> 0, 0 -> 1), as
    /// 1 - x: the constant term is negated and 1 added to it, every other
    /// term is negated.
    pub fn not(&self) -> (r: Self)
        ensures
            r@ == poly_not(self@),
            boolean_valued(r@),
    {
        let v = <BoolyOrder<N> as GoodBooly<N>>::value();
        let ghost a = self@;
        proof {
            use_type_invariant(self);
            lemma_orders(N, v);
            lemma_boolean_coefficients(a, N, v);
        }
        let mut coeffs = zeros(N);
        coeffs.set(0, 1 - self.coeffs[0]);
        let mut i: usize = 1;
        while i < N
            invariant
                1 <= i <= N,
                coeffs@.len() == N,
                self.coeffs@.len() == N,
                a == self@,
                forall|k: int| 0 <= k < N ==> -128 <= #[trigger] a[k] <= 128,
                coeffs@[0] == 1 - a[0],
                forall|k: int| 1 <= k < i ==> #[trigger] coeffs@[k] == -a[k],
            decreases N - i,
        {
            proof {
                assert(-128 <= a[i as int] <= 128);
            }
            coeffs.set(i, -self.coeffs[i]);
            i += 1;
        }
        proof {
            assert(coefficients(coeffs@) =~= poly_not(a));
            assert forall|x: usize| x < N implies #[trigger] eval(poly_not(a), x) == 0 || eval(
                poly_not(a),
                x,
            ) == 1 by {
                lemma_eval_not(a, x);
                assert(eval(a, x) == 0 || eval(a, x) == 1);
            }
        }
        Booleanomial { coeffs }
    }

    /// Calculate the booleanomial that is 1 if both input booleanomials are
    /// 1: a AND b = ab.
    pub fn and(&self, other: &Self) -> (r: Self)
        ensures
            r@ == poly_and(self@, other@),
            boolean_valued(r@),
    {
        self.mul(other)
    }

    /// Calculate the booleanomial that is 0 if both input booleanomials are
    /// 0: a OR b = a + b - ab.
    pub fn or(&self, other: &Self) -> (r: Self)
        ensures
            r@ == poly_or(self@, other@),
            boolean_valued(r@),
    {
        let v = <BoolyOrder<N> as GoodBooly<N>>::value();
        let product = self.mul(other);
        let ghost a = self@;
        let ghost b = other@;
        let ghost m = product@;
        proof {
            use_type_invariant(self);
            use_type_invariant(other);
            use_type_invariant(&product);
            lemma_orders(N, v);
            lemma_boolean_coefficients(a, N, v);
            lemma_boolean_coefficients(b, N, v);
            lemma_boolean_coefficients(m, N, v);
        }
        let mut coeffs = product.coeffs;
        let mut i: usize = 0;
        while i < N
            invariant
                i <= N,
                coeffs@.len() == N,
                self.coeffs@.len() == N,
                other.coeffs@.len() == N,
                a == self@,
                b == other@,
                m.len() == N,
                forall|k: int| 0 <= k < N ==> -128 <= #[trigger] a[k] <= 128,
                forall|k: int| 0 <= k < N ==> -128 <= #[trigger] b[k] <= 128,
                forall|k: int| 0 <= k < N ==> -128 <= #[trigger] m[k] <= 128,
                forall|k: int| 0 <= k < i ==> #[trigger] coeffs@[k] == -m[k] + a[k] + b[k],
                forall|k: int| i <= k < N ==> #[trigger] coeffs@[k] == m[k],
            decreases N - i,
        {
            proof {
                assert(-128 <= a[i as int] <= 128);
                assert(-128 <= b[i as int] <= 128);
                assert(-128 <= m[i as int] <= 128);
            }
            let c = coeffs[i];
            coeffs.set(i, -c + self.coeffs[i] + other.coeffs[i]);
            i += 1;
        }
        proof {
            let r = poly_or(a, b);
            assert(coefficients(coeffs@) =~= r);
            assert forall|x: usize| x < N implies #[trigger] eval(r, x) == 0 || eval(r, x) == 1 by {
                lemma_eval_or(a, b, N, v, x);
                let ea = eval(a, x);
                let eb = eval(b, x);
                assert(ea * eb == 0 || (ea == 1 && eb == 1 && ea * eb == 1)) by (nonlinear_arith)
                    requires
                        ea == 0 || ea == 1,
                        eb == 0 || eb == 1,
                ;
            }
        }
        Booleanomial { coeffs }
    }

    /// Calculate the booleanomial that is 1 if exactly one input booleanomial
    /// is 1: a XOR b = a + b - 2ab.
    pub fn xor(&self, other: &Self) -> (r: Self)
        ensures
            r@ == poly_xor(self@, other@),
            boolean_valued(r@),
    {
        let v = <BoolyOrder<N> as GoodBooly<N>>::value();
        let product = self.mul(other);
        let ghost a = self@;
        let ghost b = other@;
        let ghost m = product@;
        proof {
            use_type_invariant(self);
            use_type_invariant(other);
            use_type_invariant(&product);
            lemma_orders(N, v);
            lemma_boolean_coefficients(a, N, v);
            lemma_boolean_coefficients(b, N, v);
            lemma_boolean_coefficients(m, N, v);
        }
        let mut coeffs = product.coeffs;
        let mut i: usize = 0;
        while i < N
            invariant
                i <= N,
                coeffs@.len() == N,
                self.coeffs@.len() == N,
                other.coeffs@.len() == N,
                a == self@,
                b == other@,
                m.len() == N,
                forall|k: int| 0 <= k < N ==> -128 <= #[trigger] a[k] <= 128,
                forall|k: int| 0 <= k < N ==> -128 <= #[trigger] b[k] <= 128,
                forall|k: int| 0 <= k < N ==> -128 <= #[trigger] m[k] <= 128,
                forall|k: int| 0 <= k < i ==> #[trigger] coeffs@[k] == -2 * m[k] + a[k] + b[k],
                forall|k: int| i <= k < N ==> #[trigger] coeffs@[k] == m[k],
            decreases N - i,
        {
            proof {
                assert(-128 <= a[i as int] <= 128);
                assert(-128 <= b[i as int] <= 128);
                assert(-128 <= m[i as int] <= 128);
            }
            let c = coeffs[i];
            coeffs.set(i, -2 * c + self.coeffs[i] + other.coeffs[i]);
            i += 1;
        }
        proof {
            let r = poly_xor(a, b);
            assert(coefficients(coeffs@) =~= r);
            assert forall|x: usize| x < N implies #[trigger] eval(r, x) == 0 || eval(r, x) == 1 by {
                lemma_eval_xor(a, b, N, v, x);
                let ea = eval(a, x);
                let eb = eval(b, x);
                assert(ea * eb == 0 || (ea == 1 && eb == 1 && ea * eb == 1)) by (nonlinear_arith)
                    requires
                        ea == 0 || ea == 1,
                        eb == 0 || eb == 1,
                ;
            }
        }
        Booleanomial { coeffs }
    }

    /// The value of the boolean function under assignment `x`, whose bit `k`
    /// is the value of variable `k`.
    pub fn evaluate(&self, x: usize) -> (r: bool)
        ensures
            r == holds(self@, x),
    {
        let v = <BoolyOrder<N> as GoodBooly<N>>::value();
        let ghost a = self@;
        proof {
            use_type_invariant(self);
            lemma_orders(N, v);
            lemma_boolean_coefficients(a, N, v);
        }
        let mut total: i32 = 0;
        let mut i: usize = 0;
        while i < N
            invariant
                N <= 256,
                i <= N,
                self.coeffs@.len() == N,
                a == self@,
                forall|k: int| 0 <= k < N ==> -128 <= #[trigger] a[k] <= 128,
                -128 * i <= total <= 128 * i,
                total == sum(term_at(a, x), i as nat),
            decreases N - i,
        {
            proof {
                assert(-128 <= a[i as int] <= 128);
            }
            if i & x == i {
                total = total + self.coeffs[i];
            }
            i += 1;
        }
        total == 1
    }

    /// The canonical text of the polynomial, such as `a + b - 2ab`.
    pub fn to_string(&self) -> (s: String)
        ensures
            s@ == render(self@, variable_count(N as nat)),
    {
        let v = <BoolyOrder<N> as GoodBooly<N>>::value();
        format_polynomial(&self.coeffs, v)
    }
}

} // verus!
