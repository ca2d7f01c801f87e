//! The laws of the algebra: what holds of the connectives for all
//! polynomials, and of the text of the simplest ones.

use vstd::prelude::*;
use crate::bounds::lemma_values_determine;
use crate::eval::{
    lemma_eval_mul, lemma_eval_not, lemma_eval_or, lemma_eval_var, lemma_eval_xor,
    lemma_eval_zero,
};
use crate::index::{has_variable, is_order, lemma_no_variable, lemma_orders, lemma_single, single};
use crate::poly::{
    boolean_valued, eval, holds, poly_and, poly_not, poly_or, poly_var, poly_xor, poly_zero,
};
use crate::render::{letter, letters, no_terms, render, render_terms, term_text};

verus! {

/// Double negation: the negation of the negation of a polynomial is the
/// polynomial itself, coefficient by coefficient.
pub proof fn lemma_double_negation(x: Seq<int>)
    ensures
        poly_not(poly_not(x)) == x,
{
    assert(poly_not(poly_not(x)) =~= x);
}

/// De Morgan: the negation of a disjunction is the conjunction of the
/// negations.
pub proof fn lemma_de_morgan_or(a: Seq<int>, b: Seq<int>, n: usize, v: usize)
    requires
        is_order(n, v),
        a.len() == n,
        b.len() == n,
    ensures
        poly_not(poly_or(a, b)) == poly_and(poly_not(a), poly_not(b)),
{
    lemma_orders(n, v);
    let left = poly_not(poly_or(a, b));
    let right = poly_and(poly_not(a), poly_not(b));
    assert forall|x: usize| x < n implies #[trigger] eval(left, x) == eval(right, x) by {
        lemma_eval_or(a, b, n, v, x);
        lemma_eval_not(poly_or(a, b), x);
        lemma_eval_not(a, x);
        lemma_eval_not(b, x);
        lemma_eval_mul(poly_not(a), poly_not(b), n, v, x);
        let ea = eval(a, x);
        let eb = eval(b, x);
        assert(1 - (ea + eb - ea * eb) == (1 - ea) * (1 - eb)) by (nonlinear_arith);
    }
    lemma_values_determine(left, right, n, v);
}

/// De Morgan: the negation of a conjunction is the disjunction of the
/// negations.
pub proof fn lemma_de_morgan_and(a: Seq<int>, b: Seq<int>, n: usize, v: usize)
    requires
        is_order(n, v),
        a.len() == n,
        b.len() == n,
    ensures
        poly_not(poly_and(a, b)) == poly_or(poly_not(a), poly_not(b)),
{
    lemma_orders(n, v);
    let left = poly_not(poly_and(a, b));
    let right = poly_or(poly_not(a), poly_not(b));
    assert forall|x: usize| x < n implies #[trigger] eval(left, x) == eval(right, x) by {
        lemma_eval_mul(a, b, n, v, x);
        lemma_eval_not(poly_and(a, b), x);
        lemma_eval_not(a, x);
        lemma_eval_not(b, x);
        lemma_eval_or(poly_not(a), poly_not(b), n, v, x);
        let ea = eval(a, x);
        let eb = eval(b, x);
        assert(1 - ea * eb == (1 - ea) + (1 - eb) - (1 - ea) * (1 - eb)) by (nonlinear_arith);
    }
    lemma_values_determine(left, right, n, v);
}

/// Conjunction is commutative.
pub proof fn lemma_and_commutes(a: Seq<int>, b: Seq<int>, n: usize, v: usize)
    requires
        is_order(n, v),
        a.len() == n,
        b.len() == n,
    ensures
        poly_and(a, b) == poly_and(b, a),
{
    assert forall|x: usize| x < n implies #[trigger] eval(poly_and(a, b), x) == eval(
        poly_and(b, a),
        x,
    ) by {
        lemma_eval_mul(a, b, n, v, x);
        lemma_eval_mul(b, a, n, v, x);
        assert(eval(a, x) * eval(b, x) == eval(b, x) * eval(a, x)) by (nonlinear_arith);
    }
    lemma_values_determine(poly_and(a, b), poly_and(b, a), n, v);
}

/// Disjunction is commutative.
pub proof fn lemma_or_commutes(a: Seq<int>, b: Seq<int>, n: usize, v: usize)
    requires
        is_order(n, v),
        a.len() == n,
        b.len() == n,
    ensures
        poly_or(a, b) == poly_or(b, a),
{
    assert forall|x: usize| x < n implies #[trigger] eval(poly_or(a, b), x) == eval(
        poly_or(b, a),
        x,
    ) by {
        lemma_eval_or(a, b, n, v, x);
        lemma_eval_or(b, a, n, v, x);
        assert(eval(a, x) * eval(b, x) == eval(b, x) * eval(a, x)) by (nonlinear_arith);
    }
    lemma_values_determine(poly_or(a, b), poly_or(b, a), n, v);
}

/// Exclusive disjunction is commutative.
pub proof fn lemma_xor_commutes(a: Seq<int>, b: Seq<int>, n: usize, v: usize)
    requires
        is_order(n, v),
        a.len() == n,
        b.len() == n,
    ensures
        poly_xor(a, b) == poly_xor(b, a),
{
    assert forall|x: usize| x < n implies #[trigger] eval(poly_xor(a, b), x) == eval(
        poly_xor(b, a),
        x,
    ) by {
        lemma_eval_xor(a, b, n, v, x);
        lemma_eval_xor(b, a, n, v, x);
        assert(eval(a, x) * eval(b, x) == eval(b, x) * eval(a, x)) by (nonlinear_arith);
    }
    lemma_values_determine(poly_xor(a, b), poly_xor(b, a), n, v);
}

/// The connectives have their truth tables: under every assignment, the
/// negation is true where the polynomial is not, the conjunction where both
/// are, the disjunction where one is, and the exclusive disjunction where
/// exactly one is.
pub proof fn lemma_truth_tables(a: Seq<int>, b: Seq<int>, n: usize, v: usize, x: usize)
    requires
        is_order(n, v),
        a.len() == n,
        b.len() == n,
        boolean_valued(a),
        boolean_valued(b),
        x < n,
    ensures
        holds(poly_not(a), x) <==> !holds(a, x),
        holds(poly_and(a, b), x) <==> holds(a, x) && holds(b, x),
        holds(poly_or(a, b), x) <==> holds(a, x) || holds(b, x),
        holds(poly_xor(a, b), x) <==> (holds(a, x) != holds(b, x)),
        eval(poly_not(a), x) == 0 || eval(poly_not(a), x) == 1,
        eval(poly_and(a, b), x) == 0 || eval(poly_and(a, b), x) == 1,
        eval(poly_or(a, b), x) == 0 || eval(poly_or(a, b), x) == 1,
        eval(poly_xor(a, b), x) == 0 || eval(poly_xor(a, b), x) == 1,
{
    lemma_orders(n, v);
    lemma_eval_not(a, x);
    lemma_eval_mul(a, b, n, v, x);
    lemma_eval_or(a, b, n, v, x);
    lemma_eval_xor(a, b, n, v, x);
    let ea = eval(a, x);
    let eb = eval(b, x);
    assert(ea == 0 || ea == 1);
    assert(eb == 0 || eb == 1);
    assert(ea * eb == (if ea == 1 && eb == 1 { 1int } else { 0int })) by (nonlinear_arith)
        requires
            ea == 0 || ea == 1,
            eb == 0 || eb == 1,
    ;
}

/// The connectives of boolean functions are boolean functions.
pub proof fn lemma_connectives_boolean(a: Seq<int>, b: Seq<int>, n: usize, v: usize)
    requires
        is_order(n, v),
        a.len() == n,
        b.len() == n,
        boolean_valued(a),
        boolean_valued(b),
    ensures
        boolean_valued(poly_not(a)),
        boolean_valued(poly_and(a, b)),
        boolean_valued(poly_or(a, b)),
        boolean_valued(poly_xor(a, b)),
{
    assert forall|x: usize| x < n implies {
        &&& (#[trigger] eval(poly_not(a), x) == 0 || eval(poly_not(a), x) == 1)
    } by {
        lemma_truth_tables(a, b, n, v, x);
    }
    assert forall|x: usize| x < n implies {
        &&& (#[trigger] eval(poly_and(a, b), x) == 0 || eval(poly_and(a, b), x) == 1)
    } by {
        lemma_truth_tables(a, b, n, v, x);
    }
    assert forall|x: usize| x < n implies {
        &&& (#[trigger] eval(poly_or(a, b), x) == 0 || eval(poly_or(a, b), x) == 1)
    } by {
        lemma_truth_tables(a, b, n, v, x);
    }
    assert forall|x: usize| x < n implies {
        &&& (#[trigger] eval(poly_xor(a, b), x) == 0 || eval(poly_xor(a, b), x) == 1)
    } by {
        lemma_truth_tables(a, b, n, v, x);
    }
}

/// A variable is true exactly under the assignments that set it, and the
/// zero polynomial is true under none.
pub proof fn lemma_truth_of_atoms(n: usize, v: usize, z: usize, x: usize)
    requires
        is_order(n, v),
        z < v,
    ensures
        holds(poly_var(n as nat, z), x) <==> has_variable(x, z),
        eval(poly_var(n as nat, z), x) == 0 || eval(poly_var(n as nat, z), x) == 1,
        eval(poly_zero(n as nat), x) == 0,
{
    lemma_eval_var(n, v, z, x);
    lemma_eval_zero(n as nat, x);
}

/// The constant term carries no letters.
pub proof fn lemma_constant_letters(v: nat)
    ensures
        letters(0, v) == Seq::<char>::empty(),
    decreases v,
{
    if v > 0 {
        lemma_constant_letters((v - 1) as nat);
        lemma_no_variable((v - 1) as usize);
    }
}

/// The letters of the monomial of variable `z` alone, among the first `w`
/// variables: the letter of `z` once `w` is past it.
proof fn lemma_single_letters(z: usize, w: nat, n: usize, v: usize)
    requires
        is_order(n, v),
        z < v,
        w <= v,
    ensures
        letters(single(z), w) == if w > z {
            seq![letter(z as int)]
        } else {
            Seq::<char>::empty()
        },
    decreases w,
{
    if w > 0 {
        lemma_single_letters(z, (w - 1) as nat, n, v);
        lemma_single(z, (w - 1) as usize, 0, n, v);
        if w - 1 == z {
            assert(Seq::<char>::empty().push(letter(z as int)) =~= seq![letter(z as int)]);
        }
    }
}

/// The text of the first `m` terms of a polynomial whose only term is the
/// one at `s`.
proof fn lemma_one_term(p: Seq<int>, v: nat, s: usize, m: nat)
    requires
        s < p.len(),
        m <= p.len(),
        p[s as int] != 0,
        forall|i: int| 0 <= i < p.len() && i != s ==> p[i] == 0,
    ensures
        m <= s ==> no_terms(p, m) && render_terms(p, v, m) == Seq::<char>::empty(),
        m > s ==> !no_terms(p, m) && render_terms(p, v, m) == term_text(p[s as int], s, v, true),
    decreases m,
{
    if m > 0 {
        lemma_one_term(p, v, s, (m - 1) as nat);
        if m - 1 == s {
            assert(render_terms(p, v, m) =~= term_text(p[s as int], s, v, true));
        }
    }
}

/// The text of a variable is its letter, and nothing else.
pub proof fn lemma_variable_text(n: usize, v: usize, z: usize)
    requires
        is_order(n, v),
        z < v,
    ensures
        render(poly_var(n as nat, z), v as nat) == seq![letter(z as int)],
{
    let p = poly_var(n as nat, z);
    let s = single(z);
    lemma_single(z, 0, 0, n, v);
    lemma_one_term(p, v as nat, s, n as nat);
    lemma_single_letters(z, v as nat, n, v);
    assert(term_text(1, s, v as nat, true) =~= letters(s, v as nat));
}

/// The text of the zero polynomial is `0`, whatever its size.
pub proof fn lemma_zero_text(n: nat, v: nat)
    ensures
        render(poly_zero(n), v) == seq!['0'],
{
}

} // verus!
