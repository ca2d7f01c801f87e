//! The encoding of monomials as bitmasks.
//!
//! A term-index is read as a set of variables: bit `k` of the index is set
//! exactly when variable `k` occurs in the monomial. An assignment of 0/1 to
//! the variables is read the same way: bit `k` is the value of variable `k`.

use vstd::prelude::*;

verus! {

/// Whether variable `k` occurs in the monomial with index `i` (or, for an
/// assignment `i`, whether variable `k` is set to 1).
pub open spec fn has_variable(i: usize, k: usize) -> bool {
    (i >> k) & 1 == 1
}

/// Whether every variable of monomial `i` is set to 1 by assignment `x`,
/// which is to say whether the monomial evaluates to 1 there.
pub open spec fn within(i: usize, x: usize) -> bool {
    i & x == i
}

/// The index of the product of monomials `i` and `j`: since a variable
/// squared is the variable itself, it holds the variables of both.
pub open spec fn join(i: usize, j: usize) -> usize {
    i | j
}

/// The index of the monomial that is variable `z` alone.
pub open spec fn single(z: usize) -> usize {
    1usize << z
}

/// The number of terms of a polynomial over `v` variables.
pub open spec fn term_count(v: usize) -> usize {
    1usize << v
}

/// The number of variables of a polynomial of `n` terms: the binary
/// logarithm of `n`, rounded down.
pub open spec fn variable_count(n: nat) -> nat
    decreases n,
{
    if n <= 1 {
        0
    } else {
        1 + variable_count(n / 2)
    }
}

/// Whether `n` is a supported term count and `v` its number of variables.
pub open spec fn is_order(n: usize, v: usize) -> bool {
    v <= 8 && n == term_count(v) && v == variable_count(n as nat)
}

/// The supported term counts are the powers of two up to 256.
pub proof fn lemma_orders(n: usize, v: usize)
    ensures
        is_order(n, v) <==> (n == 1 && v == 0) || (n == 2 && v == 1) || (n == 4 && v == 2) || (n
            == 8 && v == 3) || (n == 16 && v == 4) || (n == 32 && v == 5) || (n == 64 && v == 6)
            || (n == 128 && v == 7) || (n == 256 && v == 8),
{
    reveal_with_fuel(variable_count, 10);
    assert(v <= 8 ==> ((n == 1usize << v) <==> (n == 1 && v == 0) || (n == 2 && v == 1) || (n == 4
        && v == 2) || (n == 8 && v == 3) || (n == 16 && v == 4) || (n == 32 && v == 5) || (n == 64
        && v == 6) || (n == 128 && v == 7) || (n == 256 && v == 8))) by (bit_vector);
}

/// A polynomial over one more variable has twice the terms.
pub proof fn lemma_order_step(n: usize, v: usize)
    requires
        is_order(n, v),
        v > 0,
    ensures
        n % 2 == 0,
        is_order((n / 2) as usize, (v - 1) as usize),
{
    lemma_orders(n, v);
    lemma_orders((n / 2) as usize, (v - 1) as usize);
}

/// The product of two monomials of a polynomial is a monomial of it.
pub proof fn lemma_join_bound(i: usize, j: usize, n: usize, v: usize)
    requires
        is_order(n, v),
        i < n,
        j < n,
    ensures
        join(i, j) < n,
{
    assert(v <= 8 && n == 1usize << v && i < n && j < n ==> (i | j) < n) by (bit_vector);
}

/// A product of two monomials evaluates to 1 exactly where both do.
pub proof fn lemma_join_within(i: usize, j: usize, x: usize)
    ensures
        within(join(i, j), x) <==> within(i, x) && within(j, x),
{
    assert((i | j) & x == (i | j) <==> (i & x == i && j & x == j)) by (bit_vector);
}

/// The constant monomial evaluates to 1 everywhere, and no other monomial
/// does so where every variable is 0.
pub proof fn lemma_within_zero(i: usize, x: usize)
    ensures
        within(0, x),
        within(i, 0) <==> i == 0,
{
    assert(0usize & x == 0usize) by (bit_vector);
    assert((i & 0usize == i) <==> i == 0usize) by (bit_vector);
}

/// How the monomials over `v + 1` variables behave on assignments, seen as
/// two copies of the monomials over `v` variables: those without the last
/// variable, and those with it (`j` is `i` with the last variable, `y` is `x`
/// with the last variable set).
pub proof fn lemma_within_halves(i: usize, x: usize, j: usize, y: usize, n: usize, v: usize)
    requires
        v < 8,
        n == term_count(v),
        i < n,
        x < n,
        j == i + n,
        y == x + n,
    ensures
        !within(j, x),
        within(j, y) <==> within(i, x),
        within(i, y) <==> within(i, x),
{
    assert(v < 8 && n == 1usize << v && i < n && x < n && j == (i + n) as usize && y == (x + n) as usize ==> (j
        & x != j) && ((j & y == j) <==> (i & x == i)) && ((i & y == i) <==> (i & x == i)))
        by (bit_vector);
}

/// The monomial of a single variable holds that variable and no other, and
/// evaluates to the variable's value.
pub proof fn lemma_single(z: usize, k: usize, x: usize, n: usize, v: usize)
    requires
        is_order(n, v),
        z < v,
    ensures
        0 < single(z) < n,
        k < v ==> (has_variable(single(z), k) <==> k == z),
        within(single(z), x) <==> has_variable(x, z),
{
    assert(v <= 8 && z < v && n == 1usize << v ==> 0 < (1usize << z) < n) by (bit_vector);
    assert(k < 8 && z < 8 ==> ((((1usize << z) >> k) & 1 == 1) <==> k == z)) by (bit_vector);
    assert(z < 8 ==> (((1usize << z) & x == (1usize << z)) <==> ((x >> z) & 1 == 1)))
        by (bit_vector);
}

/// The constant monomial holds no variable.
pub proof fn lemma_no_variable(k: usize)
    ensures
        !has_variable(0, k),
{
    assert((0usize >> k) & 1 == 0usize) by (bit_vector);
}

/// The set of variables that monomial `i` holds.
pub open spec fn variables(i: usize) -> Set<usize> {
    Set::new(|k: usize| k < 8 && has_variable(i, k))
}

/// The index of the monomial that holds the variables of `s` below `v`: the
/// bitwise or of `single(k)` over those variables.
pub open spec fn index_of(s: Set<usize>, v: nat) -> usize
    decreases v,
{
    if v == 0 {
        0
    } else if s.contains((v - 1) as usize) {
        index_of(s, (v - 1) as nat) | single((v - 1) as usize)
    } else {
        index_of(s, (v - 1) as nat)
    }
}

/// The monomials of single variables have the indices 1, 2, 4, ..., 128.
pub proof fn lemma_single_values()
    ensures
        single(0) == 1,
        single(1) == 2,
        single(2) == 4,
        single(3) == 8,
        single(4) == 16,
        single(5) == 32,
        single(6) == 64,
        single(7) == 128,
{
    assert(1usize << 0 == 1 && 1usize << 1 == 2 && 1usize << 2 == 4 && 1usize << 3 == 8 && 1usize
        << 4 == 16 && 1usize << 5 == 32 && 1usize << 6 == 64 && 1usize << 7 == 128)
        by (bit_vector);
}

/// The product of two monomials holds the variables of both.
pub proof fn lemma_variables_of_join(i: usize, j: usize)
    ensures
        variables(join(i, j)) == variables(i).union(variables(j)),
{
    assert forall|k: usize| k < 8 implies (has_variable(join(i, j), k) <==> has_variable(i, k)
        || has_variable(j, k)) by {
        assert((((i | j) >> k) & 1 == 1) <==> ((i >> k) & 1 == 1) || ((j >> k) & 1 == 1))
            by (bit_vector);
    }
    assert(variables(join(i, j)) =~= variables(i).union(variables(j)));
}

/// The monomial of a single variable holds that variable alone, and the
/// constant monomial holds none.
pub proof fn lemma_variables_of_single(z: usize)
    requires
        z < 8,
    ensures
        variables(single(z)) == set![z],
        variables(0) == Set::<usize>::empty(),
{
    assert forall|k: usize| k < 8 implies (#[trigger] has_variable(single(z), k) <==> k == z) by {
        assert(k < 8 && z < 8 ==> ((((1usize << z) >> k) & 1 == 1) <==> k == z)) by (bit_vector);
    }
    assert forall|k: usize| k < 8 implies !#[trigger] has_variable(0, k) by {
        assert((0usize >> k) & 1 == 0usize) by (bit_vector);
    }
    assert(variables(single(z)) =~= set![z]);
    assert(variables(0) =~= Set::<usize>::empty());
}

/// A monomial evaluates to 1 exactly under the assignments that set all of
/// its variables.
pub proof fn lemma_within_variables(i: usize, x: usize)
    requires
        i < 256,
        x < 256,
    ensures
        within(i, x) <==> variables(i).subset_of(variables(x)),
{
    if within(i, x) {
        assert forall|k: usize| k < 8 && has_variable(i, k) implies has_variable(x, k) by {
            assert(i & x == i && (i >> k) & 1 == 1 ==> (x >> k) & 1 == 1) by (bit_vector);
        }
    }
    if variables(i).subset_of(variables(x)) {
        assert forall|k: usize| k < 8 && has_variable(i, k) implies has_variable(x, k) by {
            assert(variables(i).contains(k));
            assert(variables(x).contains(k));
        }
        assert(has_variable(i, 0) ==> has_variable(x, 0));
        assert(has_variable(i, 1) ==> has_variable(x, 1));
        assert(has_variable(i, 2) ==> has_variable(x, 2));
        assert(has_variable(i, 3) ==> has_variable(x, 3));
        assert(has_variable(i, 4) ==> has_variable(x, 4));
        assert(has_variable(i, 5) ==> has_variable(x, 5));
        assert(has_variable(i, 6) ==> has_variable(x, 6));
        assert(has_variable(i, 7) ==> has_variable(x, 7));
        assert(i < 256 && x < 256 && (((i >> 0usize) & 1 == 1) ==> ((x >> 0usize) & 1 == 1)) && (((i
            >> 1usize) & 1 == 1) ==> ((x >> 1usize) & 1 == 1)) && (((i >> 2usize) & 1 == 1) ==> ((x
            >> 2usize) & 1 == 1)) && (((i >> 3usize) & 1 == 1) ==> ((x >> 3usize) & 1 == 1)) && (((i
            >> 4usize) & 1 == 1) ==> ((x >> 4usize) & 1 == 1)) && (((i >> 5usize) & 1 == 1) ==> ((x
            >> 5usize) & 1 == 1)) && (((i >> 6usize) & 1 == 1) ==> ((x >> 6usize) & 1 == 1)) && (((i
            >> 7usize) & 1 == 1) ==> ((x >> 7usize) & 1 == 1)) ==> i & x == i) by (bit_vector);
    }
}

/// The variables of a monomial determine its index.
pub proof fn lemma_variables_determine(i: usize, j: usize)
    requires
        i < 256,
        j < 256,
        variables(i) == variables(j),
    ensures
        i == j,
{
    lemma_within_variables(i, j);
    lemma_within_variables(j, i);
    assert(i & j == i && j & i == j ==> i == j) by (bit_vector);
}

/// The index made from a set of variables is that of a monomial over `v`
/// variables, and holds exactly the variables of the set that are below `v`.
pub proof fn lemma_variables_of_index(s: Set<usize>, v: usize, k: usize)
    requires
        v <= 8,
        k < 8,
    ensures
        index_of(s, v as nat) < term_count(v),
        has_variable(index_of(s, v as nat), k) <==> k < v && s.contains(k),
    decreases v,
{
    if v == 0 {
        assert(0 < 1usize << 0usize && (0usize >> k) & 1 == 0) by (bit_vector);
    } else {
        let u = (v - 1) as usize;
        let a = index_of(s, u as nat);
        lemma_variables_of_index(s, u, k);
        assert(u < 8 && v == (u + 1) as usize && k < 8 && a < 1usize << u ==> a < 1usize << v && (a | (1usize
            << u)) < 1usize << v && (((a | (1usize << u)) >> k) & 1 == 1 <==> ((a >> k) & 1 == 1)
            || k == u) && (k == u ==> (a >> k) & 1 != 1)) by (bit_vector);
    }
}

/// The index made from the variables of a monomial is the monomial's own:
/// indices and sets of variables stand in one-to-one correspondence.
pub proof fn lemma_index_of_variables(i: usize, v: usize)
    requires
        v <= 8,
        i < term_count(v),
    ensures
        index_of(variables(i), v as nat) == i,
{
    assert(v <= 8 && i < 1usize << v ==> i < 256) by (bit_vector);
    let j = index_of(variables(i), v as nat);
    lemma_variables_of_index(variables(i), v, 0);
    assert(v <= 8 && j < 1usize << v ==> j < 256) by (bit_vector);
    assert forall|k: usize| k < 8 implies (has_variable(j, k) <==> has_variable(i, k)) by {
        lemma_variables_of_index(variables(i), v, k);
        assert(v <= 8 && i < 1usize << v && k < 8 && k >= v ==> (i >> k) & 1 != 1) by (bit_vector);
    }
    assert(variables(j) =~= variables(i));
    lemma_variables_determine(j, i);
}

} // verus!
