//! Finite sums of integer-valued functions, and the rearrangements that the
//! polynomial algebra relies on.

use vstd::prelude::*;

verus! {

/// The sum `f(0) + f(1) + ... + f(n - 1)`.
pub open spec fn sum(f: spec_fn(int) -> int, n: nat) -> int
    decreases n,
{
    if n == 0 {
        0
    } else {
        sum(f, (n - 1) as nat) + f(n - 1)
    }
}

/// Two functions that agree below `n` have the same sum.
pub proof fn lemma_sum_ext(f: spec_fn(int) -> int, g: spec_fn(int) -> int, n: nat)
    requires
        forall|i: int| 0 <= i < n ==> #[trigger] f(i) == g(i),
    ensures
        sum(f, n) == sum(g, n),
    decreases n,
{
    if n > 0 {
        lemma_sum_ext(f, g, (n - 1) as nat);
    }
}

/// A sum of zeros is zero.
pub proof fn lemma_sum_zero(f: spec_fn(int) -> int, n: nat)
    requires
        forall|i: int| 0 <= i < n ==> #[trigger] f(i) == 0,
    ensures
        sum(f, n) == 0,
    decreases n,
{
    if n > 0 {
        lemma_sum_zero(f, (n - 1) as nat);
    }
}

/// The sum of `f + g` is the sum of `f` plus the sum of `g`.
pub proof fn lemma_sum_add(
    h: spec_fn(int) -> int,
    f: spec_fn(int) -> int,
    g: spec_fn(int) -> int,
    n: nat,
)
    requires
        forall|i: int| 0 <= i < n ==> #[trigger] h(i) == f(i) + g(i),
    ensures
        sum(h, n) == sum(f, n) + sum(g, n),
    decreases n,
{
    if n > 0 {
        lemma_sum_add(h, f, g, (n - 1) as nat);
    }
}

/// A constant factor moves out of a sum.
pub proof fn lemma_sum_scale(h: spec_fn(int) -> int, c: int, f: spec_fn(int) -> int, n: nat)
    requires
        forall|i: int| 0 <= i < n ==> #[trigger] h(i) == c * f(i),
    ensures
        sum(h, n) == c * sum(f, n),
    decreases n,
{
    if n > 0 {
        lemma_sum_scale(h, c, f, (n - 1) as nat);
        let a = sum(f, (n - 1) as nat);
        let b = f(n - 1);
        assert(c * (a + b) == c * a + c * b) by (nonlinear_arith);
    } else {
        assert(c * 0 == 0) by (nonlinear_arith);
    }
}

/// A function that vanishes everywhere below `n` except at `c` sums to its
/// value at `c`, or to zero where `c` is outside the range.
pub proof fn lemma_sum_single(f: spec_fn(int) -> int, c: int, n: nat)
    requires
        forall|i: int| 0 <= i < n && i != c ==> #[trigger] f(i) == 0,
    ensures
        sum(f, n) == if 0 <= c < n { f(c) } else { 0 },
    decreases n,
{
    if n > 0 {
        lemma_sum_single(f, c, (n - 1) as nat);
    }
}

/// The first `n + m` values sum to the first `n` plus the `m` that follow.
pub proof fn lemma_sum_split(f: spec_fn(int) -> int, g: spec_fn(int) -> int, n: nat, m: nat)
    requires
        forall|i: int| 0 <= i < m ==> #[trigger] g(i) == f(n + i),
    ensures
        sum(f, n + m) == sum(f, n) + sum(g, m),
    decreases m,
{
    if m > 0 {
        lemma_sum_split(f, g, n, (m - 1) as nat);
    }
}

/// A double sum may be taken in either order.
pub proof fn lemma_sum_swap(
    rows: spec_fn(int) -> int,
    cols: spec_fn(int) -> int,
    g: spec_fn(int, int) -> int,
    n: nat,
    m: nat,
)
    requires
        forall|i: int| 0 <= i < n ==> #[trigger] rows(i) == sum(|j: int| g(i, j), m),
        forall|j: int| 0 <= j < m ==> #[trigger] cols(j) == sum(|i: int| g(i, j), n),
    ensures
        sum(rows, n) == sum(cols, m),
    decreases n,
{
    if n == 0 {
        lemma_sum_zero(cols, m);
    } else {
        let k = (n - 1) as nat;
        let shorter = |j: int| sum(|i: int| g(i, j), k);
        let last = |j: int| g(n - 1, j);
        lemma_sum_swap(rows, shorter, g, k, m);
        lemma_sum_add(cols, shorter, last, m);
        assert(rows(n - 1) == sum(last, m));
    }
}

} // verus!
