//! The supported polynomial sizes.
//!
//! A polynomial over `v` variables has `2^v` terms. The sizes that exist are
//! those for which `BoolyOrder` implements `GoodBooly`: the powers of two from
//! 1 to 256.

use vstd::prelude::*;
use crate::index::{is_order, lemma_orders};

verus! {

/// Implemented by `BoolyOrder<N>` for each supported term count `N`; tells
/// how many variables a `Booleanomial` of `N` terms has.
pub trait GoodBooly<const N: usize> {
    /// The number of variables of a polynomial of `N` terms.
    fn value() -> (v: usize)
        ensures
            is_order(N, v),
    ;
}

/// A marker for polynomials of `N` terms.
pub struct BoolyOrder<const N: usize> {}

impl GoodBooly<1> for BoolyOrder<1> {
    fn value() -> (v: usize) {
        proof {
            lemma_orders(1, 0);
        }
        0
    }
}

impl GoodBooly<2> for BoolyOrder<2> {
    fn value() -> (v: usize) {
        proof {
            lemma_orders(2, 1);
        }
        1
    }
}

impl GoodBooly<4> for BoolyOrder<4> {
    fn value() -> (v: usize) {
        proof {
            lemma_orders(4, 2);
        }
        2
    }
}

impl GoodBooly<8> for BoolyOrder<8> {
    fn value() -> (v: usize) {
        proof {
            lemma_orders(8, 3);
        }
        3
    }
}

impl GoodBooly<16> for BoolyOrder<16> {
    fn value() -> (v: usize) {
        proof {
            lemma_orders(16, 4);
        }
        4
    }
}

impl GoodBooly<32> for BoolyOrder<32> {
    fn value() -> (v: usize) {
        proof {
            lemma_orders(32, 5);
        }
        5
    }
}

impl GoodBooly<64> for BoolyOrder<64> {
    fn value() -> (v: usize) {
        proof {
            lemma_orders(64, 6);
        }
        6
    }
}

impl GoodBooly<128> for BoolyOrder<128> {
    fn value() -> (v: usize) {
        proof {
            lemma_orders(128, 7);
        }
        7
    }
}

impl GoodBooly<256> for BoolyOrder<256> {
    fn value() -> (v: usize) {
        proof {
            lemma_orders(256, 8);
        }
        8
    }
}

} // verus!
