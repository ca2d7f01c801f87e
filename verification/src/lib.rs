//! Boolean functions of up to eight variables as multilinear integer
//! polynomials, with the connectives NOT, AND, OR and XOR computed on the
//! coefficients, and a canonical text for every polynomial.

pub mod booleanomial;
pub mod bounds;
pub mod eval;
pub mod index;
pub mod laws;
pub mod order;
pub mod poly;
pub mod render;
pub mod sums;

pub use booleanomial::{Booleanomial, BoolyError};
pub use order::{BoolyOrder, GoodBooly};
