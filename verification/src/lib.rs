//! Conformal geometric algebra over Cl(4,1) with exact coefficients, and a
//! line-of-sight evaluator for chess positions built on it.
//!
//! The algebra has the five generators e1, e2, e3, e+ and e-, of which the
//! last squares to -1, and so 32 basis blades. [`blade`] holds the rule for
//! multiplying two blades, [`tables`] the multiplication table and the product
//! engine derived from it, [`model`] the mathematical model of a multivector
//! with its laws, and [`cga`] the multivectors themselves. Coefficients are
//! exact: integers over a common power of two, see [`dyadic`].
//!
//! [`conformal`] embeds the squares of the board as points and builds the
//! lines of the sliding pieces; [`vision`] scores what those pieces see.
//! [`neighbors`], [`material`] and [`search`] hold what else is decided about
//! a position.

pub mod blade;
pub mod cga;
pub mod conformal;
pub mod dyadic;
pub mod laws;
pub mod material;
pub mod model;
pub mod neighbors;
pub mod position;
pub mod search;
pub mod sparse;
pub mod sums;
pub mod tables;
pub mod targets;
pub mod versor;
pub mod vision;
