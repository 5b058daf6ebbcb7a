//! Edge-weighted decision diagrams for complex matrices and vectors.
//!
//! A diagram stands for a matrix that is split, level by level, into two by
//! two blocks. Blocks that are equal up to a factor share one node, so a
//! matrix with much repetition takes far less room than its entries would.
//!
//! - [`weight`]: the complex weights and their comparison within a tolerance.
//! - [`store`]: nodes, edges and the canonical store that interns them.
//! - [`evaluate`]: reading the entries of a diagram back.
//! - [`algebra`]: sum, matrix product and Kronecker product of diagrams.
//! - [`construct`]: diagrams of small fixed matrices.
//! - [`laws`]: what holds of interning and of the algebra, proved over the
//!   mathematical model.

pub mod algebra;
pub mod construct;
pub mod evaluate;
pub mod laws;
pub mod store;
pub mod weight;

pub use crate::store::{Edge, Node, QMDD};
