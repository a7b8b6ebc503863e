//! Building blocks for stochastic-series-expansion simulations.

use vstd::prelude::*;

pub mod artifacts;
pub mod config;
pub mod engine;
pub mod geometry;
pub mod hamiltonian;
pub mod labels;
pub mod lattice;
pub mod sse;
pub mod text;
pub mod web;

pub use labels::{OperatorKind, Spin};

verus! {

} // verus!
