//! Fusion algebra and braiding engine for Ising-type anyons.
//!
//! Anyons carry topological charges. Fusing them combines their charges, and
//! exchanging neighbours braids them. The fusion engine derives, from a
//! schedule of fusions, which fused pairs stand for logical qubits; the braid
//! engine keeps the swaps made over time and builds the operator that a swap
//! induces on the register of those qubits.

pub mod anyon;
pub mod basis;
pub mod braiding;
pub mod charge;
pub mod error;
pub mod fusion;
pub mod lattice;
pub mod math;
pub mod model;
pub mod state;
pub mod text;
