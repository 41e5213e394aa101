//! Verified core of a crystallographic surface-slab generator.
//!
//! The crate holds the integer lattice mathematics (Miller-plane basis
//! search, Lagrange-Gauss reduction, stacking-vector search), the
//! graph-based fragment finder used for molecule extraction under
//! periodic boundary conditions, and the identifier-string logic of the
//! framework-decomposition toolchain.  Floating-point geometry around
//! these kernels lives outside the verified library.

pub mod chem;
pub mod connectivity;
pub mod integer_basis;
pub mod ionic;
pub mod linalg;
pub mod mofid;
pub mod number;
pub mod reduction;
pub mod structure;
pub mod text;
