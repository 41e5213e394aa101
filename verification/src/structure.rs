//! Shared data-model items: atom roles and the pipeline's failure kinds.

use vstd::prelude::*;

verus! {

/// Semantic role of an atom within a framework structure.
#[derive(Debug, Clone, Copy, PartialEq, Eq, Structural)]
pub enum ComponentType {
    /// Standard bulk atom (default).
    Unknown,
    /// Part of a metal node / secondary building unit.
    MetalNode,
    /// Part of an organic linker.
    OrganicLinker,
    /// Solvent or guest molecule in the pore.
    Solvent,
    /// Adsorbed gas molecule.
    Adsorbate,
}

/// Failure kinds surfaced by the surface-construction pipeline.
#[derive(Debug, Clone, Copy, PartialEq, Eq, Structural)]
pub enum SurfaceError {
    /// The Miller triple is (0, 0, 0).
    DegenerateIndices,
    /// The reciprocal normal is too short to define a plane family.
    InvalidIndices,
    /// Lattice angle validation failed.
    InvalidAngles,
    /// The lattice volume is too small.
    DegenerateLattice,
    /// The slab basis has no inverse.
    SingularSlab,
    /// The bulk cell has no extent along the surface normal.
    DegenerateCell,
    /// The layer window captured no atoms.
    EmptySlab,
}

} // verus!
