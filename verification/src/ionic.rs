//! Surface-stabilisation data model: the reconstruction mode switch and
//! the nominal ionic charge table the dipole estimate is built from.

use vstd::prelude::*;
use crate::text::str_eq;

verus! {

/// Whether a generated slab is post-processed against a net dipole.
#[derive(Debug, Clone, Copy, PartialEq, Eq, Structural)]
pub enum ReconstructionMode {
    NoCorrection,
    DipoleCorrection,
}

/// Moves surface atoms to cancel a net dipole; the verified part is
/// the nominal charge table, on which the dipole estimate rests.
pub struct IonicReconstructor;

/// Nominal ionic charge by element symbol; unknown elements count as
/// neutral.
pub open spec fn nominal_charge_of(s: Seq<char>) -> int {
    if s == "Li"@ || s == "Na"@ || s == "K"@ || s == "H"@ {
        1
    } else if s == "Mg"@ || s == "Ca"@ || s == "Zn"@ || s == "Fe"@ {
        2
    } else if s == "Al"@ {
        3
    } else if s == "F"@ || s == "Cl"@ || s == "Br"@ || s == "I"@ {
        -1
    } else if s == "O"@ || s == "S"@ {
        -2
    } else if s == "N"@ {
        -3
    } else {
        0
    }
}

impl IonicReconstructor {
    /// The nominal charge assigned to one element.
    pub fn nominal_charge(element: &str) -> (q: i64)
        ensures
            q as int == nominal_charge_of(element@),
    {
        if str_eq(element, "Li") || str_eq(element, "Na") || str_eq(element, "K") || str_eq(
            element,
            "H",
        ) {
            1
        } else if str_eq(element, "Mg") || str_eq(element, "Ca") || str_eq(element, "Zn")
            || str_eq(element, "Fe") {
            2
        } else if str_eq(element, "Al") {
            3
        } else if str_eq(element, "F") || str_eq(element, "Cl") || str_eq(element, "Br") || str_eq(
            element,
            "I",
        ) {
            -1
        } else if str_eq(element, "O") || str_eq(element, "S") {
            -2
        } else if str_eq(element, "N") {
            -3
        } else {
            0
        }
    }
}

} // verus!
