//! Chemical classification tables: the non-metal atomic numbers and a
//! minimal element-symbol lookup.

use vstd::prelude::*;
use crate::text::{trim_spec, trim_str, str_eq, split_on, split_ws, split_on_char, split_ws_str};

verus! {

/// The atomic numbers treated as non-metals.
pub open spec fn is_nonmetal_num(n: u32) -> bool {
    n == 1 || n == 2 || n == 5 || n == 6 || n == 7 || n == 8 || n == 9 || n == 10 || n == 14 || n
        == 15 || n == 16 || n == 17 || n == 18 || n == 32 || n == 33 || n == 34 || n == 35 || n
        == 36 || n == 52 || n == 53 || n == 54 || n == 85 || n == 86
}

/// An element is a metal exactly when its atomic number is not in the
/// non-metal table.
pub fn is_metal(atomic_num: u32) -> (r: bool)
    ensures
        r == !is_nonmetal_num(atomic_num),
{
    !(atomic_num == 1 || atomic_num == 2 || atomic_num == 5 || atomic_num == 6 || atomic_num == 7
        || atomic_num == 8 || atomic_num == 9 || atomic_num == 10 || atomic_num == 14
        || atomic_num == 15 || atomic_num == 16 || atomic_num == 17 || atomic_num == 18
        || atomic_num == 32 || atomic_num == 33 || atomic_num == 34 || atomic_num == 35
        || atomic_num == 36 || atomic_num == 52 || atomic_num == 53 || atomic_num == 54
        || atomic_num == 85 || atomic_num == 86)
}

/// The atomic number of a trimmed element symbol, for the elements the
/// table covers.
pub open spec fn atomic_number_of(s: Seq<char>) -> Option<u32> {
    let t = trim_spec(s);
    if t == "H"@ {
        Some(1u32)
    } else if t == "He"@ {
        Some(2u32)
    } else if t == "Li"@ {
        Some(3u32)
    } else if t == "Be"@ {
        Some(4u32)
    } else if t == "B"@ {
        Some(5u32)
    } else if t == "C"@ {
        Some(6u32)
    } else if t == "N"@ {
        Some(7u32)
    } else if t == "O"@ {
        Some(8u32)
    } else if t == "F"@ {
        Some(9u32)
    } else if t == "Ne"@ {
        Some(10u32)
    } else if t == "Na"@ {
        Some(11u32)
    } else if t == "Mg"@ {
        Some(12u32)
    } else if t == "Al"@ {
        Some(13u32)
    } else if t == "Si"@ {
        Some(14u32)
    } else if t == "P"@ {
        Some(15u32)
    } else if t == "S"@ {
        Some(16u32)
    } else if t == "Cl"@ {
        Some(17u32)
    } else if t == "Ar"@ {
        Some(18u32)
    } else if t == "K"@ {
        Some(19u32)
    } else if t == "Ca"@ {
        Some(20u32)
    } else if t == "Fe"@ {
        Some(26u32)
    } else if t == "Cu"@ {
        Some(29u32)
    } else if t == "Zn"@ {
        Some(30u32)
    } else if t == "Zr"@ {
        Some(40u32)
    } else if t == "Ag"@ {
        Some(47u32)
    } else if t == "Au"@ {
        Some(79u32)
    } else {
        None
    }
}

/// Looks up the atomic number of an element symbol, ignoring
/// surrounding whitespace.
pub fn get_atomic_number(symbol: &str) -> (r: Option<u32>)
    ensures
        r == atomic_number_of(symbol@),
{
    let sym = trim_str(symbol);
    if str_eq(sym, "H") {
        Some(1)
    } else if str_eq(sym, "He") {
        Some(2)
    } else if str_eq(sym, "Li") {
        Some(3)
    } else if str_eq(sym, "Be") {
        Some(4)
    } else if str_eq(sym, "B") {
        Some(5)
    } else if str_eq(sym, "C") {
        Some(6)
    } else if str_eq(sym, "N") {
        Some(7)
    } else if str_eq(sym, "O") {
        Some(8)
    } else if str_eq(sym, "F") {
        Some(9)
    } else if str_eq(sym, "Ne") {
        Some(10)
    } else if str_eq(sym, "Na") {
        Some(11)
    } else if str_eq(sym, "Mg") {
        Some(12)
    } else if str_eq(sym, "Al") {
        Some(13)
    } else if str_eq(sym, "Si") {
        Some(14)
    } else if str_eq(sym, "P") {
        Some(15)
    } else if str_eq(sym, "S") {
        Some(16)
    } else if str_eq(sym, "Cl") {
        Some(17)
    } else if str_eq(sym, "Ar") {
        Some(18)
    } else if str_eq(sym, "K") {
        Some(19)
    } else if str_eq(sym, "Ca") {
        Some(20)
    } else if str_eq(sym, "Fe") {
        Some(26)
    } else if str_eq(sym, "Cu") {
        Some(29)
    } else if str_eq(sym, "Zn") {
        Some(30)
    } else if str_eq(sym, "Zr") {
        Some(40)
    } else if str_eq(sym, "Ag") {
        Some(47)
    } else if str_eq(sym, "Au") {
        Some(79)
    } else {
        None
    }
}

/// The symbols accepted as common organic elements when the atomic
/// number table has no entry.
pub open spec fn is_common_organic(s: Seq<char>) -> bool {
    s == "H"@ || s == "C"@ || s == "N"@ || s == "O"@ || s == "F"@ || s == "P"@ || s == "S"@ || s
        == "Cl"@ || s == "Br"@ || s == "I"@ || s == "Si"@
}

/// A line of an XYZ body names a metal: its first token either maps to
/// a metallic atomic number, or is unknown and not a common organic
/// element.
pub open spec fn line_names_metal(line: Seq<char>) -> bool {
    let toks = split_ws(line);
    if toks.len() == 0 {
        false
    } else {
        match atomic_number_of(toks[0]) {
            Some(n) => !is_nonmetal_num(n),
            None => !is_common_organic(toks[0]),
        }
    }
}

/// Some atom line after the two-line XYZ header names a metal.
pub open spec fn xyz_names_metal(s: Seq<char>) -> bool {
    exists|i: int|
        2 <= i < split_on(s, '\n').len() && #[trigger] line_names_metal(split_on(s, '\n')[i])
}

/// Scans an XYZ text for a metallic element, skipping the two header
/// lines; an unknown symbol outside the common organic set counts as
/// metallic.
pub fn xyz_contains_metal(xyz: &str) -> (r: bool)
    ensures
        r == xyz_names_metal(xyz@),
{
    let lines = split_on_char(xyz, '\n');
    let ghost linesv = split_on(xyz@, '\n');
    let mut i: usize = 2;
    if lines.len() < 2 {
        return false;
    }
    while i < lines.len()
        invariant
            2 <= i <= lines@.len(),
            linesv == split_on(xyz@, '\n'),
            lines.deep_view() == linesv,
            lines@.len() == linesv.len(),
            forall|k: int| 0 <= k < lines@.len() ==> (#[trigger] lines@[k])@ == linesv[k],
            forall|j: int| 2 <= j < i ==> !(#[trigger] line_names_metal(linesv[j])),
        decreases lines@.len() - i,
    {
        let toks = split_ws_str(lines[i].as_str());
        if toks.len() > 0 {
            let sym = toks[0].as_str();
            proof {
                assert(toks@[0]@ == split_ws(linesv[i as int])[0]);
            }
            match get_atomic_number(sym) {
                Some(anum) => {
                    if is_metal(anum) {
                        proof {
                            assert(line_names_metal(linesv[i as int]));
                        }
                        return true;
                    }
                },
                None => {
                    if !(str_eq(sym, "H") || str_eq(sym, "C") || str_eq(sym, "N") || str_eq(
                        sym,
                        "O",
                    ) || str_eq(sym, "F") || str_eq(sym, "P") || str_eq(sym, "S") || str_eq(
                        sym,
                        "Cl",
                    ) || str_eq(sym, "Br") || str_eq(sym, "I") || str_eq(sym, "Si")) {
                        proof {
                            assert(line_names_metal(linesv[i as int]));
                        }
                        return true;
                    }
                },
            }
        }
        i = i + 1;
    }
    false
}

} // verus!
