//! The two symbols of the game and the states of a match.

use vstd::prelude::*;

verus! {

/// The symbol on a chip.
#[derive(Clone, Copy, PartialEq, Eq, Structural, Debug)]
pub enum ChipType {
    T,
    O,
}

/// Where a match stands.
#[derive(Clone, Copy, PartialEq, Eq, Structural, Debug)]
pub enum State {
    Done,
    Running,
    /// A move is in progress; set by front ends only.
    Busy,
    NonStarted,
}

/// The cell value that stands for a symbol.
pub open spec fn chip_value(chip: ChipType) -> i32 {
    match chip {
        ChipType::T => 1i32,
        ChipType::O => -1i32,
    }
}

} // verus!
