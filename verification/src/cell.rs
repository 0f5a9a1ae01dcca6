//! The two-valued cell state of the automaton.

use vstd::prelude::*;

verus! {

/// The state of one grid cell: `Alive` or `Dead`.
#[derive(Clone, Copy, Debug, PartialEq, Eq, Structural)]
pub enum Cell {
    Alive,
    Dead,
}

/// The numeric projection of a cell: an `Alive` cell counts as 1 toward a
/// neighbor total, a `Dead` cell as 0.
pub open spec fn cell_val(c: Cell) -> nat {
    match c {
        Cell::Alive => 1,
        Cell::Dead => 0,
    }
}

/// The cell a freshly drawn random byte stands for. The even/odd bit of the
/// byte decides, and an even byte maps to `Alive` (not the other way round):
/// the asymmetric direction is part of the library's behavior.
pub open spec fn spec_cell_from_byte(b: u8) -> Cell {
    if b % 2 == 0 {
        Cell::Alive
    } else {
        Cell::Dead
    }
}

impl Cell {
    /// The executable numeric projection: 1 for `Alive`, 0 for `Dead`, so
    /// that neighbor totals can be summed by plain addition.
    pub fn as_count(&self) -> (v: u8)
        ensures
            v == cell_val(*self),
    {
        match self {
            Cell::Alive => 1,
            Cell::Dead => 0,
        }
    }

    /// Map a random byte to a cell by its even/odd bit.
    pub fn from_byte(b: u8) -> (c: Cell)
        ensures
            c == spec_cell_from_byte(b),
    {
        if b % 2 == 0 {
            Cell::Alive
        } else {
            Cell::Dead
        }
    }
}

} // verus!
