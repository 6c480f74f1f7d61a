use vstd::prelude::*;

verus! {

/// One square of the board.
#[derive(Clone, Copy, Debug, PartialEq, Eq, Structural)]
pub struct Cell {
    pub is_revealed: bool,
    pub is_mine: bool,
    pub is_flaged: bool,
    /// Number of mines among the neighbouring squares (set by
    /// `compute_cell_numbers`; left alone on mines).
    pub number: u8,
}

/// The square a fresh board starts with: hidden, no mine, no flag, number 0.
pub open spec fn blank_cell() -> Cell {
    Cell { is_revealed: false, is_mine: false, is_flaged: false, number: 0 }
}

impl Default for Cell {
    fn default() -> (c: Self)
        ensures
            c == blank_cell(),
    {
        Cell { is_revealed: false, is_mine: false, is_flaged: false, number: 0 }
    }
}

} // verus!
