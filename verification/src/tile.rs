//! A single cell of the board. The same type serves both grids: the
//! internal one, which holds the ground truth, and the external one, which
//! holds only what the UI may see.

use vstd::prelude::*;

verus! {

/// One cell. `num_bombs_around` counts the bombs among the cell's
/// Chebyshev-adjacent neighbours (on the internal grid it also counts the
/// cell itself when the cell is a bomb). `was_clicked` marks cells already
/// visited or queued by the exposure cascade, so that no cell is queued
/// twice.
#[derive(Clone, Copy, PartialEq, Eq, Structural, Debug)]
pub struct Tile {
    pub num_bombs_around: usize,
    pub has_flag: bool,
    pub is_bomb: bool,
    pub is_shown: bool,
    pub was_clicked: bool,
}

impl Tile {
    /// The state of every cell before anything has happened to it.
    pub open spec fn spec_default() -> Tile {
        Tile {
            num_bombs_around: 0,
            has_flag: false,
            is_bomb: false,
            is_shown: false,
            was_clicked: false,
        }
    }

    /// A fresh cell: no bomb, no flag, hidden, never visited.
    pub fn default() -> (r: Tile)
        ensures
            r == Tile::spec_default(),
    {
        Tile {
            num_bombs_around: 0,
            has_flag: false,
            is_bomb: false,
            is_shown: false,
            was_clicked: false,
        }
    }

    /// Overwrite this cell with the contents of `source`, field by field.
    pub fn copy_from(&mut self, source: &Tile)
        ensures
            *final(self) == *source,
    {
        self.num_bombs_around = source.num_bombs_around;
        self.has_flag = source.has_flag;
        self.is_bomb = source.is_bomb;
        self.is_shown = source.is_shown;
        self.was_clicked = source.was_clicked;
    }
}

} // verus!
