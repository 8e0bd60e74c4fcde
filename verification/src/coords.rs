//! Coordinate axes. A cell is addressed by a `Horizontal` (column) and a
//! `Vertical` (row) value; wrapping each axis in its own type prevents the
//! two from being transposed. Each axis value can list its neighbours on
//! that axis: the value itself together with its predecessor and successor,
//! clipped so that no neighbour falls below zero or overflows the machine
//! integer.

use vstd::prelude::*;

verus! {

/// A column index, counted from the left edge of the board.
#[derive(Clone, Copy, PartialEq, Eq, Structural, Debug)]
pub struct Horizontal(pub usize);

/// A row index, counted from the top edge of the board.
#[derive(Clone, Copy, PartialEq, Eq, Structural, Debug)]
pub struct Vertical(pub usize);

/// The neighbours of an axis value `v`: `{v-1, v, v+1}` clipped to the
/// machine-representable range, in increasing order.
pub open spec fn axis_neighbors(v: int) -> Seq<int> {
    let below = if v > 0 { seq![v - 1] } else { Seq::<int>::empty() };
    let above = if v < usize::MAX { seq![v + 1] } else { Seq::<int>::empty() };
    below + seq![v] + above
}

impl Horizontal {
    /// The columns adjacent to this one (including itself), in increasing
    /// order, without leaving the representable range.
    pub fn neighbors(&self) -> (r: Vec<Horizontal>)
        ensures
            r@.map_values(|h: Horizontal| h.0 as int) == axis_neighbors(self.0 as int),
    {
        let mut r: Vec<Horizontal> = Vec::new();
        if self.0 > 0 {
            r.push(Horizontal(self.0 - 1));
        }
        r.push(Horizontal(self.0));
        if self.0 < usize::MAX {
            r.push(Horizontal(self.0 + 1));
        }
        proof {
            assert(r@.map_values(|h: Horizontal| h.0 as int) =~= axis_neighbors(self.0 as int));
        }
        r
    }
}

impl Vertical {
    /// The rows adjacent to this one (including itself), in increasing
    /// order, without leaving the representable range.
    pub fn neighbors(&self) -> (r: Vec<Vertical>)
        ensures
            r@.map_values(|v: Vertical| v.0 as int) == axis_neighbors(self.0 as int),
    {
        let mut r: Vec<Vertical> = Vec::new();
        if self.0 > 0 {
            r.push(Vertical(self.0 - 1));
        }
        r.push(Vertical(self.0));
        if self.0 < usize::MAX {
            r.push(Vertical(self.0 + 1));
        }
        proof {
            assert(r@.map_values(|v: Vertical| v.0 as int) =~= axis_neighbors(self.0 as int));
        }
        r
    }
}

} // verus!
