//! The engine's error values. Every failure is returned to the caller;
//! nothing in the engine panics or aborts the process.

use vstd::prelude::*;

verus! {

/// Why an engine operation was refused. All of these are recoverable: the
/// board is left unchanged for the caller to inspect or retry.
#[derive(Clone, Copy, PartialEq, Eq, Structural, Debug)]
pub enum Error {
    /// The `(width, height, num_bombs)` combination handed to construction
    /// or resize is unusable: no bombs, no room for a safe first move, or a
    /// cell count that overflows the machine integer.
    InvalidDimensions,
    /// An action referred to a cell outside the current grid.
    CoordinateOutOfBounds,
    /// The random source failed to produce enough distinct bomb cells. This
    /// is defensive: it is not expected with a working random source.
    BombGenerationExhausted,
}

} // verus!
