//! A verified Minesweeper game engine: board representation, lazy bomb
//! placement, flood-fill exposure, flag accounting, and the win/loss state
//! machine. Rendering and transport belong to the surrounding shell; the
//! engine consumes `Action` values and reports a tile grid and a `GameState`.

pub mod board_spec;
pub mod coords;
pub mod engine;
pub mod count;
pub mod errors;
pub mod flood;
pub mod laws;
pub mod placement;
pub mod tile;
pub mod vec2d;
