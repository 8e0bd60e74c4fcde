use minesweeper_backend::coords::{Horizontal, Vertical};
use minesweeper_backend::engine::{Minesweeper, State};
use minesweeper_backend::errors::Error;

#[test]
fn construction_gives_default_tiles() {
    let game = Minesweeper::new(Horizontal(3), Vertical(2), 1).unwrap();
    assert!(matches!(game.get_state(), State::New));
    let tiles = game.get_tiles();
    assert_eq!(tiles.len(), 2);
    for row in tiles {
        assert_eq!(row.len(), 3);
        for t in row {
            assert_eq!(t.num_bombs_around, 0);
            assert!(!t.has_flag);
            assert!(!t.is_bomb);
            assert!(!t.is_shown);
            assert!(!t.was_clicked);
        }
    }
}

#[test]
fn construction_rejects_zero_bombs() {
    assert_eq!(
        Minesweeper::new(Horizontal(3), Vertical(3), 0).unwrap_err(),
        Error::InvalidDimensions
    );
}

#[test]
fn construction_rejects_full_board() {
    assert_eq!(
        Minesweeper::new(Horizontal(2), Vertical(2), 4).unwrap_err(),
        Error::InvalidDimensions
    );
    assert_eq!(
        Minesweeper::new(Horizontal(2), Vertical(2), 5).unwrap_err(),
        Error::InvalidDimensions
    );
}

#[test]
fn construction_rejects_overflowing_area() {
    assert_eq!(
        Minesweeper::new(Horizontal(usize::MAX), Vertical(usize::MAX), 10).unwrap_err(),
        Error::InvalidDimensions
    );
}

#[test]
fn resize_resets_the_board() {
    let mut game = Minesweeper::new(Horizontal(2), Vertical(2), 1).unwrap();
    game.resize(Horizontal(4), Vertical(5), 3).unwrap();
    assert!(matches!(game.get_state(), State::New));
    let tiles = game.get_tiles();
    assert_eq!(tiles.len(), 5);
    assert_eq!(tiles[0].len(), 4);
}

#[test]
fn resize_failure_keeps_prior_board() {
    let mut game = Minesweeper::new(Horizontal(2), Vertical(3), 1).unwrap();
    assert_eq!(
        game.resize(Horizontal(1), Vertical(1), 1).unwrap_err(),
        Error::InvalidDimensions
    );
    let tiles = game.get_tiles();
    assert_eq!(tiles.len(), 3);
    assert_eq!(tiles[0].len(), 2);
}

#[test]
fn axis_neighbors_clip_at_zero() {
    let h = Horizontal(0).neighbors();
    assert_eq!(h.len(), 2);
    assert_eq!(h[0].0, 0);
    assert_eq!(h[1].0, 1);
    let v = Vertical(4).neighbors();
    assert_eq!(v.len(), 3);
    assert_eq!(v[0].0, 3);
    assert_eq!(v[1].0, 4);
    assert_eq!(v[2].0, 5);
}
