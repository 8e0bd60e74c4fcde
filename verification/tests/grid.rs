use minesweeper_backend::coords::{Horizontal, Vertical};
use minesweeper_backend::tile::Tile;
use minesweeper_backend::vec2d::Vec2d;

#[test]
fn grid_starts_empty_until_filled() {
    let mut grid: Vec2d<Tile> = Vec2d::new(Horizontal(3), Vertical(2));
    assert!(grid.get(&Horizontal(0), &Vertical(0)).is_none());
    grid.fill(Tile::default).unwrap();
    assert!(grid.get(&Horizontal(2), &Vertical(1)).is_some());
    assert!(grid.get(&Horizontal(3), &Vertical(1)).is_none());
    assert!(grid.get(&Horizontal(2), &Vertical(2)).is_none());
}

#[test]
fn get_mut_updates_one_cell() {
    let mut grid: Vec2d<Tile> = Vec2d::new(Horizontal(2), Vertical(2));
    grid.fill(Tile::default).unwrap();
    match grid.get_mut(&Horizontal(1), &Vertical(0)) {
        Some(t) => t.is_bomb = true,
        None => panic!("cell should exist"),
    }
    assert!(grid.get(&Horizontal(1), &Vertical(0)).unwrap().is_bomb);
    assert!(!grid.get(&Horizontal(0), &Vertical(0)).unwrap().is_bomb);
    assert!(!grid.get(&Horizontal(0), &Vertical(1)).unwrap().is_bomb);
    assert!(!grid.get(&Horizontal(1), &Vertical(1)).unwrap().is_bomb);
}

#[test]
fn tile_copy_from_copies_every_field() {
    let mut a = Tile::default();
    let b = Tile { num_bombs_around: 3, has_flag: true, is_bomb: true, is_shown: true, was_clicked: true };
    a.copy_from(&b);
    assert_eq!(a, b);
}
