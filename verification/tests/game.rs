use minesweeper_backend::coords::{Horizontal, Vertical};
use minesweeper_backend::engine::{Action, Minesweeper, State};
use minesweeper_backend::errors::Error;

fn shown(game: &Minesweeper, x: usize, y: usize) -> bool {
    game.get_tiles()[y][x].is_shown
}

#[test]
fn corner_expose_cascades_around_a_far_bomb() {
    let mut game = Minesweeper::new(Horizontal(3), Vertical(3), 1).unwrap();
    game.preset_bombs(&vec![(2, 2)]).unwrap();
    let state = game.handle_action(Action::Expose { x_position: 0, y_position: 0 }).unwrap();
    assert!(matches!(state, State::InProgress));
    let tiles = game.get_tiles();
    for y in 0..3 {
        for x in 0..3 {
            if (x, y) == (2, 2) {
                assert!(!tiles[y][x].is_shown);
            } else {
                assert!(tiles[y][x].is_shown);
            }
            assert!(!tiles[y][x].is_bomb);
        }
    }
    assert_eq!(tiles[1][1].num_bombs_around, 1);
    assert_eq!(tiles[1][2].num_bombs_around, 1);
    assert_eq!(tiles[2][1].num_bombs_around, 1);
    assert_eq!(tiles[0][0].num_bombs_around, 0);
    assert_eq!(tiles[0][2].num_bombs_around, 0);
    assert_eq!(tiles[2][0].num_bombs_around, 0);
}

#[test]
fn centre_bomb_limits_the_reveal_to_the_clicked_neighbourhood() {
    let mut game = Minesweeper::new(Horizontal(3), Vertical(3), 1).unwrap();
    game.preset_bombs(&vec![(1, 1)]).unwrap();
    let state = game.handle_action(Action::Expose { x_position: 0, y_position: 0 }).unwrap();
    assert!(matches!(state, State::InProgress));
    assert!(shown(&game, 0, 0));
    assert!(shown(&game, 1, 0));
    assert!(shown(&game, 0, 1));
    assert!(shown(&game, 1, 1));
    assert!(!shown(&game, 2, 0));
    assert!(!shown(&game, 2, 2));
    let tiles = game.get_tiles();
    assert_eq!(tiles[0][0].num_bombs_around, 1);
    assert!(!tiles[1][1].is_bomb);
}

#[test]
fn flagging_the_only_bomb_wins_immediately() {
    let mut game = Minesweeper::new(Horizontal(2), Vertical(2), 1).unwrap();
    game.preset_bombs(&vec![(1, 1)]).unwrap();
    let state = game.handle_action(Action::Flag { x_position: 1, y_position: 1 }).unwrap();
    assert!(matches!(state, State::Won));
    let tiles = game.get_tiles();
    assert!(tiles[0][0].is_shown);
    assert!(tiles[0][1].is_shown);
    assert!(tiles[1][0].is_shown);
    assert!(!tiles[1][1].is_shown);
    assert!(tiles[1][1].has_flag);
}

#[test]
fn exposing_a_bomb_loses_and_reveals_every_bomb() {
    let mut game = Minesweeper::new(Horizontal(3), Vertical(3), 2).unwrap();
    game.preset_bombs(&vec![(0, 0), (2, 2)]).unwrap();
    let state = game.handle_action(Action::Expose { x_position: 0, y_position: 0 }).unwrap();
    assert!(matches!(state, State::Loss));
    let tiles = game.get_tiles();
    assert!(tiles[0][0].is_bomb && tiles[0][0].is_shown);
    assert!(tiles[2][2].is_bomb && tiles[2][2].is_shown);
    assert!(!tiles[1][1].is_bomb);
    let after = game.handle_action(Action::Flag { x_position: 1, y_position: 1 }).unwrap();
    assert!(matches!(after, State::Loss));
    assert!(!game.get_tiles()[1][1].has_flag);
}

#[test]
fn flag_then_unflag_restores_the_board() {
    let mut game = Minesweeper::new(Horizontal(2), Vertical(2), 2).unwrap();
    game.preset_bombs(&vec![(0, 0), (1, 1)]).unwrap();
    let s1 = game.handle_action(Action::Flag { x_position: 0, y_position: 0 }).unwrap();
    assert!(matches!(s1, State::InProgress));
    let s2 = game.handle_action(Action::Unflag { x_position: 0, y_position: 0 }).unwrap();
    assert!(matches!(s2, State::InProgress));
    assert!(!game.get_tiles()[0][0].has_flag);
    let s3 = game.handle_action(Action::Flag { x_position: 0, y_position: 0 }).unwrap();
    assert!(matches!(s3, State::InProgress));
    let s4 = game.handle_action(Action::Flag { x_position: 1, y_position: 1 }).unwrap();
    assert!(matches!(s4, State::Won));
}

#[test]
fn first_move_never_hits_a_generated_bomb() {
    let mut game = Minesweeper::new(Horizontal(2), Vertical(2), 1).unwrap();
    let state = game.handle_action(Action::Expose { x_position: 0, y_position: 0 }).unwrap();
    assert!(matches!(state, State::InProgress));
    let tiles = game.get_tiles();
    assert!(tiles[0][0].is_shown);
    assert_eq!(tiles[0][0].num_bombs_around, 1);
}

#[test]
fn actions_out_of_bounds_are_refused_without_effect() {
    let mut game = Minesweeper::new(Horizontal(2), Vertical(2), 1).unwrap();
    assert_eq!(
        game.handle_action(Action::Expose { x_position: 2, y_position: 0 }).unwrap_err(),
        Error::CoordinateOutOfBounds
    );
    assert_eq!(
        game.handle_action(Action::Flag { x_position: 0, y_position: 5 }).unwrap_err(),
        Error::CoordinateOutOfBounds
    );
    assert!(matches!(game.get_state(), State::New));
}

#[test]
fn start_and_quit_leave_the_board_untouched() {
    let mut game = Minesweeper::new(Horizontal(2), Vertical(2), 1).unwrap();
    let s = game
        .handle_action(Action::Start { width: 9, height: 9, num_bombs: 10 })
        .unwrap();
    assert!(matches!(s, State::New));
    let q = game.handle_action(Action::Quit).unwrap();
    assert!(matches!(q, State::New));
}

#[test]
fn preset_refuses_bad_layouts() {
    let mut game = Minesweeper::new(Horizontal(2), Vertical(2), 2).unwrap();
    assert_eq!(game.preset_bombs(&vec![(0, 0)]).unwrap_err(), Error::InvalidDimensions);
    assert_eq!(
        game.preset_bombs(&vec![(0, 0), (5, 0)]).unwrap_err(),
        Error::CoordinateOutOfBounds
    );
    assert_eq!(
        game.preset_bombs(&vec![(0, 0), (0, 0)]).unwrap_err(),
        Error::InvalidDimensions
    );
    game.preset_bombs(&vec![(0, 0), (1, 1)]).unwrap();
    game.handle_action(Action::Flag { x_position: 0, y_position: 0 }).unwrap();
    assert_eq!(
        game.preset_bombs(&vec![(0, 1), (1, 0)]).unwrap_err(),
        Error::InvalidDimensions
    );
}
