//! The game engine: a board of two mirrored grids (internal truth and the
//! external face shown to the UI), flag accounting, lazy bomb placement on
//! the first move, flood-fill exposure, and the `New → InProgress →
//! {Won, Loss}` state machine, all behind one `handle_action` entry point.

use vstd::prelude::*;

use crate::board_spec::{adjacent, bombs_adjacent, counts_consistent, exposure_closed, exposure_closed_except, lemma_bombs_adjacent_congruent, loss_external_cell, loss_internal_cell, rectangular, win_external_cell, win_internal_cell, win_reveal_external, win_reveal_internal, with_flag, zero_shown_clicked};
use crate::coords::{Horizontal, Vertical};
use crate::count::{bomb_pred, clicked_pred, correct_flag_pred, flag_pred, grid_count, lemma_grid_count_bounds, lemma_grid_count_congruent, lemma_grid_count_le, lemma_grid_count_update_cell, lemma_grid_count_zero};
use crate::errors::Error;
use crate::placement::{generate_layout, place_bomb};
use crate::tile::Tile;
use crate::vec2d::Vec2d;

verus! {

/// Where the game stands. `Won` and `Loss` are terminal.
#[derive(PartialEq, Eq, Structural, Clone, Copy, Debug)]
pub enum State {
    Won,
    Loss,
    New,
    InProgress,
}

/// What a player (through the UI shell) can ask of the engine. `Start` and
/// `Quit` are handled by the shell around the engine: `handle_action`
/// leaves the board untouched for them.
#[derive(PartialEq, Eq, Structural, Clone, Copy, Debug)]
pub enum Action {
    Flag { x_position: usize, y_position: usize },
    Unflag { x_position: usize, y_position: usize },
    Expose { x_position: usize, y_position: usize },
    Start { width: usize, height: usize, num_bombs: usize },
    Quit,
}

/// The engine's state: the ground-truth grid (bombs and counts, populated
/// lazily on the first move), the external grid reported to the UI (which
/// withholds bomb identity until the game is lost), the board parameters,
/// and the flag bookkeeping that decides a win.
#[derive(Debug)]
pub struct Minesweeper {
    internal_field: Vec2d<Tile>,
    external_field: Vec2d<Tile>,
    width: Horizontal,
    height: Vertical,
    num_bombs: usize,
    num_flags: usize,
    num_correct_flags: usize,
    state: State,
    initialized: bool,
}

impl Minesweeper {
    /// The ground-truth grid.
    pub closed spec fn internal(&self) -> Seq<Seq<Tile>> {
        self.internal_field@
    }

    /// The grid reported outward.
    pub closed spec fn external(&self) -> Seq<Seq<Tile>> {
        self.external_field@
    }

    pub closed spec fn spec_width(&self) -> int {
        self.width.0 as int
    }

    pub closed spec fn spec_height(&self) -> int {
        self.height.0 as int
    }

    pub closed spec fn spec_num_bombs(&self) -> int {
        self.num_bombs as int
    }

    pub closed spec fn spec_num_flags(&self) -> int {
        self.num_flags as int
    }

    pub closed spec fn spec_num_correct_flags(&self) -> int {
        self.num_correct_flags as int
    }

    pub closed spec fn spec_state(&self) -> State {
        self.state
    }

    /// Whether the bomb layout has been generated (or preset) for this game.
    pub closed spec fn is_initialized(&self) -> bool {
        self.initialized
    }

    /// The position `(x, y)` addresses a cell of this board.
    pub open spec fn in_bounds(&self, x: int, y: int) -> bool {
        0 <= x < self.spec_width() && 0 <= y < self.spec_height()
    }

    /// The game still accepts moves.
    pub open spec fn in_play(&self) -> bool {
        self.spec_state() == State::New || self.spec_state() == State::InProgress
    }

    spec fn wf_fields(&self) -> bool {
        &&& self.internal_field.spec_width() == self.width.0 as int
        &&& self.internal_field.spec_height() == self.height.0 as int
        &&& self.external_field.spec_width() == self.width.0 as int
        &&& self.external_field.spec_height() == self.height.0 as int
        &&& self.internal_field.is_filled()
        &&& self.external_field.is_filled()
    }

    /// The board invariant: every constructor establishes it and every
    /// action preserves it.
    ///
    /// It ties the flag counters to the grids (`num_flags` counts flagged
    /// cells, `num_correct_flags` counts flagged bombs), fixes the bomb
    /// count and neighbourhood counts once the layout exists, keeps the
    /// external grid in step with the internal one (same flags, same cells
    /// shown, counts copied on reveal, and never a bomb before the game is
    /// lost), and, while the game is in play, keeps the exposure closed: a
    /// visited safe cell has its whole neighbourhood shown, and a shown
    /// zero-count cell has been visited.
    pub open spec fn wf(&self) -> bool {
        &&& self.wf_grids()
        &&& rectangular(self.internal(), self.spec_width(), self.spec_height())
        &&& rectangular(self.external(), self.spec_width(), self.spec_height())
        &&& 0 < self.spec_num_bombs() < self.spec_width() * self.spec_height()
        &&& self.spec_width() * self.spec_height() <= usize::MAX
        &&& self.spec_num_flags() == grid_count(self.internal(), flag_pred())
        &&& self.spec_num_correct_flags() == grid_count(self.internal(), correct_flag_pred())
        &&& (self.is_initialized() ==> grid_count(self.internal(), bomb_pred())
            == self.spec_num_bombs())
        &&& (self.is_initialized() ==> counts_consistent(self.internal()))
        &&& (!self.is_initialized() ==> forall|y: int, x: int|
            self.in_bounds(x, y) ==> #[trigger] self.internal()[y][x] == Tile::spec_default())
        &&& (!self.is_initialized() ==> self.spec_state() == State::New)
        &&& (self.spec_state() == State::New ==> forall|y: int, x: int|
            self.in_bounds(x, y) ==> !(#[trigger] self.internal()[y][x]).is_shown
                && !self.internal()[y][x].was_clicked && !self.internal()[y][x].has_flag)
        &&& (forall|y: int, x: int|
            self.in_bounds(x, y) ==> {
                let ti = #[trigger] self.internal()[y][x];
                let te = #[trigger] self.external()[y][x];
                &&& te.has_flag == ti.has_flag
                &&& te.is_shown == ti.is_shown
                &&& (te.is_bomb ==> ti.is_bomb)
                &&& (te.is_shown ==> te.num_bombs_around == ti.num_bombs_around)
            })
        &&& (self.spec_state() != State::Loss ==> forall|y: int, x: int|
            self.in_bounds(x, y) ==> !(#[trigger] self.external()[y][x]).is_bomb)
        &&& (self.spec_state() == State::Won ==> self.spec_num_flags()
            == self.spec_num_correct_flags() && self.spec_num_correct_flags()
            == self.spec_num_bombs())
        &&& (self.in_play() ==> zero_shown_clicked(self.internal()))
        &&& (self.in_play() ==> exposure_closed(self.internal()))
    }

    /// The allocated grid dimensions match the board's.
    pub closed spec fn wf_grids(&self) -> bool {
        self.wf_fields()
    }

    /// A fresh board, or `Error::InvalidDimensions` when the parameters
    /// leave no room for one bomb and a safe first move, or overflow the
    /// cell count.
    pub fn new(width: Horizontal, height: Vertical, num_bombs: usize) -> (r: Result<
        Minesweeper,
        Error,
    >)
        ensures
            (r is Ok <==> ((width.0 as int) * (height.0 as int) <= usize::MAX && 0 < num_bombs && (
            num_bombs as int) < (width.0 as int) * (height.0 as int))),
            (r matches Err(e) ==> e == Error::InvalidDimensions),
            (r matches Ok(b) ==> {
                &&& b.wf()
                &&& b.spec_width() == width.0 as int
                &&& b.spec_height() == height.0 as int
                &&& b.spec_num_bombs() == num_bombs as int
                &&& b.spec_num_flags() == 0
                &&& b.spec_num_correct_flags() == 0
                &&& b.spec_state() == State::New
                &&& !b.is_initialized()
                &&& (forall|y: int, x: int|
                    b.in_bounds(x, y) ==> #[trigger] b.external()[y][x] == Tile::spec_default())
            }),
    {
        let temp_horizontal = Horizontal(0);
        let temp_vertical = Vertical(0);
        let mut minesweeper = Minesweeper {
            internal_field: Vec2d::new(temp_horizontal, temp_vertical),
            external_field: Vec2d::new(temp_horizontal, temp_vertical),
            width: temp_horizontal,
            height: temp_vertical,
            num_bombs: 0,
            num_flags: 0,
            num_correct_flags: 0,
            state: State::New,
            initialized: false,
        };
        match minesweeper.resize(width, height, num_bombs) {
            Ok(()) => Ok(minesweeper),
            Err(e) => Err(e),
        }
    }

    /// Replace the board with a fresh `width` × `height` game of
    /// `num_bombs` bombs: both grids cleared, counters reset, state `New`,
    /// layout not yet generated. Refused parameters leave the prior board
    /// untouched.
    pub fn resize(&mut self, width: Horizontal, height: Vertical, num_bombs: usize) -> (r: Result<
        (),
        Error,
    >)
        ensures
            (r is Ok <==> ((width.0 as int) * (height.0 as int) <= usize::MAX && 0 < num_bombs && (
            num_bombs as int) < (width.0 as int) * (height.0 as int))),
            (r matches Err(e) ==> e == Error::InvalidDimensions && *final(self) == *old(self)),
            r is Ok ==> {
                &&& final(self).wf()
                &&& final(self).spec_width() == width.0 as int
                &&& final(self).spec_height() == height.0 as int
                &&& final(self).spec_num_bombs() == num_bombs as int
                &&& final(self).spec_num_flags() == 0
                &&& final(self).spec_num_correct_flags() == 0
                &&& final(self).spec_state() == State::New
                &&& !final(self).is_initialized()
                &&& (forall|y: int, x: int|
                    final(self).in_bounds(x, y) ==> #[trigger] final(self).external()[y][x]
                        == Tile::spec_default())
            },
    {
        proof {
            assert((width.0 as int) * (height.0 as int) <= u128::MAX) by (nonlinear_arith)
                requires
                    width.0 <= u64::MAX,
                    height.0 <= u64::MAX,
            ;
        }
        let cells_big: u128 = (width.0 as u128) * (height.0 as u128);
        if num_bombs == 0 || cells_big > (usize::MAX as u128) || (num_bombs as u128) >= cells_big {
            return Err(Error::InvalidDimensions);
        }
        let factory = || -> (t: Tile)
            ensures
                t == Tile::spec_default(),
            { Tile::default() };
        let mut internal_field: Vec2d<Tile> = Vec2d::new(width, height);
        match internal_field.fill(factory) {
            Ok(()) => {},
            Err(e) => {
                return Err(e);
            },
        }
        let factory2 = || -> (t: Tile)
            ensures
                t == Tile::spec_default(),
            { Tile::default() };
        let mut external_field: Vec2d<Tile> = Vec2d::new(width, height);
        match external_field.fill(factory2) {
            Ok(()) => {},
            Err(e) => {
                return Err(e);
            },
        }
        self.internal_field = internal_field;
        self.external_field = external_field;
        self.width = width;
        self.height = height;
        self.num_bombs = num_bombs;
        self.num_flags = 0;
        self.num_correct_flags = 0;
        self.state = State::New;
        self.initialized = false;
        proof {
            assert forall|y: int, x: int|
                self.in_bounds(x, y) implies #[trigger] self.internal()[y][x]
                == Tile::spec_default() by {}
            assert forall|y: int, x: int|
                self.in_bounds(x, y) implies #[trigger] self.external()[y][x]
                == Tile::spec_default() by {}
            lemma_grid_count_zero(self.internal(), flag_pred());
            lemma_grid_count_zero(self.internal(), correct_flag_pred());
            assert(zero_shown_clicked(self.internal())) by {
                reveal(zero_shown_clicked);
            }
            assert(exposure_closed(self.internal())) by {
                reveal(exposure_closed);
            }
        }
        Ok(())
    }


    /// Apply one player action and report the resulting game state, per the
    /// `New → InProgress → {Won, Loss}` state machine: `Won` and `Loss` are
    /// terminal, `Start` and `Quit` belong to the surrounding shell, the
    /// first `Flag` or `Expose` generates the bomb layout (excluding the
    /// clicked cell) unless one was preset, and every failure leaves the
    /// board untouched.
    #[verifier::spinoff_prover]
    #[verifier::rlimit(100)]
    pub fn handle_action(&mut self, action: Action) -> (r: Result<State, Error>)
        requires
            old(self).wf(),
        ensures
            final(self).wf(),
            (r matches Ok(s) ==> s == final(self).spec_state()),
            r is Err ==> *final(self) == *old(self),
            (old(self).spec_state() == State::Won || old(self).spec_state() == State::Loss) ==> r
                is Ok && *final(self) == *old(self),
            (action matches Action::Start { .. } || action == Action::Quit) ==> r is Ok && *final(self) == *old(self),
            (match action {
                Action::Flag { x_position, y_position } => old(self).spec_state() == State::New
                    ==> {
                    &&& !old(self).in_bounds(x_position as int, y_position as int) ==> (r matches
                        Err(e) && e == Error::CoordinateOutOfBounds)
                    &&& old(self).in_bounds(x_position as int, y_position as int) ==> (r matches
                        Err(e) ==> e == Error::BombGenerationExhausted && !old(self).is_initialized())
                    &&& (r is Ok ==> exists|mid: Minesweeper|
                        #[trigger] fresh_game(*old(self), mid, x_position as int, y_position as int)
                            && flag_applied(
                            mid,
                            *final(self),
                            x_position as int,
                            y_position as int,
                        ))
                },
                Action::Expose { x_position, y_position } => old(self).spec_state() == State::New
                    ==> {
                    &&& !old(self).in_bounds(x_position as int, y_position as int) ==> (r matches
                        Err(e) && e == Error::CoordinateOutOfBounds)
                    &&& old(self).in_bounds(x_position as int, y_position as int) ==> (r matches
                        Err(e) ==> e == Error::BombGenerationExhausted && !old(self).is_initialized())
                    &&& (r is Ok ==> exists|mid: Minesweeper|
                        #[trigger] fresh_game(*old(self), mid, x_position as int, y_position as int)
                            && expose_applied(
                            mid,
                            *final(self),
                            x_position as int,
                            y_position as int,
                        ))
                },
                _ => true,
            }),
            (match action {
                Action::Flag { x_position, y_position } => old(self).spec_state()
                    == State::InProgress ==> {
                    &&& old(self).in_bounds(x_position as int, y_position as int) ==> r is Ok
                        && flag_applied(
                        *old(self),
                        *final(self),
                        x_position as int,
                        y_position as int,
                    )
                    &&& !old(self).in_bounds(x_position as int, y_position as int) ==> (r matches
                        Err(e) && e == Error::CoordinateOutOfBounds)
                },
                Action::Unflag { x_position, y_position } => old(self).spec_state()
                    == State::InProgress ==> {
                    &&& old(self).in_bounds(x_position as int, y_position as int) ==> r is Ok
                        && unflag_applied(
                        *old(self),
                        *final(self),
                        x_position as int,
                        y_position as int,
                    )
                    &&& !old(self).in_bounds(x_position as int, y_position as int) ==> (r matches
                        Err(e) && e == Error::CoordinateOutOfBounds)
                },
                Action::Expose { x_position, y_position } => old(self).spec_state()
                    == State::InProgress ==> {
                    &&& old(self).in_bounds(x_position as int, y_position as int) ==> r is Ok
                        && expose_applied(
                        *old(self),
                        *final(self),
                        x_position as int,
                        y_position as int,
                    )
                    &&& !old(self).in_bounds(x_position as int, y_position as int) ==> (r matches
                        Err(e) && e == Error::CoordinateOutOfBounds)
                },
                _ => true,
            }),
            (old(self).spec_state() == State::New && (action matches Action::Unflag { .. })) ==> r
                is Ok && *final(self) == *old(self),
            (old(self).spec_state() == State::New && !old(self).is_initialized() && r is Ok)
                ==> (match action {
                Action::Flag { x_position, y_position } => final(self).is_initialized() && !final(self).internal()[y_position as int][x_position as int].is_bomb,
                Action::Expose { x_position, y_position } => final(self).is_initialized()
                    && !final(self).internal()[y_position as int][x_position as int].is_bomb,
                _ => true,
            }),
    {
        match self.state {
            State::New => match action {
                Action::Flag { x_position, y_position } => {
                    if x_position >= self.width.0 || y_position >= self.height.0 {
                        return Err(Error::CoordinateOutOfBounds);
                    }
                    if !self.initialized {
                        match generate_layout(
                            self.width,
                            self.height,
                            self.num_bombs,
                            Horizontal(x_position),
                            Vertical(y_position),
                        ) {
                            Ok(g) => {
                                self.internal_field = g;
                                self.initialized = true;
                            },
                            Err(e) => {
                                return Err(e);
                            },
                        }
                    }
                    self.state = State::InProgress;
                    let ghost mid = *self;
                    proof {
                        lemma_wf_start(*old(self), mid);
                        assert(fresh_game(*old(self), mid, x_position as int, y_position as int));
                    }
                    match self.flag_tile(x_position, y_position) {
                        Ok(()) => {
                            proof {
                                assert(flag_applied(
                                    mid,
                                    *self,
                                    x_position as int,
                                    y_position as int,
                                ));
                            }
                            Ok(self.state)
                        },
                        Err(e) => Err(e),
                    }
                },
                Action::Expose { x_position, y_position } => {
                    if x_position >= self.width.0 || y_position >= self.height.0 {
                        return Err(Error::CoordinateOutOfBounds);
                    }
                    if !self.initialized {
                        match generate_layout(
                            self.width,
                            self.height,
                            self.num_bombs,
                            Horizontal(x_position),
                            Vertical(y_position),
                        ) {
                            Ok(g) => {
                                self.internal_field = g;
                                self.initialized = true;
                            },
                            Err(e) => {
                                return Err(e);
                            },
                        }
                    }
                    self.state = State::InProgress;
                    let ghost mid = *self;
                    proof {
                        lemma_wf_start(*old(self), mid);
                        assert(fresh_game(*old(self), mid, x_position as int, y_position as int));
                    }
                    match self.expose_tile(x_position, y_position) {
                        Ok(()) => {
                            proof {
                                assert(expose_applied(
                                    mid,
                                    *self,
                                    x_position as int,
                                    y_position as int,
                                ));
                            }
                            Ok(self.state)
                        },
                        Err(e) => Err(e),
                    }
                },
                _ => Ok(self.state),
            },
            State::InProgress => match action {
                Action::Flag { x_position, y_position } => {
                    match self.flag_tile(x_position, y_position) {
                        Ok(()) => Ok(self.state),
                        Err(e) => Err(e),
                    }
                },
                Action::Unflag { x_position, y_position } => {
                    match self.unflag_tile(x_position, y_position) {
                        Ok(()) => Ok(self.state),
                        Err(e) => Err(e),
                    }
                },
                Action::Expose { x_position, y_position } => {
                    match self.expose_tile(x_position, y_position) {
                        Ok(()) => Ok(self.state),
                        Err(e) => Err(e),
                    }
                },
                _ => Ok(self.state),
            },
            _ => Ok(self.state),
        }
    }


    /// Preset this game's bomb layout instead of drawing one at random: the
    /// listed cells, which must be distinct, in bounds and exactly
    /// `num_bombs` many, become the bombs of a board that is still `New`.
    /// The next `Flag` or `Expose` then plays against this layout. Meant
    /// for reproducing fixed scenarios (and for tests); a refused list
    /// leaves the board untouched.
    #[verifier::spinoff_prover]
    #[verifier::rlimit(100)]
    pub fn preset_bombs(&mut self, bombs: &Vec<(usize, usize)>) -> (r: Result<(), Error>)
        requires
            old(self).wf(),
        ensures
            final(self).wf(),
            r is Err ==> *final(self) == *old(self),
            (r matches Err(e) ==> e == Error::InvalidDimensions || e
                == Error::CoordinateOutOfBounds),
            (r is Ok <==> (old(self).spec_state() == State::New && bombs@.len() as int == old(
                self,
            ).spec_num_bombs() && (forall|k: int|
                0 <= k < bombs@.len() ==> old(self).in_bounds(
                    (#[trigger] bombs@[k]).0 as int,
                    (bombs@[k]).1 as int,
                )) && (forall|k1: int, k2: int|
                0 <= k1 < k2 < bombs@.len() ==> #[trigger] bombs@[k1] != #[trigger] bombs@[k2]))),
            r is Ok ==> {
                &&& final(self).is_initialized()
                &&& final(self).spec_state() == State::New
                &&& final(self).spec_width() == old(self).spec_width()
                &&& final(self).spec_height() == old(self).spec_height()
                &&& final(self).spec_num_bombs() == old(self).spec_num_bombs()
                &&& final(self).spec_num_flags() == old(self).spec_num_flags()
                &&& final(self).spec_num_correct_flags() == old(self).spec_num_correct_flags()
                &&& final(self).external() == old(self).external()
                &&& (forall|j: int, i: int|
                    old(self).in_bounds(i, j) ==> ((#[trigger] final(self).internal()[j][i]).is_bomb
                        <==> (exists|k: int|
                        0 <= k < bombs@.len() && ((#[trigger] bombs@[k]).0 as int) == i && (
                        bombs@[k]).1 as int == j)))
            },
    {
        match self.state {
            State::New => {},
            _ => {
                return Err(Error::InvalidDimensions);
            },
        }
        if bombs.len() != self.num_bombs {
            return Err(Error::InvalidDimensions);
        }
        let ghost start = *self;
        let mut k: usize = 0;
        while k < bombs.len()
            invariant
                forall|kk: int|
                    0 <= kk < k ==> ((#[trigger] bombs@[kk]).0 as int) < start.spec_width() && ((
                    bombs@[kk]).1 as int) < start.spec_height(),
                *self == start,
                start == *old(self),
                old(self).wf(),
                old(self).spec_state() == State::New,
                bombs@.len() as int == old(self).spec_num_bombs(),
            decreases bombs@.len() - k,
        {
            let (bx, by) = bombs[k];
            if bx >= self.width.0 || by >= self.height.0 {
                return Err(Error::CoordinateOutOfBounds);
            }
            k = k + 1;
        }
        let ghost pre = *self;
        let ghost w = pre.spec_width();
        let ghost h = pre.spec_height();
        let factory = || -> (t: Tile)
            ensures
                t == Tile::spec_default(),
            { Tile::default() };
        let mut grid: Vec2d<Tile> = Vec2d::new(self.width, self.height);
        match grid.fill(factory) {
            Ok(()) => {},
            Err(e) => {
                return Err(e);
            },
        }
        proof {
            assert forall|j: int, i: int|
                0 <= j < grid@.len() && 0 <= i < grid@[j].len() implies (#[trigger] grid@[j][i])
                == Tile::spec_default() by {}
            assert(counts_consistent(grid@)) by {
                reveal(counts_consistent);
            }
            lemma_grid_count_zero(grid@, bomb_pred());
        }
        let mut k2: usize = 0;
        while k2 < bombs.len()
            invariant
                *self == pre,
                pre.wf(),
                w == pre.spec_width(),
                h == pre.spec_height(),
                k2 <= bombs@.len(),
                bombs@.len() as int == pre.spec_num_bombs(),
                forall|kk: int|
                    0 <= kk < bombs@.len() ==> ((#[trigger] bombs@[kk]).0 as int) < w && ((
                    bombs@[kk]).1 as int) < h,
                grid.is_filled(),
                grid.spec_width() == w,
                grid.spec_height() == h,
                counts_consistent(grid@),
                grid_count(grid@, bomb_pred()) == k2,
                forall|j: int, i: int|
                    0 <= j < h && 0 <= i < w ==> ((#[trigger] grid@[j][i]).is_bomb <==> (exists|
                        k: int|
                        0 <= k < k2 && ((#[trigger] bombs@[k]).0 as int) == i && (bombs@[k]).1 as int
                            == j)),
                forall|k1: int, kk: int| 0 <= k1 < kk < k2 ==> #[trigger] bombs@[k1] != #[trigger] bombs@[kk],
                forall|j: int, i: int|
                    0 <= j < h && 0 <= i < w ==> !(#[trigger] grid@[j][i]).has_flag
                        && !grid@[j][i].is_shown && !grid@[j][i].was_clicked,
            decreases bombs@.len() - k2,
        {
            let (bx, by) = bombs[k2];
            let placed = place_bomb(&mut grid, bx, by);
            if !placed {
                proof {
                    let kdup = choose|k: int|
                        0 <= k < k2 && ((#[trigger] bombs@[k]).0 as int) == bx as int && (
                        bombs@[k]).1 as int == by as int;
                    assert(bombs@[kdup] == (bx, by));
                    assert(bombs@[kdup] == bombs@[k2 as int]);
                }
                return Err(Error::InvalidDimensions);
            }
            k2 = k2 + 1;
            proof {
                assert forall|j: int, i: int|
                    0 <= j < h && 0 <= i < w implies ((#[trigger] grid@[j][i]).is_bomb <==> (exists|
                    k: int|
                    0 <= k < k2 && ((#[trigger] bombs@[k]).0 as int) == i && (bombs@[k]).1 as int
                        == j)) by {
                    if grid@[j][i].is_bomb {
                        if i == bx as int && j == by as int {
                            assert(((#[trigger] bombs@[k2 - 1]).0 as int) == i && (
                            bombs@[k2 - 1]).1 as int == j);
                        }
                    }
                }
                assert forall|k1: int, kk: int| 0 <= k1 < kk < k2 implies #[trigger] bombs@[k1]
                    != #[trigger] bombs@[kk] by {
                    if kk == k2 - 1 {
                        if bombs@[k1] == bombs@[kk] {
                            assert(((bombs@[k1]).0 as int) == bx as int && ((bombs@[k1]).1 as int)
                                == by as int);
                        }
                    }
                }
            }
        }
        self.internal_field = grid;
        self.initialized = true;
        let ghost post = *self;
        proof {
            lemma_wf_start(pre, post);
        }
        Ok(())
    }

    /// The current game state, for the shell to render.
    pub fn get_state(&self) -> (r: &State)
        ensures
            *r == self.spec_state(),
    {
        &self.state
    }

    /// The external grid, row by row, for the shell to render. Bomb
    /// identity appears here only once the game is lost.
    pub fn get_tiles(&self) -> (r: &Vec<Vec<Tile>>)
        ensures
            r@.len() == self.external().len(),
            forall|y: int| 0 <= y < r@.len() ==> (#[trigger] r@[y])@ == self.external()[y],
    {
        self.external_field.as_vec_vec()
    }
}

/// How a `Flag` action transforms a board that is in play: a no-op on an
/// already-flagged cell; otherwise the flag is set on both grids, the
/// counters rise (`num_correct_flags` only for a bomb), and the game is won
/// exactly when every flag is correct and every bomb flagged, upon which
/// the win reveal shows the whole safe board.
pub open spec fn flag_applied(pre: Minesweeper, post: Minesweeper, x: int, y: int) -> bool {
    let t = pre.internal()[y][x];
    if t.has_flag {
        post == pre
    } else {
        let gi1 = with_flag(pre.internal(), x, y, true);
        let ge1 = with_flag(pre.external(), x, y, true);
        let nf1 = pre.spec_num_flags() + 1;
        let ncf1 = pre.spec_num_correct_flags() + (if t.is_bomb {
            1int
        } else {
            0int
        });
        let won = nf1 == ncf1 && ncf1 == pre.spec_num_bombs();
        &&& post.spec_width() == pre.spec_width()
        &&& post.spec_height() == pre.spec_height()
        &&& post.spec_num_bombs() == pre.spec_num_bombs()
        &&& post.is_initialized() == pre.is_initialized()
        &&& post.spec_num_flags() == nf1
        &&& post.spec_num_correct_flags() == ncf1
        &&& post.spec_state() == (if won {
            State::Won
        } else {
            pre.spec_state()
        })
        &&& post.internal() == (if won {
            win_reveal_internal(gi1)
        } else {
            gi1
        })
        &&& post.external() == (if won {
            win_reveal_external(gi1, ge1)
        } else {
            ge1
        })
    }
}

/// How an `Unflag` action transforms a board that is in play: a no-op on a
/// cell without a flag; otherwise the mirror of flagging, with the same
/// counters falling. Unflagging never changes the game state.
pub open spec fn unflag_applied(pre: Minesweeper, post: Minesweeper, x: int, y: int) -> bool {
    let t = pre.internal()[y][x];
    if !t.has_flag {
        post == pre
    } else {
        &&& post.spec_width() == pre.spec_width()
        &&& post.spec_height() == pre.spec_height()
        &&& post.spec_num_bombs() == pre.spec_num_bombs()
        &&& post.is_initialized() == pre.is_initialized()
        &&& post.spec_num_flags() == pre.spec_num_flags() - 1
        &&& post.spec_num_correct_flags() == pre.spec_num_correct_flags() - (if t.is_bomb {
            1int
        } else {
            0int
        })
        &&& post.spec_state() == pre.spec_state()
        &&& post.internal() == with_flag(pre.internal(), x, y, false)
        &&& post.external() == with_flag(pre.external(), x, y, false)
    }
}


/// What flagging one unflagged cell does to the three counters the board
/// tracks: one more flag (still at most one per cell), one more correct
/// flag exactly when the cell is a bomb, and no new bombs.
proof fn lemma_flag_update_counts(g: Seq<Seq<Tile>>, x: int, y: int, w: int, h: int)
    requires
        rectangular(g, w, h),
        0 <= y < h,
        0 <= x < w,
        !g[y][x].has_flag,
    ensures
        ({
            let nt = (Tile { has_flag: true, ..g[y][x] });
            let g2 = g.update(y, g[y].update(x, nt));
            &&& grid_count(g2, flag_pred()) == grid_count(g, flag_pred()) + 1
            &&& grid_count(g2, flag_pred()) <= h * w
            &&& grid_count(g2, correct_flag_pred()) == grid_count(g, correct_flag_pred()) + (if g[y][x].is_bomb {
                1int
            } else {
                0int
            })
            &&& grid_count(g2, correct_flag_pred()) <= grid_count(g2, flag_pred())
            &&& grid_count(g2, bomb_pred()) == grid_count(g, bomb_pred())
        }),
{
    let nt = (Tile { has_flag: true, ..g[y][x] });
    let g2 = g.update(y, g[y].update(x, nt));
    lemma_grid_count_update_cell(g, x, y, nt, flag_pred());
    lemma_grid_count_update_cell(g, x, y, nt, correct_flag_pred());
    lemma_grid_count_update_cell(g, x, y, nt, bomb_pred());
    assert(forall|j: int| 0 <= j < g2.len() ==> (#[trigger] g2[j]).len() == w);
    lemma_grid_count_bounds(g2, flag_pred(), w);
    assert(g2.len() * w == h * w);
    lemma_grid_count_le(g2, correct_flag_pred(), flag_pred());
}

/// Well-formedness survives a change that touches nothing but flags, as
/// long as the counters follow the grid and the two grids keep their flags
/// in step.
proof fn lemma_wf_flagchange(pre: Minesweeper, post: Minesweeper)
    requires
        pre.wf(),
        pre.spec_state() == State::InProgress,
        pre.is_initialized(),
        post.wf_grids(),
        post.spec_width() == pre.spec_width(),
        post.spec_height() == pre.spec_height(),
        post.spec_num_bombs() == pre.spec_num_bombs(),
        post.is_initialized(),
        post.spec_state() == State::InProgress,
        rectangular(post.internal(), post.spec_width(), post.spec_height()),
        rectangular(post.external(), post.spec_width(), post.spec_height()),
        post.spec_num_flags() == grid_count(post.internal(), flag_pred()),
        post.spec_num_correct_flags() == grid_count(post.internal(), correct_flag_pred()),
        forall|y: int, x: int|
            pre.in_bounds(x, y) ==> {
                let a = #[trigger] pre.internal()[y][x];
                let b = #[trigger] post.internal()[y][x];
                &&& b.is_bomb == a.is_bomb
                &&& b.is_shown == a.is_shown
                &&& b.was_clicked == a.was_clicked
                &&& b.num_bombs_around == a.num_bombs_around
            },
        forall|y: int, x: int|
            pre.in_bounds(x, y) ==> {
                let a = #[trigger] pre.external()[y][x];
                let b = #[trigger] post.external()[y][x];
                &&& b.is_bomb == a.is_bomb
                &&& b.is_shown == a.is_shown
                &&& b.num_bombs_around == a.num_bombs_around
            },
        forall|y: int, x: int|
            pre.in_bounds(x, y) ==> (#[trigger] post.external()[y][x]).has_flag == (
            #[trigger] post.internal()[y][x]).has_flag,
    ensures
        post.wf(),
{
    lemma_grid_count_congruent(pre.internal(), post.internal(), bomb_pred());
    lemma_bombs_adjacent_congruent(pre.internal(), post.internal());
    assert(counts_consistent(post.internal())) by {
        reveal(counts_consistent);
        assert forall|x: int, y: int|
            0 <= y < post.internal().len() && 0 <= x < post.internal()[y].len() implies (
        #[trigger] post.internal()[y][x]).num_bombs_around == bombs_adjacent(
            post.internal(),
            x,
            y,
        ) by {
            assert(pre.internal()[y][x].num_bombs_around == bombs_adjacent(pre.internal(), x, y));
        }
    }
    assert(zero_shown_clicked(post.internal())) by {
        reveal(zero_shown_clicked);
        assert forall|y: int, x: int|
            0 <= y < post.internal().len() && 0 <= x < post.internal()[y].len() && (
            #[trigger] post.internal()[y][x]).is_shown && post.internal()[y][x].num_bombs_around
                == 0 implies post.internal()[y][x].was_clicked by {
            assert(pre.internal()[y][x].is_shown && pre.internal()[y][x].num_bombs_around == 0);
        }
    }
    assert(exposure_closed(post.internal())) by {
        reveal(exposure_closed);
        assert forall|y: int, x: int, j: int, i: int|
            0 <= y < post.internal().len() && 0 <= x < post.internal()[y].len() && (
            #[trigger] post.internal()[y][x]).was_clicked && !post.internal()[y][x].is_bomb && 0
                <= j < post.internal().len() && 0 <= i < post.internal()[j].len() && adjacent(
                i,
                j,
                x,
                y,
            ) implies (#[trigger] post.internal()[j][i]).is_shown by {
            assert(pre.internal()[y][x].was_clicked && !pre.internal()[y][x].is_bomb);
            assert(pre.internal()[j][i].is_shown);
        }
    }
    assert forall|y: int, x: int|
        post.in_bounds(x, y) implies !(#[trigger] post.external()[y][x]).is_bomb by {
        assert(!pre.external()[y][x].is_bomb);
    }
    assert forall|y: int, x: int|
        post.in_bounds(x, y) implies {
            let ti = #[trigger] post.internal()[y][x];
            let te = #[trigger] post.external()[y][x];
            &&& te.has_flag == ti.has_flag
            &&& te.is_shown == ti.is_shown
            &&& (te.is_bomb ==> ti.is_bomb)
            &&& (te.is_shown ==> te.num_bombs_around == ti.num_bombs_around)
        } by {
        assert(pre.external()[y][x].is_shown == pre.internal()[y][x].is_shown);
        assert(pre.external()[y][x].is_shown ==> pre.external()[y][x].num_bombs_around
            == pre.internal()[y][x].num_bombs_around);
    }
}

/// Well-formedness of the board the win reveal leaves behind, given a
/// well-formed in-play board whose counters already meet the win condition.
proof fn lemma_wf_won(mid: Minesweeper, post: Minesweeper)
    requires
        mid.wf(),
        mid.is_initialized(),
        mid.spec_state() == State::InProgress,
        mid.spec_num_flags() == mid.spec_num_correct_flags(),
        mid.spec_num_correct_flags() == mid.spec_num_bombs(),
        post.wf_grids(),
        post.spec_width() == mid.spec_width(),
        post.spec_height() == mid.spec_height(),
        post.spec_num_bombs() == mid.spec_num_bombs(),
        post.spec_num_flags() == mid.spec_num_flags(),
        post.spec_num_correct_flags() == mid.spec_num_correct_flags(),
        post.is_initialized(),
        post.spec_state() == State::Won,
        rectangular(post.internal(), post.spec_width(), post.spec_height()),
        rectangular(post.external(), post.spec_width(), post.spec_height()),
        forall|y: int, x: int|
            mid.in_bounds(x, y) ==> #[trigger] post.internal()[y][x] == win_internal_cell(
                mid.internal()[y][x],
            ),
        forall|y: int, x: int|
            mid.in_bounds(x, y) ==> #[trigger] post.external()[y][x] == win_external_cell(
                mid.internal()[y][x],
                mid.external()[y][x],
            ),
    ensures
        post.wf(),
{
    lemma_grid_count_congruent(mid.internal(), post.internal(), bomb_pred());
    lemma_grid_count_congruent(mid.internal(), post.internal(), flag_pred());
    lemma_grid_count_congruent(mid.internal(), post.internal(), correct_flag_pred());
    lemma_bombs_adjacent_congruent(mid.internal(), post.internal());
    assert(counts_consistent(post.internal())) by {
        reveal(counts_consistent);
        assert forall|x: int, y: int|
            0 <= y < post.internal().len() && 0 <= x < post.internal()[y].len() implies (
        #[trigger] post.internal()[y][x]).num_bombs_around == bombs_adjacent(
            post.internal(),
            x,
            y,
        ) by {
            assert(mid.internal()[y][x].num_bombs_around == bombs_adjacent(mid.internal(), x, y));
        }
    }
}


/// How an `Expose` action transforms a board that is in play, given the
/// clicked in-bounds cell `(x, y)`: bombs, counts and flags are untouched,
/// shown and visited cells only grow, the clicked cell is shown and
/// visited, and either the clicked cell was a bomb — the game is lost and
/// every bomb becomes externally visible — or the game goes on with the
/// clicked cell and its whole neighbourhood revealed.
pub open spec fn expose_applied(pre: Minesweeper, post: Minesweeper, x: int, y: int) -> bool {
    let gi = pre.internal();
    let hit = gi[y][x].is_bomb;
    &&& post.spec_width() == pre.spec_width()
    &&& post.spec_height() == pre.spec_height()
    &&& post.spec_num_bombs() == pre.spec_num_bombs()
    &&& post.is_initialized() == pre.is_initialized()
    &&& post.spec_num_flags() == pre.spec_num_flags()
    &&& post.spec_num_correct_flags() == pre.spec_num_correct_flags()
    &&& post.spec_state() == (if hit {
        State::Loss
    } else {
        pre.spec_state()
    })
    &&& (forall|j: int, i: int|
        pre.in_bounds(i, j) ==> {
            let a = #[trigger] gi[j][i];
            let b = #[trigger] post.internal()[j][i];
            &&& b.is_bomb == a.is_bomb
            &&& b.num_bombs_around == a.num_bombs_around
            &&& b.has_flag == a.has_flag
            &&& (a.is_shown ==> b.is_shown)
            &&& (a.was_clicked ==> b.was_clicked)
        })
    &&& (forall|j: int, i: int|
        pre.in_bounds(i, j) ==> {
            let a = #[trigger] pre.external()[j][i];
            let b = #[trigger] post.external()[j][i];
            &&& b.has_flag == a.has_flag
            &&& (a.is_shown ==> b.is_shown)
        })
    &&& post.internal()[y][x].is_shown
    &&& post.internal()[y][x].was_clicked
    &&& (hit ==> forall|j: int, i: int|
        pre.in_bounds(i, j) && (#[trigger] gi[j][i]).is_bomb ==> (
        #[trigger] post.internal()[j][i]).is_shown && post.external()[j][i].is_shown
            && post.external()[j][i].is_bomb)
    &&& (!hit ==> post.external()[y][x].is_shown && post.external()[y][x].num_bombs_around
        == gi[y][x].num_bombs_around)
    &&& (!hit ==> forall|j: int, i: int|
        pre.in_bounds(i, j) && adjacent(i, j, x, y) ==> (#[trigger] post.internal()[j][i]).is_shown
            && (#[trigger] post.external()[j][i]).is_shown)
}


/// The exposure loop's running relation between the starting board and the
/// current grids: bombs, counts and flags are untouched, shown and visited
/// cells only grow, and the external grid mirrors the internal one.
#[verifier::opaque]
pub open spec fn tracks_base(pre: Minesweeper, cur: Minesweeper) -> bool {
    &&& (forall|j: int, i: int|
        pre.in_bounds(i, j) ==> {
            let a = #[trigger] pre.internal()[j][i];
            let b = #[trigger] cur.internal()[j][i];
            &&& b.is_bomb == a.is_bomb
            &&& b.num_bombs_around == a.num_bombs_around
            &&& b.has_flag == a.has_flag
            &&& (a.is_shown ==> b.is_shown)
            &&& (a.was_clicked ==> b.was_clicked)
        })
    &&& (forall|j: int, i: int|
        pre.in_bounds(i, j) ==> {
            let a = #[trigger] pre.external()[j][i];
            let b = #[trigger] cur.external()[j][i];
            &&& b.has_flag == a.has_flag
            &&& (a.is_shown ==> b.is_shown)
        })
    &&& (forall|j: int, i: int|
        pre.in_bounds(i, j) ==> {
            let ti = #[trigger] cur.internal()[j][i];
            let te = #[trigger] cur.external()[j][i];
            &&& te.has_flag == ti.has_flag
            &&& te.is_shown == ti.is_shown
            &&& (te.is_bomb ==> ti.is_bomb)
            &&& (te.is_shown ==> te.num_bombs_around == ti.num_bombs_around)
        })
}

/// Well-formedness of the board the loss reveal leaves behind.
proof fn lemma_wf_loss(mid: Minesweeper, post: Minesweeper)
    requires
        mid.wf_grids(),
        rectangular(mid.internal(), mid.spec_width(), mid.spec_height()),
        rectangular(mid.external(), mid.spec_width(), mid.spec_height()),
        0 < mid.spec_num_bombs() < mid.spec_width() * mid.spec_height(),
        mid.spec_width() * mid.spec_height() <= usize::MAX,
        mid.spec_num_flags() == grid_count(mid.internal(), flag_pred()),
        mid.spec_num_correct_flags() == grid_count(mid.internal(), correct_flag_pred()),
        grid_count(mid.internal(), bomb_pred()) == mid.spec_num_bombs(),
        counts_consistent(mid.internal()),
        mid.is_initialized(),
        forall|y: int, x: int|
            mid.in_bounds(x, y) ==> {
                let ti = #[trigger] mid.internal()[y][x];
                let te = #[trigger] mid.external()[y][x];
                &&& te.has_flag == ti.has_flag
                &&& te.is_shown == ti.is_shown
                &&& (te.is_bomb ==> ti.is_bomb)
                &&& (te.is_shown ==> te.num_bombs_around == ti.num_bombs_around)
            },
        post.wf_grids(),
        post.spec_width() == mid.spec_width(),
        post.spec_height() == mid.spec_height(),
        post.spec_num_bombs() == mid.spec_num_bombs(),
        post.spec_num_flags() == mid.spec_num_flags(),
        post.spec_num_correct_flags() == mid.spec_num_correct_flags(),
        post.is_initialized(),
        post.spec_state() == State::Loss,
        rectangular(post.internal(), post.spec_width(), post.spec_height()),
        rectangular(post.external(), post.spec_width(), post.spec_height()),
        forall|y: int, x: int|
            mid.in_bounds(x, y) ==> #[trigger] post.internal()[y][x] == loss_internal_cell(
                mid.internal()[y][x],
            ),
        forall|y: int, x: int|
            mid.in_bounds(x, y) ==> #[trigger] post.external()[y][x] == loss_external_cell(
                mid.internal()[y][x],
                mid.external()[y][x],
            ),
    ensures
        post.wf(),
{
    lemma_grid_count_congruent(mid.internal(), post.internal(), bomb_pred());
    lemma_grid_count_congruent(mid.internal(), post.internal(), flag_pred());
    lemma_grid_count_congruent(mid.internal(), post.internal(), correct_flag_pred());
    lemma_bombs_adjacent_congruent(mid.internal(), post.internal());
    assert(counts_consistent(post.internal())) by {
        reveal(counts_consistent);
        assert forall|x: int, y: int|
            0 <= y < post.internal().len() && 0 <= x < post.internal()[y].len() implies (
        #[trigger] post.internal()[y][x]).num_bombs_around == bombs_adjacent(
            post.internal(),
            x,
            y,
        ) by {
            assert(mid.internal()[y][x].num_bombs_around == bombs_adjacent(mid.internal(), x, y));
        }
    }
}

/// Well-formedness of the board an exposure leaves behind when no bomb was
/// hit: flags and bombs are as before, only more is shown and visited, and
/// the cascade's closure facts hold again.
proof fn lemma_wf_expose_nohit(pre: Minesweeper, post: Minesweeper)
    requires
        pre.wf(),
        pre.is_initialized(),
        pre.spec_state() == State::InProgress,
        post.wf_grids(),
        post.spec_width() == pre.spec_width(),
        post.spec_height() == pre.spec_height(),
        post.spec_num_bombs() == pre.spec_num_bombs(),
        post.spec_num_flags() == pre.spec_num_flags(),
        post.spec_num_correct_flags() == pre.spec_num_correct_flags(),
        post.is_initialized(),
        post.spec_state() == State::InProgress,
        rectangular(post.internal(), post.spec_width(), post.spec_height()),
        rectangular(post.external(), post.spec_width(), post.spec_height()),
        forall|j: int, i: int|
            pre.in_bounds(i, j) ==> {
                let a = #[trigger] pre.internal()[j][i];
                let b = #[trigger] post.internal()[j][i];
                &&& b.is_bomb == a.is_bomb
                &&& b.num_bombs_around == a.num_bombs_around
                &&& b.has_flag == a.has_flag
            },
        forall|y: int, x: int|
            pre.in_bounds(x, y) ==> {
                let ti = #[trigger] post.internal()[y][x];
                let te = #[trigger] post.external()[y][x];
                &&& te.has_flag == ti.has_flag
                &&& te.is_shown == ti.is_shown
                &&& (te.is_bomb ==> ti.is_bomb)
                &&& (te.is_shown ==> te.num_bombs_around == ti.num_bombs_around)
            },
        forall|y: int, x: int|
            pre.in_bounds(x, y) ==> !(#[trigger] post.external()[y][x]).is_bomb,
        zero_shown_clicked(post.internal()),
        exposure_closed(post.internal()),
    ensures
        post.wf(),
{
    lemma_grid_count_congruent(pre.internal(), post.internal(), bomb_pred());
    lemma_grid_count_congruent(pre.internal(), post.internal(), flag_pred());
    lemma_grid_count_congruent(pre.internal(), post.internal(), correct_flag_pred());
    lemma_bombs_adjacent_congruent(pre.internal(), post.internal());
    assert(counts_consistent(post.internal())) by {
        reveal(counts_consistent);
        assert forall|x: int, y: int|
            0 <= y < post.internal().len() && 0 <= x < post.internal()[y].len() implies (
        #[trigger] post.internal()[y][x]).num_bombs_around == bombs_adjacent(
            post.internal(),
            x,
            y,
        ) by {
            assert(pre.internal()[y][x].num_bombs_around == bombs_adjacent(pre.internal(), x, y));
        }
    }
}


/// The first move of a game: if no layout exists yet, one is generated with
/// exactly `num_bombs` bombs, the clicked cell `(x, y)` excluded, every
/// cell unflagged, hidden and unvisited; an already preset layout is kept.
/// Either way the game moves to `InProgress` and the external grid and all
/// counters are untouched.
pub open spec fn fresh_game(pre: Minesweeper, mid: Minesweeper, x: int, y: int) -> bool {
    &&& mid.spec_width() == pre.spec_width()
    &&& mid.spec_height() == pre.spec_height()
    &&& mid.spec_num_bombs() == pre.spec_num_bombs()
    &&& mid.spec_num_flags() == pre.spec_num_flags()
    &&& mid.spec_num_correct_flags() == pre.spec_num_correct_flags()
    &&& mid.spec_state() == State::InProgress
    &&& mid.is_initialized()
    &&& mid.external() == pre.external()
    &&& (if pre.is_initialized() {
        mid.internal() == pre.internal()
    } else {
        &&& rectangular(mid.internal(), pre.spec_width(), pre.spec_height())
        &&& grid_count(mid.internal(), bomb_pred()) == pre.spec_num_bombs()
        &&& counts_consistent(mid.internal())
        &&& !mid.internal()[y][x].is_bomb
        &&& (forall|j: int, i: int|
            pre.in_bounds(i, j) ==> !(#[trigger] mid.internal()[j][i]).has_flag
                && !mid.internal()[j][i].is_shown && !mid.internal()[j][i].was_clicked)
    })
}

/// Well-formedness of the board at the start of a game, after the layout
/// came into place (generated or preset) on a board that was still `New`.
proof fn lemma_wf_start(pre: Minesweeper, mid: Minesweeper)
    requires
        pre.wf(),
        pre.spec_state() == State::New,
        mid.wf_grids(),
        mid.spec_width() == pre.spec_width(),
        mid.spec_height() == pre.spec_height(),
        mid.spec_num_bombs() == pre.spec_num_bombs(),
        mid.spec_num_flags() == pre.spec_num_flags(),
        mid.spec_num_correct_flags() == pre.spec_num_correct_flags(),
        mid.spec_state() == State::InProgress || mid.spec_state() == State::New,
        mid.is_initialized(),
        mid.external() == pre.external(),
        rectangular(mid.internal(), pre.spec_width(), pre.spec_height()),
        grid_count(mid.internal(), bomb_pred()) == mid.spec_num_bombs(),
        counts_consistent(mid.internal()),
        forall|j: int, i: int|
            pre.in_bounds(i, j) ==> !(#[trigger] mid.internal()[j][i]).has_flag
                && !mid.internal()[j][i].is_shown && !mid.internal()[j][i].was_clicked,
    ensures
        mid.wf(),
{
    lemma_grid_count_zero(mid.internal(), flag_pred());
    lemma_grid_count_zero(mid.internal(), correct_flag_pred());
    lemma_grid_count_zero(pre.internal(), flag_pred());
    lemma_grid_count_zero(pre.internal(), correct_flag_pred());
    assert(zero_shown_clicked(mid.internal())) by {
        reveal(zero_shown_clicked);
    }
    assert(exposure_closed(mid.internal())) by {
        reveal(exposure_closed);
    }
    assert forall|y: int, x: int| mid.in_bounds(x, y) implies {
        let ti = #[trigger] mid.internal()[y][x];
        let te = #[trigger] mid.external()[y][x];
        &&& te.has_flag == ti.has_flag
        &&& te.is_shown == ti.is_shown
        &&& (te.is_bomb ==> ti.is_bomb)
        &&& (te.is_shown ==> te.num_bombs_around == ti.num_bombs_around)
    } by {
        assert(pre.external()[y][x].has_flag == pre.internal()[y][x].has_flag);
        assert(pre.external()[y][x].is_shown == pre.internal()[y][x].is_shown);
        assert(!pre.internal()[y][x].has_flag && !pre.internal()[y][x].is_shown);
        assert(!pre.external()[y][x].is_bomb);
    }
}

impl Minesweeper {
    /// Transition to `Won` and run the win reveal on both grids.
    #[verifier::spinoff_prover]
    fn finish_win(&mut self)
        requires
            old(self).wf(),
            old(self).is_initialized(),
            old(self).spec_state() == State::InProgress,
            old(self).spec_num_flags() == old(self).spec_num_correct_flags(),
            old(self).spec_num_correct_flags() == old(self).spec_num_bombs(),
        ensures
            final(self).wf(),
            final(self).spec_state() == State::Won,
            final(self).spec_width() == old(self).spec_width(),
            final(self).spec_height() == old(self).spec_height(),
            final(self).spec_num_bombs() == old(self).spec_num_bombs(),
            final(self).spec_num_flags() == old(self).spec_num_flags(),
            final(self).spec_num_correct_flags() == old(self).spec_num_correct_flags(),
            final(self).is_initialized(),
            final(self).internal() == win_reveal_internal(old(self).internal()),
            final(self).external() == win_reveal_external(
                old(self).internal(),
                old(self).external(),
            ),
    {
        let ghost mid = *self;
        self.state = State::Won;
        crate::flood::win_reveal(&mut self.internal_field, &mut self.external_field);
        proof {
            lemma_wf_won(mid, *self);
            crate::board_spec::lemma_win_reveal_views(
                mid.internal(),
                mid.external(),
                self.internal(),
                self.external(),
            );
        }
    }

    /// Set the flag of the unflagged in-bounds cell `(x, y)` on both grids
    /// and move the counters with it.
    #[verifier::spinoff_prover]
    #[verifier::rlimit(100)]
    fn apply_flag(&mut self, x: usize, y: usize)
        requires
            old(self).wf(),
            old(self).is_initialized(),
            old(self).spec_state() == State::InProgress,
            old(self).in_bounds(x as int, y as int),
            !old(self).internal()[y as int][x as int].has_flag,
        ensures
            final(self).wf(),
            final(self).spec_width() == old(self).spec_width(),
            final(self).spec_height() == old(self).spec_height(),
            final(self).spec_num_bombs() == old(self).spec_num_bombs(),
            final(self).is_initialized(),
            final(self).spec_state() == State::InProgress,
            final(self).spec_num_flags() == old(self).spec_num_flags() + 1,
            final(self).spec_num_correct_flags() == old(self).spec_num_correct_flags() + (if old(self).internal()[y as int][x as int].is_bomb {
                1int
            } else {
                0int
            }),
            final(self).internal() == with_flag(old(self).internal(), x as int, y as int, true),
            final(self).external() == with_flag(old(self).external(), x as int, y as int, true),
    {
        let hx = Horizontal(x);
        let vy = Vertical(y);
        let t: Tile = match self.internal_field.get(&hx, &vy) {
            Some(t) => *t,
            None => {
                proof {
                    assert(false);
                }
                Tile::default()
            },
        };
        let ghost pre = *self;
        let mut nt = t;
        nt.has_flag = true;
        self.internal_field.put(&hx, &vy, nt);
        proof {
            lemma_flag_update_counts(
                pre.internal(),
                x as int,
                y as int,
                pre.spec_width(),
                pre.spec_height(),
            );
            assert(nt == (Tile { has_flag: true, ..pre.internal()[y as int][x as int] }));
            assert(self.internal() == pre.internal().update(
                y as int,
                pre.internal()[y as int].update(x as int, nt),
            ));
            assert(grid_count(self.internal(), flag_pred()) == grid_count(
                pre.internal(),
                flag_pred(),
            ) + 1);
            assert(grid_count(self.internal(), flag_pred()) <= pre.spec_height()
                * pre.spec_width());
            assert(pre.spec_num_flags() == grid_count(pre.internal(), flag_pred()));
            assert(pre.spec_num_flags() < usize::MAX);
        }
        let te: Tile = match self.external_field.get(&hx, &vy) {
            Some(t2) => *t2,
            None => {
                proof {
                    assert(false);
                }
                Tile::default()
            },
        };
        let mut nte = te;
        nte.has_flag = true;
        self.external_field.put(&hx, &vy, nte);
        self.num_flags = self.num_flags + 1;
        if nt.is_bomb {
            self.num_correct_flags = self.num_correct_flags + 1;
        }
        proof {
            assert(self.internal() == with_flag(pre.internal(), x as int, y as int, true));
            assert(self.external() == with_flag(pre.external(), x as int, y as int, true));
            lemma_wf_flagchange(pre, *self);
        }
    }



    /// One step of the exposure cascade: the cell `(cx, cy)` — the queue
    /// entry just before `head` — is marked shown and visited on the
    /// internal grid and copied to the external one. A bomb ends the step
    /// (and the cascade); otherwise its whole neighbourhood is revealed and
    /// fresh zero-count neighbours are queued.
    #[verifier::spinoff_prover]
    #[verifier::rlimit(100)]
    fn expose_step(
        &mut self,
        queue: &mut Vec<(usize, usize)>,
        head: usize,
        cx: usize,
        cy: usize,
        Ghost(pre): Ghost<Minesweeper>,
    ) -> (hit: bool)
        requires
            counts_consistent(pre.internal()),
            rectangular(pre.internal(), pre.spec_width(), pre.spec_height()),
            rectangular(pre.external(), pre.spec_width(), pre.spec_height()),
            forall|j: int, i: int|
                0 <= j < pre.spec_height() && 0 <= i < pre.spec_width() ==> (#[trigger] pre.external()[j][i]).has_flag == (#[trigger] pre.internal()[j][i]).has_flag,
            old(self).wf_grids(),
            rectangular(old(self).internal(), pre.spec_width(), pre.spec_height()),
            rectangular(old(self).external(), pre.spec_width(), pre.spec_height()),
            old(self).spec_width() == pre.spec_width(),
            old(self).spec_height() == pre.spec_height(),
            tracks_base(pre, *old(self)),
            zero_shown_clicked(old(self).internal()),
            exposure_closed_except(old(self).internal(), old(queue)@, head as int - 1),
            0 < head <= old(queue)@.len(),
            old(queue)@[head as int - 1] == (cx, cy),
            (cx as int) < pre.spec_width(),
            (cy as int) < pre.spec_height(),
        ensures
            final(self).spec_width() == old(self).spec_width(),
            final(self).spec_height() == old(self).spec_height(),
            final(self).spec_num_bombs() == old(self).spec_num_bombs(),
            final(self).spec_num_flags() == old(self).spec_num_flags(),
            final(self).spec_num_correct_flags() == old(self).spec_num_correct_flags(),
            final(self).is_initialized() == old(self).is_initialized(),
            final(self).spec_state() == old(self).spec_state(),
            final(self).wf_grids(),
            rectangular(final(self).internal(), pre.spec_width(), pre.spec_height()),
            rectangular(final(self).external(), pre.spec_width(), pre.spec_height()),
            tracks_base(pre, *final(self)),
            zero_shown_clicked(final(self).internal()),
            exposure_closed_except(final(self).internal(), final(queue)@, head as int),
            final(queue)@.len() >= old(queue)@.len(),
            forall|k: int| 0 <= k < old(queue)@.len() ==> final(queue)@[k] == old(queue)@[k],
            forall|k: int|
                old(queue)@.len() <= k < final(queue)@.len() ==> ((
                #[trigger] final(queue)@[k]).0 as int) < pre.spec_width() && (
                final(queue)@[k].1 as int) < pre.spec_height()
                    && !pre.internal()[final(queue)@[k].1 as int][final(queue)@[k].0 as int].is_bomb,
            grid_count(final(self).internal(), clicked_pred()) >= grid_count(
                old(self).internal(),
                clicked_pred(),
            ),
            grid_count(final(self).internal(), clicked_pred()) - grid_count(
                old(self).internal(),
                clicked_pred(),
            ) >= final(queue)@.len() - old(queue)@.len(),
            hit == pre.internal()[cy as int][cx as int].is_bomb,
            final(self).internal()[cy as int][cx as int].is_shown,
            final(self).internal()[cy as int][cx as int].was_clicked,
            hit ==> final(self).external()[cy as int][cx as int].is_bomb && final(self).external()[cy as int][cx as int].is_shown,
            hit ==> final(queue)@ == old(queue)@,
            !hit ==> final(self).external()[cy as int][cx as int].is_shown,
            !hit ==> forall|j: int, i: int|
                0 <= j < pre.spec_height() && 0 <= i < pre.spec_width() && adjacent(
                    i,
                    j,
                    cx as int,
                    cy as int,
                ) ==> (#[trigger] final(self).internal()[j][i]).is_shown && (
                #[trigger] final(self).external()[j][i]).is_shown,
            forall|j: int, i: int|
                0 <= j < pre.spec_height() && 0 <= i < pre.spec_width() ==> ((
                #[trigger] old(self).internal()[j][i]).is_shown ==> (
                #[trigger] final(self).internal()[j][i]).is_shown) && (
                old(self).internal()[j][i].was_clicked ==> final(self).internal()[j][i].was_clicked),
            forall|j: int, i: int|
                0 <= j < pre.spec_height() && 0 <= i < pre.spec_width() ==> ((
                #[trigger] old(self).external()[j][i]).is_shown ==> (
                #[trigger] final(self).external()[j][i]).is_shown),
            forall|j: int, i: int|
                0 <= j < pre.spec_height() && 0 <= i < pre.spec_width() && !(i == cx as int && j
                    == cy as int) ==> (#[trigger] final(self).external()[j][i]).is_bomb == (
                #[trigger] old(self).external()[j][i]).is_bomb,
            !hit ==> !final(self).external()[cy as int][cx as int].is_bomb,
    {
        let ghost w = pre.spec_width();
        let ghost h = pre.spec_height();
        let ghost it_pre = *self;
        let ghost q_pre = queue@;
        let hx = Horizontal(cx);
        let vy = Vertical(cy);
        let c: Tile = match self.internal_field.get(&hx, &vy) {
            Some(t) => *t,
            None => {
                proof {
                    assert(false);
                }
                Tile::default()
            },
        };
        let mut ni = c;
        ni.is_shown = true;
        ni.was_clicked = true;
        self.internal_field.put(&hx, &vy, ni);
        proof {
            lemma_grid_count_update_cell(it_pre.internal(), cx as int, cy as int, ni, clicked_pred());
            assert(tracks_base(pre, *old(self)));
            assert(c.is_bomb == pre.internal()[cy as int][cx as int].is_bomb) by {
                reveal(tracks_base);
            }
        }
        self.external_field.put(&hx, &vy, ni);
        if c.is_bomb {
            proof {
                assert(tracks_base(pre, *self)) by {
                    reveal(tracks_base);
                    assert(tracks_base(pre, it_pre));
                }
                assert(zero_shown_clicked(self.internal())) by {
                    reveal(zero_shown_clicked);
                    assert(zero_shown_clicked(it_pre.internal()));
                }
                assert(exposure_closed_except(self.internal(), queue@, head as int)) by {
                    reveal(exposure_closed_except);
                    assert(exposure_closed_except(it_pre.internal(), q_pre, head as int - 1));
                    assert forall|yy: int, xx: int, j: int, i: int|
                        0 <= yy < h && 0 <= xx < w && (
                        #[trigger] self.internal()[yy][xx]).was_clicked
                            && !self.internal()[yy][xx].is_bomb && !(exists|k: int|
                            head <= k < queue@.len() && ((#[trigger] queue@[k]).0 as int) == xx && (
                            queue@[k].1 as int) == yy) && 0 <= j < h && 0 <= i < w && adjacent(
                            i,
                            j,
                            xx,
                            yy,
                        ) implies (#[trigger] self.internal()[j][i]).is_shown by {
                        if xx == cx as int && yy == cy as int {
                            assert(self.internal()[yy][xx].is_bomb);
                        } else {
                            assert(!(exists|k: int|
                                head - 1 <= k < q_pre.len() && ((#[trigger] q_pre[k]).0 as int)
                                    == xx && (q_pre[k].1 as int) == yy)) by {
                                if exists|k: int|
                                    head - 1 <= k < q_pre.len() && ((#[trigger] q_pre[k]).0 as int)
                                        == xx && (q_pre[k].1 as int) == yy {
                                    let k = choose|k: int|
                                        head - 1 <= k < q_pre.len() && ((
                                        #[trigger] q_pre[k]).0 as int) == xx && (q_pre[k].1 as int)
                                            == yy;
                                    assert(k == head - 1 || head <= k);
                                    assert(false);
                                }
                            }
                            assert(it_pre.internal()[yy][xx].was_clicked);
                            assert(it_pre.internal()[j][i].is_shown);
                        }
                    }
                }
            }
            true
        } else {
            let ghost mid1 = *self;
            crate::flood::reveal_adjacent(
                &mut self.internal_field,
                &mut self.external_field,
                queue,
                cx,
                cy,
            );
            proof {
                assert(tracks_base(pre, *self)) by {
                    reveal(tracks_base);
                    assert(tracks_base(pre, it_pre));
                }
                assert forall|k: int|
                    q_pre.len() <= k < queue@.len() implies ((#[trigger] queue@[k]).0 as int) < w
                        && (queue@[k].1 as int) < h && !pre.internal()[queue@[k].1 as int][queue@[k].0 as int].is_bomb by {
                    reveal(counts_consistent);
                    reveal(tracks_base);
                    assert(tracks_base(pre, it_pre));
                    let qi = queue@[k].0 as int;
                    let qj = queue@[k].1 as int;
                    assert(mid1.internal()[qj][qi].num_bombs_around == 0);
                    assert(pre.internal()[qj][qi].num_bombs_around == 0);
                    assert(bombs_adjacent(pre.internal(), qi, qj) == 0);
                    assert(crate::board_spec::bomb_ind(pre.internal(), qi, qj) == 0);
                }
                assert forall|j: int, i: int|
                    0 <= j < h && 0 <= i < w && (#[trigger] it_pre.internal()[j][i]).is_shown implies (
                #[trigger] self.internal()[j][i]).is_shown by {
                    assert(mid1.internal()[j][i].is_shown);
                }
                assert(zero_shown_clicked(self.internal())) by {
                    reveal(zero_shown_clicked);
                    assert(zero_shown_clicked(it_pre.internal()));
                    assert forall|j: int, i: int|
                        0 <= j < h && 0 <= i < w && (#[trigger] self.internal()[j][i]).is_shown
                            && self.internal()[j][i].num_bombs_around == 0 implies self.internal()[j][i].was_clicked by {
                        if !(i == cx as int && j == cy as int) {
                            if adjacent(i, j, cx as int, cy as int) {
                            } else {
                                assert(mid1.internal()[j][i].is_shown);
                                assert(it_pre.internal()[j][i].is_shown);
                            }
                        }
                    }
                }
                assert(exposure_closed_except(self.internal(), queue@, head as int)) by {
                    reveal(exposure_closed_except);
                    assert(exposure_closed_except(it_pre.internal(), q_pre, head as int - 1));
                    assert forall|yy: int, xx: int, j: int, i: int|
                        0 <= yy < h && 0 <= xx < w && (
                        #[trigger] self.internal()[yy][xx]).was_clicked
                            && !self.internal()[yy][xx].is_bomb && !(exists|k: int|
                            head <= k < queue@.len() && ((#[trigger] queue@[k]).0 as int) == xx && (
                            queue@[k].1 as int) == yy) && 0 <= j < h && 0 <= i < w && adjacent(
                            i,
                            j,
                            xx,
                            yy,
                        ) implies (#[trigger] self.internal()[j][i]).is_shown by {
                        if xx == cx as int && yy == cy as int {
                            assert(self.internal()[j][i].is_shown);
                        } else if !mid1.internal()[yy][xx].was_clicked {
                            assert(mid1.internal()[yy][xx].num_bombs_around == 0);
                            let e2 = (xx as usize, yy as usize);
                            assert(exists|k: int|
                                q_pre.len() <= k < queue@.len() && #[trigger] queue@[k] == e2);
                            let k = choose|k: int|
                                q_pre.len() <= k < queue@.len() && #[trigger] queue@[k] == e2;
                            assert(head <= k < queue@.len());
                            assert((queue@[k].0 as int) == xx && (queue@[k].1 as int) == yy);
                            assert(false);
                        } else {
                            assert(!(exists|k: int|
                                head - 1 <= k < q_pre.len() && ((#[trigger] q_pre[k]).0 as int)
                                    == xx && (q_pre[k].1 as int) == yy)) by {
                                if exists|k: int|
                                    head - 1 <= k < q_pre.len() && ((#[trigger] q_pre[k]).0 as int)
                                        == xx && (q_pre[k].1 as int) == yy {
                                    let k = choose|k: int|
                                        head - 1 <= k < q_pre.len() && ((
                                        #[trigger] q_pre[k]).0 as int) == xx && (q_pre[k].1 as int)
                                            == yy;
                                    assert(k == head - 1 || head <= k);
                                    assert(queue@[k] == q_pre[k] || k == head - 1);
                                    assert(false);
                                }
                            }
                            assert(it_pre.internal()[yy][xx].was_clicked);
                            assert(it_pre.internal()[j][i].is_shown);
                        }
                    }
                }
            }
            false
        }
    }


    /// Expose the cell at `(x, y)`: the clicked cell is revealed and, for a
    /// safe click, its neighbourhood too, cascading breadth-first through
    /// zero-count cells; clicking a bomb loses the game and reveals every
    /// bomb. See `expose_applied`. Fails only on an out-of-bounds
    /// coordinate, leaving the board untouched.
    #[verifier::spinoff_prover]
    #[verifier::rlimit(100)]
    pub fn expose_tile(&mut self, x: usize, y: usize) -> (r: Result<(), Error>)
        requires
            old(self).wf(),
            old(self).is_initialized(),
            old(self).spec_state() == State::InProgress,
        ensures
            final(self).wf(),
            final(self).is_initialized(),
            old(self).in_bounds(x as int, y as int) ==> r is Ok && expose_applied(
                *old(self),
                *final(self),
                x as int,
                y as int,
            ),
            !old(self).in_bounds(x as int, y as int) ==> (r matches Err(e)
                && e == Error::CoordinateOutOfBounds) && *final(self) == *old(self),
    {
        if x >= self.width.0 || y >= self.height.0 {
            return Err(Error::CoordinateOutOfBounds);
        }
        let ghost pre = *self;
        let ghost w = pre.spec_width();
        let ghost h = pre.spec_height();
        let mut queue: Vec<(usize, usize)> = Vec::new();
        queue.push((x, y));
        let mut head: usize = 0;
        let mut hit_bomb = false;
        proof {
            lemma_grid_count_bounds(self.internal(), clicked_pred(), w);
            assert(tracks_base(pre, *self)) by {
                reveal(tracks_base);
            }
            assert(exposure_closed_except(self.internal(), queue@, head as int)) by {
                reveal(exposure_closed);
                reveal(exposure_closed_except);
            }
        }
        while head < queue.len() && !hit_bomb
            invariant
                counts_consistent(pre.internal()),
                rectangular(pre.internal(), w, h),
                rectangular(pre.external(), w, h),
                forall|j: int, i: int|
                    0 <= j < h && 0 <= i < w ==> (#[trigger] pre.external()[j][i]).has_flag == (
                    #[trigger] pre.internal()[j][i]).has_flag,
                forall|j: int, i: int|
                    0 <= j < h && 0 <= i < w ==> !(#[trigger] pre.external()[j][i]).is_bomb,
                pre.is_initialized(),
                pre.spec_state() == State::InProgress,
                0 <= (x as int) < w,
                0 <= (y as int) < h,
                w == pre.spec_width(),
                h == pre.spec_height(),
                self.wf_grids(),
                rectangular(self.internal(), w, h),
                rectangular(self.external(), w, h),
                self.spec_width() == w,
                self.spec_height() == h,
                self.spec_num_bombs() == pre.spec_num_bombs(),
                self.spec_num_flags() == pre.spec_num_flags(),
                self.spec_num_correct_flags() == pre.spec_num_correct_flags(),
                self.is_initialized(),
                self.spec_state() == State::InProgress,
                tracks_base(pre, *self),
                zero_shown_clicked(self.internal()),
                exposure_closed_except(self.internal(), queue@, head as int),
                head <= queue@.len(),
                queue@.len() >= 1,
                queue@[0] == (x, y),
                hit_bomb ==> head > 0,
                forall|k: int|
                    0 <= k < queue@.len() ==> ((#[trigger] queue@[k]).0 as int) < w && (
                    queue@[k].1 as int) < h,
                forall|k: int|
                    1 <= k < queue@.len() ==> !pre.internal()[(
                    #[trigger] queue@[k]).1 as int][queue@[k].0 as int].is_bomb,
                head > 0 ==> self.internal()[y as int][x as int].is_shown
                    && self.internal()[y as int][x as int].was_clicked,
                head > 0 ==> (hit_bomb <==> pre.internal()[y as int][x as int].is_bomb),

                hit_bomb ==> self.external()[y as int][x as int].is_bomb
                    && self.external()[y as int][x as int].is_shown,
                !hit_bomb ==> forall|j: int, i: int|
                    0 <= j < h && 0 <= i < w ==> !(#[trigger] self.external()[j][i]).is_bomb,
                0 <= grid_count(self.internal(), clicked_pred()) <= h * w,
            decreases (h * w - grid_count(self.internal(), clicked_pred())), (queue@.len() - head),
        {
            let e = queue[head];
            let cx = e.0;
            let cy = e.1;
            let ghost head0 = head as int;
            let ghost loop_pre = *self;
            head = head + 1;
            let hit = self.expose_step(&mut queue, head, cx, cy, Ghost(pre));
            if hit {
                hit_bomb = true;
            }
            proof {
                lemma_grid_count_bounds(self.internal(), clicked_pred(), w);
                if !hit_bomb {
                    assert forall|j: int, i: int|
                        0 <= j < h && 0 <= i < w implies !(
                    #[trigger] self.external()[j][i]).is_bomb by {
                        assert(!loop_pre.external()[j][i].is_bomb);
                        if !(i == cx as int && j == cy as int) {
                            assert(self.external()[j][i].is_bomb
                                == loop_pre.external()[j][i].is_bomb);
                        }
                    }
                }
            }
        }
        proof {
            reveal(tracks_base);
        }
        if hit_bomb {
            self.state = State::Loss;
            let ghost mid = *self;
            proof {
                lemma_grid_count_congruent(pre.internal(), mid.internal(), flag_pred());
                lemma_grid_count_congruent(pre.internal(), mid.internal(), correct_flag_pred());
                lemma_grid_count_congruent(pre.internal(), mid.internal(), bomb_pred());
                lemma_bombs_adjacent_congruent(pre.internal(), mid.internal());
                assert(counts_consistent(mid.internal())) by {
                    reveal(counts_consistent);
                    assert forall|xx: int, yy: int|
                        0 <= yy < mid.internal().len() && 0 <= xx < mid.internal()[yy].len() implies (
                    #[trigger] mid.internal()[yy][xx]).num_bombs_around == bombs_adjacent(
                        mid.internal(),
                        xx,
                        yy,
                    ) by {
                        assert(pre.internal()[yy][xx].num_bombs_around == bombs_adjacent(
                            pre.internal(),
                            xx,
                            yy,
                        ));
                    }
                }
            }
            crate::flood::loss_reveal(&mut self.internal_field, &mut self.external_field);
            proof {
                lemma_wf_loss(mid, *self);
                assert(tracks_base(pre, mid));
                assert forall|j: int, i: int| pre.in_bounds(i, j) implies {
                    let a = #[trigger] pre.internal()[j][i];
                    let b = #[trigger] self.internal()[j][i];
                    &&& b.is_bomb == a.is_bomb
                    &&& b.num_bombs_around == a.num_bombs_around
                    &&& b.has_flag == a.has_flag
                    &&& (a.is_shown ==> b.is_shown)
                    &&& (a.was_clicked ==> b.was_clicked)
                } by {
                    assert(self.internal()[j][i] == loss_internal_cell(mid.internal()[j][i]));
                }
                assert forall|j: int, i: int| pre.in_bounds(i, j) implies {
                    let a = #[trigger] pre.external()[j][i];
                    let b = #[trigger] self.external()[j][i];
                    &&& b.has_flag == a.has_flag
                    &&& (a.is_shown ==> b.is_shown)
                } by {
                    assert(self.external()[j][i] == loss_external_cell(
                        mid.internal()[j][i],
                        mid.external()[j][i],
                    ));
                    assert(mid.external()[j][i].has_flag == mid.internal()[j][i].has_flag);
                    assert(mid.internal()[j][i].has_flag == pre.internal()[j][i].has_flag);
                    assert(pre.external()[j][i].has_flag == pre.internal()[j][i].has_flag);
                }
                assert forall|j: int, i: int|
                    pre.in_bounds(i, j) && (#[trigger] pre.internal()[j][i]).is_bomb implies (
                #[trigger] self.internal()[j][i]).is_shown && self.external()[j][i].is_shown
                    && self.external()[j][i].is_bomb by {
                    assert(mid.internal()[j][i].is_bomb);
                    assert(self.internal()[j][i] == loss_internal_cell(mid.internal()[j][i]));
                    assert(self.external()[j][i] == loss_external_cell(
                        mid.internal()[j][i],
                        mid.external()[j][i],
                    ));
                }
                assert(self.internal()[y as int][x as int].is_shown);
                assert(self.internal()[y as int][x as int].was_clicked);
                assert(expose_applied(pre, *self, x as int, y as int));
            }
        } else {
            proof {
                assert(exposure_closed(self.internal())) by {
                    reveal(exposure_closed);
                    reveal(exposure_closed_except);
                }
                lemma_wf_expose_nohit(pre, *self);
                reveal(tracks_base);
                assert(tracks_base(pre, *self));
                assert forall|j: int, i: int| pre.in_bounds(i, j) implies {
                    let a = #[trigger] pre.internal()[j][i];
                    let b = #[trigger] self.internal()[j][i];
                    &&& b.is_bomb == a.is_bomb
                    &&& b.num_bombs_around == a.num_bombs_around
                    &&& b.has_flag == a.has_flag
                    &&& (a.is_shown ==> b.is_shown)
                    &&& (a.was_clicked ==> b.was_clicked)
                } by {}
                assert forall|j: int, i: int| pre.in_bounds(i, j) implies {
                    let a = #[trigger] pre.external()[j][i];
                    let b = #[trigger] self.external()[j][i];
                    &&& b.has_flag == a.has_flag
                    &&& (a.is_shown ==> b.is_shown)
                } by {}
                assert(!pre.internal()[y as int][x as int].is_bomb);
                assert(self.spec_width() == pre.spec_width());
                assert(self.spec_num_flags() == pre.spec_num_flags());
                assert(self.spec_state() == pre.spec_state());
                assert(self.internal()[y as int][x as int].was_clicked);
                assert(self.internal()[y as int][x as int].is_shown);
                assert(self.external()[y as int][x as int].is_shown == self.internal()[y as int][x as int].is_shown);
                assert(self.external()[y as int][x as int].num_bombs_around
                    == self.internal()[y as int][x as int].num_bombs_around);
                assert(self.internal()[y as int][x as int].num_bombs_around
                    == pre.internal()[y as int][x as int].num_bombs_around);
                assert forall|j: int, i: int|
                    pre.in_bounds(i, j) && adjacent(i, j, x as int, y as int) implies (
                #[trigger] self.internal()[j][i]).is_shown by {
                    reveal(exposure_closed);
                    assert(!self.internal()[y as int][x as int].is_bomb);
                }
                assert forall|j: int, i: int|
                    pre.in_bounds(i, j) && adjacent(i, j, x as int, y as int) implies (
                #[trigger] self.external()[j][i]).is_shown by {
                    assert(self.internal()[j][i].is_shown);
                    assert(self.external()[j][i].is_shown == self.internal()[j][i].is_shown);
                }
                assert(expose_applied(pre, *self, x as int, y as int));
            }
        }
        Ok(())
    }

    /// Flag the cell at `(x, y)` on both grids and account for it; see
    /// `flag_applied`. Fails only on an out-of-bounds coordinate, leaving
    /// the board untouched. Flagging an already-flagged cell is a no-op:
    /// the counters always equal the number of flagged cells and of flagged
    /// bombs, so a repeated flag can neither push `num_flags` past the cell
    /// count nor declare a win twice over the same bomb.
    #[verifier::spinoff_prover]
    fn flag_tile(&mut self, x: usize, y: usize) -> (r: Result<(), Error>)
        requires
            old(self).wf(),
            old(self).is_initialized(),
            old(self).spec_state() == State::InProgress,
        ensures
            final(self).wf(),
            old(self).in_bounds(x as int, y as int) ==> r is Ok && flag_applied(
                *old(self),
                *final(self),
                x as int,
                y as int,
            ),
            !old(self).in_bounds(x as int, y as int) ==> (r matches Err(e)
                && e == Error::CoordinateOutOfBounds) && *final(self) == *old(self),
    {
        if x >= self.width.0 || y >= self.height.0 {
            return Err(Error::CoordinateOutOfBounds);
        }
        let hx = Horizontal(x);
        let vy = Vertical(y);
        let t: Tile = match self.internal_field.get(&hx, &vy) {
            Some(t) => *t,
            None => {
                proof {
                    assert(false);
                }
                Tile::default()
            },
        };
        if t.has_flag {
            return Ok(());
        }
        self.apply_flag(x, y);
        let won = self.num_flags == self.num_correct_flags && self.num_correct_flags
            == self.num_bombs;
        if won {
            self.finish_win();
        }
        Ok(())
    }

    /// Clear the flag of the cell at `(x, y)` on both grids and account for
    /// it; see `unflag_applied`. Fails only on an out-of-bounds coordinate,
    /// leaving the board untouched. Unflagging a cell without a flag is a
    /// no-op, mirroring `flag_tile`: the counters never drop below the
    /// grid's true flag counts.
    #[verifier::spinoff_prover]
    #[verifier::rlimit(100)]
    fn unflag_tile(&mut self, x: usize, y: usize) -> (r: Result<(), Error>)
        requires
            old(self).wf(),
            old(self).is_initialized(),
            old(self).spec_state() == State::InProgress,
        ensures
            final(self).wf(),
            old(self).in_bounds(x as int, y as int) ==> r is Ok && unflag_applied(
                *old(self),
                *final(self),
                x as int,
                y as int,
            ),
            !old(self).in_bounds(x as int, y as int) ==> (r matches Err(e)
                && e == Error::CoordinateOutOfBounds) && *final(self) == *old(self),
    {
        if x >= self.width.0 || y >= self.height.0 {
            return Err(Error::CoordinateOutOfBounds);
        }
        let hx = Horizontal(x);
        let vy = Vertical(y);
        let t: Tile = match self.internal_field.get(&hx, &vy) {
            Some(t) => *t,
            None => {
                proof {
                    assert(false);
                }
                Tile::default()
            },
        };
        if !t.has_flag {
            return Ok(());
        }
        let ghost pre = *self;
        let mut nt = t;
        nt.has_flag = false;
        self.internal_field.put(&hx, &vy, nt);
        proof {
            lemma_grid_count_update_cell(pre.internal(), x as int, y as int, nt, flag_pred());
            lemma_grid_count_update_cell(
                pre.internal(),
                x as int,
                y as int,
                nt,
                correct_flag_pred(),
            );
            lemma_grid_count_update_cell(pre.internal(), x as int, y as int, nt, bomb_pred());
            lemma_grid_count_bounds(self.internal(), flag_pred(), pre.spec_width());
            lemma_grid_count_bounds(self.internal(), correct_flag_pred(), pre.spec_width());
            lemma_grid_count_le(self.internal(), correct_flag_pred(), flag_pred());
        }
        let te: Tile = match self.external_field.get(&hx, &vy) {
            Some(t2) => *t2,
            None => {
                proof {
                    assert(false);
                }
                Tile::default()
            },
        };
        let mut nte = te;
        nte.has_flag = false;
        self.external_field.put(&hx, &vy, nte);
        self.num_flags = self.num_flags - 1;
        if nt.is_bomb {
            self.num_correct_flags = self.num_correct_flags - 1;
        }
        proof {
            assert(self.internal() == with_flag(pre.internal(), x as int, y as int, false));
            assert(self.external() == with_flag(pre.external(), x as int, y as int, false));
            lemma_wf_flagchange(pre, *self);
        }
        Ok(())
    }
}


} // verus!
