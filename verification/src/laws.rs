//! The laws the engine guarantees, stated as theorems over a well-formed
//! board: what a cell's bomb count means, what the exposure cascade leaves
//! behind, when bomb identity is visible, what a won board's flags look
//! like, and that flagging and unflagging a cell cancel out.

use vstd::prelude::*;

use crate::board_spec::{adjacent, bomb_ind, bombs_adjacent, bombs_among_neighbors, counts_consistent, exposure_closed, with_flag, zero_shown_clicked};
use crate::count::{bomb_pred, correct_flag_pred, flag_pred, grid_count, lemma_grid_count_agree, lemma_grid_count_eq_pointwise};
use crate::engine::{flag_applied, unflag_applied, Minesweeper, State};
use crate::tile::Tile;

verus! {

/// Every safe cell's `num_bombs_around` counts exactly the bombs among its
/// present eight neighbours (a bomb's own count also includes itself, so
/// this reading is stated for safe cells, as the game reveals them).
pub proof fn lemma_nonbomb_neighbor_count(b: Minesweeper, x: int, y: int)
    requires
        b.wf(),
        b.is_initialized(),
        b.in_bounds(x, y),
        !b.internal()[y][x].is_bomb,
    ensures
        b.internal()[y][x].num_bombs_around == bombs_among_neighbors(b.internal(), x, y),
{
    reveal(counts_consistent);
    assert(bomb_ind(b.internal(), x, y) == 0);
}

/// Exposure is closed: while the game is in play, a shown cell with no
/// bomb around it has its whole present neighbourhood shown — the boundary
/// of a revealed region consists of positive-count cells or the board's
/// edge.
pub proof fn lemma_zero_region_boundary(b: Minesweeper, x: int, y: int, i: int, j: int)
    requires
        b.wf(),
        b.spec_state() == State::InProgress,
        b.in_bounds(x, y),
        b.internal()[y][x].is_shown,
        b.internal()[y][x].num_bombs_around == 0,
        b.in_bounds(i, j),
        adjacent(i, j, x, y),
    ensures
        b.internal()[j][i].is_shown,
        b.external()[j][i].is_shown,
{
    assert(b.is_initialized());
    reveal(counts_consistent);
    assert(bombs_adjacent(b.internal(), x, y) == 0);
    assert(bomb_ind(b.internal(), x, y) == 0);
    assert(!b.internal()[y][x].is_bomb);
    assert(b.internal()[y][x].was_clicked) by {
        reveal(zero_shown_clicked);
    }
    assert(b.internal()[j][i].is_shown) by {
        reveal(exposure_closed);
    }
}

/// Bomb identity is withheld until the game is lost: before `Loss`, no
/// external cell ever reports `is_bomb`, shown or not.
pub proof fn lemma_bomb_identity_hidden(b: Minesweeper, x: int, y: int)
    requires
        b.wf(),
        b.spec_state() != State::Loss,
        b.in_bounds(x, y),
    ensures
        !b.external()[y][x].is_bomb,
{
}

/// A won board's flags are exact: every bomb carries a flag and nothing
/// else does.
pub proof fn lemma_won_flags_exact(b: Minesweeper)
    requires
        b.wf(),
        b.spec_state() == State::Won,
    ensures
        forall|y: int, x: int|
            b.in_bounds(x, y) ==> ((#[trigger] b.internal()[y][x]).has_flag
                <==> b.internal()[y][x].is_bomb),
{
    assert(b.is_initialized());
    assert(forall|t: Tile| #[trigger] (correct_flag_pred())(t) ==> (flag_pred())(t));
    assert(forall|t: Tile| #[trigger] (correct_flag_pred())(t) ==> (bomb_pred())(t));
    lemma_grid_count_eq_pointwise(b.internal(), correct_flag_pred(), flag_pred());
    lemma_grid_count_eq_pointwise(b.internal(), correct_flag_pred(), bomb_pred());
    assert forall|y: int, x: int|
        b.in_bounds(x, y) implies ((#[trigger] b.internal()[y][x]).has_flag
        <==> b.internal()[y][x].is_bomb) by {
        let t = b.internal()[y][x];
        assert((flag_pred())(t) ==> (correct_flag_pred())(t));
        assert((bomb_pred())(t) ==> (correct_flag_pred())(t));
    }
}

/// The converse direction of winning: once every bomb is flagged and no
/// safe cell is, the counters meet the win condition that `flag_tile`
/// tests.
pub proof fn lemma_exact_flags_win_counts(b: Minesweeper)
    requires
        b.wf(),
        b.is_initialized(),
        forall|y: int, x: int|
            b.in_bounds(x, y) ==> ((#[trigger] b.internal()[y][x]).has_flag
                <==> b.internal()[y][x].is_bomb),
    ensures
        b.spec_num_flags() == b.spec_num_bombs(),
        b.spec_num_correct_flags() == b.spec_num_bombs(),
{
    lemma_grid_count_agree(b.internal(), flag_pred(), bomb_pred());
    lemma_grid_count_agree(b.internal(), correct_flag_pred(), bomb_pred());
}

/// Flagging a cell without a flag and unflagging it again restores both
/// counters, both grids and the game state — provided the flag did not win
/// the game in between (unflagging is unreachable from `Won`). A cell that
/// already carried a flag is outside this law: flagging it is a no-op, so
/// the unflag alone would lower the counters.
pub proof fn lemma_flag_unflag_roundtrip(
    pre: Minesweeper,
    mid: Minesweeper,
    post: Minesweeper,
    x: int,
    y: int,
)
    requires
        pre.wf(),
        pre.spec_state() == State::InProgress,
        pre.in_bounds(x, y),
        !pre.internal()[y][x].has_flag,
        flag_applied(pre, mid, x, y),
        mid.spec_state() == State::InProgress,
        unflag_applied(mid, post, x, y),
    ensures
        post.spec_num_flags() == pre.spec_num_flags(),
        post.spec_num_correct_flags() == pre.spec_num_correct_flags(),
        post.spec_state() == pre.spec_state(),
        post.internal() == pre.internal(),
        post.external() == pre.external(),
{
    assert(mid.internal() == with_flag(pre.internal(), x, y, true));
    assert(mid.internal()[y][x].has_flag);
    assert(post.internal() == with_flag(mid.internal(), x, y, false));
    assert(post.internal() =~~= pre.internal());
    assert(post.external() =~~= pre.external());
}

} // verus!
