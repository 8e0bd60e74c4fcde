//! The exposure machinery: revealing the neighbourhood of a visited cell
//! (feeding fresh zero-count cells to the cascade queue), and the two
//! terminal sweeps that show every bomb after a loss and every safe cell
//! after a win.

use vstd::prelude::*;

use crate::board_spec::{adjacent, loss_external_cell, loss_internal_cell, win_external_cell, win_internal_cell};
use crate::coords::{Horizontal, Vertical};
use crate::count::{clicked_pred, grid_count, lemma_grid_count_update_cell};
use crate::tile::Tile;
use crate::vec2d::Vec2d;

verus! {

/// What the neighbour reveal makes of an internal cell: shown, and marked
/// visited when it is a fresh zero-count cell (those go on the queue).
pub open spec fn reveal_internal_cell(t: Tile) -> Tile {
    Tile { is_shown: true, was_clicked: t.was_clicked || t.num_bombs_around == 0, ..t }
}

/// What the neighbour reveal makes of an external cell: shown, with the
/// internal cell's bomb count copied out.
pub open spec fn reveal_external_cell(ti: Tile, te: Tile) -> Tile {
    Tile { is_shown: true, num_bombs_around: ti.num_bombs_around, ..te }
}

/// Reveal every present cell Chebyshev-adjacent to `(x, y)` on both grids,
/// and append to the queue exactly the adjacent cells that have no bomb
/// around them and had not been visited or queued before, marking them
/// visited. The queue grows by exactly the number of newly marked cells.
pub(crate) fn reveal_adjacent(
    gi: &mut Vec2d<Tile>,
    ge: &mut Vec2d<Tile>,
    queue: &mut Vec<(usize, usize)>,
    x: usize,
    y: usize,
)
    requires
        old(gi)@.len() == old(ge)@.len(),
        old(gi)@.len() <= usize::MAX,
        forall|j: int|
            0 <= j < old(gi)@.len() ==> (#[trigger] old(gi)@[j]).len() == (#[trigger] old(
                ge,
            )@[j]).len(),
        forall|j: int| 0 <= j < old(gi)@.len() ==> (#[trigger] old(gi)@[j]).len() <= usize::MAX,
        x < usize::MAX,
        y < usize::MAX,
    ensures
        final(gi).spec_width() == old(gi).spec_width(),
        final(gi).spec_height() == old(gi).spec_height(),
        final(ge).spec_width() == old(ge).spec_width(),
        final(ge).spec_height() == old(ge).spec_height(),
        final(gi)@.len() == old(gi)@.len(),
        final(ge)@.len() == old(ge)@.len(),
        forall|j: int|
            0 <= j < old(gi)@.len() ==> (#[trigger] final(gi)@[j]).len() == old(gi)@[j].len(),
        forall|j: int|
            0 <= j < old(ge)@.len() ==> (#[trigger] final(ge)@[j]).len() == old(ge)@[j].len(),
        forall|j: int, i: int|
            0 <= j < old(gi)@.len() && 0 <= i < old(gi)@[j].len() ==> (#[trigger] final(gi)@[j][i])
                == (if adjacent(i, j, x as int, y as int) {
                reveal_internal_cell(old(gi)@[j][i])
            } else {
                old(gi)@[j][i]
            }),
        forall|j: int, i: int|
            0 <= j < old(ge)@.len() && 0 <= i < old(ge)@[j].len() ==> (#[trigger] final(ge)@[j][i])
                == (if adjacent(i, j, x as int, y as int) {
                reveal_external_cell(old(gi)@[j][i], old(ge)@[j][i])
            } else {
                old(ge)@[j][i]
            }),
        final(queue)@.len() >= old(queue)@.len(),
        forall|k: int| 0 <= k < old(queue)@.len() ==> final(queue)@[k] == old(queue)@[k],
        forall|k: int|
            old(queue)@.len() <= k < final(queue)@.len() ==> {
                let e = #[trigger] final(queue)@[k];
                &&& (e.1 as int) < old(gi)@.len()
                &&& (e.0 as int) < old(gi)@[e.1 as int].len()
                &&& adjacent(e.0 as int, e.1 as int, x as int, y as int)
                &&& old(gi)@[e.1 as int][e.0 as int].num_bombs_around == 0
                &&& !old(gi)@[e.1 as int][e.0 as int].was_clicked
            },
        forall|ii: usize, jj: usize|
            (jj as int) < old(gi)@.len() && (ii as int) < old(gi)@[jj as int].len() && adjacent(
                ii as int,
                jj as int,
                x as int,
                y as int,
            ) && old(gi)@[jj as int][ii as int].num_bombs_around == 0 && !old(
                gi,
            )@[jj as int][ii as int].was_clicked ==> (exists|k: int|
                old(queue)@.len() <= k < final(queue)@.len() && #[trigger] final(queue)@[k] == (
                ii,
                jj,
            )),
        final(queue)@.len() - old(queue)@.len() == grid_count(final(gi)@, clicked_pred())
            - grid_count(old(gi)@, clicked_pred()),
{
    let ghost base_i = gi@;
    let ghost base_e = ge@;
    let ghost q0 = queue@;
    let rows = gi.num_rows();
    let mut j: usize = 0;
    while j < rows
        invariant
            rows as int == base_i.len(),
            base_i.len() == base_e.len(),
            base_i.len() <= usize::MAX,
            x < usize::MAX,
            y < usize::MAX,
            j <= rows,
            gi.spec_width() == old(gi).spec_width(),
            gi.spec_height() == old(gi).spec_height(),
            ge.spec_width() == old(ge).spec_width(),
            ge.spec_height() == old(ge).spec_height(),
            gi@.len() == base_i.len(),
            ge@.len() == base_e.len(),
            forall|jj: int|
                0 <= jj < base_i.len() ==> (#[trigger] base_i[jj]).len() == (
                #[trigger] base_e[jj]).len(),
            forall|jj: int| 0 <= jj < base_i.len() ==> (#[trigger] base_i[jj]).len() <= usize::MAX,
            forall|jj: int|
                0 <= jj < base_i.len() ==> (#[trigger] gi@[jj]).len() == base_i[jj].len(),
            forall|jj: int|
                0 <= jj < base_e.len() ==> (#[trigger] ge@[jj]).len() == base_e[jj].len(),
            forall|jj: int, ii: int|
                0 <= jj < base_i.len() && 0 <= ii < base_i[jj].len() ==> (#[trigger] gi@[jj][ii])
                    == (if jj < j && adjacent(ii, jj, x as int, y as int) {
                    reveal_internal_cell(base_i[jj][ii])
                } else {
                    base_i[jj][ii]
                }),
            forall|jj: int, ii: int|
                0 <= jj < base_e.len() && 0 <= ii < base_e[jj].len() ==> (#[trigger] ge@[jj][ii])
                    == (if jj < j && adjacent(ii, jj, x as int, y as int) {
                    reveal_external_cell(base_i[jj][ii], base_e[jj][ii])
                } else {
                    base_e[jj][ii]
                }),
            queue@.len() >= q0.len(),
            forall|k: int| 0 <= k < q0.len() ==> queue@[k] == q0[k],
            forall|k: int|
                q0.len() <= k < queue@.len() ==> {
                    let e = #[trigger] queue@[k];
                    &&& (e.1 as int) < base_i.len()
                    &&& (e.0 as int) < base_i[e.1 as int].len()
                    &&& adjacent(e.0 as int, e.1 as int, x as int, y as int)
                    &&& base_i[e.1 as int][e.0 as int].num_bombs_around == 0
                    &&& !base_i[e.1 as int][e.0 as int].was_clicked
                },
            forall|ii: usize, jj: usize|
                (jj as int) < j && (ii as int) < base_i[jj as int].len() && adjacent(
                    ii as int,
                    jj as int,
                    x as int,
                    y as int,
                ) && base_i[jj as int][ii as int].num_bombs_around == 0 && !base_i[jj as int][ii as int].was_clicked
                    ==> (exists|k: int|
                    q0.len() <= k < queue@.len() && #[trigger] queue@[k] == (ii, jj)),
            queue@.len() - q0.len() == grid_count(gi@, clicked_pred()) - grid_count(
                base_i,
                clicked_pred(),
            ),
        decreases rows - j,
    {
        let w = gi.row_len(j);
        let mut i: usize = 0;
        while i < w
            invariant
                rows as int == base_i.len(),
                base_i.len() == base_e.len(),
                base_i.len() <= usize::MAX,
                x < usize::MAX,
                y < usize::MAX,
                j < rows,
                i <= w,
                w as int == base_i[j as int].len(),
                gi.spec_width() == old(gi).spec_width(),
                gi.spec_height() == old(gi).spec_height(),
                ge.spec_width() == old(ge).spec_width(),
                ge.spec_height() == old(ge).spec_height(),
                gi@.len() == base_i.len(),
                ge@.len() == base_e.len(),
                forall|jj: int|
                    0 <= jj < base_i.len() ==> (#[trigger] base_i[jj]).len() == (
                    #[trigger] base_e[jj]).len(),
                forall|jj: int|
                    0 <= jj < base_i.len() ==> (#[trigger] base_i[jj]).len() <= usize::MAX,
                forall|jj: int|
                    0 <= jj < base_i.len() ==> (#[trigger] gi@[jj]).len() == base_i[jj].len(),
                forall|jj: int|
                    0 <= jj < base_e.len() ==> (#[trigger] ge@[jj]).len() == base_e[jj].len(),
                forall|jj: int, ii: int|
                    0 <= jj < base_i.len() && 0 <= ii < base_i[jj].len() ==> (
                    #[trigger] gi@[jj][ii]) == (if (jj < j || (jj == j && ii < i)) && adjacent(
                        ii,
                        jj,
                        x as int,
                        y as int,
                    ) {
                        reveal_internal_cell(base_i[jj][ii])
                    } else {
                        base_i[jj][ii]
                    }),
                forall|jj: int, ii: int|
                    0 <= jj < base_e.len() && 0 <= ii < base_e[jj].len() ==> (
                    #[trigger] ge@[jj][ii]) == (if (jj < j || (jj == j && ii < i)) && adjacent(
                        ii,
                        jj,
                        x as int,
                        y as int,
                    ) {
                        reveal_external_cell(base_i[jj][ii], base_e[jj][ii])
                    } else {
                        base_e[jj][ii]
                    }),
                queue@.len() >= q0.len(),
                forall|k: int| 0 <= k < q0.len() ==> queue@[k] == q0[k],
                forall|k: int|
                    q0.len() <= k < queue@.len() ==> {
                        let e = #[trigger] queue@[k];
                        &&& (e.1 as int) < base_i.len()
                        &&& (e.0 as int) < base_i[e.1 as int].len()
                        &&& adjacent(e.0 as int, e.1 as int, x as int, y as int)
                        &&& base_i[e.1 as int][e.0 as int].num_bombs_around == 0
                        &&& !base_i[e.1 as int][e.0 as int].was_clicked
                    },
                forall|ii: usize, jj: usize|
                    ((jj as int) < j || ((jj as int) == j && (ii as int) < i)) && (ii as int)
                        < base_i[jj as int].len() && adjacent(
                        ii as int,
                        jj as int,
                        x as int,
                        y as int,
                    ) && base_i[jj as int][ii as int].num_bombs_around == 0 && !base_i[jj as int][ii as int].was_clicked
                        ==> (exists|k: int|
                        q0.len() <= k < queue@.len() && #[trigger] queue@[k] == (ii, jj)),
                queue@.len() - q0.len() == grid_count(gi@, clicked_pred()) - grid_count(
                    base_i,
                    clicked_pred(),
                ),
            decreases w - i,
        {
            let ghost q_pre = queue@;
            if x <= i + 1 && i <= x + 1 && y <= j + 1 && j <= y + 1 {
                let hx = Horizontal(i);
                let vy = Vertical(j);
                let c: Tile = match gi.get(&hx, &vy) {
                    Some(t) => *t,
                    None => {
                        proof {
                            assert(false);
                        }
                        Tile::default()
                    },
                };
                let ghost gi_pre = gi@;
                let mut ni = c;
                ni.is_shown = true;
                let newly = c.num_bombs_around == 0 && !c.was_clicked;
                if newly {
                    ni.was_clicked = true;
                }
                gi.put(&hx, &vy, ni);
                proof {
                    lemma_grid_count_update_cell(gi_pre, i as int, j as int, ni, clicked_pred());
                }
                let e: Tile = match ge.get(&hx, &vy) {
                    Some(t) => *t,
                    None => {
                        proof {
                            assert(false);
                        }
                        Tile::default()
                    },
                };
                let mut ne = e;
                ne.is_shown = true;
                ne.num_bombs_around = c.num_bombs_around;
                ge.put(&hx, &vy, ne);
                if newly {
                    queue.push((i, j));
                }
            }
            proof {
                assert forall|ii: usize, jj: usize|
                    ((jj as int) < j || ((jj as int) == j && (ii as int) < i + 1)) && (ii as int)
                        < base_i[jj as int].len() && adjacent(
                        ii as int,
                        jj as int,
                        x as int,
                        y as int,
                    ) && base_i[jj as int][ii as int].num_bombs_around == 0
                        && !base_i[jj as int][ii as int].was_clicked implies (exists|k: int|
                    q0.len() <= k < queue@.len() && #[trigger] queue@[k] == (ii, jj)) by {
                    if jj as int == j as int && ii as int == i as int {
                        assert(queue@[queue@.len() - 1] == (ii, jj));
                    } else {
                        let k = choose|k: int|
                            q0.len() <= k < q_pre.len() && #[trigger] q_pre[k] == (ii, jj);
                        assert(queue@[k] == (ii, jj));
                    }
                }
            }
            i = i + 1;
        }
        j = j + 1;
    }
}

/// Force every bomb visible on both grids: the loss reveal. Safe cells are
/// untouched.
pub(crate) fn loss_reveal(gi: &mut Vec2d<Tile>, ge: &mut Vec2d<Tile>)
    requires
        old(gi)@.len() == old(ge)@.len(),
        old(gi)@.len() <= usize::MAX,
        forall|j: int|
            0 <= j < old(gi)@.len() ==> (#[trigger] old(gi)@[j]).len() == (#[trigger] old(
                ge,
            )@[j]).len(),
        forall|j: int| 0 <= j < old(gi)@.len() ==> (#[trigger] old(gi)@[j]).len() <= usize::MAX,
    ensures
        final(gi).spec_width() == old(gi).spec_width(),
        final(gi).spec_height() == old(gi).spec_height(),
        final(ge).spec_width() == old(ge).spec_width(),
        final(ge).spec_height() == old(ge).spec_height(),
        final(gi)@.len() == old(gi)@.len(),
        final(ge)@.len() == old(ge)@.len(),
        forall|j: int|
            0 <= j < old(gi)@.len() ==> (#[trigger] final(gi)@[j]).len() == old(gi)@[j].len(),
        forall|j: int|
            0 <= j < old(ge)@.len() ==> (#[trigger] final(ge)@[j]).len() == old(ge)@[j].len(),
        forall|j: int, i: int|
            0 <= j < old(gi)@.len() && 0 <= i < old(gi)@[j].len() ==> (#[trigger] final(gi)@[j][i])
                == loss_internal_cell(old(gi)@[j][i]),
        forall|j: int, i: int|
            0 <= j < old(ge)@.len() && 0 <= i < old(ge)@[j].len() ==> (#[trigger] final(ge)@[j][i])
                == loss_external_cell(old(gi)@[j][i], old(ge)@[j][i]),
{
    let ghost base_i = gi@;
    let ghost base_e = ge@;
    let rows = gi.num_rows();
    let mut j: usize = 0;
    while j < rows
        invariant
            rows as int == base_i.len(),
            base_i.len() == base_e.len(),
            j <= rows,
            gi.spec_width() == old(gi).spec_width(),
            gi.spec_height() == old(gi).spec_height(),
            ge.spec_width() == old(ge).spec_width(),
            ge.spec_height() == old(ge).spec_height(),
            gi@.len() == base_i.len(),
            ge@.len() == base_e.len(),
            forall|jj: int|
                0 <= jj < base_i.len() ==> (#[trigger] base_i[jj]).len() == (
                #[trigger] base_e[jj]).len(),
            forall|jj: int|
                0 <= jj < base_i.len() ==> (#[trigger] gi@[jj]).len() == base_i[jj].len(),
            forall|jj: int|
                0 <= jj < base_e.len() ==> (#[trigger] ge@[jj]).len() == base_e[jj].len(),
            forall|jj: int, ii: int|
                0 <= jj < base_i.len() && 0 <= ii < base_i[jj].len() ==> (#[trigger] gi@[jj][ii])
                    == (if jj < j {
                    loss_internal_cell(base_i[jj][ii])
                } else {
                    base_i[jj][ii]
                }),
            forall|jj: int, ii: int|
                0 <= jj < base_e.len() && 0 <= ii < base_e[jj].len() ==> (#[trigger] ge@[jj][ii])
                    == (if jj < j {
                    loss_external_cell(base_i[jj][ii], base_e[jj][ii])
                } else {
                    base_e[jj][ii]
                }),
        decreases rows - j,
    {
        let w = gi.row_len(j);
        let mut i: usize = 0;
        while i < w
            invariant
                rows as int == base_i.len(),
                base_i.len() == base_e.len(),
                j < rows,
                i <= w,
                w as int == base_i[j as int].len(),
                gi.spec_width() == old(gi).spec_width(),
                gi.spec_height() == old(gi).spec_height(),
                ge.spec_width() == old(ge).spec_width(),
                ge.spec_height() == old(ge).spec_height(),
                gi@.len() == base_i.len(),
                ge@.len() == base_e.len(),
                forall|jj: int|
                    0 <= jj < base_i.len() ==> (#[trigger] base_i[jj]).len() == (
                    #[trigger] base_e[jj]).len(),
                forall|jj: int|
                    0 <= jj < base_i.len() ==> (#[trigger] gi@[jj]).len() == base_i[jj].len(),
                forall|jj: int|
                    0 <= jj < base_e.len() ==> (#[trigger] ge@[jj]).len() == base_e[jj].len(),
                forall|jj: int, ii: int|
                    0 <= jj < base_i.len() && 0 <= ii < base_i[jj].len() ==> (
                    #[trigger] gi@[jj][ii]) == (if jj < j || (jj == j && ii < i) {
                        loss_internal_cell(base_i[jj][ii])
                    } else {
                        base_i[jj][ii]
                    }),
                forall|jj: int, ii: int|
                    0 <= jj < base_e.len() && 0 <= ii < base_e[jj].len() ==> (
                    #[trigger] ge@[jj][ii]) == (if jj < j || (jj == j && ii < i) {
                        loss_external_cell(base_i[jj][ii], base_e[jj][ii])
                    } else {
                        base_e[jj][ii]
                    }),
            decreases w - i,
        {
            let hx = Horizontal(i);
            let vy = Vertical(j);
            let c: Tile = match gi.get(&hx, &vy) {
                Some(t) => *t,
                None => {
                    proof {
                        assert(false);
                    }
                    Tile::default()
                },
            };
            if c.is_bomb {
                let mut ni = c;
                ni.is_shown = true;
                gi.put(&hx, &vy, ni);
                ge.put(&hx, &vy, ni);
            }
            i = i + 1;
        }
        j = j + 1;
    }
}

/// Force every safe cell visible on both grids: the win reveal. Bombs are
/// untouched and stay hidden.
pub(crate) fn win_reveal(gi: &mut Vec2d<Tile>, ge: &mut Vec2d<Tile>)
    requires
        old(gi)@.len() == old(ge)@.len(),
        old(gi)@.len() <= usize::MAX,
        forall|j: int|
            0 <= j < old(gi)@.len() ==> (#[trigger] old(gi)@[j]).len() == (#[trigger] old(
                ge,
            )@[j]).len(),
        forall|j: int| 0 <= j < old(gi)@.len() ==> (#[trigger] old(gi)@[j]).len() <= usize::MAX,
    ensures
        final(gi).spec_width() == old(gi).spec_width(),
        final(gi).spec_height() == old(gi).spec_height(),
        final(ge).spec_width() == old(ge).spec_width(),
        final(ge).spec_height() == old(ge).spec_height(),
        final(gi)@.len() == old(gi)@.len(),
        final(ge)@.len() == old(ge)@.len(),
        forall|j: int|
            0 <= j < old(gi)@.len() ==> (#[trigger] final(gi)@[j]).len() == old(gi)@[j].len(),
        forall|j: int|
            0 <= j < old(ge)@.len() ==> (#[trigger] final(ge)@[j]).len() == old(ge)@[j].len(),
        forall|j: int, i: int|
            0 <= j < old(gi)@.len() && 0 <= i < old(gi)@[j].len() ==> (#[trigger] final(gi)@[j][i])
                == win_internal_cell(old(gi)@[j][i]),
        forall|j: int, i: int|
            0 <= j < old(ge)@.len() && 0 <= i < old(ge)@[j].len() ==> (#[trigger] final(ge)@[j][i])
                == win_external_cell(old(gi)@[j][i], old(ge)@[j][i]),
{
    let ghost base_i = gi@;
    let ghost base_e = ge@;
    let rows = gi.num_rows();
    let mut j: usize = 0;
    while j < rows
        invariant
            rows as int == base_i.len(),
            base_i.len() == base_e.len(),
            j <= rows,
            gi.spec_width() == old(gi).spec_width(),
            gi.spec_height() == old(gi).spec_height(),
            ge.spec_width() == old(ge).spec_width(),
            ge.spec_height() == old(ge).spec_height(),
            gi@.len() == base_i.len(),
            ge@.len() == base_e.len(),
            forall|jj: int|
                0 <= jj < base_i.len() ==> (#[trigger] base_i[jj]).len() == (
                #[trigger] base_e[jj]).len(),
            forall|jj: int|
                0 <= jj < base_i.len() ==> (#[trigger] gi@[jj]).len() == base_i[jj].len(),
            forall|jj: int|
                0 <= jj < base_e.len() ==> (#[trigger] ge@[jj]).len() == base_e[jj].len(),
            forall|jj: int, ii: int|
                0 <= jj < base_i.len() && 0 <= ii < base_i[jj].len() ==> (#[trigger] gi@[jj][ii])
                    == (if jj < j {
                    win_internal_cell(base_i[jj][ii])
                } else {
                    base_i[jj][ii]
                }),
            forall|jj: int, ii: int|
                0 <= jj < base_e.len() && 0 <= ii < base_e[jj].len() ==> (#[trigger] ge@[jj][ii])
                    == (if jj < j {
                    win_external_cell(base_i[jj][ii], base_e[jj][ii])
                } else {
                    base_e[jj][ii]
                }),
        decreases rows - j,
    {
        let w = gi.row_len(j);
        let mut i: usize = 0;
        while i < w
            invariant
                rows as int == base_i.len(),
                base_i.len() == base_e.len(),
                j < rows,
                i <= w,
                w as int == base_i[j as int].len(),
                gi.spec_width() == old(gi).spec_width(),
                gi.spec_height() == old(gi).spec_height(),
                ge.spec_width() == old(ge).spec_width(),
                ge.spec_height() == old(ge).spec_height(),
                gi@.len() == base_i.len(),
                ge@.len() == base_e.len(),
                forall|jj: int|
                    0 <= jj < base_i.len() ==> (#[trigger] base_i[jj]).len() == (
                    #[trigger] base_e[jj]).len(),
                forall|jj: int|
                    0 <= jj < base_i.len() ==> (#[trigger] gi@[jj]).len() == base_i[jj].len(),
                forall|jj: int|
                    0 <= jj < base_e.len() ==> (#[trigger] ge@[jj]).len() == base_e[jj].len(),
                forall|jj: int, ii: int|
                    0 <= jj < base_i.len() && 0 <= ii < base_i[jj].len() ==> (
                    #[trigger] gi@[jj][ii]) == (if jj < j || (jj == j && ii < i) {
                        win_internal_cell(base_i[jj][ii])
                    } else {
                        base_i[jj][ii]
                    }),
                forall|jj: int, ii: int|
                    0 <= jj < base_e.len() && 0 <= ii < base_e[jj].len() ==> (
                    #[trigger] ge@[jj][ii]) == (if jj < j || (jj == j && ii < i) {
                        win_external_cell(base_i[jj][ii], base_e[jj][ii])
                    } else {
                        base_e[jj][ii]
                    }),
            decreases w - i,
        {
            let hx = Horizontal(i);
            let vy = Vertical(j);
            let c: Tile = match gi.get(&hx, &vy) {
                Some(t) => *t,
                None => {
                    proof {
                        assert(false);
                    }
                    Tile::default()
                },
            };
            if !c.is_bomb {
                let mut ni = c;
                ni.is_shown = true;
                ni.was_clicked = true;
                gi.put(&hx, &vy, ni);
                ge.put(&hx, &vy, ni);
            }
            i = i + 1;
        }
        j = j + 1;
    }
}

} // verus!
