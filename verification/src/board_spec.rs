//! The mathematical model of a board: adjacency of cells, the bomb count of
//! a neighbourhood, what it means for every cell's `num_bombs_around` to be
//! right, and the cell-by-cell transforms the engine performs (flagging,
//! the win reveal, the loss reveal).

use vstd::prelude::*;

use crate::tile::Tile;

verus! {

/// `(x1, y1)` and `(x2, y2)` are Chebyshev-adjacent: each axis differs by
/// at most one. A cell is adjacent to itself.
pub open spec fn adjacent(x1: int, y1: int, x2: int, y2: int) -> bool {
    &&& -1 <= x1 - x2 <= 1
    &&& -1 <= y1 - y2 <= 1
}

/// The grid is `h` rows of `w` cells each.
pub open spec fn rectangular(g: Seq<Seq<Tile>>, w: int, h: int) -> bool {
    &&& g.len() == h
    &&& forall|y: int| 0 <= y < g.len() ==> (#[trigger] g[y]).len() == w
}

/// One if the grid has a bomb at `(x, y)`, zero otherwise (also for
/// positions outside the grid).
pub open spec fn bomb_ind(g: Seq<Seq<Tile>>, x: int, y: int) -> int {
    if 0 <= y < g.len() && 0 <= x < g[y].len() && g[y][x].is_bomb {
        1
    } else {
        0
    }
}

/// How many bombs the grid holds in the 3 × 3 neighbourhood of `(x, y)`,
/// the cell itself included.
pub open spec fn bombs_adjacent(g: Seq<Seq<Tile>>, x: int, y: int) -> int {
    bomb_ind(g, x - 1, y - 1) + bomb_ind(g, x, y - 1) + bomb_ind(g, x + 1, y - 1) + bomb_ind(
        g,
        x - 1,
        y,
    ) + bomb_ind(g, x, y) + bomb_ind(g, x + 1, y) + bomb_ind(g, x - 1, y + 1) + bomb_ind(
        g,
        x,
        y + 1,
    ) + bomb_ind(g, x + 1, y + 1)
}

/// How many bombs stand among the up-to-eight neighbours of `(x, y)`, the
/// cell itself not counted.
pub open spec fn bombs_among_neighbors(g: Seq<Seq<Tile>>, x: int, y: int) -> int {
    bombs_adjacent(g, x, y) - bomb_ind(g, x, y)
}

/// Every cell's `num_bombs_around` equals the bomb count of its 3 × 3
/// neighbourhood.
#[verifier::opaque]
pub open spec fn counts_consistent(g: Seq<Seq<Tile>>) -> bool {
    forall|x: int, y: int|
        0 <= y < g.len() && 0 <= x < g[y].len() ==> (#[trigger] g[y][x]).num_bombs_around
            == bombs_adjacent(g, x, y)
}

/// A neighbourhood never holds more than its nine cells' worth of bombs.
pub proof fn lemma_bombs_adjacent_bounds(g: Seq<Seq<Tile>>, x: int, y: int)
    ensures
        0 <= bombs_adjacent(g, x, y) <= 9,
{
}

/// Placing one bomb at an in-bounds `(x2, y2)` that held none raises the
/// neighbourhood count of exactly the adjacent cells by one. Only `is_bomb`
/// matters: the two grids may differ in any other field.
pub proof fn lemma_bombs_adjacent_one_more(g1: Seq<Seq<Tile>>, g2: Seq<Seq<Tile>>, bx: int, by: int)
    requires
        g1.len() == g2.len(),
        forall|y: int| 0 <= y < g1.len() ==> (#[trigger] g1[y]).len() == (#[trigger] g2[y]).len(),
        0 <= by < g1.len(),
        0 <= bx < g1[by].len(),
        !g1[by][bx].is_bomb,
        forall|y: int, x: int|
            0 <= y < g1.len() && 0 <= x < g1[y].len() ==> (#[trigger] g2[y][x]).is_bomb == (
            g1[y][x].is_bomb || (x == bx && y == by)),
    ensures
        forall|x: int, y: int|
            bombs_adjacent(g2, x, y) == bombs_adjacent(g1, x, y) + (if adjacent(x, y, bx, by) {
                1int
            } else {
                0int
            }),
{
    assert forall|x: int, y: int| #[trigger] bomb_ind(g2, x, y) == bomb_ind(g1, x, y) + (if (x == bx
        && y == by) {
        1int
    } else {
        0int
    }) by {
        if 0 <= y < g1.len() && 0 <= x < g1[y].len() {
        }
    }
}

/// The neighbourhood bomb count reads nothing but `is_bomb`: two grids that
/// agree on it everywhere agree on every neighbourhood count.
pub proof fn lemma_bombs_adjacent_congruent(g1: Seq<Seq<Tile>>, g2: Seq<Seq<Tile>>)
    requires
        g1.len() == g2.len(),
        forall|y: int| 0 <= y < g1.len() ==> (#[trigger] g1[y]).len() == (#[trigger] g2[y]).len(),
        forall|y: int, x: int|
            0 <= y < g1.len() && 0 <= x < g1[y].len() ==> (#[trigger] g2[y][x]).is_bomb == (
            #[trigger] g1[y][x]).is_bomb,
    ensures
        forall|x: int, y: int| bombs_adjacent(g2, x, y) == bombs_adjacent(g1, x, y),
{
    assert forall|x: int, y: int| #[trigger] bomb_ind(g2, x, y) == bomb_ind(g1, x, y) by {
        if 0 <= y < g1.len() && 0 <= x < g1[y].len() {
        }
    }
}

/// Every visited safe cell has its whole present neighbourhood shown: the
/// exposure cascade never leaves a visited cell with a hidden neighbour.
#[verifier::opaque]
pub open spec fn exposure_closed(g: Seq<Seq<Tile>>) -> bool {
    forall|y: int, x: int, j: int, i: int|
        0 <= y < g.len() && 0 <= x < g[y].len() && (#[trigger] g[y][x]).was_clicked
            && !g[y][x].is_bomb && 0 <= j < g.len() && 0 <= i < g[j].len() && adjacent(i, j, x, y)
            ==> (#[trigger] g[j][i]).is_shown
}

/// Every shown cell with no bomb around it has been visited by the cascade:
/// the revealed zero-count region is fully expanded, so the boundary of a
/// revealed region consists of cells with a positive count (or the board's
/// edge).
#[verifier::opaque]
pub open spec fn zero_shown_clicked(g: Seq<Seq<Tile>>) -> bool {
    forall|y: int, x: int|
        0 <= y < g.len() && 0 <= x < g[y].len() && (#[trigger] g[y][x]).is_shown
            && g[y][x].num_bombs_around == 0 ==> g[y][x].was_clicked
}

/// As `exposure_closed`, but cells still waiting on the cascade queue
/// (entries from `head` on) are exempt: they will be expanded when
/// dequeued.
#[verifier::opaque]
pub open spec fn exposure_closed_except(
    g: Seq<Seq<Tile>>,
    q: Seq<(usize, usize)>,
    head: int,
) -> bool {
    forall|yy: int, xx: int, j: int, i: int|
        0 <= yy < g.len() && 0 <= xx < g[yy].len() && (#[trigger] g[yy][xx]).was_clicked
            && !g[yy][xx].is_bomb && !(exists|k: int|
            head <= k < q.len() && ((#[trigger] q[k]).0 as int) == xx && (q[k].1 as int) == yy) && 0
            <= j < g.len() && 0 <= i < g[j].len() && adjacent(i, j, xx, yy) ==> (
        #[trigger] g[j][i]).is_shown
}

/// The grid with the flag of the cell at `(x, y)` set or cleared.
pub open spec fn with_flag(g: Seq<Seq<Tile>>, x: int, y: int, flag: bool) -> Seq<Seq<Tile>> {
    g.update(y, g[y].update(x, Tile { has_flag: flag, ..g[y][x] }))
}

/// What the win reveal makes of an internal cell: safe cells are forced
/// shown and marked visited, bombs stay as they are.
pub open spec fn win_internal_cell(t: Tile) -> Tile {
    if !t.is_bomb {
        Tile { is_shown: true, was_clicked: true, ..t }
    } else {
        t
    }
}

/// What the win reveal makes of an external cell: safe cells take the full
/// revealed internal cell, bombs keep their external face.
pub open spec fn win_external_cell(ti: Tile, te: Tile) -> Tile {
    if !ti.is_bomb {
        win_internal_cell(ti)
    } else {
        te
    }
}

/// What the loss reveal makes of an internal cell: bombs are forced shown,
/// safe cells stay as they are.
pub open spec fn loss_internal_cell(t: Tile) -> Tile {
    if t.is_bomb {
        Tile { is_shown: true, ..t }
    } else {
        t
    }
}

/// What the loss reveal makes of an external cell: bombs take the full
/// revealed internal cell, safe cells keep their external face.
pub open spec fn loss_external_cell(ti: Tile, te: Tile) -> Tile {
    if ti.is_bomb {
        loss_internal_cell(ti)
    } else {
        te
    }
}

/// The internal grid after the win reveal.
pub open spec fn win_reveal_internal(g: Seq<Seq<Tile>>) -> Seq<Seq<Tile>> {
    Seq::new(g.len(), |y: int| Seq::new(g[y].len(), |x: int| win_internal_cell(g[y][x])))
}

/// The external grid after the win reveal.
pub open spec fn win_reveal_external(gi: Seq<Seq<Tile>>, ge: Seq<Seq<Tile>>) -> Seq<Seq<Tile>> {
    Seq::new(
        ge.len(),
        |y: int| Seq::new(ge[y].len(), |x: int| win_external_cell(gi[y][x], ge[y][x])),
    )
}

/// Pointwise descriptions of the win reveal pin down the revealed grids.
pub proof fn lemma_win_reveal_views(
    gi: Seq<Seq<Tile>>,
    ge: Seq<Seq<Tile>>,
    pi: Seq<Seq<Tile>>,
    pe: Seq<Seq<Tile>>,
)
    requires
        pi.len() == gi.len(),
        ge.len() == gi.len(),
        pe.len() == ge.len(),
        forall|y: int| 0 <= y < gi.len() ==> (#[trigger] pi[y]).len() == (#[trigger] gi[y]).len(),
        forall|y: int| 0 <= y < gi.len() ==> (#[trigger] ge[y]).len() == (#[trigger] gi[y]).len(),
        forall|y: int| 0 <= y < ge.len() ==> (#[trigger] pe[y]).len() == (#[trigger] ge[y]).len(),
        forall|y: int, x: int|
            0 <= y < gi.len() && 0 <= x < gi[y].len() ==> (#[trigger] pi[y][x])
                == win_internal_cell(gi[y][x]),
        forall|y: int, x: int|
            0 <= y < ge.len() && 0 <= x < ge[y].len() ==> (#[trigger] pe[y][x])
                == win_external_cell(gi[y][x], ge[y][x]),
    ensures
        pi == win_reveal_internal(gi),
        pe == win_reveal_external(gi, ge),
{
    assert forall|y: int| 0 <= y < gi.len() implies #[trigger] pi[y] == win_reveal_internal(
        gi,
    )[y] by {
        assert(pi[y] =~= win_reveal_internal(gi)[y]);
    }
    assert(pi =~= win_reveal_internal(gi));
    assert forall|y: int| 0 <= y < ge.len() implies #[trigger] pe[y] == win_reveal_external(
        gi,
        ge,
    )[y] by {
        assert(pe[y] =~= win_reveal_external(gi, ge)[y]);
    }
    assert(pe =~= win_reveal_external(gi, ge));
}

/// The internal grid after the loss reveal.
pub open spec fn loss_reveal_internal(g: Seq<Seq<Tile>>) -> Seq<Seq<Tile>> {
    Seq::new(g.len(), |y: int| Seq::new(g[y].len(), |x: int| loss_internal_cell(g[y][x])))
}

/// The external grid after the loss reveal.
pub open spec fn loss_reveal_external(gi: Seq<Seq<Tile>>, ge: Seq<Seq<Tile>>) -> Seq<Seq<Tile>> {
    Seq::new(
        ge.len(),
        |y: int| Seq::new(ge[y].len(), |x: int| loss_external_cell(gi[y][x], ge[y][x])),
    )
}

} // verus!
