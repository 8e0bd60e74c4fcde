//! Counting cells of a grid that satisfy a predicate, with the lemmas the
//! engine's bookkeeping rests on: how a count changes when one cell is
//! replaced, that a count never exceeds the number of cells, and that two
//! pointwise-ordered predicates with equal counts agree on every cell.

use vstd::prelude::*;

use crate::tile::Tile;

verus! {

/// The cell is a bomb.
pub open spec fn bomb_pred() -> spec_fn(Tile) -> bool {
    |t: Tile| t.is_bomb
}

/// The cell carries a flag.
pub open spec fn flag_pred() -> spec_fn(Tile) -> bool {
    |t: Tile| t.has_flag
}

/// The cell carries a flag and is a bomb: a correct flag.
pub open spec fn correct_flag_pred() -> spec_fn(Tile) -> bool {
    |t: Tile| t.has_flag && t.is_bomb
}

/// The cell has been visited or queued by the exposure cascade.
pub open spec fn clicked_pred() -> spec_fn(Tile) -> bool {
    |t: Tile| t.was_clicked
}

/// How many cells of one row satisfy `f`.
pub open spec fn row_count(r: Seq<Tile>, f: spec_fn(Tile) -> bool) -> int
    decreases r.len(),
{
    if r.len() == 0 {
        0
    } else {
        row_count(r.drop_last(), f) + (if f(r.last()) {
            1int
        } else {
            0int
        })
    }
}

/// How many cells of the whole grid satisfy `f`.
pub open spec fn grid_count(g: Seq<Seq<Tile>>, f: spec_fn(Tile) -> bool) -> int
    decreases g.len(),
{
    if g.len() == 0 {
        0
    } else {
        grid_count(g.drop_last(), f) + row_count(g.last(), f)
    }
}

pub proof fn lemma_row_count_bounds(r: Seq<Tile>, f: spec_fn(Tile) -> bool)
    ensures
        0 <= row_count(r, f) <= r.len(),
    decreases r.len(),
{
    if r.len() > 0 {
        lemma_row_count_bounds(r.drop_last(), f);
    }
}

/// A count over a rectangular grid lies between zero and width × height.
pub proof fn lemma_grid_count_bounds(g: Seq<Seq<Tile>>, f: spec_fn(Tile) -> bool, w: int)
    requires
        forall|y: int| 0 <= y < g.len() ==> (#[trigger] g[y]).len() == w,
    ensures
        0 <= grid_count(g, f) <= g.len() * w,
    decreases g.len(),
{
    if g.len() == 0 {
    } else {
        lemma_grid_count_bounds(g.drop_last(), f, w);
        lemma_row_count_bounds(g.last(), f);
        assert((g.len() - 1) * w + w == g.len() * w) by (nonlinear_arith);
    }
}

/// Replacing one cell of a row shifts the count by the difference of the
/// old and new cells' indicators.
pub proof fn lemma_row_count_update(r: Seq<Tile>, i: int, t: Tile, f: spec_fn(Tile) -> bool)
    requires
        0 <= i < r.len(),
    ensures
        row_count(r.update(i, t), f) == row_count(r, f) + (if f(t) {
            1int
        } else {
            0int
        }) - (if f(r[i]) {
            1int
        } else {
            0int
        }),
    decreases r.len(),
{
    let ru = r.update(i, t);
    if i == r.len() - 1 {
        assert(ru.drop_last() =~= r.drop_last());
    } else {
        assert(ru.drop_last() =~= r.drop_last().update(i, t));
        lemma_row_count_update(r.drop_last(), i, t, f);
    }
}

/// Replacing one row of a grid shifts the count by the difference of the
/// old and new rows' counts.
pub proof fn lemma_grid_count_update_row(
    g: Seq<Seq<Tile>>,
    y: int,
    row: Seq<Tile>,
    f: spec_fn(Tile) -> bool,
)
    requires
        0 <= y < g.len(),
    ensures
        grid_count(g.update(y, row), f) == grid_count(g, f) + row_count(row, f) - row_count(
            g[y],
            f,
        ),
    decreases g.len(),
{
    let gu = g.update(y, row);
    if y == g.len() - 1 {
        assert(gu.drop_last() =~= g.drop_last());
    } else {
        assert(gu.drop_last() =~= g.drop_last().update(y, row));
        lemma_grid_count_update_row(g.drop_last(), y, row, f);
    }
}

/// Replacing one cell of a grid shifts the count by the difference of the
/// old and new cells' indicators.
pub proof fn lemma_grid_count_update_cell(
    g: Seq<Seq<Tile>>,
    x: int,
    y: int,
    t: Tile,
    f: spec_fn(Tile) -> bool,
)
    requires
        0 <= y < g.len(),
        0 <= x < g[y].len(),
    ensures
        grid_count(g.update(y, g[y].update(x, t)), f) == grid_count(g, f) + (if f(t) {
            1int
        } else {
            0int
        }) - (if f(g[y][x]) {
            1int
        } else {
            0int
        }),
{
    lemma_grid_count_update_row(g, y, g[y].update(x, t), f);
    lemma_row_count_update(g[y], x, t, f);
}

pub proof fn lemma_row_count_zero(r: Seq<Tile>, f: spec_fn(Tile) -> bool)
    requires
        forall|i: int| 0 <= i < r.len() ==> !f(#[trigger] r[i]),
    ensures
        row_count(r, f) == 0,
    decreases r.len(),
{
    if r.len() > 0 {
        lemma_row_count_zero(r.drop_last(), f);
    }
}

/// A grid none of whose cells satisfies `f` counts zero.
pub proof fn lemma_grid_count_zero(g: Seq<Seq<Tile>>, f: spec_fn(Tile) -> bool)
    requires
        forall|y: int, x: int| 0 <= y < g.len() && 0 <= x < g[y].len() ==> !f(#[trigger] g[y][x]),
    ensures
        grid_count(g, f) == 0,
    decreases g.len(),
{
    if g.len() > 0 {
        lemma_grid_count_zero(g.drop_last(), f);
        lemma_row_count_zero(g.last(), f);
    }
}

pub proof fn lemma_row_count_le(r: Seq<Tile>, f: spec_fn(Tile) -> bool, h: spec_fn(Tile) -> bool)
    requires
        forall|t: Tile| #[trigger] f(t) ==> h(t),
    ensures
        row_count(r, f) <= row_count(r, h),
    decreases r.len(),
{
    if r.len() > 0 {
        lemma_row_count_le(r.drop_last(), f, h);
    }
}

/// A predicate implied pointwise by another never counts more cells.
pub proof fn lemma_grid_count_le(
    g: Seq<Seq<Tile>>,
    f: spec_fn(Tile) -> bool,
    h: spec_fn(Tile) -> bool,
)
    requires
        forall|t: Tile| #[trigger] f(t) ==> h(t),
    ensures
        grid_count(g, f) <= grid_count(g, h),
    decreases g.len(),
{
    if g.len() > 0 {
        lemma_grid_count_le(g.drop_last(), f, h);
        lemma_row_count_le(g.last(), f, h);
    }
}

pub proof fn lemma_row_count_congruent(
    r1: Seq<Tile>,
    r2: Seq<Tile>,
    f: spec_fn(Tile) -> bool,
)
    requires
        r1.len() == r2.len(),
        forall|i: int| 0 <= i < r1.len() ==> f(#[trigger] r1[i]) == f(#[trigger] r2[i]),
    ensures
        row_count(r1, f) == row_count(r2, f),
    decreases r1.len(),
{
    if r1.len() > 0 {
        lemma_row_count_congruent(r1.drop_last(), r2.drop_last(), f);
    }
}

/// Two grids of the same shape whose cells agree on `f` pointwise count the
/// same number of cells.
pub proof fn lemma_grid_count_congruent(
    g1: Seq<Seq<Tile>>,
    g2: Seq<Seq<Tile>>,
    f: spec_fn(Tile) -> bool,
)
    requires
        g1.len() == g2.len(),
        forall|y: int| 0 <= y < g1.len() ==> (#[trigger] g1[y]).len() == (#[trigger] g2[y]).len(),
        forall|y: int, x: int|
            0 <= y < g1.len() && 0 <= x < g1[y].len() ==> f(#[trigger] g1[y][x]) == f(
                #[trigger] g2[y][x],
            ),
    ensures
        grid_count(g1, f) == grid_count(g2, f),
    decreases g1.len(),
{
    if g1.len() > 0 {
        lemma_grid_count_congruent(g1.drop_last(), g2.drop_last(), f);
        let n = g1.len() - 1;
        lemma_row_count_congruent(g1[n], g2[n], f);
    }
}

pub proof fn lemma_row_count_agree(r: Seq<Tile>, f: spec_fn(Tile) -> bool, h: spec_fn(Tile) -> bool)
    requires
        forall|i: int| 0 <= i < r.len() ==> f(#[trigger] r[i]) == h(r[i]),
    ensures
        row_count(r, f) == row_count(r, h),
    decreases r.len(),
{
    if r.len() > 0 {
        lemma_row_count_agree(r.drop_last(), f, h);
    }
}

/// Two predicates that agree on every cell of a grid count the same cells.
pub proof fn lemma_grid_count_agree(
    g: Seq<Seq<Tile>>,
    f: spec_fn(Tile) -> bool,
    h: spec_fn(Tile) -> bool,
)
    requires
        forall|y: int, x: int|
            0 <= y < g.len() && 0 <= x < g[y].len() ==> f(#[trigger] g[y][x]) == h(g[y][x]),
    ensures
        grid_count(g, f) == grid_count(g, h),
    decreases g.len(),
{
    if g.len() > 0 {
        lemma_grid_count_agree(g.drop_last(), f, h);
        lemma_row_count_agree(g.last(), f, h);
    }
}

pub proof fn lemma_row_count_eq_pointwise(
    r: Seq<Tile>,
    f: spec_fn(Tile) -> bool,
    h: spec_fn(Tile) -> bool,
)
    requires
        forall|t: Tile| #[trigger] f(t) ==> h(t),
        row_count(r, f) == row_count(r, h),
    ensures
        forall|i: int| 0 <= i < r.len() ==> (h(#[trigger] r[i]) ==> f(r[i])),
    decreases r.len(),
{
    if r.len() > 0 {
        lemma_row_count_le(r.drop_last(), f, h);
        lemma_row_count_eq_pointwise(r.drop_last(), f, h);
        assert forall|i: int| 0 <= i < r.len() implies (h(#[trigger] r[i]) ==> f(r[i])) by {
            if i < r.len() - 1 {
                assert(r.drop_last()[i] == r[i]);
            }
        }
    }
}

/// If `f` implies `h` pointwise and both count the same number of cells,
/// the two predicates agree on every cell of the grid.
pub proof fn lemma_grid_count_eq_pointwise(
    g: Seq<Seq<Tile>>,
    f: spec_fn(Tile) -> bool,
    h: spec_fn(Tile) -> bool,
)
    requires
        forall|t: Tile| #[trigger] f(t) ==> h(t),
        grid_count(g, f) == grid_count(g, h),
    ensures
        forall|y: int, x: int|
            0 <= y < g.len() && 0 <= x < g[y].len() ==> (h(#[trigger] g[y][x]) ==> f(g[y][x])),
    decreases g.len(),
{
    if g.len() > 0 {
        lemma_grid_count_le(g.drop_last(), f, h);
        lemma_row_count_le(g.last(), f, h);
        lemma_grid_count_eq_pointwise(g.drop_last(), f, h);
        lemma_row_count_eq_pointwise(g.last(), f, h);
        assert forall|y: int, x: int|
            0 <= y < g.len() && 0 <= x < g[y].len() implies (h(#[trigger] g[y][x]) ==> f(
            g[y][x],
        )) by {
            if y < g.len() - 1 {
                assert(g.drop_last()[y] == g[y]);
            } else {
                assert(g.last() == g[y]);
            }
        }
    }
}

} // verus!
