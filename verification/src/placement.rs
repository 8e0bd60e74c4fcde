//! Bomb placement. A layout is generated once per game: uniformly random
//! cells are drawn until the wanted number of distinct bombs stand on the
//! grid, the clicked cell excluded, and every placement keeps each cell's
//! `num_bombs_around` equal to the bomb count of its neighbourhood.

use vstd::prelude::*;

use rand::Rng;

use crate::board_spec::{adjacent, bombs_adjacent, counts_consistent, lemma_bombs_adjacent_bounds, lemma_bombs_adjacent_congruent, lemma_bombs_adjacent_one_more};
use crate::coords::{Horizontal, Vertical};
use crate::count::{bomb_pred, grid_count, lemma_grid_count_congruent, lemma_grid_count_update_cell, lemma_grid_count_zero};
use crate::errors::Error;
use crate::tile::Tile;
use crate::vec2d::Vec2d;

verus! {

/// Relies on rand::Rng::gen_range over `0..bound` (with rand's thread-local
/// generator): it returns a value of that range, uniformly distributed, and
/// panics only when the range is empty, which the precondition excludes.
/// Nothing more is assumed: two calls on the same bound may differ.
#[verifier::external_body]
fn random_below(bound: usize) -> (r: usize)
    requires
        bound > 0,
    ensures
        r < bound,
{
    rand::thread_rng().gen_range(0..bound)
}

/// Add one to `num_bombs_around` of every present cell Chebyshev-adjacent
/// to `(x, y)`, the cell itself included. One sweep over the grid; every
/// other cell keeps its value.
fn bump_adjacent(grid: &mut Vec2d<Tile>, x: usize, y: usize)
    requires
        old(grid)@.len() <= usize::MAX,
        forall|j: int| 0 <= j < old(grid)@.len() ==> (#[trigger] old(grid)@[j]).len() <= usize::MAX,
        x < usize::MAX,
        y < usize::MAX,
        forall|j: int, i: int|
            0 <= j < old(grid)@.len() && 0 <= i < old(grid)@[j].len() ==> (
            #[trigger] old(grid)@[j][i]).num_bombs_around < usize::MAX,
    ensures
        final(grid).spec_width() == old(grid).spec_width(),
        final(grid).spec_height() == old(grid).spec_height(),
        final(grid)@.len() == old(grid)@.len(),
        forall|j: int|
            0 <= j < old(grid)@.len() ==> (#[trigger] final(grid)@[j]).len() == old(grid)@[j].len(),
        forall|j: int, i: int|
            0 <= j < old(grid)@.len() && 0 <= i < old(grid)@[j].len() ==> (
            #[trigger] final(grid)@[j][i]) == (if adjacent(i, j, x as int, y as int) {
                (Tile {
                    num_bombs_around: (old(grid)@[j][i].num_bombs_around + 1) as usize,
                    ..old(grid)@[j][i]
                })
            } else {
                old(grid)@[j][i]
            }),
{
    let ghost base = grid@;
    let rows = grid.num_rows();
    let mut j: usize = 0;
    while j < rows
        invariant
            rows as int == base.len(),
            base.len() <= usize::MAX,
            x < usize::MAX,
            y < usize::MAX,
            j <= rows,
            grid.spec_width() == old(grid).spec_width(),
            grid.spec_height() == old(grid).spec_height(),
            grid@.len() == base.len(),
            forall|jj: int| 0 <= jj < base.len() ==> (#[trigger] grid@[jj]).len() == base[jj].len(),
            forall|jj: int| 0 <= jj < base.len() ==> (#[trigger] base[jj]).len() <= usize::MAX,
            forall|jj: int, ii: int|
                0 <= jj < base.len() && 0 <= ii < base[jj].len() ==> (
                #[trigger] base[jj][ii]).num_bombs_around < usize::MAX,
            forall|jj: int, ii: int|
                0 <= jj < base.len() && 0 <= ii < base[jj].len() ==> (#[trigger] grid@[jj][ii])
                    == (if jj < j && adjacent(ii, jj, x as int, y as int) {
                    (Tile {
                        num_bombs_around: (base[jj][ii].num_bombs_around + 1) as usize,
                        ..base[jj][ii]
                    })
                } else {
                    base[jj][ii]
                }),
        decreases rows - j,
    {
        let w = grid.row_len(j);
        let mut i: usize = 0;
        while i < w
            invariant
                rows as int == base.len(),
                base.len() <= usize::MAX,
                x < usize::MAX,
                y < usize::MAX,
                j < rows,
                i <= w,
                w as int == base[j as int].len(),
                grid.spec_width() == old(grid).spec_width(),
                grid.spec_height() == old(grid).spec_height(),
                grid@.len() == base.len(),
                forall|jj: int|
                    0 <= jj < base.len() ==> (#[trigger] grid@[jj]).len() == base[jj].len(),
                forall|jj: int| 0 <= jj < base.len() ==> (#[trigger] base[jj]).len() <= usize::MAX,
                forall|jj: int, ii: int|
                    0 <= jj < base.len() && 0 <= ii < base[jj].len() ==> (
                    #[trigger] base[jj][ii]).num_bombs_around < usize::MAX,
                forall|jj: int, ii: int|
                    0 <= jj < base.len() && 0 <= ii < base[jj].len() ==> (#[trigger] grid@[jj][ii])
                        == (if (jj < j || (jj == j && ii < i)) && adjacent(
                        ii,
                        jj,
                        x as int,
                        y as int,
                    ) {
                        (Tile {
                            num_bombs_around: (base[jj][ii].num_bombs_around + 1) as usize,
                            ..base[jj][ii]
                        })
                    } else {
                        base[jj][ii]
                    }),
            decreases w - i,
        {
            if x <= i + 1 && i <= x + 1 && y <= j + 1 && j <= y + 1 {
                match grid.get_mut(&Horizontal(i), &Vertical(j)) {
                    Some(t) => {
                        t.num_bombs_around = t.num_bombs_around + 1;
                    },
                    None => {},
                }
            }
            i = i + 1;
        }
        j = j + 1;
    }
}

/// Try to place a bomb at the in-bounds cell `(x, y)`. Nothing happens if
/// a bomb already stands there; otherwise the cell becomes a bomb and every
/// adjacent cell's `num_bombs_around` rises by one, keeping the counts
/// consistent and raising the grid's bomb total by one.
pub(crate) fn place_bomb(grid: &mut Vec2d<Tile>, x: usize, y: usize) -> (placed: bool)
    requires
        old(grid).contains(x as int, y as int),
        old(grid)@.len() <= usize::MAX,
        forall|j: int| 0 <= j < old(grid)@.len() ==> (#[trigger] old(grid)@[j]).len() <= usize::MAX,
        counts_consistent(old(grid)@),
    ensures
        final(grid).spec_width() == old(grid).spec_width(),
        final(grid).spec_height() == old(grid).spec_height(),
        final(grid)@.len() == old(grid)@.len(),
        forall|j: int|
            0 <= j < old(grid)@.len() ==> (#[trigger] final(grid)@[j]).len() == old(grid)@[j].len(),
        placed == !old(grid)@[y as int][x as int].is_bomb,
        !placed ==> final(grid)@ == old(grid)@,
        counts_consistent(final(grid)@),
        placed ==> forall|j: int, i: int|
            0 <= j < old(grid)@.len() && 0 <= i < old(grid)@[j].len() ==> (
            #[trigger] final(grid)@[j][i]) == (Tile {
                is_bomb: old(grid)@[j][i].is_bomb || (i == x as int && j == y as int),
                num_bombs_around: (old(grid)@[j][i].num_bombs_around + (if adjacent(
                    i,
                    j,
                    x as int,
                    y as int,
                ) {
                    1int
                } else {
                    0int
                })) as usize,
                ..old(grid)@[j][i]
            }),
        grid_count(final(grid)@, bomb_pred()) == grid_count(old(grid)@, bomb_pred()) + (if placed {
            1int
        } else {
            0int
        }),
{
    proof {
        reveal(counts_consistent);
    }
    let ghost g0 = grid@;
    let xh = Horizontal(x);
    let yv = Vertical(y);
    let cur: Tile = match grid.get(&xh, &yv) {
        Some(t) => *t,
        None => {
            proof {
                assert(false);
            }
            Tile::default()
        },
    };
    if cur.is_bomb {
        return false;
    }
    let mut marked = cur;
    marked.is_bomb = true;
    let put_ok = grid.put(&xh, &yv, marked);
    let ghost g1 = grid@;
    proof {
        lemma_grid_count_update_cell(g0, x as int, y as int, marked, bomb_pred());
        lemma_bombs_adjacent_one_more(g0, g1, x as int, y as int);
        assert forall|j: int, i: int|
            0 <= j < g1.len() && 0 <= i < g1[j].len() implies (#[trigger] g1[j][i]).num_bombs_around
            < usize::MAX by {
            assert(g1[j][i].num_bombs_around == g0[j][i].num_bombs_around);
            assert(g0[j][i].num_bombs_around == bombs_adjacent(g0, i, j));
            lemma_bombs_adjacent_bounds(g0, i, j);
        }
    }
    bump_adjacent(grid, x, y);
    let ghost g2 = grid@;
    proof {
        reveal(counts_consistent);
        lemma_bombs_adjacent_congruent(g1, g2);
        assert forall|i: int, j: int|
            0 <= j < g2.len() && 0 <= i < g2[j].len() implies (#[trigger] g2[j][i]).num_bombs_around
            == bombs_adjacent(g2, i, j) by {
            assert(g2[j][i].num_bombs_around == g1[j][i].num_bombs_around + (if adjacent(
                i,
                j,
                x as int,
                y as int,
            ) {
                1int
            } else {
                0int
            }));
            assert(g1[j][i].num_bombs_around == bombs_adjacent(g0, i, j));
            assert(bombs_adjacent(g1, i, j) == bombs_adjacent(g0, i, j) + (if adjacent(
                i,
                j,
                x as int,
                y as int,
            ) {
                1int
            } else {
                0int
            }));
        }
        lemma_grid_count_congruent(g1, g2, bomb_pred());
    }
    true
}

/// A fresh internal grid for a game of `num_bombs` bombs, none of them at
/// the first-clicked cell `(avoid_x, avoid_y)`: random cells are drawn
/// until enough distinct bombs stand. Fails only if the draw budget runs
/// out before that, which a working random source never exhausts.
pub(crate) fn generate_layout(
    width: Horizontal,
    height: Vertical,
    num_bombs: usize,
    avoid_x: Horizontal,
    avoid_y: Vertical,
) -> (r: Result<Vec2d<Tile>, Error>)
    requires
        (width.0 as int) * (height.0 as int) <= usize::MAX,
        0 < num_bombs,
        (num_bombs as int) < (width.0 as int) * (height.0 as int),
        avoid_x.0 < width.0,
        avoid_y.0 < height.0,
    ensures
        (match r {
            Ok(g) => {
                &&& g.is_filled()
                &&& g.spec_width() == width.0 as int
                &&& g.spec_height() == height.0 as int
                &&& counts_consistent(g@)
                &&& grid_count(g@, bomb_pred()) == num_bombs
                &&& !g@[avoid_y.0 as int][avoid_x.0 as int].is_bomb
                &&& forall|j: int, i: int|
                    0 <= j < g@.len() && 0 <= i < g@[j].len() ==> !(#[trigger] g@[j][i]).has_flag
                        && !g@[j][i].is_shown && !g@[j][i].was_clicked
            },
            Err(e) => e == Error::BombGenerationExhausted,
        }),
{
    proof {
        assert(width.0 > 0 && height.0 > 0) by (nonlinear_arith)
            requires
                0 < num_bombs,
                (num_bombs as int) < (width.0 as int) * (height.0 as int),
        ;
    }
    let mut grid: Vec2d<Tile> = Vec2d::new(width, height);
    let factory = || -> (t: Tile)
        ensures
            t == Tile::spec_default(),
        { Tile::default() };
    match grid.fill(factory) {
        Ok(()) => {},
        Err(_) => {
            return Err(Error::BombGenerationExhausted);
        },
    }
    proof {
        assert forall|j: int, i: int|
            0 <= j < grid@.len() && 0 <= i < grid@[j].len() implies (#[trigger] grid@[j][i])
            == Tile::spec_default() by {
        }
        assert(counts_consistent(grid@)) by {
            reveal(counts_consistent);
        }
        lemma_grid_count_zero(grid@, bomb_pred());
    }
    let mut placed: usize = 0;
    let mut attempts: usize = 0;
    while placed < num_bombs && attempts < usize::MAX
        invariant
            width.0 > 0,
            height.0 > 0,
            placed <= num_bombs,
            grid.is_filled(),
            grid.spec_width() == width.0 as int,
            grid.spec_height() == height.0 as int,
            counts_consistent(grid@),
            grid_count(grid@, bomb_pred()) == placed,
            avoid_x.0 < width.0,
            avoid_y.0 < height.0,
            !grid@[avoid_y.0 as int][avoid_x.0 as int].is_bomb,
            forall|j: int, i: int|
                0 <= j < grid@.len() && 0 <= i < grid@[j].len() ==> !(
                #[trigger] grid@[j][i]).has_flag && !grid@[j][i].is_shown
                    && !grid@[j][i].was_clicked,
        decreases usize::MAX - attempts,
    {
        attempts = attempts + 1;
        let bx = random_below(width.0);
        let by = random_below(height.0);
        if !(bx == avoid_x.0 && by == avoid_y.0) {
            let did = place_bomb(&mut grid, bx, by);
            if did {
                placed = placed + 1;
            }
        }
    }
    if placed == num_bombs {
        Ok(grid)
    } else {
        Err(Error::BombGenerationExhausted)
    }
}

} // verus!
