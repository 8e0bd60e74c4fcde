//! A rectangular 2D container addressed by `(Horizontal, Vertical)`.
//! Out-of-bounds access is a normal outcome (`None`), never a fault: the
//! engine leans on this for boundary-safe neighbour iteration. A grid is
//! allocated with fixed width and height but holds no cells until `fill`
//! populates every one of them.

use vstd::prelude::*;

use crate::coords::{Horizontal, Vertical};
use crate::errors::Error;

verus! {

/// The sequence-of-rows abstraction of a row vector list.
pub closed spec fn rows_view<T>(s: Seq<Vec<T>>) -> Seq<Seq<T>> {
    Seq::new(s.len(), |i: int| s[i]@)
}

pub broadcast proof fn lemma_rows_view_len<T>(s: Seq<Vec<T>>)
    ensures
        (#[trigger] rows_view(s)).len() == s.len(),
{
}

pub broadcast proof fn lemma_rows_view_index<T>(s: Seq<Vec<T>>, i: int)
    requires
        0 <= i < s.len(),
    ensures
        #[trigger] rows_view(s)[i] == s[i]@,
{
}

pub broadcast proof fn lemma_rows_view_update<T>(s: Seq<Vec<T>>, i: int, r: Vec<T>)
    requires
        0 <= i < s.len(),
    ensures
        #![trigger rows_view(s), s.update(i, r)]
        rows_view(s.update(i, r)) == rows_view(s).update(i, r@),
{
    assert forall|j: int| 0 <= j < s.len() implies rows_view(s.update(i, r))[j] == rows_view(
        s,
    ).update(i, r@)[j] by {
        lemma_rows_view_index(s.update(i, r), j);
        lemma_rows_view_index(s, j);
    }
    lemma_rows_view_len(s.update(i, r));
    lemma_rows_view_len(s);
    assert(rows_view(s.update(i, r)) =~= rows_view(s).update(i, r@));
}


/// A width × height grid of `T`. The logical contents are a sequence of
/// rows (`self@`), each row a sequence of cells; `self@[y][x]` is the cell
/// in column `x` of row `y`.
#[derive(Debug)]
pub struct Vec2d<T> {
    width: Horizontal,
    height: Vertical,
    xy_vec: Vec<Vec<T>>,
}

impl<T> View for Vec2d<T> {
    type V = Seq<Seq<T>>;

    closed spec fn view(&self) -> Seq<Seq<T>> {
        rows_view(self.xy_vec@)
    }
}

impl<T> Vec2d<T> {
    /// The width this grid was allocated with.
    pub closed spec fn spec_width(&self) -> int {
        self.width.0 as int
    }

    /// The height this grid was allocated with.
    pub closed spec fn spec_height(&self) -> int {
        self.height.0 as int
    }

    /// The grid holds exactly its allocated width × height cells.
    pub open spec fn is_filled(&self) -> bool {
        &&& self@.len() == self.spec_height()
        &&& forall|y: int| 0 <= y < self@.len() ==> (#[trigger] self@[y]).len() == self.spec_width()
    }

    /// The cell at `(x, y)` is inside the populated grid.
    pub open spec fn contains(&self, x: int, y: int) -> bool {
        0 <= y < self@.len() && 0 <= x < self@[y].len()
    }

    /// A grid sized `width` × `height`, still without cells: every access
    /// returns "absent" until `fill` populates it.
    pub fn new(width: Horizontal, height: Vertical) -> (r: Vec2d<T>)
        ensures
            r.spec_width() == width.0 as int,
            r.spec_height() == height.0 as int,
            r@.len() == 0,
    {
        let r = Vec2d { width, height, xy_vec: Vec::new() };
        proof {
            lemma_rows_view_len(r.xy_vec@);
        }
        r
    }

    /// The cell at `(x, y)`, or `None` if either coordinate falls outside
    /// the populated grid.
    pub fn get(&self, x: &Horizontal, y: &Vertical) -> (r: Option<&T>)
        ensures
            (match r {
                Option::Some(t) => self.contains(x.0 as int, y.0 as int) && *t == self@[y.0 as int][x.0 as int],
                Option::None => !self.contains(x.0 as int, y.0 as int),
            }),
    {
        proof {
            lemma_rows_view_len(self.xy_vec@);
        }
        if y.0 < self.xy_vec.len() {
            proof {
                lemma_rows_view_index(self.xy_vec@, y.0 as int);
            }
            let row = &self.xy_vec[y.0];
            if x.0 < row.len() {
                return Some(&row[x.0]);
            }
        }
        None
    }

    /// A mutable borrow of the cell at `(x, y)`, or `None` if either
    /// coordinate falls outside the populated grid. On `Some`, the final
    /// grid is the old grid with that one cell replaced by whatever the
    /// caller leaves behind the returned borrow.
    pub fn get_mut(&mut self, x: &Horizontal, y: &Vertical) -> (r: Option<&mut T>)
        ensures
            final(self).spec_width() == old(self).spec_width(),
            final(self).spec_height() == old(self).spec_height(),
            (match r {
                Option::Some(t) => {
                    &&& old(self).contains(x.0 as int, y.0 as int)
                    &&& *t == old(self)@[y.0 as int][x.0 as int]
                    &&& final(self)@ == old(self)@.update(
                        y.0 as int,
                        old(self)@[y.0 as int].update(x.0 as int, *final(t)),
                    )
                },
                Option::None => {
                    &&& !old(self).contains(x.0 as int, y.0 as int)
                    &&& final(self)@ == old(self)@
                },
            }),
    {
        proof {
            broadcast use lemma_rows_view_len, lemma_rows_view_index, lemma_rows_view_update;
        }
        if y.0 < self.xy_vec.len() {
            let row = &mut self.xy_vec[y.0];
            if x.0 < row.len() {
                let cell = &mut row[x.0];
                return Some(cell);
            }
        }
        None
    }

    /// Replace the cell at `(x, y)` with `value`; reports whether the cell
    /// exists. An absent cell leaves the grid untouched.
    pub fn put(&mut self, x: &Horizontal, y: &Vertical, value: T) -> (r: bool)
        ensures
            final(self).spec_width() == old(self).spec_width(),
            final(self).spec_height() == old(self).spec_height(),
            r == old(self).contains(x.0 as int, y.0 as int),
            r ==> final(self)@ == old(self)@.update(
                y.0 as int,
                old(self)@[y.0 as int].update(x.0 as int, value),
            ),
            !r ==> final(self)@ == old(self)@,
    {
        proof {
            broadcast use lemma_rows_view_len, lemma_rows_view_index, lemma_rows_view_update;
        }
        match self.get_mut(x, y) {
            Some(cell) => {
                *cell = value;
                true
            },
            None => false,
        }
    }

    /// Populate every cell from the factory, replacing any prior contents.
    /// This is the only way cells come into existence; afterwards the grid
    /// holds exactly width × height cells, each one a result of the
    /// factory.
    pub fn fill<F: Fn() -> T>(&mut self, item_func: F) -> (r: Result<(), Error>)
        requires
            call_requires(item_func, ()),
        ensures
            r is Ok,
            final(self).spec_width() == old(self).spec_width(),
            final(self).spec_height() == old(self).spec_height(),
            final(self).is_filled(),
            forall|y: int, x: int|
                0 <= y < final(self)@.len() && 0 <= x < final(self)@[y].len()
                    ==> call_ensures(item_func, (), #[trigger] final(self)@[y][x]),
    {
        proof {
            broadcast use lemma_rows_view_len, lemma_rows_view_index, lemma_rows_view_update;
        }
        self.xy_vec.clear();
        let ghost w0 = self.width;
        let ghost h0 = self.height;
        let mut y: usize = 0;
        while y < self.height.0
            invariant
                self.width == w0,
                self.height == h0,
                y <= self.height.0,
                call_requires(item_func, ()),
                self.xy_vec@.len() == y,
                forall|j: int| 0 <= j < y ==> (#[trigger] self.xy_vec@[j])@.len() == self.width.0,
                forall|j: int, i: int|
                    0 <= j < y && 0 <= i < self.xy_vec@[j]@.len()
                        ==> call_ensures(item_func, (), #[trigger] self.xy_vec@[j]@[i]),
            decreases self.height.0 - y,
        {
            let mut row: Vec<T> = Vec::new();
            let mut x: usize = 0;
            while x < self.width.0
                invariant
                    x <= self.width.0,
                    call_requires(item_func, ()),
                    row@.len() == x,
                    forall|i: int| 0 <= i < x ==> call_ensures(item_func, (), #[trigger] row@[i]),
                decreases self.width.0 - x,
            {
                row.push(item_func());
                x = x + 1;
            }
            self.xy_vec.push(row);
            y = y + 1;
        }
        proof {
            lemma_rows_view_len(self.xy_vec@);
            assert forall|j: int| 0 <= j < self@.len() implies (#[trigger] self@[j]).len()
                == self.spec_width() by {
                lemma_rows_view_index(self.xy_vec@, j);
            }
            assert forall|j: int, i: int|
                0 <= j < self@.len() && 0 <= i < self@[j].len() implies call_ensures(
                item_func,
                (),
                #[trigger] self@[j][i],
            ) by {
                lemma_rows_view_index(self.xy_vec@, j);
            }
        }
        Ok(())
    }

    /// How many rows are populated.
    pub fn num_rows(&self) -> (r: usize)
        ensures
            r as int == self@.len(),
    {
        proof {
            broadcast use lemma_rows_view_len;
        }
        self.xy_vec.len()
    }

    /// How many cells row `y` holds; zero for an absent row.
    pub fn row_len(&self, y: usize) -> (r: usize)
        ensures
            (y as int) < self@.len() ==> r as int == self@[y as int].len(),
            (y as int) >= self@.len() ==> r == 0,
    {
        proof {
            broadcast use lemma_rows_view_len, lemma_rows_view_index;
        }
        if y < self.xy_vec.len() {
            self.xy_vec[y].len()
        } else {
            0
        }
    }

    /// The populated cells, as a vector of rows in top-to-bottom order.
    pub fn as_vec_vec(&self) -> (r: &Vec<Vec<T>>)
        ensures
            r@.len() == self@.len(),
            forall|y: int| 0 <= y < r@.len() ==> (#[trigger] r@[y])@ == self@[y],
    {
        proof {
            lemma_rows_view_len(self.xy_vec@);
            assert forall|y: int| 0 <= y < self.xy_vec@.len() implies (
            #[trigger] self.xy_vec@[y])@ == self@[y] by {
                lemma_rows_view_index(self.xy_vec@, y);
            }
        }
        &self.xy_vec
    }
}

} // verus!
