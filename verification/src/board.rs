//! The game board: a bordered grid of cells and the capture (flood-fill)
//! algorithm that converts enclosed sea into land.

use vstd::prelude::*;

use crate::geometry::Position;
use crate::reach::{
    adjacent, coord_of, lemma_path_suffix_reaches, lemma_reaches_from_ends,
    lemma_reaches_from_refl, lemma_reaches_from_step, lemma_reaches_from_trans,
    lemma_reaches_push, reaches, reaches_from, sea_path,
};
use crate::rng::random_below;
use std::collections::VecDeque;

verus! {

/// The state of one board cell.
///
/// `Land` and `Sea` are the only states a cell holds outside an in-progress
/// trail or capture pass.  `Sand` is the transient trail the player leaves
/// while crossing sea.  `DeepSea` exists only inside the flood-fill
/// computation and never persists once `fill` returns.
#[derive(Clone, Copy, PartialEq, Eq, Structural, Debug)]
pub enum Field {
    Land,
    Sea,
    DeepSea,
    Sand,
}

/// The mathematical model of a board's cells: a sequence of rows, each a
/// sequence of cells.
pub type Grid = Seq<Seq<Field>>;

/// Every row of `g` has length `w` and there are `h` rows.
pub open spec fn grid_wf(g: Grid, w: int, h: int) -> bool {
    &&& g.len() == h
    &&& forall|y: int| 0 <= y < h ==> (#[trigger] g[y]).len() == w
}

/// `(x, y)` names a cell of `g`.
pub open spec fn in_grid(g: Grid, x: int, y: int) -> bool {
    0 <= y < g.len() && 0 <= x < g[y].len()
}

/// The cell `(x, y)` of `g` is `Sea`.
pub open spec fn sea_at(g: Grid, x: int, y: int) -> bool {
    in_grid(g, x, y) && g[y][x] == Field::Sea
}

/// No cell of `g` is `DeepSea`: the resting state between capture passes.
pub open spec fn no_deep_sea(g: Grid) -> bool {
    forall|x: int, y: int| in_grid(g, x, y) ==> (#[trigger] g[y][x]) != Field::DeepSea
}

/// No cell of `g` is `DeepSea` or `Sand`: the state right after a capture.
pub open spec fn sea_or_land_only(g: Grid) -> bool {
    forall|x: int, y: int| in_grid(g, x, y)
        ==> (#[trigger] g[y][x]) == Field::Sea || g[y][x] == Field::Land
}

/// How one capture pass rewrites the board, cell by cell: a cell stays `Sea`
/// exactly when some source still reaches it through sea; every other cell
/// is claimed as `Land`.
pub open spec fn fill_post(g: Grid, sources: Seq<Position>, r: Grid) -> bool {
    &&& r.len() == g.len()
    &&& forall|y: int| 0 <= y < g.len() ==> (#[trigger] r[y]).len() == g[y].len()
    &&& forall|x: int, y: int|
        in_grid(g, x, y)
            ==> #[trigger] r[y][x] == (if reaches(g, sources, (x, y)) {
                Field::Sea
            } else {
                Field::Land
            })
}

/// Number of cells of `row` equal to `f`.
pub open spec fn count_row(row: Seq<Field>, f: Field) -> int
    decreases row.len(),
{
    if row.len() == 0 {
        0
    } else {
        count_row(row.drop_last(), f) + if row.last() == f {
            1int
        } else {
            0int
        }
    }
}

/// Number of cells of `g` equal to `f`.
pub open spec fn count_grid(g: Grid, f: Field) -> int
    decreases g.len(),
{
    if g.len() == 0 {
        0
    } else {
        count_grid(g.drop_last(), f) + count_row(g.last(), f)
    }
}

/// How the closing sweep of a capture rewrites one cell: flooded water
/// reverts to sea, everything else is claimed as land.
pub open spec fn sweep_cell(f: Field) -> Field {
    match f {
        Field::DeepSea => Field::Sea,
        Field::Sea => Field::Land,
        Field::Sand => Field::Land,
        Field::Land => Field::Land,
    }
}

/// The state of the grid after the sources `sources.take(n)` have been
/// flooded over `g`: exactly the cells they reach are `DeepSea`.
pub open spec fn flooded_upto(g: Grid, sources: Seq<Position>, m: Grid) -> bool {
    &&& m.len() == g.len()
    &&& forall|y: int| 0 <= y < g.len() ==> (#[trigger] m[y]).len() == g[y].len()
    &&& forall|x: int, y: int|
        in_grid(g, x, y)
            ==> #[trigger] m[y][x] == (if reaches(g, sources, (x, y)) {
                Field::DeepSea
            } else {
                g[y][x]
            })
}

/// In a partially flooded grid the sea cells are exactly the still-unreached
/// sea cells of the original grid, so a flood starting inside it reaches
/// exactly the original-grid cells that no earlier source reached.
pub proof fn lemma_reach_through_flooded(
    g: Grid,
    srcs: Seq<Position>,
    m: Grid,
    sc: (int, int),
    c: (int, int),
)
    requires
        no_deep_sea(g),
        flooded_upto(g, srcs, m),
    ensures
        reaches_from(m, sc, c) <==> (reaches_from(g, sc, c) && !reaches(g, srcs, c)),
{
    assert forall|x: int, y: int| sea_at(m, x, y) <==> (sea_at(g, x, y) && !reaches(
        g,
        srcs,
        (x, y),
    )) by {
        if 0 <= y < g.len() {
            assert(m[y].len() == g[y].len());
            if 0 <= x < g[y].len() {
                assert(in_grid(g, x, y));
                assert(m[y][x] == (if reaches(g, srcs, (x, y)) {
                    Field::DeepSea
                } else {
                    g[y][x]
                }));
                assert(g[y][x] != Field::DeepSea);
            }
        }
    }
    if reaches_from(m, sc, c) {
        let path = choose|path: Seq<(int, int)>|
            #[trigger] sea_path(m, path) && path.first() == sc && path.last() == c;
        assert forall|i: int| 0 <= i < path.len() implies sea_at(
            g,
            (#[trigger] path[i]).0,
            path[i].1,
        ) by {
            assert(sea_at(m, path[i].0, path[i].1));
        }
        assert(sea_path(g, path));
        assert(sea_at(m, c.0, c.1));
    }
    if reaches_from(g, sc, c) && !reaches(g, srcs, c) {
        let path = choose|path: Seq<(int, int)>|
            #[trigger] sea_path(g, path) && path.first() == sc && path.last() == c;
        assert forall|i: int| 0 <= i < path.len() implies !reaches(g, srcs, path[i]) by {
            if reaches(g, srcs, path[i]) {
                let j = choose|j: int|
                    0 <= j < srcs.len() && reaches_from(
                        g,
                        coord_of(srcs[j]),
                        path[i],
                    );
                lemma_path_suffix_reaches(g, path, i);
                lemma_reaches_from_trans(
                    g,
                    coord_of(srcs[j]),
                    path[i],
                    c,
                );
                assert(reaches(g, srcs, c));
            }
        }
        assert forall|i: int| 0 <= i < path.len() implies sea_at(
            m,
            (#[trigger] path[i]).0,
            path[i].1,
        ) by {
            assert(sea_at(g, path[i].0, path[i].1));
            assert(!reaches(g, srcs, path[i]));
            assert(path[i] == ((path[i].0, path[i].1)));
        }
        assert(sea_path(m, path));
    }
}

/// Flooding one more source over a partially flooded grid marks exactly the
/// union of what was marked and what that source reaches in the original
/// grid.
pub proof fn lemma_flood_compose(g: Grid, srcs: Seq<Position>, m: Grid, s: Position, m2: Grid)
    requires
        no_deep_sea(g),
        flooded_upto(g, srcs, m),
        m2.len() == m.len(),
        forall|y: int| 0 <= y < m.len() ==> (#[trigger] m2[y]).len() == m[y].len(),
        forall|x: int, y: int|
            in_grid(m, x, y)
                ==> #[trigger] m2[y][x] == (if reaches_from(
                    m,
                    coord_of(s),
                    (x, y),
                ) {
                    Field::DeepSea
                } else {
                    m[y][x]
                }),
    ensures
        flooded_upto(g, srcs.push(s), m2),
{
    let sc = coord_of(s);
    assert forall|x: int, y: int| in_grid(g, x, y) implies #[trigger] m2[y][x] == (if reaches(
        g,
        srcs.push(s),
        (x, y),
    ) {
        Field::DeepSea
    } else {
        g[y][x]
    }) by {
        assert(m[y].len() == g[y].len());
        assert(in_grid(m, x, y));
        lemma_reach_through_flooded(g, srcs, m, sc, (x, y));
        lemma_reaches_push(g, srcs, s, (x, y));
        assert(m[y][x] == (if reaches(g, srcs, (x, y)) {
            Field::DeepSea
        } else {
            g[y][x]
        }));
    }
}

/// Counts lie between zero and the row's length.
pub proof fn lemma_count_row_bounds(row: Seq<Field>, f: Field)
    ensures
        0 <= count_row(row, f) <= row.len(),
    decreases row.len(),
{
    if row.len() > 0 {
        lemma_count_row_bounds(row.drop_last(), f);
    }
}

/// Grid counts are non-negative.
pub proof fn lemma_count_grid_nonneg(g: Grid, f: Field)
    ensures
        count_grid(g, f) >= 0,
    decreases g.len(),
{
    if g.len() > 0 {
        lemma_count_grid_nonneg(g.drop_last(), f);
        lemma_count_row_bounds(g.last(), f);
    }
}

/// Updating one cell of a row adjusts its count by the change at that cell.
pub proof fn lemma_count_row_update(row: Seq<Field>, x: int, v: Field, f: Field)
    requires
        0 <= x < row.len(),
    ensures
        count_row(row.update(x, v), f) == count_row(row, f) - (if row[x] == f {
            1int
        } else {
            0int
        }) + (if v == f {
            1int
        } else {
            0int
        }),
    decreases row.len(),
{
    let r2 = row.update(x, v);
    if x == row.len() - 1 {
        assert(r2.drop_last() =~= row.drop_last());
    } else {
        assert(r2.drop_last() =~= row.drop_last().update(x, v));
        assert(r2.last() == row.last());
        lemma_count_row_update(row.drop_last(), x, v, f);
    }
}

/// Replacing one row of a grid adjusts its count by the two rows' difference.
pub proof fn lemma_count_grid_update(g: Grid, y: int, row2: Seq<Field>, f: Field)
    requires
        0 <= y < g.len(),
    ensures
        count_grid(g.update(y, row2), f) == count_grid(g, f) - count_row(g[y], f) + count_row(
            row2,
            f,
        ),
    decreases g.len(),
{
    let g2 = g.update(y, row2);
    if y == g.len() - 1 {
        assert(g2.drop_last() =~= g.drop_last());
        assert(g2.last() == row2);
    } else {
        assert(g2.drop_last() =~= g.drop_last().update(y, row2));
        assert(g2.last() == g.last());
        lemma_count_grid_update(g.drop_last(), y, row2, f);
    }
}

/// Pointwise containment of a cell state gives an inequality of counts.
pub proof fn lemma_count_row_le(a: Seq<Field>, b: Seq<Field>, f: Field)
    requires
        a.len() == b.len(),
        forall|i: int| 0 <= i < a.len() ==> (#[trigger] a[i]) == f ==> b[i] == f,
    ensures
        count_row(a, f) <= count_row(b, f),
    decreases a.len(),
{
    if a.len() > 0 {
        lemma_count_row_le(a.drop_last(), b.drop_last(), f);
    }
}

/// Pointwise containment of a cell state, row by row, gives an inequality
/// of grid counts.
pub proof fn lemma_count_grid_le(a: Grid, b: Grid, f: Field)
    requires
        a.len() == b.len(),
        forall|y: int| 0 <= y < a.len() ==> (#[trigger] a[y]).len() == b[y].len(),
        forall|x: int, y: int| in_grid(a, x, y) ==> (#[trigger] a[y][x]) == f ==> b[y][x] == f,
    ensures
        count_grid(a, f) <= count_grid(b, f),
    decreases a.len(),
{
    if a.len() > 0 {
        let n = a.len() - 1;
        assert(forall|x: int, y: int|
            in_grid(a.drop_last(), x, y) ==> in_grid(a, x, y) && a.drop_last()[y] == a[y]);
        lemma_count_grid_le(a.drop_last(), b.drop_last(), f);
        assert(forall|i: int|
            0 <= i < a[n].len() ==> a[n][i] == f ==> in_grid(a, i, n) && b[n][i] == f);
        lemma_count_row_le(a[n], b[n], f);
        assert(a.last() == a[n] && b.last() == b[n]);
    }
}

/// Counting a row after the closing sweep: swept land collects the former
/// sea, sand and land; swept sea is the former flooded water.
pub proof fn lemma_count_row_sweep(a: Seq<Field>, b: Seq<Field>)
    requires
        a.len() == b.len(),
        forall|i: int| 0 <= i < a.len() ==> b[i] == sweep_cell(#[trigger] a[i]),
    ensures
        count_row(b, Field::Land) == count_row(a, Field::Sea) + count_row(a, Field::Sand)
            + count_row(a, Field::Land),
        count_row(b, Field::Sea) == count_row(a, Field::DeepSea),
    decreases a.len(),
{
    if a.len() > 0 {
        lemma_count_row_sweep(a.drop_last(), b.drop_last());
    }
}

/// Grid version of `lemma_count_row_sweep`.
pub proof fn lemma_count_grid_sweep(a: Grid, b: Grid)
    requires
        a.len() == b.len(),
        forall|y: int| 0 <= y < a.len() ==> (#[trigger] a[y]).len() == b[y].len(),
        forall|x: int, y: int| in_grid(a, x, y) ==> (#[trigger] b[y][x]) == sweep_cell(a[y][x]),
    ensures
        count_grid(b, Field::Land) == count_grid(a, Field::Sea) + count_grid(a, Field::Sand)
            + count_grid(a, Field::Land),
        count_grid(b, Field::Sea) == count_grid(a, Field::DeepSea),
    decreases a.len(),
{
    if a.len() > 0 {
        let n = a.len() - 1;
        assert(forall|x: int, y: int|
            in_grid(a.drop_last(), x, y) ==> in_grid(a, x, y) && a.drop_last()[y] == a[y]
                && b.drop_last()[y] == b[y]);
        lemma_count_grid_sweep(a.drop_last(), b.drop_last());
        assert(forall|i: int|
            0 <= i < a[n].len() ==> in_grid(a, i, n) && b[n][i] == sweep_cell(a[n][i]));
        lemma_count_row_sweep(a[n], b[n]);
        assert(a.last() == a[n] && b.last() == b[n]);
    }
}

/// Counting a state that two grids hold in exactly the same cells.
pub proof fn lemma_count_grid_congruence(a: Grid, b: Grid, f: Field)
    requires
        a.len() == b.len(),
        forall|y: int| 0 <= y < a.len() ==> (#[trigger] a[y]).len() == b[y].len(),
        forall|x: int, y: int| in_grid(a, x, y) ==> ((#[trigger] a[y][x]) == f <==> b[y][x] == f),
    ensures
        count_grid(a, f) == count_grid(b, f),
{
    lemma_count_grid_le(a, b, f);
    assert(forall|x: int, y: int| in_grid(b, x, y) ==> in_grid(a, x, y));
    lemma_count_grid_le(b, a, f);
}

/// The cell a freshly created board holds at `(x, y)`: a two-cell land
/// border around an all-sea interior.
pub open spec fn fresh_cell(w: int, h: int, x: int, y: int) -> Field {
    if x < 2 || x >= w - 2 || y < 2 || y >= h - 2 {
        Field::Land
    } else {
        Field::Sea
    }
}

/// A grid with rows of length `w` holds at most `h * w` cells of any state.
pub proof fn lemma_count_grid_bound(g: Grid, w: int, h: int, f: Field)
    requires
        grid_wf(g, w, h),
        0 <= w,
    ensures
        count_grid(g, f) <= h * w,
    decreases g.len(),
{
    if g.len() == 0 {
        assert(h * w >= 0) by (nonlinear_arith)
            requires
                h == 0,
                0 <= w,
        ;
    } else {
        assert(grid_wf(g.drop_last(), w, h - 1));
        lemma_count_grid_bound(g.drop_last(), w, h - 1, f);
        lemma_count_row_bounds(g.last(), f);
        assert((h - 1) * w + w == h * w) by (nonlinear_arith);
    }
}

/// During a flood pass over `g0` that has produced `h`: the cell `c` was
/// sea and has been marked as flooded.
pub open spec fn marked(g0: Grid, h: Grid, c: (int, int)) -> bool {
    &&& in_grid(g0, c.0, c.1)
    &&& g0[c.1][c.0] == Field::Sea
    &&& h[c.1][c.0] == Field::DeepSea
}

/// Some entry of the worklist has the coordinates `c`.
pub open spec fn in_queue(q: Seq<Position>, c: (int, int)) -> bool {
    exists|k: int| 0 <= k < q.len() && coord_of(q[k]) == c
}

/// Once the flooded set is closed under sea adjacency, it swallows every
/// sea path that starts inside it.
pub proof fn lemma_path_stays_marked(g0: Grid, h: Grid, path: Seq<(int, int)>)
    requires
        forall|c: (int, int)|
            in_grid(g0, c.0, c.1) ==> #[trigger] h[c.1][c.0] == g0[c.1][c.0] || (g0[c.1][c.0]
                == Field::Sea && h[c.1][c.0] == Field::DeepSea),
        forall|c: (int, int), n: (int, int)|
            marked(g0, h, c) && #[trigger] adjacent(c, n) && sea_at(g0, n.0, n.1) ==> marked(
                g0,
                h,
                n,
            ),
        sea_path(g0, path),
        marked(g0, h, path.first()),
    ensures
        marked(g0, h, path.last()),
    decreases path.len(),
{
    if path.len() > 1 {
        let pre = path.drop_last();
        assert forall|i: int| 0 <= i < pre.len() implies sea_at(
            g0,
            (#[trigger] pre[i]).0,
            pre[i].1,
        ) by {
            assert(pre[i] == path[i]);
        }
        assert forall|i: int| 1 <= i < pre.len() implies adjacent(pre[i - 1], #[trigger] pre[i]) by {
            assert(pre[i] == path[i] && pre[i - 1] == path[i - 1]);
        }
        assert(sea_path(g0, pre));
        assert(pre.first() == path.first());
        lemma_path_stays_marked(g0, h, pre);
        let u = path[path.len() - 2];
        let v = path.last();
        assert(pre.last() == u);
        assert(adjacent(path[path.len() - 2], path[path.len() - 1]));
        assert(sea_at(g0, v.0, v.1));
        assert(marked(g0, h, v));
    }
}

/// A fixed-size grid of cells with a two-cell land border, plus the cached
/// size of the still-unclaimed sea as of the last completed capture.
pub struct Board {
    pub fields: Vec<Vec<Field>>,
    pub width: usize,
    pub height: usize,
    /// Number of `Sea` cells as of the last `new` or `fill`; the fill ratio
    /// is `1 - remaining_sea / interior_cells`.
    pub remaining_sea: usize,
}

/// Failure of a random cell search: the retry budget ran out before a cell
/// of the requested state was drawn.
#[derive(Clone, Copy, PartialEq, Eq, Structural, Debug)]
pub enum BoardError {
    NoMatchingCell,
}

/// How many random draws `random_position_of_type` makes before giving up.
pub const SEARCH_RETRY_LIMIT: usize = 10000;

impl Board {
    /// The board's cells as a mathematical grid.
    pub open spec fn grid(self) -> Grid {
        self.fields@.map_values(|r: Vec<Field>| r@)
    }

    /// The cell at `(x, y)`.
    pub open spec fn spec_cell(self, x: int, y: int) -> Field {
        self.grid()[y][x]
    }

    /// Basic shape invariant: the grid matches the stated width and height,
    /// both of which are large enough to hold the two-cell border around a
    /// non-empty interior, and small enough for `i16` coordinates.
    pub open spec fn wf(self) -> bool {
        &&& 5 <= self.width <= 30000
        &&& 5 <= self.height <= 30000
        &&& grid_wf(self.grid(), self.width as int, self.height as int)
    }

    /// Number of interior cells: the grid minus its two-cell border.
    pub open spec fn spec_interior_cells(self) -> int {
        (self.width - 4) * (self.height - 4)
    }

    /// `(x, y)` lies inside the grid.
    pub open spec fn spec_within(self, x: int, y: int) -> bool {
        0 <= x < self.width && 0 <= y < self.height
    }

    /// True iff both coordinates of `position` lie inside the grid.
    pub fn within_bounds(&self, position: &Position) -> (r: bool)
        requires
            self.wf(),
        ensures
            r == self.spec_within(position.x as int, position.y as int),
    {
        position.x >= 0 && (position.x as usize) < self.width && position.y >= 0 && (position.y
            as usize) < self.height
    }

    /// Read the cell at `(x, y)`.
    pub fn get(&self, x: usize, y: usize) -> (f: Field)
        requires
            self.wf(),
            x < self.width,
            y < self.height,
        ensures
            f == self.spec_cell(x as int, y as int),
    {
        self.fields[y][x]
    }

    /// Read the cell under `position`.
    pub fn get_pos(&self, position: &Position) -> (f: Field)
        requires
            self.wf(),
            self.spec_within(position.x as int, position.y as int),
        ensures
            f == self.spec_cell(position.x as int, position.y as int),
    {
        self.fields[position.y as usize][position.x as usize]
    }

    /// Write `f` into the cell at `(x, y)`.
    pub fn set(&mut self, x: usize, y: usize, f: Field)
        requires
            old(self).wf(),
            x < old(self).width,
            y < old(self).height,
        ensures
            final(self).wf(),
            final(self).width == old(self).width,
            final(self).height == old(self).height,
            final(self).remaining_sea == old(self).remaining_sea,
            final(self).grid() == old(self).grid().update(
                y as int,
                old(self).grid()[y as int].update(x as int, f),
            ),
    {
        let ghost g0 = self.grid();
        proof {
            assert(self.fields@.len() == self.height);
            assert(self.grid()[y as int] == self.fields@[y as int]@);
            assert(self.fields@[y as int]@.len() == self.width);
        }
        self.fields[y][x] = f;
        proof {
            assert(self.grid() =~= g0.update(y as int, g0[y as int].update(x as int, f)));
        }
    }

    /// The rows of the board, for rendering: row `y` holds the cells of
    /// grid line `y` in order.
    pub fn rows(&self) -> (r: &Vec<Vec<Field>>)
        ensures
            r@.map_values(|row: Vec<Field>| row@) == self.grid(),
    {
        &self.fields
    }

    /// Create a board of the given size: a two-cell `Land` border encloses
    /// an all-`Sea` interior, and the cached sea count is the full interior.
    pub fn new(width: usize, height: usize) -> (b: Board)
        requires
            5 <= width <= 30000,
            5 <= height <= 30000,
        ensures
            b.wf(),
            b.width == width,
            b.height == height,
            b.remaining_sea == b.spec_interior_cells(),
            forall|x: int, y: int|
                in_grid(b.grid(), x, y) ==> #[trigger] b.grid()[y][x] == fresh_cell(
                    width as int,
                    height as int,
                    x,
                    y,
                ),
    {
        let mut fields: Vec<Vec<Field>> = Vec::new();
        let mut y: usize = 0;
        while y < height
            invariant
                5 <= width <= 30000,
                5 <= height <= 30000,
                y <= height,
                fields@.len() == y,
                forall|yy: int| 0 <= yy < y ==> (#[trigger] fields@[yy])@.len() == width,
                forall|x: int, yy: int|
                    0 <= yy < y && 0 <= x < width ==> (#[trigger] fields@[yy]@[x]) == fresh_cell(
                        width as int,
                        height as int,
                        x,
                        yy,
                    ),
            decreases height - y,
        {
            let mut row: Vec<Field> = Vec::new();
            let mut x: usize = 0;
            while x < width
                invariant
                    5 <= width <= 30000,
                    5 <= height <= 30000,
                    y < height,
                    x <= width,
                    row@.len() == x,
                    forall|xx: int|
                        0 <= xx < x ==> (#[trigger] row@[xx]) == fresh_cell(
                            width as int,
                            height as int,
                            xx,
                            y as int,
                        ),
                decreases width - x,
            {
                let f = if x < 2 || x >= width - 2 || y < 2 || y >= height - 2 {
                    Field::Land
                } else {
                    Field::Sea
                };
                row.push(f);
                x = x + 1;
            }
            fields.push(row);
            y = y + 1;
        }
        proof {
            assert((width - 4) * (height - 4) <= 900000000) by (nonlinear_arith)
                requires
                    5 <= width <= 30000,
                    5 <= height <= 30000,
            ;
        }
        let interior = (width - 4) * (height - 4);
        let b = Board { fields, width, height, remaining_sea: interior };
        proof {
            assert(forall|yy: int|
                0 <= yy < height ==> (#[trigger] b.grid()[yy]) == b.fields@[yy]@);
        }
        b
    }

    /// Number of interior cells: the grid minus its two-cell border.
    pub fn interior_cells(&self) -> (n: usize)
        requires
            self.wf(),
        ensures
            n == self.spec_interior_cells(),
            n <= 900000000,
    {
        proof {
            assert((self.width - 4) * (self.height - 4) <= 900000000) by (nonlinear_arith)
                requires
                    5 <= self.width <= 30000,
                    5 <= self.height <= 30000,
            ;
        }
        (self.width - 4) * (self.height - 4)
    }

    /// True iff the fill ratio `1 - remaining_sea / interior_cells` exceeds
    /// one fifth, the level-completion threshold, computed exactly in
    /// integers.
    pub fn fill_ratio_exceeds_threshold(&self) -> (r: bool)
        requires
            self.wf(),
            self.remaining_sea <= 900000000,
        ensures
            r == (5 * self.remaining_sea < 4 * self.spec_interior_cells()),
    {
        let interior = self.interior_cells();
        let rem: u64 = self.remaining_sea as u64;
        5 * rem < 4 * (interior as u64)
    }

    /// The fill ratio as a whole-number percentage, rounded down.
    pub fn fill_ratio_percent(&self) -> (r: u64)
        requires
            self.wf(),
            self.remaining_sea <= 900000000,
        ensures
            r == (if self.remaining_sea <= self.spec_interior_cells() {
                (self.spec_interior_cells() - self.remaining_sea) * 100
                    / self.spec_interior_cells()
            } else {
                0int
            }),
    {
        let interior = self.interior_cells();
        let rem = self.remaining_sea;
        if rem <= interior {
            proof {
                assert(interior - rem <= 900000000);
                assert(1 <= (self.width - 4) * (self.height - 4)) by (nonlinear_arith)
                    requires
                        5 <= self.width,
                        5 <= self.height,
                ;
            }
            ((interior - rem) as u64 * 100) / (interior as u64)
        } else {
            0
        }
    }

    /// Revert any lingering `Sand` to `Sea`: the unfinished trail is
    /// discarded without granting territory.
    pub fn clean(&mut self)
        requires
            old(self).wf(),
        ensures
            final(self).wf(),
            final(self).width == old(self).width,
            final(self).height == old(self).height,
            final(self).remaining_sea == old(self).remaining_sea,
            forall|x: int, y: int|
                in_grid(old(self).grid(), x, y) ==> #[trigger] final(self).grid()[y][x] == (
                if old(self).grid()[y][x] == Field::Sand {
                    Field::Sea
                } else {
                    old(self).grid()[y][x]
                }),
    {
        let ghost g0 = self.grid();
        let ghost w0 = self.width;
        let ghost h0 = self.height;
        let ghost r0 = self.remaining_sea;
        let mut y: usize = 0;
        while y < self.height
            invariant
                self.wf(),
                self.width == w0,
                self.height == h0,
                self.remaining_sea == r0,
                grid_wf(g0, w0 as int, h0 as int),
                y <= h0,
                forall|x2: int, yy: int|
                    in_grid(g0, x2, yy) ==> #[trigger] self.grid()[yy][x2] == (if yy < y
                        && g0[yy][x2] == Field::Sand {
                        Field::Sea
                    } else {
                        g0[yy][x2]
                    }),
            decreases h0 - y,
        {
            let mut x: usize = 0;
            while x < self.width
                invariant
                    self.wf(),
                    self.width == w0,
                    self.height == h0,
                    self.remaining_sea == r0,
                    grid_wf(g0, w0 as int, h0 as int),
                    y < h0,
                    x <= w0,
                    forall|x2: int, yy: int|
                        in_grid(g0, x2, yy) ==> #[trigger] self.grid()[yy][x2] == (if (yy < y || (
                        yy == y && x2 < x)) && g0[yy][x2] == Field::Sand {
                            Field::Sea
                        } else {
                            g0[yy][x2]
                        }),
                decreases w0 - x,
            {
                if self.get(x, y) == Field::Sand {
                    self.set(x, y, Field::Sea);
                }
                x = x + 1;
            }
            y = y + 1;
        }
    }

    /// A uniformly random position on the board.
    pub fn random_position(&self) -> (p: Position)
        requires
            self.wf(),
        ensures
            self.spec_within(p.x as int, p.y as int),
    {
        let x = random_below(self.width);
        let y = random_below(self.height);
        Position { x: x as i16, y: y as i16 }
    }

    /// Sample random positions until one holds a cell of state `field_type`,
    /// giving up after a fixed retry budget.  On a board with no matching
    /// cell this always reports `NoMatchingCell` instead of looping forever.
    pub fn random_position_of_type(&self, field_type: Field) -> (r: Result<Position, BoardError>)
        requires
            self.wf(),
        ensures
            match r {
                Ok(p) => self.spec_within(p.x as int, p.y as int) && self.spec_cell(
                    p.x as int,
                    p.y as int,
                ) == field_type,
                Err(e) => e == BoardError::NoMatchingCell,
            },
            (forall|x: int, y: int|
                in_grid(self.grid(), x, y) ==> (#[trigger] self.grid()[y][x]) != field_type)
                ==> r is Err,
    {
        let mut tries: usize = 0;
        while tries < SEARCH_RETRY_LIMIT
            invariant
                self.wf(),
            decreases SEARCH_RETRY_LIMIT - tries,
        {
            let p = self.random_position();
            if self.get_pos(&p) == field_type {
                return Ok(p);
            }
            tries = tries + 1;
        }
        Err(BoardError::NoMatchingCell)
    }

    /// Breadth-first flood from one source: every sea cell connected to
    /// `source` through sea is marked `DeepSea`; no other cell changes.
    /// Neighbour coordinates are bounds-checked, so a source at or beyond
    /// the grid edge is safe and marks nothing.
    fn flood_fill(&mut self, source: &Position)
        requires
            old(self).wf(),
        ensures
            final(self).wf(),
            final(self).width == old(self).width,
            final(self).height == old(self).height,
            final(self).remaining_sea == old(self).remaining_sea,
            forall|x: int, y: int|
                in_grid(old(self).grid(), x, y)
                    ==> #[trigger] final(self).grid()[y][x] == (if reaches_from(
                        old(self).grid(),
                        coord_of(*source),
                        (x, y),
                    ) {
                        Field::DeepSea
                    } else {
                        old(self).grid()[y][x]
                    }),
    {
        let ghost g0 = self.grid();
        let ghost sc = coord_of(*source);
        let ghost w0 = self.width;
        let ghost h0 = self.height;
        let ghost r0 = self.remaining_sea;

        let mut queue: VecDeque<Position> = VecDeque::new();
        queue.push_back(*source);

        proof {
            lemma_count_grid_nonneg(self.grid(), Field::Sea);
            assert(queue@ =~= seq![*source]);
            assert(queue@[0] == *source);
            if sea_at(g0, sc.0, sc.1) {
                lemma_reaches_from_refl(g0, sc);
                assert(in_queue(queue@, sc));
            }
        }

        while queue.len() != 0
            invariant
                self.wf(),
                self.width == w0,
                self.height == h0,
                self.remaining_sea == r0,
                grid_wf(g0, w0 as int, h0 as int),
                0 <= count_grid(self.grid(), Field::Sea),
                forall|c: (int, int)|
                    in_grid(g0, c.0, c.1) ==> #[trigger] self.grid()[c.1][c.0] == g0[c.1][c.0] || (
                    g0[c.1][c.0] == Field::Sea && self.grid()[c.1][c.0] == Field::DeepSea),
                forall|c: (int, int)| #[trigger]
                    marked(g0, self.grid(), c) ==> reaches_from(g0, sc, c),
                forall|k: int|
                    0 <= k < queue@.len() && sea_at(
                        g0,
                        coord_of(#[trigger] queue@[k]).0,
                        coord_of(queue@[k]).1,
                    ) ==> reaches_from(g0, sc, coord_of(queue@[k])),
                forall|c: (int, int), n: (int, int)|
                    marked(g0, self.grid(), c) && #[trigger] adjacent(c, n) && in_grid(
                        g0,
                        n.0,
                        n.1,
                    ) && self.grid()[n.1][n.0] == Field::Sea ==> in_queue(queue@, n),
                sea_at(g0, sc.0, sc.1) ==> marked(g0, self.grid(), sc) || in_queue(queue@, sc),
            decreases count_grid(self.grid(), Field::Sea), queue@.len(),
        {
            let ghost q0 = queue@;
            let ghost h_pre = self.grid();
            let p = queue.pop_front().unwrap();
            let ghost pc = coord_of(p);
            proof {
                assert(q0[0] == p);
            }
            if self.within_bounds(&p) && self.get_pos(&p) == Field::Sea {
                proof {
                    assert(in_grid(g0, pc.0, pc.1));
                    assert(self.grid()[pc.1][pc.0] == Field::Sea);
                    assert(g0[pc.1][pc.0] == Field::Sea);
                    assert(sea_at(g0, pc.0, pc.1));
                    assert(reaches_from(g0, sc, pc));
                }
                let px = p.x as usize;
                let py = p.y as usize;
                self.set(px, py, Field::DeepSea);
                let n1 = Position { x: p.x, y: p.y - 1 };
                let n2 = Position { x: p.x, y: p.y + 1 };
                let n3 = Position { x: p.x - 1, y: p.y };
                let n4 = Position { x: p.x + 1, y: p.y };
                queue.push_back(n1);
                queue.push_back(n2);
                queue.push_back(n3);
                queue.push_back(n4);
                proof {
                    let h_new = self.grid();
                    let q_new = queue@;
                    assert(q_new =~= q0.subrange(1, q0.len() as int).push(n1).push(n2).push(
                        n3,
                    ).push(n4));
                    // the one changed cell
                    assert(h_new == h_pre.update(
                        pc.1,
                        h_pre[pc.1].update(pc.0, Field::DeepSea),
                    ));
                    assert(forall|c: (int, int)|
                        in_grid(g0, c.0, c.1) && c != pc ==> #[trigger] h_new[c.1][c.0]
                            == h_pre[c.1][c.0]);
                    assert(marked(g0, h_new, pc));
                    // count of sea cells went down by one
                    lemma_count_row_update(h_pre[pc.1], pc.0, Field::DeepSea, Field::Sea);
                    lemma_count_grid_update(
                        h_pre,
                        pc.1,
                        h_pre[pc.1].update(pc.0, Field::DeepSea),
                        Field::Sea,
                    );
                    lemma_count_grid_nonneg(h_new, Field::Sea);
                    assert(count_grid(h_new, Field::Sea) == count_grid(h_pre, Field::Sea) - 1);
                    // every mark, old or new, is reached
                    assert forall|c: (int, int)| #[trigger]
                        marked(g0, h_new, c) implies reaches_from(g0, sc, c) by {
                        if c != pc {
                            assert(h_new[c.1][c.0] == h_pre[c.1][c.0]);
                            assert(marked(g0, h_pre, c));
                        }
                    }
                    // newly pushed entries that are sea are reached via p
                    assert forall|k: int|
                        0 <= k < q_new.len() && sea_at(
                            g0,
                            coord_of(#[trigger] q_new[k]).0,
                            coord_of(q_new[k]).1,
                        ) implies reaches_from(g0, sc, coord_of(q_new[k])) by {
                        if k < q0.len() - 1 {
                            assert(q_new[k] == q0[k + 1]);
                        } else {
                            let nc = coord_of(q_new[k]);
                            assert(adjacent(pc, nc));
                            lemma_reaches_from_step(g0, sc, pc, nc);
                        }
                    }
                    // frontier invariant
                    assert forall|c: (int, int), n: (int, int)|
                        marked(g0, h_new, c) && #[trigger] adjacent(c, n) && in_grid(
                            g0,
                            n.0,
                            n.1,
                        ) && h_new[n.1][n.0] == Field::Sea implies in_queue(q_new, n) by {
                        assert(n != pc);
                        if c == pc {
                            assert(n == coord_of(n1) || n == coord_of(n2) || n == coord_of(n3)
                                || n == coord_of(n4));
                            if n == coord_of(n1) {
                                assert(q_new[q_new.len() - 4] == n1);
                            } else if n == coord_of(n2) {
                                assert(q_new[q_new.len() - 3] == n2);
                            } else if n == coord_of(n3) {
                                assert(q_new[q_new.len() - 2] == n3);
                            } else {
                                assert(q_new[q_new.len() - 1] == n4);
                            }
                        } else {
                            assert(marked(g0, h_pre, c));
                            assert(h_pre[n.1][n.0] == Field::Sea);
                            assert(in_queue(q0, n));
                            let k = choose|k: int| 0 <= k < q0.len() && coord_of(q0[k]) == n;
                            assert(k != 0);
                            assert(q_new[k - 1] == q0[k]);
                        }
                    }
                    // pending source
                    if sea_at(g0, sc.0, sc.1) {
                        if marked(g0, h_pre, sc) {
                            assert(marked(g0, h_new, sc));
                        } else if in_queue(q0, sc) {
                            let k = choose|k: int| 0 <= k < q0.len() && coord_of(q0[k]) == sc;
                            if k == 0 {
                                assert(sc == pc);
                                assert(marked(g0, h_new, sc));
                            } else {
                                assert(q_new[k - 1] == q0[k]);
                                assert(in_queue(q_new, sc));
                            }
                        }
                    }
                }
            } else {
                proof {
                    let q_new = queue@;
                    assert(q_new =~= q0.subrange(1, q0.len() as int));
                    assert forall|c: (int, int), n: (int, int)|
                        marked(g0, self.grid(), c) && #[trigger] adjacent(c, n) && in_grid(
                            g0,
                            n.0,
                            n.1,
                        ) && self.grid()[n.1][n.0] == Field::Sea implies in_queue(q_new, n) by {
                        assert(in_queue(q0, n));
                        let k = choose|k: int| 0 <= k < q0.len() && coord_of(q0[k]) == n;
                        if k == 0 {
                            // the popped entry cannot witness a sea cell: it was
                            // out of bounds or not sea
                            assert(pc == n);
                            assert(self.spec_within(p.x as int, p.y as int));
                            assert(self.grid()[pc.1][pc.0] == Field::Sea);
                            assert(false);
                        } else {
                            assert(q_new[k - 1] == q0[k]);
                        }
                    }
                    if sea_at(g0, sc.0, sc.1) && !marked(g0, self.grid(), sc) {
                        assert(in_queue(q0, sc));
                        let k = choose|k: int| 0 <= k < q0.len() && coord_of(q0[k]) == sc;
                        if k == 0 {
                            assert(pc == sc);
                            assert(self.spec_within(p.x as int, p.y as int));
                            assert(self.grid()[sc.1][sc.0] == g0[sc.1][sc.0]);
                            assert(false);
                        } else {
                            assert(q_new[k - 1] == q0[k]);
                        }
                    }
                }
            }
        }
        proof {
            let h = self.grid();
            assert forall|x: int, y: int| in_grid(g0, x, y) implies #[trigger] h[y][x] == (
            if reaches_from(g0, sc, (x, y)) {
                Field::DeepSea
            } else {
                g0[y][x]
            }) by {
                if reaches_from(g0, sc, (x, y)) {
                    lemma_reaches_from_ends(g0, sc, (x, y));
                    assert(marked(g0, h, sc));
                    let path = choose|path: Seq<(int, int)>|
                        #[trigger] sea_path(g0, path) && path.first() == sc && path.last() == (
                        x,
                        y,
                    );
                    assert forall|c: (int, int), n: (int, int)|
                        marked(g0, h, c) && #[trigger] adjacent(c, n) && sea_at(
                            g0,
                            n.0,
                            n.1,
                        ) implies marked(g0, h, n) by {
                        if h[n.1][n.0] == Field::Sea {
                            assert(in_queue(queue@, n));
                            assert(false);
                        }
                    }
                    lemma_path_stays_marked(g0, h, path);
                    assert(marked(g0, h, (x, y)));
                } else {
                    if marked(g0, h, (x, y)) {
                        assert(false);
                    }
                }
            }
        }
    }

    /// The capture algorithm.  Each source position is flooded through sea;
    /// afterwards the flooded cells revert to `Sea` and every other sea or
    /// sand cell becomes `Land`.  The cached `remaining_sea` is recomputed,
    /// and the number of cells newly claimed as land is returned.
    #[verifier::rlimit(50)]
    pub fn fill(&mut self, sources: &Vec<Position>) -> (captured: usize)
        requires
            old(self).wf(),
            no_deep_sea(old(self).grid()),
        ensures
            final(self).wf(),
            final(self).width == old(self).width,
            final(self).height == old(self).height,
            fill_post(old(self).grid(), sources@, final(self).grid()),
            sea_or_land_only(final(self).grid()),
            final(self).remaining_sea == count_grid(final(self).grid(), Field::Sea),
            captured + count_grid(old(self).grid(), Field::Land) == count_grid(
                final(self).grid(),
                Field::Land,
            ),
    {
        let ghost g0 = self.grid();
        let ghost w0 = self.width;
        let ghost h0 = self.height;

        let mut i: usize = 0;
        while i < sources.len()
            invariant
                self.wf(),
                self.width == w0,
                self.height == h0,
                grid_wf(g0, w0 as int, h0 as int),
                no_deep_sea(g0),
                i <= sources@.len(),
                flooded_upto(g0, sources@.take(i as int), self.grid()),
            decreases sources@.len() - i,
        {
            let ghost m_pre = self.grid();
            let s = sources[i];
            self.flood_fill(&s);
            proof {
                assert(forall|y: int|
                    0 <= y < m_pre.len() ==> (#[trigger] self.grid()[y]).len() == m_pre[y].len());
                lemma_flood_compose(g0, sources@.take(i as int), m_pre, s, self.grid());
                assert(sources@.take(i + 1) =~= sources@.take(i as int).push(sources@[i as int]));
            }
            i += 1;
        }
        proof {
            assert(sources@.take(sources@.len() as int) =~= sources@);
        }
        let ghost m = self.grid();

        let mut remaining: usize = 0;
        let mut captured: usize = 0;
        let mut y: usize = 0;
        while y < self.height
            invariant
                self.wf(),
                self.width == w0,
                self.height == h0,
                grid_wf(g0, w0 as int, h0 as int),
                grid_wf(m, w0 as int, h0 as int),
                y <= h0,
                y * w0 <= 900000000,
                forall|x2: int, yy: int|
                    in_grid(g0, x2, yy) ==> #[trigger] self.grid()[yy][x2] == (if yy < y {
                        sweep_cell(m[yy][x2])
                    } else {
                        m[yy][x2]
                    }),
                remaining == count_grid(m.take(y as int), Field::DeepSea),
                captured == count_grid(m.take(y as int), Field::Sea) + count_grid(
                    m.take(y as int),
                    Field::Sand,
                ),
                remaining <= y * w0,
                captured <= 2 * (y * w0),
            decreases h0 - y,
        {
            let mut x: usize = 0;
            while x < self.width
                invariant
                    self.wf(),
                    self.width == w0,
                    self.height == h0,
                    grid_wf(g0, w0 as int, h0 as int),
                    grid_wf(m, w0 as int, h0 as int),
                    y < h0,
                    x <= w0,
                    y * w0 <= 900000000,
                    forall|x2: int, yy: int|
                        in_grid(g0, x2, yy) ==> #[trigger] self.grid()[yy][x2] == (if yy < y || (yy
                            == y && x2 < x) {
                            sweep_cell(m[yy][x2])
                        } else {
                            m[yy][x2]
                        }),
                    remaining == count_grid(m.take(y as int), Field::DeepSea) + count_row(
                        m[y as int].take(x as int),
                        Field::DeepSea,
                    ),
                    captured == count_grid(m.take(y as int), Field::Sea) + count_grid(
                        m.take(y as int),
                        Field::Sand,
                    ) + count_row(m[y as int].take(x as int), Field::Sea) + count_row(
                        m[y as int].take(x as int),
                        Field::Sand,
                    ),
                    remaining <= y * w0 + x,
                    captured <= 2 * (y * w0 + x),
                decreases w0 - x,
            {
                proof {
                    assert(m[y as int].take(x + 1).drop_last() =~= m[y as int].take(x as int));
                    assert(m[y as int].take(x + 1).last() == m[y as int][x as int]);
                }
                let f = self.get(x, y);
                proof {
                    assert(f == m[y as int][x as int]);
                }
                match f {
                    Field::DeepSea => {
                        self.set(x, y, Field::Sea);
                        remaining = remaining + 1;
                    },
                    Field::Sea => {
                        self.set(x, y, Field::Land);
                        captured = captured + 1;
                    },
                    Field::Sand => {
                        self.set(x, y, Field::Land);
                        captured = captured + 1;
                    },
                    Field::Land => {},
                }
                x = x + 1;
            }
            proof {
                assert(m[y as int].take(w0 as int) =~= m[y as int]);
                assert(m.take(y + 1).drop_last() =~= m.take(y as int));
                assert(m.take(y + 1).last() == m[y as int]);
                assert((y + 1) * w0 == y * w0 + w0) by (nonlinear_arith);
                assert((y + 1) * w0 <= 900000000) by (nonlinear_arith)
                    requires
                        y + 1 <= h0,
                        h0 <= 30000,
                        w0 <= 30000,
                        0 <= w0,
                        0 <= y,
                ;
            }
            y = y + 1;
        }
        proof {
            assert(m.take(h0 as int) =~= m);
            let r = self.grid();
            assert(forall|x2: int, yy: int|
                in_grid(m, x2, yy) ==> in_grid(g0, x2, yy) && (#[trigger] r[yy][x2])
                    == sweep_cell(m[yy][x2]));
            lemma_count_grid_sweep(m, r);
            assert(forall|x2: int, yy: int|
                in_grid(m, x2, yy) ==> ((#[trigger] m[yy][x2]) == Field::Land <==> g0[yy][x2]
                    == Field::Land));
            lemma_count_grid_congruence(m, g0, Field::Land);
            // the swept grid is the fill result cell by cell
            assert forall|x2: int, yy: int| in_grid(g0, x2, yy) implies #[trigger] r[yy][x2] == (
            if reaches(g0, sources@, (x2, yy)) {
                Field::Sea
            } else {
                Field::Land
            }) by {
                assert(m[yy][x2] == (if reaches(g0, sources@, (x2, yy)) {
                    Field::DeepSea
                } else {
                    g0[yy][x2]
                }));
                assert(g0[yy][x2] != Field::DeepSea);
            }
            assert forall|x2: int, yy: int| in_grid(r, x2, yy) implies (#[trigger] r[yy][x2]
                == Field::Sea || r[yy][x2] == Field::Land) by {
                assert(in_grid(g0, x2, yy));
            }
        }
        self.remaining_sea = remaining;
        captured
    }
}

} // verus!
