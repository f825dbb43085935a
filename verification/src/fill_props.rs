//! Laws of the capture algorithm, stated over the cell-by-cell description
//! `fill_post` that `Board::fill` establishes: the surviving sea is exactly
//! the connected, enemy-holding sea; captures never hand territory back;
//! and a repeated capture with the same sources changes nothing.

use vstd::prelude::*;

use crate::board::{count_grid, fill_post, in_grid, lemma_count_grid_le, sea_at, Field, Grid};
use crate::geometry::Position;
use crate::reach::{
    coord_of, lemma_path_cells_reached, lemma_reaches_ends, reaches, reaches_from, sea_path,
};

verus! {

/// A capture keeps reachability from its sources intact: the sea that
/// survives carries exactly the same source connectivity as the sea it was
/// carved from.
pub proof fn lemma_fill_preserves_reaches(g: Grid, sources: Seq<Position>, r: Grid)
    requires
        fill_post(g, sources, r),
    ensures
        forall|c: (int, int)| #[trigger] reaches(r, sources, c) <==> reaches(g, sources, c),
{
    assert forall|c: (int, int)| #[trigger] reaches(r, sources, c) <==> reaches(
        g,
        sources,
        c,
    ) by {
        if reaches(r, sources, c) {
            lemma_reaches_ends(r, sources, c);
            assert(sea_at(r, c.0, c.1));
            assert(in_grid(g, c.0, c.1));
            assert(r[c.1][c.0] == Field::Sea);
        }
        if reaches(g, sources, c) {
            let i = choose|i: int|
                0 <= i < sources.len() && reaches_from(g, coord_of(sources[i]), c);
            let src = coord_of(sources[i]);
            let path = choose|path: Seq<(int, int)>|
                #[trigger] sea_path(g, path) && path.first() == src && path.last() == c;
            assert forall|j: int| 0 <= j < path.len() implies sea_at(
                r,
                (#[trigger] path[j]).0,
                path[j].1,
            ) by {
                lemma_path_cells_reached(g, path, j);
                assert(reaches_from(g, src, path[j]));
                assert(reaches(g, sources, path[j]));
                assert(sea_at(g, path[j].0, path[j].1));
                assert(r[path[j].1][path[j].0] == Field::Sea);
                assert(r[path[j].1].len() == g[path[j].1].len());
            }
            assert(sea_path(r, path));
            assert(reaches_from(r, src, c));
            assert(reaches(r, sources, c));
        }
    }
}

/// After a capture, every sea cell belongs to a connected region (under
/// 4-neighbour adjacency, through the board as it now stands) that holds at
/// least one source position, and every formerly sea or sand cell that no
/// source reaches has become land.
pub proof fn lemma_fill_sea_is_connected(g: Grid, sources: Seq<Position>, r: Grid)
    requires
        fill_post(g, sources, r),
    ensures
        forall|x: int, y: int| sea_at(r, x, y) ==> reaches(r, sources, (x, y)),
        forall|x: int, y: int|
            in_grid(g, x, y) && ((#[trigger] g[y][x]) == Field::Sea || g[y][x] == Field::Sand)
                && !reaches(g, sources, (x, y)) ==> r[y][x] == Field::Land,
{
    lemma_fill_preserves_reaches(g, sources, r);
    assert forall|x: int, y: int| sea_at(r, x, y) implies reaches(r, sources, (x, y)) by {
        assert(in_grid(g, x, y));
        assert(r[y][x] == Field::Sea);
        assert(reaches(g, sources, (x, y)));
    }
}

/// Captures never return territory to the sea: across one capture, then any
/// play that only ever turns cells into land, then a second capture, the
/// count of remaining sea cells cannot grow.  With the interior size fixed,
/// the fill ratio `1 - remaining / interior` is therefore non-decreasing.
pub proof fn lemma_fill_ratio_monotone(
    g0: Grid,
    s0: Seq<Position>,
    g1: Grid,
    g2: Grid,
    s1: Seq<Position>,
    g3: Grid,
)
    requires
        fill_post(g0, s0, g1),
        g2.len() == g1.len(),
        forall|y: int| 0 <= y < g1.len() ==> (#[trigger] g2[y]).len() == g1[y].len(),
        forall|x: int, y: int|
            in_grid(g1, x, y) && (#[trigger] g1[y][x]) == Field::Land ==> g2[y][x] == Field::Land,
        fill_post(g2, s1, g3),
    ensures
        count_grid(g3, Field::Sea) <= count_grid(g1, Field::Sea),
{
    assert forall|x: int, y: int|
        in_grid(g3, x, y) && (#[trigger] g3[y][x]) == Field::Sea implies g1[y][x]
        == Field::Sea by {
        assert(in_grid(g2, x, y) && in_grid(g1, x, y) && in_grid(g0, x, y));
        assert(reaches(g2, s1, (x, y)));
        lemma_reaches_ends(g2, s1, (x, y));
        assert(g2[y][x] == Field::Sea);
        if g1[y][x] == Field::Land {
            assert(g2[y][x] == Field::Land);
            assert(false);
        }
        assert(g1[y][x] == (if reaches(g0, s0, (x, y)) {
            Field::Sea
        } else {
            Field::Land
        }));
    }
    lemma_count_grid_le(g3, g1, Field::Sea);
}

/// Running the capture twice with the same sources, with no play in
/// between, changes nothing the second time.
pub proof fn lemma_fill_idempotent(g: Grid, sources: Seq<Position>, r1: Grid, r2: Grid)
    requires
        fill_post(g, sources, r1),
        fill_post(r1, sources, r2),
    ensures
        r2 =~~= r1,
{
    lemma_fill_preserves_reaches(g, sources, r1);
    assert forall|y: int| 0 <= y < r1.len() implies r2[y] =~= r1[y] by {
        assert forall|x: int| 0 <= x < r1[y].len() implies r2[y][x] == r1[y][x] by {
            assert(in_grid(r1, x, y) && in_grid(g, x, y));
            assert(r2[y][x] == (if reaches(r1, sources, (x, y)) {
                Field::Sea
            } else {
                Field::Land
            }));
            assert(reaches(r1, sources, (x, y)) <==> reaches(g, sources, (x, y)));
        }
    }
}

} // verus!
