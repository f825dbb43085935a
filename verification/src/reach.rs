//! Connectivity through sea cells, the specification language of the
//! capture algorithm: paths of 4-adjacent `Sea` cells, and reachability
//! from a set of source positions.

use vstd::prelude::*;

use crate::board::{sea_at, Grid};
use crate::geometry::Position;

verus! {

/// The two coordinate pairs name 4-adjacent cells (one step apart along
/// exactly one axis).
pub open spec fn adjacent(a: (int, int), b: (int, int)) -> bool {
    ||| (a.0 == b.0 && (b.1 == a.1 + 1 || b.1 == a.1 - 1))
    ||| (a.1 == b.1 && (b.0 == a.0 + 1 || b.0 == a.0 - 1))
}

/// A non-empty run of cells of `g`, each `Sea`, each 4-adjacent to the one
/// before it.
pub open spec fn sea_path(g: Grid, path: Seq<(int, int)>) -> bool {
    &&& path.len() > 0
    &&& forall|i: int| 0 <= i < path.len() ==> sea_at(g, (#[trigger] path[i]).0, path[i].1)
    &&& forall|i: int| 1 <= i < path.len() ==> adjacent(path[i - 1], #[trigger] path[i])
}

/// Some sea path of `g` leads from `src` to `c`.
pub open spec fn reaches_from(g: Grid, src: (int, int), c: (int, int)) -> bool {
    exists|path: Seq<(int, int)>|
        #[trigger] sea_path(g, path) && path.first() == src && path.last() == c
}

/// The coordinates of a position, as unbounded integers.
pub open spec fn coord_of(p: Position) -> (int, int) {
    (p.x as int, p.y as int)
}

/// Some sea path of `g` leads from one of `sources` to `c`.
pub open spec fn reaches(g: Grid, sources: Seq<Position>, c: (int, int)) -> bool {
    exists|i: int|
        0 <= i < sources.len() && reaches_from(g, coord_of(#[trigger] sources[i]), c)
}

/// A reachable cell is itself a sea cell, as is the source it is reached
/// from.
pub proof fn lemma_reaches_from_ends(g: Grid, src: (int, int), c: (int, int))
    requires
        reaches_from(g, src, c),
    ensures
        sea_at(g, src.0, src.1),
        sea_at(g, c.0, c.1),
{
    let path = choose|path: Seq<(int, int)>|
        #[trigger] sea_path(g, path) && path.first() == src && path.last() == c;
    assert(sea_at(g, path[0].0, path[0].1));
    assert(sea_at(g, path[path.len() - 1].0, path[path.len() - 1].1));
}

/// Every sea cell reaches itself, by the one-cell path.
pub proof fn lemma_reaches_from_refl(g: Grid, c: (int, int))
    requires
        sea_at(g, c.0, c.1),
    ensures
        reaches_from(g, c, c),
{
    let path = seq![c];
    assert(sea_path(g, path));
    assert(path.first() == c && path.last() == c);
}

/// Reachability extends along one step to an adjacent sea cell.
pub proof fn lemma_reaches_from_step(g: Grid, src: (int, int), c: (int, int), d: (int, int))
    requires
        reaches_from(g, src, c),
        adjacent(c, d),
        sea_at(g, d.0, d.1),
    ensures
        reaches_from(g, src, d),
{
    let path = choose|path: Seq<(int, int)>|
        #[trigger] sea_path(g, path) && path.first() == src && path.last() == c;
    let path2 = path.push(d);
    assert forall|i: int| 0 <= i < path2.len() implies sea_at(
        g,
        (#[trigger] path2[i]).0,
        path2[i].1,
    ) by {
        if i < path.len() {
            assert(path2[i] == path[i]);
        }
    }
    assert forall|i: int| 1 <= i < path2.len() implies adjacent(path2[i - 1], #[trigger] path2[i]) by {
        if i < path.len() {
            assert(path2[i] == path[i] && path2[i - 1] == path[i - 1]);
        } else {
            assert(path2[i - 1] == path.last() && path2[i] == d);
        }
    }
    assert(sea_path(g, path2));
    assert(path2.first() == src && path2.last() == d);
}

/// Reachability composes: a path into `b` and a path onward from `b` give a
/// path all the way.
pub proof fn lemma_reaches_from_trans(g: Grid, a: (int, int), b: (int, int), c: (int, int))
    requires
        reaches_from(g, a, b),
        reaches_from(g, b, c),
    ensures
        reaches_from(g, a, c),
{
    let p1 = choose|path: Seq<(int, int)>|
        #[trigger] sea_path(g, path) && path.first() == a && path.last() == b;
    let p2 = choose|path: Seq<(int, int)>|
        #[trigger] sea_path(g, path) && path.first() == b && path.last() == c;
    if p2.len() == 1 {
        assert(reaches_from(g, a, c));
    } else {
        let l1 = p1.len() as int;
        let path = p1 + p2.subrange(1, p2.len() as int);
        assert forall|i: int| 0 <= i < path.len() implies sea_at(
            g,
            (#[trigger] path[i]).0,
            path[i].1,
        ) by {
            if i < l1 {
                assert(path[i] == p1[i]);
            } else {
                assert(path[i] == p2[i - l1 + 1]);
            }
        }
        assert forall|i: int| 1 <= i < path.len() implies adjacent(
            path[i - 1],
            #[trigger] path[i],
        ) by {
            if i < l1 {
                assert(path[i] == p1[i] && path[i - 1] == p1[i - 1]);
            } else if i == l1 {
                assert(path[i - 1] == p1[l1 - 1]);
                assert(p1[l1 - 1] == b && b == p2[0]);
                assert(path[i] == p2[1]);
                assert(adjacent(p2[0], p2[1]));
            } else {
                assert(path[i] == p2[i - l1 + 1] && path[i - 1] == p2[i - l1]);
                assert(adjacent(p2[i - l1], p2[i - l1 + 1]));
            }
        }
        assert(sea_path(g, path));
        assert(path.first() == a);
        assert(path.last() == p2[p2.len() - 1]);
    }
}

/// Every cell along a sea path is reachable from the path's first cell.
pub proof fn lemma_path_cells_reached(g: Grid, path: Seq<(int, int)>, i: int)
    requires
        sea_path(g, path),
        0 <= i < path.len(),
    ensures
        reaches_from(g, path.first(), path[i]),
{
    let pre = path.subrange(0, i + 1);
    assert forall|j: int| 0 <= j < pre.len() implies sea_at(
        g,
        (#[trigger] pre[j]).0,
        pre[j].1,
    ) by {
        assert(pre[j] == path[j]);
    }
    assert forall|j: int| 1 <= j < pre.len() implies adjacent(pre[j - 1], #[trigger] pre[j]) by {
        assert(pre[j] == path[j] && pre[j - 1] == path[j - 1]);
    }
    assert(sea_path(g, pre));
    assert(pre.first() == path.first() && pre.last() == path[i]);
}

/// The tail end of a sea path is reached from any of its cells.
pub proof fn lemma_path_suffix_reaches(g: Grid, path: Seq<(int, int)>, i: int)
    requires
        sea_path(g, path),
        0 <= i < path.len(),
    ensures
        reaches_from(g, path[i], path.last()),
{
    let suf = path.subrange(i, path.len() as int);
    assert forall|j: int| 0 <= j < suf.len() implies sea_at(
        g,
        (#[trigger] suf[j]).0,
        suf[j].1,
    ) by {
        assert(suf[j] == path[i + j]);
    }
    assert forall|j: int| 1 <= j < suf.len() implies adjacent(suf[j - 1], #[trigger] suf[j]) by {
        assert(suf[j] == path[i + j] && suf[j - 1] == path[i + j - 1]);
    }
    assert(sea_path(g, suf));
    assert(suf.first() == path[i] && suf.last() == path.last());
}

/// Reachability from a source list extended by one more position holds
/// exactly when the old list already reached the cell or the new position
/// does.
pub proof fn lemma_reaches_push(g: Grid, sources: Seq<Position>, s: Position, c: (int, int))
    ensures
        reaches(g, sources.push(s), c) <==> (reaches(g, sources, c) || reaches_from(
            g,
            coord_of(s),
            c,
        )),
{
    if reaches(g, sources.push(s), c) {
        let i = choose|i: int|
            0 <= i < sources.push(s).len() && reaches_from(g, coord_of(sources.push(s)[i]), c);
        if i < sources.len() {
            assert(sources.push(s)[i] == sources[i]);
            assert(reaches(g, sources, c));
        } else {
            assert(sources.push(s)[i] == s);
        }
    }
    if reaches(g, sources, c) {
        let i = choose|i: int| 0 <= i < sources.len() && reaches_from(g, coord_of(sources[i]), c);
        assert(sources.push(s)[i] == sources[i]);
        assert(reaches(g, sources.push(s), c));
    }
    if reaches_from(g, coord_of(s), c) {
        let i = sources.len() as int;
        assert(sources.push(s)[i] == s);
        assert(reaches(g, sources.push(s), c));
    }
}

/// A cell reached from a source list is itself a sea cell.
pub proof fn lemma_reaches_ends(g: Grid, sources: Seq<Position>, c: (int, int))
    requires
        reaches(g, sources, c),
    ensures
        sea_at(g, c.0, c.1),
{
    let i = choose|i: int| 0 <= i < sources.len() && reaches_from(g, coord_of(sources[i]), c);
    lemma_reaches_from_ends(g, coord_of(sources[i]), c);
}

} // verus!
