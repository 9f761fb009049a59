//! Which Spaces the Overview shows: every Space of the grid plus the ring
//! of cells around the selection (drawn as empty tiles where no Space
//! exists yet), in the row-major order the frame is drawn in.

use vstd::prelude::*;

use crate::grid::{Grid, GridView};

verus! {

/// `a` comes before `b`: by column, then by row.
pub open spec fn coord_lt(a: (i32, i32), b: (i32, i32)) -> bool {
    a.0 < b.0 || (a.0 == b.0 && a.1 < b.1)
}

/// `v` is in strictly increasing [`coord_lt`] order.
pub open spec fn strictly_sorted(v: Seq<(i32, i32)>) -> bool {
    forall|i: int, j: int| 0 <= i < j < v.len() ==> coord_lt(#[trigger] v[i], #[trigger] v[j])
}

/// `c` is within one cell of `center`, diagonals included.
pub open spec fn in_ring(center: (i32, i32), c: (i32, i32)) -> bool {
    center.0 - 1 <= c.0 <= center.0 + 1 && center.1 - 1 <= c.1 <= center.1 + 1
}

/// The cells the Overview shows for grid `g`.
pub open spec fn overview_cell<W>(g: GridView<W>, c: (i32, i32)) -> bool {
    g.has(c) || in_ring(g.selection, c)
}

fn coord_less(a: (i32, i32), b: (i32, i32)) -> (r: bool)
    ensures
        r == coord_lt(a, b),
{
    a.0 < b.0 || (a.0 == b.0 && a.1 < b.1)
}

/// Add `c` to the sorted, duplicate-free `v`, keeping it so.
fn insert_sorted(v: &mut Vec<(i32, i32)>, c: (i32, i32))
    requires
        strictly_sorted(old(v)@),
    ensures
        strictly_sorted(final(v)@),
        forall|x: (i32, i32)| final(v)@.contains(x) <==> (old(v)@.contains(x) || x == c),
{
    let mut p: usize = 0;
    while p < v.len() && coord_less(v[p], c)
        invariant
            p <= v@.len(),
            strictly_sorted(v@),
            forall|i: int| 0 <= i < p ==> coord_lt(#[trigger] v@[i], c),
        decreases v@.len() - p,
    {
        p = p + 1;
    }
    if p < v.len() && v[p].0 == c.0 && v[p].1 == c.1 {
        return;
    }
    let ghost before = v@;
    v.insert(p, c);
    proof {
        assert(v@ =~= before.subrange(0, p as int).push(c) + before.subrange(p as int, before.len() as int));
        assert forall|i: int, j: int| 0 <= i < j < v@.len() implies coord_lt(#[trigger] v@[i], #[trigger] v@[j]) by {
            if j < p {
                assert(v@[i] == before[i] && v@[j] == before[j]);
            } else if j == p {
                assert(v@[i] == before[i]);
            } else if i < p {
                assert(v@[i] == before[i] && v@[j] == before[j - 1]);
                assert(coord_lt(before[i], before[j - 1]));
            } else if i == p {
                assert(v@[j] == before[j - 1]);
                assert(!coord_lt(before[p as int], c));
                if j - 1 > p {
                    assert(coord_lt(before[p as int], before[j - 1]));
                }
            } else {
                assert(v@[i] == before[i - 1] && v@[j] == before[j - 1]);
            }
        }
        assert forall|x: (i32, i32)| v@.contains(x) <==> (before.contains(x) || x == c) by {
            if v@.contains(x) {
                let k = choose|k: int| 0 <= k < v@.len() && v@[k] == x;
                if k < p {
                    assert(before[k] == x);
                } else if k > p {
                    assert(before[k - 1] == x);
                }
            }
            if before.contains(x) {
                let k = choose|k: int| 0 <= k < before.len() && before[k] == x;
                if k < p {
                    assert(v@[k] == x);
                } else {
                    assert(v@[k + 1] == x);
                }
            }
            if x == c {
                assert(v@[p as int] == c);
            }
        }
    }
}

/// Add the cells within one step of `sel` to the sorted, duplicate-free
/// `r`, keeping it so.
fn add_ring(r: &mut Vec<(i32, i32)>, sel: (i32, i32))
    requires
        strictly_sorted(old(r)@),
        i32::MIN < sel.0 < i32::MAX,
        i32::MIN < sel.1 < i32::MAX,
    ensures
        strictly_sorted(final(r)@),
        forall|c: (i32, i32)| #[trigger] final(r)@.contains(c) <==> (old(r)@.contains(c) || in_ring(sel, c)),
{
    let ghost start = r@;
    let mut dc: i32 = -1;
    while dc <= 1
        invariant
            -1 <= dc <= 2,
            i32::MIN < sel.0 < i32::MAX,
            i32::MIN < sel.1 < i32::MAX,
            strictly_sorted(r@),
            forall|c: (i32, i32)| #[trigger] r@.contains(c) <==> (start.contains(c) || (in_ring(sel, c) && c.0 < sel.0 + dc)),
        decreases 2 - dc,
    {
        let mut dr: i32 = -1;
        while dr <= 1
            invariant
                -1 <= dc <= 1,
                -1 <= dr <= 2,
                i32::MIN < sel.0 < i32::MAX,
                i32::MIN < sel.1 < i32::MAX,
                strictly_sorted(r@),
                forall|c: (i32, i32)| #[trigger] r@.contains(c) <==> (start.contains(c) || (in_ring(sel, c) && (c.0 < sel.0
                    + dc || (c.0 == sel.0 + dc && c.1 < sel.1 + dr)))),
            decreases 2 - dr,
        {
            let ghost before = r@;
            let cell = (sel.0 + dc, sel.1 + dr);
            insert_sorted(r, cell);
            proof {
                assert(in_ring(sel, cell));
                assert forall|c: (i32, i32)| #[trigger] r@.contains(c) <==> (start.contains(c) || (in_ring(sel, c) && (
                c.0 < sel.0 + dc || (c.0 == sel.0 + dc && c.1 < sel.1 + dr + 1)))) by {
                    assert(r@.contains(c) <==> (before.contains(c) || c == cell));
                    assert(before.contains(c) <==> (start.contains(c) || (in_ring(sel, c) && (c.0 < sel.0 + dc || (c.0
                        == sel.0 + dc && c.1 < sel.1 + dr)))));
                }
            }
            dr = dr + 1;
        }
        dc = dc + 1;
    }
}

/// The coordinates of every Space of `grid`, sorted, each once.
fn sorted_space_coords<W>(grid: &Grid<W>) -> (r: Vec<(i32, i32)>)
    requires
        grid@.wf(),
    ensures
        strictly_sorted(r@),
        forall|c: (i32, i32)| #[trigger] r@.contains(c) <==> grid@.has(c),
{
    let mut r: Vec<(i32, i32)> = Vec::new();
    let coords = grid.space_coords();
    let mut i: usize = 0;
    while i < coords.len()
        invariant
            i <= coords@.len(),
            coords@ == grid@.order,
            strictly_sorted(r@),
            forall|c: (i32, i32)| #[trigger] r@.contains(c) <==> coords@.subrange(0, i as int).contains(c),
        decreases coords@.len() - i,
    {
        let ghost before = r@;
        insert_sorted(&mut r, coords[i]);
        proof {
            let p = coords@.subrange(0, i + 1);
            assert forall|c: (i32, i32)| #[trigger] p.contains(c) <==> (coords@.subrange(0, i as int).contains(c) || c
                == coords@[i as int]) by {
                if p.contains(c) {
                    let k = choose|k: int| 0 <= k < p.len() && p[k] == c;
                    if k < i {
                        assert(coords@.subrange(0, i as int)[k] == c);
                    }
                }
                if coords@.subrange(0, i as int).contains(c) {
                    let k = choose|k: int| 0 <= k < i && coords@.subrange(0, i as int)[k] == c;
                    assert(p[k] == c);
                }
                if c == coords@[i as int] {
                    assert(p[i as int] == c);
                }
            }
            assert forall|c: (i32, i32)| #[trigger] r@.contains(c) <==> p.contains(c) by {
                assert(r@.contains(c) <==> (before.contains(c) || c == coords@[i as int]));
                assert(before.contains(c) <==> coords@.subrange(0, i as int).contains(c));
            }
        }
        i = i + 1;
    }
    proof {
        assert(coords@.subrange(0, coords@.len() as int) =~= coords@);
        assert forall|c: (i32, i32)| #[trigger] r@.contains(c) <==> grid@.has(c) by {
            assert(r@.contains(c) <==> grid@.order.contains(c));
        }
    }
    r
}

/// The cells the Overview shows: every Space of `grid` and every cell
/// within one step of the selection, each once, ordered by column and
/// then by row.
pub fn overview_coords<W>(grid: &Grid<W>) -> (r: Vec<(i32, i32)>)
    requires
        grid@.wf(),
        i32::MIN < grid@.selection.0 < i32::MAX,
        i32::MIN < grid@.selection.1 < i32::MAX,
    ensures
        strictly_sorted(r@),
        forall|c: (i32, i32)| #[trigger] r@.contains(c) <==> overview_cell(grid@, c),
{
    let mut r = sorted_space_coords(grid);
    let sel = grid.overview_selection();
    add_ring(&mut r, sel);
    r
}

} // verus!
