//! The grid as `velo-de`'s IPC clients see it: the Space descriptions it
//! answers queries with, and which Spaces a grid change brought into
//! existence (each announced as a created workspace).

use vstd::prelude::*;

use crate::grid::{Grid, GridView};
use crate::protocol::SpaceInfo;

verus! {

/// The description of the Space at `c`.
pub open spec fn space_info_at<W>(g: GridView<W>, c: (i32, i32)) -> SpaceInfo {
    SpaceInfo {
        id: g.ids[c],
        coord: c,
        windows: g.spaces[c].window_count() as usize,
        focused: g.ids[c] == g.current_id(),
    }
}

/// Every Space of `grid`, in creation order: its id, coordinates, window
/// count, and whether it is the current one.
pub fn space_infos<W>(grid: &Grid<W>) -> (r: Vec<SpaceInfo>)
    requires
        grid@.wf(),
        grid@.counts_fit(),
    ensures
        r@.len() == grid@.order.len(),
        forall|k: int| 0 <= k < r@.len() ==> #[trigger] r@[k] == space_info_at(grid@, grid@.order[k]),
{
    let current = grid.current_space_id();
    let infos = grid.space_infos();
    let coords = grid.space_coords();
    let mut r: Vec<SpaceInfo> = Vec::new();
    let mut i: usize = 0;
    while i < infos.len()
        invariant
            i <= infos@.len(),
            infos@.len() == grid@.order.len(),
            coords@ == grid@.order,
            current == grid@.current_id(),
            forall|k: int| 0 <= k < infos@.len() ==> (#[trigger] infos@[k]).0 == grid@.infos()[k].0 && infos@[k].1
                == grid@.infos()[k].1,
            r@.len() == i,
            forall|k: int| 0 <= k < i ==> #[trigger] r@[k] == space_info_at(grid@, grid@.order[k]),
        decreases infos@.len() - i,
    {
        let (id, windows) = infos[i];
        let coord = coords[i];
        proof {
            assert(infos@[i as int].0 == grid@.infos()[i as int].0);
            assert(grid@.infos()[i as int] == (grid@.ids[grid@.order[i as int]], grid@.spaces[grid@.order[i as int]].window_count()));
        }
        r.push(SpaceInfo { id, coord, windows, focused: id == current });
        i = i + 1;
    }
    r
}

/// The current Space's description (always marked focused).
pub fn active_space_info<W>(grid: &Grid<W>) -> (r: SpaceInfo)
    requires
        grid@.wf(),
        grid@.counts_fit(),
    ensures
        r == space_info_at(grid@, grid@.current),
        r.focused,
{
    proof {
        assert(grid@.has(grid@.current));
    }
    let id = grid.current_space_id();
    let coord = grid.current_coord();
    let windows = grid.current_space().window_count();
    SpaceInfo { id, coord, windows, focused: true }
}

/// The Space list always holds the current Space, and it is the one
/// Space the list marks as focused.
pub proof fn law_current_space_listed_once<W>(g: GridView<W>)
    requires
        g.wf(),
    ensures
        exists|k: int| 0 <= k < g.order.len() && #[trigger] g.order[k] == g.current,
        forall|k: int|
            0 <= k < g.order.len() ==> (space_info_at(g, #[trigger] g.order[k]).focused <==> g.order[k] == g.current),
{
    assert(g.order.contains(g.current));
    assert forall|k: int| 0 <= k < g.order.len() implies (space_info_at(g, #[trigger] g.order[k]).focused
        <==> g.order[k] == g.current) by {
        let c = g.order[k];
        assert(g.order.contains(c));
        assert(g.has(c));
        if g.ids[c] == g.ids[g.current] && c != g.current {
            assert(g.ids[c] != g.ids[g.current]);
        }
    }
}

/// The ids in `after` that are not in `before`, in `after`'s order: the
/// Spaces a grid change created.
pub fn created_ids(before: &[i32], after: &[i32]) -> (r: Vec<i32>)
    ensures
        r@ == after@.filter(|id: i32| !before@.contains(id)),
{
    let mut r: Vec<i32> = Vec::new();
    let mut i: usize = 0;
    while i < after.len()
        invariant
            i <= after@.len(),
            r@ == after@.subrange(0, i as int).filter(|id: i32| !before@.contains(id)),
        decreases after@.len() - i,
    {
        let id = after[i];
        let mut seen = false;
        let mut j: usize = 0;
        while j < before.len()
            invariant
                j <= before@.len(),
                seen == before@.subrange(0, j as int).contains(id),
            decreases before@.len() - j,
        {
            proof {
                let p = before@.subrange(0, j + 1);
                assert(p.drop_last() =~= before@.subrange(0, j as int));
                if p.contains(id) && !before@.subrange(0, j as int).contains(id) {
                    let k = choose|k: int| 0 <= k < p.len() && p[k] == id;
                    assert(k == j);
                }
                if before@.subrange(0, j as int).contains(id) {
                    let k = choose|k: int| 0 <= k < j && before@.subrange(0, j as int)[k] == id;
                    assert(p[k] == id);
                }
                if before@[j as int] == id {
                    assert(p[j as int] == id);
                }
            }
            if before[j] == id {
                seen = true;
            }
            j = j + 1;
        }
        proof {
            assert(before@.subrange(0, before@.len() as int) =~= before@);
            let p = after@.subrange(0, i + 1);
            assert(p.drop_last() =~= after@.subrange(0, i as int));
            assert(p.last() == id);
            reveal(Seq::filter);
        }
        if !seen {
            r.push(id);
        }
        i = i + 1;
    }
    proof {
        assert(after@.subrange(0, after@.len() as int) =~= after@);
    }
    r
}

} // verus!
