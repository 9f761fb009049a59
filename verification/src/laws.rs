//! Laws of the Spaces grid: what every operation keeps, stated over
//! [`GridView`] and proved from the operations' specifications.

use vstd::multiset::Multiset;
use vstd::prelude::*;

use crate::commands::{clamp, flat_positions, flat_windows, toggled, Command};
use crate::grid::{lemma_ensured, lemma_set_space_wf, step_from, to_coord, GridView};
use crate::model::{window_bag, ColumnView, Direction, SpaceView, WindowId};

verus! {

/// The windows of all Spaces listed in `order`, counted with multiplicity.
pub open spec fn spaces_bag<W>(spaces: Map<(i32, i32), SpaceView<W>>, order: Seq<(i32, i32)>) -> Multiset<WindowId>
    decreases order.len(),
{
    if order.len() == 0 {
        Multiset::empty()
    } else {
        spaces_bag(spaces, order.drop_last()).add(spaces[order.last()].windows())
    }
}

impl<W> GridView<W> {
    /// Every window in the grid, counted with multiplicity.
    pub open spec fn all_windows(self) -> Multiset<WindowId> {
        spaces_bag(self.spaces, self.order)
    }
}

proof fn lemma_cancel(a: Multiset<WindowId>, b: Multiset<WindowId>, x: Multiset<WindowId>)
    requires
        a.add(x) == b.add(x),
    ensures
        a == b,
{
    broadcast use vstd::multiset::group_multiset_axioms;

    assert forall|w: WindowId| a.count(w) == b.count(w) by {
        vstd::multiset::axiom_multiset_add(a, x, w);
        assert(a.add(x).count(w) == a.count(w) + x.count(w));
        assert(a.add(x).count(w) == b.add(x).count(w));
    }
    assert(a =~= b);
}

proof fn lemma_bag_concat<W>(a: Seq<ColumnView<W>>, b: Seq<ColumnView<W>>)
    ensures
        window_bag(a + b) == window_bag(a).add(window_bag(b)),
    decreases b.len(),
{
    broadcast use vstd::multiset::group_multiset_axioms;

    if b.len() == 0 {
        assert(a + b =~= a);
        assert(window_bag(a).add(window_bag(b)) =~= window_bag(a));
    } else {
        assert((a + b).drop_last() =~= a + b.drop_last());
        assert((a + b).last() == b.last());
        lemma_bag_concat(a, b.drop_last());
        assert(window_bag(a + b) =~= window_bag(a).add(window_bag(b)));
    }
}

proof fn lemma_bag_single<W>(c: ColumnView<W>)
    ensures
        window_bag(seq![c]) == c.windows.to_multiset(),
{
    broadcast use vstd::multiset::group_multiset_axioms;

    assert(seq![c].drop_last() =~= Seq::<ColumnView<W>>::empty());
    assert(window_bag(Seq::<ColumnView<W>>::empty()) == Multiset::<WindowId>::empty());
    assert(window_bag(seq![c]) =~= c.windows.to_multiset());
}

/// Splitting a strip at `i` around a column `c`.
proof fn lemma_bag_around<W>(cols: Seq<ColumnView<W>>, i: int, j: int, c: ColumnView<W>)
    requires
        0 <= i <= j <= cols.len(),
    ensures
        window_bag(cols.take(i) + seq![c] + cols.skip(j)) == window_bag(cols.take(i)).add(c.windows.to_multiset()).add(
            window_bag(cols.skip(j)),
        ),
{
    broadcast use vstd::multiset::group_multiset_axioms;

    lemma_bag_concat(cols.take(i) + seq![c], cols.skip(j));
    lemma_bag_concat(cols.take(i), seq![c]);
    lemma_bag_single(c);
}

proof fn lemma_bag_insert<W>(cols: Seq<ColumnView<W>>, i: int, c: ColumnView<W>)
    requires
        0 <= i <= cols.len(),
    ensures
        window_bag(cols.insert(i, c)) == window_bag(cols).add(c.windows.to_multiset()),
{
    broadcast use vstd::multiset::group_multiset_axioms;

    assert(cols.insert(i, c) =~= cols.take(i) + seq![c] + cols.skip(i));
    assert(cols =~= cols.take(i) + cols.skip(i));
    lemma_bag_around(cols, i, i, c);
    lemma_bag_concat(cols.take(i), cols.skip(i));
    assert(window_bag(cols.insert(i, c)) =~= window_bag(cols).add(c.windows.to_multiset()));
}

proof fn lemma_bag_update<W>(cols: Seq<ColumnView<W>>, i: int, c: ColumnView<W>)
    requires
        0 <= i < cols.len(),
    ensures
        window_bag(cols.update(i, c)).add(cols[i].windows.to_multiset()) == window_bag(cols).add(c.windows.to_multiset()),
{
    broadcast use vstd::multiset::group_multiset_axioms;

    assert(cols.update(i, c) =~= cols.take(i) + seq![c] + cols.skip(i + 1));
    assert(cols =~= cols.take(i) + seq![cols[i]] + cols.skip(i + 1));
    lemma_bag_around(cols, i, i + 1, c);
    lemma_bag_around(cols, i, i + 1, cols[i]);
    assert(window_bag(cols.update(i, c)).add(cols[i].windows.to_multiset()) =~= window_bag(cols).add(
        c.windows.to_multiset(),
    ));
}

proof fn lemma_bag_remove<W>(cols: Seq<ColumnView<W>>, i: int)
    requires
        0 <= i < cols.len(),
    ensures
        window_bag(cols.remove(i)).add(cols[i].windows.to_multiset()) == window_bag(cols),
{
    broadcast use vstd::multiset::group_multiset_axioms;

    assert(cols.remove(i) =~= cols.take(i) + cols.skip(i + 1));
    assert(cols =~= cols.take(i) + seq![cols[i]] + cols.skip(i + 1));
    lemma_bag_concat(cols.take(i), cols.skip(i + 1));
    lemma_bag_around(cols, i, i + 1, cols[i]);
    assert(window_bag(cols.remove(i)).add(cols[i].windows.to_multiset()) =~= window_bag(cols));
}

/// Replacing a column by one with the same windows keeps a strip's windows.
proof fn lemma_bag_update_same<W>(cols: Seq<ColumnView<W>>, i: int, c: ColumnView<W>)
    requires
        0 <= i < cols.len(),
        c.windows == cols[i].windows,
    ensures
        window_bag(cols.update(i, c)) == window_bag(cols),
{
    broadcast use vstd::multiset::group_multiset_axioms;

    lemma_bag_update(cols, i, c);
    lemma_cancel(window_bag(cols.update(i, c)), window_bag(cols), c.windows.to_multiset());
}

proof fn lemma_spaces_bag_fresh<W>(
    spaces: Map<(i32, i32), SpaceView<W>>,
    order: Seq<(i32, i32)>,
    c: (i32, i32),
    s: SpaceView<W>,
)
    requires
        !order.contains(c),
    ensures
        spaces_bag(spaces.insert(c, s), order) == spaces_bag(spaces, order),
    decreases order.len(),
{
    broadcast use vstd::multiset::group_multiset_axioms;

    if order.len() > 0 {
        assert(order.last() != c) by {
            assert(order[order.len() - 1] == order.last());
        }
        assert(!order.drop_last().contains(c)) by {
            if order.drop_last().contains(c) {
                let j = order.drop_last().index_of(c);
                assert(order[j] == c);
            }
        }
        lemma_spaces_bag_fresh(spaces, order.drop_last(), c, s);
    }
}

proof fn lemma_spaces_bag_set<W>(
    spaces: Map<(i32, i32), SpaceView<W>>,
    order: Seq<(i32, i32)>,
    c: (i32, i32),
    s: SpaceView<W>,
)
    requires
        order.no_duplicates(),
        order.contains(c),
    ensures
        spaces_bag(spaces.insert(c, s), order).add(spaces[c].windows()) == spaces_bag(spaces, order).add(s.windows()),
    decreases order.len(),
{
    broadcast use vstd::multiset::group_multiset_axioms;

    let init = order.drop_last();
    if order.last() == c {
        assert(!init.contains(c)) by {
            if init.contains(c) {
                let j = init.index_of(c);
                assert(order[j] == c && order[order.len() - 1] == c);
            }
        }
        lemma_spaces_bag_fresh(spaces, init, c, s);
    } else {
        assert(init.contains(c)) by {
            let j = order.index_of(c);
            assert(order[j] == c);
            assert(j != order.len() - 1);
            assert(init[j] == c);
        }
        assert(init.no_duplicates()) by {
            assert forall|a: int, b: int| 0 <= a < init.len() && 0 <= b < init.len() && a != b implies init[a]
                != init[b] by {
                assert(init[a] == order[a] && init[b] == order[b]);
            }
        }
        lemma_spaces_bag_set(spaces, init, c, s);
    }
    let ins = spaces.insert(c, s);
    assert(spaces_bag(ins, order) == spaces_bag(ins, init).add(ins[order.last()].windows()));
    assert(spaces_bag(spaces, order) == spaces_bag(spaces, init).add(spaces[order.last()].windows()));
    let lhs = spaces_bag(ins, order).add(spaces[c].windows());
    let rhs = spaces_bag(spaces, order).add(s.windows());
    assert forall|w: WindowId| lhs.count(w) == rhs.count(w) by {
        vstd::multiset::axiom_multiset_add(spaces_bag(ins, order), spaces[c].windows(), w);
        vstd::multiset::axiom_multiset_add(spaces_bag(spaces, order), s.windows(), w);
        vstd::multiset::axiom_multiset_add(spaces_bag(ins, init), ins[order.last()].windows(), w);
        vstd::multiset::axiom_multiset_add(spaces_bag(spaces, init), spaces[order.last()].windows(), w);
        vstd::multiset::axiom_multiset_add(spaces_bag(ins, init), spaces[c].windows(), w);
        vstd::multiset::axiom_multiset_add(spaces_bag(spaces, init), s.windows(), w);
    }
    assert(lhs =~= rhs);
}

/// Replacing the Space at `c` replaces its windows in the grid's windows.
pub proof fn lemma_all_windows_set_space<W>(g: GridView<W>, c: (i32, i32), s: SpaceView<W>)
    requires
        g.wf(),
        g.has(c),
    ensures
        g.set_space(c, s).all_windows().add(g.spaces[c].windows()) == g.all_windows().add(s.windows()),
{
    broadcast use vstd::multiset::group_multiset_axioms;

    assert(g.order.contains(c));
    lemma_spaces_bag_set(g.spaces, g.order, c, s);
}

/// Replacing a Space by one holding the same windows keeps the grid's
/// windows.
proof fn lemma_all_windows_same_space<W>(g: GridView<W>, c: (i32, i32), s: SpaceView<W>)
    requires
        g.wf(),
        g.has(c),
        s.windows() == g.spaces[c].windows(),
    ensures
        g.set_space(c, s).all_windows() == g.all_windows(),
{
    broadcast use vstd::multiset::group_multiset_axioms;

    lemma_all_windows_set_space(g, c, s);
    lemma_cancel(g.set_space(c, s).all_windows(), g.all_windows(), s.windows());
}

/// Creating a Space adds no windows.
proof fn lemma_all_windows_ensured<W>(g: GridView<W>, c: (i32, i32))
    requires
        g.wf(),
    ensures
        g.ensured(c).all_windows() == g.all_windows(),
{
    broadcast use vstd::multiset::group_multiset_axioms;

    if !g.has(c) {
        assert(!g.order.contains(c));
        let n = g.ensured(c);
        assert(n.order.drop_last() =~= g.order);
        lemma_spaces_bag_fresh(g.spaces, g.order, c, SpaceView::<W>::empty());
        assert(SpaceView::<W>::empty().windows() =~= Multiset::empty());
        assert(n.all_windows() =~= g.all_windows());
    }
}

} // verus!

verus! {

/// Inserting a column adds its windows to the Space's windows.
proof fn lemma_space_insert_windows<W>(s: SpaceView<W>, i: int, c: ColumnView<W>)
    requires
        0 <= i <= s.columns.len(),
    ensures
        s.insert_column(i, c).windows() == s.windows().add(c.windows.to_multiset()),
{
    lemma_bag_insert(s.columns, i, c);
}

/// Removing a column takes its windows out of the Space's windows.
proof fn lemma_space_remove_windows<W>(s: SpaceView<W>, i: int)
    requires
        0 <= i < s.columns.len(),
    ensures
        s.remove_column(i).windows().add(s.columns[i].windows.to_multiset()) == s.windows(),
{
    lemma_bag_remove(s.columns, i);
}

/// Landing a column in a neighbouring Space adds its windows to the grid.
proof fn lemma_land_windows<W>(g: GridView<W>, col: ColumnView<W>, d: Direction, front: bool)
    requires
        g.wf(),
        g.can_step(g.current, d),
    ensures
        g.land_column(col, d, front).0.all_windows() == g.all_windows().add(col.windows.to_multiset()),
{
    broadcast use vstd::multiset::group_multiset_axioms;

    let tc = to_coord(step_from(g.current, d));
    lemma_ensured(g, tc);
    lemma_all_windows_ensured(g, tc);
    let g2 = g.ensured(tc);
    let ts = g2.spaces[tc];
    let at = if front {
        0
    } else {
        ts.columns.len() as int
    };
    let ns = ts.insert_column(at, col);
    lemma_space_insert_windows(ts, at, col);
    lemma_all_windows_set_space(g2, tc, ns);
    let a = g2.set_space(tc, ns).all_windows();
    let b = g2.all_windows().add(col.windows.to_multiset());
    assert(a.add(ts.windows()) =~= b.add(ts.windows()));
    lemma_cancel(a, b, ts.windows());
}

/// Taking `col` out of the current Space (leaving `src`) and landing it in
/// a neighbouring Space keeps the grid's windows.
proof fn lemma_throw_windows<W>(g: GridView<W>, src: SpaceView<W>, col: ColumnView<W>, d: Direction, front: bool)
    requires
        g.wf(),
        src.wf(),
        g.can_step(g.current, d),
        src.windows().add(col.windows.to_multiset()) == g.cur().windows(),
    ensures
        g.throw_column(src, col, d, front).0.all_windows() == g.all_windows(),
{
    broadcast use vstd::multiset::group_multiset_axioms;

    let g1 = g.set_cur_follow(src);
    lemma_set_space_wf(g, g.current, src);
    crate::grid::lemma_follows_wf(g.set_space(g.current, src), seq![g.current]);
    lemma_all_windows_set_space(g, g.current, src);
    assert(g1.all_windows() == g.set_space(g.current, src).all_windows());
    lemma_land_windows(g1, col, d, front);
    let a = g.throw_column(src, col, d, front).0.all_windows();
    assert(a.add(src.windows()) =~= g.all_windows().add(src.windows()));
    lemma_cancel(a, g.all_windows(), src.windows());
}

/// No command adds, loses or duplicates a window: the grid's windows,
/// counted with multiplicity, are the same before and after.
pub proof fn law_commands_keep_windows<W>(g: GridView<W>, cmd: Command)
    requires
        g.wf(),
        g.command_ok(cmd),
    ensures
        g.apply_result(cmd).0.all_windows() == g.all_windows(),
{
    broadcast use vstd::multiset::group_multiset_axioms;

    assert(g.has(g.current));
    let s = g.cur();
    match cmd {
        Command::FocusColumn(d) => {
            if d.is_horizontal() && s.columns.len() > 0 {
                let t = clamp(s.active + d.step().0, 0, s.columns.len() - 1);
                lemma_all_windows_same_space(g, g.current, s.with_active(t));
            }
        },
        Command::MoveColumn(d) => {
            if d.is_horizontal() && s.columns.len() > 0 {
                let i = s.active;
                let t = i + d.step().0;
                if 0 <= t < s.columns.len() {
                    let u1 = s.columns.update(i, s.columns[t]);
                    lemma_bag_update(s.columns, i, s.columns[t]);
                    lemma_bag_update(u1, t, s.columns[i]);
                    let swapped = SpaceView { columns: u1.update(t, s.columns[i]), active: t, ..s };
                    assert(u1[t] == s.columns[t]);
                    let a = swapped.windows();
                    assert(a.add(s.columns[t].windows.to_multiset()) =~= s.windows().add(s.columns[t].windows.to_multiset()));
                    lemma_cancel(a, s.windows(), s.columns[t].windows.to_multiset());
                    lemma_all_windows_same_space(g, g.current, swapped);
                } else {
                    lemma_space_remove_windows(s, i);
                    crate::model::lemma_remove_column_wf(s, i);
                    lemma_throw_windows(g, s.remove_column(i), s.columns[i], d, d == Direction::Right);
                }
            }
        },
        Command::SwitchSpace(d) => {
            let tc = to_coord(step_from(g.current, d));
            lemma_all_windows_ensured(g, tc);
        },
        Command::MoveWindowToSpace(d) => {
            if s.columns.len() > 0 {
                let col = s.columns[s.active];
                let s1 = s.remove_column(s.active);
                let s2 = match s1.fullscreen {
                    Some(f) => if col.windows.contains(f) {
                        SpaceView { fullscreen: None, ..s1 }
                    } else {
                        s1
                    },
                    None => s1,
                };
                lemma_space_remove_windows(s, s.active);
                crate::model::lemma_remove_column_wf(s, s.active);
                assert(s2.windows() == s1.windows());
                lemma_throw_windows(g, s2, col, d, false);
            }
        },
        Command::CycleWindow => {
            let fp = flat_positions(s.columns);
            if !(s.fullscreen.is_some() || fp.len() < 2) {
                crate::grid::lemma_flat_positions_valid(s.columns);
                let k = (g.focus_position() + 1) % (fp.len() as int);
                let (nc, nw) = fp[k];
                let col = s.columns[nc];
                lemma_bag_update_same(s.columns, nc, ColumnView { active: nw, ..col });
                let s2 = s.update_column(nc, ColumnView { active: nw, ..col }).with_active(nc);
                lemma_all_windows_same_space(g, g.current, s2);
            }
        },
        Command::ToggleColumnLayout => {
            if s.has_active_column() {
                let col = s.columns[s.active];
                lemma_bag_update_same(s.columns, s.active, ColumnView { layout: toggled(col.layout), ..col });
                lemma_all_windows_same_space(
                    g,
                    g.current,
                    s.update_column(s.active, ColumnView { layout: toggled(col.layout), ..col }),
                );
            }
        },
        Command::ToggleFullscreen => {
            lemma_all_windows_same_space(g, g.current, SpaceView { fullscreen: None, ..s });
            match g.focused() {
                Some(id) => lemma_all_windows_same_space(g, g.current, SpaceView { fullscreen: Some(id), ..s }),
                None => {},
            }
        },
        Command::OverviewMove(d) => {
            if g.overview_active {
                lemma_all_windows_ensured(g, to_coord(step_from(g.selection, d)));
            }
        },
        Command::FocusSpaceById(id) => {
            if !g.has_id(id) {
                let tc = (g.first_free() as i32, 0i32);
                let r = g.focus_space_by_id_result(id).0;
                assert(!g.has(tc)) by {
                    crate::grid::lemma_first_free_exists(g);
                }
                assert(r.order == g.ensured(tc).order && r.spaces == g.ensured(tc).spaces);
                lemma_all_windows_ensured(g, tc);
            }
        },
        _ => {},
    }
}

/// Adding a window adds exactly that window to the grid.
pub proof fn law_add_window_adds_it<W>(g: GridView<W>, id: WindowId, width: W)
    requires
        g.wf(),
    ensures
        g.add_window_result(id, width).0.all_windows() == g.all_windows().insert(id),
{
    broadcast use vstd::multiset::group_multiset_axioms;
    broadcast use vstd::seq_lib::group_to_multiset_ensures;

    let s = g.cur();
    assert(g.has(g.current));
    assert(s.wf());
    let c = ColumnView::single(id, width);
    let ns = s.insert_column(g.insert_at(), c);
    lemma_space_insert_windows(s, g.insert_at(), c);
    lemma_all_windows_set_space(g, g.current, ns);
    assert(c.windows =~= Seq::<WindowId>::empty().push(id));
    assert(c.windows.to_multiset() =~= Multiset::<WindowId>::empty().insert(id));
    let a = g.set_space(g.current, ns).all_windows();
    assert(a.add(s.windows()) =~= g.all_windows().insert(id).add(s.windows()));
    lemma_cancel(a, g.all_windows().insert(id), s.windows());
}

} // verus!

verus! {

/// Removing window `id` from its place takes one `id` out of the Space.
proof fn lemma_space_remove_window_windows<W>(s: SpaceView<W>, id: WindowId, ci: int, wi: int)
    requires
        s.wf(),
        0 <= ci < s.columns.len(),
        0 <= wi < s.columns[ci].windows.len(),
        s.columns[ci].windows[wi] == id,
    ensures
        s.remove_window_at(id, ci, wi).windows().insert(id) == s.windows(),
{
    broadcast use vstd::multiset::group_multiset_axioms;
    broadcast use vstd::seq_lib::group_to_multiset_ensures;

    let s1 = if s.fullscreen == Some(id) {
        SpaceView { fullscreen: None, ..s }
    } else {
        s
    };
    let col = s1.columns[ci];
    let ws = col.windows.remove(wi);
    let r = s.remove_window_at(id, ci, wi);
    let cm = col.windows.to_multiset();
    assert(ws.to_multiset() == cm.remove(id));
    assert(cm.count(id) > 0) by {
        assert(col.windows.contains(id)) by {
            assert(col.windows[wi] == id);
        }
    }
    if ws.len() == 0 {
        lemma_bag_remove(s1.columns, ci);
        assert(cm =~= Multiset::<WindowId>::empty().insert(id)) by {
            assert forall|w: WindowId| cm.count(w) == Multiset::<WindowId>::empty().insert(id).count(w) by {
                assert(ws.to_multiset().count(w) == 0);
            }
        }
        assert(r.windows().insert(id) =~= s.windows());
    } else {
        let col2 = ColumnView { windows: ws, active: if col.active >= ws.len() { ws.len() - 1 } else { col.active }, ..col };
        lemma_bag_update(s1.columns, ci, col2);
        let a = r.windows();
        let b = window_bag(s1.columns);
        assert(a.add(cm) == b.add(ws.to_multiset()));
        assert forall|w: WindowId| a.insert(id).count(w) == b.count(w) by {
            assert(a.add(cm).count(w) == b.add(ws.to_multiset()).count(w));
        }
        assert(a.insert(id) =~= b);
    }
}

/// Removing a window that the grid holds takes one of it out of the grid;
/// removing one it does not hold changes nothing.
pub proof fn law_remove_window_removes_it<W>(g: GridView<W>, id: WindowId)
    requires
        g.wf(),
    ensures
        g.holds_window(id) ==> g.remove_window_result(id).0.all_windows().insert(id) == g.all_windows(),
        !g.holds_window(id) ==> g.remove_window_result(id).0 == g,
{
    broadcast use vstd::multiset::group_multiset_axioms;

    if g.holds_window(id) {
        let k0 = choose|k: int| 0 <= k < g.order.len() && (#[trigger] g.spaces[g.order[k]]).has_window(id);
        lemma_first_location_exists(g, id, k0);
        let (k, ci, wi) = g.first_location(id);
        let c = g.order[k];
        assert(g.has(c));
        let s = g.spaces[c];
        let ns = s.remove_window_at(id, ci, wi);
        lemma_space_remove_window_windows(s, id, ci, wi);
        lemma_all_windows_set_space(g, c, ns);
        let a = g.set_space(c, ns).all_windows();
        assert(a.insert(id).add(ns.windows()) =~= g.all_windows().add(ns.windows())) by {
            assert(a.add(s.windows()) == g.all_windows().add(ns.windows()));
        }
        lemma_cancel(a.insert(id), g.all_windows(), ns.windows());
    }
}

/// A window that some Space holds has a first location.
proof fn lemma_first_location_exists<W>(g: GridView<W>, id: WindowId, k: int)
    requires
        0 <= k < g.order.len(),
        g.spaces[g.order[k]].has_window(id),
    ensures
        g.is_first_location(id, g.first_location(id).0, g.first_location(id).1, g.first_location(id).2),
    decreases k,
{
    let earlier = exists|k2: int| 0 <= k2 < k && (#[trigger] g.spaces[g.order[k2]]).has_window(id);
    if earlier {
        let k2 = choose|k2: int| 0 <= k2 < k && (#[trigger] g.spaces[g.order[k2]]).has_window(id);
        lemma_first_location_exists(g, id, k2);
    } else {
        let s = g.spaces[g.order[k]];
        let ci = lemma_first_column(s, id, s.columns.len() as int);
        let col = s.columns[ci];
        col.windows.index_of_first_ensures(id);
        let wi = col.windows.index_of_first(id).unwrap();
        assert(g.is_first_location(id, k, ci, wi));
    }
}

/// The leftmost column (before `n`) holding `id`, given one does.
proof fn lemma_first_column<W>(s: SpaceView<W>, id: WindowId, n: int) -> (ci: int)
    requires
        0 <= n <= s.columns.len(),
        exists|c: int| 0 <= c < n && (#[trigger] s.columns[c]).windows.contains(id),
    ensures
        0 <= ci < n,
        s.columns[ci].windows.contains(id),
        forall|c2: int| 0 <= c2 < ci ==> !(#[trigger] s.columns[c2]).windows.contains(id),
    decreases n,
{
    if exists|c: int| 0 <= c < n - 1 && (#[trigger] s.columns[c]).windows.contains(id) {
        lemma_first_column(s, id, n - 1)
    } else {
        n - 1
    }
}

} // verus!

verus! {

/// `n` holds every Space of `g`, under the same id.
pub open spec fn keeps_spaces<W>(g: GridView<W>, n: GridView<W>) -> bool {
    forall|c: (i32, i32)| #[trigger] g.has(c) ==> n.has(c) && n.ids[c] == g.ids[c]
}

proof fn lemma_keeps_set_space<W>(g: GridView<W>, c: (i32, i32), s: SpaceView<W>)
    requires
        g.has(c),
    ensures
        keeps_spaces(g, g.set_space(c, s)),
{
}

proof fn lemma_keeps_trans<W>(a: GridView<W>, b: GridView<W>, c: GridView<W>)
    requires
        keeps_spaces(a, b),
        keeps_spaces(b, c),
    ensures
        keeps_spaces(a, c),
{
    assert forall|x: (i32, i32)| #[trigger] a.has(x) implies c.has(x) && c.ids[x] == a.ids[x] by {
        assert(b.has(x));
    }
}

proof fn lemma_keeps_land<W>(g: GridView<W>, col: ColumnView<W>, d: Direction, front: bool)
    requires
        g.wf(),
        g.can_step(g.current, d),
    ensures
        keeps_spaces(g, g.land_column(col, d, front).0),
{
    let tc = to_coord(step_from(g.current, d));
    lemma_ensured(g, tc);
    let g2 = g.ensured(tc);
    lemma_keeps_set_space(g2, tc, g2.spaces[tc].insert_column(0, col));
    lemma_keeps_set_space(g2, tc, g2.spaces[tc].insert_column(g2.spaces[tc].columns.len() as int, col));
    lemma_keeps_trans(g, g2, g.land_column(col, d, front).0);
}

proof fn lemma_keeps_throw<W>(g: GridView<W>, src: SpaceView<W>, col: ColumnView<W>, d: Direction, front: bool)
    requires
        g.wf(),
        src.wf(),
        g.can_step(g.current, d),
    ensures
        keeps_spaces(g, g.throw_column(src, col, d, front).0),
{
    let g1 = g.set_cur_follow(src);
    lemma_set_space_wf(g, g.current, src);
    crate::grid::lemma_follows_wf(g.set_space(g.current, src), seq![g.current]);
    lemma_keeps_set_space(g, g.current, src);
    lemma_keeps_land(g1, col, d, front);
    lemma_keeps_trans(g, g1, g.throw_column(src, col, d, front).0);
}

/// Spaces are never destroyed and never change their id: whatever a
/// command does, every Space that existed still exists, under the same id.
pub proof fn law_spaces_persist<W>(g: GridView<W>, cmd: Command)
    requires
        g.wf(),
        g.command_ok(cmd),
    ensures
        keeps_spaces(g, g.apply_result(cmd).0),
{
    assert(g.has(g.current));
    let s = g.cur();
    match cmd {
        Command::MoveColumn(d) => {
            if d.is_horizontal() && s.columns.len() > 0 {
                let i = s.active;
                let t = i + d.step().0;
                if !(0 <= t < s.columns.len()) {
                    crate::model::lemma_remove_column_wf(s, i);
                    lemma_keeps_throw(g, s.remove_column(i), s.columns[i], d, d == Direction::Right);
                }
            }
        },
        Command::MoveWindowToSpace(d) => {
            if s.columns.len() > 0 {
                let col = s.columns[s.active];
                let s1 = s.remove_column(s.active);
                crate::model::lemma_remove_column_wf(s, s.active);
                let s2 = match s1.fullscreen {
                    Some(f) => if col.windows.contains(f) {
                        SpaceView { fullscreen: None, ..s1 }
                    } else {
                        s1
                    },
                    None => s1,
                };
                lemma_keeps_throw(g, s2, col, d, false);
            }
        },
        Command::SwitchSpace(d) => {
            lemma_ensured(g, to_coord(step_from(g.current, d)));
        },
        Command::OverviewMove(d) => {
            if g.overview_active {
                lemma_ensured(g, to_coord(step_from(g.selection, d)));
            }
        },
        Command::FocusSpaceById(id) => {
            if !g.has_id(id) {
                crate::grid::lemma_first_free_exists(g);
            }
        },
        _ => {},
    }
}

/// Adding and removing windows keeps every Space, under the same id.
pub proof fn law_window_lifecycle_keeps_spaces<W>(g: GridView<W>, id: WindowId, width: W)
    requires
        g.wf(),
    ensures
        keeps_spaces(g, g.add_window_result(id, width).0),
        keeps_spaces(g, g.remove_window_result(id).0),
{
    assert(g.has(g.current));
    if g.holds_window(id) {
        let k0 = choose|k: int| 0 <= k < g.order.len() && (#[trigger] g.spaces[g.order[k]]).has_window(id);
        lemma_first_location_exists(g, id, k0);
        let (k, ci, wi) = g.first_location(id);
        assert(g.has(g.order[k]));
    }
}

/// Asking the focused window to close leaves the grid as it is.
pub proof fn law_close_keeps_grid<W>(g: GridView<W>)
    ensures
        g.apply_result(Command::CloseFocused).0 == g,
{
}

/// The direction that undoes `d`.
pub open spec fn opposite(d: Direction) -> Direction {
    match d {
        Direction::Left => Direction::Right,
        Direction::Right => Direction::Left,
        Direction::Up => Direction::Down,
        Direction::Down => Direction::Up,
    }
}

/// Switching Space one way and then back returns to the same Space, with
/// the same focused window.
pub proof fn law_switch_space_round_trip<W>(g: GridView<W>, d: Direction)
    requires
        g.wf(),
        g.command_ok(Command::SwitchSpace(d)),
    ensures
        g.apply_result(Command::SwitchSpace(d)).0.command_ok(Command::SwitchSpace(opposite(d))),
        g.apply_result(Command::SwitchSpace(d)).0.apply_result(Command::SwitchSpace(opposite(d))).0.current == g.current,
        g.apply_result(Command::SwitchSpace(d)).0.apply_result(Command::SwitchSpace(opposite(d))).0.focused() == g.focused(),
{
    let tc = to_coord(step_from(g.current, d));
    lemma_ensured(g, tc);
    let g1 = g.apply_result(Command::SwitchSpace(d)).0;
    assert(step_from(g1.current, opposite(d)) == (g.current.0 as int, g.current.1 as int));
    assert(to_coord(step_from(g1.current, opposite(d))) == g.current);
    assert(g.has(g.current));
    crate::grid::lemma_go_to_wf(g.ensured(tc), tc);
    lemma_ensured(g1, g.current);
}

/// Opening, moving and cancelling Overview never leaves the current Space
/// and never changes what it holds.
pub proof fn law_overview_keeps_current<W>(g: GridView<W>, cmd: Command)
    requires
        g.wf(),
        g.command_ok(cmd),
        cmd == Command::ToggleOverview || cmd is OverviewMove || cmd == Command::OverviewCancel,
    ensures
        g.apply_result(cmd).0.current == g.current,
        g.apply_result(cmd).0.cur() == g.cur(),
{
    assert(g.has(g.current));
    match cmd {
        Command::OverviewMove(d) => {
            if g.overview_active {
                lemma_ensured(g, to_coord(step_from(g.selection, d)));
            }
        },
        _ => {},
    }
}

/// Focusing a Space by id always lands on the Space with that id.
pub proof fn law_focus_space_by_id_lands<W>(g: GridView<W>, id: i32)
    requires
        g.wf(),
        g.command_ok(Command::FocusSpaceById(id)),
    ensures
        g.apply_result(Command::FocusSpaceById(id)).0.has(g.apply_result(Command::FocusSpaceById(id)).0.current),
        g.apply_result(Command::FocusSpaceById(id)).0.current_id() == id,
{
    if g.has_id(id) {
        let c = g.coord_of_id(id);
        assert(g.has(c) && g.ids[c] == id);
    }
}

/// A window added to a Space without a fullscreen window gets the focus.
pub proof fn law_add_window_focuses_it<W>(g: GridView<W>, id: WindowId, width: W)
    requires
        g.wf(),
        g.cur().fullscreen is None,
    ensures
        g.add_window_result(id, width).0.focused() == Some(id),
{
    assert(g.has(g.current));
    assert(g.cur().wf());
}

/// Two Spaces never share an id, so an id names one Space.
pub proof fn law_ids_name_one_space<W>(g: GridView<W>, c1: (i32, i32), c2: (i32, i32))
    requires
        g.wf(),
        g.has(c1),
        g.has(c2),
        g.ids[c1] == g.ids[c2],
    ensures
        c1 == c2,
{
}


/// What the grid's invariant says, which `Grid::new` establishes and every
/// operation (`apply`, `add_window`, `remove_window`,
/// `set_active_column_width`, `take_follow`) keeps: there is a current
/// Space, each Space has an id and no two Spaces share one, and every
/// column holds a window, with the active column and active window in
/// range.
pub proof fn law_grid_invariant<W>(g: GridView<W>, c: (i32, i32), c2: (i32, i32))
    requires
        g.wf(),
    ensures
        g.has(g.current),
        g.has(c) <==> g.ids.dom().contains(c),
        g.has(c) && g.has(c2) && g.ids[c] == g.ids[c2] ==> c == c2,
        g.has(c) && g.spaces[c].columns.len() > 0 ==> 0 <= g.spaces[c].active < g.spaces[c].columns.len(),
        g.has(c) ==> forall|i: int|
            0 <= i < g.spaces[c].columns.len() ==> {
                &&& (#[trigger] g.spaces[c].columns[i]).windows.len() > 0
                &&& 0 <= g.spaces[c].columns[i].active < g.spaces[c].columns[i].windows.len()
            },
{
    if g.has(c) {
        assert(g.spaces[c].wf());
        assert forall|i: int| 0 <= i < g.spaces[c].columns.len() implies {
            &&& (#[trigger] g.spaces[c].columns[i]).windows.len() > 0
            &&& 0 <= g.spaces[c].columns[i].active < g.spaces[c].columns[i].windows.len()
        } by {
            assert(g.spaces[c].columns[i].wf());
        }
    }
    assert(g.has(c) <==> g.order.contains(c));
}

/// The columns of the Space at `c`, or none where there is no Space yet.
pub open spec fn columns_at<W>(g: GridView<W>, c: (i32, i32)) -> Seq<ColumnView<W>> {
    if g.has(c) {
        g.spaces[c].columns
    } else {
        Seq::empty()
    }
}

/// The grid one step from the current Space in direction `d`.
pub open spec fn next_to(c: (i32, i32), d: Direction) -> (i32, i32) {
    to_coord(step_from(c, d))
}

/// Carrying a column out of the current Space (whose columns are now
/// `left_behind`) to the neighbouring Space in direction `d`, where it
/// lands at `at` and becomes active: the grid `r` shows the neighbour,
/// the column sits at `at` among the neighbour's old columns, the current
/// Space keeps `left_behind`, and no other Space changes.
proof fn lemma_carried<W>(
    g: GridView<W>,
    src: SpaceView<W>,
    col: ColumnView<W>,
    d: Direction,
    front: bool,
    r: GridView<W>,
)
    requires
        g.wf(),
        crate::grid::fits_i32(step_from(g.current, d)),
        r == g.throw_column(src, col, d, front).0,
    ensures
        r.current == next_to(g.current, d),
        r.current.0 == g.current.0 + d.step().0,
        r.current.1 == g.current.1 + d.step().1,
        r.current != g.current,
        r.has(r.current),
        r.cur().columns == columns_at(g, r.current).insert(
            if front {
                0
            } else {
                columns_at(g, r.current).len() as int
            },
            col,
        ),
        r.cur().active == (if front {
            0
        } else {
            columns_at(g, r.current).len() as int
        }),
        r.spaces[g.current] == src,
        forall|c: (i32, i32)| g.has(c) && c != g.current && c != r.current ==> r.has(c) && #[trigger] r.spaces[c] == g.spaces[c],
{
    let tc = next_to(g.current, d);
    assert(tc != g.current);
    assert(g.has(g.current));
    let g1 = g.set_cur_follow(src);
    assert(g1.spaces.dom() =~= g.spaces.dom());
    assert(g1.has(tc) == g.has(tc));
    if g.has(tc) {
        assert(g1.spaces[tc] == g.spaces[tc]);
    }
}

/// Moving the focused column past the end of its strip throws it into the
/// neighbouring Space on the side closest to home: thrown right it becomes
/// the first column there, thrown left the last, the neighbour's own
/// columns keep their order, the thrown column is focused, and the Space
/// it left keeps the rest of its columns in order.
pub proof fn law_move_column_throws_toward_home<W>(g: GridView<W>, d: Direction, r: GridView<W>)
    requires
        g.wf(),
        g.command_ok(Command::MoveColumn(d)),
        d.is_horizontal(),
        g.is_edge_move(d),
        r == g.apply_result(Command::MoveColumn(d)).0,
    ensures
        r.current.0 == g.current.0 + d.step().0,
        r.current.1 == g.current.1,
        d == Direction::Right ==> r.cur().columns == seq![g.cur().columns[g.cur().active]] + columns_at(g, r.current)
            && r.cur().active == 0,
        d == Direction::Left ==> r.cur().columns == columns_at(g, r.current).push(g.cur().columns[g.cur().active])
            && r.cur().active == columns_at(g, r.current).len(),
        r.spaces[g.current].columns == g.cur().columns.remove(g.cur().active),
        forall|c: (i32, i32)| g.has(c) && c != g.current && c != r.current ==> #[trigger] r.spaces[c] == g.spaces[c],
{
    let s = g.cur();
    let i = s.active;
    let t = columns_at(g, next_to(g.current, d));
    lemma_carried(g, s.remove_column(i), s.columns[i], d, d == Direction::Right, r);
    assert(t.insert(0, s.columns[i]) =~= seq![s.columns[i]] + t);
    assert(t.insert(t.len() as int, s.columns[i]) =~= t.push(s.columns[i]));
}

/// Moving the focused column within its strip swaps it with its
/// neighbour in direction `d`, keeps it focused, and stays in the same
/// Space.
pub proof fn law_move_column_swaps_within_strip<W>(g: GridView<W>, d: Direction, r: GridView<W>)
    requires
        g.wf(),
        g.command_ok(Command::MoveColumn(d)),
        d.is_horizontal(),
        g.cur().columns.len() > 0,
        !g.is_edge_move(d),
        r == g.apply_result(Command::MoveColumn(d)).0,
    ensures
        r.current == g.current,
        r.cur().active == g.cur().active + d.step().0,
        r.cur().columns.len() == g.cur().columns.len(),
        r.cur().columns[r.cur().active] == g.cur().columns[g.cur().active],
        r.cur().columns[g.cur().active] == g.cur().columns[r.cur().active],
        forall|k: int|
            0 <= k < g.cur().columns.len() && k != g.cur().active && k != r.cur().active ==> #[trigger] r.cur().columns[k]
                == g.cur().columns[k],
        forall|c: (i32, i32)| c != g.current ==> #[trigger] r.spaces[c] == g.spaces[c],
{
}

/// Moving the focused window's column to the neighbouring Space appends
/// it there: it becomes the last column, after the neighbour's own
/// columns in their order, and is focused; the Space it left keeps the
/// rest of its columns in order.
pub proof fn law_move_window_to_space_appends<W>(g: GridView<W>, d: Direction, r: GridView<W>)
    requires
        g.wf(),
        g.command_ok(Command::MoveWindowToSpace(d)),
        g.cur().columns.len() > 0,
        r == g.apply_result(Command::MoveWindowToSpace(d)).0,
    ensures
        r.current.0 == g.current.0 + d.step().0,
        r.current.1 == g.current.1 + d.step().1,
        r.cur().columns == columns_at(g, r.current).push(g.cur().columns[g.cur().active]),
        r.cur().active == columns_at(g, r.current).len(),
        r.spaces[g.current].columns == g.cur().columns.remove(g.cur().active),
        forall|c: (i32, i32)| g.has(c) && c != g.current && c != r.current ==> #[trigger] r.spaces[c] == g.spaces[c],
{
    let s = g.cur();
    let col = s.columns[s.active];
    let s1 = s.remove_column(s.active);
    let s2 = match s1.fullscreen {
        Some(f) => if col.windows.contains(f) {
            SpaceView { fullscreen: None, ..s1 }
        } else {
            s1
        },
        None => s1,
    };
    let t = columns_at(g, next_to(g.current, d));
    lemma_carried(g, s2, col, d, false, r);
    assert(t.insert(t.len() as int, col) =~= t.push(col));
}

/// A new window gets a column of its own right after the focused column
/// (first, in an empty strip), and that column is focused; the other
/// columns keep their order around it, and no other Space changes.
pub proof fn law_add_window_after_focused<W>(g: GridView<W>, id: WindowId, width: W, r: GridView<W>)
    requires
        g.wf(),
        r == g.add_window_result(id, width).0,
    ensures
        r.current == g.current,
        g.cur().columns.len() == 0 ==> r.cur().columns == seq![ColumnView::single(id, width)] && r.cur().active == 0,
        g.cur().columns.len() > 0 ==> {
            &&& r.cur().columns == g.cur().columns.subrange(0, g.cur().active + 1) + seq![ColumnView::single(id, width)]
                + g.cur().columns.subrange(g.cur().active + 1, g.cur().columns.len() as int)
            &&& r.cur().active == g.cur().active + 1
        },
        forall|c: (i32, i32)| c != g.current ==> #[trigger] r.spaces[c] == g.spaces[c],
{
    let s = g.cur();
    let col = ColumnView::single(id, width);
    assert(g.has(g.current));
    assert(s.wf());
    if s.columns.len() == 0 {
        assert(s.columns.insert(0, col) =~= seq![col]);
    } else {
        let a = s.active + 1;
        assert(s.columns.insert(a, col) =~= s.columns.subrange(0, a) + seq![col] + s.columns.subrange(
            a,
            s.columns.len() as int,
        ));
    }
}

/// Focusing a column left or right moves the focus one column that way,
/// and not past either end of the strip; the columns and every other Space
/// stay as they were.
pub proof fn law_focus_column_moves_one<W>(g: GridView<W>, d: Direction, r: GridView<W>)
    requires
        g.wf(),
        g.command_ok(Command::FocusColumn(d)),
        d.is_horizontal(),
        g.cur().columns.len() > 0,
        r == g.apply_result(Command::FocusColumn(d)).0,
    ensures
        r.current == g.current,
        r.cur().columns == g.cur().columns,
        0 <= g.cur().active + d.step().0 < g.cur().columns.len() ==> r.cur().active == g.cur().active + d.step().0,
        !(0 <= g.cur().active + d.step().0 < g.cur().columns.len()) ==> r.cur().active == g.cur().active,
        r.cur().fullscreen == g.cur().fullscreen,
        forall|c: (i32, i32)| c != g.current ==> #[trigger] r.spaces[c] == g.spaces[c],
{
    assert(g.has(g.current));
    assert(g.cur().wf());
}

/// Going fullscreen makes the focused window the fullscreen one (and it
/// keeps the focus); toggling again leaves fullscreen and gives back the
/// Space exactly as it was.
pub proof fn law_toggle_fullscreen_round_trip<W>(g: GridView<W>, id: WindowId)
    requires
        g.wf(),
        g.cur().fullscreen is None,
        g.focused() == Some(id),
    ensures
        g.apply_result(Command::ToggleFullscreen).0.cur().fullscreen == Some(id),
        g.apply_result(Command::ToggleFullscreen).0.focused() == Some(id),
        g.apply_result(Command::ToggleFullscreen).0.cur().columns == g.cur().columns,
        g.apply_result(Command::ToggleFullscreen).0.apply_result(Command::ToggleFullscreen).0 == g,
{
    let g1 = g.apply_result(Command::ToggleFullscreen).0;
    let g2 = g1.apply_result(Command::ToggleFullscreen).0;
    assert(g2.spaces =~= g.spaces);
}

/// Confirming in Overview closes it and goes to the selected Space.
pub proof fn law_overview_confirm_goes_to_selection<W>(g: GridView<W>)
    requires
        g.overview_active,
    ensures
        g.apply_result(Command::OverviewConfirm).0.current == g.selection,
        !g.apply_result(Command::OverviewConfirm).0.overview_active,
        g.apply_result(Command::OverviewConfirm).0.spaces == g.spaces,
{
}

/// An unknown Space id gets a new, empty Space at the leftmost free cell of
/// row 0 (every cell left of it in that row holds a Space), registered
/// under that id, and that Space becomes current; the Spaces that were
/// there stay.
pub proof fn law_focus_unknown_id_creates_in_row_zero<W>(g: GridView<W>, id: i32, r: GridView<W>)
    requires
        g.wf(),
        g.command_ok(Command::FocusSpaceById(id)),
        !g.has_id(id),
        r == g.apply_result(Command::FocusSpaceById(id)).0,
    ensures
        r.current.1 == 0,
        0 <= r.current.0,
        !g.has(r.current),
        forall|k: i32| 0 <= k < r.current.0 ==> #[trigger] g.has((k, 0i32)),
        r.has(r.current),
        r.ids[r.current] == id,
        r.cur().columns.len() == 0,
        forall|c: (i32, i32)| #[trigger] g.has(c) ==> r.has(c) && r.spaces[c] == g.spaces[c] && r.ids[c] == g.ids[c],
{
    crate::grid::lemma_first_free_exists(g);
    let f = g.first_free();
    assert forall|k: i32| 0 <= k < r.current.0 implies #[trigger] g.has((k, 0i32)) by {
        assert(g.has((k as int as i32, 0i32)));
    }
    assert forall|c: (i32, i32)| #[trigger] g.has(c) implies r.has(c) && r.spaces[c] == g.spaces[c] && r.ids[c] == g.ids[c] by {
        assert(c != r.current);
    }
}

/// The flat positions of the first `j` columns begin the flat positions of
/// all of them, and column `j`'s positions follow right after.
proof fn lemma_flat_prefix<W>(cols: Seq<ColumnView<W>>, j: int)
    requires
        0 <= j <= cols.len(),
    ensures
        flat_positions(cols.take(j)).len() <= flat_positions(cols).len(),
        forall|k: int|
            0 <= k < flat_positions(cols.take(j)).len() ==> #[trigger] flat_positions(cols)[k] == flat_positions(
                cols.take(j),
            )[k],
        j < cols.len() ==> flat_positions(cols.take(j)).len() + cols[j].windows.len() <= flat_positions(cols).len(),
        j < cols.len() ==> forall|wi: int|
            0 <= wi < cols[j].windows.len() ==> #[trigger] flat_positions(cols)[flat_positions(cols.take(j)).len() + wi]
                == (j, wi),
    decreases cols.len() - j,
{
    if j == cols.len() {
        assert(cols.take(j) =~= cols);
    } else {
        lemma_flat_prefix(cols, j + 1);
        assert(cols.take(j + 1).drop_last() =~= cols.take(j));
        let a = flat_positions(cols.take(j));
        let b = flat_positions(cols.take(j + 1));
        assert(b == a + Seq::new(cols[j].windows.len(), |wi: int| (j, wi)));
        assert forall|k: int| 0 <= k < a.len() implies #[trigger] flat_positions(cols)[k] == a[k] by {
            assert(flat_positions(cols)[k] == b[k]);
        }
        assert forall|wi: int| 0 <= wi < cols[j].windows.len() implies #[trigger] flat_positions(cols)[a.len() + wi] == (
        j,
        wi,
        ) by {
            assert(flat_positions(cols)[a.len() + wi] == b[a.len() + wi]);
        }
    }
}

/// Cycling moves the focus to the next window in reading order: the next
/// window down the focused column, else the top window of the next
/// column, and from the last window of the last column back to the top
/// of the first; no window changes column. (Stated for strips where no
/// window appears twice and there are at least two windows.)
pub proof fn law_cycle_window_goes_to_next<W>(g: GridView<W>, r: GridView<W>)
    requires
        g.wf(),
        g.cur().fullscreen is None,
        flat_windows(g.cur().columns).len() >= 2,
        flat_windows(g.cur().columns).no_duplicates(),
        r == g.apply_result(Command::CycleWindow).0,
    ensures
        ({
            let s = g.cur();
            let ca = s.active;
            let wa = s.columns[ca].active;
            &&& r.current == g.current
            &&& r.cur().columns.len() == s.columns.len()
            &&& forall|k: int| 0 <= k < s.columns.len() ==> (#[trigger] r.cur().columns[k]).windows == s.columns[k].windows
            &&& wa + 1 < s.columns[ca].windows.len() ==> r.cur().active == ca && r.cur().columns[ca].active == wa + 1
            &&& wa + 1 == s.columns[ca].windows.len() && ca + 1 < s.columns.len() ==> r.cur().active == ca + 1
                && r.cur().columns[ca + 1].active == 0
            &&& wa + 1 == s.columns[ca].windows.len() && ca + 1 == s.columns.len() ==> r.cur().active == 0
                && r.cur().columns[0].active == 0
        }),
{
    let s = g.cur();
    let cols = s.columns;
    assert(g.has(g.current));
    assert(s.wf());
    let fp = flat_positions(cols);
    let fw = flat_windows(cols);
    assert(cols.len() > 0) by {
        if cols.len() == 0 {
            assert(fp.len() == 0);
        }
    }
    let ca = s.active;
    let wa = cols[ca].active;
    assert(cols[ca].wf());
    lemma_flat_prefix(cols, ca);
    let idx = flat_positions(cols.take(ca)).len() as int + wa;
    assert(fp[idx] == (ca, wa));
    let f = cols[ca].windows[wa];
    assert(g.focused() == Some(f));
    assert(fw[idx] == f);
    fw.index_of_first_ensures(f);
    assert(fw.contains(f));
    let k = fw.index_of_first(f)->0;
    assert(k == idx);
    assert(g.focus_position() == idx);
    let n = fp.len() as int;
    if wa + 1 < cols[ca].windows.len() {
        let w1 = wa + 1;
        assert(flat_positions(cols)[flat_positions(cols.take(ca)).len() + w1] == (ca, w1));
        assert(idx + 1 < n);
        assert((idx + 1) % n == idx + 1) by (nonlinear_arith)
            requires
                0 <= idx + 1 < n,
        ;
    } else if ca + 1 < cols.len() {
        lemma_flat_prefix(cols, ca + 1);
        assert(cols.take(ca + 1).drop_last() =~= cols.take(ca));
        assert(cols[ca + 1].wf());
        let z = 0int;
        assert(flat_positions(cols)[flat_positions(cols.take(ca + 1)).len() + z] == (ca + 1, z));
        assert(idx + 1 == flat_positions(cols.take(ca + 1)).len());
        assert(idx + 1 < n);
        assert((idx + 1) % n == idx + 1) by (nonlinear_arith)
            requires
                0 <= idx + 1 < n,
        ;
    } else {
        assert(cols.take(ca + 1) =~= cols);
        assert(cols.take(ca + 1).drop_last() =~= cols.take(ca));
        assert(idx + 1 == n);
        assert((idx + 1) % n == 0) by (nonlinear_arith)
            requires
                idx + 1 == n,
                n > 0,
        ;
        lemma_flat_prefix(cols, 0);
        assert(cols.take(0) =~= Seq::<ColumnView<W>>::empty());
        assert(cols[0].wf());
        let z = 0int;
        assert(flat_positions(cols)[flat_positions(cols.take(0)).len() + z] == (z, z));
    }
}

/// Toggling the column layout flips the focused column between split and
/// tabbed and changes nothing else; toggling twice gives the grid back.
pub proof fn law_toggle_column_layout_flips<W>(g: GridView<W>)
    requires
        g.wf(),
        g.cur().columns.len() > 0,
    ensures
        ({
            let r = g.apply_result(Command::ToggleColumnLayout).0;
            let a = g.cur().active;
            &&& r.current == g.current
            &&& r.cur().columns.len() == g.cur().columns.len()
            &&& r.cur().columns[a].layout != g.cur().columns[a].layout
            &&& r.cur().columns[a].windows == g.cur().columns[a].windows
            &&& forall|k: int| 0 <= k < g.cur().columns.len() && k != a ==> #[trigger] r.cur().columns[k] == g.cur().columns[k]
            &&& r.apply_result(Command::ToggleColumnLayout).0 == g
        }),
{
    assert(g.has(g.current));
    assert(g.cur().wf());
    let r = g.apply_result(Command::ToggleColumnLayout).0;
    let r2 = r.apply_result(Command::ToggleColumnLayout).0;
    assert(r2.cur().columns =~= g.cur().columns);
    assert(r2.spaces =~= g.spaces);
}

/// In Overview, moving the selection steps it one cell in that direction
/// (the cell gets a Space if it had none) and leaves the current Space
/// and every existing Space as they were.
pub proof fn law_overview_move_steps_selection<W>(g: GridView<W>, d: Direction, r: GridView<W>)
    requires
        g.wf(),
        g.overview_active,
        g.command_ok(Command::OverviewMove(d)),
        r == g.apply_result(Command::OverviewMove(d)).0,
    ensures
        r.selection.0 == g.selection.0 + d.step().0,
        r.selection.1 == g.selection.1 + d.step().1,
        r.has(r.selection),
        r.current == g.current,
        r.overview_active,
        forall|c: (i32, i32)| #[trigger] g.has(c) ==> r.has(c) && r.spaces[c] == g.spaces[c],
{
    lemma_ensured(g, to_coord(step_from(g.selection, d)));
}

} // verus!
