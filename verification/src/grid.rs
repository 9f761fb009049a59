//! The whole desktop: a sparse grid of [`Space`]s, each identified by a
//! stable Hyprland-shaped id, plus the Overview selection state.

use vstd::prelude::*;

use crate::commands::{clamp, flat_positions, flat_windows, toggled, Command};
use crate::model::{
    column_views, lemma_insert_column_wf, lemma_remove_column_wf, lemma_update_column_wf, Column, ColumnLayout, ColumnView,
    Direction, Space, SpaceView, WindowId,
};

verus! {

/// Side effects of a Grid operation that the compositor needs to act on
/// (focus a surface, send a close request, refresh the bar, ...).
#[derive(Debug, Clone, Copy, PartialEq, Eq, Structural)]
pub enum Event {
    /// The window that should receive keyboard focus changed (or there is
    /// now no focused window).
    FocusChanged(Option<WindowId>),
    /// The active Space changed; carries its stable (Hyprland-shaped) id.
    SpaceChanged(i32),
    /// A Space was created or a window count changed: bar modules
    /// (workspace pills) should refresh.
    SpacesChanged,
    /// The compositor should ask this window's client to close.
    CloseRequested(WindowId),
}

/// State of the zoomed-out, spatial view of the whole Spaces grid.
#[derive(Debug, Clone, Copy)]
pub struct Overview {
    pub active: bool,
    pub selection: (i32, i32),
}

/// One Space of the grid together with where it sits and its id.
struct Slot<W> {
    coord: (i32, i32),
    id: i32,
    space: Space<W>,
}

/// The grid of Spaces.
///
/// Besides the Spaces themselves it keeps the coordinates of the Spaces
/// whose active column should be scrolled into view (`follow`), in the
/// order the operations asked for it; the compositor drains them with
/// [`Grid::take_follow`] after each operation and does the scrolling.
pub struct Grid<W> {
    slots: Vec<Slot<W>>,
    current: (i32, i32),
    overview: Overview,
    next_id: i32,
    follow: Vec<(i32, i32)>,
}

/// The mathematical value of a [`Grid`].
pub struct GridView<W> {
    /// Every Space's coordinate, in creation order.
    pub order: Seq<(i32, i32)>,
    pub spaces: Map<(i32, i32), SpaceView<W>>,
    /// Each Space's stable id.
    pub ids: Map<(i32, i32), i32>,
    pub current: (i32, i32),
    pub overview_active: bool,
    pub selection: (i32, i32),
    /// The id the next created Space gets.
    pub next_id: int,
    /// Spaces whose active column is to be scrolled into view.
    pub follow: Seq<(i32, i32)>,
}

spec fn slots_order<W>(slots: Seq<Slot<W>>) -> Seq<(i32, i32)> {
    slots.map_values(|s: Slot<W>| s.coord)
}

spec fn slots_spaces<W>(slots: Seq<Slot<W>>) -> Map<(i32, i32), SpaceView<W>> {
    let order = slots_order(slots);
    Map::new(|c: (i32, i32)| order.contains(c), |c: (i32, i32)| slots[order.index_of(c)].space@)
}

spec fn slots_ids<W>(slots: Seq<Slot<W>>) -> Map<(i32, i32), i32> {
    let order = slots_order(slots);
    Map::new(|c: (i32, i32)| order.contains(c), |c: (i32, i32)| slots[order.index_of(c)].id)
}

impl<W> View for Grid<W> {
    type V = GridView<W>;

    closed spec fn view(&self) -> GridView<W> {
        GridView {
            order: slots_order(self.slots@),
            spaces: slots_spaces(self.slots@),
            ids: slots_ids(self.slots@),
            current: self.current,
            overview_active: self.overview.active,
            selection: self.overview.selection,
            next_id: self.next_id as int,
            follow: self.follow@,
        }
    }
}

/// The coordinate one step from `c` in direction `d`.
pub open spec fn step_from(c: (i32, i32), d: Direction) -> (int, int) {
    (c.0 + d.step().0, c.1 + d.step().1)
}

/// Whether both components of `p` are `i32`s.
pub open spec fn fits_i32(p: (int, int)) -> bool {
    i32::MIN <= p.0 <= i32::MAX && i32::MIN <= p.1 <= i32::MAX
}

pub open spec fn to_coord(p: (int, int)) -> (i32, i32) {
    (p.0 as i32, p.1 as i32)
}

impl<W> GridView<W> {
    pub open spec fn has(self, c: (i32, i32)) -> bool {
        self.spaces.dom().contains(c)
    }

    /// The grid's invariant.
    pub open spec fn wf(self) -> bool {
        &&& self.order.no_duplicates()
        &&& self.order.len() < i32::MAX
        &&& forall|c: (i32, i32)| #[trigger] self.spaces.dom().contains(c) <==> self.order.contains(c)
        &&& forall|c: (i32, i32)| #[trigger] self.ids.dom().contains(c) <==> self.order.contains(c)
        &&& self.has(self.current)
        &&& self.has(self.selection)
        &&& forall|c: (i32, i32)| #[trigger] self.has(c) ==> self.spaces[c].wf()
        &&& forall|c: (i32, i32)| #[trigger] self.has(c) ==> self.ids[c] < self.next_id
        &&& forall|c1: (i32, i32), c2: (i32, i32)|
            #![trigger self.ids[c1], self.ids[c2]]
            self.has(c1) && self.has(c2) && c1 != c2 ==> self.ids[c1] != self.ids[c2]
        &&& self.next_id <= i32::MAX
    }

    /// Another Space can be created: there is an id left for it, and the
    /// number of Spaces stays an `i32`.
    pub open spec fn can_create(self) -> bool {
        &&& self.next_id < i32::MAX
        &&& self.order.len() + 1 < i32::MAX
    }

    /// The current Space.
    pub open spec fn cur(self) -> SpaceView<W> {
        self.spaces[self.current]
    }

    /// The window with keyboard focus: the current Space's focused window.
    pub open spec fn focused(self) -> Option<WindowId> {
        self.cur().focused()
    }

    pub open spec fn current_id(self) -> i32 {
        self.ids[self.current]
    }

    /// This grid with the Space at `c` replaced by `s`.
    pub open spec fn set_space(self, c: (i32, i32), s: SpaceView<W>) -> GridView<W> {
        GridView { spaces: self.spaces.insert(c, s), ..self }
    }

    /// This grid with a Space at `c`, created empty (with the next id) if
    /// there was none.
    pub open spec fn ensured(self, c: (i32, i32)) -> GridView<W> {
        if self.has(c) {
            self
        } else {
            GridView {
                order: self.order.push(c),
                spaces: self.spaces.insert(c, SpaceView::empty()),
                ids: self.ids.insert(c, self.next_id as i32),
                next_id: self.next_id + 1,
                ..self
            }
        }
    }

    /// This grid with `c` as the current Space.
    pub open spec fn go_to(self, c: (i32, i32)) -> GridView<W> {
        GridView { current: c, ..self }
    }

    /// This grid with no pending scroll-into-view requests.
    pub open spec fn without_follow(self) -> GridView<W> {
        GridView { follow: Seq::empty(), ..self }
    }

    /// This grid with `cs` added to the pending scroll-into-view requests.
    pub open spec fn follows(self, cs: Seq<(i32, i32)>) -> GridView<W> {
        GridView { follow: self.follow + cs, ..self }
    }

    /// Where a new window's column goes: right after the focused column,
    /// or first in an empty strip.
    pub open spec fn insert_at(self) -> int {
        if self.cur().columns.len() == 0 {
            0
        } else {
            self.cur().active + 1
        }
    }

    /// Inserting window `id` as a new column right after the focused one
    /// in the current Space, and focusing it.
    pub open spec fn add_window_result(self, id: WindowId, width: W) -> (GridView<W>, Seq<Event>) {
        (
            self.set_space(
                self.current,
                self.cur().insert_column(self.insert_at(), ColumnView::single(id, width)),
            ).follows(seq![self.current]),
            seq![Event::FocusChanged(Some(id)), Event::SpacesChanged],
        )
    }

    /// Whether some Space holds window `id`.
    pub open spec fn holds_window(self, id: WindowId) -> bool {
        exists|k: int| 0 <= k < self.order.len() && (#[trigger] self.spaces[self.order[k]]).has_window(id)
    }

    /// `(k, ci, wi)` is where `id` is found first: in the earliest-created
    /// Space holding it (`order[k]`), its leftmost column holding it (`ci`),
    /// at the first position of that column holding it (`wi`).
    pub open spec fn is_first_location(self, id: WindowId, k: int, ci: int, wi: int) -> bool {
        &&& 0 <= k < self.order.len()
        &&& self.spaces[self.order[k]].has_window(id)
        &&& forall|k2: int| 0 <= k2 < k ==> !(#[trigger] self.spaces[self.order[k2]]).has_window(id)
        &&& 0 <= ci < self.spaces[self.order[k]].columns.len()
        &&& self.spaces[self.order[k]].columns[ci].windows.contains(id)
        &&& forall|c2: int| 0 <= c2 < ci ==> !(#[trigger] self.spaces[self.order[k]].columns[c2]).windows.contains(id)
        &&& 0 <= wi < self.spaces[self.order[k]].columns[ci].windows.len()
        &&& self.spaces[self.order[k]].columns[ci].windows[wi] == id
        &&& forall|w2: int| 0 <= w2 < wi ==> (#[trigger] self.spaces[self.order[k]].columns[ci].windows[w2]) != id
    }

    pub open spec fn first_location(self, id: WindowId) -> (int, int, int) {
        choose|k: int, ci: int, wi: int| self.is_first_location(id, k, ci, wi)
    }

    /// Removing window `id` from where it is found first; the bar is told
    /// to refresh, and if it was in the current Space, focus is refreshed
    /// too and that Space follows its active column.
    pub open spec fn remove_window_result(self, id: WindowId) -> (GridView<W>, Seq<Event>) {
        if !self.holds_window(id) {
            (self, Seq::empty())
        } else {
            let (k, ci, wi) = self.first_location(id);
            let c = self.order[k];
            let g = self.set_space(c, self.spaces[c].remove_window_at(id, ci, wi));
            if c == self.current {
                let g2 = g.follows(seq![c]);
                (g2, seq![Event::SpacesChanged, Event::FocusChanged(g2.focused())])
            } else {
                (g, seq![Event::SpacesChanged])
            }
        }
    }

    /// Giving the current Space's active column (if any) the width
    /// `width`, and following it.
    pub open spec fn set_active_width_result(self, width: W) -> GridView<W> {
        let s = self.cur();
        if s.has_active_column() {
            self.set_space(self.current, s.update_column(s.active, ColumnView { width, ..s.columns[s.active] })).follows(
                seq![self.current],
            )
        } else {
            self.follows(seq![self.current])
        }
    }

    /// `(id, window count)` of every Space, in creation order.
    pub open spec fn infos(self) -> Seq<(i32, nat)> {
        self.order.map_values(|c: (i32, i32)| (self.ids[c], self.spaces[c].window_count()))
    }

    /// Every Space's window count fits in a `usize`.
    pub open spec fn counts_fit(self) -> bool {
        forall|c: (i32, i32)| #[trigger] self.has(c) ==> self.spaces[c].window_count() <= usize::MAX
    }
}

proof fn lemma_index_of<A>(s: Seq<A>, i: int)
    requires
        s.no_duplicates(),
        0 <= i < s.len(),
    ensures
        s.index_of(s[i]) == i,
{
    assert(s.contains(s[i]));
    let j = s.index_of(s[i]);
    assert(0 <= j < s.len() && s[j] == s[i]);
}

/// The view of slot `i` is what the grid's maps hold at its coordinate.
proof fn lemma_slot<W>(slots: Seq<Slot<W>>, i: int)
    requires
        slots_order(slots).no_duplicates(),
        0 <= i < slots.len(),
    ensures
        slots_order(slots)[i] == slots[i].coord,
        slots_spaces(slots).dom().contains(slots[i].coord),
        slots_spaces(slots)[slots[i].coord] == slots[i].space@,
        slots_ids(slots)[slots[i].coord] == slots[i].id,
{
    let order = slots_order(slots);
    assert(order[i] == slots[i].coord);
    lemma_index_of(order, i);
}

/// Replacing slot `i`'s Space (keeping its coordinate and id) replaces the
/// Space at that coordinate.
proof fn lemma_slot_update<W>(slots: Seq<Slot<W>>, i: int, s: Slot<W>)
    requires
        slots_order(slots).no_duplicates(),
        0 <= i < slots.len(),
        s.coord == slots[i].coord,
        s.id == slots[i].id,
    ensures
        slots_order(slots.update(i, s)) == slots_order(slots),
        slots_spaces(slots.update(i, s)) == slots_spaces(slots).insert(s.coord, s.space@),
        slots_ids(slots.update(i, s)) == slots_ids(slots),
{
    let n = slots.update(i, s);
    let order = slots_order(slots);
    assert(slots_order(n) =~= order);
    lemma_index_of(order, i);
    assert forall|c: (i32, i32)| order.contains(c) implies slots_spaces(n)[c] == slots_spaces(slots).insert(
        s.coord,
        s.space@,
    )[c] && slots_ids(n)[c] == slots_ids(slots)[c] by {
        let j = order.index_of(c);
        assert(0 <= j < order.len() && order[j] == c);
    }
    assert(slots_spaces(n) =~= slots_spaces(slots).insert(s.coord, s.space@));
    assert(slots_ids(n) =~= slots_ids(slots));
}

/// Appending a slot at a fresh coordinate adds it to the maps.
proof fn lemma_slot_push<W>(slots: Seq<Slot<W>>, s: Slot<W>)
    requires
        slots_order(slots).no_duplicates(),
        !slots_order(slots).contains(s.coord),
    ensures
        slots_order(slots.push(s)) == slots_order(slots).push(s.coord),
        slots_order(slots.push(s)).no_duplicates(),
        slots_spaces(slots.push(s)) == slots_spaces(slots).insert(s.coord, s.space@),
        slots_ids(slots.push(s)) == slots_ids(slots).insert(s.coord, s.id),
{
    let n = slots.push(s);
    let order = slots_order(slots);
    let norder = slots_order(n);
    assert(norder =~= order.push(s.coord));
    assert(norder.no_duplicates()) by {
        assert forall|a: int, b: int| 0 <= a < norder.len() && 0 <= b < norder.len() && a != b implies norder[a]
            != norder[b] by {
            if a == order.len() as int {
                assert(order[b] == norder[b]);
            } else if b == order.len() as int {
                assert(order[a] == norder[a]);
            }
        }
    }
    lemma_index_of(norder, order.len() as int);
    assert forall|c: (i32, i32)| norder.contains(c) implies slots_spaces(n)[c] == slots_spaces(slots).insert(
        s.coord,
        s.space@,
    )[c] && slots_ids(n)[c] == slots_ids(slots).insert(s.coord, s.id)[c] by {
        let j = norder.index_of(c);
        assert(0 <= j < norder.len() && norder[j] == c);
        if c != s.coord {
            assert(j < order.len());
            assert(order[j] == c);
            lemma_index_of(order, j);
            lemma_index_of(norder, j);
        }
    }
    assert forall|c: (i32, i32)| norder.contains(c) <==> order.contains(c) || c == s.coord by {
        if order.contains(c) {
            let j = order.index_of(c);
            assert(norder[j] == c);
        }
        if norder.contains(c) && c != s.coord {
            let j = norder.index_of(c);
            assert(order[j] == c);
        }
        if c == s.coord {
            assert(norder[order.len() as int] == c);
        }
    }
    assert(slots_spaces(n) =~= slots_spaces(slots).insert(s.coord, s.space@));
    assert(slots_ids(n) =~= slots_ids(slots).insert(s.coord, s.id));
}

/// Replacing an existing Space by a well-formed one keeps the grid's
/// invariant.
pub proof fn lemma_set_space_wf<W>(g: GridView<W>, c: (i32, i32), s: SpaceView<W>)
    requires
        g.wf(),
        g.has(c),
        s.wf(),
    ensures
        g.set_space(c, s).wf(),
{
    let n = g.set_space(c, s);
    assert forall|x: (i32, i32)| #[trigger] n.spaces.dom().contains(x) <==> n.order.contains(x) by {
        assert(g.spaces.dom().contains(x) <==> g.order.contains(x));
    }
    assert forall|x: (i32, i32)| #[trigger] n.has(x) implies n.spaces[x].wf() && n.ids[x] < n.next_id by {
        if x != c {
            assert(g.has(x));
        }
    }
    assert forall|c1: (i32, i32), c2: (i32, i32)|
        #![trigger n.ids[c1], n.ids[c2]]
        n.has(c1) && n.has(c2) && c1 != c2 implies n.ids[c1] != n.ids[c2] by {
        assert(g.has(c1) && g.has(c2));
    }
}

/// Making sure a Space exists keeps the invariant, and keeps every Space
/// that was there.
pub proof fn lemma_ensured<W>(g: GridView<W>, c: (i32, i32))
    requires
        g.wf(),
        g.has(c) || g.can_create(),
    ensures
        g.ensured(c).wf(),
        g.ensured(c).has(c),
        g.ensured(c).current == g.current,
        g.ensured(c).selection == g.selection,
        g.ensured(c).follow == g.follow,
        g.ensured(c).overview_active == g.overview_active,
        forall|x: (i32, i32)| #[trigger] g.has(x) ==> g.ensured(c).has(x) && g.ensured(c).spaces[x] == g.spaces[x] && g.ensured(c).ids[x] == g.ids[x],
        !g.has(c) ==> g.ensured(c).spaces[c] == SpaceView::<W>::empty() && g.ensured(c).ids[c] == g.next_id,
{
    if !g.has(c) {
        let n = g.ensured(c);
        assert(!g.order.contains(c));
        assert(n.order.no_duplicates()) by {
            assert forall|a: int, b: int| 0 <= a < n.order.len() && 0 <= b < n.order.len() && a != b implies n.order[a]
                != n.order[b] by {
                if a == g.order.len() as int {
                    assert(g.order[b] == n.order[b]);
                } else if b == g.order.len() as int {
                    assert(g.order[a] == n.order[a]);
                } else {
                    assert(g.order[a] == n.order[a] && g.order[b] == n.order[b]);
                }
            }
        }
        assert forall|x: (i32, i32)| n.order.contains(x) <==> g.order.contains(x) || x == c by {
            if g.order.contains(x) {
                let j = g.order.index_of(x);
                assert(n.order[j] == x);
            }
            if n.order.contains(x) && x != c {
                let j = n.order.index_of(x);
                assert(g.order[j] == x);
            }
            if x == c {
                assert(n.order[g.order.len() as int] == x);
            }
        }
        assert forall|x: (i32, i32)| #[trigger] n.spaces.dom().contains(x) <==> n.order.contains(x) by {
            assert(g.spaces.dom().contains(x) <==> g.order.contains(x));
        }
        assert forall|x: (i32, i32)| #[trigger] n.ids.dom().contains(x) <==> n.order.contains(x) by {
            assert(g.ids.dom().contains(x) <==> g.order.contains(x));
        }
        assert forall|x: (i32, i32)| #[trigger] n.has(x) implies n.spaces[x].wf() && n.ids[x] < n.next_id by {
            if x != c {
                assert(g.has(x));
            }
        }
        assert forall|c1: (i32, i32), c2: (i32, i32)|
            #![trigger n.ids[c1], n.ids[c2]]
            n.has(c1) && n.has(c2) && c1 != c2 implies n.ids[c1] != n.ids[c2] by {
            if c1 != c && c2 != c {
                assert(g.has(c1) && g.has(c2));
            } else if c1 == c {
                assert(g.has(c2));
            } else {
                assert(g.has(c1));
            }
        }
    }
}

/// A grid with the same Spaces and ids as a well-formed one, whose current
/// and selected Spaces exist, is well-formed.
pub proof fn lemma_wf_same<W>(g: GridView<W>, n: GridView<W>)
    requires
        g.wf(),
        n.order == g.order,
        n.spaces == g.spaces,
        n.ids == g.ids,
        n.next_id == g.next_id,
        g.has(n.current),
        g.has(n.selection),
    ensures
        n.wf(),
{
    assert forall|x: (i32, i32)| #[trigger] n.spaces.dom().contains(x) <==> n.order.contains(x) by {
        assert(g.spaces.dom().contains(x) <==> g.order.contains(x));
    }
    assert forall|x: (i32, i32)| #[trigger] n.ids.dom().contains(x) <==> n.order.contains(x) by {
        assert(g.ids.dom().contains(x) <==> g.order.contains(x));
    }
    assert forall|x: (i32, i32)| #[trigger] n.has(x) implies n.spaces[x].wf() && n.ids[x] < n.next_id by {
        assert(g.has(x));
    }
    assert forall|c1: (i32, i32), c2: (i32, i32)|
        #![trigger n.ids[c1], n.ids[c2]]
        n.has(c1) && n.has(c2) && c1 != c2 implies n.ids[c1] != n.ids[c2] by {
        assert(g.has(c1) && g.has(c2));
    }
}

/// Moving to an existing Space keeps the invariant.
pub proof fn lemma_go_to_wf<W>(g: GridView<W>, c: (i32, i32))
    requires
        g.wf(),
        g.has(c),
    ensures
        g.go_to(c).wf(),
{
    lemma_wf_same(g, g.go_to(c));
}

/// Adding scroll requests keeps the invariant.
pub proof fn lemma_follows_wf<W>(g: GridView<W>, cs: Seq<(i32, i32)>)
    requires
        g.wf(),
    ensures
        g.follows(cs).wf(),
{
    lemma_wf_same(g, g.follows(cs));
}

/// The first location of a window is unique.
pub proof fn lemma_first_location_unique<W>(g: GridView<W>, id: WindowId, k: int, ci: int, wi: int)
    requires
        g.is_first_location(id, k, ci, wi),
    ensures
        g.holds_window(id),
        g.first_location(id) == (k, ci, wi),
{
    assert(g.spaces[g.order[k]].has_window(id));
    let (k2, c2, w2) = g.first_location(id);
    assert(g.is_first_location(id, k2, c2, w2));
    if k2 < k {
        assert(!g.spaces[g.order[k2]].has_window(id));
    } else if k < k2 {
        assert(!g.spaces[g.order[k]].has_window(id));
    }
    assert(k2 == k);
    if c2 < ci {
        assert(!g.spaces[g.order[k]].columns[c2].windows.contains(id));
    } else if ci < c2 {
        assert(!g.spaces[g.order[k]].columns[ci].windows.contains(id));
    }
    assert(c2 == ci);
    if w2 < wi {
        assert(g.spaces[g.order[k]].columns[ci].windows[w2] != id);
    } else if wi < w2 {
        assert(g.spaces[g.order[k]].columns[ci].windows[wi] != id);
    }
}

/// Removing a window keeps a Space well-formed.
pub proof fn lemma_remove_window_at_wf<W>(s: SpaceView<W>, id: WindowId, ci: int, wi: int)
    requires
        s.wf(),
        0 <= ci < s.columns.len(),
        0 <= wi < s.columns[ci].windows.len(),
    ensures
        s.remove_window_at(id, ci, wi).wf(),
{
    let s1 = if s.fullscreen == Some(id) {
        SpaceView { fullscreen: None, ..s }
    } else {
        s
    };
    let col = s1.columns[ci];
    let ws = col.windows.remove(wi);
    let r = s.remove_window_at(id, ci, wi);
    if ws.len() == 0 {
        assert forall|i: int| 0 <= i < r.columns.len() implies (#[trigger] r.columns[i]).wf() by {
            if i < ci {
                assert(r.columns[i] == s.columns[i]);
            } else {
                assert(r.columns[i] == s.columns[i + 1]);
            }
        }
    } else {
        assert forall|i: int| 0 <= i < r.columns.len() implies (#[trigger] r.columns[i]).wf() by {
            if i != ci {
                assert(r.columns[i] == s.columns[i]);
            }
        }
    }
}

/// The cells `(0, 0) .. (n - 1, 0)` of row 0.
spec fn row_cells(n: int) -> Set<(i32, i32)> {
    Set::new(|c: (i32, i32)| c.1 == 0 && 0 <= c.0 < n)
}

proof fn lemma_row_cells_len(n: int)
    requires
        0 <= n <= i32::MAX,
    ensures
        row_cells(n).finite(),
        row_cells(n).len() == n,
    decreases n,
{
    if n == 0 {
        assert(row_cells(0) =~= Set::empty());
    } else {
        lemma_row_cells_len(n - 1);
        assert(row_cells(n) =~= row_cells(n - 1).insert(((n - 1) as i32, 0i32)));
    }
}

/// If row 0 is filled from column 0 up to column `n - 1`, there are at
/// least `n` Spaces.
proof fn lemma_row_prefix_bound<W>(g: GridView<W>, n: int)
    requires
        g.wf(),
        0 <= n <= i32::MAX,
        forall|k: int| 0 <= k < n ==> #[trigger] g.has((k as i32, 0i32)),
    ensures
        n <= g.order.len(),
{
    broadcast use vstd::seq_lib::seq_to_set_is_finite;

    lemma_row_cells_len(n);
    g.order.unique_seq_to_set();
    assert forall|c: (i32, i32)| row_cells(n).contains(c) implies g.order.to_set().contains(c) by {
        assert(g.has(((c.0 as int) as i32, 0i32)));
        assert(c == ((c.0 as int) as i32, 0i32));
    }
    vstd::set_lib::lemma_len_subset(row_cells(n), g.order.to_set());
}

/// Row 0 has a first free cell at or after `c`, when the cells before `c`
/// are taken.
proof fn lemma_first_free_from<W>(g: GridView<W>, c: int)
    requires
        g.wf(),
        0 <= c <= g.order.len(),
        forall|k: int| 0 <= k < c ==> #[trigger] g.has((k as i32, 0i32)),
    ensures
        g.is_first_free(g.first_free()),
    decreases g.order.len() - c,
{
    if g.has((c as i32, 0i32)) {
        assert forall|k: int| 0 <= k < c + 1 implies #[trigger] g.has((k as i32, 0i32)) by {
            if k == c {
                assert(g.has((c as i32, 0i32)));
            }
        }
        lemma_row_prefix_bound(g, c + 1);
        lemma_first_free_from(g, c + 1);
    } else {
        assert(g.is_first_free(c));
    }
}

/// Row 0 has a first free cell.
pub proof fn lemma_first_free_exists<W>(g: GridView<W>)
    requires
        g.wf(),
    ensures
        g.is_first_free(g.first_free()),
{
    lemma_first_free_from(g, 0);
}

/// The first free cell of row 0 is unique.
proof fn lemma_first_free_unique<W>(g: GridView<W>, c: int)
    requires
        g.is_first_free(c),
    ensures
        g.first_free() == c,
{
    let c2 = g.first_free();
    assert(g.is_first_free(c2));
    if c2 < c {
        assert(g.has((c2 as i32, 0i32)));
    } else if c < c2 {
        assert(g.has((c as i32, 0i32)));
    }
}

/// The Space holding an id is the one `coord_of_id` picks.
proof fn lemma_coord_of_id<W>(g: GridView<W>, c: (i32, i32), id: i32)
    requires
        g.wf(),
        g.has(c),
        g.ids[c] == id,
    ensures
        g.has_id(id),
        g.coord_of_id(id) == c,
{
    assert(g.has(c) && g.ids[c] == id);
    let c2 = g.coord_of_id(id);
    assert(g.has(c2) && g.ids[c2] == id);
}

/// The positions of [`flat_positions`] are valid window positions.
pub proof fn lemma_flat_positions_valid<W>(cols: Seq<ColumnView<W>>)
    ensures
        forall|k: int|
            0 <= k < flat_positions(cols).len() ==> 0 <= (#[trigger] flat_positions(cols)[k]).0 < cols.len()
                && 0 <= flat_positions(cols)[k].1 < cols[flat_positions(cols)[k].0].windows.len(),
    decreases cols.len(),
{
    if cols.len() > 0 {
        let init = cols.drop_last();
        lemma_flat_positions_valid(init);
        let fp = flat_positions(cols);
        let fi = flat_positions(init);
        assert forall|k: int| 0 <= k < fp.len() implies 0 <= (#[trigger] fp[k]).0 < cols.len() && 0 <= fp[k].1
            < cols[fp[k].0].windows.len() by {
            if k < fi.len() {
                assert(fp[k] == fi[k]);
                assert(cols[fi[k].0] == init[fi[k].0]);
            }
        }
    }
}

/// Appending one more column to a prefix extends its flat positions.
proof fn lemma_flat_positions_step<W>(cols: Seq<ColumnView<W>>, ci: int)
    requires
        0 <= ci < cols.len(),
    ensures
        flat_positions(cols.take(ci + 1)) == flat_positions(cols.take(ci)) + Seq::new(
            cols[ci].windows.len(),
            |wi: int| (ci, wi),
        ),
{
    assert(cols.take(ci + 1).drop_last() =~= cols.take(ci));
}

impl<W> Grid<W> {
    /// The slot index of the Space at `coord`, if there is one.
    fn find(&self, coord: (i32, i32)) -> (r: Option<usize>)
        requires
            self@.wf(),
        ensures
            match r {
                Some(i) => i < self.slots@.len() && self.slots@[i as int].coord == coord && self@.has(coord),
                None => !self@.has(coord),
            },
    {
        let mut i: usize = 0;
        while i < self.slots.len()
            invariant
                i <= self.slots@.len(),
                self@.wf(),
                forall|j: int| 0 <= j < i ==> self.slots@[j].coord != coord,
            decreases self.slots@.len() - i,
        {
            if self.slots[i].coord.0 == coord.0 && self.slots[i].coord.1 == coord.1 {
                proof {
                    lemma_slot(self.slots@, i as int);
                }
                return Some(i);
            }
            i = i + 1;
        }
        proof {
            if self@.has(coord) {
                let order = slots_order(self.slots@);
                let j = order.index_of(coord);
                assert(0 <= j < order.len() && order[j] == coord);
                assert(self.slots@[j].coord == coord);
            }
        }
        None
    }

    /// The slot index of the current Space.
    fn current_index(&self) -> (i: usize)
        requires
            self@.wf(),
        ensures
            i < self.slots@.len(),
            self.slots@[i as int].coord == self@.current,
            self.slots@[i as int].space@ == self@.cur(),
            self.slots@[i as int].id == self@.current_id(),
    {
        let r = self.find(self.current);
        match r {
            Some(i) => {
                proof {
                    lemma_slot(self.slots@, i as int);
                }
                i
            },
            None => {
                proof {
                    assert(false);
                }
                0
            },
        }
    }

    /// A grid holding one empty Space at `(0, 0)`, with id `1`, which is
    /// current and selected.
    pub fn new() -> (g: Grid<W>)
        ensures
            g@.wf(),
            g@.order == seq![(0i32, 0i32)],
            g@.spaces == Map::<(i32, i32), SpaceView<W>>::empty().insert((0, 0), SpaceView::empty()),
            g@.ids == Map::<(i32, i32), i32>::empty().insert((0, 0), 1),
            g@.current == (0i32, 0i32),
            !g@.overview_active,
            g@.selection == (0i32, 0i32),
            g@.next_id == 2,
            g@.follow == Seq::<(i32, i32)>::empty(),
    {
        let mut slots: Vec<Slot<W>> = Vec::new();
        let space = Space::new();
        let slot = Slot { coord: (0, 0), id: 1, space };
        proof {
            assert(slots_order(slots@) =~= Seq::<(i32, i32)>::empty());
            lemma_slot_push(slots@, slot);
            assert(slots_spaces(slots@) =~= Map::<(i32, i32), SpaceView<W>>::empty());
            assert(slots_ids(slots@) =~= Map::<(i32, i32), i32>::empty());
        }
        slots.push(slot);
        let g = Grid { slots, current: (0, 0), overview: Overview { active: false, selection: (0, 0) }, next_id: 2, follow: Vec::new() };
        proof {
            assert(g@.order =~= seq![(0i32, 0i32)]);
            assert forall|c: (i32, i32)| #[trigger] g@.spaces.dom().contains(c) <==> g@.order.contains(c) by {
                if g@.order.contains(c) {
                    let j = g@.order.index_of(c);
                    assert(j == 0);
                }
                if c == (0i32, 0i32) {
                    assert(g@.order[0] == c);
                }
            }
        }
        g
    }

    /// Make sure a Space exists at `coord`, creating an empty one with the
    /// next id if needed; returns its id.
    fn ensure_space(&mut self, coord: (i32, i32)) -> (id: i32)
        requires
            old(self)@.wf(),
            old(self)@.has(coord) || old(self)@.can_create(),
        ensures
            final(self)@ == old(self)@.ensured(coord),
            id == final(self)@.ids[coord],
    {
        proof {
            lemma_ensured(self@, coord);
        }
        match self.find(coord) {
            Some(i) => {
                proof {
                    lemma_slot(self.slots@, i as int);
                }
                self.slots[i].id
            },
            None => {
                let id = self.next_id;
                let slot = Slot { coord, id, space: Space::new() };
                proof {
                    lemma_slot_push(self.slots@, slot);
                }
                self.slots.push(slot);
                self.next_id = self.next_id + 1;
                id
            },
        }
    }

    /// Make `coord` the current Space.
    fn go_to_space(&mut self, coord: (i32, i32))
        ensures
            final(self)@ == old(self)@.go_to(coord),
    {
        self.current = coord;
    }

    /// Ask for the active column of the Space at `coord` to be scrolled
    /// into view.
    fn push_follow(&mut self, coord: (i32, i32))
        ensures
            final(self)@ == old(self)@.follows(seq![coord]),
    {
        self.follow.push(coord);
        proof {
            assert(self.follow@ =~= old(self).follow@ + seq![coord]);
        }
    }


    // ---- commands -------------------------------------------------------

    /// Move focus one column left/right, clamped at the strip's ends.
    fn focus_column(&mut self, dir: Direction) -> (events: Vec<Event>)
        requires
            old(self)@.wf(),
            old(self)@.command_ok(Command::FocusColumn(dir)),
        ensures
            final(self)@.wf(),
            (final(self)@, events@) == old(self)@.focus_column_result(dir),
    {
        let ghost g0 = self@;
        let horizontal = match dir {
            Direction::Left => true,
            Direction::Right => true,
            _ => false,
        };
        if !horizontal {
            return Vec::new();
        }
        let i = self.current_index();
        let n = self.slots[i].space.strip.columns.len();
        if n == 0 {
            return Vec::new();
        }
        proof {
            assert(g0.cur().wf());
        }
        let a = self.slots[i].space.strip.active;
        let t: usize = match dir {
            Direction::Left => if a == 0 {
                0
            } else {
                a - 1
            },
            _ => if a + 1 < n {
                a + 1
            } else {
                n - 1
            },
        };
        proof {
            assert(t == clamp(a + dir.step().0, 0, n - 1));
        }
        if t == a {
            return Vec::new();
        }
        let ghost old_slots = self.slots@;
        self.slots[i].space.strip.active = t;
        proof {
            lemma_slot_update(old_slots, i as int, self.slots@[i as int]);
            let ns = g0.cur().with_active(t as int);
            assert(self.slots@[i as int].space@ == ns);
            lemma_set_space_wf(g0, g0.current, ns);
            assert(self@ == g0.set_space(g0.current, ns));
            lemma_follows_wf(self@, seq![g0.current]);
        }
        let cur = self.current;
        self.push_follow(cur);
        let f = self.focused_window();
        let mut events = Vec::new();
        events.push(Event::FocusChanged(f));
        proof {
            assert(events@ =~= seq![Event::FocusChanged(self@.focused())]);
        }
        events
    }

    /// Switch the active column between split and tabbed.
    fn toggle_column_layout(&mut self) -> (events: Vec<Event>)
        requires
            old(self)@.wf(),
        ensures
            final(self)@.wf(),
            (final(self)@, events@) == old(self)@.toggle_column_layout_result(),
    {
        let ghost g0 = self@;
        let i = self.current_index();
        let a = self.slots[i].space.strip.active;
        if a < self.slots[i].space.strip.columns.len() {
            let ghost old_slots = self.slots@;
            let ghost cols0 = self.slots@[i as int].space.strip.columns@;
            let l = match self.slots[i].space.strip.columns[a].layout {
                ColumnLayout::Split => ColumnLayout::Tabbed,
                ColumnLayout::Tabbed => ColumnLayout::Split,
            };
            self.slots[i].space.strip.columns[a].layout = l;
            proof {
                lemma_slot_update(old_slots, i as int, self.slots@[i as int]);
                let col = g0.cur().columns[a as int];
                let ns = g0.cur().update_column(a as int, ColumnView { layout: toggled(col.layout), ..col });
                crate::model::lemma_views_update(cols0, a as int, self.slots@[i as int].space.strip.columns@[a as int]);
                assert(self.slots@[i as int].space.strip.columns@ == cols0.update(a as int, self.slots@[i as int].space.strip.columns@[a as int]));
                assert(self.slots@[i as int].space@ == ns);
                assert(g0.cur().wf());
                lemma_update_column_wf(g0.cur(), a as int, ColumnView { layout: toggled(col.layout), ..col });
                lemma_set_space_wf(g0, g0.current, ns);
                assert(self@ == g0.set_space(g0.current, ns));
            }
        }
        let events = Vec::new();
        proof {
            assert(events@ =~= Seq::<Event>::empty());
        }
        events
    }

    /// Leave fullscreen, or make the focused window fullscreen.
    fn toggle_fullscreen(&mut self) -> (events: Vec<Event>)
        requires
            old(self)@.wf(),
        ensures
            final(self)@.wf(),
            (final(self)@, events@) == old(self)@.toggle_fullscreen_result(),
    {
        let ghost g0 = self@;
        let focused = self.focused_window();
        let i = self.current_index();
        let ghost old_slots = self.slots@;
        let changed = match self.slots[i].space.fullscreen {
            Some(_) => {
                self.slots[i].space.fullscreen = None;
                true
            },
            None => match focused {
                Some(id) => {
                    self.slots[i].space.fullscreen = Some(id);
                    true
                },
                None => false,
            },
        };
        if changed {
            proof {
                lemma_slot_update(old_slots, i as int, self.slots@[i as int]);
                let ns = self.slots@[i as int].space@;
                assert(g0.cur().wf());
                lemma_set_space_wf(g0, g0.current, ns);
                assert(self@ == g0.set_space(g0.current, ns));
            }
        }
        let events = Vec::new();
        proof {
            assert(events@ =~= Seq::<Event>::empty());
        }
        events
    }

    /// Ask the focused window to close; the grid itself is untouched.
    fn close_focused(&self) -> (events: Vec<Event>)
        requires
            self@.wf(),
        ensures
            (self@, events@) == self@.close_focused_result(),
    {
        let mut events = Vec::new();
        match self.focused_window() {
            Some(id) => {
                events.push(Event::CloseRequested(id));
            },
            None => {},
        }
        proof {
            assert(events@ =~= self@.close_focused_result().1);
        }
        events
    }

    /// Open Overview on the current Space, or close it.
    fn toggle_overview(&mut self) -> (events: Vec<Event>)
        requires
            old(self)@.wf(),
        ensures
            final(self)@.wf(),
            (final(self)@, events@) == old(self)@.toggle_overview_result(),
    {
        let ghost g0 = self@;
        self.overview.active = !self.overview.active;
        if self.overview.active {
            self.overview.selection = self.current;
        }
        proof {
            lemma_wf_same(g0, self@);
        }
        let events = Vec::new();
        proof {
            assert(events@ =~= Seq::<Event>::empty());
        }
        events
    }

    /// Close Overview, staying where we are.
    fn overview_cancel(&mut self) -> (events: Vec<Event>)
        requires
            old(self)@.wf(),
        ensures
            final(self)@.wf(),
            (final(self)@, events@) == old(self)@.overview_cancel_result(),
    {
        let ghost g0 = self@;
        self.overview.active = false;
        self.overview.selection = self.current;
        proof {
            lemma_wf_same(g0, self@);
        }
        let events = Vec::new();
        proof {
            assert(events@ =~= Seq::<Event>::empty());
        }
        events
    }

    /// Close Overview and go to the selected Space.
    fn overview_confirm(&mut self) -> (events: Vec<Event>)
        requires
            old(self)@.wf(),
        ensures
            final(self)@.wf(),
            (final(self)@, events@) == old(self)@.overview_confirm_result(),
    {
        let ghost g0 = self@;
        if !self.overview.active {
            let events = Vec::new();
            proof {
                assert(events@ =~= Seq::<Event>::empty());
            }
            return events;
        }
        let target = self.overview.selection;
        self.overview.active = false;
        proof {
            lemma_wf_same(g0, self@);
        }
        let mut events = Vec::new();
        if target.0 == self.current.0 && target.1 == self.current.1 {
            proof {
                assert(events@ =~= Seq::<Event>::empty());
            }
            return events;
        }
        proof {
            lemma_go_to_wf(self@, target);
        }
        self.go_to_space(target);
        let id = self.current_space_id();
        let f = self.focused_window();
        events.push(Event::SpaceChanged(id));
        events.push(Event::FocusChanged(f));
        proof {
            assert(events@ =~= seq![Event::SpaceChanged(self@.current_id()), Event::FocusChanged(self@.focused())]);
        }
        events
    }

    /// The coordinate one step from `c` in direction `d`.
    fn step(c: (i32, i32), d: Direction) -> (r: (i32, i32))
        requires
            fits_i32(step_from(c, d)),
        ensures
            r == to_coord(step_from(c, d)),
    {
        let (dc, dr) = d.delta();
        (c.0 + dc, c.1 + dr)
    }

    /// Go to the neighbouring Space, creating it if needed.
    fn switch_space(&mut self, dir: Direction) -> (events: Vec<Event>)
        requires
            old(self)@.wf(),
            old(self)@.command_ok(Command::SwitchSpace(dir)),
        ensures
            final(self)@.wf(),
            (final(self)@, events@) == old(self)@.switch_space_result(dir),
    {
        let ghost g0 = self@;
        let target = Self::step(self.current, dir);
        let is_new = self.find(target).is_none();
        proof {
            lemma_ensured(self@, target);
        }
        self.ensure_space(target);
        proof {
            lemma_go_to_wf(self@, target);
        }
        self.go_to_space(target);
        let mut events = Vec::new();
        let id = self.current_space_id();
        events.push(Event::SpaceChanged(id));
        if is_new {
            events.push(Event::SpacesChanged);
        }
        let f = self.focused_window();
        events.push(Event::FocusChanged(f));
        proof {
            assert(events@ =~= g0.switch_space_result(dir).1);
        }
        events
    }

    /// Move the Overview selection, creating the Space it lands on.
    fn overview_move(&mut self, dir: Direction) -> (events: Vec<Event>)
        requires
            old(self)@.wf(),
            old(self)@.command_ok(Command::OverviewMove(dir)),
        ensures
            final(self)@.wf(),
            (final(self)@, events@) == old(self)@.overview_move_result(dir),
    {
        let ghost g0 = self@;
        let events = Vec::new();
        proof {
            assert(events@ =~= Seq::<Event>::empty());
        }
        if !self.overview.active {
            return events;
        }
        let target = Self::step(self.overview.selection, dir);
        proof {
            lemma_ensured(self@, target);
        }
        self.ensure_space(target);
        let ghost g1 = self@;
        self.overview.selection = target;
        proof {
            lemma_wf_same(g1, self@);
        }
        events
    }


    /// Put column `col` into the neighbouring Space in direction `dir`
    /// (created if needed), at its front or its end, make it active there,
    /// follow it, and go there.
    fn land_column(&mut self, col: Column<W>, dir: Direction, front: bool) -> (events: Vec<Event>)
        requires
            old(self)@.wf(),
            old(self)@.can_step(old(self)@.current, dir),
            col@.wf(),
        ensures
            final(self)@.wf(),
            (final(self)@, events@) == old(self)@.land_column(col@, dir, front),
    {
        let ghost g0 = self@;
        let target = Self::step(self.current, dir);
        let is_new = self.find(target).is_none();
        proof {
            lemma_ensured(self@, target);
        }
        self.ensure_space(target);
        let ghost g2 = self@;
        let j = match self.find(target) {
            Some(j) => j,
            None => {
                proof {
                    assert(false);
                }
                0
            },
        };
        proof {
            lemma_slot(self.slots@, j as int);
            assert(g2.spaces[target].wf());
        }
        let at = if front {
            0
        } else {
            self.slots[j].space.strip.columns.len()
        };
        let ghost old_slots = self.slots@;
        let ghost cv = col@;
        self.slots[j].space.insert_column(at, col);
        proof {
            lemma_slot_update(old_slots, j as int, self.slots@[j as int]);
            let ns = g2.spaces[target].insert_column(at as int, cv);
            lemma_insert_column_wf(g2.spaces[target], at as int, cv);
            lemma_set_space_wf(g2, target, ns);
            assert(self@ == g2.set_space(target, ns));
            lemma_follows_wf(self@, seq![target]);
        }
        self.push_follow(target);
        proof {
            lemma_go_to_wf(self@, target);
        }
        self.go_to_space(target);
        let mut events = Vec::new();
        events.push(Event::SpacesChanged);
        let id = self.current_space_id();
        events.push(Event::SpaceChanged(id));
        if is_new {
            events.push(Event::SpacesChanged);
        }
        let f = self.focused_window();
        events.push(Event::FocusChanged(f));
        proof {
            assert(events@ =~= g0.land_column(cv, dir, front).1);
        }
        events
    }

    /// Swap the active column with its left/right neighbour, or, at the
    /// strip's end, throw it into the neighbouring Space.
    fn move_column(&mut self, dir: Direction) -> (events: Vec<Event>)
        requires
            old(self)@.wf(),
            old(self)@.command_ok(Command::MoveColumn(dir)),
        ensures
            final(self)@.wf(),
            (final(self)@, events@) == old(self)@.move_column_result(dir),
    {
        let ghost g0 = self@;
        let horizontal = match dir {
            Direction::Left => true,
            Direction::Right => true,
            _ => false,
        };
        if !horizontal {
            return Vec::new();
        }
        let i = self.current_index();
        let n = self.slots[i].space.strip.columns.len();
        if n == 0 {
            return Vec::new();
        }
        proof {
            assert(g0.cur().wf());
        }
        let idx = self.slots[i].space.strip.active;
        let right = match dir {
            Direction::Right => true,
            _ => false,
        };
        let inside = if right {
            idx + 1 < n
        } else {
            idx > 0
        };
        let ghost old_slots = self.slots@;
        if inside {
            let t = if right {
                idx + 1
            } else {
                idx - 1
            };
            self.slots[i].space.swap_adjacent(idx, t);
            proof {
                lemma_slot_update(old_slots, i as int, self.slots@[i as int]);
                let s = g0.cur();
                let ns = self.slots@[i as int].space@;
                assert forall|k: int| 0 <= k < ns.columns.len() implies (#[trigger] ns.columns[k]).wf() by {
                    if k == idx as int {
                        assert(ns.columns[k] == s.columns[t as int]);
                    } else if k == t as int {
                        assert(ns.columns[k] == s.columns[idx as int]);
                    } else {
                        assert(ns.columns[k] == s.columns[k]);
                    }
                }
                lemma_set_space_wf(g0, g0.current, ns);
                assert(self@ == g0.set_space(g0.current, ns));
                lemma_follows_wf(self@, seq![g0.current]);
            }
            let cur = self.current;
            self.push_follow(cur);
            let f = self.focused_window();
            let mut events = Vec::new();
            events.push(Event::FocusChanged(f));
            proof {
                assert(events@ =~= seq![Event::FocusChanged(self@.focused())]);
            }
            return events;
        }
        let col = self.slots[i].space.remove_column(idx);
        proof {
            lemma_slot_update(old_slots, i as int, self.slots@[i as int]);
            let ns = g0.cur().remove_column(idx as int);
            lemma_remove_column_wf(g0.cur(), idx as int);
            lemma_set_space_wf(g0, g0.current, ns);
            assert(self@ == g0.set_space(g0.current, ns));
            lemma_follows_wf(self@, seq![g0.current]);
        }
        let cur = self.current;
        self.push_follow(cur);
        self.land_column(col, dir, right)
    }

    /// Move the active column to the end of the neighbouring Space and
    /// follow it there; a fullscreen window that goes with it stops being
    /// fullscreen.
    fn move_window_to_space(&mut self, dir: Direction) -> (events: Vec<Event>)
        requires
            old(self)@.wf(),
            old(self)@.command_ok(Command::MoveWindowToSpace(dir)),
        ensures
            final(self)@.wf(),
            (final(self)@, events@) == old(self)@.move_window_to_space_result(dir),
    {
        let ghost g0 = self@;
        let i = self.current_index();
        let n = self.slots[i].space.strip.columns.len();
        if n == 0 {
            return Vec::new();
        }
        proof {
            assert(g0.cur().wf());
        }
        let idx = self.slots[i].space.strip.active;
        let ghost old_slots = self.slots@;
        let col = self.slots[i].space.remove_column(idx);
        let ghost s1 = g0.cur().remove_column(idx as int);
        proof {
            assert(self.slots@[i as int].space@ == s1);
        }
        match self.slots[i].space.fullscreen {
            Some(f) => {
                let mut k: usize = 0;
                let mut found = false;
                while k < col.windows.len()
                    invariant
                        k <= col.windows@.len(),
                        found == (exists|j: int| 0 <= j < k && col.windows@[j] == f),
                    decreases col.windows@.len() - k,
                {
                    if col.windows[k].0 == f.0 {
                        found = true;
                    }
                    k = k + 1;
                }
                if found {
                    self.slots[i].space.fullscreen = None;
                }
            },
            None => {},
        }
        proof {
            assert(self.slots@ == old_slots.update(i as int, self.slots@[i as int]));
            lemma_slot_update(old_slots, i as int, self.slots@[i as int]);
            let ns = self.slots@[i as int].space@;
            lemma_remove_column_wf(g0.cur(), idx as int);
            assert(ns.wf());
            lemma_set_space_wf(g0, g0.current, ns);
            assert(self@ == g0.set_space(g0.current, ns));
            lemma_follows_wf(self@, seq![g0.current]);
        }
        let cur = self.current;
        self.push_follow(cur);
        self.land_column(col, dir, false)
    }

    /// Focus the window after the focused one, column by column, wrapping
    /// around.
    fn cycle_window(&mut self) -> (events: Vec<Event>)
        requires
            old(self)@.wf(),
        ensures
            final(self)@.wf(),
            (final(self)@, events@) == old(self)@.cycle_window_result(),
    {
        let ghost g0 = self@;
        let current_focus = self.focused_window();
        let i = self.current_index();
        if self.slots[i].space.fullscreen.is_some() {
            return Vec::new();
        }
        let ghost views = g0.cur().columns;
        let mut flat: Vec<(usize, usize)> = Vec::new();
        let mut ci: usize = 0;
        while ci < self.slots[i].space.strip.columns.len()
            invariant
                ci <= views.len(),
                i < self.slots@.len(),
                views == column_views(self.slots@[i as int].space.strip.columns@),
                flat@.len() == flat_positions(views.take(ci as int)).len(),
                forall|k: int|
                    0 <= k < flat@.len() ==> (#[trigger] flat@[k]).0 as int == flat_positions(views.take(ci as int))[k].0
                        && flat@[k].1 as int == flat_positions(views.take(ci as int))[k].1,
            decreases views.len() - ci,
        {
            let nw = self.slots[i].space.strip.columns[ci].windows.len();
            let ghost before = flat@;
            let mut wi: usize = 0;
            while wi < nw
                invariant
                    wi <= nw,
                    ci < views.len(),
                    nw == views[ci as int].windows.len(),
                    flat@.len() == before.len() + wi,
                    forall|k: int| 0 <= k < before.len() ==> flat@[k] == before[k],
                    forall|k: int| before.len() <= k < flat@.len() ==> (#[trigger] flat@[k]).0 == ci && flat@[k].1 == k - before.len(),
                decreases nw - wi,
            {
                flat.push((ci, wi));
                wi = wi + 1;
            }
            proof {
                lemma_flat_positions_step(views, ci as int);
                let fp2 = flat_positions(views.take(ci + 1));
                assert forall|k: int| 0 <= k < flat@.len() implies (#[trigger] flat@[k]).0 as int == fp2[k].0 && flat@[k].1 as int
                    == fp2[k].1 by {
                    if k < before.len() {
                        assert(flat@[k] == before[k]);
                    }
                }
            }
            ci = ci + 1;
        }
        proof {
            assert(views.take(ci as int) =~= views);
            lemma_flat_positions_valid(views);
        }
        let ghost fp = flat_positions(views);
        if flat.len() < 2 {
            return Vec::new();
        }
        // Position of the focused window in the flattened order.
        let mut pos: usize = 0;
        let mut k: usize = 0;
        let mut searching = true;
        let ghost fw = flat_windows(views);
        while k < flat.len() && searching
            invariant
                k <= flat@.len(),
                flat@.len() == fp.len(),
                fw.len() == fp.len(),
                i < self.slots@.len(),
                views == column_views(self.slots@[i as int].space.strip.columns@),
                forall|j: int| 0 <= j < flat@.len() ==> (#[trigger] flat@[j]).0 as int == fp[j].0 && flat@[j].1 as int == fp[j].1,
                forall|j: int|
                    0 <= j < fp.len() ==> 0 <= (#[trigger] fp[j]).0 < views.len() && 0 <= fp[j].1 < views[fp[j].0].windows.len(),
                forall|j: int| 0 <= j < fp.len() ==> #[trigger] fw[j] == views[fp[j].0].windows[fp[j].1],
                searching ==> pos == 0 && forall|j: int| 0 <= j < k ==> Some(#[trigger] fw[j]) != current_focus,
                !searching ==> pos < k && Some(fw[pos as int]) == current_focus && forall|j: int| 0 <= j < pos ==> Some(#[trigger] fw[j]) != current_focus,
            decreases flat@.len() - k,
        {
            let (c, w) = flat[k];
            proof {
                assert(fp[k as int].0 == c as int && fp[k as int].1 == w as int);
            }
            let wid = self.slots[i].space.strip.columns[c].windows[w];
            let hit = match current_focus {
                Some(f) => f.0 == wid.0,
                None => false,
            };
            if hit {
                pos = k;
                searching = false;
            }
            k = k + 1;
        }
        proof {
            let focus = g0.focused();
            assert(focus == current_focus);
            match focus {
                Some(f) => {
                    fw.index_of_first_ensures(f);
                    match fw.index_of_first(f) {
                        Some(kk) => {
                            if searching {
                                assert(Some(fw[kk]) == current_focus);
                            } else {
                                if kk < pos {
                                    assert(Some(fw[kk]) == current_focus);
                                }
                                if pos < kk {
                                    assert(fw[pos as int] == f);
                                }
                            }
                        },
                        None => {
                            if !searching {
                                assert(fw[pos as int] == f);
                            }
                        },
                    }
                },
                None => {},
            }
            assert(pos == g0.focus_position());
        }
        let (nc, nw) = flat[(pos + 1) % flat.len()];
        let ghost old_slots = self.slots@;
        let ghost cols0 = self.slots@[i as int].space.strip.columns@;
        self.slots[i].space.strip.active = nc;
        self.slots[i].space.strip.columns[nc].active = nw;
        proof {
            let s = g0.cur();
            let col = s.columns[nc as int];
            let s2 = s.update_column(nc as int, ColumnView { active: nw as int, ..col }).with_active(nc as int);
            crate::model::lemma_views_update(cols0, nc as int, self.slots@[i as int].space.strip.columns@[nc as int]);
            assert(self.slots@[i as int].space.strip.columns@ == cols0.update(nc as int, self.slots@[i as int].space.strip.columns@[nc as int]));
            assert(self.slots@[i as int].space@ == s2);
            assert(self.slots@ == old_slots.update(i as int, self.slots@[i as int]));
            lemma_slot_update(old_slots, i as int, self.slots@[i as int]);
            assert(s.wf());
            lemma_update_column_wf(s, nc as int, ColumnView { active: nw as int, ..col });
            lemma_set_space_wf(g0, g0.current, s2);
            assert(self@ == g0.set_space(g0.current, s2));
            lemma_follows_wf(self@, seq![g0.current]);
        }
        let cur = self.current;
        self.push_follow(cur);
        let f = self.focused_window();
        let mut events = Vec::new();
        events.push(Event::FocusChanged(f));
        proof {
            assert(events@ =~= seq![Event::FocusChanged(self@.focused())]);
        }
        events
    }

    /// Go to the Space with stable id `id`; an unknown id gets a new Space,
    /// registered under it, at the leftmost free cell of row 0.
    fn focus_space_by_id(&mut self, id: i32) -> (events: Vec<Event>)
        requires
            old(self)@.wf(),
            old(self)@.command_ok(Command::FocusSpaceById(id)),
        ensures
            final(self)@.wf(),
            (final(self)@, events@) == old(self)@.focus_space_by_id_result(id),
    {
        let ghost g0 = self@;
        match self.coord_for_id(id) {
            Some(c) => {
                proof {
                    lemma_coord_of_id(g0, c, id);
                }
                let mut events = Vec::new();
                if c.0 == self.current.0 && c.1 == self.current.1 {
                    proof {
                        assert(events@ =~= Seq::<Event>::empty());
                    }
                    return events;
                }
                proof {
                    lemma_go_to_wf(self@, c);
                }
                self.go_to_space(c);
                let sid = self.current_space_id();
                let f = self.focused_window();
                events.push(Event::SpaceChanged(sid));
                events.push(Event::FocusChanged(f));
                proof {
                    assert(events@ =~= g0.focus_space_by_id_result(id).1);
                }
                events
            },
            None => {
                proof {
                    assert(!g0.has_id(id));
                }
                let mut col: i32 = 0;
                while self.find((col, 0)).is_some()
                    invariant
                        self@ == g0,
                        g0.wf(),
                        0 <= col <= g0.order.len(),
                        forall|k: int| 0 <= k < col ==> #[trigger] g0.has((k as i32, 0i32)),
                    decreases g0.order.len() - col,
                {
                    proof {
                        assert(g0.has((col as int as i32, 0i32)));
                        lemma_row_prefix_bound(g0, col + 1);
                    }
                    col = col + 1;
                }
                let coord = (col, 0i32);
                proof {
                    assert(g0.is_first_free(col as int));
                    lemma_first_free_unique(g0, col as int);
                }
                let slot = Slot { coord, id, space: Space::new() };
                proof {
                    lemma_slot_push(self.slots@, slot);
                }
                self.slots.push(slot);
                if self.next_id < id + 1 {
                    self.next_id = id + 1;
                }
                self.go_to_space(coord);
                proof {
                    let g = g0.focus_space_by_id_result(id).0;
                    assert(self@.order == g.order);
                    assert(self@.spaces == g.spaces);
                    assert(self@.ids == g.ids);
                    assert(self@ == g);
                    let n = self@;
                    assert(!g0.has(coord));
                    assert forall|x: (i32, i32)| #[trigger] n.spaces.dom().contains(x) <==> n.order.contains(x) by {
                        assert(g0.spaces.dom().contains(x) <==> g0.order.contains(x));
                        assert(n.order.contains(x) <==> g0.order.contains(x) || x == coord) by {
                            if g0.order.contains(x) {
                                let j = g0.order.index_of(x);
                                assert(n.order[j] == x);
                            }
                            if n.order.contains(x) && x != coord {
                                let j = n.order.index_of(x);
                                assert(g0.order[j] == x);
                            }
                            if x == coord {
                                assert(n.order[g0.order.len() as int] == x);
                            }
                        }
                    }
                    assert forall|x: (i32, i32)| #[trigger] n.ids.dom().contains(x) <==> n.order.contains(x) by {
                        assert(g0.ids.dom().contains(x) <==> g0.order.contains(x));
                        assert(n.spaces.dom().contains(x) <==> n.order.contains(x));
                    }
                    assert forall|x: (i32, i32)| #[trigger] n.has(x) implies n.spaces[x].wf() && n.ids[x] < n.next_id by {
                        if x != coord {
                            assert(g0.has(x));
                        }
                    }
                    assert forall|c1: (i32, i32), c2: (i32, i32)|
                        #![trigger n.ids[c1], n.ids[c2]]
                        n.has(c1) && n.has(c2) && c1 != c2 implies n.ids[c1] != n.ids[c2] by {
                        if c1 != coord && c2 != coord {
                            assert(g0.has(c1) && g0.has(c2));
                        } else if c1 == coord {
                            assert(g0.has(c2));
                            assert(!(g0.has(c2) && g0.ids[c2] == id));
                        } else {
                            assert(g0.has(c1));
                            assert(!(g0.has(c1) && g0.ids[c1] == id));
                        }
                    }
                }
                let mut events = Vec::new();
                events.push(Event::SpacesChanged);
                let sid = self.current_space_id();
                events.push(Event::SpaceChanged(sid));
                let f = self.focused_window();
                events.push(Event::FocusChanged(f));
                proof {
                    assert(events@ =~= g0.focus_space_by_id_result(id).1);
                }
                events
            },
        }
    }

    /// Apply a user command; returns the events the compositor must act on.
    pub fn apply(&mut self, cmd: Command) -> (events: Vec<Event>)
        requires
            old(self)@.wf(),
            old(self)@.command_ok(cmd),
        ensures
            final(self)@.wf(),
            (final(self)@, events@) == old(self)@.apply_result(cmd),
    {
        match cmd {
            Command::FocusColumn(dir) => self.focus_column(dir),
            Command::MoveColumn(dir) => self.move_column(dir),
            Command::SwitchSpace(dir) => self.switch_space(dir),
            Command::MoveWindowToSpace(dir) => self.move_window_to_space(dir),
            Command::CycleWindow => self.cycle_window(),
            Command::ToggleColumnLayout => self.toggle_column_layout(),
            Command::ToggleFullscreen => self.toggle_fullscreen(),
            Command::CloseFocused => self.close_focused(),
            Command::ToggleOverview => self.toggle_overview(),
            Command::OverviewMove(dir) => self.overview_move(dir),
            Command::OverviewConfirm => self.overview_confirm(),
            Command::OverviewCancel => self.overview_cancel(),
            Command::FocusSpaceById(id) => self.focus_space_by_id(id),
        }
    }


    /// The width of the current Space's active column, if there is one.
    pub fn active_column_width(&self) -> (r: Option<&W>)
        requires
            self@.wf(),
        ensures
            match r {
                Some(w) => self@.cur().has_active_column() && *w == self@.cur().columns[self@.cur().active].width,
                None => !self@.cur().has_active_column(),
            },
    {
        let i = self.current_index();
        let a = self.slots[i].space.strip.active;
        if a < self.slots[i].space.strip.columns.len() {
            Some(&self.slots[i].space.strip.columns[a].width)
        } else {
            None
        }
    }

    /// Give the current Space's active column (if any) the width `width`,
    /// and ask for it to be scrolled into view.
    pub fn set_active_column_width(&mut self, width: W)
        requires
            old(self)@.wf(),
        ensures
            final(self)@.wf(),
            final(self)@ == old(self)@.set_active_width_result(width),
    {
        let ghost g0 = self@;
        let i = self.current_index();
        let a = self.slots[i].space.strip.active;
        if a < self.slots[i].space.strip.columns.len() {
            let ghost old_slots = self.slots@;
            let ghost cols0 = self.slots@[i as int].space.strip.columns@;
            self.slots[i].space.strip.columns[a].width = width;
            proof {
                let s = g0.cur();
                let ns = s.update_column(a as int, ColumnView { width, ..s.columns[a as int] });
                crate::model::lemma_views_update(cols0, a as int, self.slots@[i as int].space.strip.columns@[a as int]);
                assert(self.slots@[i as int].space.strip.columns@ == cols0.update(a as int, self.slots@[i as int].space.strip.columns@[a as int]));
                assert(self.slots@[i as int].space@ == ns);
                assert(self.slots@ == old_slots.update(i as int, self.slots@[i as int]));
                lemma_slot_update(old_slots, i as int, self.slots@[i as int]);
                assert(s.wf());
                lemma_update_column_wf(s, a as int, ColumnView { width, ..s.columns[a as int] });
                lemma_set_space_wf(g0, g0.current, ns);
                assert(self@ == g0.set_space(g0.current, ns));
            }
        }
        proof {
            lemma_follows_wf(self@, seq![g0.current]);
        }
        let cur = self.current;
        self.push_follow(cur);
    }


    /// Whether a Space can be created: an id and room are left.
    fn can_create(&self) -> (b: bool)
        ensures
            b == self@.can_create(),
    {
        self.next_id < i32::MAX && self.slots.len() < (i32::MAX - 1) as usize
    }

    /// Whether a step from `c` in direction `d` stays on `i32` coordinates
    /// and lands on a Space or where one can be created.
    fn can_step(&self, c: (i32, i32), d: Direction) -> (b: bool)
        requires
            self@.wf(),
        ensures
            b == self@.can_step(c, d),
    {
        let (dc, dr) = d.delta();
        let x = c.0 as i64 + dc as i64;
        let y = c.1 as i64 + dr as i64;
        if x < i32::MIN as i64 || x > i32::MAX as i64 || y < i32::MIN as i64 || y > i32::MAX as i64 {
            return false;
        }
        let t = (x as i32, y as i32);
        self.find(t).is_some() || self.can_create()
    }

    /// Whether `cmd` may be applied: see [`GridView::command_ok`].
    pub fn can_apply(&self, cmd: Command) -> (b: bool)
        requires
            self@.wf(),
        ensures
            b == self@.command_ok(cmd),
    {
        let i = self.current_index();
        let n = self.slots[i].space.strip.columns.len();
        let a = self.slots[i].space.strip.active;
        proof {
            assert(self@.cur().columns.len() == n);
        }
        match cmd {
            Command::FocusColumn(d) => match d {
                Direction::Left | Direction::Right => n <= i32::MAX as usize,
                _ => true,
            },
            Command::MoveColumn(d) => match d {
                Direction::Left | Direction::Right => {
                    if n > i32::MAX as usize {
                        return false;
                    }
                    let edge = n > 0 && (match d {
                        Direction::Right => a + 1 >= n,
                        _ => a == 0,
                    });
                    proof {
                        assert(self@.cur().active == a);
                        assert(edge == self@.is_edge_move(d));
                    }
                    !edge || self.can_step(self.current, d)
                },
                _ => true,
            },
            Command::SwitchSpace(d) => self.can_step(self.current, d),
            Command::MoveWindowToSpace(d) => n == 0 || self.can_step(self.current, d),
            Command::OverviewMove(d) => !self.overview.active || self.can_step(self.overview.selection, d),
            Command::FocusSpaceById(id) => {
                let known = self.coord_for_id(id).is_some();
                proof {
                    if !known {
                        assert(!self@.has_id(id));
                    } else {
                        assert(self@.has_id(id));
                    }
                }
                known || (id < i32::MAX && self.slots.len() < (i32::MAX - 1) as usize)
            },
            _ => true,
        }
    }

    // ---- accessors -----------------------------------------------------

    pub fn current_coord(&self) -> (c: (i32, i32))
        ensures
            c == self@.current,
    {
        self.current
    }

    /// The Space at `coord`, if there is one.
    pub fn space(&self, coord: (i32, i32)) -> (r: Option<&Space<W>>)
        requires
            self@.wf(),
        ensures
            match r {
                Some(s) => self@.has(coord) && s@ == self@.spaces[coord],
                None => !self@.has(coord),
            },
    {
        match self.find(coord) {
            Some(i) => {
                proof {
                    lemma_slot(self.slots@, i as int);
                }
                Some(&self.slots[i].space)
            },
            None => None,
        }
    }

    /// The current Space (which always exists).
    pub fn current_space(&self) -> (s: &Space<W>)
        requires
            self@.wf(),
        ensures
            s@ == self@.cur(),
    {
        let i = self.current_index();
        &self.slots[i].space
    }

    /// The window that has keyboard focus: the current Space's fullscreen
    /// window, or else its strip's focused window.
    pub fn focused_window(&self) -> (r: Option<WindowId>)
        requires
            self@.wf(),
        ensures
            r == self@.focused(),
    {
        let space = self.current_space();
        match space.fullscreen {
            Some(f) => Some(f),
            None => space.strip.focused_window(),
        }
    }

    /// The stable id of the Space at `coord`, if there is one.
    pub fn space_id(&self, coord: (i32, i32)) -> (r: Option<i32>)
        requires
            self@.wf(),
        ensures
            r == (if self@.has(coord) { Some(self@.ids[coord]) } else { None::<i32> }),
    {
        match self.find(coord) {
            Some(i) => {
                proof {
                    lemma_slot(self.slots@, i as int);
                }
                Some(self.slots[i].id)
            },
            None => None,
        }
    }

    /// Where the Space with stable id `id` is, if there is one.
    pub fn coord_for_id(&self, id: i32) -> (r: Option<(i32, i32)>)
        requires
            self@.wf(),
        ensures
            match r {
                Some(c) => self@.has(c) && self@.ids[c] == id,
                None => forall|c: (i32, i32)| #[trigger] self@.has(c) ==> self@.ids[c] != id,
            },
    {
        let mut i: usize = 0;
        while i < self.slots.len()
            invariant
                i <= self.slots@.len(),
                self@.wf(),
                forall|j: int| 0 <= j < i ==> self.slots@[j].id != id,
            decreases self.slots@.len() - i,
        {
            if self.slots[i].id == id {
                proof {
                    lemma_slot(self.slots@, i as int);
                }
                return Some(self.slots[i].coord);
            }
            i = i + 1;
        }
        proof {
            assert forall|c: (i32, i32)| #[trigger] self@.has(c) implies self@.ids[c] != id by {
                let order = slots_order(self.slots@);
                let j = order.index_of(c);
                assert(0 <= j < order.len() && order[j] == c);
                lemma_slot(self.slots@, j);
            }
        }
        None
    }

    /// The stable id of the current Space.
    pub fn current_space_id(&self) -> (id: i32)
        requires
            self@.wf(),
        ensures
            id == self@.current_id(),
    {
        let i = self.current_index();
        self.slots[i].id
    }

    /// Coordinates of every Space, in creation order.
    pub fn space_coords(&self) -> (r: Vec<(i32, i32)>)
        ensures
            r@ == self@.order,
    {
        let mut r: Vec<(i32, i32)> = Vec::new();
        let mut i: usize = 0;
        while i < self.slots.len()
            invariant
                i <= self.slots@.len(),
                r@ == slots_order(self.slots@).take(i as int),
            decreases self.slots@.len() - i,
        {
            proof {
                assert(slots_order(self.slots@).take(i + 1) =~= slots_order(self.slots@).take(i as int).push(
                    self.slots@[i as int].coord,
                ));
            }
            r.push(self.slots[i].coord);
            i = i + 1;
        }
        proof {
            assert(slots_order(self.slots@).take(i as int) =~= slots_order(self.slots@));
        }
        r
    }

    /// `(id, window count)` for every Space, in creation order.
    pub fn space_infos(&self) -> (r: Vec<(i32, usize)>)
        requires
            self@.wf(),
            self@.counts_fit(),
        ensures
            r@.len() == self@.order.len(),
            forall|k: int| 0 <= k < r@.len() ==> (#[trigger] r@[k]).0 == self@.infos()[k].0 && r@[k].1 == self@.infos()[k].1,
    {
        let mut r: Vec<(i32, usize)> = Vec::new();
        let mut i: usize = 0;
        while i < self.slots.len()
            invariant
                i <= self.slots@.len(),
                self@.wf(),
                self@.counts_fit(),
                r@.len() == i,
                forall|k: int| 0 <= k < i ==> (#[trigger] r@[k]).0 == self@.infos()[k].0 && r@[k].1 == self@.infos()[k].1,
            decreases self.slots@.len() - i,
        {
            proof {
                lemma_slot(self.slots@, i as int);
                assert(self@.has(self.slots@[i as int].coord));
            }
            let n = self.slots[i].space.window_count();
            r.push((self.slots[i].id, n));
            i = i + 1;
        }
        r
    }

    pub fn overview_active(&self) -> (b: bool)
        ensures
            b == self@.overview_active,
    {
        self.overview.active
    }

    pub fn overview_selection(&self) -> (c: (i32, i32))
        ensures
            c == self@.selection,
    {
        self.overview.selection
    }

    /// Hand over (and forget) the pending scroll-into-view requests.
    pub fn take_follow(&mut self) -> (r: Vec<(i32, i32)>)
        ensures
            r@ == old(self)@.follow,
            final(self)@ == old(self)@.without_follow(),
    {
        let mut r: Vec<(i32, i32)> = Vec::new();
        std::mem::swap(&mut r, &mut self.follow);
        r
    }

    // ---- window lifecycle ---------------------------------------------

    /// Where window `id` is found first, as slot, column and window indices.
    #[verifier::loop_isolation(false)]
    fn locate(&self, id: WindowId) -> (r: Option<(usize, usize, usize)>)
        requires
            self@.wf(),
        ensures
            match r {
                Some((k, ci, wi)) => {
                    &&& k < self.slots@.len()
                    &&& self@.is_first_location(id, k as int, ci as int, wi as int)
                    &&& self.slots@[k as int].coord == self@.order[k as int]
                    &&& ci < self.slots@[k as int].space.strip.columns@.len()
                    &&& wi < self.slots@[k as int].space.strip.columns@[ci as int].windows@.len()
                },
                None => !self@.holds_window(id),
            },
    {
        let mut k: usize = 0;
        while k < self.slots.len()
            invariant
                k <= self.slots@.len(),
                self@.wf(),
                forall|k2: int| 0 <= k2 < k ==> !(#[trigger] self@.spaces[self@.order[k2]]).has_window(id),
            decreases self.slots@.len() - k,
        {
            proof {
                lemma_slot(self.slots@, k as int);
            }
            let cols = &self.slots[k].space.strip.columns;
            let ghost sv = self.slots@[k as int].space@;
            let mut ci: usize = 0;
            while ci < cols.len()
                invariant
                    ci <= cols@.len(),
                    sv.columns == column_views(cols@),
                    forall|c2: int| 0 <= c2 < ci ==> !(#[trigger] sv.columns[c2]).windows.contains(id),
                decreases cols@.len() - ci,
            {
                let ws = &cols[ci].windows;
                let mut wi: usize = 0;
                while wi < ws.len()
                    invariant
                        wi <= ws@.len(),
                        forall|w2: int| 0 <= w2 < wi ==> ws@[w2] != id,
                    decreases ws@.len() - wi,
                {
                    if ws[wi].0 == id.0 {
                        proof {
                            assert(sv.columns[ci as int].windows == ws@);
                            assert(sv.columns[ci as int].windows.contains(id));
                            assert(sv.has_window(id));
                            assert forall|w2: int| 0 <= w2 < wi implies (#[trigger] sv.columns[ci as int].windows[w2]) != id by {
                                assert(ws@[w2] != id);
                            }
                        }
                        return Some((k, ci, wi));
                    }
                    wi = wi + 1;
                }
                proof {
                    assert(sv.columns[ci as int].windows == ws@);
                    assert(!sv.columns[ci as int].windows.contains(id));
                }
                ci = ci + 1;
            }
            proof {
                assert(!sv.has_window(id));
            }
            k = k + 1;
        }
        None
    }

    /// Remove `id` from wherever it lives (the first place, if it were in
    /// several). Returns events for the compositor to refresh focus/bar
    /// state.
    pub fn remove_window(&mut self, id: WindowId) -> (events: Vec<Event>)
        requires
            old(self)@.wf(),
        ensures
            final(self)@.wf(),
            (final(self)@, events@) == old(self)@.remove_window_result(id),
    {
        let loc = self.locate(id);
        match loc {
            None => {
                let events: Vec<Event> = Vec::new();
                proof {
                    assert(events@ =~= Seq::<Event>::empty());
                }
                events
            },
            Some((k, ci, wi)) => {
                let ghost g0 = self@;
                let ghost old_slots = self.slots@;
                proof {
                    lemma_first_location_unique(g0, id, k as int, ci as int, wi as int);
                    lemma_slot(old_slots, k as int);
                }
                let coord = self.slots[k].coord;
                let was_current = coord.0 == self.current.0 && coord.1 == self.current.1;
                self.slots[k].space.remove_window_at(id, ci, wi);
                proof {
                    lemma_slot_update(old_slots, k as int, self.slots@[k as int]);
                    assert(self.slots@ == old_slots.update(k as int, self.slots@[k as int]));
                    let ns = g0.spaces[coord].remove_window_at(id, ci as int, wi as int);
                    assert(g0.has(coord));
                    lemma_remove_window_at_wf(g0.spaces[coord], id, ci as int, wi as int);
                    lemma_set_space_wf(g0, coord, ns);
                    assert(self@ == g0.set_space(coord, ns));
                }
                let mut events: Vec<Event> = Vec::new();
                events.push(Event::SpacesChanged);
                if was_current {
                    proof {
                        lemma_follows_wf(self@, seq![coord]);
                    }
                    self.push_follow(coord);
                    let f = self.focused_window();
                    events.push(Event::FocusChanged(f));
                    proof {
                        assert(events@ =~= seq![Event::SpacesChanged, Event::FocusChanged(self@.focused())]);
                    }
                } else {
                    proof {
                        assert(events@ =~= seq![Event::SpacesChanged]);
                    }
                }
                events
            },
        }
    }

    /// Insert `id` as a new column immediately after the focused one in the
    /// current Space, and focus it.
    pub fn add_window(&mut self, id: WindowId, width: W) -> (events: Vec<Event>)
        requires
            old(self)@.wf(),
        ensures
            final(self)@.wf(),
            (final(self)@, events@) == old(self)@.add_window_result(id, width),
    {
        let i = self.current_index();
        proof {
            assert(self@.cur().wf());
        }
        let at = if self.slots[i].space.strip.columns.is_empty() {
            0
        } else {
            proof {
                let sp = self.slots@[i as int].space;
                assert(column_views(sp.strip.columns@).len() == sp.strip.columns@.len());
                assert(sp.strip.columns.len() == sp.strip.columns@.len());
            }
            self.slots[i].space.strip.active + 1
        };
        let ghost old_slots = self.slots@;
        let ghost g0 = self@;
        self.slots[i].space.insert_column(at, Column::new(id, width));
        proof {
            lemma_slot_update(old_slots, i as int, self.slots@[i as int]);
            assert(self.slots@ == old_slots.update(i as int, self.slots@[i as int]));
            let s = g0.cur().insert_column(at as int, ColumnView::single(id, width));
            assert forall|k: int| 0 <= k < s.columns.len() implies (#[trigger] s.columns[k]).wf() by {
                if k < at {
                    assert(s.columns[k] == g0.cur().columns[k]);
                } else if k > at {
                    assert(s.columns[k] == g0.cur().columns[k - 1]);
                }
            }
            lemma_set_space_wf(g0, g0.current, s);
            assert(self@ == g0.set_space(g0.current, s));
        }
        let cur = self.current;
        proof {
            lemma_follows_wf(self@, seq![cur]);
        }
        self.push_follow(cur);
        let mut events: Vec<Event> = Vec::new();
        events.push(Event::FocusChanged(Some(id)));
        events.push(Event::SpacesChanged);
        proof {
            assert(events@ =~= seq![Event::FocusChanged(Some(id)), Event::SpacesChanged]);
        }
        events
    }
}

} // verus!
