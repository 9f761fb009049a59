//! What each grid command does, stated over [`GridView`].

use vstd::prelude::*;

use crate::grid::{fits_i32, step_from, to_coord, Event, GridView};
use crate::model::{ColumnLayout, ColumnView, Direction, SpaceView, WindowId};

verus! {

/// User-facing actions on the grid, normally produced by keybindings.
///
/// Resizing a column is not among them: it multiplies the column's width,
/// which only the compositor interprets (see [`crate::grid::Grid::set_active_column_width`]).
#[derive(Debug, Clone, Copy, PartialEq, Eq, Structural)]
pub enum Command {
    FocusColumn(Direction),
    MoveColumn(Direction),
    SwitchSpace(Direction),
    MoveWindowToSpace(Direction),
    CycleWindow,
    ToggleColumnLayout,
    ToggleFullscreen,
    CloseFocused,
    ToggleOverview,
    OverviewMove(Direction),
    OverviewConfirm,
    OverviewCancel,
    FocusSpaceById(i32),
}

/// `x` clamped into `lo..=hi`.
pub open spec fn clamp(x: int, lo: int, hi: int) -> int {
    if x < lo {
        lo
    } else if x > hi {
        hi
    } else {
        x
    }
}

/// The other layout.
pub open spec fn toggled(l: ColumnLayout) -> ColumnLayout {
    match l {
        ColumnLayout::Split => ColumnLayout::Tabbed,
        ColumnLayout::Tabbed => ColumnLayout::Split,
    }
}

/// Every `(column, window)` position of a strip, column by column.
pub open spec fn flat_positions<W>(cols: Seq<ColumnView<W>>) -> Seq<(int, int)>
    decreases cols.len(),
{
    if cols.len() == 0 {
        Seq::empty()
    } else {
        flat_positions(cols.drop_last()) + Seq::new(
            cols.last().windows.len(),
            |wi: int| ((cols.len() - 1) as int, wi),
        )
    }
}

/// The windows of a strip in the order of [`flat_positions`].
pub open spec fn flat_windows<W>(cols: Seq<ColumnView<W>>) -> Seq<WindowId> {
    let fp = flat_positions(cols);
    Seq::new(fp.len(), |k: int| cols[fp[k].0].windows[fp[k].1])
}

impl<W> GridView<W> {
    /// The inputs on which the commands stay within the machine's
    /// integers: the strip's column count is an `i32` when stepping through
    /// it, a neighbouring coordinate is an `i32` pair, and a Space that gets
    /// created finds an id and room.
    pub open spec fn command_ok(self, cmd: Command) -> bool {
        match cmd {
            Command::FocusColumn(d) => d.is_horizontal() ==> self.cur().columns.len() <= i32::MAX,
            Command::MoveColumn(d) => d.is_horizontal() ==> {
                &&& self.cur().columns.len() <= i32::MAX
                &&& self.is_edge_move(d) ==> self.can_step(self.current, d)
            },
            Command::SwitchSpace(d) => self.can_step(self.current, d),
            Command::MoveWindowToSpace(d) => self.cur().columns.len() > 0 ==> self.can_step(self.current, d),
            Command::OverviewMove(d) => self.overview_active ==> self.can_step(self.selection, d),
            Command::FocusSpaceById(id) => !self.has_id(id) ==> id < i32::MAX && self.order.len() + 1 < i32::MAX,
            _ => true,
        }
    }

    /// A step from `c` in direction `d` stays on `i32` coordinates and
    /// lands on a Space or where one can be created.
    pub open spec fn can_step(self, c: (i32, i32), d: Direction) -> bool {
        &&& fits_i32(step_from(c, d))
        &&& (self.has(to_coord(step_from(c, d))) || self.can_create())
    }

    /// Moving the active column in direction `d` leaves the strip.
    pub open spec fn is_edge_move(self, d: Direction) -> bool {
        let t = self.cur().active + d.step().0;
        self.cur().columns.len() > 0 && !(0 <= t < self.cur().columns.len())
    }

    /// Some Space has stable id `id`.
    pub open spec fn has_id(self, id: i32) -> bool {
        exists|c: (i32, i32)| self.has(c) && self.ids[c] == id
    }

    /// The Space with stable id `id` (given one has it).
    pub open spec fn coord_of_id(self, id: i32) -> (i32, i32) {
        choose|c: (i32, i32)| self.has(c) && self.ids[c] == id
    }

    /// `c` is the leftmost free cell of row 0 at or right of column 0.
    pub open spec fn is_first_free(self, c: int) -> bool {
        &&& 0 <= c <= i32::MAX
        &&& !self.has((c as i32, 0i32))
        &&& forall|k: int| 0 <= k < c ==> #[trigger] self.has((k as i32, 0i32))
    }

    pub open spec fn first_free(self) -> int {
        choose|c: int| self.is_first_free(c)
    }

    /// This grid with the current Space replaced by `s`, following `s`'s
    /// active column.
    pub open spec fn set_cur_follow(self, s: SpaceView<W>) -> GridView<W> {
        self.set_space(self.current, s).follows(seq![self.current])
    }

    /// Put column `col` into the neighbouring Space in direction `d`
    /// (created if needed), at its front or its end, make it active there,
    /// follow it, and go there.
    pub open spec fn land_column(self, col: ColumnView<W>, d: Direction, front: bool) -> (GridView<W>, Seq<Event>) {
        let tc = to_coord(step_from(self.current, d));
        let g2 = self.ensured(tc);
        let ts = g2.spaces[tc];
        let at = if front {
            0
        } else {
            ts.columns.len() as int
        };
        let g3 = g2.set_space(tc, ts.insert_column(at, col)).follows(seq![tc]).go_to(tc);
        let created = if self.has(tc) {
            Seq::empty()
        } else {
            seq![Event::SpacesChanged]
        };
        (g3, seq![Event::SpacesChanged, Event::SpaceChanged(g3.current_id())] + created + seq![Event::FocusChanged(g3.focused())])
    }

    /// After the current Space became `src` (and follows its active
    /// column): carry `col` to the neighbouring Space, see [`Self::land_column`].
    pub open spec fn throw_column(self, src: SpaceView<W>, col: ColumnView<W>, d: Direction, front: bool) -> (
        GridView<W>,
        Seq<Event>,
    ) {
        self.set_cur_follow(src).land_column(col, d, front)
    }

    /// Moving focus one column left/right, clamped at the strip's ends.
    pub open spec fn focus_column_result(self, d: Direction) -> (GridView<W>, Seq<Event>) {
        let s = self.cur();
        if !d.is_horizontal() || s.columns.len() == 0 {
            (self, Seq::empty())
        } else {
            let t = clamp(s.active + d.step().0, 0, s.columns.len() - 1);
            if t == s.active {
                (self, Seq::empty())
            } else {
                let g = self.set_cur_follow(s.with_active(t));
                (g, seq![Event::FocusChanged(g.focused())])
            }
        }
    }

    /// Swapping the active column with its left/right neighbour, or, at the
    /// strip's end, throwing it into the neighbouring Space (landing on the
    /// side closest to home).
    pub open spec fn move_column_result(self, d: Direction) -> (GridView<W>, Seq<Event>) {
        let s = self.cur();
        if !d.is_horizontal() || s.columns.len() == 0 {
            (self, Seq::empty())
        } else {
            let i = s.active;
            let t = i + d.step().0;
            if 0 <= t < s.columns.len() {
                let swapped = SpaceView {
                    columns: s.columns.update(i, s.columns[t]).update(t, s.columns[i]),
                    active: t,
                    ..s
                };
                let g = self.set_cur_follow(swapped);
                (g, seq![Event::FocusChanged(g.focused())])
            } else {
                self.throw_column(s.remove_column(i), s.columns[i], d, d == Direction::Right)
            }
        }
    }

    /// Going to the neighbouring Space, creating it if needed.
    pub open spec fn switch_space_result(self, d: Direction) -> (GridView<W>, Seq<Event>) {
        let tc = to_coord(step_from(self.current, d));
        let g = self.ensured(tc).go_to(tc);
        let created = if self.has(tc) {
            Seq::empty()
        } else {
            seq![Event::SpacesChanged]
        };
        (g, seq![Event::SpaceChanged(g.current_id())] + created + seq![Event::FocusChanged(g.focused())])
    }

    /// Moving the active column to the end of the neighbouring Space and
    /// following it there; a fullscreen window that goes with it stops
    /// being fullscreen.
    pub open spec fn move_window_to_space_result(self, d: Direction) -> (GridView<W>, Seq<Event>) {
        let s = self.cur();
        if s.columns.len() == 0 {
            (self, Seq::empty())
        } else {
            let col = s.columns[s.active];
            let s1 = s.remove_column(s.active);
            let s2 = match s1.fullscreen {
                Some(f) => if col.windows.contains(f) {
                    SpaceView { fullscreen: None, ..s1 }
                } else {
                    s1
                },
                None => s1,
            };
            self.throw_column(s2, col, d, false)
        }
    }

    /// Where the focused window sits in [`flat_windows`] (its first
    /// occurrence), or `0` if it is not there.
    pub open spec fn focus_position(self) -> int {
        let fw = flat_windows(self.cur().columns);
        match self.focused() {
            Some(f) => match fw.index_of_first(f) {
                Some(k) => k,
                None => 0,
            },
            None => 0,
        }
    }

    /// Focusing the window after the focused one, column by column,
    /// wrapping around; nothing while a window is fullscreen or with fewer
    /// than two windows.
    pub open spec fn cycle_window_result(self) -> (GridView<W>, Seq<Event>) {
        let s = self.cur();
        let fp = flat_positions(s.columns);
        if s.fullscreen.is_some() || fp.len() < 2 {
            (self, Seq::empty())
        } else {
            let (nc, nw) = fp[(self.focus_position() + 1) % (fp.len() as int)];
            let col = s.columns[nc];
            let s2 = s.update_column(nc, ColumnView { active: nw, ..col }).with_active(nc);
            let g = self.set_cur_follow(s2);
            (g, seq![Event::FocusChanged(g.focused())])
        }
    }

    /// Switching the active column between split and tabbed.
    pub open spec fn toggle_column_layout_result(self) -> (GridView<W>, Seq<Event>) {
        let s = self.cur();
        if s.has_active_column() {
            let col = s.columns[s.active];
            (self.set_space(self.current, s.update_column(s.active, ColumnView { layout: toggled(col.layout), ..col })), Seq::empty())
        } else {
            (self, Seq::empty())
        }
    }

    /// Leaving fullscreen, or making the focused window fullscreen.
    pub open spec fn toggle_fullscreen_result(self) -> (GridView<W>, Seq<Event>) {
        let s = self.cur();
        match s.fullscreen {
            Some(_) => (self.set_space(self.current, SpaceView { fullscreen: None, ..s }), Seq::empty()),
            None => match self.focused() {
                Some(id) => (self.set_space(self.current, SpaceView { fullscreen: Some(id), ..s }), Seq::empty()),
                None => (self, Seq::empty()),
            },
        }
    }

    /// Asking the focused window to close, without touching the grid.
    pub open spec fn close_focused_result(self) -> (GridView<W>, Seq<Event>) {
        match self.focused() {
            Some(id) => (self, seq![Event::CloseRequested(id)]),
            None => (self, Seq::empty()),
        }
    }

    /// Opening Overview (selecting the current Space) or closing it.
    pub open spec fn toggle_overview_result(self) -> (GridView<W>, Seq<Event>) {
        if self.overview_active {
            (GridView { overview_active: false, ..self }, Seq::empty())
        } else {
            (GridView { overview_active: true, selection: self.current, ..self }, Seq::empty())
        }
    }

    /// Moving the Overview selection, creating the Space it lands on.
    pub open spec fn overview_move_result(self, d: Direction) -> (GridView<W>, Seq<Event>) {
        if !self.overview_active {
            (self, Seq::empty())
        } else {
            let tc = to_coord(step_from(self.selection, d));
            (GridView { selection: tc, ..self.ensured(tc) }, Seq::empty())
        }
    }

    /// Closing Overview and going to the selected Space.
    pub open spec fn overview_confirm_result(self) -> (GridView<W>, Seq<Event>) {
        if !self.overview_active {
            (self, Seq::empty())
        } else {
            let g = GridView { overview_active: false, ..self };
            if self.selection == self.current {
                (g, Seq::empty())
            } else {
                let g2 = g.go_to(self.selection);
                (g2, seq![Event::SpaceChanged(g2.current_id()), Event::FocusChanged(g2.focused())])
            }
        }
    }

    /// Closing Overview, staying where we are.
    pub open spec fn overview_cancel_result(self) -> (GridView<W>, Seq<Event>) {
        (GridView { overview_active: false, selection: self.current, ..self }, Seq::empty())
    }

    /// Going to the Space with stable id `id`; an unknown id gets a new
    /// Space, registered under it, at the leftmost free cell of row 0.
    pub open spec fn focus_space_by_id_result(self, id: i32) -> (GridView<W>, Seq<Event>) {
        if self.has_id(id) {
            let c = self.coord_of_id(id);
            if c == self.current {
                (self, Seq::empty())
            } else {
                let g = self.go_to(c);
                (g, seq![Event::SpaceChanged(g.current_id()), Event::FocusChanged(g.focused())])
            }
        } else {
            let tc = (self.first_free() as i32, 0i32);
            let g = GridView {
                order: self.order.push(tc),
                spaces: self.spaces.insert(tc, SpaceView::empty()),
                ids: self.ids.insert(tc, id),
                next_id: if self.next_id >= id + 1 {
                    self.next_id
                } else {
                    id + 1
                },
                current: tc,
                ..self
            };
            (g, seq![Event::SpacesChanged, Event::SpaceChanged(g.current_id()), Event::FocusChanged(g.focused())])
        }
    }

    /// What applying `cmd` does to the grid, and the events it reports.
    pub open spec fn apply_result(self, cmd: Command) -> (GridView<W>, Seq<Event>) {
        match cmd {
            Command::FocusColumn(d) => self.focus_column_result(d),
            Command::MoveColumn(d) => self.move_column_result(d),
            Command::SwitchSpace(d) => self.switch_space_result(d),
            Command::MoveWindowToSpace(d) => self.move_window_to_space_result(d),
            Command::CycleWindow => self.cycle_window_result(),
            Command::ToggleColumnLayout => self.toggle_column_layout_result(),
            Command::ToggleFullscreen => self.toggle_fullscreen_result(),
            Command::CloseFocused => self.close_focused_result(),
            Command::ToggleOverview => self.toggle_overview_result(),
            Command::OverviewMove(d) => self.overview_move_result(d),
            Command::OverviewConfirm => self.overview_confirm_result(),
            Command::OverviewCancel => self.overview_cancel_result(),
            Command::FocusSpaceById(id) => self.focus_space_by_id_result(id),
        }
    }
}

} // verus!
