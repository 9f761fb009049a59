//! Identifiers and the value types of the Spaces model: windows, columns,
//! strips and Spaces, with the mathematical view of each.

use vstd::prelude::*;
use vstd::multiset::Multiset;

verus! {

/// Opaque identifier for a mapped window/surface, allocated by the
/// compositor via [`IdGen`].
#[derive(Debug, Clone, Copy, PartialEq, Eq, Hash, PartialOrd, Ord, Structural)]
pub struct WindowId(pub u64);

/// Monotonic [`WindowId`] allocator.
#[derive(Debug, Clone, Copy)]
pub struct IdGen(u64);

impl IdGen {
    /// The last id handed out (`0` before the first call to `next`).
    pub closed spec fn last(self) -> u64 {
        self.0
    }

    /// A fresh allocator; its first id is `WindowId(1)`.
    pub fn new() -> (g: IdGen)
        ensures
            g.last() == 0,
    {
        IdGen(0)
    }

    /// Whether [`IdGen::next`] has an id left to give.
    pub fn can_advance(&self) -> (b: bool)
        ensures
            b == (self.last() < u64::MAX),
    {
        self.0 < u64::MAX
    }

    /// Hand out the next id: one more than the previous one.
    pub fn next(&mut self) -> (id: WindowId)
        requires
            old(self).last() < u64::MAX,
        ensures
            final(self).last() == old(self).last() + 1,
            id.0 == final(self).last(),
    {
        self.0 = self.0 + 1;
        WindowId(self.0)
    }
}

impl Default for IdGen {
    fn default() -> (g: IdGen)
        ensures
            g.last() == 0,
    {
        IdGen(0)
    }
}

/// How the windows inside a [`Column`] share its space.
#[derive(Debug, Clone, Copy, PartialEq, Eq, Structural)]
pub enum ColumnLayout {
    /// Stacked vertically, each visible at once.
    Split,
    /// Only the active window is shown, full-column.
    Tabbed,
}

/// A grid-relative direction.
#[derive(Debug, Clone, Copy, PartialEq, Eq, Structural)]
pub enum Direction {
    Left,
    Right,
    Up,
    Down,
}

impl Direction {
    /// The `(column, row)` step this direction takes through the grid.
    pub open spec fn step(self) -> (int, int) {
        match self {
            Direction::Left => (-1, 0),
            Direction::Right => (1, 0),
            Direction::Up => (0, -1),
            Direction::Down => (0, 1),
        }
    }

    /// `Left` or `Right`.
    pub open spec fn is_horizontal(self) -> bool {
        self == Direction::Left || self == Direction::Right
    }

    /// The `(column, row)` step this direction takes through the grid.
    pub fn delta(self) -> (d: (i32, i32))
        ensures
            d.0 == self.step().0,
            d.1 == self.step().1,
    {
        match self {
            Direction::Left => (-1, 0),
            Direction::Right => (1, 0),
            Direction::Up => (0, -1),
            Direction::Down => (0, 1),
        }
    }
}

/// A vertical slot in a [`Strip`], holding one or more stacked windows.
///
/// `width` is carried along with the column wherever it moves; the model
/// never interprets it (the compositor stores its width fraction there).
pub struct Column<W> {
    pub windows: Vec<WindowId>,
    pub active: usize,
    pub layout: ColumnLayout,
    pub width: W,
}

/// The mathematical value of a [`Column`].
pub struct ColumnView<W> {
    pub windows: Seq<WindowId>,
    pub active: int,
    pub layout: ColumnLayout,
    pub width: W,
}

impl<W> View for Column<W> {
    type V = ColumnView<W>;

    open spec fn view(&self) -> ColumnView<W> {
        ColumnView { windows: self.windows@, active: self.active as int, layout: self.layout, width: self.width }
    }
}

impl<W> ColumnView<W> {
    /// A column holding just `window`, split layout.
    pub open spec fn single(window: WindowId, width: W) -> ColumnView<W> {
        ColumnView { windows: seq![window], active: 0, layout: ColumnLayout::Split, width }
    }

    /// Columns of a Space always hold at least one window and point at one
    /// of them.
    pub open spec fn wf(self) -> bool {
        &&& self.windows.len() > 0
        &&& 0 <= self.active < self.windows.len()
    }

    pub open spec fn active_window(self) -> Option<WindowId> {
        if 0 <= self.active < self.windows.len() {
            Some(self.windows[self.active])
        } else {
            None
        }
    }
}

impl<W> Column<W> {
    /// A column holding just `window`.
    pub fn new(window: WindowId, width: W) -> (c: Column<W>)
        ensures
            c@ == ColumnView::single(window, width),
    {
        let mut windows = Vec::new();
        windows.push(window);
        proof {
            assert(windows@ =~= seq![window]);
        }
        Column { windows, active: 0, layout: ColumnLayout::Split, width }
    }

    /// The window this column shows in front, if `active` is in range.
    pub fn active_window(&self) -> (r: Option<WindowId>)
        ensures
            r == self@.active_window(),
    {
        if self.active < self.windows.len() {
            Some(self.windows[self.active])
        } else {
            None
        }
    }
}

/// A horizontally-scrollable sequence of [`Column`]s: one Space's content.
pub struct Strip<W> {
    pub columns: Vec<Column<W>>,
    pub active: usize,
}

/// One cell of the Spaces grid.
pub struct Space<W> {
    pub strip: Strip<W>,
    pub fullscreen: Option<WindowId>,
}

/// The mathematical value of a [`Space`].
pub struct SpaceView<W> {
    pub columns: Seq<ColumnView<W>>,
    pub active: int,
    pub fullscreen: Option<WindowId>,
}

/// The views of a sequence of columns.
pub open spec fn column_views<W>(cols: Seq<Column<W>>) -> Seq<ColumnView<W>> {
    cols.map_values(|c: Column<W>| c@)
}

/// Number of windows held by a sequence of columns.
pub open spec fn count_windows<W>(cols: Seq<ColumnView<W>>) -> nat
    decreases cols.len(),
{
    if cols.len() == 0 {
        0
    } else {
        count_windows(cols.drop_last()) + cols.last().windows.len()
    }
}

/// The windows held by a sequence of columns, counted with multiplicity.
pub open spec fn window_bag<W>(cols: Seq<ColumnView<W>>) -> Multiset<WindowId>
    decreases cols.len(),
{
    if cols.len() == 0 {
        Multiset::empty()
    } else {
        window_bag(cols.drop_last()).add(cols.last().windows.to_multiset())
    }
}

impl<W> View for Space<W> {
    type V = SpaceView<W>;

    open spec fn view(&self) -> SpaceView<W> {
        SpaceView {
            columns: column_views(self.strip.columns@),
            active: self.strip.active as int,
            fullscreen: self.fullscreen,
        }
    }
}

impl<W> SpaceView<W> {
    /// A Space with no columns.
    pub open spec fn empty() -> SpaceView<W> {
        SpaceView { columns: Seq::empty(), active: 0, fullscreen: None }
    }

    /// The Space's invariant: `active` indexes a column (or is `0` when
    /// there is none), and every column is well-formed.
    pub open spec fn wf(self) -> bool {
        &&& self.columns.len() > 0 ==> 0 <= self.active < self.columns.len()
        &&& self.columns.len() == 0 ==> self.active == 0
        &&& forall|i: int| 0 <= i < self.columns.len() ==> (#[trigger] self.columns[i]).wf()
    }

    pub open spec fn has_active_column(self) -> bool {
        0 <= self.active < self.columns.len()
    }

    /// The active column's active window.
    pub open spec fn strip_focused(self) -> Option<WindowId> {
        if self.has_active_column() {
            self.columns[self.active].active_window()
        } else {
            None
        }
    }

    /// The window that has keyboard focus in this Space: the fullscreen
    /// window if there is one, otherwise the strip's focused window.
    pub open spec fn focused(self) -> Option<WindowId> {
        match self.fullscreen {
            Some(f) => Some(f),
            None => self.strip_focused(),
        }
    }

    /// `active` pulled back onto the last column if it ran past the end.
    pub open spec fn clamped(self) -> SpaceView<W> {
        if self.columns.len() > 0 && self.active >= self.columns.len() {
            SpaceView { active: self.columns.len() - 1, ..self }
        } else {
            self
        }
    }

    /// This Space without its `i`-th column.
    pub open spec fn remove_column(self, i: int) -> SpaceView<W> {
        SpaceView { columns: self.columns.remove(i), ..self }.clamped()
    }

    /// This Space with `c` inserted as its `i`-th column, which becomes
    /// the active one.
    pub open spec fn insert_column(self, i: int, c: ColumnView<W>) -> SpaceView<W> {
        SpaceView { columns: self.columns.insert(i, c), active: i, ..self }
    }

    /// This Space with the `i`-th column replaced by `c`.
    pub open spec fn update_column(self, i: int, c: ColumnView<W>) -> SpaceView<W> {
        SpaceView { columns: self.columns.update(i, c), ..self }
    }

    /// This Space with column `i` active.
    pub open spec fn with_active(self, i: int) -> SpaceView<W> {
        SpaceView { active: i, ..self }
    }

    /// Whether some column holds `id`.
    pub open spec fn has_window(self, id: WindowId) -> bool {
        exists|ci: int| 0 <= ci < self.columns.len() && (#[trigger] self.columns[ci]).windows.contains(id)
    }

    /// This Space without the `wi`-th window of its `ci`-th column (window
    /// `id`): the fullscreen mark goes if it was on `id`, the column's
    /// `active` stays on a window, and a column left empty goes away.
    pub open spec fn remove_window_at(self, id: WindowId, ci: int, wi: int) -> SpaceView<W> {
        let s1 = if self.fullscreen == Some(id) {
            SpaceView { fullscreen: None, ..self }
        } else {
            self
        };
        let col = s1.columns[ci];
        let ws = col.windows.remove(wi);
        if ws.len() == 0 {
            s1.remove_column(ci)
        } else {
            s1.update_column(
                ci,
                ColumnView { windows: ws, active: if col.active >= ws.len() { ws.len() - 1 } else { col.active }, ..col },
            )
        }
    }

    pub open spec fn window_count(self) -> nat {
        count_windows(self.columns)
    }

    pub open spec fn windows(self) -> Multiset<WindowId> {
        window_bag(self.columns)
    }
}

impl<W> Strip<W> {
    /// The column at `active`, if any.
    pub fn active_column(&self) -> (r: Option<&Column<W>>)
        ensures
            match r {
                Some(c) => self.active < self.columns@.len() && c == &self.columns@[self.active as int],
                None => self.active >= self.columns@.len(),
            },
    {
        if self.active < self.columns.len() {
            Some(&self.columns[self.active])
        } else {
            None
        }
    }

    /// The active column's active window.
    pub fn focused_window(&self) -> (r: Option<WindowId>)
        ensures
            r == (SpaceView { columns: column_views(self.columns@), active: self.active as int, fullscreen: None }).strip_focused(),
    {
        match self.active_column() {
            Some(c) => c.active_window(),
            None => None,
        }
    }
}

impl<W> Space<W> {
    /// An empty Space.
    pub fn new() -> (s: Space<W>)
        ensures
            s@ == SpaceView::<W>::empty(),
    {
        let s = Space { strip: Strip { columns: Vec::new(), active: 0 }, fullscreen: None };
        proof {
            assert(column_views(s.strip.columns@) =~= Seq::<ColumnView<W>>::empty());
        }
        s
    }

    /// Insert `c` as the `i`-th column and make it active.
    pub fn insert_column(&mut self, i: usize, c: Column<W>)
        requires
            i <= old(self).strip.columns@.len(),
        ensures
            final(self)@ == old(self)@.insert_column(i as int, c@),
    {
        self.strip.columns.insert(i, c);
        self.strip.active = i;
        proof {
            assert(column_views(self.strip.columns@) =~= column_views(old(self).strip.columns@).insert(i as int, c@));
        }
    }

    /// Take out the `i`-th column, keeping `active` on a column.
    pub fn remove_column(&mut self, i: usize) -> (c: Column<W>)
        requires
            i < old(self).strip.columns@.len(),
        ensures
            c@ == old(self)@.columns[i as int],
            final(self)@ == old(self)@.remove_column(i as int),
    {
        let c = self.strip.columns.remove(i);
        if !self.strip.columns.is_empty() && self.strip.active >= self.strip.columns.len() {
            self.strip.active = self.strip.columns.len() - 1;
        }
        proof {
            assert(column_views(self.strip.columns@) =~= column_views(old(self).strip.columns@).remove(i as int));
        }
        c
    }

    /// Remove window `id`, the `wi`-th window of the `ci`-th column.
    pub fn remove_window_at(&mut self, id: WindowId, ci: usize, wi: usize)
        requires
            ci < old(self).strip.columns@.len(),
            wi < old(self).strip.columns@[ci as int].windows@.len(),
        ensures
            final(self)@ == old(self)@.remove_window_at(id, ci as int, wi as int),
    {
        match self.fullscreen {
            Some(f) => {
                if f.0 == id.0 {
                    self.fullscreen = None;
                }
            },
            None => {},
        }
        let ghost s1 = self@;
        let ghost cols0 = self.strip.columns@;
        let now_empty = {
            let col = &mut self.strip.columns[ci];
            col.windows.remove(wi);
            if !col.windows.is_empty() && col.active >= col.windows.len() {
                col.active = col.windows.len() - 1;
            }
            col.windows.is_empty()
        };
        proof {
            lemma_views_update(cols0, ci as int, self.strip.columns@[ci as int]);
            assert(self.strip.columns@ == cols0.update(ci as int, self.strip.columns@[ci as int]));
        }
        if now_empty {
            self.remove_column(ci);
            proof {
                assert(column_views(cols0.update(ci as int, old(self).strip.columns@[ci as int])).remove(ci as int)
                    =~= s1.columns.remove(ci as int));
                assert(self@.columns =~= s1.columns.remove(ci as int));
            }
        }
    }

    /// Swap the `i`-th column with its neighbour `t` and make `t` active.
    pub fn swap_adjacent(&mut self, i: usize, t: usize)
        requires
            i < old(self).strip.columns@.len(),
            t < old(self).strip.columns@.len(),
            t == i + 1 || i == t + 1,
        ensures
            final(self)@ == (SpaceView {
                columns: old(self)@.columns.update(i as int, old(self)@.columns[t as int]).update(
                    t as int,
                    old(self)@.columns[i as int],
                ),
                active: t as int,
                ..old(self)@
            }),
    {
        let c = self.strip.columns.remove(i);
        self.strip.columns.insert(t, c);
        self.strip.active = t;
        proof {
            let o = column_views(old(self).strip.columns@);
            assert(column_views(self.strip.columns@) =~= o.update(i as int, o[t as int]).update(t as int, o[i as int]));
        }
    }

    /// Number of windows in this Space, over all its columns.
    pub fn window_count(&self) -> (n: usize)
        requires
            self@.window_count() <= usize::MAX,
        ensures
            n == self@.window_count(),
    {
        let cols = &self.strip.columns;
        let ghost views = column_views(cols@);
        let mut n: usize = 0;
        let mut i: usize = 0;
        while i < cols.len()
            invariant
                i <= cols@.len(),
                views == column_views(cols@),
                views == self@.columns,
                count_windows(views) <= usize::MAX,
                n == count_windows(views.take(i as int)),
            decreases cols@.len() - i,
        {
            proof {
                assert(views.take(i + 1).drop_last() =~= views.take(i as int));
                lemma_count_prefix_le(views, i + 1);
            }
            n = n + cols[i].windows.len();
            i = i + 1;
        }
        proof {
            assert(views.take(i as int) =~= views);
        }
        n
    }
}

/// Inserting a well-formed column keeps a Space well-formed.
pub proof fn lemma_insert_column_wf<W>(s: SpaceView<W>, i: int, c: ColumnView<W>)
    requires
        s.wf(),
        c.wf(),
        0 <= i <= s.columns.len(),
    ensures
        s.insert_column(i, c).wf(),
{
    let r = s.insert_column(i, c);
    assert forall|k: int| 0 <= k < r.columns.len() implies (#[trigger] r.columns[k]).wf() by {
        if k < i {
            assert(r.columns[k] == s.columns[k]);
        } else if k > i {
            assert(r.columns[k] == s.columns[k - 1]);
        }
    }
}

/// Removing a column keeps a Space well-formed.
pub proof fn lemma_remove_column_wf<W>(s: SpaceView<W>, i: int)
    requires
        s.wf(),
        0 <= i < s.columns.len(),
    ensures
        s.remove_column(i).wf(),
{
    let r = s.remove_column(i);
    assert forall|k: int| 0 <= k < r.columns.len() implies (#[trigger] r.columns[k]).wf() by {
        if k < i {
            assert(r.columns[k] == s.columns[k]);
        } else {
            assert(r.columns[k] == s.columns[k + 1]);
        }
    }
}

/// Replacing a column by a well-formed one keeps a Space well-formed.
pub proof fn lemma_update_column_wf<W>(s: SpaceView<W>, i: int, c: ColumnView<W>)
    requires
        s.wf(),
        c.wf(),
        0 <= i < s.columns.len(),
    ensures
        s.update_column(i, c).wf(),
{
    let r = s.update_column(i, c);
    assert forall|k: int| 0 <= k < r.columns.len() implies (#[trigger] r.columns[k]).wf() by {
        if k != i {
            assert(r.columns[k] == s.columns[k]);
        }
    }
}

/// The views of columns after an update at `i`.
pub proof fn lemma_views_update<W>(cols: Seq<Column<W>>, i: int, c: Column<W>)
    requires
        0 <= i < cols.len(),
    ensures
        column_views(cols.update(i, c)) == column_views(cols).update(i, c@),
{
    assert(column_views(cols.update(i, c)) =~= column_views(cols).update(i, c@));
}

/// Counting the windows of a prefix never gives more than the whole.
pub proof fn lemma_count_prefix_le<W>(cols: Seq<ColumnView<W>>, k: int)
    requires
        0 <= k <= cols.len(),
    ensures
        count_windows(cols.take(k)) <= count_windows(cols),
    decreases cols.len(),
{
    if k < cols.len() {
        assert(cols.drop_last().take(k) =~= cols.take(k));
        lemma_count_prefix_le(cols.drop_last(), k);
    } else {
        assert(cols.take(k) =~= cols);
    }
}

} // verus!
