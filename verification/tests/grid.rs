use velo_de::commands::Command;
use velo_de::grid::{Event, Grid};
use velo_de::model::{ColumnLayout, Direction, WindowId};

const WIDTH: f64 = 0.5;

fn grid() -> Grid<f64> {
    Grid::new()
}

#[test]
fn new_grid_has_one_space_with_id_1() {
    let g = grid();
    assert_eq!(g.current_coord(), (0, 0));
    assert_eq!(g.current_space_id(), 1);
    assert_eq!(g.space_infos(), vec![(1, 0)]);
}

#[test]
fn add_window_focuses_it_and_appends_column() {
    let mut g = grid();
    let id = WindowId(1);
    let events = g.add_window(id, WIDTH);
    assert_eq!(events, vec![Event::FocusChanged(Some(id)), Event::SpacesChanged]);
    assert_eq!(g.focused_window(), Some(id));
    assert_eq!(g.current_space().strip.columns.len(), 1);
    assert_eq!(g.space_infos(), vec![(1, 1)]);
}

#[test]
fn focus_column_moves_between_windows() {
    let mut g = grid();
    let a = WindowId(1);
    let b = WindowId(2);
    g.add_window(a, WIDTH);
    g.add_window(b, WIDTH);
    assert_eq!(g.focused_window(), Some(b));

    g.apply(Command::FocusColumn(Direction::Left));
    assert_eq!(g.focused_window(), Some(a));

    // clamped at the edge: no further change
    let events = g.apply(Command::FocusColumn(Direction::Left));
    assert!(events.is_empty());
    assert_eq!(g.focused_window(), Some(a));
}

#[test]
fn switch_space_creates_and_navigates_grid() {
    let mut g = grid();
    let a = WindowId(1);
    g.add_window(a, WIDTH);

    let events = g.apply(Command::SwitchSpace(Direction::Right));
    assert_eq!(g.current_coord(), (1, 0));
    assert_eq!(g.current_space_id(), 2);
    assert!(events.contains(&Event::SpacesChanged));
    assert!(events.contains(&Event::SpaceChanged(2)));
    assert_eq!(g.focused_window(), None);

    // and back
    g.apply(Command::SwitchSpace(Direction::Left));
    assert_eq!(g.current_coord(), (0, 0));
    assert_eq!(g.focused_window(), Some(a));
}

#[test]
fn move_column_throws_to_adjacent_space_at_edge() {
    let mut g = grid();
    let a = WindowId(1);
    g.add_window(a, WIDTH);

    // only one column, already at the edge -> thrown right
    let events = g.apply(Command::MoveColumn(Direction::Right));
    assert_eq!(g.current_coord(), (1, 0));
    assert_eq!(g.focused_window(), Some(a));
    assert!(events.contains(&Event::SpaceChanged(2)));

    // the first space is now empty but still exists
    assert_eq!(g.space((0, 0)).unwrap().window_count(), 0);
    assert_eq!(g.current_space().window_count(), 1);
}

#[test]
fn move_window_to_space_moves_and_follows() {
    let mut g = grid();
    let a = WindowId(1);
    let b = WindowId(2);
    g.add_window(a, WIDTH);
    g.add_window(b, WIDTH);
    // focus a
    g.apply(Command::FocusColumn(Direction::Left));
    assert_eq!(g.focused_window(), Some(a));

    g.apply(Command::MoveWindowToSpace(Direction::Down));
    assert_eq!(g.current_coord(), (0, 1));
    assert_eq!(g.focused_window(), Some(a));
    assert_eq!(g.current_space().window_count(), 1);

    g.apply(Command::SwitchSpace(Direction::Up));
    assert_eq!(g.current_coord(), (0, 0));
    assert_eq!(g.current_space().window_count(), 1);
    assert_eq!(g.focused_window(), Some(b));
}

#[test]
fn cycle_window_wraps_across_columns() {
    let mut g = grid();
    let a = WindowId(1);
    let b = WindowId(2);
    let c = WindowId(3);
    g.add_window(a, WIDTH);
    g.add_window(b, WIDTH);
    g.add_window(c, WIDTH);
    assert_eq!(g.focused_window(), Some(c));

    g.apply(Command::CycleWindow);
    assert_eq!(g.focused_window(), Some(a));
    g.apply(Command::CycleWindow);
    assert_eq!(g.focused_window(), Some(b));
    g.apply(Command::CycleWindow);
    assert_eq!(g.focused_window(), Some(c));
}

#[test]
fn toggle_fullscreen_overrides_layout() {
    let mut g = grid();
    let a = WindowId(1);
    let b = WindowId(2);
    g.add_window(a, WIDTH);
    g.add_window(b, WIDTH);

    // the focused window goes fullscreen and keeps focus
    g.apply(Command::ToggleFullscreen);
    assert_eq!(g.current_space().fullscreen, Some(b));
    assert_eq!(g.focused_window(), Some(b));

    // toggling again returns to the tiled strip
    g.apply(Command::ToggleFullscreen);
    assert_eq!(g.current_space().fullscreen, None);
    assert_eq!(g.focused_window(), Some(b));
    assert_eq!(g.current_space().strip.columns.len(), 2);
}

#[test]
fn close_focused_requests_close_without_removing() {
    let mut g = grid();
    let a = WindowId(1);
    g.add_window(a, WIDTH);
    let events = g.apply(Command::CloseFocused);
    assert_eq!(events, vec![Event::CloseRequested(a)]);
    assert_eq!(g.current_space().window_count(), 1);
}

#[test]
fn remove_window_clears_focus_when_empty() {
    let mut g = grid();
    let a = WindowId(1);
    g.add_window(a, WIDTH);
    let events = g.remove_window(a);
    assert!(events.contains(&Event::FocusChanged(None)));
    assert_eq!(g.current_space().window_count(), 0);
    assert_eq!(g.focused_window(), None);
}

#[test]
fn overview_navigation_and_confirm() {
    let mut g = grid();
    let a = WindowId(1);
    g.add_window(a, WIDTH);

    g.apply(Command::ToggleOverview);
    assert!(g.overview_active());
    assert_eq!(g.overview_selection(), (0, 0));

    g.apply(Command::OverviewMove(Direction::Right));
    assert_eq!(g.overview_selection(), (1, 0));
    // selecting creates a placeholder so it can render as an empty tile
    assert!(g.space((1, 0)).is_some());

    g.apply(Command::OverviewConfirm);
    assert!(!g.overview_active());
    assert_eq!(g.current_coord(), (1, 0));
}

#[test]
fn overview_cancel_keeps_current_space() {
    let mut g = grid();
    g.apply(Command::ToggleOverview);
    g.apply(Command::OverviewMove(Direction::Down));
    g.apply(Command::OverviewCancel);
    assert!(!g.overview_active());
    assert_eq!(g.current_coord(), (0, 0));
}

#[test]
fn focus_space_by_id_jumps_to_existing() {
    let mut g = grid();
    g.apply(Command::SwitchSpace(Direction::Right)); // creates id 2 at (1,0)
    g.apply(Command::SwitchSpace(Direction::Left)); // back to (0,0)/id 1

    g.apply(Command::FocusSpaceById(2));
    assert_eq!(g.current_coord(), (1, 0));
}

#[test]
fn focus_space_by_id_creates_placeholder_for_unknown_id() {
    let mut g = grid();
    // velo-shell shows pills 1..=10 by default; clicking pill 5 when
    // only space 1 exists should create+register space 5.
    g.apply(Command::FocusSpaceById(5));
    assert_eq!(g.space_id(g.current_coord()), Some(5));
    assert_eq!(g.coord_for_id(5), Some(g.current_coord()));
}

#[test]
fn column_width_travels_with_the_column() {
    let mut g = grid();
    g.add_window(WindowId(1), 0.5);
    assert_eq!(g.active_column_width(), Some(&0.5));
    g.set_active_column_width(0.75);
    assert_eq!(g.active_column_width(), Some(&0.75));
    // thrown to the next Space, the column keeps its width
    g.apply(Command::MoveColumn(Direction::Right));
    assert_eq!(g.current_coord(), (1, 0));
    assert_eq!(g.active_column_width(), Some(&0.75));
}

#[test]
fn empty_space_has_no_active_column_width() {
    let g = grid();
    assert_eq!(g.active_column_width(), None);
}

#[test]
fn toggle_column_layout_flips_between_split_and_tabbed() {
    let mut g = grid();
    g.add_window(WindowId(1), WIDTH);
    assert_eq!(g.current_space().strip.columns[0].layout, ColumnLayout::Split);
    g.apply(Command::ToggleColumnLayout);
    assert_eq!(g.current_space().strip.columns[0].layout, ColumnLayout::Tabbed);
    g.apply(Command::ToggleColumnLayout);
    assert_eq!(g.current_space().strip.columns[0].layout, ColumnLayout::Split);
}

#[test]
fn thrown_column_scrolls_both_spaces_into_view() {
    let mut g = grid();
    g.add_window(WindowId(1), WIDTH);
    let _ = g.take_follow();
    g.apply(Command::MoveColumn(Direction::Right));
    assert_eq!(g.take_follow(), vec![(0, 0), (1, 0)]);
    assert!(g.take_follow().is_empty());
}

#[test]
fn space_coords_and_infos_report_creation_order() {
    let mut g = grid();
    g.add_window(WindowId(7), WIDTH);
    g.apply(Command::SwitchSpace(Direction::Down));
    g.apply(Command::SwitchSpace(Direction::Left));
    assert_eq!(g.space_coords(), vec![(0, 0), (0, 1), (-1, 1)]);
    assert_eq!(g.space((0, 0)).unwrap().window_count(), 1);
    assert_eq!(g.space_infos(), vec![(1, 1), (2, 0), (3, 0)]);
}

#[test]
fn can_apply_refuses_steps_off_the_coordinate_range() {
    let mut g = grid();
    assert!(g.can_apply(Command::SwitchSpace(Direction::Left)));
    assert!(g.can_apply(Command::FocusSpaceById(i32::MAX - 1)));
    assert!(!g.can_apply(Command::FocusSpaceById(i32::MAX)));
    g.apply(Command::FocusSpaceById(3));
    assert!(g.can_apply(Command::CycleWindow));
}

#[test]
fn overview_move_creates_placeholders_and_confirm_lands_there() {
    let mut g = grid();
    g.apply(Command::ToggleOverview);
    let events = g.apply(Command::OverviewMove(Direction::Up));
    assert!(events.is_empty());
    assert_eq!(g.overview_selection(), (0, -1));
    assert_eq!(g.space_id((0, -1)), Some(2));
    let events = g.apply(Command::OverviewConfirm);
    assert_eq!(events, vec![Event::SpaceChanged(2), Event::FocusChanged(None)]);
    assert_eq!(g.current_coord(), (0, -1));
    assert_eq!(g.current_space_id(), 2);
}
