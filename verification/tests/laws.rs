use velo_de::commands::Command;
use velo_de::grid::Grid;
use velo_de::ipc_state::space_infos;
use velo_de::model::{Direction, WindowId};
use velo_de::theme::Rgba8;

fn total_windows(g: &Grid<f64>) -> usize {
    g.space_infos().iter().map(|(_, n)| *n).sum()
}

fn sample() -> Grid<f64> {
    let mut g = Grid::new();
    g.add_window(WindowId(1), 0.5);
    g.add_window(WindowId(2), 0.5);
    g.apply(Command::MoveWindowToSpace(Direction::Down));
    g.add_window(WindowId(3), 0.5);
    g
}

#[test]
fn commands_keep_every_window() {
    let all = [
        Command::FocusColumn(Direction::Left),
        Command::MoveColumn(Direction::Right),
        Command::MoveColumn(Direction::Right),
        Command::SwitchSpace(Direction::Up),
        Command::MoveWindowToSpace(Direction::Left),
        Command::CycleWindow,
        Command::ToggleColumnLayout,
        Command::ToggleFullscreen,
        Command::CloseFocused,
        Command::ToggleOverview,
        Command::OverviewMove(Direction::Down),
        Command::OverviewConfirm,
        Command::FocusSpaceById(9),
        Command::OverviewCancel,
    ];
    let mut g = sample();
    assert_eq!(total_windows(&g), 3);
    for cmd in all {
        assert!(g.can_apply(cmd));
        g.apply(cmd);
        assert_eq!(total_windows(&g), 3, "{cmd:?}");
    }
}

#[test]
fn spaces_persist_under_their_ids() {
    let mut g = sample();
    let before = space_infos(&g);
    g.apply(Command::MoveColumn(Direction::Left));
    g.remove_window(WindowId(3));
    g.apply(Command::SwitchSpace(Direction::Right));
    let after = space_infos(&g);
    for sp in before {
        assert!(after.iter().any(|s| s.id == sp.id && s.coord == sp.coord), "{sp:?}");
    }
}

#[test]
fn switching_there_and_back_restores_space_and_focus() {
    let mut g = sample();
    let (coord, focus) = (g.current_coord(), g.focused_window());
    g.apply(Command::SwitchSpace(Direction::Left));
    g.apply(Command::SwitchSpace(Direction::Right));
    assert_eq!(g.current_coord(), coord);
    assert_eq!(g.focused_window(), focus);
}

#[test]
fn close_request_changes_nothing() {
    let mut g = sample();
    let before = space_infos(&g);
    let focus = g.focused_window();
    g.apply(Command::CloseFocused);
    assert_eq!(space_infos(&g), before);
    assert_eq!(g.focused_window(), focus);
}

#[test]
fn overview_move_and_cancel_keep_the_current_space() {
    let mut g = sample();
    let coord = g.current_coord();
    g.apply(Command::ToggleOverview);
    g.apply(Command::OverviewMove(Direction::Left));
    g.apply(Command::OverviewMove(Direction::Up));
    g.apply(Command::OverviewCancel);
    assert_eq!(g.current_coord(), coord);
    assert_eq!(g.current_space().window_count(), 2);
}

#[test]
fn focus_by_id_lands_on_that_id_and_ids_stay_unique() {
    let mut g = sample();
    for id in [2, 5, 1, 5, 3] {
        g.apply(Command::FocusSpaceById(id));
        assert_eq!(g.current_space_id(), id);
    }
    let mut ids: Vec<i32> = g.space_infos().iter().map(|(id, _)| *id).collect();
    let n = ids.len();
    ids.sort();
    ids.dedup();
    assert_eq!(ids.len(), n);
}

#[test]
fn added_window_gets_focus_and_removed_window_leaves() {
    let mut g = sample();
    g.add_window(WindowId(9), 0.5);
    assert_eq!(g.focused_window(), Some(WindowId(9)));
    assert_eq!(total_windows(&g), 4);
    g.remove_window(WindowId(9));
    assert_eq!(total_windows(&g), 3);
    let unchanged = space_infos(&g);
    g.remove_window(WindowId(42));
    assert_eq!(space_infos(&g), unchanged);
}

#[test]
fn hex_colours_round_trip() {
    for c in [Rgba8 { r: 0, g: 0x7f, b: 0xff, a: 0x14 }, Rgba8 { r: 0x8a, g: 0xb4, b: 0xd4, a: 0xff }] {
        assert_eq!(Rgba8::from_hex(&c.to_hex(true)), Ok(c));
    }
    let opaque = Rgba8 { r: 1, g: 2, b: 3, a: 255 };
    assert_eq!(Rgba8::from_hex(&opaque.to_hex(false)), Ok(opaque));
}
