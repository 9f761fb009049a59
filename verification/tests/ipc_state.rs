use velo_de::commands::Command;
use velo_de::grid::Grid;
use velo_de::ipc_state::{active_space_info, created_ids, space_infos};
use velo_de::model::{Direction, WindowId};
use velo_de::protocol::SpaceInfo;

#[test]
fn space_infos_describe_every_space_and_mark_the_current_one() {
    let mut g: Grid<f64> = Grid::new();
    g.add_window(WindowId(1), 0.5);
    g.add_window(WindowId(2), 0.5);
    g.apply(Command::SwitchSpace(Direction::Right));
    assert_eq!(
        space_infos(&g),
        vec![
            SpaceInfo { id: 1, coord: (0, 0), windows: 2, focused: false },
            SpaceInfo { id: 2, coord: (1, 0), windows: 0, focused: true },
        ]
    );
    assert_eq!(active_space_info(&g), SpaceInfo { id: 2, coord: (1, 0), windows: 0, focused: true });
}

#[test]
fn created_ids_are_those_not_seen_before() {
    assert_eq!(created_ids(&[1, 2], &[1, 2, 3, 5]), vec![3, 5]);
    assert_eq!(created_ids(&[1, 2], &[2, 1]), Vec::<i32>::new());
    assert_eq!(created_ids(&[], &[4]), vec![4]);
}

#[test]
fn a_grid_change_reports_the_spaces_it_created() {
    let mut g: Grid<f64> = Grid::new();
    let before: Vec<i32> = g.space_infos().iter().map(|(id, _)| *id).collect();
    g.apply(Command::FocusSpaceById(7));
    let after: Vec<i32> = g.space_infos().iter().map(|(id, _)| *id).collect();
    assert_eq!(created_ids(&before, &after), vec![7]);
}
