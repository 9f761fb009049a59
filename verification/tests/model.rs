use velo_de::model::{Column, Direction, IdGen, Space, WindowId};

#[test]
fn ids_are_sequential_from_one() {
    let mut g = IdGen::new();
    assert_eq!(g.next(), WindowId(1));
    assert_eq!(g.next(), WindowId(2));
    let mut d = IdGen::default();
    assert_eq!(d.next(), WindowId(1));
}

#[test]
fn direction_deltas_are_unit_steps() {
    assert_eq!(Direction::Left.delta(), (-1, 0));
    assert_eq!(Direction::Right.delta(), (1, 0));
    assert_eq!(Direction::Up.delta(), (0, -1));
    assert_eq!(Direction::Down.delta(), (0, 1));
}

#[test]
fn a_space_counts_windows_over_its_columns() {
    let mut s: Space<u8> = Space::new();
    assert_eq!(s.window_count(), 0);
    assert_eq!(s.strip.focused_window(), None);
    s.insert_column(0, Column::new(WindowId(1), 0));
    s.insert_column(1, Column::new(WindowId(2), 0));
    s.strip.columns[1].windows.push(WindowId(3));
    assert_eq!(s.window_count(), 3);
    let c = s.remove_column(0);
    assert_eq!(c.windows, vec![WindowId(1)]);
    assert_eq!(s.window_count(), 2);
}

#[test]
fn a_fresh_generator_can_advance() {
    let g = IdGen::new();
    assert!(g.can_advance());
}
