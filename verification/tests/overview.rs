use velo_de::commands::Command;
use velo_de::grid::Grid;
use velo_de::model::Direction;
use velo_de::overview::overview_coords;

#[test]
fn overview_shows_the_ring_around_the_selection_in_row_major_order() {
    let g: Grid<f64> = Grid::new();
    assert_eq!(
        overview_coords(&g),
        vec![(-1, -1), (-1, 0), (-1, 1), (0, -1), (0, 0), (0, 1), (1, -1), (1, 0), (1, 1)]
    );
}

#[test]
fn overview_also_shows_far_away_spaces() {
    let mut g: Grid<f64> = Grid::new();
    g.apply(Command::SwitchSpace(Direction::Right));
    g.apply(Command::SwitchSpace(Direction::Right));
    g.apply(Command::SwitchSpace(Direction::Right));
    g.apply(Command::SwitchSpace(Direction::Down));
    g.apply(Command::ToggleOverview);
    let coords = overview_coords(&g);
    // the ring around (3, 1), plus the Spaces at (0, 0), (1, 0) and (2, 0)
    assert_eq!(coords.len(), 9 + 2);
    assert!(coords.contains(&(0, 0)) && coords.contains(&(1, 0)));
    assert!(coords.windows(2).all(|w| w[0] < w[1]));
    assert_eq!(coords[0], (0, 0));
    assert_eq!(coords[10], (4, 2));
}
