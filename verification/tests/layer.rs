use velo_de::layer::{
    arrange, arrange_layers, exclusive_edge, layers_fit, shrink_by_exclusive_zone, topmost_exclusive, Anchor, Edge, ExclusiveZone, Layer,
    LayerSurfaceState, Margins, Rectangle, Size,
};

fn output() -> Rectangle {
    Rectangle { x: 0, y: 0, w: 1920, h: 1080 }
}

fn anchor(top: bool, bottom: bool, left: bool, right: bool) -> Anchor {
    Anchor { top, bottom, left, right }
}

#[test]
fn top_bar_anchored_left_right_top_fills_width() {
    let rect = arrange(output(), anchor(true, false, true, true), Size { w: 0, h: 32 }, Margins::default());
    assert_eq!(rect, Rectangle { x: 0, y: 0, w: 1920, h: 32 });
}

#[test]
fn bottom_center_popup_uses_its_own_size_and_margin() {
    let margin = Margins { bottom: 20, ..Default::default() };
    let rect = arrange(output(), anchor(false, true, false, false), Size { w: 480, h: 300 }, margin);
    assert_eq!(rect, Rectangle { x: 720, y: 760, w: 480, h: 300 });
}

#[test]
fn unanchored_zero_size_fills_and_centers() {
    let rect = arrange(output(), Anchor::default(), Size { w: 0, h: 0 }, Margins::default());
    assert_eq!(rect, output());
}

#[test]
fn shrink_top_bar_reserves_top_strip() {
    let usable = shrink_by_exclusive_zone(output(), anchor(true, false, true, true), ExclusiveZone::Exclusive(32));
    assert_eq!(usable, Rectangle { x: 0, y: 32, w: 1920, h: 1080 - 32 });
}

#[test]
fn shrink_left_sidebar_with_full_height_reserves_left_strip() {
    let usable = shrink_by_exclusive_zone(output(), anchor(true, true, true, false), ExclusiveZone::Exclusive(50));
    assert_eq!(usable, Rectangle { x: 50, y: 0, w: 1920 - 50, h: 1080 });
}

#[test]
fn shrink_neutral_zone_has_no_effect() {
    let usable = shrink_by_exclusive_zone(output(), anchor(false, true, false, false), ExclusiveZone::Neutral);
    assert_eq!(usable, output());
}

#[test]
fn shrink_corner_anchor_has_no_effect() {
    let usable = shrink_by_exclusive_zone(output(), anchor(true, false, true, false), ExclusiveZone::Exclusive(50));
    assert_eq!(usable, output());
}

#[test]
fn shrink_all_edges_has_no_effect() {
    let usable = shrink_by_exclusive_zone(output(), anchor(true, true, true, true), ExclusiveZone::Exclusive(50));
    assert_eq!(usable, output());
}

#[test]
fn right_anchored_panel_with_margin_sits_inside_the_right_edge() {
    let margin = Margins { right: 10, top: 5, ..Default::default() };
    let rect = arrange(output(), anchor(true, false, false, true), Size { w: 300, h: 200 }, margin);
    assert_eq!(rect, Rectangle { x: 1920 - 10 - 300, y: 5, w: 300, h: 200 });
}

#[test]
fn margins_wider_than_the_output_give_an_empty_width() {
    let margin = Margins { left: 1000, right: 1000, ..Default::default() };
    let rect = arrange(output(), anchor(true, false, true, true), Size { w: 0, h: 32 }, margin);
    assert_eq!(rect.w, 0);
    assert_eq!(rect.h, 32);
}

#[test]
fn exclusive_edge_needs_one_edge_and_not_its_opposite() {
    assert_eq!(exclusive_edge(anchor(true, false, false, false)), Some(Edge::Top));
    assert_eq!(exclusive_edge(anchor(false, true, true, true)), Some(Edge::Bottom));
    assert_eq!(exclusive_edge(anchor(true, true, true, false)), Some(Edge::Left));
    assert_eq!(exclusive_edge(anchor(false, false, false, true)), Some(Edge::Right));
    assert_eq!(exclusive_edge(anchor(true, false, true, false)), None);
    assert_eq!(exclusive_edge(anchor(false, false, false, false)), None);
}

#[test]
fn shrink_bottom_and_right_reserve_their_strips() {
    let bottom = shrink_by_exclusive_zone(output(), anchor(false, true, true, true), ExclusiveZone::Exclusive(40));
    assert_eq!(bottom, Rectangle { x: 0, y: 0, w: 1920, h: 1040 });
    let right = shrink_by_exclusive_zone(output(), anchor(true, true, false, true), ExclusiveZone::Exclusive(60));
    assert_eq!(right, Rectangle { x: 0, y: 0, w: 1860, h: 1080 });
    let dont_care = shrink_by_exclusive_zone(output(), anchor(false, true, true, true), ExclusiveZone::DontCare);
    assert_eq!(dont_care, output());
}

fn surface(layer: Layer, anchor: Anchor, size: Size, zone: ExclusiveZone) -> LayerSurfaceState {
    LayerSurfaceState { layer, anchor, size, margin: Margins::default(), zone }
}

#[test]
fn layers_are_arranged_from_the_background_up_and_take_their_zones() {
    let surfaces = [
        // a launcher popup, drawn over everything
        surface(Layer::Overlay, Anchor::default(), Size { w: 600, h: 400 }, ExclusiveZone::Neutral),
        // a top bar
        surface(Layer::Top, anchor(true, false, true, true), Size { w: 0, h: 32 }, ExclusiveZone::Exclusive(32)),
        // a wallpaper
        surface(Layer::Background, Anchor::default(), Size { w: 0, h: 0 }, ExclusiveZone::DontCare),
        // a dock on the left
        surface(Layer::Bottom, anchor(true, true, true, false), Size { w: 50, h: 0 }, ExclusiveZone::Exclusive(50)),
    ];
    let (placed, usable) = arrange_layers(output(), &surfaces);
    let order: Vec<usize> = placed.iter().map(|(i, _)| *i).collect();
    assert_eq!(order, vec![2, 3, 1, 0]);
    assert_eq!(placed[0].1, output());
    assert_eq!(placed[1].1, Rectangle { x: 0, y: 0, w: 50, h: 1080 });
    assert_eq!(placed[2].1, Rectangle { x: 0, y: 0, w: 1920, h: 32 });
    assert_eq!(placed[3].1, Rectangle { x: 660, y: 340, w: 600, h: 400 });
    assert_eq!(usable, Rectangle { x: 50, y: 32, w: 1870, h: 1048 });
}

#[test]
fn no_layer_surfaces_leave_the_whole_output() {
    let (placed, usable) = arrange_layers(output(), &[]);
    assert!(placed.is_empty());
    assert_eq!(usable, output());
}

#[test]
fn the_topmost_exclusive_keyboard_layer_takes_focus() {
    assert_eq!(topmost_exclusive(&[true, false, true, false]), Some(2));
    assert_eq!(topmost_exclusive(&[false, false]), None);
    assert_eq!(topmost_exclusive(&[]), None);
}

#[test]
fn layers_fit_refuses_geometry_past_i32() {
    let fine = [surface(Layer::Top, anchor(true, false, true, true), Size { w: 0, h: 32 }, ExclusiveZone::Exclusive(32))];
    assert!(layers_fit(output(), &fine));
    let wide = [LayerSurfaceState {
        layer: Layer::Top,
        anchor: anchor(true, false, true, true),
        size: Size { w: 0, h: 32 },
        margin: Margins { left: i32::MIN, ..Default::default() },
        zone: ExclusiveZone::Neutral,
    }];
    assert!(!layers_fit(output(), &wide));
    let far = Rectangle { x: 0, y: i32::MAX - 10, w: 100, h: 100 };
    let bar = [surface(Layer::Top, anchor(true, false, true, true), Size { w: 0, h: 5 }, ExclusiveZone::Exclusive(32))];
    assert!(!layers_fit(far, &bar));
}

#[test]
fn only_the_branch_taken_has_to_fit_in_i32() {
    let far = Rectangle { x: 2147483600, y: 0, w: 100, h: 100 };
    let a = anchor(false, false, true, false);
    let rect = arrange(far, a, Size { w: 100, h: 100 }, Margins::default());
    assert_eq!(rect, Rectangle { x: 2147483600, y: 0, w: 100, h: 100 });
    let s = [surface(Layer::Top, a, Size { w: 100, h: 100 }, ExclusiveZone::Neutral)];
    assert!(layers_fit(far, &s));
}
