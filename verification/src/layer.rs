//! Pure geometry for `wlr_layer_shell` surfaces: where a layer surface sits
//! on the output ([`arrange`]), and how much of the output its exclusive
//! zone reserves ([`shrink_by_exclusive_zone`]).

use vstd::prelude::*;

verus! {

/// An axis-aligned rectangle in logical pixels: top-left corner and size.
#[derive(Debug, Clone, Copy, PartialEq, Eq, Structural)]
pub struct Rectangle {
    pub x: i32,
    pub y: i32,
    pub w: i32,
    pub h: i32,
}

/// A size in logical pixels.
#[derive(Debug, Clone, Copy, PartialEq, Eq, Structural)]
pub struct Size {
    pub w: i32,
    pub h: i32,
}

/// Which output edges a layer surface is anchored to.
#[derive(Debug, Clone, Copy, PartialEq, Eq, Structural, Default)]
pub struct Anchor {
    pub top: bool,
    pub bottom: bool,
    pub left: bool,
    pub right: bool,
}

/// Distances kept from the anchored edges.
#[derive(Debug, Clone, Copy, PartialEq, Eq, Structural, Default)]
pub struct Margins {
    pub top: i32,
    pub right: i32,
    pub bottom: i32,
    pub left: i32,
}

/// How a layer surface's exclusive zone affects other surfaces.
#[derive(Debug, Clone, Copy, PartialEq, Eq, Structural)]
pub enum ExclusiveZone {
    /// Reserve this many pixels from the anchored edge.
    Exclusive(u32),
    /// Move out of other surfaces' exclusive zones.
    Neutral,
    /// Extend to the anchored edges regardless.
    DontCare,
}

/// One edge of the output.
#[derive(Debug, Clone, Copy, PartialEq, Eq, Structural)]
pub enum Edge {
    Top,
    Bottom,
    Left,
    Right,
}

impl Anchor {
    /// Anchored to both the left and the right edge.
    pub open spec fn spec_horizontal(self) -> bool {
        self.left && self.right
    }

    /// Anchored to both the top and the bottom edge.
    pub open spec fn spec_vertical(self) -> bool {
        self.top && self.bottom
    }

    pub fn anchored_horizontally(&self) -> (b: bool)
        ensures
            b == self.spec_horizontal(),
    {
        self.left && self.right
    }

    pub fn anchored_vertically(&self) -> (b: bool)
        ensures
            b == self.spec_vertical(),
    {
        self.top && self.bottom
    }
}

/// Half of `a`, rounded toward zero (as integer division does).
pub open spec fn half(a: int) -> int {
    if a >= 0 {
        a / 2
    } else {
        -((-a) / 2)
    }
}

pub open spec fn is_i32(a: int) -> bool {
    i32::MIN <= a <= i32::MAX
}

/// A layer surface's width: filling the output between the margins when
/// `size.w` is `0` or it is anchored to both sides, its own width
/// otherwise.
pub open spec fn arranged_width(output: Rectangle, anchor: Anchor, size: Size, margin: Margins) -> int {
    if size.w == 0 || anchor.spec_horizontal() {
        output.w - margin.left - margin.right
    } else {
        size.w as int
    }
}

pub open spec fn arranged_height(output: Rectangle, anchor: Anchor, size: Size, margin: Margins) -> int {
    if size.h == 0 || anchor.spec_vertical() {
        output.h - margin.top - margin.bottom
    } else {
        size.h as int
    }
}

/// Its left edge: after the left margin when anchored left, before the
/// right margin when anchored right, centred otherwise.
pub open spec fn arranged_x(output: Rectangle, anchor: Anchor, size: Size, margin: Margins) -> int {
    let width = arranged_width(output, anchor, size, margin);
    if anchor.left {
        output.x + margin.left
    } else if anchor.right {
        output.x + output.w - width - margin.right
    } else {
        output.x + half(output.w - width)
    }
}

pub open spec fn arranged_y(output: Rectangle, anchor: Anchor, size: Size, margin: Margins) -> int {
    let height = arranged_height(output, anchor, size, margin);
    if anchor.top {
        output.y + margin.top
    } else if anchor.bottom {
        output.y + output.h - height - margin.bottom
    } else {
        output.y + half(output.h - height)
    }
}

/// The width is computed from the output and the margins (rather than
/// taken from `size`).
pub open spec fn fills_width(anchor: Anchor, size: Size) -> bool {
    size.w == 0 || anchor.spec_horizontal()
}

pub open spec fn fills_height(anchor: Anchor, size: Size) -> bool {
    size.h == 0 || anchor.spec_vertical()
}

/// Every value [`arrange`] computes, on the branches it takes, is an
/// `i32`.
pub open spec fn arrange_in_range(output: Rectangle, anchor: Anchor, size: Size, margin: Margins) -> bool {
    let width = arranged_width(output, anchor, size, margin);
    let height = arranged_height(output, anchor, size, margin);
    &&& fills_width(anchor, size) ==> is_i32(output.w - margin.left) && is_i32(width)
    &&& fills_height(anchor, size) ==> is_i32(output.h - margin.top) && is_i32(height)
    &&& if anchor.left {
        is_i32(output.x + margin.left)
    } else if anchor.right {
        is_i32(output.x + output.w) && is_i32(output.x + output.w - width) && is_i32(arranged_x(output, anchor, size, margin))
    } else {
        is_i32(output.w - width) && is_i32(arranged_x(output, anchor, size, margin))
    }
    &&& if anchor.top {
        is_i32(output.y + margin.top)
    } else if anchor.bottom {
        is_i32(output.y + output.h) && is_i32(output.y + output.h - height) && is_i32(arranged_y(output, anchor, size, margin))
    } else {
        is_i32(output.h - height) && is_i32(arranged_y(output, anchor, size, margin))
    }
}

fn half_i32(a: i32) -> (r: i32)
    ensures
        r == half(a as int),
{
    if a >= 0 {
        a / 2
    } else {
        let b: i64 = -(a as i64);
        -((b / 2) as i32)
    }
}

/// Compute a layer surface's on-screen geometry within `output`.
///
/// A `size` component of `0` means "fill along that axis" and is also
/// implied by being anchored to both edges on that axis; negative
/// results are clamped to `0`.
pub fn arrange(output: Rectangle, anchor: Anchor, size: Size, margin: Margins) -> (r: Rectangle)
    requires
        arrange_in_range(output, anchor, size, margin),
    ensures
        r.x == arranged_x(output, anchor, size, margin),
        r.y == arranged_y(output, anchor, size, margin),
        r.w == (if arranged_width(output, anchor, size, margin) > 0 { arranged_width(output, anchor, size, margin) } else { 0 }),
        r.h == (if arranged_height(output, anchor, size, margin) > 0 { arranged_height(output, anchor, size, margin) } else { 0 }),
{
    let width = if size.w == 0 || anchor.anchored_horizontally() {
        output.w - margin.left - margin.right
    } else {
        size.w
    };
    let height = if size.h == 0 || anchor.anchored_vertically() {
        output.h - margin.top - margin.bottom
    } else {
        size.h
    };
    let x = if anchor.left {
        output.x + margin.left
    } else if anchor.right {
        output.x + output.w - width - margin.right
    } else {
        output.x + half_i32(output.w - width)
    };
    let y = if anchor.top {
        output.y + margin.top
    } else if anchor.bottom {
        output.y + output.h - height - margin.bottom
    } else {
        output.y + half_i32(output.h - height)
    };
    Rectangle { x, y, w: if width > 0 { width } else { 0 }, h: if height > 0 { height } else { 0 } }
}

/// Where [`arrange`] puts a surface, edge by edge: a surface anchored to
/// an edge keeps that edge's margin from the output's edge (both, when
/// anchored to both sides of an axis, where it fills the space between
/// the margins); one anchored to neither side of an axis is centred on it,
/// the gaps on its two sides differing by at most one pixel; and a size
/// of `0` along an axis fills the space between the margins.
pub proof fn law_arrange_keeps_margins(output: Rectangle, anchor: Anchor, size: Size, margin: Margins)
    ensures
        anchor.left ==> arranged_x(output, anchor, size, margin) == output.x + margin.left,
        anchor.right ==> arranged_x(output, anchor, size, margin) + arranged_width(output, anchor, size, margin) == output.x
            + output.w - margin.right,
        anchor.top ==> arranged_y(output, anchor, size, margin) == output.y + margin.top,
        anchor.bottom ==> arranged_y(output, anchor, size, margin) + arranged_height(output, anchor, size, margin) == output.y
            + output.h - margin.bottom,
        !anchor.left && !anchor.right ==> {
            let before = arranged_x(output, anchor, size, margin) - output.x;
            let after = output.x + output.w - (arranged_x(output, anchor, size, margin) + arranged_width(output, anchor, size, margin));
            -1 <= before - after <= 1
        },
        !anchor.top && !anchor.bottom ==> {
            let before = arranged_y(output, anchor, size, margin) - output.y;
            let after = output.y + output.h - (arranged_y(output, anchor, size, margin) + arranged_height(output, anchor, size, margin));
            -1 <= before - after <= 1
        },
        size.w == 0 ==> arranged_width(output, anchor, size, margin) == output.w - margin.left - margin.right,
        size.h == 0 ==> arranged_height(output, anchor, size, margin) == output.h - margin.top - margin.bottom,
        size.w != 0 && !(anchor.left && anchor.right) ==> arranged_width(output, anchor, size, margin) == size.w,
        size.h != 0 && !(anchor.top && anchor.bottom) ==> arranged_height(output, anchor, size, margin) == size.h,
{
}

/// The single edge an exclusive zone reserves space against: a lone edge,
/// or one edge plus both of its perpendicular edges. Corners,
/// parallel-edge pairs, all edges and no anchor reserve none.
pub open spec fn spec_exclusive_edge(anchor: Anchor) -> Option<Edge> {
    let h = anchor.spec_horizontal();
    let v = anchor.spec_vertical();
    if h && v {
        None
    } else if h {
        if anchor.top && !anchor.bottom {
            Some(Edge::Top)
        } else if !anchor.top && anchor.bottom {
            Some(Edge::Bottom)
        } else {
            None
        }
    } else if v {
        if anchor.left && !anchor.right {
            Some(Edge::Left)
        } else if !anchor.left && anchor.right {
            Some(Edge::Right)
        } else {
            None
        }
    } else {
        let n = (if anchor.top { 1int } else { 0 }) + (if anchor.bottom { 1int } else { 0 }) + (if anchor.left { 1int } else { 0 }) + (
        if anchor.right { 1int } else { 0 });
        if n != 1 {
            None
        } else if anchor.top {
            Some(Edge::Top)
        } else if anchor.bottom {
            Some(Edge::Bottom)
        } else if anchor.left {
            Some(Edge::Left)
        } else {
            Some(Edge::Right)
        }
    }
}

/// The single edge an exclusive zone reserves space against.
pub fn exclusive_edge(anchor: Anchor) -> (e: Option<Edge>)
    ensures
        e == spec_exclusive_edge(anchor),
{
    let h = anchor.anchored_horizontally();
    let v = anchor.anchored_vertically();
    if h && v {
        None
    } else if h {
        if anchor.top && !anchor.bottom {
            Some(Edge::Top)
        } else if !anchor.top && anchor.bottom {
            Some(Edge::Bottom)
        } else {
            None
        }
    } else if v {
        if anchor.left && !anchor.right {
            Some(Edge::Left)
        } else if !anchor.left && anchor.right {
            Some(Edge::Right)
        } else {
            None
        }
    } else {
        let mut edges: Vec<Edge> = Vec::new();
        if anchor.top {
            edges.push(Edge::Top);
        }
        if anchor.bottom {
            edges.push(Edge::Bottom);
        }
        if anchor.left {
            edges.push(Edge::Left);
        }
        if anchor.right {
            edges.push(Edge::Right);
        }
        if edges.len() == 1 {
            Some(edges[0])
        } else {
            None
        }
    }
}

/// `area` shrunk by an exclusive zone of `z` pixels against `edge`.
pub open spec fn shrunk(area: Rectangle, edge: Edge, z: int) -> Rectangle {
    match edge {
        Edge::Top => Rectangle { y: (area.y + z) as i32, h: (area.h - z) as i32, ..area },
        Edge::Bottom => Rectangle { h: (area.h - z) as i32, ..area },
        Edge::Left => Rectangle { x: (area.x + z) as i32, w: (area.w - z) as i32, ..area },
        Edge::Right => Rectangle { w: (area.w - z) as i32, ..area },
    }
}

/// What [`shrink_by_exclusive_zone`] returns: `area` less the exclusive
/// pixels (the zone's value taken as an `i32`) from the reserved edge, or
/// `area` itself.
pub open spec fn spec_shrink(area: Rectangle, anchor: Anchor, zone: ExclusiveZone) -> Rectangle {
    match zone {
        ExclusiveZone::Exclusive(z) => match spec_exclusive_edge(anchor) {
            Some(edge) => shrunk(area, edge, (z as i32) as int),
            None => area,
        },
        _ => area,
    }
}

/// The coordinates that change stay `i32`s.
pub open spec fn shrink_in_range(area: Rectangle, anchor: Anchor, zone: ExclusiveZone) -> bool {
    match zone {
        ExclusiveZone::Exclusive(z) => match spec_exclusive_edge(anchor) {
            Some(edge) => {
                let zz = (z as i32) as int;
                match edge {
                    Edge::Top => is_i32(area.y + zz) && is_i32(area.h - zz),
                    Edge::Bottom => is_i32(area.h - zz),
                    Edge::Left => is_i32(area.x + zz) && is_i32(area.w - zz),
                    Edge::Right => is_i32(area.w - zz),
                }
            },
            None => true,
        },
        _ => true,
    }
}

/// An exclusive zone of `z` pixels takes `z` pixels off the usable area
/// at the one edge the surface is anchored to (alone, or together with
/// both perpendicular edges), and leaves the opposite edge and the other
/// axis where they were; with no such edge, or a zone that is not
/// exclusive, the area is unchanged.
pub proof fn law_exclusive_zone_takes_from_its_edge(area: Rectangle, anchor: Anchor, zone: ExclusiveZone)
    requires
        shrink_in_range(area, anchor, zone),
        zone matches ExclusiveZone::Exclusive(z) ==> z <= i32::MAX,
    ensures
        ({
            let r = spec_shrink(area, anchor, zone);
            let z: int = match zone {
                ExclusiveZone::Exclusive(z) => z as int,
                _ => 0,
            };
            let top = anchor.top && !anchor.bottom && anchor.left == anchor.right;
            let bottom = anchor.bottom && !anchor.top && anchor.left == anchor.right;
            let left = anchor.left && !anchor.right && anchor.top == anchor.bottom;
            let right = anchor.right && !anchor.left && anchor.top == anchor.bottom;
            &&& zone is Exclusive && top ==> r.y == area.y + z && r.y + r.h == area.y + area.h && r.x == area.x && r.w
                == area.w
            &&& zone is Exclusive && bottom ==> r.y == area.y && r.y + r.h == area.y + area.h - z && r.x == area.x && r.w
                == area.w
            &&& zone is Exclusive && left ==> r.x == area.x + z && r.x + r.w == area.x + area.w && r.y == area.y && r.h
                == area.h
            &&& zone is Exclusive && right ==> r.x == area.x && r.x + r.w == area.x + area.w - z && r.y == area.y && r.h
                == area.h
            &&& !(zone is Exclusive && (top || bottom || left || right)) ==> r == area
        }),
{
}

/// Shrink `area` by `zone`'s exclusive pixels from whichever edge `anchor`
/// reserves against (see [`exclusive_edge`]). A zone that is not
/// [`ExclusiveZone::Exclusive`], or an anchor with no single reserved edge,
/// leaves `area` unchanged.
pub fn shrink_by_exclusive_zone(area: Rectangle, anchor: Anchor, zone: ExclusiveZone) -> (r: Rectangle)
    requires
        shrink_in_range(area, anchor, zone),
    ensures
        r == spec_shrink(area, anchor, zone),
{
    let z = match zone {
        ExclusiveZone::Exclusive(z) => z,
        _ => return area,
    };
    let zone = z as i32;
    let mut area = area;
    match exclusive_edge(anchor) {
        Some(Edge::Top) => {
            area.y = area.y + zone;
            area.h = area.h - zone;
        },
        Some(Edge::Bottom) => {
            area.h = area.h - zone;
        },
        Some(Edge::Left) => {
            area.x = area.x + zone;
            area.w = area.w - zone;
        },
        Some(Edge::Right) => {
            area.w = area.w - zone;
        },
        None => {},
    }
    area
}



fn fits_i32(a: i64) -> (b: bool)
    ensures
        b == is_i32(a as int),
{
    -2147483648 <= a && a <= 2147483647
}

/// Half of `a`, rounded toward zero.
fn half_i64(a: i64) -> (r: i64)
    requires
        -0x4000_0000_0000_0000 <= a <= 0x4000_0000_0000_0000,
    ensures
        r == half(a as int),
{
    if a >= 0 {
        a / 2
    } else {
        let b: i64 = -a;
        -(b / 2)
    }
}

/// Whether [`arrange`] stays within `i32` for these arguments.
pub fn arrange_fits(output: Rectangle, anchor: Anchor, size: Size, margin: Margins) -> (b: bool)
    ensures
        b == arrange_in_range(output, anchor, size, margin),
{
    let (ox, oy, ow, oh) = (output.x as i64, output.y as i64, output.w as i64, output.h as i64);
    let (ml, mr, mt, mb) = (margin.left as i64, margin.right as i64, margin.top as i64, margin.bottom as i64);
    let fill_w = size.w == 0 || anchor.anchored_horizontally();
    let fill_h = size.h == 0 || anchor.anchored_vertically();
    let width: i64 = if fill_w {
        ow - ml - mr
    } else {
        size.w as i64
    };
    let height: i64 = if fill_h {
        oh - mt - mb
    } else {
        size.h as i64
    };
    let w_ok = !fill_w || (fits_i32(ow - ml) && fits_i32(width));
    let h_ok = !fill_h || (fits_i32(oh - mt) && fits_i32(height));
    let x_ok = if anchor.left {
        fits_i32(ox + ml)
    } else if anchor.right {
        fits_i32(ox + ow) && fits_i32(ox + ow - width) && fits_i32(ox + ow - width - mr)
    } else {
        fits_i32(ow - width) && fits_i32(ox + half_i64(ow - width))
    };
    let y_ok = if anchor.top {
        fits_i32(oy + mt)
    } else if anchor.bottom {
        fits_i32(oy + oh) && fits_i32(oy + oh - height) && fits_i32(oy + oh - height - mb)
    } else {
        fits_i32(oh - height) && fits_i32(oy + half_i64(oh - height))
    };
    w_ok && h_ok && x_ok && y_ok
}

/// Whether [`shrink_by_exclusive_zone`] stays within `i32` for these
/// arguments.
pub fn shrink_fits(area: Rectangle, anchor: Anchor, zone: ExclusiveZone) -> (b: bool)
    ensures
        b == shrink_in_range(area, anchor, zone),
{
    let z: i64 = match zone {
        ExclusiveZone::Exclusive(z) => (z as i32) as i64,
        _ => return true,
    };
    match exclusive_edge(anchor) {
        Some(Edge::Top) => fits_i32(area.y as i64 + z) && fits_i32(area.h as i64 - z),
        Some(Edge::Bottom) => fits_i32(area.h as i64 - z),
        Some(Edge::Left) => fits_i32(area.x as i64 + z) && fits_i32(area.w as i64 - z),
        Some(Edge::Right) => fits_i32(area.w as i64 - z),
        None => true,
    }
}

/// The four `wlr_layer_shell` layers, bottom-most first.
#[derive(Debug, Clone, Copy, PartialEq, Eq, Structural)]
pub enum Layer {
    Background,
    Bottom,
    Top,
    Overlay,
}

/// What the layout reads of one layer surface: its layer and the state it
/// last committed.
#[derive(Debug, Clone, Copy, PartialEq, Eq, Structural)]
pub struct LayerSurfaceState {
    pub layer: Layer,
    pub anchor: Anchor,
    pub size: Size,
    pub margin: Margins,
    pub zone: ExclusiveZone,
}

/// The rectangle [`arrange`] gives.
pub open spec fn arranged(output: Rectangle, anchor: Anchor, size: Size, margin: Margins) -> Rectangle {
    let w = arranged_width(output, anchor, size, margin);
    let h = arranged_height(output, anchor, size, margin);
    Rectangle {
        x: arranged_x(output, anchor, size, margin) as i32,
        y: arranged_y(output, anchor, size, margin) as i32,
        w: (if w > 0 { w } else { 0 }) as i32,
        h: (if h > 0 { h } else { 0 }) as i32,
    }
}

/// The positions among the first `n` of `s` of the surfaces on layer `l`,
/// in order.
pub open spec fn in_layer(s: Seq<LayerSurfaceState>, l: Layer, n: int) -> Seq<int>
    decreases n,
{
    if n <= 0 {
        Seq::empty()
    } else if s[n - 1].layer == l {
        in_layer(s, l, n - 1).push(n - 1)
    } else {
        in_layer(s, l, n - 1)
    }
}

/// The order in which the surfaces are arranged: layer by layer from the
/// background up, and within a layer in the order given.
pub open spec fn stacking(s: Seq<LayerSurfaceState>) -> Seq<int> {
    let n = s.len() as int;
    in_layer(s, Layer::Background, n) + in_layer(s, Layer::Bottom, n) + in_layer(s, Layer::Top, n) + in_layer(
        s,
        Layer::Overlay,
        n,
    )
}

/// The area left of `output` once the surfaces at positions `order` have
/// taken their exclusive zones, in that order.
pub open spec fn usable_after(output: Rectangle, s: Seq<LayerSurfaceState>, order: Seq<int>) -> Rectangle
    decreases order.len(),
{
    if order.len() == 0 {
        output
    } else {
        let i = order.last();
        spec_shrink(usable_after(output, s, order.drop_last()), s[i].anchor, s[i].zone)
    }
}

/// Every surface's geometry stays within `i32`.
pub open spec fn geometry_in_range(output: Rectangle, s: Seq<LayerSurfaceState>) -> bool {
    forall|i: int| 0 <= i < s.len() ==> arrange_in_range(output, #[trigger] s[i].anchor, s[i].size, s[i].margin)
}

/// Every step of taking the exclusive zones, in arranging order, stays
/// within `i32`.
pub open spec fn zones_in_range(output: Rectangle, s: Seq<LayerSurfaceState>) -> bool {
    forall|k: int|
        0 <= k < stacking(s).len() ==> shrink_in_range(
            usable_after(output, s, stacking(s).take(k)),
            s[#[trigger] stacking(s)[k]].anchor,
            s[stacking(s)[k]].zone,
        )
}

/// The first `p` steps of taking the exclusive zones stay within `i32`.
pub open spec fn zones_fit_prefix(output: Rectangle, s: Seq<LayerSurfaceState>, p: int) -> bool {
    forall|k: int|
        0 <= k < p ==> shrink_in_range(
            usable_after(output, s, stacking(s).take(k)),
            s[#[trigger] stacking(s)[k]].anchor,
            s[stacking(s)[k]].zone,
        )
}

/// Every surface's geometry, and every step of taking the exclusive
/// zones, stays within `i32`.
pub open spec fn layers_in_range(output: Rectangle, s: Seq<LayerSurfaceState>) -> bool {
    geometry_in_range(output, s) && zones_in_range(output, s)
}

/// `placed` holds, in order, the positions `order` with the geometry
/// [`arrange`] gives each of those surfaces.
pub open spec fn placed_in_order(output: Rectangle, s: Seq<LayerSurfaceState>, placed: Seq<(usize, Rectangle)>, order: Seq<int>) -> bool {
    &&& placed.len() == order.len()
    &&& forall|k: int|
        0 <= k < placed.len() ==> {
            let i = order[k];
            &&& (#[trigger] placed[k]).0 == i
            &&& placed[k].1 == arranged(output, s[i].anchor, s[i].size, s[i].margin)
        }
}

proof fn lemma_placed_push(
    output: Rectangle,
    s: Seq<LayerSurfaceState>,
    placed: Seq<(usize, Rectangle)>,
    order: Seq<int>,
    i: usize,
    g: Rectangle,
)
    requires
        placed_in_order(output, s, placed, order),
        g == arranged(output, s[i as int].anchor, s[i as int].size, s[i as int].margin),
    ensures
        placed_in_order(output, s, placed.push((i, g)), order.push(i as int)),
{
    let p2 = placed.push((i, g));
    let o2 = order.push(i as int);
    assert forall|k: int| 0 <= k < p2.len() implies {
        let j = o2[k];
        &&& (#[trigger] p2[k]).0 == j
        &&& p2[k].1 == arranged(output, s[j].anchor, s[j].size, s[j].margin)
    } by {
        if k < placed.len() {
            assert(p2[k] == placed[k]);
            assert(o2[k] == order[k]);
        }
    }
}

proof fn lemma_prefix_in_layer(s: Seq<LayerSurfaceState>, l: Layer, i: int, n: int)
    requires
        0 <= i <= n,
    ensures
        in_layer(s, l, i).len() <= in_layer(s, l, n).len(),
        in_layer(s, l, n).subrange(0, in_layer(s, l, i).len() as int) == in_layer(s, l, i),
    decreases n - i,
{
    if i < n {
        lemma_prefix_in_layer(s, l, i, n - 1);
        let a = in_layer(s, l, n - 1);
        let b = in_layer(s, l, n);
        let p = in_layer(s, l, i).len() as int;
        if s[n - 1].layer == l {
            assert(b.subrange(0, p) =~= a.subrange(0, p));
        }
    } else {
        assert(in_layer(s, l, n).subrange(0, in_layer(s, l, n).len() as int) =~= in_layer(s, l, n));
    }
}


/// The surface at position `i` on layer `l` is arranged right after the
/// ones before it on that layer.
proof fn lemma_step_position(s: Seq<LayerSurfaceState>, l: Layer, done: Seq<int>, i: int)
    requires
        0 <= i < s.len(),
        s[i].layer == l,
        done.len() + in_layer(s, l, s.len() as int).len() <= stacking(s).len(),
        stacking(s).take((done.len() + in_layer(s, l, s.len() as int).len()) as int) == done + in_layer(s, l, s.len() as int),
    ensures
        in_layer(s, l, i + 1) == in_layer(s, l, i).push(i),
        done.len() + in_layer(s, l, i).len() < stacking(s).len(),
        stacking(s)[(done.len() + in_layer(s, l, i).len()) as int] == i,
        stacking(s).take((done.len() + in_layer(s, l, i).len()) as int) == done + in_layer(s, l, i),
{
    let n = s.len() as int;
    let all = in_layer(s, l, n);
    let order = stacking(s);
    let before = done + in_layer(s, l, i);
    lemma_prefix_in_layer(s, l, i + 1, n);
    let m = in_layer(s, l, i).len() as int;
    assert(in_layer(s, l, i + 1) == in_layer(s, l, i).push(i));
    assert(all.subrange(0, m + 1)[m] == all[m]);
    let k = done.len() + m;
    assert(order.take((done.len() + all.len()) as int)[k] == (done + all)[k]);
    assert forall|j: int| 0 <= j < k implies order.take(k)[j] == before[j] by {
        assert(order.take((done.len() + all.len()) as int)[j] == (done + all)[j]);
        if j >= done.len() {
            assert(all.subrange(0, m + 1)[j - done.len()] == all[j - done.len()]);
        }
    }
    assert(order.take(k) =~= before);
}

proof fn lemma_zones_extend(output: Rectangle, s: Seq<LayerSurfaceState>, k: int)
    requires
        0 <= k < stacking(s).len(),
        zones_fit_prefix(output, s, k),
        shrink_in_range(usable_after(output, s, stacking(s).take(k)), s[stacking(s)[k]].anchor, s[stacking(s)[k]].zone),
    ensures
        zones_fit_prefix(output, s, k + 1),
{
}

/// Arrange the surfaces of layer `l`, in order: append each one's position
/// and geometry to `placed` and take its exclusive zone from `usable`.
/// Stops with `false` at the first exclusive zone that would leave `i32`.
fn arrange_layer(
    output: Rectangle,
    surfaces: &[LayerSurfaceState],
    l: Layer,
    placed: &mut Vec<(usize, Rectangle)>,
    usable: &mut Rectangle,
    Ghost(done): Ghost<Seq<int>>,
) -> (ok: bool)
    requires
        geometry_in_range(output, surfaces@),
        done.len() + in_layer(surfaces@, l, surfaces@.len() as int).len() <= stacking(surfaces@).len(),
        stacking(surfaces@).take((done.len() + in_layer(surfaces@, l, surfaces@.len() as int).len()) as int)
            == done + in_layer(surfaces@, l, surfaces@.len() as int),
        placed_in_order(output, surfaces@, old(placed)@, done),
        *old(usable) == usable_after(output, surfaces@, done),
        zones_fit_prefix(output, surfaces@, done.len() as int),
    ensures
        ok ==> zones_fit_prefix(output, surfaces@, (done.len() + in_layer(surfaces@, l, surfaces@.len() as int).len()) as int),
        ok ==> placed_in_order(output, surfaces@, final(placed)@, done + in_layer(surfaces@, l, surfaces@.len() as int)),
        ok ==> *final(usable) == usable_after(output, surfaces@, done + in_layer(surfaces@, l, surfaces@.len() as int)),
        !ok ==> !zones_in_range(output, surfaces@),
{
    let ghost s = surfaces@;
    let ghost n = s.len() as int;
    let ghost all = in_layer(s, l, n);
    let ghost order = stacking(s);
    proof {
        assert(done + in_layer(s, l, 0) =~= done);
    }
    let mut i: usize = 0;
    while i < surfaces.len()
        invariant
            i <= n,
            n == s.len(),
            s == surfaces@,
            all == in_layer(s, l, n),
            order == stacking(s),
            geometry_in_range(output, s),
            done.len() + all.len() <= order.len(),
            order.take((done.len() + all.len()) as int) == done + all,
            placed_in_order(output, s, placed@, done + in_layer(s, l, i as int)),
            *usable == usable_after(output, s, done + in_layer(s, l, i as int)),
            zones_fit_prefix(output, s, (done.len() + in_layer(s, l, i as int).len()) as int),
        decreases n - i,
    {
        let ghost before = done + in_layer(s, l, i as int);
        if surfaces[i].layer == l {
            let sf = surfaces[i];
            let ghost k: int = before.len() as int;
            proof {
                lemma_step_position(s, l, done, i as int);
                assert(arrange_in_range(output, s[i as int].anchor, s[i as int].size, s[i as int].margin));
            }
            if !shrink_fits(*usable, sf.anchor, sf.zone) {
                proof {
                    assert(!shrink_in_range(usable_after(output, s, order.take(k)), s[order[k]].anchor, s[order[k]].zone));
                }
                return false;
            }
            let geometry = arrange(output, sf.anchor, sf.size, sf.margin);
            let next = shrink_by_exclusive_zone(*usable, sf.anchor, sf.zone);
            proof {
                lemma_placed_push(output, s, placed@, before, i, geometry);
                lemma_zones_extend(output, s, k);
                let after = done + in_layer(s, l, i as int + 1);
                assert(after =~= before.push(i as int));
                assert(after.drop_last() =~= before);
            }
            *usable = next;
            placed.push((i, geometry));
        } else {
            proof {
                assert(in_layer(s, l, i as int + 1) == in_layer(s, l, i as int));
            }
        }
        i = i + 1;
    }
    true
}

/// Arrange the surfaces layer by layer from the background up, or `None`
/// at the first exclusive zone that would leave `i32`.
fn arrange_checked(output: Rectangle, surfaces: &[LayerSurfaceState]) -> (r: Option<(Vec<(usize, Rectangle)>, Rectangle)>)
    requires
        geometry_in_range(output, surfaces@),
    ensures
        match r {
            Some((placed, usable)) => {
                &&& zones_in_range(output, surfaces@)
                &&& placed_in_order(output, surfaces@, placed@, stacking(surfaces@))
                &&& usable == usable_after(output, surfaces@, stacking(surfaces@))
            },
            None => !zones_in_range(output, surfaces@),
        },
{
    let ghost s = surfaces@;
    let ghost n = s.len() as int;
    let ghost a = in_layer(s, Layer::Background, n);
    let ghost b = in_layer(s, Layer::Bottom, n);
    let ghost c = in_layer(s, Layer::Top, n);
    let ghost d = in_layer(s, Layer::Overlay, n);
    let mut placed: Vec<(usize, Rectangle)> = Vec::new();
    let mut usable = output;
    proof {
        assert(stacking(s) == a + b + c + d);
        assert(stacking(s).take(a.len() as int) =~= Seq::<int>::empty() + a);
        assert(placed_in_order(output, s, placed@, Seq::<int>::empty()));
        assert(zones_fit_prefix(output, s, 0));
    }
    if !arrange_layer(output, surfaces, Layer::Background, &mut placed, &mut usable, Ghost(Seq::empty())) {
        return None;
    }
    proof {
        assert(Seq::<int>::empty() + a =~= a);
        assert(stacking(s).take((a + b).len() as int) =~= a + b);
    }
    if !arrange_layer(output, surfaces, Layer::Bottom, &mut placed, &mut usable, Ghost(a)) {
        return None;
    }
    proof {
        assert(stacking(s).take((a + b + c).len() as int) =~= a + b + c);
    }
    if !arrange_layer(output, surfaces, Layer::Top, &mut placed, &mut usable, Ghost(a + b)) {
        return None;
    }
    proof {
        assert(stacking(s).take((a + b + c + d).len() as int) =~= a + b + c + d);
    }
    if !arrange_layer(output, surfaces, Layer::Overlay, &mut placed, &mut usable, Ghost(a + b + c)) {
        return None;
    }
    proof {
        assert(zones_fit_prefix(output, s, stacking(s).len() as int));
    }
    Some((placed, usable))
}

/// Whether [`arrange_layers`] stays within `i32` for these arguments.
pub fn layers_fit(output: Rectangle, surfaces: &[LayerSurfaceState]) -> (b: bool)
    ensures
        b == layers_in_range(output, surfaces@),
{
    let mut i: usize = 0;
    while i < surfaces.len()
        invariant
            i <= surfaces@.len(),
            forall|j: int| 0 <= j < i ==> arrange_in_range(output, #[trigger] surfaces@[j].anchor, surfaces@[j].size, surfaces@[j].margin),
        decreases surfaces@.len() - i,
    {
        let sf = surfaces[i];
        if !arrange_fits(output, sf.anchor, sf.size, sf.margin) {
            return false;
        }
        i = i + 1;
    }
    match arrange_checked(output, surfaces) {
        Some(_) => true,
        None => false,
    }
}

/// Arrange every layer surface on `output`: each surface's position in
/// `surfaces` with its geometry, layer by layer from the background up,
/// and the area left once all their exclusive zones are taken.
pub fn arrange_layers(output: Rectangle, surfaces: &[LayerSurfaceState]) -> (r: (Vec<(usize, Rectangle)>, Rectangle))
    requires
        layers_in_range(output, surfaces@),
    ensures
        r.0@.len() == stacking(surfaces@).len(),
        forall|k: int|
            0 <= k < r.0@.len() ==> {
                let i = stacking(surfaces@)[k];
                &&& (#[trigger] r.0@[k]).0 == i
                &&& r.0@[k].1 == arranged(output, surfaces@[i].anchor, surfaces@[i].size, surfaces@[i].margin)
            },
        r.1 == usable_after(output, surfaces@, stacking(surfaces@)),
{
    match arrange_checked(output, surfaces) {
        Some(r) => r,
        None => (Vec::new(), output),
    }
}


/// The last of the layer surfaces (topmost, in arranging order) whose
/// keyboard interactivity is exclusive: it takes keyboard focus.
pub fn topmost_exclusive(exclusive: &[bool]) -> (r: Option<usize>)
    ensures
        match r {
            Some(i) => i < exclusive@.len() && exclusive@[i as int] && forall|j: int|
                i < j < exclusive@.len() ==> !exclusive@[j],
            None => forall|j: int| 0 <= j < exclusive@.len() ==> !exclusive@[j],
        },
{
    let mut i: usize = exclusive.len();
    while i > 0
        invariant
            i <= exclusive@.len(),
            forall|j: int| i <= j < exclusive@.len() ==> !exclusive@[j],
        decreases i,
    {
        if exclusive[i - 1] {
            return Some(i - 1);
        }
        i = i - 1;
    }
    None
}

} // verus!
