//! Cursor frames: picking the frame of an animated cursor for a point in
//! time, choosing the frames of the best-sized cursor image, and the
//! built-in arrow used when no cursor theme is found.

use vstd::prelude::*;

verus! {

/// One cursor image frame.
pub struct CursorFrame {
    /// RGBA8888, row-major (byte order `R,G,B,A`).
    pub pixels: Vec<u8>,
    pub width: u32,
    pub height: u32,
    pub hotspot_x: i32,
    pub hotspot_y: i32,
    pub delay_ms: u32,
}

/// The frames of a (possibly animated) cursor.
pub struct CursorFrames {
    pub frames: Vec<CursorFrame>,
}

/// One image of an xcursor file, as the cursor theme parser reads it.
pub struct CursorImage {
    /// The nominal size the image is drawn for.
    pub size: u32,
    pub width: u32,
    pub height: u32,
    pub xhot: u32,
    pub yhot: u32,
    /// How long the image is shown, in milliseconds.
    pub delay: u32,
    pub pixels_rgba: Vec<u8>,
}

/// Sum of the first `k` delays.
pub open spec fn delay_prefix(d: Seq<u32>, k: int) -> int
    decreases k,
{
    if k <= 0 || d.len() == 0 {
        0
    } else if k > d.len() {
        delay_prefix(d, d.len() as int)
    } else {
        delay_prefix(d, k - 1) + d[k - 1]
    }
}

/// Sum of all delays: the length of one animation cycle.
pub open spec fn delay_total(d: Seq<u32>) -> int {
    delay_prefix(d, d.len() as int)
}

/// The first frame at or after `k` that is still showing at time `t` of
/// the cycle (`0` when none is).
pub open spec fn frame_from(d: Seq<u32>, t: int, k: int) -> int
    decreases d.len() - k,
{
    if k >= d.len() || k < 0 {
        0
    } else if t < delay_prefix(d, k + 1) {
        k
    } else {
        frame_from(d, t, k + 1)
    }
}

/// The index of the frame shown at `time_ms`: the only frame of a
/// one-frame cursor, the first frame when all delays are `0`, otherwise
/// the frame whose slice of the cycle holds `time_ms` modulo the cycle.
pub open spec fn frame_index(d: Seq<u32>, time_ms: u32) -> int {
    if d.len() == 1 || delay_total(d) == 0 {
        0
    } else {
        frame_from(d, time_ms as int % delay_total(d), 0)
    }
}

/// The delays of the frames.
pub open spec fn delays(frames: Seq<CursorFrame>) -> Seq<u32> {
    frames.map_values(|f: CursorFrame| f.delay_ms)
}

proof fn lemma_prefix_step(d: Seq<u32>, k: int)
    requires
        0 <= k < d.len(),
    ensures
        delay_prefix(d, k + 1) == delay_prefix(d, k) + d[k],
        delay_prefix(d, k) <= delay_total(d),
{
    lemma_prefix_mono(d, k, d.len() as int);
}

proof fn lemma_prefix_mono(d: Seq<u32>, a: int, b: int)
    requires
        0 <= a <= b <= d.len(),
    ensures
        delay_prefix(d, a) <= delay_prefix(d, b),
    decreases b - a,
{
    if a < b {
        lemma_prefix_mono(d, a, b - 1);
    }
}

proof fn lemma_frame_from_window(d: Seq<u32>, t: int, k: int)
    requires
        0 <= k < d.len(),
        delay_prefix(d, k) <= t < delay_total(d),
    ensures
        k <= frame_from(d, t, k) < d.len(),
        delay_prefix(d, frame_from(d, t, k)) <= t < delay_prefix(d, frame_from(d, t, k) + 1),
    decreases d.len() - k,
{
    lemma_prefix_step(d, k);
    if t >= delay_prefix(d, k + 1) {
        if k + 1 == d.len() {
            assert(false);
        }
        lemma_frame_from_window(d, t, k + 1);
    }
}

/// An animated cursor shows, at each moment, the frame whose slice of the
/// cycle holds that moment: with `t` the time modulo the cycle's length,
/// the frames before it take up at most `t` milliseconds and the frame
/// itself runs past `t`.
pub proof fn law_frame_shown_covers_the_moment(d: Seq<u32>, time_ms: u32)
    requires
        d.len() > 1,
        delay_total(d) > 0,
    ensures
        0 <= frame_index(d, time_ms) < d.len(),
        delay_prefix(d, frame_index(d, time_ms)) <= time_ms as int % delay_total(d) < delay_prefix(
            d,
            frame_index(d, time_ms) + 1,
        ),
{
    let t = time_ms as int % delay_total(d);
    assert(0 <= t < delay_total(d)) by (nonlinear_arith)
        requires
            delay_total(d) > 0,
            t == time_ms as int % delay_total(d),
            time_ms >= 0,
    ;
    lemma_frame_from_window(d, t, 0);
}

impl CursorFrames {
    /// The frame to show at `time_ms` (milliseconds), cycling through the
    /// frames by their delays.
    pub fn frame_at(&self, time_ms: u32) -> (f: &CursorFrame)
        requires
            self.frames@.len() > 0,
            delay_total(delays(self.frames@)) <= u32::MAX,
        ensures
            *f == self.frames@[frame_index(delays(self.frames@), time_ms)],
    {
        let ghost d = delays(self.frames@);
        if self.frames.len() == 1 {
            return &self.frames[0];
        }
        let mut total: u32 = 0;
        let mut i: usize = 0;
        while i < self.frames.len()
            invariant
                i <= self.frames@.len(),
                d == delays(self.frames@),
                delay_total(d) <= u32::MAX,
                total == delay_prefix(d, i as int),
            decreases self.frames@.len() - i,
        {
            proof {
                lemma_prefix_step(d, i as int);
                lemma_prefix_mono(d, i + 1, d.len() as int);
                assert(d[i as int] == self.frames@[i as int].delay_ms);
            }
            total = total + self.frames[i].delay_ms;
            i = i + 1;
        }
        if total == 0 {
            return &self.frames[0];
        }
        let t = time_ms % total;
        let mut acc: u32 = 0;
        let mut k: usize = 0;
        while k < self.frames.len()
            invariant
                k <= self.frames@.len(),
                d == delays(self.frames@),
                total == delay_total(d),
                total > 0,
                t < total,
                t == time_ms % total,
                d.len() != 1,
                acc == delay_prefix(d, k as int),
                frame_from(d, t as int, 0) == frame_from(d, t as int, k as int),
            decreases self.frames@.len() - k,
        {
            proof {
                lemma_prefix_step(d, k as int);
                lemma_prefix_mono(d, k + 1, d.len() as int);
                assert(d[k as int] == self.frames@[k as int].delay_ms);
            }
            acc = acc + self.frames[k].delay_ms;
            if t < acc {
                proof {
                    assert(frame_from(d, t as int, k as int) == k);
                    assert(frame_index(d, time_ms) == k);
                }
                return &self.frames[k];
            }
            k = k + 1;
        }
        proof {
            assert(acc == delay_total(d));
        }
        &self.frames[0]
    }
}

/// The frame made from an image: same pixels, size and hotspot, shown for
/// its delay but at least 1 ms.
pub open spec fn frame_of(img: CursorImage) -> (u32, u32, i32, i32, u32, Seq<u8>) {
    (img.width, img.height, img.xhot as i32, img.yhot as i32, if img.delay >= 1 { img.delay } else { 1 }, img.pixels_rgba@)
}

pub open spec fn frame_fields(f: CursorFrame) -> (u32, u32, i32, i32, u32, Seq<u8>) {
    (f.width, f.height, f.hotspot_x, f.hotspot_y, f.delay_ms, f.pixels@)
}

/// How far `s` is from `size`.
pub open spec fn size_distance(s: u32, size: u32) -> int {
    if s >= size {
        s - size
    } else {
        size - s
    }
}

/// The nominal size closest to `size` among `images`, the first such one
/// when several are equally close.
pub open spec fn is_best_size(images: Seq<CursorImage>, size: u32, k: int) -> bool {
    &&& 0 <= k < images.len()
    &&& forall|j: int| 0 <= j < images.len() ==> size_distance(images[k].size, size) <= #[trigger] size_distance(images[j].size, size)
    &&& forall|j: int| 0 <= j < k ==> size_distance(images[k].size, size) < #[trigger] size_distance(images[j].size, size)
}

fn distance(s: u32, size: u32) -> (r: u32)
    ensures
        r == size_distance(s, size),
{
    if s >= size {
        s - size
    } else {
        size - s
    }
}

/// `frames` are the animation frames for the image size closest to
/// `size`, in file order (none when there are no images).
pub open spec fn picked_frames(images: Seq<CursorImage>, size: u32, frames: Seq<CursorFrame>) -> bool {
    &&& images.len() == 0 ==> frames.len() == 0
    &&& images.len() > 0 ==> exists|k: int| {
        &&& is_best_size(images, size, k)
        &&& frames.map_values(|f: CursorFrame| frame_fields(f)) == images.filter(
            |img: CursorImage| img.size == images[k].size,
        ).map_values(|img: CursorImage| frame_of(img))
    }
}

/// The animation frames for the image size closest to `size`, in file
/// order (none when there are no images).
pub fn pick_size_frames(images: &[CursorImage], size: u32) -> (frames: Vec<CursorFrame>)
    ensures
        picked_frames(images@, size, frames@),
{
    let mut frames: Vec<CursorFrame> = Vec::new();
    if images.len() == 0 {
        return frames;
    }
    let mut best: usize = 0;
    let mut i: usize = 1;
    while i < images.len()
        invariant
            1 <= i <= images@.len(),
            best < i,
            forall|j: int| 0 <= j < i ==> size_distance(images@[best as int].size, size) <= #[trigger] size_distance(images@[j].size, size),
            forall|j: int| 0 <= j < best ==> size_distance(images@[best as int].size, size) < #[trigger] size_distance(images@[j].size, size),
        decreases images@.len() - i,
    {
        if distance(images[i].size, size) < distance(images[best].size, size) {
            best = i;
        }
        i = i + 1;
    }
    let best_size = images[best].size;
    let ghost pred = |img: CursorImage| img.size == best_size;
    let ghost fmap = |img: CursorImage| frame_of(img);
    let ghost gmap = |f: CursorFrame| frame_fields(f);
    let mut j: usize = 0;
    while j < images.len()
        invariant
            j <= images@.len(),
            frames@.map_values(gmap) == images@.take(j as int).filter(pred).map_values(fmap),
            forall|img: CursorImage| #[trigger] pred(img) == (img.size == best_size),
            forall|img: CursorImage| #[trigger] fmap(img) == frame_of(img),
            forall|f: CursorFrame| #[trigger] gmap(f) == frame_fields(f),
        decreases images@.len() - j,
    {
        proof {
            assert(images@.take(j + 1).drop_last() =~= images@.take(j as int));
        }
        let img = &images[j];
        if img.size == best_size {
            let pixels = img.pixels_rgba.clone();
            proof {
                assert(pixels@ =~= img.pixels_rgba@);
            }
            let delay = if img.delay >= 1 {
                img.delay
            } else {
                1
            };
            let f = CursorFrame {
                pixels,
                width: img.width,
                height: img.height,
                hotspot_x: img.xhot as i32,
                hotspot_y: img.yhot as i32,
                delay_ms: delay,
            };
            let ghost before = frames@;
            frames.push(f);
            proof {
                assert(frames@.map_values(gmap) =~= before.map_values(gmap).push(gmap(f)));
                reveal_with_fuel(Seq::<_>::filter, 1);
                assert(pred(images@[j as int]));
                assert(images@.take(j + 1).last() == images@[j as int]);
                assert(images@.take(j + 1).filter(pred) =~= images@.take(j as int).filter(pred).push(images@[j as int]));
                assert(images@.take(j + 1).filter(pred).map_values(fmap) =~= images@.take(j as int).filter(pred).map_values(fmap).push(fmap(images@[j as int])));
            }
        } else {
            proof {
                reveal_with_fuel(Seq::<_>::filter, 1);
                assert(!pred(images@[j as int]));
                assert(images@.take(j + 1).last() == images@[j as int]);
                assert(images@.take(j + 1).filter(pred) =~= images@.take(j as int).filter(pred));
            }
        }
        j = j + 1;
    }
    proof {
        assert(images@.take(j as int) =~= images@);
        assert(is_best_size(images@, size, best as int));
    }
    frames
}

/// The built-in arrow's mask: `1` for fill, `2` for outline, `0` for
/// transparent, row by row.
pub open spec fn arrow_mask() -> Seq<Seq<u8>> {
    seq![
        seq![2u8, 0u8, 0u8, 0u8, 0u8, 0u8, 0u8, 0u8, 0u8, 0u8, 0u8, 0u8, 0u8, 0u8, 0u8, 0u8],
        seq![2u8, 2u8, 0u8, 0u8, 0u8, 0u8, 0u8, 0u8, 0u8, 0u8, 0u8, 0u8, 0u8, 0u8, 0u8, 0u8],
        seq![2u8, 1u8, 2u8, 0u8, 0u8, 0u8, 0u8, 0u8, 0u8, 0u8, 0u8, 0u8, 0u8, 0u8, 0u8, 0u8],
        seq![2u8, 1u8, 1u8, 2u8, 0u8, 0u8, 0u8, 0u8, 0u8, 0u8, 0u8, 0u8, 0u8, 0u8, 0u8, 0u8],
        seq![2u8, 1u8, 1u8, 1u8, 2u8, 0u8, 0u8, 0u8, 0u8, 0u8, 0u8, 0u8, 0u8, 0u8, 0u8, 0u8],
        seq![2u8, 1u8, 1u8, 1u8, 1u8, 2u8, 0u8, 0u8, 0u8, 0u8, 0u8, 0u8, 0u8, 0u8, 0u8, 0u8],
        seq![2u8, 1u8, 1u8, 1u8, 1u8, 1u8, 2u8, 0u8, 0u8, 0u8, 0u8, 0u8, 0u8, 0u8, 0u8, 0u8],
        seq![2u8, 1u8, 1u8, 1u8, 1u8, 1u8, 1u8, 2u8, 0u8, 0u8, 0u8, 0u8, 0u8, 0u8, 0u8, 0u8],
        seq![2u8, 1u8, 1u8, 1u8, 1u8, 1u8, 1u8, 1u8, 2u8, 0u8, 0u8, 0u8, 0u8, 0u8, 0u8, 0u8],
        seq![2u8, 1u8, 1u8, 1u8, 1u8, 1u8, 2u8, 2u8, 2u8, 0u8, 0u8, 0u8, 0u8, 0u8, 0u8, 0u8],
        seq![2u8, 1u8, 1u8, 2u8, 1u8, 1u8, 2u8, 0u8, 0u8, 0u8, 0u8, 0u8, 0u8, 0u8, 0u8, 0u8],
        seq![2u8, 1u8, 2u8, 0u8, 2u8, 1u8, 1u8, 2u8, 0u8, 0u8, 0u8, 0u8, 0u8, 0u8, 0u8, 0u8],
        seq![2u8, 2u8, 0u8, 0u8, 0u8, 2u8, 1u8, 1u8, 2u8, 0u8, 0u8, 0u8, 0u8, 0u8, 0u8, 0u8],
        seq![0u8, 0u8, 0u8, 0u8, 0u8, 0u8, 2u8, 1u8, 1u8, 2u8, 0u8, 0u8, 0u8, 0u8, 0u8, 0u8],
        seq![0u8, 0u8, 0u8, 0u8, 0u8, 0u8, 0u8, 2u8, 2u8, 0u8, 0u8, 0u8, 0u8, 0u8, 0u8, 0u8],
        seq![0u8, 0u8, 0u8, 0u8, 0u8, 0u8, 0u8, 0u8, 0u8, 0u8, 0u8, 0u8, 0u8, 0u8, 0u8, 0u8]
    ]
}

/// The RGBA bytes of a mask value: near-black fill, white outline,
/// transparent elsewhere.
pub open spec fn mask_rgba(v: u8) -> Seq<u8> {
    if v == 1 {
        seq![10u8, 10u8, 10u8, 255u8]
    } else if v == 2 {
        seq![255u8, 255u8, 255u8, 255u8]
    } else {
        seq![0u8, 0u8, 0u8, 0u8]
    }
}

/// A built-in 16x16 sharp arrow cursor with its hotspot at the tip, white
/// outline and near-black fill.
pub fn builtin_arrow() -> (f: CursorFrame)
    ensures
        f.width == 16,
        f.height == 16,
        f.hotspot_x == 0,
        f.hotspot_y == 0,
        f.delay_ms == 0,
        f.pixels@.len() == 1024,
        forall|y: int, x: int, c: int|
            0 <= y < 16 && 0 <= x < 16 && 0 <= c < 4 ==> #[trigger] f.pixels@[(y * 16 + x) * 4 + c] == mask_rgba(
                arrow_mask()[y][x],
            )[c],
{
    let mask: [[u8; 16]; 16] = [
        [2u8, 0u8, 0u8, 0u8, 0u8, 0u8, 0u8, 0u8, 0u8, 0u8, 0u8, 0u8, 0u8, 0u8, 0u8, 0u8],
        [2u8, 2u8, 0u8, 0u8, 0u8, 0u8, 0u8, 0u8, 0u8, 0u8, 0u8, 0u8, 0u8, 0u8, 0u8, 0u8],
        [2u8, 1u8, 2u8, 0u8, 0u8, 0u8, 0u8, 0u8, 0u8, 0u8, 0u8, 0u8, 0u8, 0u8, 0u8, 0u8],
        [2u8, 1u8, 1u8, 2u8, 0u8, 0u8, 0u8, 0u8, 0u8, 0u8, 0u8, 0u8, 0u8, 0u8, 0u8, 0u8],
        [2u8, 1u8, 1u8, 1u8, 2u8, 0u8, 0u8, 0u8, 0u8, 0u8, 0u8, 0u8, 0u8, 0u8, 0u8, 0u8],
        [2u8, 1u8, 1u8, 1u8, 1u8, 2u8, 0u8, 0u8, 0u8, 0u8, 0u8, 0u8, 0u8, 0u8, 0u8, 0u8],
        [2u8, 1u8, 1u8, 1u8, 1u8, 1u8, 2u8, 0u8, 0u8, 0u8, 0u8, 0u8, 0u8, 0u8, 0u8, 0u8],
        [2u8, 1u8, 1u8, 1u8, 1u8, 1u8, 1u8, 2u8, 0u8, 0u8, 0u8, 0u8, 0u8, 0u8, 0u8, 0u8],
        [2u8, 1u8, 1u8, 1u8, 1u8, 1u8, 1u8, 1u8, 2u8, 0u8, 0u8, 0u8, 0u8, 0u8, 0u8, 0u8],
        [2u8, 1u8, 1u8, 1u8, 1u8, 1u8, 2u8, 2u8, 2u8, 0u8, 0u8, 0u8, 0u8, 0u8, 0u8, 0u8],
        [2u8, 1u8, 1u8, 2u8, 1u8, 1u8, 2u8, 0u8, 0u8, 0u8, 0u8, 0u8, 0u8, 0u8, 0u8, 0u8],
        [2u8, 1u8, 2u8, 0u8, 2u8, 1u8, 1u8, 2u8, 0u8, 0u8, 0u8, 0u8, 0u8, 0u8, 0u8, 0u8],
        [2u8, 2u8, 0u8, 0u8, 0u8, 2u8, 1u8, 1u8, 2u8, 0u8, 0u8, 0u8, 0u8, 0u8, 0u8, 0u8],
        [0u8, 0u8, 0u8, 0u8, 0u8, 0u8, 2u8, 1u8, 1u8, 2u8, 0u8, 0u8, 0u8, 0u8, 0u8, 0u8],
        [0u8, 0u8, 0u8, 0u8, 0u8, 0u8, 0u8, 2u8, 2u8, 0u8, 0u8, 0u8, 0u8, 0u8, 0u8, 0u8],
        [0u8, 0u8, 0u8, 0u8, 0u8, 0u8, 0u8, 0u8, 0u8, 0u8, 0u8, 0u8, 0u8, 0u8, 0u8, 0u8]
    ];
    proof {
        assert forall|y: int| 0 <= y < 16 implies #[trigger] mask@[y]@ == arrow_mask()[y] by {
            assert(mask@[y]@ =~= arrow_mask()[y]);
        }
    }
    let mut pixels: Vec<u8> = Vec::new();
    let mut y: usize = 0;
    while y < 16
        invariant
            y <= 16,
            pixels@.len() == y * 64,
            forall|yy: int| 0 <= yy < 16 ==> #[trigger] mask@[yy]@ == arrow_mask()[yy],
            forall|yy: int, x: int, c: int|
                0 <= yy < y && 0 <= x < 16 && 0 <= c < 4 ==> #[trigger] pixels@[(yy * 16 + x) * 4 + c] == mask_rgba(
                    arrow_mask()[yy][x],
                )[c],
        decreases 16 - y,
    {
        let mut x: usize = 0;
        while x < 16
            invariant
                y < 16,
                x <= 16,
                pixels@.len() == y * 64 + x * 4,
                forall|yy: int| 0 <= yy < 16 ==> #[trigger] mask@[yy]@ == arrow_mask()[yy],
                forall|yy: int, xx: int, c: int|
                    0 <= yy < y && 0 <= xx < 16 && 0 <= c < 4 ==> #[trigger] pixels@[(yy * 16 + xx) * 4 + c] == mask_rgba(
                        arrow_mask()[yy][xx],
                    )[c],
                forall|xx: int, c: int|
                    0 <= xx < x && 0 <= c < 4 ==> #[trigger] pixels@[(y * 16 + xx) * 4 + c] == mask_rgba(
                        arrow_mask()[y as int][xx],
                    )[c],
            decreases 16 - x,
        {
            let v = mask[y][x];
            let (r, g, b, a): (u8, u8, u8, u8) = if v == 1 {
                (10, 10, 10, 255)
            } else if v == 2 {
                (255, 255, 255, 255)
            } else {
                (0, 0, 0, 0)
            };
            let ghost before = pixels@;
            pixels.push(r);
            pixels.push(g);
            pixels.push(b);
            pixels.push(a);
            proof {
                assert(v == arrow_mask()[y as int][x as int]);
                assert forall|yy: int, xx: int, c: int|
                    0 <= yy < y && 0 <= xx < 16 && 0 <= c < 4 implies #[trigger] pixels@[(yy * 16 + xx) * 4 + c] == mask_rgba(
                        arrow_mask()[yy][xx],
                    )[c] by {
                    assert((yy * 16 + xx) * 4 + c < y * 64) by (nonlinear_arith)
                        requires
                            0 <= yy < y,
                            0 <= xx < 16,
                            0 <= c < 4,
                    ;
                    assert(pixels@[(yy * 16 + xx) * 4 + c] == before[(yy * 16 + xx) * 4 + c]);
                }
                assert forall|xx: int, c: int|
                    0 <= xx < x + 1 && 0 <= c < 4 implies #[trigger] pixels@[(y * 16 + xx) * 4 + c] == mask_rgba(
                        arrow_mask()[y as int][xx],
                    )[c] by {
                    if xx < x {
                        assert(pixels@[(y * 16 + xx) * 4 + c] == before[(y * 16 + xx) * 4 + c]);
                    } else {
                        assert((y * 16 + xx) * 4 + c == before.len() + c);
                    }
                }
            }
            x = x + 1;
        }
        proof {
            assert forall|yy: int, xx: int, c: int|
                0 <= yy < y + 1 && 0 <= xx < 16 && 0 <= c < 4 implies #[trigger] pixels@[(yy * 16 + xx) * 4 + c] == mask_rgba(
                    arrow_mask()[yy][xx],
                )[c] by {
                if yy == y as int {
                } else {
                }
            }
        }
        y = y + 1;
    }
    CursorFrame { pixels, width: 16, height: 16, hotspot_x: 0, hotspot_y: 0, delay_ms: 0 }
}


/// An image's fields: nominal size, width, height, hotspot, delay and
/// pixels.
pub open spec fn image_fields(i: CursorImage) -> (u32, u32, u32, u32, u32, u32, Seq<u8>) {
    (i.size, i.width, i.height, i.xhot, i.yhot, i.delay, i.pixels_rgba@)
}

/// The fields of each image, in order.
pub open spec fn images_fields(v: Seq<CursorImage>) -> Seq<(u32, u32, u32, u32, u32, u32, Seq<u8>)> {
    v.map_values(|i: CursorImage| image_fields(i))
}

/// The images the xcursor parser reads from the file contents `data`
/// (each one's fields, see [`image_fields`]), in file order; `None` when
/// `data` is not a well-formed xcursor file.
pub uninterp spec fn xcursor_images(data: Seq<u8>) -> Option<Seq<(u32, u32, u32, u32, u32, u32, Seq<u8>)>>;

/// `xcursor::parser::parse_xcursor`: the images of an xcursor file, or
/// `None` when the bytes are not one. It reads `data` alone, so its
/// result is named by [`xcursor_images`].
#[verifier::external_body]
fn parse_xcursor(data: &[u8]) -> (r: Option<Vec<CursorImage>>)
    ensures
        r is None <==> xcursor_images(data@) is None,
        r matches Some(v) ==> xcursor_images(data@) == Some(images_fields(v@)),
{
    xcursor::parser::parse_xcursor(data).map(|images| {
        images.into_iter().map(|i| CursorImage {
            size: i.size,
            width: i.width,
            height: i.height,
            xhot: i.xhot,
            yhot: i.yhot,
            delay: i.delay,
            pixels_rgba: i.pixels_rgba,
        }).collect()
    })
}

/// The animation frames of the xcursor file `data` for the image size
/// closest to `size`; none when `data` is not an xcursor file.
pub fn frames_from_xcursor(data: &[u8], size: u32) -> (r: Vec<CursorFrame>)
    ensures
        match xcursor_images(data@) {
            None => r@.len() == 0,
            Some(t) => exists|v: Seq<CursorImage>| #[trigger] images_fields(v) == t && picked_frames(v, size, r@),
        },
{
    match parse_xcursor(data) {
        Some(images) => {
            let r = pick_size_frames(images.as_slice(), size);
            proof {
                assert(images_fields(images@) == images_fields(images@));
            }
            r
        },
        None => Vec::new(),
    }
}

} // verus!
