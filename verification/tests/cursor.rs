use velo_de::cursor::{builtin_arrow, frames_from_xcursor, pick_size_frames, CursorFrame, CursorFrames, CursorImage};

fn frame(delay_ms: u32, tag: u8) -> CursorFrame {
    CursorFrame { pixels: vec![tag; 4], width: 1, height: 1, hotspot_x: 0, hotspot_y: 0, delay_ms }
}

fn image(size: u32, delay: u32, tag: u8) -> CursorImage {
    CursorImage { size, width: 1, height: 1, xhot: 0, yhot: 0, delay, pixels_rgba: vec![tag; 4] }
}

#[test]
fn single_frame_is_always_shown() {
    let f = CursorFrames { frames: vec![frame(0, 1)] };
    assert_eq!(f.frame_at(0).pixels, vec![1; 4]);
    assert_eq!(f.frame_at(123456).pixels, vec![1; 4]);
}

#[test]
fn animated_frames_cycle_by_their_delays() {
    let f = CursorFrames { frames: vec![frame(10, 1), frame(20, 2), frame(30, 3)] };
    assert_eq!(f.frame_at(0).pixels[0], 1);
    assert_eq!(f.frame_at(9).pixels[0], 1);
    assert_eq!(f.frame_at(10).pixels[0], 2);
    assert_eq!(f.frame_at(29).pixels[0], 2);
    assert_eq!(f.frame_at(30).pixels[0], 3);
    assert_eq!(f.frame_at(59).pixels[0], 3);
    assert_eq!(f.frame_at(60).pixels[0], 1);
    assert_eq!(f.frame_at(75).pixels[0], 2);
}

#[test]
fn zero_total_delay_shows_the_first_frame() {
    let f = CursorFrames { frames: vec![frame(0, 1), frame(0, 2)] };
    assert_eq!(f.frame_at(5).pixels[0], 1);
}

#[test]
fn picks_the_closest_size_and_keeps_its_frames_in_order() {
    let images = vec![image(16, 5, 1), image(32, 7, 2), image(24, 9, 3), image(32, 11, 4), image(48, 13, 5)];
    let frames = pick_size_frames(&images, 30);
    assert_eq!(frames.len(), 2);
    assert_eq!(frames[0].pixels[0], 2);
    assert_eq!(frames[0].delay_ms, 7);
    assert_eq!(frames[1].pixels[0], 4);
    assert_eq!(frames[1].delay_ms, 11);
}

#[test]
fn ties_go_to_the_first_size_in_the_file() {
    let images = vec![image(20, 1, 1), image(28, 1, 2)];
    let frames = pick_size_frames(&images, 24);
    assert_eq!(frames.len(), 1);
    assert_eq!(frames[0].pixels[0], 1);
    assert!(pick_size_frames(&[], 24).is_empty());
}

#[test]
fn builtin_arrow_has_tip_hotspot_and_outline() {
    let a = builtin_arrow();
    assert_eq!((a.width, a.height, a.hotspot_x, a.hotspot_y, a.delay_ms), (16, 16, 0, 0, 0));
    assert_eq!(a.pixels.len(), 16 * 16 * 4);
    // the tip is white outline
    assert_eq!(&a.pixels[0..4], &[255, 255, 255, 255]);
    // the top-right corner is transparent
    assert_eq!(&a.pixels[15 * 4..16 * 4], &[0, 0, 0, 0]);
}

/// An xcursor file holding `images`, each `(nominal size, delay, pixel byte)`
/// for a 1x1 image with its hotspot at the origin.
fn xcursor_file(images: &[(u32, u32, u8)]) -> Vec<u8> {
    let le = |v: u32| v.to_le_bytes();
    let mut f = Vec::new();
    f.extend_from_slice(b"Xcur");
    f.extend_from_slice(&le(16));
    f.extend_from_slice(&le(0x1_0000));
    f.extend_from_slice(&le(images.len() as u32));
    let first = 16 + 12 * images.len() as u32;
    for (k, (size, _, _)) in images.iter().enumerate() {
        f.extend_from_slice(&le(0xfffd_0002));
        f.extend_from_slice(&le(*size));
        f.extend_from_slice(&le(first + 40 * k as u32));
    }
    for (size, delay, byte) in images {
        f.extend_from_slice(&le(0x24));
        f.extend_from_slice(&le(0xfffd_0002));
        f.extend_from_slice(&le(*size));
        f.extend_from_slice(&le(1));
        for v in [1, 1, 0, 0, *delay] {
            f.extend_from_slice(&le(v));
        }
        f.extend_from_slice(&[*byte; 4]);
    }
    f
}

#[test]
fn reads_the_best_sized_frames_from_an_xcursor_file() {
    let data = xcursor_file(&[(24, 10, 1), (32, 20, 2), (24, 0, 3), (48, 30, 4)]);
    let frames = frames_from_xcursor(&data, 26);
    assert_eq!(frames.len(), 2);
    assert_eq!((frames[0].pixels.clone(), frames[0].delay_ms), (vec![1; 4], 10));
    // a zero delay is shown for at least 1 ms
    assert_eq!((frames[1].pixels.clone(), frames[1].delay_ms), (vec![3; 4], 1));
    assert_eq!((frames[0].width, frames[0].height, frames[0].hotspot_x, frames[0].hotspot_y), (1, 1, 0, 0));
    let big = frames_from_xcursor(&data, 44);
    assert_eq!(big.len(), 1);
    assert_eq!(big[0].pixels, vec![4; 4]);
}

#[test]
fn bytes_that_are_not_an_xcursor_file_give_no_frames() {
    assert!(frames_from_xcursor(b"not a cursor", 24).is_empty());
    let mut truncated = xcursor_file(&[(24, 10, 1)]);
    truncated.truncate(truncated.len() - 1);
    assert!(frames_from_xcursor(&truncated, 24).is_empty());
}
