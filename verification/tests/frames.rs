use legion_kb_rgb::ambient::{offsets_fit_check, rgba_to_rgb, try_zone_averages, zone_averages};

fn frame_of(width: usize, height: usize, f: impl Fn(usize, usize) -> [u8; 4]) -> Vec<u8> {
    let mut v = Vec::with_capacity(width * height * 4);
    for y in 0..height {
        for x in 0..width {
            v.extend_from_slice(&f(x, y));
        }
    }
    v
}

#[test]
fn uniform_frame_averages_to_its_colour() {
    // bytes are blue, green, red, unused
    let frame = frame_of(64, 16, |_, _| [30, 20, 10, 0]);
    let r = zone_averages(&frame, 64, 16);
    for z in 0..4 {
        assert_eq!(&r[z * 4..z * 4 + 4], &[10, 20, 30, 255]);
    }
}

#[test]
fn zones_are_vertical_slices() {
    let frame = frame_of(64, 8, |x, _| [0, 0, (x / 16) as u8 * 50, 0]);
    let r = zone_averages(&frame, 64, 8);
    assert_eq!(r, [0, 0, 0, 255, 50, 0, 0, 255, 100, 0, 0, 255, 150, 0, 0, 255]);
}

#[test]
fn only_every_eighth_pixel_is_sampled() {
    // Red is 200 at sampled columns (0, 8 within each slice) and 0 elsewhere.
    let frame = frame_of(64, 9, |x, y| if x % 8 == 0 && y % 8 == 0 { [0, 0, 200, 0] } else { [0, 0, 0, 0] });
    let r = zone_averages(&frame, 64, 9);
    for z in 0..4 {
        assert_eq!(r[z * 4], 200);
    }
}

#[test]
fn mean_rounds_down() {
    // slice width 16: columns 0 and 8 of each slice are sampled, in rows 0 and 8.
    let frame = frame_of(64, 9, |x, y| if x % 16 == 0 && y == 0 { [0, 0, 3, 0] } else { [0, 0, 0, 0] });
    let r = zone_averages(&frame, 64, 9);
    // samples per slice: (0,0)=3, (8,0)=0, (0,8)=0, (8,8)=0 -> 3 / 4 = 0
    assert_eq!(r[0], 0);
    let frame = frame_of(64, 1, |x, _| if x % 16 == 0 { [0, 0, 5, 0] } else { [0, 0, 0, 0] });
    let r = zone_averages(&frame, 64, 1);
    // samples (0,0)=5, (8,0)=0 -> 2
    assert_eq!(r[0], 2);
}

#[test]
fn short_frame_skips_missing_pixels() {
    let mut frame = frame_of(64, 1, |_, _| [0, 0, 100, 0]);
    frame.truncate(100); // 25 pixels, the last incomplete: only columns 0, 8, 16 are read
    let r = zone_averages(&frame, 64, 1);
    assert_eq!(r[0], 100);
    assert_eq!(r[4], 100);
    assert_eq!(&r[8..12], &[0, 0, 0, 255]);
    assert_eq!(&r[12..16], &[0, 0, 0, 255]);
}

#[test]
fn empty_or_narrow_frames_are_black() {
    assert_eq!(zone_averages(&[], 0, 0), [0, 0, 0, 255, 0, 0, 0, 255, 0, 0, 0, 255, 0, 0, 0, 255]);
    let frame = frame_of(3, 10, |_, _| [9, 9, 9, 9]);
    assert_eq!(zone_averages(&frame, 3, 10), [0, 0, 0, 255, 0, 0, 0, 255, 0, 0, 0, 255, 0, 0, 0, 255]);
}

#[test]
fn rgba_to_rgb_drops_alpha() {
    let raw = [1, 2, 3, 4, 5, 6, 7, 8, 9, 10, 11, 12, 13, 14, 15, 16];
    assert_eq!(rgba_to_rgb(&raw), [1, 2, 3, 5, 6, 7, 9, 10, 11, 13, 14, 15]);
    assert_eq!(rgba_to_rgb(&raw[..8]), [1, 2, 3, 5, 6, 7, 0, 0, 0, 0, 0, 0]);
    assert_eq!(rgba_to_rgb(&raw[..7]), [1, 2, 3, 0, 0, 0, 0, 0, 0, 0, 0, 0]);
}

#[test]
fn checked_averaging() {
    let frame = frame_of(64, 16, |_, _| [30, 20, 10, 0]);
    assert_eq!(try_zone_averages(&frame, 64, 16), Some(zone_averages(&frame, 64, 16)));
    assert!(offsets_fit_check(64, 16));
    assert!(offsets_fit_check(usize::MAX, 0));
    assert!(!offsets_fit_check(usize::MAX, 9));
    assert!(!offsets_fit_check(usize::MAX / 2, 2));
    assert_eq!(try_zone_averages(&frame, usize::MAX, 9), None);
    // one row: only the last sampled byte index matters
    assert!(offsets_fit_check(1 << 20, 1));
}
