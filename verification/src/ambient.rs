use vstd::prelude::*;

verus! {

/// Whether the pixel at column `x` of row `y` of a frame `width` pixels wide, four
/// bytes per pixel, has its three colour bytes inside the frame.
pub open spec fn pixel_in_frame(frame: Seq<u8>, width: int, y: int, x: int) -> bool {
    (y * width + x) * 4 + 2 < frame.len()
}

/// The byte at `offset` (0 blue, 1 green, 2 red) of a pixel, 0 when it is not in the frame.
pub open spec fn channel_at(frame: Seq<u8>, width: int, y: int, x: int, offset: int) -> int {
    if pixel_in_frame(frame, width, y, x) {
        frame[(y * width + x) * 4 + offset] as int
    } else {
        0
    }
}

/// Sum of one channel over the pixels `x`, `x + 8`, ... below `end_x` of row `y`.
pub open spec fn row_sum(frame: Seq<u8>, width: int, y: int, x: int, end_x: int, offset: int) -> int
    decreases (if x < end_x { end_x - x } else { 0 }),
{
    if x >= end_x {
        0
    } else {
        channel_at(frame, width, y, x, offset) + row_sum(frame, width, y, x + 8, end_x, offset)
    }
}

/// Number of pixels `x`, `x + 8`, ... below `end_x` of row `y` that lie in the frame.
pub open spec fn row_count(frame: Seq<u8>, width: int, y: int, x: int, end_x: int) -> int
    decreases (if x < end_x { end_x - x } else { 0 }),
{
    if x >= end_x {
        0
    } else {
        (if pixel_in_frame(frame, width, y, x) { 1int } else { 0int }) + row_count(frame, width, y, x + 8, end_x)
    }
}

/// Sum of one channel over the rows `y`, `y + 8`, ... below `height`, columns from `start_x`.
pub open spec fn zone_sum(frame: Seq<u8>, width: int, height: int, y: int, start_x: int, end_x: int, offset: int) -> int
    decreases (if y < height { height - y } else { 0 }),
{
    if y >= height {
        0
    } else {
        row_sum(frame, width, y, start_x, end_x, offset) + zone_sum(frame, width, height, y + 8, start_x, end_x, offset)
    }
}

/// Number of sampled pixels in the rows `y`, `y + 8`, ... below `height`.
pub open spec fn zone_count(frame: Seq<u8>, width: int, height: int, y: int, start_x: int, end_x: int) -> int
    decreases (if y < height { height - y } else { 0 }),
{
    if y >= height {
        0
    } else {
        row_count(frame, width, y, start_x, end_x) + zone_count(frame, width, height, y + 8, start_x, end_x)
    }
}

/// First column of zone `zone`: the frame is cut into four slices of `width / 4` columns.
pub open spec fn zone_start(width: int, zone: int) -> int {
    zone * (width / 4)
}

/// Sum of a channel over the sampled pixels of a zone.
pub open spec fn zone_channel_total(frame: Seq<u8>, width: int, height: int, zone: int, offset: int) -> int {
    zone_sum(frame, width, height, 0, zone_start(width, zone), zone_start(width, zone) + width / 4, offset)
}

/// Number of sampled pixels of a zone.
pub open spec fn zone_pixel_total(frame: Seq<u8>, width: int, height: int, zone: int) -> int {
    zone_count(frame, width, height, 0, zone_start(width, zone), zone_start(width, zone) + width / 4)
}

/// The mean of a channel over a zone, rounded down; 0 for a zone without samples.
pub open spec fn zone_mean(frame: Seq<u8>, width: int, height: int, zone: int, offset: int) -> int {
    if zone_pixel_total(frame, width, height, zone) > 0 {
        zone_channel_total(frame, width, height, zone, offset) / zone_pixel_total(frame, width, height, zone)
    } else {
        0
    }
}

/// Byte `k` of the RGBA means of a frame: red, green, blue and 255 for each zone in turn.
pub open spec fn mean_byte(frame: Seq<u8>, width: int, height: int, k: int) -> int {
    if k % 4 == 3 {
        255
    } else {
        zone_mean(frame, width, height, k / 4, 2 - k % 4)
    }
}

/// The offset of the last row sampled, and the index of the last byte read, can be
/// computed without overflow.
pub open spec fn offsets_fit(width: int, height: int) -> bool {
    &&& height > 0 ==> 8 * ((height - 1) / 8) * width <= usize::MAX
    &&& (height > 0 && width / 4 > 0) ==> (8 * ((height - 1) / 8) * width + 3 * (width / 4) + 8 * ((width / 4 - 1) / 8)) * 4 + 2 <= usize::MAX
}

/// The four zones are adjacent slices of `width / 4` columns each, the first starting
/// at column 0, and together they lie within the frame's width.
pub proof fn lemma_zones_are_adjacent_slices(width: int, zone: int)
    requires
        0 <= width,
        0 <= zone < 4,
    ensures
        zone_start(width, 0) == 0,
        zone_start(width, zone + 1) == zone_start(width, zone) + width / 4,
        0 <= zone_start(width, zone),
        zone_start(width, zone) + width / 4 <= width,
{
    assert(zone_start(width, zone + 1) == zone_start(width, zone) + width / 4) by (nonlinear_arith)
        requires zone_start(width, zone + 1) == (zone + 1) * (width / 4), zone_start(width, zone) == zone * (width / 4);
    assert(0 <= zone * (width / 4) && zone * (width / 4) + width / 4 <= width) by (nonlinear_arith)
        requires 0 <= width, 0 <= zone < 4;
}

/// Every frame whose bytes can be addressed at all (`width * height * 4` fits in a
/// `usize`) has offsets that fit: the sampling never needs more than that.
pub proof fn lemma_addressable_frames_fit(width: int, height: int)
    requires
        0 <= width,
        0 <= height,
        width * height * 4 <= usize::MAX,
    ensures
        offsets_fit(width, height),
{
    if height > 0 {
        let last_row = 8 * ((height - 1) / 8);
        assert(0 <= last_row <= height - 1) by (nonlinear_arith)
            requires last_row == 8 * ((height - 1) / 8), height > 0;
        assert(last_row * width <= (height - 1) * width) by (nonlinear_arith)
            requires 0 <= last_row <= height - 1, 0 <= width;
        assert((height - 1) * width + width == width * height) by (nonlinear_arith);
        assert(width * height <= width * height * 4) by (nonlinear_arith)
            requires 0 <= width, 0 <= height;
        let sw = width / 4;
        if sw > 0 {
            assert(3 * sw + 8 * ((sw - 1) / 8) <= width - 1) by (nonlinear_arith)
                requires sw == width / 4, sw > 0;
            assert((last_row * width + 3 * sw + 8 * ((sw - 1) / 8)) * 4 + 2 <= width * height * 4) by (nonlinear_arith)
                requires
                    last_row * width + 3 * sw + 8 * ((sw - 1) / 8) <= (height - 1) * width + width - 1,
                    (height - 1) * width + width == width * height;
        }
    }
}

/// A frame that can be addressed and whose zone sums fit in 64 bits is averaged:
/// `try_zone_averages` gives `Some` for it.
pub proof fn lemma_addressable_frames_are_sampled(frame: Seq<u8>, width: int, height: int)
    requires
        0 <= width,
        0 <= height,
        width * height * 4 <= usize::MAX,
        forall|zone: int| 0 <= zone < 4 ==> #[trigger] zone_totals_fit(frame, width, height, zone),
    ensures
        sampling_fits(frame, width, height),
{
    lemma_addressable_frames_fit(width, height);
}

/// No channel sum or sample count of the zone exceeds 64 bits.
pub open spec fn zone_totals_fit(frame: Seq<u8>, width: int, height: int, zone: int) -> bool {
    &&& zone_channel_total(frame, width, height, zone, 0) <= u64::MAX
    &&& zone_channel_total(frame, width, height, zone, 1) <= u64::MAX
    &&& zone_channel_total(frame, width, height, zone, 2) <= u64::MAX
    &&& zone_pixel_total(frame, width, height, zone) <= u64::MAX
}

/// The sampling of a frame runs without overflow: the offsets can be computed, and no
/// channel sum or sample count of a zone exceeds 64 bits.
pub open spec fn sampling_fits(frame: Seq<u8>, width: int, height: int) -> bool {
    &&& offsets_fit(width, height)
    &&& forall|zone: int| 0 <= zone < 4 ==> #[trigger] zone_totals_fit(frame, width, height, zone)
}

/// The last row and column sampled lie within the bound that `sampling_fits` gives.
proof fn lemma_row_offset_fits(y: int, w: int, h: int, zone: int)
    requires
        0 <= y < h,
        y % 8 == 0,
        0 <= w,
        0 <= zone < 4,
        (h > 0 && w / 4 > 0) ==> (8 * ((h - 1) / 8) * w + 3 * (w / 4) + 8 * ((w / 4 - 1) / 8)) * 4 + 2 <= usize::MAX,
        h > 0 ==> 8 * ((h - 1) / 8) * w <= usize::MAX,
    ensures
        y * w <= usize::MAX,
        y * w <= 8 * ((h - 1) / 8) * w,
{
    assert(y <= 8 * ((h - 1) / 8)) by (nonlinear_arith)
        requires 0 <= y < h, y % 8 == 0;
    assert(y * w <= 8 * ((h - 1) / 8) * w) by (nonlinear_arith)
        requires 0 <= y <= 8 * ((h - 1) / 8), 0 <= w;
    if w / 4 > 0 {
        assert(0 <= 3 * (w / 4) + 8 * ((w / 4 - 1) / 8)) by (nonlinear_arith)
            requires w / 4 > 0;
    }
}

/// The byte index of a sampled pixel can be computed without overflow.
proof fn lemma_index_fits(y: int, x: int, w: int, h: int, zone: int)
    requires
        0 <= y < h,
        y % 8 == 0,
        0 <= w,
        0 <= zone < 4,
        zone * (w / 4) <= x < zone * (w / 4) + w / 4,
        (x - zone * (w / 4)) % 8 == 0,
        (h > 0 && w / 4 > 0) ==> (8 * ((h - 1) / 8) * w + 3 * (w / 4) + 8 * ((w / 4 - 1) / 8)) * 4 + 2 <= usize::MAX,
        h > 0 ==> 8 * ((h - 1) / 8) * w <= usize::MAX,
    ensures
        (y * w + x) * 4 + 2 <= usize::MAX,
        x + 8 <= usize::MAX,
{
    let sw = w / 4;
    lemma_row_offset_fits(y, w, h, zone);
    assert(x - zone * sw <= 8 * ((sw - 1) / 8)) by (nonlinear_arith)
        requires 0 <= x - zone * sw < sw, (x - zone * sw) % 8 == 0;
    assert(zone * sw <= 3 * sw) by (nonlinear_arith)
        requires 0 <= zone < 4, 0 <= sw;
}

/// Channel sums and counts are never negative.
proof fn lemma_row_nonnegative(frame: Seq<u8>, w: int, y: int, x: int, ex: int)
    ensures
        row_sum(frame, w, y, x, ex, 0) >= 0,
        row_sum(frame, w, y, x, ex, 1) >= 0,
        row_sum(frame, w, y, x, ex, 2) >= 0,
        row_count(frame, w, y, x, ex) >= 0,
    decreases (if x < ex { ex - x } else { 0 }),
{
    if x < ex {
        lemma_row_nonnegative(frame, w, y, x + 8, ex);
    }
}

/// Channel sums and counts over rows are never negative.
proof fn lemma_zone_nonnegative(frame: Seq<u8>, w: int, h: int, y: int, sx: int, ex: int)
    ensures
        zone_sum(frame, w, h, y, sx, ex, 0) >= 0,
        zone_sum(frame, w, h, y, sx, ex, 1) >= 0,
        zone_sum(frame, w, h, y, sx, ex, 2) >= 0,
        zone_count(frame, w, h, y, sx, ex) >= 0,
    decreases (if y < h { h - y } else { 0 }),
{
    if y < h {
        lemma_row_nonnegative(frame, w, y, sx, ex);
        lemma_zone_nonnegative(frame, w, h, y + 8, sx, ex);
    }
}

/// What remains of a row and of the rows below it is never negative.
proof fn lemma_sums_nonnegative(frame: Seq<u8>, w: int, h: int, y: int, x: int, sx: int, ex: int)
    ensures
        row_sum(frame, w, y, x, ex, 0) >= 0,
        row_sum(frame, w, y, x, ex, 1) >= 0,
        row_sum(frame, w, y, x, ex, 2) >= 0,
        row_count(frame, w, y, x, ex) >= 0,
        zone_sum(frame, w, h, y + 8, sx, ex, 0) >= 0,
        zone_sum(frame, w, h, y + 8, sx, ex, 1) >= 0,
        zone_sum(frame, w, h, y + 8, sx, ex, 2) >= 0,
        zone_count(frame, w, h, y + 8, sx, ex) >= 0,
{
    lemma_row_nonnegative(frame, w, y, x, ex);
    lemma_zone_nonnegative(frame, w, h, y + 8, sx, ex);
}

/// A row splits into its first sampled pixel and the rest.
proof fn lemma_row_step(frame: Seq<u8>, w: int, y: int, x: int, ex: int)
    requires
        x < ex,
    ensures
        row_sum(frame, w, y, x, ex, 0) == channel_at(frame, w, y, x, 0) + row_sum(frame, w, y, x + 8, ex, 0),
        row_sum(frame, w, y, x, ex, 1) == channel_at(frame, w, y, x, 1) + row_sum(frame, w, y, x + 8, ex, 1),
        row_sum(frame, w, y, x, ex, 2) == channel_at(frame, w, y, x, 2) + row_sum(frame, w, y, x + 8, ex, 2),
        row_count(frame, w, y, x, ex) == (if pixel_in_frame(frame, w, y, x) { 1int } else { 0int }) + row_count(frame, w, y, x + 8, ex),
{
}

/// Past the end of a row nothing remains, wherever the next column would be.
proof fn lemma_row_tail(frame: Seq<u8>, w: int, y: int, x: int, ex: int)
    requires
        x < ex,
    ensures
        x + 8 >= ex ==> row_sum(frame, w, y, x + 8, ex, 0) == row_sum(frame, w, y, ex, ex, 0),
        x + 8 >= ex ==> row_sum(frame, w, y, x + 8, ex, 1) == row_sum(frame, w, y, ex, ex, 1),
        x + 8 >= ex ==> row_sum(frame, w, y, x + 8, ex, 2) == row_sum(frame, w, y, ex, ex, 2),
        x + 8 >= ex ==> row_count(frame, w, y, x + 8, ex) == row_count(frame, w, y, ex, ex),
{
}

/// Past the last row nothing remains, wherever the next row would be.
proof fn lemma_zone_tail(frame: Seq<u8>, w: int, h: int, y: int, sx: int, ex: int)
    requires
        y < h,
    ensures
        y + 8 >= h ==> zone_sum(frame, w, h, y + 8, sx, ex, 0) == zone_sum(frame, w, h, h, sx, ex, 0),
        y + 8 >= h ==> zone_sum(frame, w, h, y + 8, sx, ex, 1) == zone_sum(frame, w, h, h, sx, ex, 1),
        y + 8 >= h ==> zone_sum(frame, w, h, y + 8, sx, ex, 2) == zone_sum(frame, w, h, h, sx, ex, 2),
        y + 8 >= h ==> zone_count(frame, w, h, y + 8, sx, ex) == zone_count(frame, w, h, h, sx, ex),
{
}

/// A row's channel sum is at most 255 for each pixel counted.
proof fn lemma_row_sum_bounded(frame: Seq<u8>, w: int, y: int, x: int, ex: int, offset: int)
    ensures
        0 <= row_sum(frame, w, y, x, ex, offset) <= 255 * row_count(frame, w, y, x, ex),
    decreases (if x < ex { ex - x } else { 0 }),
{
    if x < ex {
        lemma_row_sum_bounded(frame, w, y, x + 8, ex, offset);
    }
}

/// A zone's channel sum is at most 255 for each pixel counted.
proof fn lemma_zone_sum_bounded(frame: Seq<u8>, w: int, h: int, y: int, sx: int, ex: int, offset: int)
    ensures
        0 <= zone_sum(frame, w, h, y, sx, ex, offset) <= 255 * zone_count(frame, w, h, y, sx, ex),
    decreases (if y < h { h - y } else { 0 }),
{
    if y < h {
        lemma_row_sum_bounded(frame, w, y, sx, ex, offset);
        lemma_zone_sum_bounded(frame, w, h, y + 8, sx, ex, offset);
    }
}

/// The mean of a channel over a zone is a byte value: it lies in 0..=255.
pub proof fn lemma_zone_mean_is_a_byte(frame: Seq<u8>, width: int, height: int, zone: int)
    ensures
        0 <= zone_mean(frame, width, height, zone, 0) <= 255,
        0 <= zone_mean(frame, width, height, zone, 1) <= 255,
        0 <= zone_mean(frame, width, height, zone, 2) <= 255,
{
    let sx = zone_start(width, zone);
    let ex = sx + width / 4;
    let n = zone_pixel_total(frame, width, height, zone);
    lemma_zone_sum_bounded(frame, width, height, 0, sx, ex, 0);
    lemma_zone_sum_bounded(frame, width, height, 0, sx, ex, 1);
    lemma_zone_sum_bounded(frame, width, height, 0, sx, ex, 2);
    if n > 0 {
        let s0 = zone_channel_total(frame, width, height, zone, 0);
        let s1 = zone_channel_total(frame, width, height, zone, 1);
        let s2 = zone_channel_total(frame, width, height, zone, 2);
        assert(0 <= s0 / n <= 255) by (nonlinear_arith)
            requires 0 <= s0 <= 255 * n, n > 0;
        assert(0 <= s1 / n <= 255) by (nonlinear_arith)
            requires 0 <= s1 <= 255 * n, n > 0;
        assert(0 <= s2 / n <= 255) by (nonlinear_arith)
            requires 0 <= s2 <= 255 * n, n > 0;
    }
}

/// Every byte at `offset` within its four-byte pixel has the value `v`.
pub open spec fn channel_uniform(frame: Seq<u8>, offset: int, v: u8) -> bool {
    forall|i: int| 0 <= i < frame.len() && i % 4 == offset ==> #[trigger] frame[i] == v
}

proof fn lemma_row_uniform(frame: Seq<u8>, w: int, y: int, x: int, ex: int, offset: int, v: u8)
    requires
        0 <= offset < 3,
        0 <= w,
        0 <= y,
        0 <= x,
        channel_uniform(frame, offset, v),
    ensures
        row_sum(frame, w, y, x, ex, offset) == v * row_count(frame, w, y, x, ex),
    decreases (if x < ex { ex - x } else { 0 }),
{
    if x < ex {
        lemma_row_uniform(frame, w, y, x + 8, ex, offset, v);
        if pixel_in_frame(frame, w, y, x) {
            let k = y * w + x;
            assert((k * 4 + offset) % 4 == offset) by (nonlinear_arith)
                requires 0 <= offset < 3;
            assert(0 <= k) by (nonlinear_arith)
                requires k == y * w + x, 0 <= w, 0 <= y, 0 <= x;
        }
        assert(v * row_count(frame, w, y, x, ex) == (if pixel_in_frame(frame, w, y, x) { v as int } else { 0 })
            + v * row_count(frame, w, y, x + 8, ex)) by (nonlinear_arith)
            requires row_count(frame, w, y, x, ex) == (if pixel_in_frame(frame, w, y, x) { 1int } else { 0int })
                + row_count(frame, w, y, x + 8, ex);
    }
}

proof fn lemma_zone_uniform(frame: Seq<u8>, w: int, h: int, y: int, sx: int, ex: int, offset: int, v: u8)
    requires
        0 <= offset < 3,
        0 <= w,
        0 <= y,
        0 <= sx,
        channel_uniform(frame, offset, v),
    ensures
        zone_sum(frame, w, h, y, sx, ex, offset) == v * zone_count(frame, w, h, y, sx, ex),
    decreases (if y < h { h - y } else { 0 }),
{
    if y < h {
        lemma_row_uniform(frame, w, y, sx, ex, offset, v);
        lemma_zone_uniform(frame, w, h, y + 8, sx, ex, offset, v);
        assert(v * zone_count(frame, w, h, y, sx, ex) == v * row_count(frame, w, y, sx, ex)
            + v * zone_count(frame, w, h, y + 8, sx, ex)) by (nonlinear_arith)
            requires zone_count(frame, w, h, y, sx, ex) == row_count(frame, w, y, sx, ex) + zone_count(frame, w, h, y + 8, sx, ex);
    }
}

/// A frame whose pixels all carry the same value in one channel averages to that value
/// in every zone that has samples.
pub proof fn lemma_uniform_frame_mean(frame: Seq<u8>, width: int, height: int, zone: int, offset: int, v: u8)
    requires
        0 <= offset < 3,
        0 <= width,
        0 <= zone < 4,
        channel_uniform(frame, offset, v),
        zone_pixel_total(frame, width, height, zone) > 0,
    ensures
        zone_mean(frame, width, height, zone, offset) == v,
{
    let sx = zone_start(width, zone);
    assert(0 <= sx) by (nonlinear_arith)
        requires sx == zone * (width / 4), 0 <= zone, 0 <= width;
    lemma_zone_uniform(frame, width, height, 0, sx, sx + width / 4, offset, v);
    let n = zone_pixel_total(frame, width, height, zone);
    assert((v * n) / n == v) by (nonlinear_arith)
        requires n > 0;
}

/// Whether the offsets of a frame `width` pixels wide and `height` rows high can be
/// computed without overflow (see `offsets_fit`).
pub fn offsets_fit_check(width: usize, height: usize) -> (r: bool)
    ensures
        r == offsets_fit(width as int, height as int),
{
    if height == 0 {
        return true;
    }
    let last_row = 8 * ((height - 1) / 8);
    let row_offset = match last_row.checked_mul(width) {
        Some(v) => v,
        None => return false,
    };
    let slice_width = width / 4;
    if slice_width == 0 {
        return true;
    }
    assert(3 * slice_width + 8 * ((slice_width - 1) / 8) <= width) by (nonlinear_arith)
        requires slice_width == width / 4, slice_width > 0;
    let last_column = 3 * slice_width + 8 * ((slice_width - 1) / 8);
    let pixel = match row_offset.checked_add(last_column) {
        Some(v) => v,
        None => return false,
    };
    let byte = match pixel.checked_mul(4) {
        Some(v) => v,
        None => return false,
    };
    byte.checked_add(2).is_some()
}

/// The channel sums (red, green, blue) and the sample count of one zone, or `None` when
/// one of them exceeds 64 bits.
fn zone_totals(frame: &[u8], width: usize, height: usize, zone: usize) -> (r: Option<(u64, u64, u64, u64)>)
    requires
        offsets_fit(width as int, height as int),
        zone < 4,
    ensures
        r is Some <==> zone_totals_fit(frame@, width as int, height as int, zone as int),
        r matches Some(t) ==> {
            &&& t.0 == zone_channel_total(frame@, width as int, height as int, zone as int, 2)
            &&& t.1 == zone_channel_total(frame@, width as int, height as int, zone as int, 1)
            &&& t.2 == zone_channel_total(frame@, width as int, height as int, zone as int, 0)
            &&& t.3 == zone_pixel_total(frame@, width as int, height as int, zone as int)
        },
{
    let slice_width = width / 4;
    assert(zone * slice_width + slice_width <= width) by (nonlinear_arith)
        requires zone < 4, slice_width == width / 4;
    let start_x = zone * slice_width;
    let end_x = start_x + slice_width;
    let ghost sx = start_x as int;
    let ghost ex = end_x as int;
    let ghost w = width as int;
    let ghost h = height as int;
    let ghost total_r = zone_channel_total(frame@, w, h, zone as int, 2);
    let ghost total_g = zone_channel_total(frame@, w, h, zone as int, 1);
    let ghost total_b = zone_channel_total(frame@, w, h, zone as int, 0);
    let ghost total_n = zone_pixel_total(frame@, w, h, zone as int);
    let mut sum_r: u64 = 0;
    let mut sum_g: u64 = 0;
    let mut sum_b: u64 = 0;
    let mut count: u64 = 0;
    let mut y: usize = 0;
    while y < height
        invariant
            0 <= zone < 4,
            slice_width == width / 4,
            start_x == zone * slice_width,
            end_x == start_x + slice_width,
            sx == start_x,
            ex == end_x,
            w == width,
            h == height,
            offsets_fit(w, h),
            y <= height,
            y % 8 == 0 || y == height,
            total_r == zone_sum(frame@, w, h, 0, sx, ex, 2),
            total_g == zone_sum(frame@, w, h, 0, sx, ex, 1),
            total_b == zone_sum(frame@, w, h, 0, sx, ex, 0),
            total_n == zone_count(frame@, w, h, 0, sx, ex),
            sum_r + zone_sum(frame@, w, h, y as int, sx, ex, 2) == total_r,
            sum_g + zone_sum(frame@, w, h, y as int, sx, ex, 1) == total_g,
            sum_b + zone_sum(frame@, w, h, y as int, sx, ex, 0) == total_b,
            count + zone_count(frame@, w, h, y as int, sx, ex) == total_n,
        decreases height - y,
    {
        proof {
            lemma_row_offset_fits(y as int, w, h, zone as int);
        }
        let row_offset = y * width;
        let mut x: usize = start_x;
        while x < end_x
            invariant
                0 <= zone < 4,
                slice_width == width / 4,
                start_x == zone * slice_width,
                end_x == start_x + slice_width,
                sx == start_x,
                ex == end_x,
                w == width,
                h == height,
                offsets_fit(w, h),
                y < height,
                y % 8 == 0,
                row_offset == y * width,
                start_x <= x <= end_x,
                (x - start_x) % 8 == 0 || x == end_x,
                total_r == zone_sum(frame@, w, h, 0, sx, ex, 2),
                total_g == zone_sum(frame@, w, h, 0, sx, ex, 1),
                total_b == zone_sum(frame@, w, h, 0, sx, ex, 0),
                total_n == zone_count(frame@, w, h, 0, sx, ex),
                sum_r + row_sum(frame@, w, y as int, x as int, ex, 2) + zone_sum(frame@, w, h, y + 8, sx, ex, 2) == total_r,
                sum_g + row_sum(frame@, w, y as int, x as int, ex, 1) + zone_sum(frame@, w, h, y + 8, sx, ex, 1) == total_g,
                sum_b + row_sum(frame@, w, y as int, x as int, ex, 0) + zone_sum(frame@, w, h, y + 8, sx, ex, 0) == total_b,
                count + row_count(frame@, w, y as int, x as int, ex) + zone_count(frame@, w, h, y + 8, sx, ex) == total_n,
            decreases end_x - x,
        {
            proof {
                lemma_index_fits(y as int, x as int, w, h, zone as int);
                lemma_sums_nonnegative(frame@, w, h, y as int, x as int, sx, ex);
                lemma_sums_nonnegative(frame@, w, h, y as int, x + 8, sx, ex);
            }
            let idx = (row_offset + x) * 4;
            proof {
                lemma_row_step(frame@, w, y as int, x as int, ex);
            }
            if idx + 2 < frame.len() {
                sum_b = match sum_b.checked_add(frame[idx] as u64) {
                    Some(v) => v,
                    None => return None,
                };
                sum_g = match sum_g.checked_add(frame[idx + 1] as u64) {
                    Some(v) => v,
                    None => return None,
                };
                sum_r = match sum_r.checked_add(frame[idx + 2] as u64) {
                    Some(v) => v,
                    None => return None,
                };
                count = match count.checked_add(1) {
                    Some(v) => v,
                    None => return None,
                };
            }
            proof {
                lemma_row_tail(frame@, w, y as int, x as int, ex);
            }
            x = if end_x - x > 8 {
                x + 8
            } else {
                end_x
            };
        }
        proof {
            lemma_zone_tail(frame@, w, h, y as int, sx, ex);
        }
        y = if height - y > 8 {
            y + 8
        } else {
            height
        };
    }
    assert(zone_start(w, zone as int) == sx);
    assert(zone_sum(frame@, w, h, h, sx, ex, 2) == 0);
    assert(zone_sum(frame@, w, h, h, sx, ex, 1) == 0);
    assert(zone_sum(frame@, w, h, h, sx, ex, 0) == 0);
    assert(zone_count(frame@, w, h, h, sx, ex) == 0);
    Some((sum_r, sum_g, sum_b, count))
}

/// The mean colours of the four zones as RGBA (see `zone_averages`), or `None` when
/// sampling the frame would overflow (`sampling_fits` does not hold).
pub fn try_zone_averages(frame: &[u8], width: usize, height: usize) -> (r: Option<[u8; 16]>)
    ensures
        r is Some <==> sampling_fits(frame@, width as int, height as int),
        r matches Some(a) ==> forall|k: int| #![trigger a@[k]] 0 <= k < 16 ==> a@[k] as int == mean_byte(
            frame@,
            width as int,
            height as int,
            k,
        ),
{
    if !offsets_fit_check(width, height) {
        return None;
    }
    let mut rgba: [u8; 16] = [0; 16];
    let mut zone: usize = 0;
    while zone < 4
        invariant
            0 <= zone <= 4,
            offsets_fit(width as int, height as int),
            forall|z: int| 0 <= z < zone ==> #[trigger] zone_totals_fit(frame@, width as int, height as int, z),
            forall|z: int| #![trigger rgba@[4 * z]] 0 <= z < zone ==> {
                &&& rgba@[4 * z] as int == zone_mean(frame@, width as int, height as int, z, 2)
                &&& rgba@[4 * z + 1] as int == zone_mean(frame@, width as int, height as int, z, 1)
                &&& rgba@[4 * z + 2] as int == zone_mean(frame@, width as int, height as int, z, 0)
                &&& rgba@[4 * z + 3] == 255
            },
        decreases 4 - zone,
    {
        let (sum_r, sum_g, sum_b, count) = match zone_totals(frame, width, height, zone) {
            Some(t) => t,
            None => {
                assert(!zone_totals_fit(frame@, width as int, height as int, zone as int));
                return None;
            },
        };
        proof {
            lemma_zone_mean_is_a_byte(frame@, width as int, height as int, zone as int);
        }
        let ghost old_rgba = rgba@;
        let base = 4 * zone;
        if count > 0 {
            rgba[base] = (sum_r / count) as u8;
            rgba[base + 1] = (sum_g / count) as u8;
            rgba[base + 2] = (sum_b / count) as u8;
        } else {
            rgba[base] = 0;
            rgba[base + 1] = 0;
            rgba[base + 2] = 0;
        }
        rgba[base + 3] = 255;
        assert(rgba@[4 * zone as int] as int == zone_mean(frame@, width as int, height as int, zone as int, 2));
        assert(rgba@[4 * zone + 1] as int == zone_mean(frame@, width as int, height as int, zone as int, 1));
        assert(rgba@[4 * zone + 2] as int == zone_mean(frame@, width as int, height as int, zone as int, 0));
        assert forall|z: int| #![trigger rgba@[4 * z]] 0 <= z < zone implies rgba@[4 * z] == old_rgba[4 * z]
            && rgba@[4 * z + 1] == old_rgba[4 * z + 1] && rgba@[4 * z + 2] == old_rgba[4 * z + 2]
            && rgba@[4 * z + 3] == old_rgba[4 * z + 3] by {}
        zone = zone + 1;
    }
    assert forall|k: int| #![trigger rgba@[k]] 0 <= k < 16 implies rgba@[k] as int == mean_byte(
        frame@,
        width as int,
        height as int,
        k,
    ) by {
        let z = k / 4;
        assert(rgba@[4 * z] as int == zone_mean(frame@, width as int, height as int, z, 2));
        assert(k == 4 * z + k % 4);
    }
    Some(rgba)
}

/// The mean colour of each of the four vertical slices of a captured frame, as RGBA.
/// The frame holds `height` rows of `width` pixels of four bytes (blue, green, red,
/// unused). Every eighth pixel of every eighth row is sampled; pixels whose bytes lie
/// past the end of the frame are skipped. A slice without samples is black; the alpha
/// byte is always 255.
pub fn zone_averages(frame: &[u8], width: usize, height: usize) -> (r: [u8; 16])
    requires
        sampling_fits(frame@, width as int, height as int),
    ensures
        forall|k: int| #![trigger r@[k]] 0 <= k < 16 ==> r@[k] as int == mean_byte(frame@, width as int, height as int, k),
{
    match try_zone_averages(frame, width, height) {
        Some(a) => a,
        None => [0; 16],
    }
}

/// The colour bytes of the first four pixels of RGBA data: red, green and blue of each,
/// zone after zone. Zones without a pixel stay black.
pub fn rgba_to_rgb(raw: &[u8]) -> (r: [u8; 12])
    ensures
        forall|k: int| #![trigger r@[k]] 0 <= k < 12 ==> r@[k] == if (k / 3) * 4 + 4 <= raw@.len() {
            raw@[(k / 3) * 4 + k % 3]
        } else {
            0u8
        },
{
    let mut rgb: [u8; 12] = [0; 12];
    let mut i: usize = 0;
    while i < 4 && i * 4 + 4 <= raw.len()
        invariant
            0 <= i <= 4,
            i * 4 <= raw@.len(),
            forall|k: int| #![trigger rgb@[k]] 0 <= k < 12 ==> rgb@[k] == if k / 3 < i {
                raw@[(k / 3) * 4 + k % 3]
            } else {
                0u8
            },
        decreases 4 - i,
    {
        rgb[i * 3] = raw[i * 4];
        rgb[i * 3 + 1] = raw[i * 4 + 1];
        rgb[i * 3 + 2] = raw[i * 4 + 2];
        i = i + 1;
    }
    assert forall|k: int| #![trigger rgb@[k]] 0 <= k < 12 implies rgb@[k] == if (k / 3) * 4 + 4 <= raw@.len() {
        raw@[(k / 3) * 4 + k % 3]
    } else {
        0u8
    } by {}
    rgb
}

} // verus!
