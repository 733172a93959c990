//! Monochrome thumbnails of images: contrast stretch, thresholding and
//! nearest-neighbour scaling.

use vstd::prelude::*;
use crate::bitmap::{all_white, bits_match, lemma_bits_match_start, lemma_bits_match_step, write_bit};
use crate::framebuffer::bit_at;
use crate::image_viewer::{ImageData, ImageView};

verus! {

/// Integer division rounding toward zero (Rust's `/` on signed integers).
pub open spec fn div_trunc(a: int, b: int) -> int {
    if a >= 0 {
        a / b
    } else {
        -((-a) / b)
    }
}

/// Contrast stretch by 1.3 around mid-gray, clamped to 0..=255.
pub open spec fn spec_adjust_luma(lum: u8) -> u8 {
    let v = div_trunc((lum as int - 128) * 13, 10) + 128;
    if v < 0 {
        0
    } else if v > 255 {
        255
    } else {
        v as u8
    }
}

/// Stretches the contrast of a luminance value by 1.3 around 128.
pub fn adjust_thumbnail_luma(lum: u8) -> (r: u8)
    ensures
        r == spec_adjust_luma(lum),
{
    let value: i32 = ((lum as i32 - 128) * 13) / 10 + 128;
    if value < 0 {
        0
    } else if value > 255 {
        255
    } else {
        value as u8
    }
}

/// Luminance of a grayscale pixel from its base, light and dark bits.
pub open spec fn spec_gray2_lum(bw: bool, l: bool, m: bool) -> u8 {
    if !m && !l && bw {
        255
    } else if !m && l && bw {
        192
    } else if m && !l && !bw {
        128
    } else if m && l && !bw {
        64
    } else {
        0
    }
}

fn gray2_lum(bw: bool, l: bool, m: bool) -> (r: u8)
    ensures
        r == spec_gray2_lum(bw, l, m),
{
    if !m && !l && bw {
        255
    } else if !m && l && bw {
        192
    } else if m && !l && !bw {
        128
    } else if m && l && !bw {
        64
    } else {
        0
    }
}

/// Bytes of one plane of a `w` by `h` bitmap.
pub open spec fn plane_len(w: int, h: int) -> int {
    (w * h + 7) / 8
}

/// Luminance of pixel `idx` of a grayscale pixel buffer (white past its end).
pub open spec fn gray8_lum(pixels: Seq<u8>, idx: int) -> u8 {
    if idx < pixels.len() {
        pixels[idx]
    } else {
        255
    }
}

/// Luminance of pixel `idx` of a three-plane image whose planes are `plane`
/// bytes long.
pub open spec fn gray2_data_lum(data: Seq<u8>, plane: int, idx: int) -> u8 {
    spec_gray2_lum(
        bit_at(data, idx),
        bit_at(data.skip(plane), idx),
        bit_at(data.skip(2 * plane), idx),
    )
}

/// Whether a thumbnail pixel of luminance `lum` is white.
pub open spec fn is_white(lum: u8) -> bool {
    spec_adjust_luma(lum) >= 128
}

proof fn lemma_skip_bit(data: Seq<u8>, off: int, idx: int)
    requires
        0 <= off,
        0 <= idx,
        off + idx / 8 < data.len(),
    ensures
        bit_at(data.skip(off), idx) == ((data[off + idx / 8] >> ((7 - idx % 8) as u8)) & 1u8
            == 1u8),
{
}

/// Reads bit `idx` of the plane that starts at byte `off`.
fn read_plane_bit(data: &Vec<u8>, off: usize, idx: usize) -> (r: bool)
    requires
        off + idx / 8 < data@.len(),
    ensures
        r == bit_at(data@.skip(off as int), idx as int),
{
    let n = data.len();
    let byte = off + idx / 8;
    let bit = (7 - (idx % 8)) as u8;
    (data[byte] >> bit) & 1 == 1
}

/// Whether a monochrome thumbnail exists for an image of this kind.
pub open spec fn spec_to_mono_some(v: ImageView) -> bool {
    match v {
        ImageView::Mono1 { .. } => true,
        ImageView::Gray8 { .. } => true,
        ImageView::Gray2 { width, height, data } => data.len() >= 3 * plane_len(
            width as int,
            height as int,
        ),
        ImageView::Gray2Stream { .. } => false,
    }
}

/// The luminance a same-size conversion gives pixel `idx`.
pub open spec fn mono_lum(v: ImageView, idx: int) -> u8 {
    match v {
        ImageView::Gray8 { pixels, .. } => gray8_lum(pixels, idx),
        ImageView::Gray2 { width, height, data } => gray2_data_lum(
            data,
            plane_len(width as int, height as int),
            idx,
        ),
        _ => 255,
    }
}

pub open spec fn pixel_count(v: ImageView) -> int {
    match v {
        ImageView::Gray8 { width, height, .. } => width * height,
        ImageView::Gray2 { width, height, .. } => width * height,
        ImageView::Mono1 { width, height, .. } => width * height,
        ImageView::Gray2Stream { width, height, .. } => width * height,
    }
}

/// `m` is the 1-bit form of `image` that `thumbnail_to_mono` gives: the
/// image itself when it is 1-bit, else its thresholded luminance.
pub open spec fn mono_of(image: ImageView, m: ImageView) -> bool {
    match image {
        ImageView::Mono1 { .. } => m == image,
        _ => match m {
            ImageView::Mono1 { width, height, bits } => {
                &&& width == crate::image_viewer::image_dimensions(image).0
                &&& height == crate::image_viewer::image_dimensions(image).1
                &&& bits.len() == plane_len(width as int, height as int)
                &&& bits_match(bits, pixel_count(image), |i: int| is_white(mono_lum(image, i)))
            },
            _ => false,
        },
    }
}

/// Whether an image's pixel count leaves room to round it up to bytes.
pub fn check_pixel_count(image: &ImageData) -> (r: bool)
    ensures
        r == (pixel_count(image@) + 7 <= usize::MAX),
{
    let (w, h) = image.dimensions();
    proof {
        assert((w as int) * (h as int) <= 0xFFFF_FFFF * 0xFFFF_FFFF) by (nonlinear_arith)
            requires
                w <= 0xFFFF_FFFFu32,
                h <= 0xFFFF_FFFFu32,
        ;
        assert((w as int) * (h as int) >= 0) by (nonlinear_arith)
            requires
                w >= 0,
                h >= 0,
        ;
    }
    let px = (w as u64) * (h as u64);
    px <= u64::MAX - 7 && px + 7 <= usize::MAX as u64
}

/// Converts an image to a same-size 1-bit image: contrast-stretched
/// luminance, white from 128 up. A 1-bit image is copied; a stream has no
/// thumbnail, nor has a grayscale image whose planes are cut short.
pub fn thumbnail_to_mono(image: &ImageData) -> (r: Option<ImageData>)
    requires
        pixel_count(image@) + 7 <= usize::MAX,
    ensures
        (r is Some) == spec_to_mono_some(image@),
        match image@ {
            ImageView::Mono1 { .. } => r matches Some(m) && m@ == image@,
            _ => r matches Some(m) ==> match m@ {
                ImageView::Mono1 { width, height, bits } => {
                    &&& width == crate::image_viewer::image_dimensions(image@).0
                    &&& height == crate::image_viewer::image_dimensions(image@).1
                    &&& bits.len() == plane_len(width as int, height as int)
                    &&& bits_match(
                        bits,
                        pixel_count(image@),
                        |i: int| is_white(mono_lum(image@, i)),
                    )
                },
                _ => false,
            },
        },
{
    match image {
        ImageData::Mono1 { .. } => Some(image.duplicate()),
        ImageData::Gray8 { width, height, pixels } => {
            let total = (*width as usize) * (*height as usize);
            let plane = (total + 7) / 8;
            let mut bits = vec![0xFFu8; plane];
            let ghost f = |i: int| is_white(mono_lum(image@, i));
            proof {
                assert(bits@ =~= all_white(plane as nat));
                lemma_bits_match_start(plane as nat, f);
            }
            let mut idx: usize = 0;
            while idx < total
                invariant
                    idx <= total,
                    total == pixel_count(image@),
                    image@ == (ImageView::Gray8 { width: *width, height: *height, pixels: pixels@ }),
                    bits@.len() == plane,
                    plane == (total + 7) / 8,
                    f == (|i: int| is_white(mono_lum(image@, i))),
                    bits_match(bits@, idx as int, f),
                decreases total - idx,
            {
                let lum = if idx < pixels.len() {
                    pixels[idx]
                } else {
                    255
                };
                let lum = adjust_thumbnail_luma(lum);
                proof {
                    lemma_bits_match_step(bits@, idx as int, f);
                }
                write_bit(&mut bits, idx, lum >= 128);
                idx = idx + 1;
            }
            Some(ImageData::Mono1 { width: *width, height: *height, bits })
        },
        ImageData::Gray2 { width, height, data } => {
            let total = (*width as usize) * (*height as usize);
            let plane = (total + 7) / 8;
            if data.len() / 3 < plane {
                return None;
            }
            let mut bits = vec![0xFFu8; plane];
            let ghost f = |i: int| is_white(mono_lum(image@, i));
            proof {
                assert(bits@ =~= all_white(plane as nat));
                lemma_bits_match_start(plane as nat, f);
            }
            let mut idx: usize = 0;
            while idx < total
                invariant
                    idx <= total,
                    total == pixel_count(image@),
                    image@ == (ImageView::Gray2 { width: *width, height: *height, data: data@ }),
                    bits@.len() == plane,
                    plane == (total + 7) / 8,
                    plane == plane_len(*width as int, *height as int),
                    data@.len() >= 3 * plane,
                    f == (|i: int| is_white(mono_lum(image@, i))),
                    bits_match(bits@, idx as int, f),
                decreases total - idx,
            {
                let bw = read_plane_bit(data, 0, idx);
                let l = read_plane_bit(data, plane, idx);
                let m = read_plane_bit(data, 2 * plane, idx);
                assert(data@.skip(0) =~= data@);
                let lum = adjust_thumbnail_luma(gray2_lum(bw, l, m));
                proof {
                    lemma_bits_match_step(bits@, idx as int, f);
                }
                write_bit(&mut bits, idx, lum >= 128);
                idx = idx + 1;
            }
            Some(ImageData::Mono1 { width: *width, height: *height, bits })
        },
        ImageData::Gray2Stream { .. } => None,
    }
}


/// Luminance of the source pixel that thumbnail pixel (`x`, `y`) samples
/// (nearest neighbour) in a `size` by `size` thumbnail.
pub open spec fn sample_lum(v: ImageView, size: int, x: int, y: int) -> u8 {
    let (w, h) = crate::image_viewer::image_dimensions(v);
    let sx = x * (w as int) / size;
    let sy = y * (h as int) / size;
    let sidx = sy * (w as int) + sx;
    match v {
        ImageView::Mono1 { bits, .. } => if bit_at(bits, sidx) {
            255
        } else {
            0
        },
        ImageView::Gray8 { pixels, .. } => gray8_lum(pixels, sidx),
        ImageView::Gray2 { data, .. } => {
            let plane = plane_len(w as int, h as int);
            if data.len() < 3 * plane {
                255
            } else {
                gray2_data_lum(data, plane, sidx)
            }
        },
        ImageView::Gray2Stream { .. } => 255,
    }
}

proof fn lemma_sample_bounds(x: int, y: int, w: int, h: int, size: int)
    requires
        0 <= x < size,
        0 <= y < size,
        w > 0,
        h > 0,
    ensures
        0 <= x * w / size < w,
        0 <= y * h / size < h,
        0 <= (y * h / size) * w + x * w / size < w * h,
        x * w <= size * w,
        y * h <= size * h,
{
    assert(0 <= x * w < size * w) by (nonlinear_arith)
        requires
            0 <= x < size,
            w > 0,
    ;
    assert(0 <= y * h < size * h) by (nonlinear_arith)
        requires
            0 <= y < size,
            h > 0,
    ;
    assert(x * w / size < w) by (nonlinear_arith)
        requires
            0 <= x * w < size * w,
            size > 0,
    ;
    assert(y * h / size < h) by (nonlinear_arith)
        requires
            0 <= y * h < size * h,
            size > 0,
    ;
    assert(0 <= x * w / size) by (nonlinear_arith)
        requires
            0 <= x * w,
            size > 0,
    ;
    assert(0 <= y * h / size) by (nonlinear_arith)
        requires
            0 <= y * h,
            size > 0,
    ;
    let sy = y * h / size;
    let sx = x * w / size;
    assert(sy * w + sx < w * h) by (nonlinear_arith)
        requires
            0 <= sy < h,
            0 <= sx < w,
    ;
    assert(0 <= sy * w) by (nonlinear_arith)
        requires
            0 <= sy,
            w > 0,
    ;
}

/// Scales an image to a `size` by `size` 1-bit thumbnail (nearest
/// neighbour, contrast-stretched, white from 128 up); an image without
/// pixels has none.
pub fn thumbnail_from_image(image: &ImageData, size: u32) -> (r: Option<ImageData>)
    requires
        size > 0,
        (size as int) * (size as int) + 7 <= usize::MAX,
        (size as int) * (crate::image_viewer::image_dimensions(image@).0 as int) <= u32::MAX,
        (size as int) * (crate::image_viewer::image_dimensions(image@).1 as int) <= u32::MAX,
        pixel_count(image@) <= u32::MAX,
        pixel_count(image@) + 7 <= usize::MAX,
        image@ matches ImageView::Mono1 { bits, .. } ==> bits.len() * 8 >= pixel_count(image@),
    ensures
        ({
            let (w, h) = crate::image_viewer::image_dimensions(image@);
            if w == 0 || h == 0 {
                r is None
            } else {
                r matches Some(t) && t@ matches ImageView::Mono1 { width, height, bits } && width
                    == size && height == size && bits.len() == plane_len(size as int, size as int)
                    && bits_match(
                    bits,
                    size * size,
                    |i: int| is_white(sample_lum(image@, size as int, i % (size as int), i / (size as int))),
                )
            }
        }),
{
    let (src_w, src_h) = image.dimensions();
    if src_w == 0 || src_h == 0 {
        return None;
    }
    let n = (size as usize) * (size as usize);
    let dst_len = (n + 7) / 8;
    let mut bits = vec![0xFFu8; dst_len];
    let ghost f = |i: int| is_white(sample_lum(image@, size as int, i % (size as int), i / (size as int)));
    proof {
        assert(bits@ =~= all_white(dst_len as nat));
        lemma_bits_match_start(dst_len as nat, f);
    }
    let mut idx: usize = 0;
    while idx < n
        invariant
            idx <= n,
            n == size * size,
            dst_len == (n + 7) / 8,
            bits@.len() == dst_len,
            (src_w, src_h) == crate::image_viewer::image_dimensions(image@),
            src_w > 0,
            src_h > 0,
            size > 0,
            (size as int) * (src_w as int) <= u32::MAX,
            (size as int) * (src_h as int) <= u32::MAX,
            pixel_count(image@) <= u32::MAX,
            pixel_count(image@) + 7 <= usize::MAX,
            pixel_count(image@) == src_w * src_h,
            image@ matches ImageView::Mono1 { bits, .. } ==> bits.len() * 8 >= pixel_count(image@),
            f == (|i: int| is_white(sample_lum(image@, size as int, i % (size as int), i / (size as int)))),
            bits_match(bits@, idx as int, f),
        decreases n - idx,
    {
        let x = (idx % (size as usize)) as u64;
        let y = (idx / (size as usize)) as u64;
        proof {
            assert((idx as int) / (size as int) < size) by (nonlinear_arith)
                requires
                    0 <= idx < size * size,
                    size > 0,
            ;
            lemma_sample_bounds(x as int, y as int, src_w as int, src_h as int, size as int);
            assert(x * src_w <= u32::MAX) by (nonlinear_arith)
                requires
                    x * src_w <= size * src_w,
                    size * src_w <= u32::MAX,
            ;
            assert(y * src_h <= u32::MAX) by (nonlinear_arith)
                requires
                    y * src_h <= size * src_h,
                    size * src_h <= u32::MAX,
            ;
        }
        let sx = (x * (src_w as u64)) / (size as u64);
        let sy = (y * (src_h as u64)) / (size as u64);
        let sidx = (sy * (src_w as u64) + sx) as usize;
        let lum: u8 = match image {
            ImageData::Mono1 { bits: src, .. } => {
                if crate::bitmap::read_bit(src.as_slice(), sidx) {
                    255
                } else {
                    0
                }
            },
            ImageData::Gray8 { pixels, .. } => {
                if sidx < pixels.len() {
                    pixels[sidx]
                } else {
                    255
                }
            },
            ImageData::Gray2 { data, .. } => {
                let plane = ((src_w as usize) * (src_h as usize) + 7) / 8;
                if data.len() / 3 < plane {
                    255
                } else {
                    let bw = read_plane_bit(data, 0, sidx);
                    let l = read_plane_bit(data, plane, sidx);
                    let m = read_plane_bit(data, 2 * plane, sidx);
                    assert(data@.skip(0) =~= data@);
                    gray2_lum(bw, l, m)
                }
            },
            ImageData::Gray2Stream { .. } => 255,
        };
        let lum = adjust_thumbnail_luma(lum);
        proof {
            lemma_bits_match_step(bits@, idx as int, f);
        }
        write_bit(&mut bits, idx, lum >= 128);
        idx = idx + 1;
    }
    Some(ImageData::Mono1 { width: size, height: size, bits })
}

/// The thumbnail pixel that source pixel `p` of a `w` by `h` image falls
/// in, for a `tw` by `th` thumbnail.
pub open spec fn stream_dst(p: int, w: int, h: int, tw: int, th: int) -> int {
    ((p / w) * th / h) * tw + (p % w) * tw / w
}

/// How many of the first `n` source pixels fall in thumbnail pixel `d`
/// (with `only_set`: and have their bit set in `plane`).
pub open spec fn box_count(
    plane: Seq<u8>,
    only_set: bool,
    w: int,
    h: int,
    tw: int,
    th: int,
    d: int,
    n: int,
) -> int
    decreases n,
{
    if n <= 0 {
        0
    } else {
        box_count(plane, only_set, w, h, tw, th, d, n - 1) + if stream_dst(n - 1, w, h, tw, th) == d
            && (!only_set || bit_at(plane, n - 1)) {
            1int
        } else {
            0int
        }
    }
}

/// A count as kept in a saturating 16-bit counter.
pub open spec fn sat16(v: int) -> int {
    if v > 65535 {
        65535
    } else {
        v
    }
}

/// The sizes fit the machine: pixel counts and the scaled coordinates.
pub open spec fn stream_sizes_ok(w: int, h: int, tw: int, th: int) -> bool {
    &&& w > 0 && h > 0 && tw > 0 && th > 0
    &&& w * h + 7 <= usize::MAX
    &&& tw * th + 7 <= usize::MAX
    &&& w * tw <= usize::MAX
    &&& h * th <= usize::MAX
}

proof fn lemma_stream_dst_bounds(p: int, w: int, h: int, tw: int, th: int)
    requires
        stream_sizes_ok(w, h, tw, th),
        0 <= p < w * h,
    ensures
        0 <= p % w < w,
        0 <= p / w < h,
        (p % w) * tw <= w * tw,
        (p / w) * th <= h * th,
        0 <= (p % w) * tw / w < tw,
        0 <= (p / w) * th / h < th,
        0 <= stream_dst(p, w, h, tw, th) < tw * th,
{
    let sx = p % w;
    let sy = p / w;
    assert(0 <= sy < h) by (nonlinear_arith)
        requires
            0 <= p < w * h,
            w > 0,
            sy == p / w,
    ;
    assert(sx * tw <= w * tw && 0 <= sx * tw) by (nonlinear_arith)
        requires
            0 <= sx < w,
            tw > 0,
    ;
    assert(sy * th <= h * th && 0 <= sy * th) by (nonlinear_arith)
        requires
            0 <= sy < h,
            th > 0,
    ;
    assert(sx * tw / w < tw) by (nonlinear_arith)
        requires
            0 <= sx < w,
            tw > 0,
    ;
    assert(sy * th / h < th) by (nonlinear_arith)
        requires
            0 <= sy < h,
            th > 0,
    ;
    let dx = sx * tw / w;
    let dy = sy * th / h;
    assert(0 <= dx && 0 <= dy) by (nonlinear_arith)
        requires
            sx >= 0,
            sy >= 0,
            tw > 0,
            th > 0,
            w > 0,
            h > 0,
            dx == sx * tw / w,
            dy == sy * th / h,
    ;
    assert(0 <= dy * tw + dx < tw * th) by (nonlinear_arith)
        requires
            0 <= dx < tw,
            0 <= dy < th,
    ;
}

/// Adds one plane of a grayscale image into per-thumbnail-pixel counters:
/// each source pixel's bit goes to the sum of the thumbnail pixel it falls
/// in, and with `track_count` each source pixel is also counted there. The
/// counters saturate.
pub fn accumulate_plane(
    sum: &mut Vec<u16>,
    counts: &mut Vec<u16>,
    track_count: bool,
    plane: &[u8],
    width: usize,
    height: usize,
    thumb_w: usize,
    thumb_h: usize,
)
    requires
        stream_sizes_ok(width as int, height as int, thumb_w as int, thumb_h as int),
        plane@.len() * 8 >= width * height,
        old(sum)@ == Seq::new((thumb_w * thumb_h) as nat, |i: int| 0u16),
        old(counts)@.len() == thumb_w * thumb_h,
        track_count ==> old(counts)@ == Seq::new((thumb_w * thumb_h) as nat, |i: int| 0u16),
    ensures
        final(sum)@.len() == thumb_w * thumb_h,
        forall|d: int|
            0 <= d < thumb_w * thumb_h ==> #[trigger] final(sum)@[d] == sat16(
                box_count(
                    plane@,
                    true,
                    width as int,
                    height as int,
                    thumb_w as int,
                    thumb_h as int,
                    d,
                    width * height,
                ),
            ),
        track_count ==> final(counts)@.len() == thumb_w * thumb_h && forall|d: int|
            0 <= d < thumb_w * thumb_h ==> #[trigger] final(counts)@[d] == sat16(
                box_count(
                    plane@,
                    false,
                    width as int,
                    height as int,
                    thumb_w as int,
                    thumb_h as int,
                    d,
                    width * height,
                ),
            ),
        !track_count ==> final(counts)@ == old(counts)@,
{
    let total = width * height;
    let ghost w = width as int;
    let ghost h = height as int;
    let ghost tw = thumb_w as int;
    let ghost th = thumb_h as int;
    let mut p: usize = 0;
    while p < total
        invariant
            stream_sizes_ok(w, h, tw, th),
            w == width,
            h == height,
            tw == thumb_w,
            th == thumb_h,
            total == width * height,
            plane@.len() * 8 >= total,
            p <= total,
            sum@.len() == tw * th,
            counts@.len() == tw * th,
            forall|d: int|
                0 <= d < tw * th ==> #[trigger] sum@[d] == sat16(
                    box_count(plane@, true, w, h, tw, th, d, p as int),
                ),
            track_count ==> forall|d: int|
                0 <= d < tw * th ==> #[trigger] counts@[d] == sat16(
                    box_count(plane@, false, w, h, tw, th, d, p as int),
                ),
            !track_count ==> counts@ == old(counts)@,
        decreases total - p,
    {
        proof {
            lemma_stream_dst_bounds(p as int, w, h, tw, th);
        }
        let sx = p % width;
        let sy = p / width;
        let dx = (sx * thumb_w) / width;
        let dy = (sy * thumb_h) / height;
        let bit_set = crate::bitmap::read_bit(plane, p);
        if dx < thumb_w && dy < thumb_h {
            let dst = dy * thumb_w + dx;
            assert(dst as int == stream_dst(p as int, w, h, tw, th));
            if track_count {
                let c = counts[dst];
                counts.set(dst, c.saturating_add(1));
            }
            let v = sum[dst];
            sum.set(dst, v.saturating_add(if bit_set { 1 } else { 0 }));
        }
        proof {
            assert forall|d: int| 0 <= d < tw * th implies #[trigger] sum@[d] == sat16(
                box_count(plane@, true, w, h, tw, th, d, p + 1),
            ) by {}
            if track_count {
                assert forall|d: int| 0 <= d < tw * th implies #[trigger] counts@[d] == sat16(
                    box_count(plane@, false, w, h, tw, th, d, p + 1),
                ) by {}
            }
        }
        p = p + 1;
    }
}

/// Luminance of a thumbnail pixel from its sums of base, low and high bits
/// over `count` source pixels, clamped to 0..=255.
pub open spec fn box_lum(bw: int, l: int, m: int, count: int) -> u8 {
    let c = if count < 1 {
        1
    } else {
        count
    };
    let v = div_trunc(255 * bw + 128 * m - 64 * l, c);
    if v < 0 {
        0
    } else if v > 255 {
        255
    } else {
        v as u8
    }
}

/// The per-pixel sum of one plane over the whole image.
pub open spec fn plane_sum(plane: Seq<u8>, only_set: bool, w: int, h: int, tw: int, th: int, d: int) -> int {
    sat16(box_count(plane, only_set, w, h, tw, th, d, w * h))
}

/// Whether thumbnail pixel `d` of the scaled-down grayscale planes is white.
pub open spec fn stream_thumb_white(
    bw: Seq<u8>,
    lsb: Seq<u8>,
    msb: Seq<u8>,
    w: int,
    h: int,
    tw: int,
    th: int,
    d: int,
) -> bool {
    is_white(
        box_lum(
            plane_sum(bw, true, w, h, tw, th, d),
            plane_sum(lsb, true, w, h, tw, th, d),
            plane_sum(msb, true, w, h, tw, th, d),
            plane_sum(bw, false, w, h, tw, th, d),
        ),
    )
}

/// The grayscale-file header that a streamed thumbnail accepts: the magic,
/// the two-bit format and the expected size.
pub open spec fn stream_header_ok(data: Seq<u8>, width: u32, height: u32) -> bool {
    &&& data.len() >= 16
    &&& data.subrange(0, 4) == seq![0x54u8, 0x52u8, 0x49u8, 0x4Du8]
    &&& data[4] == 2 && data[5] == 2
    &&& data[6] as int + 256 * data[7] as int == width as int
    &&& data[8] as int + 256 * data[9] as int == height as int
}

/// Scales a two-bit grayscale image file (header and three planes, as held
/// in `data`) down to a 1-bit thumbnail by averaging: each thumbnail pixel
/// gets the mean luminance of the source pixels falling in it, contrast
/// stretched, white from 128 up. There is none for an empty image, a header
/// of another kind or size, or a file cut short.
pub fn stream_thumbnail_from_bytes(data: &[u8], width: u32, height: u32, thumb_w: u32, thumb_h: u32) -> (r:
    Option<ImageData>)
    requires
        stream_sizes_ok(
            if width == 0 { 1 } else { width as int },
            if height == 0 { 1 } else { height as int },
            if thumb_w == 0 { 1 } else { thumb_w as int },
            if thumb_h == 0 { 1 } else { thumb_h as int },
        ),
    ensures
        ({
            let w = width as int;
            let h = height as int;
            let tw = if thumb_w == 0 { 1 } else { thumb_w as int };
            let th = if thumb_h == 0 { 1 } else { thumb_h as int };
            let p = plane_len(w, h);
            if w * h == 0 || !stream_header_ok(data@, width, height) || data@.len() < 16 + 3 * p {
                r is None
            } else {
                let bw = data@.subrange(16, 16 + p);
                let lsb = data@.subrange(16 + p, 16 + 2 * p);
                let msb = data@.subrange(16 + 2 * p, 16 + 3 * p);
                r matches Some(t) && t@ matches ImageView::Mono1 { width: rw, height: rh, bits }
                    && rw == tw && rh == th && bits.len() == plane_len(tw, th) && bits_match(
                    bits,
                    tw * th,
                    |d: int| stream_thumb_white(bw, lsb, msb, w, h, tw, th, d),
                )
            }
        }),
{
    proof {
        let w1: int = if width == 0 { 1 } else { width as int };
        let h1: int = if height == 0 { 1 } else { height as int };
        assert((width as int) * (height as int) <= w1 * h1) by (nonlinear_arith)
            requires
                0 <= width <= w1,
                0 <= height <= h1,
        ;
    }
    let total = (width as usize) * (height as usize);
    if total == 0 {
        return None;
    }
    let tw: usize = if thumb_w == 0 {
        1
    } else {
        thumb_w as usize
    };
    let th: usize = if thumb_h == 0 {
        1
    } else {
        thumb_h as usize
    };
    if data.len() < 16 {
        return None;
    }
    if !(data[0] == 0x54 && data[1] == 0x52 && data[2] == 0x49 && data[3] == 0x4D) || data[4] != 2
        || data[5] != 2 {
        proof {
            if data@.subrange(0, 4) == seq![0x54u8, 0x52u8, 0x49u8, 0x4Du8] {
                assert(data@.subrange(0, 4)[1] == data@[1]);
                assert(data@.subrange(0, 4)[2] == data@[2]);
                assert(data@.subrange(0, 4)[3] == data@[3]);
                assert(data@.subrange(0, 4)[0] == data@[0]);
            }
        }
        return None;
    }
    assert(data@.subrange(0, 4) =~= seq![0x54u8, 0x52u8, 0x49u8, 0x4Du8]);
    let w = (data[6] as u32) + (data[7] as u32) * 256;
    let h = (data[8] as u32) + (data[9] as u32) * 256;
    if w != width || h != height {
        return None;
    }
    let plane = (total + 7) / 8;
    if data.len() < 16 + 3 * plane {
        return None;
    }
    let n = tw * th;
    let ghost gw = width as int;
    let ghost gh = height as int;
    let ghost gtw = tw as int;
    let ghost gth = th as int;
    let bw_plane = crate::render::slice_subrange_u8(data, 16, 16 + plane);
    let l_plane = crate::render::slice_subrange_u8(data, 16 + plane, 16 + 2 * plane);
    let m_plane = crate::render::slice_subrange_u8(data, 16 + 2 * plane, 16 + 3 * plane);
    let mut sum_bw: Vec<u16> = vec![0u16; n];
    let mut sum_l: Vec<u16> = vec![0u16; n];
    let mut sum_m: Vec<u16> = vec![0u16; n];
    let mut counts: Vec<u16> = vec![0u16; n];
    proof {
        assert(sum_bw@ =~= Seq::new(n as nat, |i: int| 0u16));
        assert(sum_l@ =~= Seq::new(n as nat, |i: int| 0u16));
        assert(sum_m@ =~= Seq::new(n as nat, |i: int| 0u16));
        assert(counts@ =~= Seq::new(n as nat, |i: int| 0u16));
    }
    accumulate_plane(&mut sum_bw, &mut counts, true, bw_plane, width as usize, height as usize, tw, th);
    accumulate_plane(&mut sum_l, &mut counts, false, l_plane, width as usize, height as usize, tw, th);
    accumulate_plane(&mut sum_m, &mut counts, false, m_plane, width as usize, height as usize, tw, th);
    let ghost bwv = bw_plane@;
    let ghost lv = l_plane@;
    let ghost mv = m_plane@;
    let ghost f = |d: int| stream_thumb_white(bwv, lv, mv, gw, gh, gtw, gth, d);
    let dst_len = (n + 7) / 8;
    let mut bits = vec![0xFFu8; dst_len];
    proof {
        assert(bits@ =~= all_white(dst_len as nat));
        lemma_bits_match_start(dst_len as nat, f);
    }
    let mut idx: usize = 0;
    while idx < n
        invariant
            idx <= n,
            dst_len == (n + 7) / 8,
            bits@.len() == dst_len,
            sum_bw@.len() == n,
            sum_l@.len() == n,
            sum_m@.len() == n,
            counts@.len() == n,
            n == gtw * gth,
            forall|d: int| 0 <= d < n ==> #[trigger] sum_bw@[d] == plane_sum(bwv, true, gw, gh, gtw, gth, d),
            forall|d: int| 0 <= d < n ==> #[trigger] sum_l@[d] == plane_sum(lv, true, gw, gh, gtw, gth, d),
            forall|d: int| 0 <= d < n ==> #[trigger] sum_m@[d] == plane_sum(mv, true, gw, gh, gtw, gth, d),
            forall|d: int| 0 <= d < n ==> #[trigger] counts@[d] == plane_sum(bwv, false, gw, gh, gtw, gth, d),
            f == (|d: int| stream_thumb_white(bwv, lv, mv, gw, gh, gtw, gth, d)),
            bits_match(bits@, idx as int, f),
        decreases n - idx,
    {
        let c = counts[idx];
        let count: i32 = if c < 1 {
            1
        } else {
            c as i32
        };
        let avg_bw = sum_bw[idx] as i32;
        let avg_l = sum_l[idx] as i32;
        let avg_m = sum_m[idx] as i32;
        let mut lum = (255 * avg_bw + 128 * avg_m - 64 * avg_l) / count;
        assert(lum == div_trunc(255 * avg_bw + 128 * avg_m - 64 * avg_l, count as int));
        if lum < 0 {
            lum = 0;
        } else if lum > 255 {
            lum = 255;
        }
        let lum8 = adjust_thumbnail_luma(lum as u8);
        assert((lum8 >= 128) == f(idx as int));
        proof {
            lemma_bits_match_step(bits@, idx as int, f);
        }
        write_bit(&mut bits, idx, lum8 >= 128);
        idx = idx + 1;
    }
    Some(ImageData::Mono1 { width: tw as u32, height: th as u32, bits })
}

} // verus!

