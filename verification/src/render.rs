//! Drawing decoded images and pre-rendered glyphs into the display buffers,
//! with the two grayscale planes beside the 1-bit buffer.

use vstd::prelude::*;
use crate::framebuffer::{
    bit_at, lemma_map_injective, lemma_panel_index, lemma_pixel_write_read, lemma_with_bit,
    map_display_point, mapped_index, pixel_index, pixel_value, set_pixel_spec,
    spec_map_display_point, with_bit, DisplayBuffers, Rotation, BUFFER_SIZE, HEIGHT, WIDTH,
};
use crate::image_viewer::{ImageData, ImageError};
use crate::trbk::{TrbkBookInfo, TrbkGlyph, TrbkOp, TrbkPage};
use crate::image_viewer::AppSource;

verus! {

/// Integer division rounding toward zero, as Rust's `/` does.
pub open spec fn tdiv(a: int, b: int) -> int {
    if a >= 0 {
        a / b
    } else {
        -((-a) / b)
    }
}

/// The source coordinate sampled for target coordinate `t` when `src`
/// source pixels are scaled onto `dst` target pixels.
pub open spec fn sample_at(t: int, src: int, dst: int) -> int {
    tdiv(t * src, dst)
}

proof fn lemma_sample_range(t: int, src: int, dst: int)
    requires
        0 <= t < dst,
        i32::MIN <= src <= i32::MAX,
    ensures
        src >= 0 ==> 0 <= sample_at(t, src, dst) <= src,
        src < 0 ==> src <= sample_at(t, src, dst) <= 0,
        i32::MIN <= sample_at(t, src, dst) <= i32::MAX,
{
    if src >= 0 {
        assert(0 <= t * src <= dst * src) by (nonlinear_arith)
            requires
                0 <= t < dst,
                src >= 0,
        ;
        assert((t * src) / dst <= src) by (nonlinear_arith)
            requires
                0 <= t * src <= dst * src,
                dst > 0,
        ;
        assert(0 <= (t * src) / dst) by (nonlinear_arith)
            requires
                0 <= t * src,
                dst > 0,
        ;
    } else {
        let a = -src;
        assert(0 <= t * a <= dst * a) by (nonlinear_arith)
            requires
                0 <= t < dst,
                a > 0,
        ;
        assert((t * a) / dst <= a) by (nonlinear_arith)
            requires
                0 <= t * a <= dst * a,
                dst > 0,
        ;
        assert(0 <= (t * a) / dst) by (nonlinear_arith)
            requires
                0 <= t * a,
                dst > 0,
        ;
        assert(t * src == -(t * a)) by (nonlinear_arith)
            requires
                a == -src,
        ;
        if t * src >= 0 {
            assert(t * a == 0);
        }
    }
}

/// The source coordinate for target coordinate `t`.
fn sample(t: i32, src: i32, dst: i32) -> (r: i32)
    requires
        0 <= t < dst,
    ensures
        r == sample_at(t as int, src as int, dst as int),
{
    proof {
        lemma_sample_range(t as int, src as int, dst as int);
        assert(i64::MIN <= (t as int) * (src as int) <= i64::MAX) by (nonlinear_arith)
            requires
                0 <= t < dst,
                dst <= i32::MAX,
                i32::MIN <= src <= i32::MAX,
        ;
    }
    ((t as i64) * (src as i64) / (dst as i64)) as i32
}

/// Target points drawn so far: every row above `ty`, and the first `tx`
/// points of row `ty`, within a width of `w`.
pub open spec fn done(tx: int, ty: int, w: int, cx: int, cy: int) -> bool {
    0 <= cx < w && 0 <= cy && (cy < ty || (cy == ty && cx < tx))
}

/// `new` is `old` with the target points drawn so far painted: each
/// on-panel logical point whose target point (relative to `x`, `y`) is
/// done and has a colour shows that colour; every other point is as in
/// `old`.
pub open spec fn painted_upto(
    r: Rotation,
    old: Seq<u8>,
    new: Seq<u8>,
    x: int,
    y: int,
    w: int,
    tx: int,
    ty: int,
    color: spec_fn(int, int) -> Option<bool>,
) -> bool {
    &&& new.len() == old.len()
    &&& forall|px: int, py: int|
        spec_map_display_point(r, px, py) is Some ==> #[trigger] pixel_value(r, new, px, py) == if done(
            tx,
            ty,
            w,
            px - x,
            py - y,
        ) && color(px - x, py - y) is Some {
            color(px - x, py - y)->0
        } else {
            pixel_value(r, old, px, py)
        }
}

/// `new` is `old` with a `w` by `h` block of target points at (`x`, `y`)
/// painted by `color`; points without a colour are left alone.
pub open spec fn painted(
    r: Rotation,
    old: Seq<u8>,
    new: Seq<u8>,
    x: int,
    y: int,
    w: int,
    h: int,
    color: spec_fn(int, int) -> Option<bool>,
) -> bool {
    painted_upto(r, old, new, x, y, w, 0, h, color)
}

proof fn lemma_paint_start(r: Rotation, old: Seq<u8>, x: int, y: int, w: int, color: spec_fn(int, int) -> Option<bool>)
    ensures
        painted_upto(r, old, old, x, y, w, 0, 0, color),
{
}

proof fn lemma_paint_row(
    r: Rotation,
    old: Seq<u8>,
    cur: Seq<u8>,
    x: int,
    y: int,
    w: int,
    ty: int,
    color: spec_fn(int, int) -> Option<bool>,
)
    requires
        painted_upto(r, old, cur, x, y, w, w, ty, color),
    ensures
        painted_upto(r, old, cur, x, y, w, 0, ty + 1, color),
{
    assert forall|px: int, py: int| spec_map_display_point(r, px, py) is Some implies #[trigger] pixel_value(
        r,
        cur,
        px,
        py,
    ) == if done(0, ty + 1, w, px - x, py - y) && color(px - x, py - y) is Some {
        color(px - x, py - y)->0
    } else {
        pixel_value(r, old, px, py)
    } by {
        assert(done(w, ty, w, px - x, py - y) == done(0, ty + 1, w, px - x, py - y));
    }
}

proof fn lemma_paint_step(
    r: Rotation,
    old: Seq<u8>,
    cur: Seq<u8>,
    next: Seq<u8>,
    x: int,
    y: int,
    w: int,
    tx: int,
    ty: int,
    color: spec_fn(int, int) -> Option<bool>,
)
    requires
        cur.len() == BUFFER_SIZE,
        painted_upto(r, old, cur, x, y, w, tx, ty, color),
        0 <= tx < w,
        0 <= ty,
        next == match color(tx, ty) {
            Some(c) => set_pixel_spec(r, cur, x + tx, y + ty, c),
            None => cur,
        },
    ensures
        painted_upto(r, old, next, x, y, w, tx + 1, ty, color),
        next.len() == BUFFER_SIZE,
{
    if let Some(c) = color(tx, ty) {
        if let Some((fx, fy)) = spec_map_display_point(r, x + tx, y + ty) {
            lemma_panel_index(fx, fy);
            lemma_with_bit(cur, pixel_index(fx, fy), c, 0);
        }
    }
    assert forall|px: int, py: int| spec_map_display_point(r, px, py) is Some implies #[trigger] pixel_value(
        r,
        next,
        px,
        py,
    ) == if done(tx + 1, ty, w, px - x, py - y) && color(px - x, py - y) is Some {
        color(px - x, py - y)->0
    } else {
        pixel_value(r, old, px, py)
    } by {
        let on_target = px - x == tx && py - y == ty;
        assert(done(tx + 1, ty, w, px - x, py - y) == (done(tx, ty, w, px - x, py - y)
            || on_target));
        if let Some(c) = color(tx, ty) {
            if spec_map_display_point(r, x + tx, y + ty) is Some {
                lemma_pixel_write_read(r, cur, x + tx, y + ty, c, px, py);
            } else {
                assert(!on_target);
            }
        }
    }
}

/// The colour of target point (`tx`, `ty`) of a 1-bit image scaled to
/// `dw` by `dh`: the nearest source bit (set is white), or none when the
/// sample falls outside the bitmap.
pub open spec fn mono_color(width: u32, height: u32, bits: Seq<u8>, dw: int, dh: int, tx: int, ty: int) -> Option<bool> {
    let sx = sample_at(tx, width as i32 as int, dw);
    let sy = sample_at(ty, height as i32 as int, dh);
    if sx < 0 || sy < 0 {
        None
    } else {
        let idx = sy * width + sx;
        if idx / 8 >= bits.len() {
            None
        } else {
            Some(bit_at(bits, idx))
        }
    }
}

/// The 4x4 ordered-dither matrix.
pub open spec fn bayer(row: int, col: int) -> int {
    let m = seq![
        seq![0int, 8, 2, 10],
        seq![12int, 4, 14, 6],
        seq![3int, 11, 1, 9],
        seq![15int, 7, 13, 5],
    ];
    m[row % 4][col % 4]
}

/// The colour of target point (`tx`, `ty`) of an 8-bit image scaled to
/// `dw` by `dh` and dithered: white when the nearest source pixel is at
/// least the dither threshold.
pub open spec fn gray8_color(width: u32, height: u32, pixels: Seq<u8>, dw: int, dh: int, tx: int, ty: int) -> Option<bool> {
    let sx = sample_at(tx, width as int, dw);
    let sy = sample_at(ty, height as int, dh);
    let idx = sy * width + sx;
    if idx >= pixels.len() {
        None
    } else {
        Some(pixels[idx] >= bayer(ty, tx) * 16 + 8)
    }
}

/// The dither threshold at a target point.
fn bayer_threshold(tx: i32, ty: i32) -> (r: u8)
    requires
        tx >= 0,
        ty >= 0,
    ensures
        r == bayer(ty as int, tx as int) * 16 + 8,
{
    let row = (ty % 4) as usize;
    let col = (tx % 4) as usize;
    let table: [[u8; 4]; 4] = [[0, 8, 2, 10], [12, 4, 14, 6], [3, 11, 1, 9], [15, 7, 13, 5]];
    let v = table[row][col];
    assert(v == bayer(ty as int, tx as int)) by {
        assert(table@[row as int]@[col as int] == v);
    }
    v * 16 + 8
}

/// The drawable size: at least one point each way.
pub open spec fn at_least_one(v: i32) -> int {
    if v > 1 {
        v as int
    } else {
        1
    }
}

/// Draws a 1-bit image scaled to the target rectangle.
fn draw_mono(
    buffers: &mut DisplayBuffers,
    width: u32,
    height: u32,
    bits: &[u8],
    x: i32,
    y: i32,
    target_w: i32,
    target_h: i32,
)
    requires
        old(buffers).wf(),
        x + at_least_one(target_w) <= i32::MAX,
        y + at_least_one(target_h) <= i32::MAX,
    ensures
        final(buffers).wf(),
        painted(
            old(buffers).spec_rotation(),
            old(buffers).active_view(),
            final(buffers).active_view(),
            x as int,
            y as int,
            at_least_one(target_w),
            at_least_one(target_h),
            |tx: int, ty: int|
                mono_color(
                    width,
                    height,
                    bits@,
                    at_least_one(target_w),
                    at_least_one(target_h),
                    tx,
                    ty,
                ),
        ),
        final(buffers).inactive_view() == old(buffers).inactive_view(),
        final(buffers).spec_rotation() == old(buffers).spec_rotation(),
        final(buffers).spec_active_flag() == old(buffers).spec_active_flag(),
{
    let ghost r = buffers.spec_rotation();
    let ghost old_buf = buffers.active_view();
    let src_w = width as i32;
    let src_h = height as i32;
    let dst_w: i32 = if target_w > 1 {
        target_w
    } else {
        1
    };
    let dst_h: i32 = if target_h > 1 {
        target_h
    } else {
        1
    };
    let ghost color = |tx: int, ty: int|
        mono_color(width, height, bits@, dst_w as int, dst_h as int, tx, ty);
    proof {
        buffers.lemma_wf_sizes();
    }
    let mut ty: i32 = 0;
    while ty < dst_h
        invariant
            0 <= ty <= dst_h,
            dst_w == at_least_one(target_w),
            dst_h == at_least_one(target_h),
            x + dst_w <= i32::MAX,
            y + dst_h <= i32::MAX,
            src_w == width as i32,
            src_h == height as i32,
            color == (|tx: int, ty: int|
                mono_color(width, height, bits@, dst_w as int, dst_h as int, tx, ty)),
            buffers.wf(),
            buffers.spec_rotation() == r,
            buffers.inactive_view() == old(buffers).inactive_view(),
            buffers.spec_active_flag() == old(buffers).spec_active_flag(),
            old_buf == old(buffers).active_view(),
            r == old(buffers).spec_rotation(),
            painted_upto(r, old_buf, buffers.active_view(), x as int, y as int, dst_w as int, 0, ty as int, color),
        decreases dst_h - ty,
    {
        let sy = sample(ty, src_h, dst_h);
        let mut tx: i32 = 0;
        while tx < dst_w
            invariant
                0 <= tx <= dst_w,
                0 <= ty < dst_h,
                x + dst_w <= i32::MAX,
                y + dst_h <= i32::MAX,
                src_w == width as i32,
                src_h == height as i32,
                color == (|tx: int, ty: int|
                    mono_color(width, height, bits@, dst_w as int, dst_h as int, tx, ty)),
                sy == sample_at(ty as int, src_h as int, dst_h as int),
                buffers.wf(),
                buffers.spec_rotation() == r,
                buffers.inactive_view() == old(buffers).inactive_view(),
                buffers.spec_active_flag() == old(buffers).spec_active_flag(),
                painted_upto(r, old_buf, buffers.active_view(), x as int, y as int, dst_w as int, tx as int, ty as int, color),
            decreases dst_w - tx,
        {
            proof {
                buffers.lemma_wf_sizes();
            }
            let ghost cur = buffers.active_view();
            let sx = sample(tx, src_w, dst_w);
            if sx >= 0 && sy >= 0 {
                proof {
                    assert((sy as int) * (width as int) + (sx as int) <= u64::MAX) by (nonlinear_arith)
                        requires
                            0 <= sy <= i32::MAX,
                            0 <= sx <= i32::MAX,
                            width <= u32::MAX,
                    ;
                }
                let idx: u64 = (sy as u64) * (width as u64) + (sx as u64);
                let byte = idx / 8;
                assert(idx as int == (sy as int) * (width as int) + (sx as int));
                assert(sx as int == sample_at(tx as int, width as i32 as int, dst_w as int));
                assert(sy as int == sample_at(ty as int, height as i32 as int, dst_h as int));
                if byte < bits.len() as u64 {
                    let b = bits[byte as usize];
                    let on = (b >> ((7 - idx % 8) as u8)) & 1 == 1;
                    assert(on == bit_at(bits@, idx as int));
                    assert(!((idx as int) / 8 >= bits@.len()));
                    assert(mono_color(width, height, bits@, dst_w as int, dst_h as int, tx as int, ty as int) == Some(on));
                    assert(color(tx as int, ty as int) == Some(on));
                    buffers.set_pixel(x + tx, y + ty, on);
                } else {
                    assert(color(tx as int, ty as int) is None);
                }
            } else {
                assert(color(tx as int, ty as int) is None);
            }
            proof {
                lemma_paint_step(r, old_buf, cur, buffers.active_view(), x as int, y as int, dst_w as int, tx as int, ty as int, color);
            }
            tx = tx + 1;
        }
        proof {
            lemma_paint_row(r, old_buf, buffers.active_view(), x as int, y as int, dst_w as int, ty as int, color);
        }
        ty = ty + 1;
    }
}

/// Draws an 8-bit grayscale image scaled to the target rectangle with
/// ordered dithering.
fn draw_gray8(
    buffers: &mut DisplayBuffers,
    width: u32,
    height: u32,
    pixels: &[u8],
    x: i32,
    y: i32,
    target_w: i32,
    target_h: i32,
)
    requires
        old(buffers).wf(),
        width <= i32::MAX,
        height <= i32::MAX,
        x + at_least_one(target_w) <= i32::MAX,
        y + at_least_one(target_h) <= i32::MAX,
    ensures
        final(buffers).wf(),
        painted(
            old(buffers).spec_rotation(),
            old(buffers).active_view(),
            final(buffers).active_view(),
            x as int,
            y as int,
            at_least_one(target_w),
            at_least_one(target_h),
            |tx: int, ty: int|
                gray8_color(
                    width,
                    height,
                    pixels@,
                    at_least_one(target_w),
                    at_least_one(target_h),
                    tx,
                    ty,
                ),
        ),
        final(buffers).inactive_view() == old(buffers).inactive_view(),
        final(buffers).spec_rotation() == old(buffers).spec_rotation(),
        final(buffers).spec_active_flag() == old(buffers).spec_active_flag(),
{
    let ghost r = buffers.spec_rotation();
    let ghost old_buf = buffers.active_view();
    let src_w = width as i32;
    let src_h = height as i32;
    let dst_w: i32 = if target_w > 1 {
        target_w
    } else {
        1
    };
    let dst_h: i32 = if target_h > 1 {
        target_h
    } else {
        1
    };
    let ghost color = |tx: int, ty: int|
        gray8_color(width, height, pixels@, dst_w as int, dst_h as int, tx, ty);
    let mut ty: i32 = 0;
    while ty < dst_h
        invariant
            0 <= ty <= dst_h,
            dst_w == at_least_one(target_w),
            dst_h == at_least_one(target_h),
            x + dst_w <= i32::MAX,
            y + dst_h <= i32::MAX,
            src_w == width,
            src_h == height,
            color == (|tx: int, ty: int|
                gray8_color(width, height, pixels@, dst_w as int, dst_h as int, tx, ty)),
            buffers.wf(),
            buffers.spec_rotation() == r,
            buffers.inactive_view() == old(buffers).inactive_view(),
            buffers.spec_active_flag() == old(buffers).spec_active_flag(),
            old_buf == old(buffers).active_view(),
            r == old(buffers).spec_rotation(),
            painted_upto(r, old_buf, buffers.active_view(), x as int, y as int, dst_w as int, 0, ty as int, color),
        decreases dst_h - ty,
    {
        let sy = sample(ty, src_h, dst_h);
        proof {
            lemma_sample_range(ty as int, src_h as int, dst_h as int);
        }
        let mut tx: i32 = 0;
        while tx < dst_w
            invariant
                0 <= tx <= dst_w,
                0 <= ty < dst_h,
                x + dst_w <= i32::MAX,
                y + dst_h <= i32::MAX,
                src_w == width,
                src_h == height,
                0 <= sy <= src_h,
                color == (|tx: int, ty: int|
                    gray8_color(width, height, pixels@, dst_w as int, dst_h as int, tx, ty)),
                sy == sample_at(ty as int, src_h as int, dst_h as int),
                buffers.wf(),
                buffers.spec_rotation() == r,
                buffers.inactive_view() == old(buffers).inactive_view(),
                buffers.spec_active_flag() == old(buffers).spec_active_flag(),
                painted_upto(r, old_buf, buffers.active_view(), x as int, y as int, dst_w as int, tx as int, ty as int, color),
            decreases dst_w - tx,
        {
            proof {
                buffers.lemma_wf_sizes();
                lemma_sample_range(tx as int, src_w as int, dst_w as int);
            }
            let ghost cur = buffers.active_view();
            let sx = sample(tx, src_w, dst_w);
            proof {
                assert((sy as int) * (width as int) + (sx as int) <= u64::MAX) by (nonlinear_arith)
                    requires
                        0 <= sy <= i32::MAX,
                        0 <= sx <= i32::MAX,
                        width <= u32::MAX,
                ;
            }
            let idx: u64 = (sy as u64) * (width as u64) + (sx as u64);
            if idx < pixels.len() as u64 {
                let lum = pixels[idx as usize];
                let threshold = bayer_threshold(tx, ty);
                let on = !(lum < threshold);
                assert(color(tx as int, ty as int) == Some(on));
                buffers.set_pixel(x + tx, y + ty, on);
            } else {
                assert(color(tx as int, ty as int) is None);
            }
            proof {
                lemma_paint_step(r, old_buf, cur, buffers.active_view(), x as int, y as int, dst_w as int, tx as int, ty as int, color);
            }
            tx = tx + 1;
        }
        proof {
            lemma_paint_row(r, old_buf, buffers.active_view(), x as int, y as int, dst_w as int, ty as int, color);
        }
        ty = ty + 1;
    }
}

/// `new` is the plane `old` with a mark added at the panel position of
/// every on-panel logical point whose target point is done and marked.
pub open spec fn marked_upto(
    r: Rotation,
    old: Seq<u8>,
    new: Seq<u8>,
    x: int,
    y: int,
    w: int,
    tx: int,
    ty: int,
    mark: spec_fn(int, int) -> bool,
) -> bool {
    &&& new.len() == old.len()
    &&& forall|px: int, py: int|
        spec_map_display_point(r, px, py) is Some ==> #[trigger] bit_at(new, mapped_index(r, px, py))
            == (bit_at(old, mapped_index(r, px, py)) || (done(tx, ty, w, px - x, py - y) && mark(
            px - x,
            py - y,
        )))
}

/// `new` is the plane `old` with the marks of a `w` by `h` block added.
pub open spec fn marked(
    r: Rotation,
    old: Seq<u8>,
    new: Seq<u8>,
    x: int,
    y: int,
    w: int,
    h: int,
    mark: spec_fn(int, int) -> bool,
) -> bool {
    marked_upto(r, old, new, x, y, w, 0, h, mark)
}

proof fn lemma_mark_row(
    r: Rotation,
    old: Seq<u8>,
    cur: Seq<u8>,
    x: int,
    y: int,
    w: int,
    ty: int,
    mark: spec_fn(int, int) -> bool,
)
    requires
        marked_upto(r, old, cur, x, y, w, w, ty, mark),
    ensures
        marked_upto(r, old, cur, x, y, w, 0, ty + 1, mark),
{
    assert forall|px: int, py: int| spec_map_display_point(r, px, py) is Some implies #[trigger] bit_at(
        cur,
        mapped_index(r, px, py),
    ) == (bit_at(old, mapped_index(r, px, py)) || (done(0, ty + 1, w, px - x, py - y) && mark(
        px - x,
        py - y,
    ))) by {
        assert(done(w, ty, w, px - x, py - y) == done(0, ty + 1, w, px - x, py - y));
    }
}

proof fn lemma_mark_step(
    r: Rotation,
    old: Seq<u8>,
    cur: Seq<u8>,
    next: Seq<u8>,
    x: int,
    y: int,
    w: int,
    tx: int,
    ty: int,
    mark: spec_fn(int, int) -> bool,
)
    requires
        cur.len() == BUFFER_SIZE,
        marked_upto(r, old, cur, x, y, w, tx, ty, mark),
        0 <= tx < w,
        0 <= ty,
        next == if mark(tx, ty) && spec_map_display_point(r, x + tx, y + ty) is Some {
            with_bit(cur, mapped_index(r, x + tx, y + ty), true)
        } else {
            cur
        },
    ensures
        marked_upto(r, old, next, x, y, w, tx + 1, ty, mark),
        next.len() == BUFFER_SIZE,
{
    let hit = mark(tx, ty) && spec_map_display_point(r, x + tx, y + ty) is Some;
    if hit {
        let (fx, fy) = spec_map_display_point(r, x + tx, y + ty)->0;
        lemma_panel_index(fx, fy);
        lemma_with_bit(cur, pixel_index(fx, fy), true, 0);
    }
    assert forall|px: int, py: int| spec_map_display_point(r, px, py) is Some implies #[trigger] bit_at(
        next,
        mapped_index(r, px, py),
    ) == (bit_at(old, mapped_index(r, px, py)) || (done(tx + 1, ty, w, px - x, py - y) && mark(
        px - x,
        py - y,
    ))) by {
        let on_target = px - x == tx && py - y == ty;
        assert(done(tx + 1, ty, w, px - x, py - y) == (done(tx, ty, w, px - x, py - y)
            || on_target));
        let (gx, gy) = spec_map_display_point(r, px, py)->0;
        lemma_panel_index(gx, gy);
        if hit {
            let (fx, fy) = spec_map_display_point(r, x + tx, y + ty)->0;
            if on_target {
                lemma_with_bit(cur, pixel_index(fx, fy), true, pixel_index(fx, fy));
            } else {
                lemma_map_injective(r, x + tx, y + ty, px, py);
                lemma_with_bit(cur, pixel_index(fx, fy), true, pixel_index(gx, gy));
            }
        } else if on_target {
            assert(!mark(tx, ty));
        }
    }
}

/// The grayscale planes drawn beside the 1-bit buffer, and whether any
/// grayscale content has been drawn into them.
pub struct GrayPlanes {
    pub lsb: Vec<u8>,
    pub msb: Vec<u8>,
    pub used: bool,
}

impl GrayPlanes {
    pub open spec fn wf(&self) -> bool {
        self.lsb@.len() == BUFFER_SIZE && self.msb@.len() == BUFFER_SIZE
    }

    /// Empty planes.
    pub fn new() -> (r: Self)
        ensures
            r.wf(),
            r.lsb@ == Seq::new(BUFFER_SIZE as nat, |i: int| 0u8),
            r.msb@ == Seq::new(BUFFER_SIZE as nat, |i: int| 0u8),
            !r.used,
    {
        let r = GrayPlanes { lsb: vec![0u8; BUFFER_SIZE], msb: vec![0u8; BUFFER_SIZE], used: false };
        assert(r.lsb@ =~= Seq::new(BUFFER_SIZE as nat, |i: int| 0u8));
        assert(r.msb@ =~= Seq::new(BUFFER_SIZE as nat, |i: int| 0u8));
        r
    }
}

impl GrayPlanes {
    /// Clears both planes.
    pub fn clear(&mut self)
        ensures
            final(self).wf(),
            final(self).lsb@ == Seq::new(BUFFER_SIZE as nat, |i: int| 0u8),
            final(self).msb@ == Seq::new(BUFFER_SIZE as nat, |i: int| 0u8),
            final(self).used == old(self).used,
    {
        self.lsb = vec![0u8; BUFFER_SIZE];
        self.msb = vec![0u8; BUFFER_SIZE];
        assert(self.lsb@ =~= Seq::new(BUFFER_SIZE as nat, |i: int| 0u8));
        assert(self.msb@ =~= Seq::new(BUFFER_SIZE as nat, |i: int| 0u8));
    }
}

/// Whether a grayscale plane marks target point (`tx`, `ty`).
pub open spec fn plane_mark(width: u32, height: u32, plane: Seq<u8>, dw: int, dh: int, tx: int, ty: int) -> bool {
    match mono_color(width, height, plane, dw, dh, tx, ty) {
        Some(b) => b,
        None => false,
    }
}

/// Bytes of one 1-bit plane of a `width` by `height` image.
pub open spec fn image_plane_len(width: u32, height: u32) -> int {
    (width * height + 7) / 8
}

/// Draws a 2-bit grayscale image (base, low and high planes) scaled to the
/// target rectangle: the base plane into the 1-bit buffer, the other two
/// added into the grayscale planes.
fn draw_gray2(
    buffers: &mut DisplayBuffers,
    width: u32,
    height: u32,
    data: &[u8],
    planes: &mut GrayPlanes,
    x: i32,
    y: i32,
    target_w: i32,
    target_h: i32,
)
    requires
        old(buffers).wf(),
        old(planes).wf(),
        data@.len() >= 3 * image_plane_len(width, height),
        x + at_least_one(target_w) <= i32::MAX,
        y + at_least_one(target_h) <= i32::MAX,
    ensures
        final(buffers).wf(),
        final(planes).wf(),
        ({
            let p = image_plane_len(width, height);
            let dw = at_least_one(target_w);
            let dh = at_least_one(target_h);
            let r = old(buffers).spec_rotation();
            &&& painted(
                r,
                old(buffers).active_view(),
                final(buffers).active_view(),
                x as int,
                y as int,
                dw,
                dh,
                |tx: int, ty: int| mono_color(width, height, data@.subrange(0, p), dw, dh, tx, ty),
            )
            &&& marked(
                r,
                old(planes).lsb@,
                final(planes).lsb@,
                x as int,
                y as int,
                dw,
                dh,
                |tx: int, ty: int| plane_mark(width, height, data@.subrange(p, 2 * p), dw, dh, tx, ty),
            )
            &&& marked(
                r,
                old(planes).msb@,
                final(planes).msb@,
                x as int,
                y as int,
                dw,
                dh,
                |tx: int, ty: int|
                    plane_mark(width, height, data@.subrange(2 * p, 3 * p), dw, dh, tx, ty),
            )
        }),
        final(planes).used == old(planes).used,
        final(buffers).inactive_view() == old(buffers).inactive_view(),
        final(buffers).spec_rotation() == old(buffers).spec_rotation(),
        final(buffers).spec_active_flag() == old(buffers).spec_active_flag(),
{
    let ghost r = buffers.spec_rotation();
    let ghost old_buf = buffers.active_view();
    let ghost old_lsb = planes.lsb@;
    let ghost old_msb = planes.msb@;
    proof {
        assert((width as int) * (height as int) + 7 <= u64::MAX) by (nonlinear_arith)
            requires
                width <= u32::MAX,
                height <= u32::MAX,
        ;
    }
    let plane64: u64 = ((width as u64) * (height as u64) + 7) / 8;
    let dlen = data.len();
    assert(plane64 as int == image_plane_len(width, height));
    let plane = plane64 as usize;
    let base = slice_subrange_u8(data, 0, plane);
    let lsb_src = slice_subrange_u8(data, plane, 2 * plane);
    let msb_src = slice_subrange_u8(data, 2 * plane, 3 * plane);
    let src_w = width as i32;
    let src_h = height as i32;
    let dst_w: i32 = if target_w > 1 {
        target_w
    } else {
        1
    };
    let dst_h: i32 = if target_h > 1 {
        target_h
    } else {
        1
    };
    let ghost color = |tx: int, ty: int|
        mono_color(width, height, base@, dst_w as int, dst_h as int, tx, ty);
    let ghost mark_l = |tx: int, ty: int|
        plane_mark(width, height, lsb_src@, dst_w as int, dst_h as int, tx, ty);
    let ghost mark_m = |tx: int, ty: int|
        plane_mark(width, height, msb_src@, dst_w as int, dst_h as int, tx, ty);
    let rotation = buffers.rotation();
    let mut ty: i32 = 0;
    while ty < dst_h
        invariant
            0 <= ty <= dst_h,
            dst_w == at_least_one(target_w),
            dst_h == at_least_one(target_h),
            x + dst_w <= i32::MAX,
            y + dst_h <= i32::MAX,
            src_w == width as i32,
            src_h == height as i32,
            base@.len() == plane,
            lsb_src@.len() == plane,
            msb_src@.len() == plane,
            color == (|tx: int, ty: int|
                mono_color(width, height, base@, dst_w as int, dst_h as int, tx, ty)),
            mark_l == (|tx: int, ty: int|
                plane_mark(width, height, lsb_src@, dst_w as int, dst_h as int, tx, ty)),
            mark_m == (|tx: int, ty: int|
                plane_mark(width, height, msb_src@, dst_w as int, dst_h as int, tx, ty)),
            buffers.wf(),
            planes.wf(),
            planes.used == old(planes).used,
            rotation == r,
            buffers.spec_rotation() == r,
            buffers.inactive_view() == old(buffers).inactive_view(),
            buffers.spec_active_flag() == old(buffers).spec_active_flag(),
            old_buf == old(buffers).active_view(),
            old_lsb == old(planes).lsb@,
            old_msb == old(planes).msb@,
            r == old(buffers).spec_rotation(),
            painted_upto(r, old_buf, buffers.active_view(), x as int, y as int, dst_w as int, 0, ty as int, color),
            marked_upto(r, old_lsb, planes.lsb@, x as int, y as int, dst_w as int, 0, ty as int, mark_l),
            marked_upto(r, old_msb, planes.msb@, x as int, y as int, dst_w as int, 0, ty as int, mark_m),
        decreases dst_h - ty,
    {
        let sy = sample(ty, src_h, dst_h);
        let mut tx: i32 = 0;
        while tx < dst_w
            invariant
                0 <= tx <= dst_w,
                0 <= ty < dst_h,
                x + dst_w <= i32::MAX,
                y + dst_h <= i32::MAX,
                src_w == width as i32,
                src_h == height as i32,
                base@.len() == plane,
                lsb_src@.len() == plane,
                msb_src@.len() == plane,
                color == (|tx: int, ty: int|
                    mono_color(width, height, base@, dst_w as int, dst_h as int, tx, ty)),
                mark_l == (|tx: int, ty: int|
                    plane_mark(width, height, lsb_src@, dst_w as int, dst_h as int, tx, ty)),
                mark_m == (|tx: int, ty: int|
                    plane_mark(width, height, msb_src@, dst_w as int, dst_h as int, tx, ty)),
                sy == sample_at(ty as int, src_h as int, dst_h as int),
                buffers.wf(),
                planes.wf(),
                planes.used == old(planes).used,
                rotation == r,
                buffers.spec_rotation() == r,
                buffers.inactive_view() == old(buffers).inactive_view(),
                buffers.spec_active_flag() == old(buffers).spec_active_flag(),
                painted_upto(r, old_buf, buffers.active_view(), x as int, y as int, dst_w as int, tx as int, ty as int, color),
                marked_upto(r, old_lsb, planes.lsb@, x as int, y as int, dst_w as int, tx as int, ty as int, mark_l),
                marked_upto(r, old_msb, planes.msb@, x as int, y as int, dst_w as int, tx as int, ty as int, mark_m),
            decreases dst_w - tx,
        {
            proof {
                buffers.lemma_wf_sizes();
            }
            let ghost cur = buffers.active_view();
            let ghost cur_l = planes.lsb@;
            let ghost cur_m = planes.msb@;
            let sx = sample(tx, src_w, dst_w);
            let mut lsb_hit = false;
            let mut msb_hit = false;
            if sx >= 0 && sy >= 0 {
                proof {
                    assert((sy as int) * (width as int) + (sx as int) <= u64::MAX) by (nonlinear_arith)
                        requires
                            0 <= sy <= i32::MAX,
                            0 <= sx <= i32::MAX,
                            width <= u32::MAX,
                    ;
                }
                let idx: u64 = (sy as u64) * (width as u64) + (sx as u64);
                let byte = idx / 8;
                assert(idx as int == (sy as int) * (width as int) + (sx as int));
                if byte < plane as u64 {
                    let shift = (7 - idx % 8) as u8;
                    let on = (base[byte as usize] >> shift) & 1 == 1;
                    lsb_hit = (lsb_src[byte as usize] >> shift) & 1 == 1;
                    msb_hit = (msb_src[byte as usize] >> shift) & 1 == 1;
                    assert(on == bit_at(base@, idx as int));
                    assert(lsb_hit == bit_at(lsb_src@, idx as int));
                    assert(msb_hit == bit_at(msb_src@, idx as int));
                    assert(color(tx as int, ty as int) == Some(on));
                    buffers.set_pixel(x + tx, y + ty, on);
                } else {
                    assert(color(tx as int, ty as int) is None);
                }
            } else {
                assert(color(tx as int, ty as int) is None);
            }
            assert(lsb_hit == mark_l(tx as int, ty as int));
            assert(msb_hit == mark_m(tx as int, ty as int));
            if lsb_hit || msb_hit {
                match map_display_point(rotation, x + tx, y + ty) {
                    Some((fx, fy)) => {
                        let dst_idx = fy * WIDTH + fx;
                        proof {
                            lemma_panel_index(fx as int, fy as int);
                        }
                        if lsb_hit {
                            write_plane_bit(&mut planes.lsb, dst_idx);
                        }
                        if msb_hit {
                            write_plane_bit(&mut planes.msb, dst_idx);
                        }
                    },
                    None => {},
                }
            }
            proof {
                lemma_paint_step(r, old_buf, cur, buffers.active_view(), x as int, y as int, dst_w as int, tx as int, ty as int, color);
                lemma_mark_step(r, old_lsb, cur_l, planes.lsb@, x as int, y as int, dst_w as int, tx as int, ty as int, mark_l);
                lemma_mark_step(r, old_msb, cur_m, planes.msb@, x as int, y as int, dst_w as int, tx as int, ty as int, mark_m);
            }
            tx = tx + 1;
        }
        proof {
            lemma_paint_row(r, old_buf, buffers.active_view(), x as int, y as int, dst_w as int, ty as int, color);
            lemma_mark_row(r, old_lsb, planes.lsb@, x as int, y as int, dst_w as int, ty as int, mark_l);
            lemma_mark_row(r, old_msb, planes.msb@, x as int, y as int, dst_w as int, ty as int, mark_m);
        }
        ty = ty + 1;
    }
}

/// Sets one bit of a grayscale plane.
fn write_plane_bit(plane: &mut Vec<u8>, idx: usize)
    requires
        idx < old(plane)@.len() * 8,
    ensures
        final(plane)@ == with_bit(old(plane)@, idx as int, true),
{
    crate::bitmap::write_bit(plane, idx, true);
}

/// A byte subrange.
pub(crate) fn slice_subrange_u8(data: &[u8], i: usize, j: usize) -> (r: &[u8])
    requires
        i <= j <= data@.len(),
    ensures
        r@ == data@.subrange(i as int, j as int),
{
    vstd::slice::slice_subrange(data, i, j)
}

/// The effect of `draw_trbk_image` with `r` on the buffer (`before` to
/// `after`) and the grayscale planes (`old_g` to `new_g`): the image scaled
/// to the target rectangle; a 2-bit image also marks the planes when there
/// are planes and its data holds all three; a streamed one draws nothing.
pub open spec fn trbk_image_drawn(
    r: Rotation,
    before: Seq<u8>,
    after: Seq<u8>,
    image: ImageData,
    old_g: Option<GrayPlanes>,
    new_g: Option<GrayPlanes>,
    x: i32,
    y: i32,
    target_w: i32,
    target_h: i32,
) -> bool {
    let dw = at_least_one(target_w);
    let dh = at_least_one(target_h);
    match image {
        ImageData::Mono1 { width, height, bits } => {
            &&& painted(
                r,
                before,
                after,
                x as int,
                y as int,
                dw,
                dh,
                |tx: int, ty: int| mono_color(width, height, bits@, dw, dh, tx, ty),
            )
            &&& new_g == old_g
        },
        ImageData::Gray8 { width, height, pixels } => {
            &&& painted(
                r,
                before,
                after,
                x as int,
                y as int,
                dw,
                dh,
                |tx: int, ty: int| gray8_color(width, height, pixels@, dw, dh, tx, ty),
            )
            &&& new_g == old_g
        },
        ImageData::Gray2 { width, height, data } => {
            let p = image_plane_len(width, height);
            if data@.len() < 3 * p || old_g is None {
                after == before && new_g == old_g
            } else {
                let g0 = old_g->0;
                let g1 = new_g->0;
                &&& g1.used
                &&& painted(
                    r,
                    before,
                    after,
                    x as int,
                    y as int,
                    dw,
                    dh,
                    |tx: int, ty: int|
                        mono_color(width, height, data@.subrange(0, p), dw, dh, tx, ty),
                )
                &&& marked(
                    r,
                    g0.lsb@,
                    g1.lsb@,
                    x as int,
                    y as int,
                    dw,
                    dh,
                    |tx: int, ty: int|
                        plane_mark(width, height, data@.subrange(p, 2 * p), dw, dh, tx, ty),
                )
                &&& marked(
                    r,
                    g0.msb@,
                    g1.msb@,
                    x as int,
                    y as int,
                    dw,
                    dh,
                    |tx: int, ty: int|
                        plane_mark(
                            width,
                            height,
                            data@.subrange(2 * p, 3 * p),
                            dw,
                            dh,
                            tx,
                            ty,
                        ),
                )
            }
        },
        ImageData::Gray2Stream { .. } => after == before && new_g == old_g,
    }
}

/// Draws a decoded image scaled to the target rectangle: a 1-bit image
/// directly, an 8-bit image dithered, a 2-bit image into the buffer and the
/// grayscale planes (only when there are planes to draw into, which are
/// then marked used). A streamed image is not drawn here.
pub fn draw_trbk_image(
    buffers: &mut DisplayBuffers,
    image: &ImageData,
    gray2: &mut Option<GrayPlanes>,
    x: i32,
    y: i32,
    target_w: i32,
    target_h: i32,
)
    requires
        old(buffers).wf(),
        *old(gray2) matches Some(p) ==> p.wf(),
        x + at_least_one(target_w) <= i32::MAX,
        y + at_least_one(target_h) <= i32::MAX,
        image matches ImageData::Gray8 { width, height, .. } ==> width <= i32::MAX && height
            <= i32::MAX,
    ensures
        final(buffers).wf(),
        *final(gray2) matches Some(p) ==> p.wf(),
        (*final(gray2)) is Some == (*old(gray2)) is Some,
        final(buffers).inactive_view() == old(buffers).inactive_view(),
        final(buffers).spec_rotation() == old(buffers).spec_rotation(),
        final(buffers).spec_active_flag() == old(buffers).spec_active_flag(),
        trbk_image_drawn(
            old(buffers).spec_rotation(),
            old(buffers).active_view(),
            final(buffers).active_view(),
            *image,
            *old(gray2),
            *final(gray2),
            x,
            y,
            target_w,
            target_h,
        ),
{
    match image {
        ImageData::Mono1 { width, height, bits } => {
            draw_mono(buffers, *width, *height, bits.as_slice(), x, y, target_w, target_h);
        },
        ImageData::Gray8 { width, height, pixels } => {
            draw_gray8(buffers, *width, *height, pixels.as_slice(), x, y, target_w, target_h);
        },
        ImageData::Gray2 { width, height, data } => {
            proof {
                assert((*width as int) * (*height as int) + 7 <= u64::MAX) by (nonlinear_arith)
                    requires
                        *width <= u32::MAX,
                        *height <= u32::MAX,
                ;
            }
            let plane: u64 = ((*width as u64) * (*height as u64) + 7) / 8;
            if (data.len() as u64) / 3 < plane {
                return ;
            }
            match gray2 {
                Some(planes) => {
                    planes.used = true;
                    draw_gray2(
                        buffers,
                        *width,
                        *height,
                        data.as_slice(),
                        planes,
                        x,
                        y,
                        target_w,
                        target_h,
                    );
                },
                None => {},
            }
        },
        ImageData::Gray2Stream { .. } => {},
    }
}

/// Whether a glyph carries the two grayscale planes.
pub open spec fn glyph_has_gray(g: TrbkGlyph) -> bool {
    g.bitmap_lsb is Some && g.bitmap_msb is Some
}

/// Whether glyph pixel (`col`, `row`) is drawn black: a set bit of the
/// 1-bit plane, or for a grayscale glyph a clear bit.
pub open spec fn glyph_pixel_black(g: TrbkGlyph, col: int, row: int) -> bool {
    let idx = row * g.width + col;
    idx / 8 < g.bitmap_bw@.len() && (if glyph_has_gray(g) {
        !bit_at(g.bitmap_bw@, idx)
    } else {
        bit_at(g.bitmap_bw@, idx)
    })
}

/// Whether glyph pixel (`col`, `row`) is marked in a grayscale plane.
pub open spec fn glyph_plane_mark(g: TrbkGlyph, plane: Option<Vec<u8>>, col: int, row: int) -> bool {
    let idx = row * g.width + col;
    glyph_has_gray(g) && match plane {
        Some(p) => idx / 8 < p@.len() && bit_at(p@, idx),
        None => false,
    }
}

/// Where a glyph's top-left pixel lands for a pen position and baseline.
pub open spec fn glyph_origin(g: TrbkGlyph, pen_x: int, baseline: int) -> (int, int) {
    (pen_x + g.x_offset, baseline - g.y_offset)
}

/// Draws one glyph with its pen at `origin_x` on `baseline`: black pixels
/// into the buffer, grayscale marks into the planes (when there are planes
/// and the glyph has grayscale, which marks the planes used).
pub fn draw_glyph(
    buffers: &mut DisplayBuffers,
    glyph: &TrbkGlyph,
    gray2: &mut Option<GrayPlanes>,
    origin_x: i32,
    baseline: i32,
)
    requires
        old(buffers).wf(),
        *old(gray2) matches Some(p) ==> p.wf(),
        i32::MIN + 65536 <= origin_x <= i32::MAX - 65536,
        i32::MIN + 65536 <= baseline <= i32::MAX - 65536,
    ensures
        final(buffers).wf(),
        *final(gray2) matches Some(p) ==> p.wf(),
        (*final(gray2)) is Some == (*old(gray2)) is Some,
        final(buffers).inactive_view() == old(buffers).inactive_view(),
        final(buffers).spec_rotation() == old(buffers).spec_rotation(),
        final(buffers).spec_active_flag() == old(buffers).spec_active_flag(),
        ({
            let (sx, sy) = glyph_origin(*glyph, origin_x as int, baseline as int);
            let r = old(buffers).spec_rotation();
            &&& painted(
                r,
                old(buffers).active_view(),
                final(buffers).active_view(),
                sx,
                sy,
                glyph.width as int,
                glyph.height as int,
                |c: int, w: int|
                    if glyph_pixel_black(*glyph, c, w) {
                        Some(false)
                    } else {
                        None
                    },
            )
            &&& match *old(gray2) {
                None => *final(gray2) == *old(gray2),
                Some(g0) => {
                    let g1 = (*final(gray2))->0;
                    &&& g1.used == (g0.used || (glyph_has_gray(*glyph) && glyph.width > 0
                        && glyph.height > 0))
                    &&& marked(
                        r,
                        g0.lsb@,
                        g1.lsb@,
                        sx,
                        sy,
                        glyph.width as int,
                        glyph.height as int,
                        |c: int, w: int| glyph_plane_mark(*glyph, glyph.bitmap_lsb, c, w),
                    )
                    &&& marked(
                        r,
                        g0.msb@,
                        g1.msb@,
                        sx,
                        sy,
                        glyph.width as int,
                        glyph.height as int,
                        |c: int, w: int| glyph_plane_mark(*glyph, glyph.bitmap_msb, c, w),
                    )
                },
            }
        }),
{
    let ghost r = buffers.spec_rotation();
    let ghost old_buf = buffers.active_view();
    let ghost old_g = *gray2;
    let width = glyph.width as i32;
    let height = glyph.height as i32;
    let start_x = origin_x + glyph.x_offset as i32;
    let start_y = baseline - glyph.y_offset as i32;
    let ghost color = |c: int, w: int|
        if glyph_pixel_black(*glyph, c, w) {
            Some(false)
        } else {
            None
        };
    let ghost mark_l = |c: int, w: int| glyph_plane_mark(*glyph, glyph.bitmap_lsb, c, w);
    let ghost mark_m = |c: int, w: int| glyph_plane_mark(*glyph, glyph.bitmap_msb, c, w);
    if width == 0 || height == 0 {
        proof {
            assert forall|px: int, py: int| spec_map_display_point(r, px, py) is Some implies #[trigger] pixel_value(
                r,
                buffers.active_view(),
                px,
                py,
            ) == if done(0, height as int, width as int, px - start_x, py - start_y) && color(
                px - start_x,
                py - start_y,
            ) is Some {
                color(px - start_x, py - start_y)->0
            } else {
                pixel_value(r, old_buf, px, py)
            } by {}
        }
        return ;
    }
    let has_gray2 = glyph.bitmap_lsb.is_some() && glyph.bitmap_msb.is_some();
    let rotation = buffers.rotation();
    if has_gray2 {
        if let Some(planes) = gray2 {
            planes.used = true;
        }
    }
    let ghost g_start = *gray2;
    let mut row: i32 = 0;
    while row < height
        invariant
            0 <= row <= height,
            width == glyph.width,
            height == glyph.height,
            width > 0,
            start_x == origin_x + glyph.x_offset,
            start_y == baseline - glyph.y_offset,
            i32::MIN + 65536 <= origin_x <= i32::MAX - 65536,
            i32::MIN + 65536 <= baseline <= i32::MAX - 65536,
            has_gray2 == glyph_has_gray(*glyph),
            color == (|c: int, w: int|
                if glyph_pixel_black(*glyph, c, w) {
                    Some(false)
                } else {
                    None
                }),
            mark_l == (|c: int, w: int| glyph_plane_mark(*glyph, glyph.bitmap_lsb, c, w)),
            mark_m == (|c: int, w: int| glyph_plane_mark(*glyph, glyph.bitmap_msb, c, w)),
            buffers.wf(),
            rotation == r,
            buffers.spec_rotation() == r,
            buffers.inactive_view() == old(buffers).inactive_view(),
            buffers.spec_active_flag() == old(buffers).spec_active_flag(),
            old_buf == old(buffers).active_view(),
            r == old(buffers).spec_rotation(),
            old_g == *old(gray2),
            (*gray2) is Some == old_g is Some,
            *gray2 matches Some(p) ==> p.wf(),
            *gray2 matches Some(p) ==> p.used == (old_g->0.used || has_gray2),
            painted_upto(r, old_buf, buffers.active_view(), start_x as int, start_y as int, width as int, 0, row as int, color),
            *gray2 matches Some(p) ==> marked_upto(r, old_g->0.lsb@, p.lsb@, start_x as int, start_y as int, width as int, 0, row as int, mark_l),
            *gray2 matches Some(p) ==> marked_upto(r, old_g->0.msb@, p.msb@, start_x as int, start_y as int, width as int, 0, row as int, mark_m),
        decreases height - row,
    {
        let mut col: i32 = 0;
        while col < width
            invariant
                0 <= col <= width,
                0 <= row < height,
                width == glyph.width,
                height == glyph.height,
                start_x == origin_x + glyph.x_offset,
                start_y == baseline - glyph.y_offset,
                i32::MIN + 65536 <= origin_x <= i32::MAX - 65536,
                i32::MIN + 65536 <= baseline <= i32::MAX - 65536,
                has_gray2 == glyph_has_gray(*glyph),
                color == (|c: int, w: int|
                    if glyph_pixel_black(*glyph, c, w) {
                        Some(false)
                    } else {
                        None
                    }),
                mark_l == (|c: int, w: int| glyph_plane_mark(*glyph, glyph.bitmap_lsb, c, w)),
                mark_m == (|c: int, w: int| glyph_plane_mark(*glyph, glyph.bitmap_msb, c, w)),
                buffers.wf(),
                rotation == r,
                buffers.spec_rotation() == r,
                buffers.inactive_view() == old(buffers).inactive_view(),
                buffers.spec_active_flag() == old(buffers).spec_active_flag(),
                old_g == *old(gray2),
                (*gray2) is Some == old_g is Some,
                *gray2 matches Some(p) ==> p.wf(),
                *gray2 matches Some(p) ==> p.used == (old_g->0.used || has_gray2),
                painted_upto(r, old_buf, buffers.active_view(), start_x as int, start_y as int, width as int, col as int, row as int, color),
                *gray2 matches Some(p) ==> marked_upto(r, old_g->0.lsb@, p.lsb@, start_x as int, start_y as int, width as int, col as int, row as int, mark_l),
                *gray2 matches Some(p) ==> marked_upto(r, old_g->0.msb@, p.msb@, start_x as int, start_y as int, width as int, col as int, row as int, mark_m),
            decreases width - col,
        {
            proof {
                buffers.lemma_wf_sizes();
            }
            let ghost cur = buffers.active_view();
            let ghost cur_g = *gray2;
            proof {
                assert((row as int) * (width as int) + (col as int) <= 255 * 255 + 255) by (nonlinear_arith)
                    requires
                        0 <= row < height <= 255,
                        0 <= col < width <= 255,
                ;
            }
            let idx: usize = (row as usize) * (width as usize) + (col as usize);
            let byte = idx / 8;
            let shift = (7 - (idx % 8)) as u8;
            assert(idx as int == (row as int) * (glyph.width as int) + (col as int));
            if byte < glyph.bitmap_bw.len() {
                let bw_set = (glyph.bitmap_bw[byte] >> shift) & 1 == 1;
                assert(bw_set == bit_at(glyph.bitmap_bw@, idx as int));
                let draw_black = if has_gray2 {
                    !bw_set
                } else {
                    bw_set
                };
                if draw_black {
                    assert(color(col as int, row as int) == Some(false));
                    buffers.set_pixel(start_x + col, start_y + row, false);
                } else {
                    assert(color(col as int, row as int) is None);
                }
            } else {
                assert(color(col as int, row as int) is None);
            }
            let lsb_hit = match &glyph.bitmap_lsb {
                Some(l) => has_gray2 && byte < l.len() && (l[byte] >> shift) & 1 == 1,
                None => false,
            };
            let msb_hit = match &glyph.bitmap_msb {
                Some(m) => has_gray2 && byte < m.len() && (m[byte] >> shift) & 1 == 1,
                None => false,
            };
            assert(lsb_hit == mark_l(col as int, row as int));
            assert(msb_hit == mark_m(col as int, row as int));
            if let Some(planes) = gray2 {
                if lsb_hit || msb_hit {
                    match map_display_point(rotation, start_x + col, start_y + row) {
                        Some((fx, fy)) => {
                            let dst_idx = fy * WIDTH + fx;
                            proof {
                                lemma_panel_index(fx as int, fy as int);
                            }
                            if lsb_hit {
                                write_plane_bit(&mut planes.lsb, dst_idx);
                            }
                            if msb_hit {
                                write_plane_bit(&mut planes.msb, dst_idx);
                            }
                        },
                        None => {},
                    }
                }
            }
            let ghost gg = *gray2;
            proof {
                lemma_paint_step(r, old_buf, cur, buffers.active_view(), start_x as int, start_y as int, width as int, col as int, row as int, color);
                if let Some(p) = gg {
                    let p0 = cur_g->0;
                    lemma_mark_step(r, old_g->0.lsb@, p0.lsb@, p.lsb@, start_x as int, start_y as int, width as int, col as int, row as int, mark_l);
                    lemma_mark_step(r, old_g->0.msb@, p0.msb@, p.msb@, start_x as int, start_y as int, width as int, col as int, row as int, mark_m);
                }
            }
            col = col + 1;
        }
        let ghost gg = *gray2;
        proof {
            lemma_paint_row(r, old_buf, buffers.active_view(), start_x as int, start_y as int, width as int, row as int, color);
            if let Some(p) = gg {
                lemma_mark_row(r, old_g->0.lsb@, p.lsb@, start_x as int, start_y as int, width as int, row as int, mark_l);
                lemma_mark_row(r, old_g->0.msb@, p.msb@, start_x as int, start_y as int, width as int, row as int, mark_m);
            }
        }
        row = row + 1;
    }
}

/// Bit (`c`, `r`) of a packed icon mask `w` pixels wide.
pub open spec fn icon_bit(mask: Seq<u8>, w: int, c: int, r: int) -> bool {
    bit_at(mask, r * w + c)
}

/// The colour an icon gives pixel (`c`, `r`): black where the dark mask is
/// set, else white where the light mask is set, else none.
pub open spec fn icon_color(dark: Seq<u8>, light: Seq<u8>, w: int, c: int, r: int) -> Option<bool> {
    if icon_bit(dark, w, c, r) {
        Some(false)
    } else if icon_bit(light, w, c, r) {
        Some(true)
    } else {
        None
    }
}

/// Some pixel among those done so far is set in either mask.
pub open spec fn icon_marked_upto(dark: Seq<u8>, light: Seq<u8>, w: int, tx: int, ty: int) -> bool {
    exists|c: int, r: int|
        #![trigger icon_bit(dark, w, c, r)]
        #![trigger icon_bit(light, w, c, r)]
        done(tx, ty, w, c, r) && (icon_bit(dark, w, c, r) || icon_bit(light, w, c, r))
}

/// The masks fit a `w` by `h` icon.
pub open spec fn icon_fits(dark: Seq<u8>, light: Seq<u8>, w: int, h: int) -> bool {
    w > 0 && h > 0 && dark.len() == (w * h + 7) / 8 && light.len() == (w * h + 7) / 8
}

proof fn lemma_icon_marked_step(dark: Seq<u8>, light: Seq<u8>, w: int, tx: int, ty: int)
    requires
        0 <= tx < w,
        0 <= ty,
    ensures
        icon_marked_upto(dark, light, w, tx + 1, ty) == (icon_marked_upto(dark, light, w, tx, ty)
            || icon_bit(dark, w, tx, ty) || icon_bit(light, w, tx, ty)),
{
    if icon_marked_upto(dark, light, w, tx + 1, ty) {
        let (c, r) = choose|c: int, r: int|
            #![trigger icon_bit(dark, w, c, r)]
            #![trigger icon_bit(light, w, c, r)]
            done(tx + 1, ty, w, c, r) && (icon_bit(dark, w, c, r) || icon_bit(light, w, c, r));
        if !(c == tx && r == ty) {
            assert(done(tx, ty, w, c, r));
        }
    }
    if icon_bit(dark, w, tx, ty) || icon_bit(light, w, tx, ty) {
        assert(done(tx + 1, ty, w, tx, ty));
    }
    if icon_marked_upto(dark, light, w, tx, ty) {
        let (c, r) = choose|c: int, r: int|
            #![trigger icon_bit(dark, w, c, r)]
            #![trigger icon_bit(light, w, c, r)]
            done(tx, ty, w, c, r) && (icon_bit(dark, w, c, r) || icon_bit(light, w, c, r));
        assert(done(tx + 1, ty, w, c, r));
    }
}

proof fn lemma_icon_marked_row(dark: Seq<u8>, light: Seq<u8>, w: int, ty: int)
    ensures
        icon_marked_upto(dark, light, w, w, ty) == icon_marked_upto(dark, light, w, 0, ty + 1),
{
    assert forall|c: int, r: int| done(w, ty, w, c, r) == done(0, ty + 1, w, c, r) by {}
}

/// The effect of `draw_icon_gray2` with `rotation` when both masks fit:
/// dark pixels black and light ones white in the buffer (`old_buf` to
/// `new_buf`), light pixels marked in the low plane, dark ones in the high
/// plane, and the planes used once any pixel was marked.
pub open spec fn icon_drawn(
    rotation: Rotation,
    old_buf: Seq<u8>,
    new_buf: Seq<u8>,
    old_lsb: Seq<u8>,
    new_lsb: Seq<u8>,
    old_msb: Seq<u8>,
    new_msb: Seq<u8>,
    old_used: bool,
    new_used: bool,
    x: int,
    y: int,
    width: int,
    height: int,
    dark: Seq<u8>,
    light: Seq<u8>,
) -> bool {
    &&& painted(rotation, old_buf, new_buf, x, y, width, height, |c: int, w: int| icon_color(dark, light, width, c, w))
    &&& marked(rotation, old_lsb, new_lsb, x, y, width, height, |c: int, w: int| icon_bit(light, width, c, w))
    &&& marked(rotation, old_msb, new_msb, x, y, width, height, |c: int, w: int| icon_bit(dark, width, c, w))
    &&& new_used == (old_used || icon_marked_upto(dark, light, width, 0, height))
}

/// Draws a two-mask icon with its top-left corner at (`x`, `y`): dark pixels
/// black in the buffer and marked in the high plane, light pixels white in
/// the buffer and marked in the low plane; the planes are marked used when
/// any pixel is set. Nothing is drawn unless both masks hold exactly the
/// bits of a `width` by `height` icon.
pub fn draw_icon_gray2(
    buffers: &mut DisplayBuffers,
    planes: &mut GrayPlanes,
    x: i32,
    y: i32,
    width: i32,
    height: i32,
    dark_mask: &[u8],
    light_mask: &[u8],
)
    requires
        old(buffers).wf(),
        old(planes).wf(),
        width > 0 ==> x + width <= i32::MAX,
        height > 0 ==> y + height <= i32::MAX,
        width as int * height as int + 7 <= usize::MAX,
    ensures
        final(buffers).wf(),
        final(planes).wf(),
        final(buffers).inactive_view() == old(buffers).inactive_view(),
        final(buffers).spec_rotation() == old(buffers).spec_rotation(),
        final(buffers).spec_active_flag() == old(buffers).spec_active_flag(),
        !icon_fits(dark_mask@, light_mask@, width as int, height as int) ==> *final(buffers)
            == *old(buffers) && *final(planes) == *old(planes),
        icon_fits(dark_mask@, light_mask@, width as int, height as int) ==> icon_drawn(
            old(buffers).spec_rotation(),
            old(buffers).active_view(),
            final(buffers).active_view(),
            old(planes).lsb@,
            final(planes).lsb@,
            old(planes).msb@,
            final(planes).msb@,
            old(planes).used,
            final(planes).used,
            x as int,
            y as int,
            width as int,
            height as int,
            dark_mask@,
            light_mask@,
        ),
{
    if width <= 0 || height <= 0 {
        return ;
    }
    let width_u = width as usize;
    let height_u = height as usize;
    let expected = (width_u * height_u + 7) / 8;
    if dark_mask.len() != expected || light_mask.len() != expected {
        return ;
    }
    let ghost r = buffers.spec_rotation();
    let ghost old_buf = buffers.active_view();
    let ghost old_l = planes.lsb@;
    let ghost old_m = planes.msb@;
    let ghost used0 = planes.used;
    let ghost dk = dark_mask@;
    let ghost lt = light_mask@;
    let ghost w = width as int;
    let ghost color = |c: int, rr: int| icon_color(dk, lt, w, c, rr);
    let ghost mark_l = |c: int, rr: int| icon_bit(lt, w, c, rr);
    let ghost mark_m = |c: int, rr: int| icon_bit(dk, w, c, rr);
    let rotation = buffers.rotation();
    let mut yy: i32 = 0;
    while yy < height
        invariant
            0 <= yy <= height,
            width > 0,
            width_u == width,
            x + width <= i32::MAX,
            y + height <= i32::MAX,
            width as int * height as int + 7 <= usize::MAX,
            dk == dark_mask@,
            lt == light_mask@,
            w == width,
            icon_fits(dk, lt, w, height as int),
            color == (|c: int, rr: int| icon_color(dk, lt, w, c, rr)),
            mark_l == (|c: int, rr: int| icon_bit(lt, w, c, rr)),
            mark_m == (|c: int, rr: int| icon_bit(dk, w, c, rr)),
            buffers.wf(),
            planes.wf(),
            rotation == r,
            buffers.spec_rotation() == r,
            r == old(buffers).spec_rotation(),
            buffers.inactive_view() == old(buffers).inactive_view(),
            buffers.spec_active_flag() == old(buffers).spec_active_flag(),
            old_buf == old(buffers).active_view(),
            old_l == old(planes).lsb@,
            old_m == old(planes).msb@,
            used0 == old(planes).used,
            planes.used == (used0 || icon_marked_upto(dk, lt, w, 0, yy as int)),
            painted_upto(r, old_buf, buffers.active_view(), x as int, y as int, w, 0, yy as int, color),
            marked_upto(r, old_l, planes.lsb@, x as int, y as int, w, 0, yy as int, mark_l),
            marked_upto(r, old_m, planes.msb@, x as int, y as int, w, 0, yy as int, mark_m),
        decreases height - yy,
    {
        let mut xx: i32 = 0;
        while xx < width
            invariant
                0 <= xx <= width,
                0 <= yy < height,
                width_u == width,
                x + width <= i32::MAX,
                y + height <= i32::MAX,
                width as int * height as int + 7 <= usize::MAX,
                dk == dark_mask@,
                lt == light_mask@,
                w == width,
                icon_fits(dk, lt, w, height as int),
                color == (|c: int, rr: int| icon_color(dk, lt, w, c, rr)),
                mark_l == (|c: int, rr: int| icon_bit(lt, w, c, rr)),
                mark_m == (|c: int, rr: int| icon_bit(dk, w, c, rr)),
                buffers.wf(),
                planes.wf(),
                rotation == r,
                buffers.spec_rotation() == r,
                buffers.inactive_view() == old(buffers).inactive_view(),
                buffers.spec_active_flag() == old(buffers).spec_active_flag(),
                planes.used == (used0 || icon_marked_upto(dk, lt, w, xx as int, yy as int)),
                painted_upto(r, old_buf, buffers.active_view(), x as int, y as int, w, xx as int, yy as int, color),
                marked_upto(r, old_l, planes.lsb@, x as int, y as int, w, xx as int, yy as int, mark_l),
                marked_upto(r, old_m, planes.msb@, x as int, y as int, w, xx as int, yy as int, mark_m),
            decreases width - xx,
        {
            proof {
                buffers.lemma_wf_sizes();
                assert((yy as int) * (width as int) + (xx as int) < (width as int) * (height as int)) by (nonlinear_arith)
                    requires
                        0 <= yy < height,
                        0 <= xx < width,
                ;
            }
            let ghost cur = buffers.active_view();
            let ghost cur_l = planes.lsb@;
            let ghost cur_m = planes.msb@;
            let idx: usize = (yy as usize) * width_u + (xx as usize);
            let byte = idx / 8;
            let shift = (7 - (idx % 8)) as u8;
            assert(idx as int == (yy as int) * w + (xx as int));
            let dark = (dark_mask[byte] >> shift) & 1 == 1;
            let light = (light_mask[byte] >> shift) & 1 == 1;
            assert(dark == mark_m(xx as int, yy as int));
            assert(light == mark_l(xx as int, yy as int));
            proof {
                lemma_icon_marked_step(dk, lt, w, xx as int, yy as int);
            }
            if dark || light {
                planes.used = true;
                let dst_x = x + xx;
                let dst_y = y + yy;
                if dark {
                    buffers.set_pixel(dst_x, dst_y, false);
                } else {
                    buffers.set_pixel(dst_x, dst_y, true);
                }
                match map_display_point(rotation, dst_x, dst_y) {
                    Some((fx, fy)) => {
                        let dst_idx = fy * WIDTH + fx;
                        proof {
                            lemma_panel_index(fx as int, fy as int);
                        }
                        if light {
                            write_plane_bit(&mut planes.lsb, dst_idx);
                        }
                        if dark {
                            write_plane_bit(&mut planes.msb, dst_idx);
                        }
                    },
                    None => {},
                }
            }
            proof {
                lemma_paint_step(r, old_buf, cur, buffers.active_view(), x as int, y as int, w, xx as int, yy as int, color);
                lemma_mark_step(r, old_l, cur_l, planes.lsb@, x as int, y as int, w, xx as int, yy as int, mark_l);
                lemma_mark_step(r, old_m, cur_m, planes.msb@, x as int, y as int, w, xx as int, yy as int, mark_m);
            }
            xx = xx + 1;
        }
        proof {
            lemma_paint_row(r, old_buf, buffers.active_view(), x as int, y as int, w, yy as int, color);
            lemma_mark_row(r, old_l, planes.lsb@, x as int, y as int, w, yy as int, mark_l);
            lemma_mark_row(r, old_m, planes.msb@, x as int, y as int, w, yy as int, mark_m);
            lemma_icon_marked_row(dk, lt, w, yy as int);
        }
        yy = yy + 1;
    }
}

/// Whether a glyph is the one for `style` and `codepoint`.
pub open spec fn glyph_matches(g: TrbkGlyph, style: u8, codepoint: u32) -> bool {
    g.style == style && g.codepoint == codepoint
}

/// The first glyph at or after `from` for `style` and `codepoint`.
pub open spec fn first_match(gs: Seq<TrbkGlyph>, style: u8, codepoint: u32, from: int) -> Option<int>
    decreases gs.len() - from,
{
    if from < 0 || from >= gs.len() {
        None
    } else if glyph_matches(gs[from], style, codepoint) {
        Some(from)
    } else {
        first_match(gs, style, codepoint, from + 1)
    }
}

proof fn lemma_first_match_range(gs: Seq<TrbkGlyph>, style: u8, codepoint: u32, from: int)
    ensures
        first_match(gs, style, codepoint, from) matches Some(k) ==> from <= k < gs.len()
            && glyph_matches(gs[k], style, codepoint),
    decreases gs.len() - from,
{
    if from >= 0 && from < gs.len() && !glyph_matches(gs[from], style, codepoint) {
        lemma_first_match_range(gs, style, codepoint, from + 1);
    }
}

/// The index of the first glyph for `style` and `codepoint`.
pub fn find_glyph(glyphs: &[TrbkGlyph], style: u8, codepoint: u32) -> (r: Option<usize>)
    ensures
        r matches Some(k) ==> first_match(glyphs@, style, codepoint, 0) == Some(k as int),
        r is None ==> first_match(glyphs@, style, codepoint, 0) is None,
        r matches Some(k) ==> k < glyphs@.len() && glyph_matches(glyphs@[k as int], style, codepoint),
{
    let mut i: usize = 0;
    while i < glyphs.len()
        invariant
            i <= glyphs@.len(),
            first_match(glyphs@, style, codepoint, 0) == first_match(
                glyphs@,
                style,
                codepoint,
                i as int,
            ),
        decreases glyphs@.len() - i,
    {
        if glyphs[i].style == style && glyphs[i].codepoint == codepoint {
            return Some(i);
        }
        i = i + 1;
    }
    None
}

/// Whether the glyph drawn with its pen at `pen` blackens logical point
/// (`px`, `py`).
pub open spec fn glyph_black_at(g: TrbkGlyph, pen: int, baseline: int, px: int, py: int) -> bool {
    let (sx, sy) = glyph_origin(g, pen, baseline);
    0 <= px - sx < g.width && 0 <= py - sy < g.height && glyph_pixel_black(g, px - sx, py - sy)
}

/// How far a character moves the pen: its glyph's advance, the book's
/// character width when it has no glyph, nothing for a line break.
pub open spec fn char_advance(gs: Seq<TrbkGlyph>, style: u8, c: char, char_width: int) -> int {
    if c == '\r' || c == '\n' {
        0
    } else {
        match first_match(gs, style, c as u32, 0) {
            Some(k) => gs[k].x_advance as int,
            None => char_width,
        }
    }
}

/// Whether a character drawn with its pen at `pen` blackens (`px`, `py`).
pub open spec fn char_black(gs: Seq<TrbkGlyph>, style: u8, c: char, pen: int, baseline: int, px: int, py: int) -> bool {
    c != '\r' && c != '\n' && match first_match(gs, style, c as u32, 0) {
        Some(k) => glyph_black_at(gs[k], pen, baseline, px, py),
        None => false,
    }
}

/// The pen position after the first `k` characters.
pub open spec fn pen_after(gs: Seq<TrbkGlyph>, style: u8, chars: Seq<char>, pen0: int, char_width: int, k: int) -> int
    decreases k,
{
    if k <= 0 {
        pen0
    } else {
        pen_after(gs, style, chars, pen0, char_width, k - 1) + char_advance(
            gs,
            style,
            chars[k - 1],
            char_width,
        )
    }
}

/// Whether one of the first `n` characters of a run blackens (`px`, `py`).
pub open spec fn run_black(
    gs: Seq<TrbkGlyph>,
    style: u8,
    chars: Seq<char>,
    pen0: int,
    baseline: int,
    char_width: int,
    n: int,
    px: int,
    py: int,
) -> bool {
    exists|j: int|
        0 <= j < n && #[trigger] char_black(
            gs,
            style,
            chars[j],
            pen_after(gs, style, chars, pen0, char_width, j),
            baseline,
            px,
            py,
        )
}

proof fn lemma_pen_after_bounds(gs: Seq<TrbkGlyph>, style: u8, chars: Seq<char>, pen0: int, char_width: int, k: int)
    requires
        0 <= char_width <= 65535,
        0 <= k,
    ensures
        pen0 - 65536 * k <= pen_after(gs, style, chars, pen0, char_width, k) <= pen0 + 65536 * k,
    decreases k,
{
    if k > 0 {
        lemma_pen_after_bounds(gs, style, chars, pen0, char_width, k - 1);
        let c = chars[k - 1];
        if c != '\r' && c != '\n' {
            if let Some(i) = first_match(gs, style, c as u32, 0) {
                let a = gs[i].x_advance;
                assert(-32768 <= a <= 32767);
            }
        }
    }
}

/// Draws a text run with the book's glyphs, the pen starting at `x` on
/// baseline `y`. A book without glyphs draws nothing here and answers
/// `false`: its text is drawn with the built-in font instead.
pub fn draw_trbk_text(
    buffers: &mut DisplayBuffers,
    glyphs: &[TrbkGlyph],
    char_width: u16,
    gray2: &mut Option<GrayPlanes>,
    x: i32,
    y: i32,
    style: u8,
    text: &str,
) -> (drawn: bool)
    requires
        old(buffers).wf(),
        *old(gray2) matches Some(p) ==> p.wf(),
        i32::MIN + 65536 * (text@.len() + 2) <= x <= i32::MAX - 65536 * (text@.len() + 2),
        i32::MIN + 65536 <= y <= i32::MAX - 65536,
    ensures
        drawn == (glyphs@.len() > 0),
        final(buffers).wf(),
        *final(gray2) matches Some(p) ==> p.wf(),
        (*final(gray2)) is Some == (*old(gray2)) is Some,
        final(buffers).inactive_view() == old(buffers).inactive_view(),
        final(buffers).spec_rotation() == old(buffers).spec_rotation(),
        final(buffers).spec_active_flag() == old(buffers).spec_active_flag(),
        !drawn ==> final(buffers).active_view() == old(buffers).active_view(),
        final(buffers).active_view().len() == old(buffers).active_view().len(),
        forall|px: int, py: int|
            spec_map_display_point(old(buffers).spec_rotation(), px, py) is Some ==> #[trigger] pixel_value(
                old(buffers).spec_rotation(),
                final(buffers).active_view(),
                px,
                py,
            ) == (pixel_value(old(buffers).spec_rotation(), old(buffers).active_view(), px, py)
                && !run_black(
                glyphs@,
                style,
                text@,
                x as int,
                y as int,
                char_width as int,
                text@.len() as int,
                px,
                py,
            )),
{
    let ghost r = buffers.spec_rotation();
    let ghost old_buf = buffers.active_view();
    proof {
        buffers.lemma_wf_sizes();
    }
    if glyphs.len() == 0 {
        assert forall|px: int, py: int| spec_map_display_point(r, px, py) is Some implies #[trigger] pixel_value(
            r,
            buffers.active_view(),
            px,
            py,
        ) == (pixel_value(r, old_buf, px, py) && !run_black(
            glyphs@,
            style,
            text@,
            x as int,
            y as int,
            char_width as int,
            text@.len() as int,
            px,
            py,
        )) by {
            assert forall|j: int| 0 <= j < text@.len() implies !#[trigger] char_black(
                glyphs@,
                style,
                text@[j],
                pen_after(glyphs@, style, text@, x as int, char_width as int, j),
                y as int,
                px,
                py,
            ) by {
                assert(first_match(glyphs@, style, text@[j] as u32, 0) is None);
            }
        }
        return false;
    }
    let chars = crate::text::chars_of(text);
    let ghost cs = text@;
    let mut pen_x: i32 = x;
    let mut k: usize = 0;
    while k < chars.len()
        invariant
            chars@ == cs,
            cs == text@,
            k <= cs.len(),
            i32::MIN + 65536 * (cs.len() + 2) <= x <= i32::MAX - 65536 * (cs.len() + 2),
            i32::MIN + 65536 <= y <= i32::MAX - 65536,
            pen_x == pen_after(glyphs@, style, cs, x as int, char_width as int, k as int),
            buffers.wf(),
            buffers.spec_rotation() == r,
            r == old(buffers).spec_rotation(),
            old_buf == old(buffers).active_view(),
            buffers.inactive_view() == old(buffers).inactive_view(),
            buffers.spec_active_flag() == old(buffers).spec_active_flag(),
            *gray2 matches Some(p) ==> p.wf(),
            (*gray2) is Some == (*old(gray2)) is Some,
            forall|px: int, py: int|
                spec_map_display_point(r, px, py) is Some ==> #[trigger] pixel_value(
                    r,
                    buffers.active_view(),
                    px,
                    py,
                ) == (pixel_value(r, old_buf, px, py) && !run_black(
                    glyphs@,
                    style,
                    cs,
                    x as int,
                    y as int,
                    char_width as int,
                    k as int,
                    px,
                    py,
                )),
        decreases cs.len() - k,
    {
        proof {
            buffers.lemma_wf_sizes();
            lemma_pen_after_bounds(glyphs@, style, cs, x as int, char_width as int, k as int);
            lemma_pen_after_bounds(glyphs@, style, cs, x as int, char_width as int, k as int + 1);
        }
        let ghost cur = buffers.active_view();
        let ghost pen0 = pen_x as int;
        let ch = chars[k];
        if ch == '\r' || ch == '\n' {
            assert forall|px: int, py: int| spec_map_display_point(r, px, py) is Some implies #[trigger] pixel_value(
                r,
                buffers.active_view(),
                px,
                py,
            ) == (pixel_value(r, old_buf, px, py) && !run_black(
                glyphs@,
                style,
                cs,
                x as int,
                y as int,
                char_width as int,
                k as int + 1,
                px,
                py,
            )) by {
                if run_black(glyphs@, style, cs, x as int, y as int, char_width as int, k as int + 1, px, py) {
                    let j = choose|j: int|
                        0 <= j < k + 1 && #[trigger] char_black(
                            glyphs@,
                            style,
                            cs[j],
                            pen_after(glyphs@, style, cs, x as int, char_width as int, j),
                            y as int,
                            px,
                            py,
                        );
                    assert(j != k);
                }
            }
        } else {
            let codepoint = ch as u32;
            match find_glyph(glyphs, style, codepoint) {
                Some(gi) => {
                    let glyph = &glyphs[gi];
                    draw_glyph(buffers, glyph, gray2, pen_x, y);
                    assert forall|px: int, py: int| spec_map_display_point(r, px, py) is Some implies #[trigger] pixel_value(
                        r,
                        buffers.active_view(),
                        px,
                        py,
                    ) == (pixel_value(r, old_buf, px, py) && !run_black(
                        glyphs@,
                        style,
                        cs,
                        x as int,
                        y as int,
                        char_width as int,
                        k as int + 1,
                        px,
                        py,
                    )) by {
                        let (sx, sy) = glyph_origin(*glyph, pen0, y as int);
                        assert(done(0, glyph.height as int, glyph.width as int, px - sx, py - sy)
                            == (0 <= px - sx < glyph.width && 0 <= py - sy < glyph.height));
                        let here = char_black(glyphs@, style, cs[k as int], pen0, y as int, px, py);
                        assert(here == glyph_black_at(*glyph, pen0, y as int, px, py));
                        if run_black(glyphs@, style, cs, x as int, y as int, char_width as int, k as int + 1, px, py) {
                            let j = choose|j: int|
                                0 <= j < k + 1 && #[trigger] char_black(
                                    glyphs@,
                                    style,
                                    cs[j],
                                    pen_after(glyphs@, style, cs, x as int, char_width as int, j),
                                    y as int,
                                    px,
                                    py,
                                );
                            if j < k {
                                assert(run_black(glyphs@, style, cs, x as int, y as int, char_width as int, k as int, px, py));
                            }
                        } else {
                            assert(!here);
                        }
                        if run_black(glyphs@, style, cs, x as int, y as int, char_width as int, k as int, px, py) {
                            let j = choose|j: int|
                                0 <= j < k && #[trigger] char_black(
                                    glyphs@,
                                    style,
                                    cs[j],
                                    pen_after(glyphs@, style, cs, x as int, char_width as int, j),
                                    y as int,
                                    px,
                                    py,
                                );
                            assert(0 <= j < k + 1);
                        }
                    }
                    pen_x = pen_x + glyph.x_advance as i32;
                },
                None => {
                    assert forall|px: int, py: int| spec_map_display_point(r, px, py) is Some implies #[trigger] pixel_value(
                        r,
                        buffers.active_view(),
                        px,
                        py,
                    ) == (pixel_value(r, old_buf, px, py) && !run_black(
                        glyphs@,
                        style,
                        cs,
                        x as int,
                        y as int,
                        char_width as int,
                        k as int + 1,
                        px,
                        py,
                    )) by {
                        if run_black(glyphs@, style, cs, x as int, y as int, char_width as int, k as int + 1, px, py) {
                            let j = choose|j: int|
                                0 <= j < k + 1 && #[trigger] char_black(
                                    glyphs@,
                                    style,
                                    cs[j],
                                    pen_after(glyphs@, style, cs, x as int, char_width as int, j),
                                    y as int,
                                    px,
                                    py,
                                );
                            assert(j != k);
                        }
                    }
                    pen_x = pen_x + char_width as i32;
                },
            }
        }
        k = k + 1;
    }
    proof {
        buffers.lemma_wf_sizes();
    }
    true
}

/// A text run left for the built-in font.
pub struct FallbackText {
    pub x: i32,
    pub y: i32,
    pub text: String,
}

/// What rendering a page leaves for the caller: whether a full-screen
/// grayscale image was streamed in (the grayscale planes then hold an
/// absolute image), and the text runs to draw with the built-in font.
pub struct PageRender {
    pub gray2_absolute: bool,
    pub fallback: Vec<FallbackText>,
}

/// Whether a draw operation lies where drawing it cannot overflow the
/// pen or the target rectangle.
pub open spec fn op_fits(op: TrbkOp) -> bool {
    match op {
        TrbkOp::TextRun { x, y, text, .. } => {
            &&& i32::MIN + 65536 * (text@.len() + 2) <= x <= i32::MAX - 65536 * (text@.len() + 2)
            &&& i32::MIN + 65536 <= y <= i32::MAX - 65536
        },
        TrbkOp::Image { x, y, width, height, .. } => {
            &&& x + at_least_one(width as i32) <= i32::MAX
            &&& y + at_least_one(height as i32) <= i32::MAX
        },
    }
}

pub open spec fn page_fits(ops: Seq<TrbkOp>) -> bool {
    forall|k: int| 0 <= k < ops.len() ==> #[trigger] op_fits(ops[k])
}

/// Checks `page_fits`.
pub fn check_page_fits(page: &TrbkPage) -> (r: bool)
    ensures
        r == page_fits(page.ops@),
{
    let mut k: usize = 0;
    while k < page.ops.len()
        invariant
            k <= page.ops@.len(),
            forall|j: int| 0 <= j < k ==> #[trigger] op_fits(page.ops@[j]),
        decreases page.ops@.len() - k,
    {
        let ok = match &page.ops[k] {
            TrbkOp::TextRun { x, y, text, .. } => {
                let n = crate::text::chars_of(text.as_str()).len() as i128;
                let bound: i128 = 65536 * (n + 2);
                (*x as i128) >= (i32::MIN as i128) + bound && (*x as i128) <= (i32::MAX as i128)
                    - bound && *y >= i32::MIN + 65536 && *y <= i32::MAX - 65536
            },
            TrbkOp::Image { x, y, width, height, .. } => {
                let w: i64 = if *width > 1 {
                    *width as i64
                } else {
                    1
                };
                let h: i64 = if *height > 1 {
                    *height as i64
                } else {
                    1
                };
                (*x as i64) + w <= i32::MAX as i64 && (*y as i64) + h <= i32::MAX as i64
            },
        };
        if !ok {
            assert(!op_fits(page.ops@[k as int]));
            return false;
        }
        k = k + 1;
    }
    true
}

/// The text runs of a page, in order, as (x, y, text).
pub open spec fn text_runs(ops: Seq<TrbkOp>) -> Seq<(i32, i32, Seq<char>)>
    decreases ops.len(),
{
    if ops.len() == 0 {
        seq![]
    } else {
        let rest = text_runs(ops.drop_last());
        match ops.last() {
            TrbkOp::TextRun { x, y, text, .. } => rest.push((x, y, text@)),
            _ => rest,
        }
    }
}

/// Whether one of the text runs among `ops` inks the point (`px`, `py`)
/// with the book's glyphs.
pub open spec fn page_text_black(gs: Seq<TrbkGlyph>, char_width: u16, ops: Seq<TrbkOp>, px: int, py: int) -> bool
    decreases ops.len(),
{
    if ops.len() == 0 {
        false
    } else {
        page_text_black(gs, char_width, ops.drop_last(), px, py) || match ops.last() {
            TrbkOp::TextRun { x, y, style, text } => run_black(
                gs,
                style,
                text@,
                x as int,
                y as int,
                char_width as int,
                text@.len() as int,
                px,
                py,
            ),
            _ => false,
        }
    }
}

/// Whether every operation of a page is a text run.
pub open spec fn text_only(ops: Seq<TrbkOp>) -> bool {
    forall|k: int| 0 <= k < ops.len() ==> #[trigger] ops[k] is TextRun
}

/// Whether (`px`, `py`) lies in the target rectangle of an image operation.
pub open spec fn in_image_rect(op: TrbkOp, px: int, py: int) -> bool {
    match op {
        TrbkOp::Image { x, y, width, height, .. } => x <= px < x + at_least_one(width as i32) && y <= py
            < y + at_least_one(height as i32),
        _ => false,
    }
}

/// Whether (`px`, `py`) lies outside the target rectangles of all the image
/// operations among `ops`.
pub open spec fn outside_images(ops: Seq<TrbkOp>, px: int, py: int) -> bool {
    forall|k: int| 0 <= k < ops.len() ==> !in_image_rect(#[trigger] ops[k], px, py)
}

/// `after` shows the same as `before` at every on-panel point outside the
/// `w` by `h` rectangle at (`x`, `y`).
pub open spec fn unchanged_outside(r: Rotation, before: Seq<u8>, after: Seq<u8>, x: int, y: int, w: int, h: int) -> bool {
    forall|px: int, py: int|
        spec_map_display_point(r, px, py) is Some && !(x <= px < x + w && y <= py < y + h) ==> #[trigger] pixel_value(
            r,
            after,
            px,
            py,
        ) == pixel_value(r, before, px, py)
}

proof fn lemma_unchanged_widen(r: Rotation, before: Seq<u8>, after: Seq<u8>, x: int, y: int, w: int, h: int, w2: int, h2: int)
    requires
        unchanged_outside(r, before, after, x, y, w, h),
        w <= w2,
        h <= h2,
    ensures
        unchanged_outside(r, before, after, x, y, w2, h2),
{
    assert forall|px: int, py: int|
        spec_map_display_point(r, px, py) is Some && !(x <= px < x + w2 && y <= py < y + h2) implies #[trigger] pixel_value(
            r,
            after,
            px,
            py,
        ) == pixel_value(r, before, px, py) by {
        assert(!(x <= px < x + w && y <= py < y + h));
    }
}

proof fn lemma_on_screen_inside(r: Rotation, before: Seq<u8>, after: Seq<u8>)
    ensures
        unchanged_outside(
            r,
            before,
            after,
            0,
            0,
            crate::framebuffer::logical_width(r),
            crate::framebuffer::logical_height(r),
        ),
{
}

proof fn lemma_image_drawn_outside(
    r: Rotation,
    before: Seq<u8>,
    after: Seq<u8>,
    image: ImageData,
    old_g: Option<GrayPlanes>,
    new_g: Option<GrayPlanes>,
    x: i32,
    y: i32,
    target_w: i32,
    target_h: i32,
)
    requires
        trbk_image_drawn(r, before, after, image, old_g, new_g, x, y, target_w, target_h),
    ensures
        unchanged_outside(r, before, after, x as int, y as int, at_least_one(target_w), at_least_one(target_h)),
{
    let dw = at_least_one(target_w);
    let dh = at_least_one(target_h);
    assert forall|px: int, py: int|
        spec_map_display_point(r, px, py) is Some && !(x <= px < x + dw && y <= py < y + dh) implies #[trigger] pixel_value(
            r,
            after,
            px,
            py,
        ) == pixel_value(r, before, px, py) by {
        assert(!done(0, dh, dw, px - x, py - y));
    }
}

pub open spec fn fallback_view(f: FallbackText) -> (i32, i32, Seq<char>) {
    (f.x, f.y, f.text@)
}

/// Renders a page's draw operations: text runs with the book's glyphs (or,
/// for a book without glyphs, left for the built-in font), images through
/// the source. A grayscale image streamed from storage is drawn when it has
/// its natural size, straight onto a white screen when it fills it.
pub fn render_trbk_page_ops<S: AppSource>(
    source: &mut S,
    buffers: &mut DisplayBuffers,
    gray2: &mut Option<GrayPlanes>,
    book: &TrbkBookInfo,
    page: &TrbkPage,
) -> (r: PageRender)
    requires
        old(buffers).wf(),
        *old(gray2) matches Some(p) ==> p.wf(),
        page_fits(page.ops@),
    ensures
        final(buffers).wf(),
        *final(gray2) matches Some(p) ==> p.wf(),
        (*final(gray2)) is Some == (*old(gray2)) is Some,
        final(buffers).inactive_view() == old(buffers).inactive_view(),
        final(buffers).spec_rotation() == old(buffers).spec_rotation(),
        final(buffers).spec_active_flag() == old(buffers).spec_active_flag(),
        r.fallback@.map_values(|f: FallbackText| fallback_view(f)) == if book.glyphs@.len() == 0 {
            text_runs(page.ops@)
        } else {
            seq![]
        },
        r.gray2_absolute ==> (*old(gray2)) is Some,
        forall|px: int, py: int|
            spec_map_display_point(old(buffers).spec_rotation(), px, py) is Some && outside_images(
                page.ops@,
                px,
                py,
            ) ==> #[trigger] pixel_value(
                old(buffers).spec_rotation(),
                final(buffers).active_view(),
                px,
                py,
            ) == (pixel_value(old(buffers).spec_rotation(), old(buffers).active_view(), px, py)
                && !page_text_black(book.glyphs@, book.metadata.char_width, page.ops@, px, py)),
{
    let ghost rot = buffers.spec_rotation();
    let ghost start = buffers.active_view();
    let mut fallback: Vec<FallbackText> = Vec::new();
    let mut absolute = false;
    let mut k: usize = 0;
    while k < page.ops.len()
        invariant
            k <= page.ops@.len(),
            page_fits(page.ops@),
            buffers.wf(),
            *gray2 matches Some(p) ==> p.wf(),
            (*gray2) is Some == (*old(gray2)) is Some,
            buffers.inactive_view() == old(buffers).inactive_view(),
            buffers.spec_rotation() == old(buffers).spec_rotation(),
            buffers.spec_active_flag() == old(buffers).spec_active_flag(),
            fallback@.map_values(|f: FallbackText| fallback_view(f)) == if book.glyphs@.len() == 0 {
                text_runs(page.ops@.take(k as int))
            } else {
                seq![]
            },
            absolute ==> (*old(gray2)) is Some,
            rot == old(buffers).spec_rotation(),
            start == old(buffers).active_view(),
            forall|px: int, py: int|
                spec_map_display_point(rot, px, py) is Some && outside_images(
                    page.ops@.take(k as int),
                    px,
                    py,
                ) ==> #[trigger] pixel_value(
                    rot,
                    buffers.active_view(),
                    px,
                    py,
                ) == (pixel_value(rot, start, px, py) && !page_text_black(
                    book.glyphs@,
                    book.metadata.char_width,
                    page.ops@.take(k as int),
                    px,
                    py,
                )),
        decreases page.ops@.len() - k,
    {
        let ghost before = fallback@.map_values(|f: FallbackText| fallback_view(f));
        let ghost prev = buffers.active_view();
        proof {
            assert forall|px: int, py: int| outside_images(page.ops@.take(k + 1), px, py) implies outside_images(
                page.ops@.take(k as int),
                px,
                py,
            ) && !in_image_rect(page.ops@[k as int], px, py) by {
                assert forall|j: int| 0 <= j < page.ops@.take(k as int).len() implies !in_image_rect(
                    #[trigger] page.ops@.take(k as int)[j],
                    px,
                    py,
                ) by {
                    assert(page.ops@.take(k + 1)[j] == page.ops@.take(k as int)[j]);
                }
                assert(page.ops@.take(k + 1)[k as int] == page.ops@[k as int]);
            }
        }
        assert(page.ops@.take(k + 1).drop_last() =~= page.ops@.take(k as int));
        assert(op_fits(page.ops@[k as int]));
        match &page.ops[k] {
            TrbkOp::TextRun { x, y, style, text } => {
                let drawn = draw_trbk_text(
                    buffers,
                    book.glyphs.as_slice(),
                    book.metadata.char_width,
                    gray2,
                    *x,
                    *y,
                    *style,
                    text.as_str(),
                );
                if !drawn {
                    fallback.push(FallbackText { x: *x, y: *y, text: text.clone() });
                    assert(fallback@.map_values(|f: FallbackText| fallback_view(f)) =~= before.push(
                        (*x, *y, text@),
                    ));
                }
                proof {
                    let t = page.ops@.take(k + 1);
                    {
                        assert(t.drop_last() =~= page.ops@.take(k as int));
                        assert forall|px: int, py: int|
                            spec_map_display_point(rot, px, py) is Some && outside_images(t, px, py) implies #[trigger] pixel_value(
                                rot,
                                buffers.active_view(),
                                px,
                                py,
                            ) == (pixel_value(rot, start, px, py) && !page_text_black(
                                book.glyphs@,
                                book.metadata.char_width,
                                t,
                                px,
                                py,
                            )) by {
                            assert(pixel_value(rot, prev, px, py) == (pixel_value(rot, start, px, py)
                                && !page_text_black(
                                book.glyphs@,
                                book.metadata.char_width,
                                page.ops@.take(k as int),
                                px,
                                py,
                            )));
                        }
                    }
                }
            },
            TrbkOp::Image { x, y, width, height, image_index } => {
                let op_w = *width as u32;
                let op_h = *height as u32;
                let ghost rw = at_least_one(*width as i32);
                let ghost rh = at_least_one(*height as i32);
                match source.trbk_image(*image_index as usize) {
                    Ok(image) => {
                        match &image {
                            ImageData::Gray2Stream { width: w, height: h, key } => {
                                let (sw, sh) = buffers.size();
                                let rotation = buffers.rotation();
                                if let Some(planes) = gray2 {
                                    if *x == 0 && *y == 0 && op_w == sw && op_h == sh && *w == op_w
                                        && *h == op_h {
                                        buffers.clear_screen(0xFF);
                                        let base = buffers.get_active_buffer_mut();
                                        let ok = source.load_gray2_stream(
                                            key.as_str(),
                                            *w,
                                            *h,
                                            rotation,
                                            base,
                                            planes.lsb.as_mut_slice(),
                                            planes.msb.as_mut_slice(),
                                        ).is_ok();
                                        if ok {
                                            planes.used = true;
                                            absolute = true;
                                        }
                                        proof {
                                            lemma_on_screen_inside(rot, prev, buffers.active_view());
                                            lemma_unchanged_widen(
                                                rot,
                                                prev,
                                                buffers.active_view(),
                                                0,
                                                0,
                                                crate::framebuffer::logical_width(rot),
                                                crate::framebuffer::logical_height(rot),
                                                rw,
                                                rh,
                                            );
                                        }
                                    } else if *w == op_w && *h == op_h {
                                        proof {
                                            buffers.lemma_wf_sizes();
                                        }
                                        let base = buffers.get_active_buffer_mut();
                                        let ok = source.load_gray2_stream_region(
                                            key.as_str(),
                                            *w,
                                            *h,
                                            rotation,
                                            base,
                                            planes.lsb.as_mut_slice(),
                                            planes.msb.as_mut_slice(),
                                            *x,
                                            *y,
                                        ).is_ok();
                                        if ok {
                                            planes.used = true;
                                        }
                                        proof {
                                            assert(unchanged_outside(
                                                rot,
                                                prev,
                                                buffers.active_view(),
                                                *x as int,
                                                *y as int,
                                                op_w as int,
                                                op_h as int,
                                            ));
                                            lemma_unchanged_widen(
                                                rot,
                                                prev,
                                                buffers.active_view(),
                                                *x as int,
                                                *y as int,
                                                op_w as int,
                                                op_h as int,
                                                rw,
                                                rh,
                                            );
                                        }
                                    }
                                }
                            },
                            ImageData::Gray8 { width: w, height: h, .. } => {
                                if *w <= i32::MAX as u32 && *h <= i32::MAX as u32 {
                                    let ghost g_before = *gray2;
                                    draw_trbk_image(
                                        buffers,
                                        &image,
                                        gray2,
                                        *x,
                                        *y,
                                        *width as i32,
                                        *height as i32,
                                    );
                                    proof {
                                        lemma_image_drawn_outside(
                                            rot,
                                            prev,
                                            buffers.active_view(),
                                            image,
                                            g_before,
                                            *gray2,
                                            *x,
                                            *y,
                                            *width as i32,
                                            *height as i32,
                                        );
                                    }
                                }
                            },
                            _ => {
                                let ghost g_before = *gray2;
                                draw_trbk_image(
                                    buffers,
                                    &image,
                                    gray2,
                                    *x,
                                    *y,
                                    *width as i32,
                                    *height as i32,
                                );
                                proof {
                                    lemma_image_drawn_outside(
                                        rot,
                                        prev,
                                        buffers.active_view(),
                                        image,
                                        g_before,
                                        *gray2,
                                        *x,
                                        *y,
                                        *width as i32,
                                        *height as i32,
                                    );
                                }
                            },
                        }
                    },
                    Err(_) => {},
                }
                proof {
                    let t = page.ops@.take(k + 1);
                    assert(t.drop_last() =~= page.ops@.take(k as int));
                    assert(unchanged_outside(rot, prev, buffers.active_view(), *x as int, *y as int, rw, rh));
                    assert forall|px: int, py: int|
                        spec_map_display_point(rot, px, py) is Some && outside_images(t, px, py) implies #[trigger] pixel_value(
                            rot,
                            buffers.active_view(),
                            px,
                            py,
                        ) == (pixel_value(rot, start, px, py) && !page_text_black(
                            book.glyphs@,
                            book.metadata.char_width,
                            t,
                            px,
                            py,
                        )) by {
                        assert(!in_image_rect(page.ops@[k as int], px, py));
                        assert(pixel_value(rot, prev, px, py) == (pixel_value(rot, start, px, py)
                            && !page_text_black(
                            book.glyphs@,
                            book.metadata.char_width,
                            page.ops@.take(k as int),
                            px,
                            py,
                        )));
                    }
                }
            },
        }
        k = k + 1;
    }
    assert(page.ops@.take(page.ops@.len() as int) =~= page.ops@);
    PageRender { gray2_absolute: absolute, fallback }
}

/// `v`, at least 1.
pub open spec fn max1(v: int) -> int {
    if v > 1 {
        v
    } else {
        1
    }
}

/// The size an image takes when scaled to fit inside the target with its
/// aspect ratio kept: the full width or the full height, the other side
/// rounded down (at least 1).
pub open spec fn contain_size(img_w: int, img_h: int, tw: int, th: int) -> (int, int) {
    if img_w * th > img_h * tw {
        (tw, max1((img_h * tw) / img_w))
    } else {
        (max1((img_w * th) / img_h), th)
    }
}

/// Where a contained image's source bit for target point (`x`, `y`) lies,
/// when all three planes hold it.
pub open spec fn contain_index(img_w: int, img_h: int, sw: int, sh: int, x: int, y: int) -> int {
    ((y * img_h) / sh) * img_w + (x * img_w) / sw
}

/// Whether all three planes hold the bit at `idx`.
pub open spec fn planes_hold(base: Seq<u8>, lsb: Seq<u8>, msb: Seq<u8>, idx: int) -> bool {
    idx / 8 < base.len() && idx / 8 < lsb.len() && idx / 8 < msb.len()
}

/// The effect of `render_gray2_contain` with `rotation`: the contained
/// image's base plane painted into the buffer (`old_buf` to `new_buf`) and
/// its two grayscale planes marked into the display's planes.
#[verifier::opaque]
pub open spec fn contain_drawn(
    rotation: Rotation,
    old_buf: Seq<u8>,
    new_buf: Seq<u8>,
    old_lsb: Seq<u8>,
    new_lsb: Seq<u8>,
    old_msb: Seq<u8>,
    new_msb: Seq<u8>,
    width: u32,
    height: u32,
    base: Seq<u8>,
    lsb: Seq<u8>,
    msb: Seq<u8>,
) -> bool {
    let r = rotation;
    let tw = crate::framebuffer::logical_width(r);
    let th = crate::framebuffer::logical_height(r);
    let iw = max1(width as int);
    let ih = max1(height as int);
    let (sw, sh) = contain_size(iw, ih, tw, th);
    let ox = (tw - sw) / 2;
    let oy = (th - sh) / 2;
    &&& painted(
        r,
        old_buf,
        new_buf,
        ox,
        oy,
        sw,
        sh,
        |x: int, y: int|
            if planes_hold(base, lsb, msb, contain_index(iw, ih, sw, sh, x, y)) {
                Some(bit_at(base, contain_index(iw, ih, sw, sh, x, y)))
            } else {
                None
            },
    )
    &&& marked(
        r,
        old_lsb,
        new_lsb,
        ox,
        oy,
        sw,
        sh,
        |x: int, y: int|
            planes_hold(base, lsb, msb, contain_index(iw, ih, sw, sh, x, y)) && bit_at(
                lsb,
                contain_index(iw, ih, sw, sh, x, y),
            ),
    )
    &&& marked(
        r,
        old_msb,
        new_msb,
        ox,
        oy,
        sw,
        sh,
        |x: int, y: int|
            planes_hold(base, lsb, msb, contain_index(iw, ih, sw, sh, x, y)) && bit_at(
                msb,
                contain_index(iw, ih, sw, sh, x, y),
            ),
    )
    
}

/// Draws a 2-bit grayscale image (given as its three planes) scaled to fit
/// the display with its aspect ratio kept, centred: the base plane into the
/// 1-bit buffer, the other two added into the grayscale planes.
pub fn render_gray2_contain(
    buffers: &mut DisplayBuffers,
    planes: &mut GrayPlanes,
    width: u32,
    height: u32,
    base: &[u8],
    lsb: &[u8],
    msb: &[u8],
)
    requires
        old(buffers).wf(),
        old(planes).wf(),
        max1(width as int) * crate::framebuffer::logical_height(old(buffers).spec_rotation())
            <= u32::MAX,
        max1(height as int) * crate::framebuffer::logical_width(old(buffers).spec_rotation())
            <= u32::MAX,
    ensures
        final(buffers).wf(),
        final(planes).wf(),
        final(planes).used == old(planes).used,
        final(buffers).inactive_view() == old(buffers).inactive_view(),
        final(buffers).spec_rotation() == old(buffers).spec_rotation(),
        final(buffers).spec_active_flag() == old(buffers).spec_active_flag(),
        contain_drawn(
            old(buffers).spec_rotation(),
            old(buffers).active_view(),
            final(buffers).active_view(),
            old(planes).lsb@,
            final(planes).lsb@,
            old(planes).msb@,
            final(planes).msb@,
            width,
            height,
            base@,
            lsb@,
            msb@,
        ),
{
    reveal(contain_drawn);
    let ghost r = buffers.spec_rotation();
    let ghost old_buf = buffers.active_view();
    let ghost old_lsb = planes.lsb@;
    let ghost old_msb = planes.msb@;
    let rotation = buffers.rotation();
    let (tw0, th0) = buffers.size();
    let target_w: u32 = if tw0 > 1 {
        tw0
    } else {
        1
    };
    let target_h: u32 = if th0 > 1 {
        th0
    } else {
        1
    };
    let img_w: u32 = if width > 1 {
        width
    } else {
        1
    };
    let img_h: u32 = if height > 1 {
        height
    } else {
        1
    };
    let (scaled_w, scaled_h) = if img_w * target_h > img_h * target_w {
        let h = ((img_h as u64) * (target_w as u64) / (img_w as u64)) as u32;
        proof {
            assert((img_h as int) * (target_w as int) / (img_w as int) <= target_h) by (nonlinear_arith)
                requires
                    (img_w as int) * (target_h as int) > (img_h as int) * (target_w as int),
                    img_w >= 1,
                    img_h >= 1,
            ;
        }
        (target_w, if h > 1 {
            h
        } else {
            1
        })
    } else {
        let w = ((img_w as u64) * (target_h as u64) / (img_h as u64)) as u32;
        proof {
            assert((img_w as int) * (target_h as int) / (img_h as int) <= target_w) by (nonlinear_arith)
                requires
                    (img_w as int) * (target_h as int) <= (img_h as int) * (target_w as int),
                    img_w >= 1,
                    img_h >= 1,
            ;
        }
        (if w > 1 {
            w
        } else {
            1
        }, target_h)
    };
    assert((scaled_w as int, scaled_h as int) == contain_size(
        img_w as int,
        img_h as int,
        target_w as int,
        target_h as int,
    ));
    let offset_x = ((target_w - scaled_w) / 2) as i32;
    let offset_y = ((target_h - scaled_h) / 2) as i32;
    let ghost iw = img_w as int;
    let ghost ih = img_h as int;
    let ghost sw = scaled_w as int;
    let ghost sh = scaled_h as int;
    let ghost color = |x: int, y: int|
        if planes_hold(base@, lsb@, msb@, contain_index(iw, ih, sw, sh, x, y)) {
            Some(bit_at(base@, contain_index(iw, ih, sw, sh, x, y)))
        } else {
            None
        };
    let ghost mark_l = |x: int, y: int|
        planes_hold(base@, lsb@, msb@, contain_index(iw, ih, sw, sh, x, y)) && bit_at(
            lsb@,
            contain_index(iw, ih, sw, sh, x, y),
        );
    let ghost mark_m = |x: int, y: int|
        planes_hold(base@, lsb@, msb@, contain_index(iw, ih, sw, sh, x, y)) && bit_at(
            msb@,
            contain_index(iw, ih, sw, sh, x, y),
        );
    let mut y: u32 = 0;
    while y < scaled_h
        invariant
            0 <= y <= scaled_h,
            1 <= scaled_w <= 800,
            1 <= scaled_h <= 800,
            1 <= img_w,
            1 <= img_h,
            iw == img_w,
            ih == img_h,
            sw == scaled_w,
            sh == scaled_h,
            0 <= offset_x <= 400,
            0 <= offset_y <= 400,
            color == (|x: int, y: int|
                if planes_hold(base@, lsb@, msb@, contain_index(iw, ih, sw, sh, x, y)) {
                    Some(bit_at(base@, contain_index(iw, ih, sw, sh, x, y)))
                } else {
                    None
                }),
            mark_l == (|x: int, y: int|
                planes_hold(base@, lsb@, msb@, contain_index(iw, ih, sw, sh, x, y)) && bit_at(
                    lsb@,
                    contain_index(iw, ih, sw, sh, x, y),
                )),
            mark_m == (|x: int, y: int|
                planes_hold(base@, lsb@, msb@, contain_index(iw, ih, sw, sh, x, y)) && bit_at(
                    msb@,
                    contain_index(iw, ih, sw, sh, x, y),
                )),
            buffers.wf(),
            planes.wf(),
            planes.used == old(planes).used,
            rotation == r,
            buffers.spec_rotation() == r,
            buffers.inactive_view() == old(buffers).inactive_view(),
            buffers.spec_active_flag() == old(buffers).spec_active_flag(),
            old_buf == old(buffers).active_view(),
            old_lsb == old(planes).lsb@,
            old_msb == old(planes).msb@,
            r == old(buffers).spec_rotation(),
            painted_upto(r, old_buf, buffers.active_view(), offset_x as int, offset_y as int, sw, 0, y as int, color),
            marked_upto(r, old_lsb, planes.lsb@, offset_x as int, offset_y as int, sw, 0, y as int, mark_l),
            marked_upto(r, old_msb, planes.msb@, offset_x as int, offset_y as int, sw, 0, y as int, mark_m),
        decreases scaled_h - y,
    {
        proof {
            assert((y as int) * (img_h as int) <= u64::MAX) by (nonlinear_arith)
                requires
                    y <= 800,
                    img_h <= u32::MAX,
            ;
        }
        let src_y: u64 = (y as u64) * (img_h as u64) / (scaled_h as u64);
        proof {
            assert(src_y <= img_h) by (nonlinear_arith)
                requires
                    src_y == (y as int) * (img_h as int) / (scaled_h as int),
                    y < scaled_h,
                    scaled_h >= 1,
            ;
        }
        let mut x: u32 = 0;
        while x < scaled_w
            invariant
                0 <= x <= scaled_w,
                0 <= y < scaled_h,
                1 <= scaled_w <= 800,
                1 <= scaled_h <= 800,
                1 <= img_w,
                1 <= img_h,
                iw == img_w,
                ih == img_h,
                sw == scaled_w,
                sh == scaled_h,
                0 <= offset_x <= 400,
                0 <= offset_y <= 400,
                src_y == (y as int) * (img_h as int) / (scaled_h as int),
                src_y <= img_h,
                color == (|x: int, y: int|
                    if planes_hold(base@, lsb@, msb@, contain_index(iw, ih, sw, sh, x, y)) {
                        Some(bit_at(base@, contain_index(iw, ih, sw, sh, x, y)))
                    } else {
                        None
                    }),
                mark_l == (|x: int, y: int|
                    planes_hold(base@, lsb@, msb@, contain_index(iw, ih, sw, sh, x, y)) && bit_at(
                        lsb@,
                        contain_index(iw, ih, sw, sh, x, y),
                    )),
                mark_m == (|x: int, y: int|
                    planes_hold(base@, lsb@, msb@, contain_index(iw, ih, sw, sh, x, y)) && bit_at(
                        msb@,
                        contain_index(iw, ih, sw, sh, x, y),
                    )),
                buffers.wf(),
                planes.wf(),
                planes.used == old(planes).used,
                rotation == r,
                buffers.spec_rotation() == r,
                buffers.inactive_view() == old(buffers).inactive_view(),
                buffers.spec_active_flag() == old(buffers).spec_active_flag(),
                painted_upto(r, old_buf, buffers.active_view(), offset_x as int, offset_y as int, sw, x as int, y as int, color),
                marked_upto(r, old_lsb, planes.lsb@, offset_x as int, offset_y as int, sw, x as int, y as int, mark_l),
                marked_upto(r, old_msb, planes.msb@, offset_x as int, offset_y as int, sw, x as int, y as int, mark_m),
            decreases scaled_w - x,
        {
            proof {
                buffers.lemma_wf_sizes();
                assert((x as int) * (img_w as int) <= u64::MAX) by (nonlinear_arith)
                    requires
                        x <= 800,
                        img_w <= u32::MAX,
                ;
            }
            let ghost cur = buffers.active_view();
            let ghost cur_l = planes.lsb@;
            let ghost cur_m = planes.msb@;
            let src_x: u64 = (x as u64) * (img_w as u64) / (scaled_w as u64);
            proof {
                assert(src_x <= img_w) by (nonlinear_arith)
                    requires
                        src_x == (x as int) * (img_w as int) / (scaled_w as int),
                        x < scaled_w,
                        scaled_w >= 1,
                ;
                assert((src_y as int) * (img_w as int) + (src_x as int) <= u64::MAX) by (nonlinear_arith)
                    requires
                        src_y <= u32::MAX,
                        src_x <= u32::MAX,
                        img_w <= u32::MAX,
                ;
            }
            let idx: u64 = src_y * (img_w as u64) + src_x;
            assert(idx as int == contain_index(iw, ih, sw, sh, x as int, y as int));
            let byte = idx / 8;
            let dst_x = offset_x + x as i32;
            let dst_y = offset_y + y as i32;
            if byte < base.len() as u64 && byte < lsb.len() as u64 && byte < msb.len() as u64 {
                let shift = (7 - idx % 8) as u8;
                let on = (base[byte as usize] >> shift) & 1 == 1;
                let l = (lsb[byte as usize] >> shift) & 1 == 1;
                let m = (msb[byte as usize] >> shift) & 1 == 1;
                assert(on == bit_at(base@, idx as int));
                assert(l == bit_at(lsb@, idx as int));
                assert(m == bit_at(msb@, idx as int));
                assert(color(x as int, y as int) == Some(on));
                assert(mark_l(x as int, y as int) == l);
                assert(mark_m(x as int, y as int) == m);
                buffers.set_pixel(dst_x, dst_y, on);
                match map_display_point(rotation, dst_x, dst_y) {
                    Some((fx, fy)) => {
                        let dst_idx = fy * WIDTH + fx;
                        proof {
                            lemma_panel_index(fx as int, fy as int);
                        }
                        if l {
                            write_plane_bit(&mut planes.lsb, dst_idx);
                        }
                        if m {
                            write_plane_bit(&mut planes.msb, dst_idx);
                        }
                    },
                    None => {},
                }
            } else {
                assert(color(x as int, y as int) is None);
                assert(!mark_l(x as int, y as int));
                assert(!mark_m(x as int, y as int));
            }
            proof {
                lemma_paint_step(r, old_buf, cur, buffers.active_view(), offset_x as int, offset_y as int, sw, x as int, y as int, color);
                lemma_mark_step(r, old_lsb, cur_l, planes.lsb@, offset_x as int, offset_y as int, sw, x as int, y as int, mark_l);
                lemma_mark_step(r, old_msb, cur_m, planes.msb@, offset_x as int, offset_y as int, sw, x as int, y as int, mark_m);
            }
            x = x + 1;
        }
        proof {
            lemma_paint_row(r, old_buf, buffers.active_view(), offset_x as int, offset_y as int, sw, y as int, color);
            lemma_mark_row(r, old_lsb, planes.lsb@, offset_x as int, offset_y as int, sw, y as int, mark_l);
            lemma_mark_row(r, old_msb, planes.msb@, offset_x as int, offset_y as int, sw, y as int, mark_m);
        }
        y = y + 1;
    }
}

/// Bytes of one plane of a `w` by `h` TRIM image.
pub open spec fn trim_plane_len(w: u32, h: u32) -> int {
    (w * h + 7) / 8
}

/// How many pixels of plane `p` (0 base, 1 low, 2 high) a stream of `len`
/// bytes gets through: planes are read in 256-byte chunks after the 16-byte
/// header, and a chunk is used only when all of it is there.
pub open spec fn plane_pixels_read(len: int, p: int, plane_len: int, total: int) -> int {
    let start = 16 + p * plane_len;
    let bytes = if len >= start + plane_len {
        plane_len
    } else if len <= start {
        0
    } else {
        ((len - start) / 256) * 256
    };
    if 8 * bytes < total {
        8 * bytes
    } else {
        total
    }
}

/// Whether the 16-byte header at the start of `d` announces a 2-bit TRIM
/// image.
pub open spec fn trim_gray2_header(d: Seq<u8>) -> bool {
    d.len() >= 16 && d[0] == 0x54 && d[1] == 0x52 && d[2] == 0x49 && d[3] == 0x4D && d[4] == 2
        && d[5] == 2
}

/// What streaming a TRIM image into the display planes answers: a short
/// header is a decode error, another format unsupported, other dimensions
/// a decode error, and data that ends early a decode error.
pub open spec fn spec_trim_stream_result(d: Seq<u8>, width: u32, height: u32) -> Result<(), ImageError> {
    if d.len() < 16 {
        Err(ImageError::Decode)
    } else if !trim_gray2_header(d) {
        Err(ImageError::Unsupported)
    } else if crate::trbk_file::le16(d, 6) != width || crate::trbk_file::le16(d, 8) != height {
        Err(ImageError::Decode)
    } else if d.len() < 16 + 3 * trim_plane_len(width, height) {
        Err(ImageError::Decode)
    } else {
        Ok(())
    }
}

/// The bit of plane `p` for source pixel (`sx`, `sy`).
pub open spec fn trim_bit(d: Seq<u8>, p: int, plane_len: int, width: int, sx: int, sy: int) -> bool {
    bit_at(d, 8 * (16 + p * plane_len) + sy * width + sx)
}

/// Writes one plane of a streamed image: each pixel of its first `count`
/// (row-major) is drawn at (`dst_x` + column, `dst_y` + row), set or
/// cleared in the base plane, only set in the others.
fn blit_plane(
    target: &mut [u8],
    d: &[u8],
    start: usize,
    count: usize,
    width: u32,
    rotation: Rotation,
    dst_x: i32,
    dst_y: i32,
    is_base: bool,
)
    requires
        old(target)@.len() == BUFFER_SIZE,
        1 <= width <= 65535,
        8 * start + count <= 8 * d@.len(),
        i32::MIN + 65536 <= dst_x <= i32::MAX - 65536,
        i32::MIN + 65536 <= dst_y <= i32::MAX - 65536,
        count <= (width as int) * 65536,
    ensures
        final(target)@.len() == BUFFER_SIZE,
        is_base ==> painted_upto(
            rotation,
            old(target)@,
            final(target)@,
            dst_x as int,
            dst_y as int,
            width as int,
            count as int % width as int,
            count as int / width as int,
            |sx: int, sy: int| Some(bit_at(d@, 8 * start + sy * width + sx)),
        ),
        !is_base ==> marked_upto(
            rotation,
            old(target)@,
            final(target)@,
            dst_x as int,
            dst_y as int,
            width as int,
            count as int % width as int,
            count as int / width as int,
            |sx: int, sy: int| bit_at(d@, 8 * start + sy * width + sx),
        ),
{
    let ghost old_t = target@;
    let dlen = d.len();
    let ghost color = |sx: int, sy: int| Some(bit_at(d@, 8 * start + sy * width + sx));
    let ghost mark = |sx: int, sy: int| bit_at(d@, 8 * start + sy * width + sx);
    let mut i: usize = 0;
    let mut tx: u32 = 0;
    let mut ty: u32 = 0;
    while i < count
        invariant
            dlen == d@.len(),
            i <= count,
            tx < width,
            i == (ty as int) * (width as int) + (tx as int),
            1 <= width <= 65535,
            8 * start + count <= 8 * d@.len(),
            i32::MIN + 65536 <= dst_x <= i32::MAX - 65536,
            i32::MIN + 65536 <= dst_y <= i32::MAX - 65536,
            count <= (width as int) * 65536,
            target@.len() == BUFFER_SIZE,
            color == (|sx: int, sy: int| Some(bit_at(d@, 8 * start + sy * width + sx))),
            mark == (|sx: int, sy: int| bit_at(d@, 8 * start + sy * width + sx)),
            is_base ==> painted_upto(rotation, old_t, target@, dst_x as int, dst_y as int, width as int, tx as int, ty as int, color),
            !is_base ==> marked_upto(rotation, old_t, target@, dst_x as int, dst_y as int, width as int, tx as int, ty as int, mark),
        decreases count - i,
    {
        proof {
            if ty >= 65536 {
                assert((ty as int) * (width as int) >= 65536 * (width as int)) by (nonlinear_arith)
                    requires
                        ty >= 65536,
                        width >= 1,
                ;
            }
        }
        let ghost cur = target@;
        proof {
            assert(start + i / 8 < d@.len()) by (nonlinear_arith)
                requires
                    8 * start + count <= 8 * d@.len(),
                    i < count,
                    start >= 0,
                    i >= 0,
            ;
        }
        let byte = start + i / 8;
        let on = (d[byte] >> ((7 - i % 8) as u8)) & 1 == 1;
        proof {
            let bi = 8 * start + i;
            assert(bi / 8 == start + i / 8 && bi % 8 == i % 8) by (nonlinear_arith)
                requires
                    bi == 8 * start + i,
                    start >= 0,
                    i >= 0,
            ;
        }
        assert(on == bit_at(d@, 8 * start + i));
        assert(8 * start + i == 8 * start + (ty as int) * (width as int) + (tx as int));
        let dx = dst_x + tx as i32;
        let dy = dst_y + ty as i32;
        if dx >= 0 && dy >= 0 {
            match map_display_point(rotation, dx, dy) {
                Some((fx, fy)) => {
                    let idx = fy * WIDTH + fx;
                    proof {
                        lemma_panel_index(fx as int, fy as int);
                    }
                    if is_base {
                        crate::bitmap::write_bit_in(target, idx, on);
                    } else if on {
                        crate::bitmap::write_bit_in(target, idx, true);
                    }
                },
                None => {},
            }
        } else {
            assert(spec_map_display_point(rotation, dx as int, dy as int) is None);
        }
        proof {
            if is_base {
                lemma_paint_step(rotation, old_t, cur, target@, dst_x as int, dst_y as int, width as int, tx as int, ty as int, color);
            } else {
                lemma_mark_step(rotation, old_t, cur, target@, dst_x as int, dst_y as int, width as int, tx as int, ty as int, mark);
            }
        }
        if tx + 1 == width {
            proof {
                assert((ty as int + 1) * (width as int) == (ty as int) * (width as int) + (tx as int) + 1) by (nonlinear_arith)
                    requires
                        tx + 1 == width,
                ;
                if is_base {
                    lemma_paint_row(rotation, old_t, target@, dst_x as int, dst_y as int, width as int, ty as int, color);
                } else {
                    lemma_mark_row(rotation, old_t, target@, dst_x as int, dst_y as int, width as int, ty as int, mark);
                }
            }
            tx = 0;
            ty = ty + 1;
        } else {
            tx = tx + 1;
        }
        i = i + 1;
    }
    proof {
        assert(count as int % width as int == tx as int && count as int / width as int == ty as int) by (nonlinear_arith)
            requires
                count == (ty as int) * (width as int) + (tx as int),
                0 <= tx < width,
        ;
    }
}

/// Streams a 2-bit TRIM image (its bytes from the header on) into the
/// display planes at (`dst_x`, `dst_y`): the base plane set and cleared in
/// `base`, the low and high planes added into `lsb` and `msb`, as far as
/// the data goes.
pub fn blit_trim_gray2(
    d: &[u8],
    width: u32,
    height: u32,
    rotation: Rotation,
    base: &mut [u8],
    lsb: &mut [u8],
    msb: &mut [u8],
    dst_x: i32,
    dst_y: i32,
) -> (r: Result<(), ImageError>)
    requires
        old(base)@.len() == BUFFER_SIZE,
        old(lsb)@.len() == BUFFER_SIZE,
        old(msb)@.len() == BUFFER_SIZE,
        i32::MIN + 65536 <= dst_x <= i32::MAX - 65536,
        i32::MIN + 65536 <= dst_y <= i32::MAX - 65536,
    ensures
        r == spec_trim_stream_result(d@, width, height),
        final(base)@.len() == BUFFER_SIZE,
        final(lsb)@.len() == BUFFER_SIZE,
        final(msb)@.len() == BUFFER_SIZE,
        !(d@.len() >= 16 && trim_gray2_header(d@) && crate::trbk_file::le16(d@, 6) == width
            && crate::trbk_file::le16(d@, 8) == height && width > 0 && height > 0) ==> {
            &&& final(base)@ == old(base)@
            &&& final(lsb)@ == old(lsb)@
            &&& final(msb)@ == old(msb)@
        },
        (d@.len() >= 16 && trim_gray2_header(d@) && crate::trbk_file::le16(d@, 6) == width
            && crate::trbk_file::le16(d@, 8) == height && width > 0 && height > 0) ==> {
            let pl = trim_plane_len(width, height);
            let total = width * height;
            let n0 = plane_pixels_read(d@.len() as int, 0, pl, total);
            let n1 = plane_pixels_read(d@.len() as int, 1, pl, total);
            let n2 = plane_pixels_read(d@.len() as int, 2, pl, total);
            &&& painted_upto(
                rotation,
                old(base)@,
                final(base)@,
                dst_x as int,
                dst_y as int,
                width as int,
                n0 % width as int,
                n0 / width as int,
                |sx: int, sy: int| Some(trim_bit(d@, 0, pl, width as int, sx, sy)),
            )
            &&& marked_upto(
                rotation,
                old(lsb)@,
                final(lsb)@,
                dst_x as int,
                dst_y as int,
                width as int,
                n1 % width as int,
                n1 / width as int,
                |sx: int, sy: int| trim_bit(d@, 1, pl, width as int, sx, sy),
            )
            &&& marked_upto(
                rotation,
                old(msb)@,
                final(msb)@,
                dst_x as int,
                dst_y as int,
                width as int,
                n2 % width as int,
                n2 / width as int,
                |sx: int, sy: int| trim_bit(d@, 2, pl, width as int, sx, sy),
            )
        },
{
    if d.len() < 16 {
        return Err(ImageError::Decode);
    }
    if !(d[0] == 0x54 && d[1] == 0x52 && d[2] == 0x49 && d[3] == 0x4D && d[4] == 2 && d[5] == 2) {
        return Err(ImageError::Unsupported);
    }
    let w = vstd::bytes::u16_from_le_bytes(vstd::slice::slice_subrange(d, 6, 8)) as u32;
    let h = vstd::bytes::u16_from_le_bytes(vstd::slice::slice_subrange(d, 8, 10)) as u32;
    if w != width || h != height {
        return Err(ImageError::Decode);
    }
    proof {
        assert((width as int) * (height as int) <= 65535 * 65535) by (nonlinear_arith)
            requires
                width <= 65535,
                height <= 65535,
        ;
    }
    let total: u64 = (width as u64) * (height as u64);
    let plane_len: u64 = (total + 7) / 8;
    assert(plane_len as int == trim_plane_len(width, height));
    let len = d.len() as u64;
    if total == 0 {
        assert(width == 0 || height == 0) by (nonlinear_arith)
            requires
                total == width * height,
                total == 0,
        ;
        return Ok(());
    }
    assert(width > 0 && height > 0) by (nonlinear_arith)
        requires
            total == width * height,
            total != 0,
    ;
    let mut p: u64 = 0;
    while p < 3
        invariant
            p <= 3,
            len == d@.len(),
            len >= 16,
            trim_gray2_header(d@),
            crate::trbk_file::le16(d@, 6) == width,
            crate::trbk_file::le16(d@, 8) == height,
            w == width,
            h == height,
            1 <= width <= 65535,
            1 <= height <= 65535,
            total == width * height,
            total <= 65535 * 65535,
            plane_len == trim_plane_len(width, height),
            plane_len <= total,
            i32::MIN + 65536 <= dst_x <= i32::MAX - 65536,
            i32::MIN + 65536 <= dst_y <= i32::MAX - 65536,
            base@.len() == BUFFER_SIZE,
            lsb@.len() == BUFFER_SIZE,
            msb@.len() == BUFFER_SIZE,
            len >= 16 + p * plane_len,
            p < 1 ==> base@ == old(base)@,
            p < 2 ==> lsb@ == old(lsb)@,
            p < 3 ==> msb@ == old(msb)@,
            p >= 1 ==> {
                let n = plane_pixels_read(len as int, 0, plane_len as int, total as int);
                painted_upto(rotation, old(base)@, base@, dst_x as int, dst_y as int, width as int, n % width as int, n / width as int, |sx: int, sy: int| Some(trim_bit(d@, 0, plane_len as int, width as int, sx, sy)))
            },
            p >= 2 ==> {
                let n = plane_pixels_read(len as int, 1, plane_len as int, total as int);
                marked_upto(rotation, old(lsb)@, lsb@, dst_x as int, dst_y as int, width as int, n % width as int, n / width as int, |sx: int, sy: int| trim_bit(d@, 1, plane_len as int, width as int, sx, sy))
            },
            p >= 3 ==> {
                let n = plane_pixels_read(len as int, 2, plane_len as int, total as int);
                marked_upto(rotation, old(msb)@, msb@, dst_x as int, dst_y as int, width as int, n % width as int, n / width as int, |sx: int, sy: int| trim_bit(d@, 2, plane_len as int, width as int, sx, sy))
            },
        decreases 3 - p,
    {
        let start = 16 + p * plane_len;
        let avail: u64 = if len >= start + plane_len {
            plane_len
        } else if len <= start {
            0
        } else {
            ((len - start) / 256) * 256
        };
        let count: u64 = if 8 * avail < total {
            8 * avail
        } else {
            total
        };
        assert(count as int == plane_pixels_read(len as int, p as int, plane_len as int, total as int));
        proof {
            assert(total <= (width as int) * 65536) by (nonlinear_arith)
                requires
                    total == width * height,
                    height <= 65535,
                    width >= 1,
            ;
            assert(avail <= len - start || avail == 0);
            assert(((len - start) / 256) * 256 <= len - start) by (nonlinear_arith)
                requires
                    len >= start,
            ;
        }
        if count == 0 {
            assert(0int % (width as int) == 0 && 0int / (width as int) == 0) by (nonlinear_arith)
                requires
                    width > 0,
            ;
        }
        if count > 0 {
            let s = start as usize;
            let c = count as usize;
            if p == 0 {
                blit_plane(base, d, s, c, width, rotation, dst_x, dst_y, true);
            } else if p == 1 {
                blit_plane(lsb, d, s, c, width, rotation, dst_x, dst_y, false);
            } else {
                blit_plane(msb, d, s, c, width, rotation, dst_x, dst_y, false);
            }
        }
        if avail < plane_len {
            proof {
                assert(16 + p * plane_len + plane_len <= 16 + 3 * plane_len) by (nonlinear_arith)
                    requires
                        p <= 2,
                        plane_len >= 0,
                ;
                assert(len < start + plane_len);
                assert(d@.len() < 16 + 3 * trim_plane_len(width, height));
                assert(spec_trim_stream_result(d@, width, height) == Err::<(), ImageError>(ImageError::Decode));
            }
            return Err(ImageError::Decode);
        }
        p = p + 1;
    }
    Ok(())
}

// ---------------------------------------------------------------------------
// Full-screen image view
// ---------------------------------------------------------------------------

/// Luminance of a pixel from its low and high grayscale bits.
pub open spec fn level_lum(l: bool, m: bool) -> u8 {
    if m && l {
        0
    } else if m {
        170
    } else if l {
        85
    } else {
        255
    }
}

/// Luminance of pixel `i` from the two grayscale planes (a bit past a
/// plane's end counts as clear).
pub open spec fn fallback_pixel(lsb: Seq<u8>, msb: Seq<u8>, i: int) -> u8 {
    level_lum(i / 8 < lsb.len() && bit_at(lsb, i), i / 8 < msb.len() && bit_at(msb, i))
}

/// The luminance of every pixel of a two-plane image.
pub fn gray2_fallback_pixels(width: u32, height: u32, lsb: &[u8], msb: &[u8]) -> (r: Vec<u8>)
    requires
        (width as int) * (height as int) <= usize::MAX,
    ensures
        r@.len() == (width as int) * (height as int),
        forall|i: int| 0 <= i < r@.len() ==> #[trigger] r@[i] == fallback_pixel(lsb@, msb@, i),
{
    let total = (width as usize) * (height as usize);
    let mut pixels: Vec<u8> = Vec::new();
    let mut i: usize = 0;
    while i < total
        invariant
            i <= total,
            total == (width as int) * (height as int),
            pixels@.len() == i,
            forall|j: int| 0 <= j < i ==> #[trigger] pixels@[j] == fallback_pixel(lsb@, msb@, j),
        decreases total - i,
    {
        let byte = i / 8;
        let shift = (7 - (i % 8)) as u8;
        let l = byte < lsb.len() && (lsb[byte] >> shift) & 1 == 1;
        let m = byte < msb.len() && (msb[byte] >> shift) & 1 == 1;
        let lum: u8 = if m && l {
            0
        } else if m {
            170
        } else if l {
            85
        } else {
            255
        };
        pixels.push(lum);
        i = i + 1;
    }
    pixels
}

/// An 8-bit image fits the screen arithmetic: its sides within 31 bits and
/// cross-multiplied with the screen's sides within 32 bits.
pub open spec fn fit_ok(width: u32, height: u32, r: Rotation) -> bool {
    &&& width <= i32::MAX
    &&& height <= i32::MAX
    &&& max1(width as int) * crate::framebuffer::logical_height(r) <= u32::MAX
    &&& max1(height as int) * crate::framebuffer::logical_width(r) <= u32::MAX
}

/// Where an image scaled to fit the screen lands: its offset and size.
pub open spec fn fit_rect(width: u32, height: u32, r: Rotation) -> (int, int, int, int) {
    let tw = crate::framebuffer::logical_width(r);
    let th = crate::framebuffer::logical_height(r);
    let (sw, sh) = contain_size(max1(width as int), max1(height as int), tw, th);
    ((tw - sw) / 2, (th - sh) / 2, sw, sh)
}

/// Draws an 8-bit image scaled to fit the screen with its aspect ratio
/// kept, centred, ordered-dithered.
pub fn render_gray8_fit(buffers: &mut DisplayBuffers, width: u32, height: u32, pixels: &[u8])
    requires
        old(buffers).wf(),
        fit_ok(width, height, old(buffers).spec_rotation()),
    ensures
        final(buffers).wf(),
        final(buffers).inactive_view() == old(buffers).inactive_view(),
        final(buffers).spec_rotation() == old(buffers).spec_rotation(),
        final(buffers).spec_active_flag() == old(buffers).spec_active_flag(),
        ({
            let (ox, oy, sw, sh) = fit_rect(width, height, old(buffers).spec_rotation());
            painted(
                old(buffers).spec_rotation(),
                old(buffers).active_view(),
                final(buffers).active_view(),
                ox,
                oy,
                sw,
                sh,
                |tx: int, ty: int|
                    gray8_color(
                        max1(width as int) as u32,
                        max1(height as int) as u32,
                        pixels@,
                        sw,
                        sh,
                        tx,
                        ty,
                    ),
            )
        }),
{
    let (tw, th) = buffers.size();
    let img_w: u32 = if width > 1 {
        width
    } else {
        1
    };
    let img_h: u32 = if height > 1 {
        height
    } else {
        1
    };
    let (scaled_w, scaled_h) = if img_w * th > img_h * tw {
        let h = ((img_h as u64) * (tw as u64) / (img_w as u64)) as u32;
        proof {
            assert((img_h as int) * (tw as int) / (img_w as int) <= th) by (nonlinear_arith)
                requires
                    (img_w as int) * (th as int) > (img_h as int) * (tw as int),
                    img_w >= 1,
                    img_h >= 1,
            ;
        }
        (tw, if h > 1 {
            h
        } else {
            1
        })
    } else {
        let w = ((img_w as u64) * (th as u64) / (img_h as u64)) as u32;
        proof {
            assert((img_w as int) * (th as int) / (img_h as int) <= tw) by (nonlinear_arith)
                requires
                    (img_w as int) * (th as int) <= (img_h as int) * (tw as int),
                    img_w >= 1,
                    img_h >= 1,
            ;
        }
        (if w > 1 {
            w
        } else {
            1
        }, th)
    };
    assert((scaled_w as int, scaled_h as int) == contain_size(
        img_w as int,
        img_h as int,
        tw as int,
        th as int,
    ));
    let offset_x = ((tw - scaled_w) / 2) as i32;
    let offset_y = ((th - scaled_h) / 2) as i32;
    draw_gray8(buffers, img_w, img_h, pixels, offset_x, offset_y, scaled_w as i32, scaled_h as i32);
}

/// The low and high planes of a two-bit image's data, each cut at the
/// data's end.
pub open spec fn clipped_planes(data: Seq<u8>, plane: int) -> (Seq<u8>, Seq<u8>) {
    let n = data.len() as int;
    let a = if plane < n { plane } else { n };
    let b = if 2 * plane < n { 2 * plane } else { n };
    let c = if 3 * plane < n { 3 * plane } else { n };
    (data.subrange(a, b), data.subrange(b, c))
}

/// What a full-screen view of an image draws on a white screen: a 1-bit
/// image stretched over the whole screen, an 8-bit image fitted and
/// dithered, a two-bit image by the luminance of its grayscale planes,
/// fitted and dithered; a streamed image is not drawn here.
pub open spec fn image_view_drawn(r: Rotation, after: Seq<u8>, image: ImageData) -> bool {
    let white = Seq::new(BUFFER_SIZE as nat, |i: int| 0xFFu8);
    let tw = crate::framebuffer::logical_width(r);
    let th = crate::framebuffer::logical_height(r);
    match image {
        ImageData::Mono1 { width, height, bits } => painted(
            r,
            white,
            after,
            0,
            0,
            tw,
            th,
            |tx: int, ty: int| mono_color(max1(width as int) as u32, max1(height as int) as u32, bits@, tw, th, tx, ty),
        ),
        ImageData::Gray8 { width, height, pixels } => {
            let (ox, oy, sw, sh) = fit_rect(width, height, r);
            painted(
                r,
                white,
                after,
                ox,
                oy,
                sw,
                sh,
                |tx: int, ty: int|
                    gray8_color(max1(width as int) as u32, max1(height as int) as u32, pixels@, sw, sh, tx, ty),
            )
        },
        ImageData::Gray2 { width, height, data } => {
            let (l, m) = clipped_planes(data@, image_plane_len(width, height));
            let px = Seq::new(
                ((width as int) * (height as int)) as nat,
                |i: int| fallback_pixel(l, m, i),
            );
            let (ox, oy, sw, sh) = fit_rect(width, height, r);
            painted(
                r,
                white,
                after,
                ox,
                oy,
                sw,
                sh,
                |tx: int, ty: int|
                    gray8_color(max1(width as int) as u32, max1(height as int) as u32, px, sw, sh, tx, ty),
            )
        },
        ImageData::Gray2Stream { .. } => after == white,
    }
}

/// The image can be viewed full screen without overflowing.
pub open spec fn image_view_ok(image: ImageData, r: Rotation) -> bool {
    match image {
        ImageData::Mono1 { width, height, .. } => width <= i32::MAX && height <= i32::MAX,
        ImageData::Gray8 { width, height, .. } => fit_ok(width, height, r),
        ImageData::Gray2 { width, height, .. } => fit_ok(width, height, r) && (width as int) * (
        height as int) <= usize::MAX,
        ImageData::Gray2Stream { .. } => true,
    }
}

/// Clears the screen to white and draws an image full screen (see
/// `image_view_drawn`).
pub fn render_image(buffers: &mut DisplayBuffers, image: &ImageData)
    requires
        old(buffers).wf(),
        image_view_ok(*image, old(buffers).spec_rotation()),
    ensures
        final(buffers).wf(),
        final(buffers).inactive_view() == old(buffers).inactive_view(),
        final(buffers).spec_rotation() == old(buffers).spec_rotation(),
        final(buffers).spec_active_flag() == old(buffers).spec_active_flag(),
        image_view_drawn(old(buffers).spec_rotation(), final(buffers).active_view(), *image),
{
    buffers.clear_screen(0xFF);
    let ghost white = buffers.active_view();
    assert(white =~= Seq::new(BUFFER_SIZE as nat, |i: int| 0xFFu8));
    match image {
        ImageData::Mono1 { width, height, bits } => {
            let (tw, th) = buffers.size();
            let w: u32 = if *width > 1 {
                *width
            } else {
                1
            };
            let h: u32 = if *height > 1 {
                *height
            } else {
                1
            };
            draw_mono(buffers, w, h, bits.as_slice(), 0, 0, tw as i32, th as i32);
        },
        ImageData::Gray8 { width, height, pixels } => {
            render_gray8_fit(buffers, *width, *height, pixels.as_slice());
        },
        ImageData::Gray2 { width, height, data } => {
            proof {
                assert((*width as int) * (*height as int) + 7 <= u64::MAX) by (nonlinear_arith)
                    requires
                        *width <= u32::MAX,
                        *height <= u32::MAX,
                ;
            }
            let plane: u64 = ((*width as u64) * (*height as u64) + 7) / 8;
            let n = data.len() as u64;
            let a = if plane < n {
                plane
            } else {
                n
            };
            let b = if plane <= n / 2 {
                2 * plane
            } else {
                n
            };
            let c = if plane <= n / 3 {
                3 * plane
            } else {
                n
            };
            assert(b as int == if 2 * plane < n { 2 * plane } else { n as int });
            assert(c as int == if 3 * plane < n { 3 * plane } else { n as int });
            let l = slice_subrange_u8(data.as_slice(), a as usize, b as usize);
            let m = slice_subrange_u8(data.as_slice(), b as usize, c as usize);
            let pixels = gray2_fallback_pixels(*width, *height, l, m);
            proof {
                let (gl, gm) = clipped_planes(data@, image_plane_len(*width, *height));
                assert(gl == l@ && gm == m@);
                assert(pixels@ =~= Seq::new(
                    ((*width as int) * (*height as int)) as nat,
                    |i: int| fallback_pixel(gl, gm, i),
                ));
            }
            render_gray8_fit(buffers, *width, *height, pixels.as_slice());
        },
        ImageData::Gray2Stream { .. } => {},
    }
}

} // verus!
