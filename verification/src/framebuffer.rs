//! The double-buffered 1-bit framebuffer of the 800x480 panel, with the
//! rotation that maps logical (portrait or landscape) coordinates onto it.

use vstd::prelude::*;

verus! {

pub const WIDTH: usize = 800;
pub const HEIGHT: usize = 480;
pub const BUFFER_SIZE: usize = 48000;

/// Display rotation/orientation.
#[derive(Clone, Copy, Debug, PartialEq, Eq, Structural)]
pub enum Rotation {
    /// No rotation (landscape, 800x480).
    Rotate0,
    /// 90 degrees clockwise (portrait, 480x800).
    Rotate90,
    /// 180 degrees (landscape upside-down, 800x480).
    Rotate180,
    /// 270 degrees clockwise (portrait, 480x800).
    Rotate270,
}

/// Logical width seen under a rotation.
pub open spec fn logical_width(r: Rotation) -> int {
    match r {
        Rotation::Rotate0 | Rotation::Rotate180 => WIDTH as int,
        _ => HEIGHT as int,
    }
}

/// Logical height seen under a rotation.
pub open spec fn logical_height(r: Rotation) -> int {
    match r {
        Rotation::Rotate0 | Rotation::Rotate180 => HEIGHT as int,
        _ => WIDTH as int,
    }
}

/// Panel coordinates of a logical point (possibly outside the panel).
pub open spec fn rotate_point(r: Rotation, x: int, y: int) -> (int, int) {
    match r {
        Rotation::Rotate0 => (x, y),
        Rotation::Rotate90 => (y, HEIGHT - 1 - x),
        Rotation::Rotate180 => (WIDTH - 1 - x, HEIGHT - 1 - y),
        Rotation::Rotate270 => (WIDTH - 1 - y, x),
    }
}

/// The panel position of a logical point, when it falls on the panel.
pub open spec fn spec_map_display_point(r: Rotation, x: int, y: int) -> Option<(int, int)> {
    let (fx, fy) = rotate_point(r, x, y);
    if x < 0 || y < 0 || fx < 0 || fy < 0 || fx >= WIDTH || fy >= HEIGHT {
        None
    } else {
        Some((fx, fy))
    }
}

/// Index of a panel pixel in row-major order.
pub open spec fn pixel_index(fx: int, fy: int) -> int {
    fy * WIDTH + fx
}

/// The bit of a packed MSB-first bitmap at pixel index `idx`.
pub open spec fn bit_at(buf: Seq<u8>, idx: int) -> bool {
    (buf[idx / 8] >> ((7 - idx % 8) as u8)) & 1u8 == 1u8
}

/// The bitmap with the bit at pixel index `idx` set or cleared.
pub open spec fn with_bit(buf: Seq<u8>, idx: int, on: bool) -> Seq<u8> {
    let b = buf[idx / 8];
    let m = 1u8 << ((7 - idx % 8) as u8);
    buf.update(idx / 8, if on { b | m } else { b & !m })
}

/// Maps a logical point to panel coordinates under a rotation.
pub fn map_display_point(rotation: Rotation, x: i32, y: i32) -> (r: Option<(usize, usize)>)
    ensures
        match spec_map_display_point(rotation, x as int, y as int) {
            Some((fx, fy)) => r == Some((fx as usize, fy as usize)),
            None => r is None,
        },
{
    if x < 0 || y < 0 {
        return None;
    }
    let xu = x as usize;
    let yu = y as usize;
    let (fx, fy): (usize, usize) = match rotation {
        Rotation::Rotate0 => (xu, yu),
        Rotation::Rotate90 => {
            if xu > HEIGHT - 1 {
                return None;
            }
            (yu, HEIGHT - 1 - xu)
        },
        Rotation::Rotate180 => {
            if xu > WIDTH - 1 || yu > HEIGHT - 1 {
                return None;
            }
            (WIDTH - 1 - xu, HEIGHT - 1 - yu)
        },
        Rotation::Rotate270 => {
            if yu > WIDTH - 1 {
                return None;
            }
            (WIDTH - 1 - yu, xu)
        },
    };
    if fx >= WIDTH || fy >= HEIGHT {
        None
    } else {
        Some((fx, fy))
    }
}

proof fn lemma_bit_set(b: u8, k: u8)
    requires
        k < 8,
    ensures
        ((b | (1u8 << k)) >> k) & 1u8 == 1u8,
        ((b & !(1u8 << k)) >> k) & 1u8 == 0u8,
{
    assert(((b | (1u8 << k)) >> k) & 1u8 == 1u8) by (bit_vector)
        requires
            k < 8,
    ;
    assert(((b & !(1u8 << k)) >> k) & 1u8 == 0u8) by (bit_vector)
        requires
            k < 8,
    ;
}

proof fn lemma_bit_other(b: u8, k: u8, j: u8, on: bool)
    requires
        k < 8,
        j < 8,
        k != j,
    ensures
        ((b | (1u8 << k)) >> j) & 1u8 == (b >> j) & 1u8,
        ((b & !(1u8 << k)) >> j) & 1u8 == (b >> j) & 1u8,
{
    assert(((b | (1u8 << k)) >> j) & 1u8 == (b >> j) & 1u8) by (bit_vector)
        requires
            k < 8,
            j < 8,
            k != j,
    ;
    assert(((b & !(1u8 << k)) >> j) & 1u8 == (b >> j) & 1u8) by (bit_vector)
        requires
            k < 8,
            j < 8,
            k != j,
    ;
}

/// Reading a bit back after writing it gives what was written; every other
/// bit of the bitmap is left as it was.
pub proof fn lemma_with_bit(buf: Seq<u8>, idx: int, on: bool, other: int)
    requires
        0 <= idx < buf.len() * 8,
        0 <= other < buf.len() * 8,
    ensures
        bit_at(with_bit(buf, idx, on), idx) == on,
        other != idx ==> bit_at(with_bit(buf, idx, on), other) == bit_at(buf, other),
        with_bit(buf, idx, on).len() == buf.len(),
{
    let k = (7 - idx % 8) as u8;
    let b = buf[idx / 8];
    lemma_bit_set(b, k);
    if other != idx && other / 8 == idx / 8 {
        let j = (7 - other % 8) as u8;
        lemma_bit_other(b, k, j, on);
    }
}

/// Writing a bit's own value back leaves the bitmap unchanged.
pub proof fn lemma_with_bit_same(buf: Seq<u8>, idx: int)
    requires
        0 <= idx < buf.len() * 8,
    ensures
        with_bit(buf, idx, bit_at(buf, idx)) == buf,
{
    let b = buf[idx / 8];
    let k = (7 - idx % 8) as u8;
    assert(((b >> k) & 1u8 == 1u8) ==> (b | (1u8 << k)) == b) by (bit_vector)
        requires
            k < 8,
    ;
    assert(!((b >> k) & 1u8 == 1u8) ==> (b & !(1u8 << k)) == b) by (bit_vector)
        requires
            k < 8,
    ;
    assert(with_bit(buf, idx, bit_at(buf, idx)) =~= buf);
}

/// Whether the logical pixel (`x`, `y`) of a buffer is white (points off the
/// panel read as white).
pub open spec fn pixel_value(r: Rotation, buf: Seq<u8>, x: int, y: int) -> bool {
    match spec_map_display_point(r, x, y) {
        Some((fx, fy)) => bit_at(buf, pixel_index(fx, fy)),
        None => true,
    }
}

/// The buffer after setting logical pixel (`x`, `y`).
pub open spec fn set_pixel_spec(r: Rotation, buf: Seq<u8>, x: int, y: int, on: bool) -> Seq<u8> {
    match spec_map_display_point(r, x, y) {
        Some((fx, fy)) => with_bit(buf, pixel_index(fx, fy), on),
        None => buf,
    }
}

/// A panel position lies inside the buffer.
pub proof fn lemma_panel_index(fx: int, fy: int)
    requires
        0 <= fx < WIDTH,
        0 <= fy < HEIGHT,
    ensures
        0 <= pixel_index(fx, fy) < BUFFER_SIZE * 8,
{
    assert(0 <= fy * 800 + fx < 384000) by (nonlinear_arith)
        requires
            0 <= fx < 800,
            0 <= fy < 480,
    ;
}

/// Setting a logical pixel to its current value changes nothing.
pub proof fn lemma_set_pixel_same(r: Rotation, buf: Seq<u8>, x: int, y: int)
    requires
        buf.len() == BUFFER_SIZE,
    ensures
        set_pixel_spec(r, buf, x, y, pixel_value(r, buf, x, y)) == buf,
{
    if let Some((fx, fy)) = spec_map_display_point(r, x, y) {
        lemma_panel_index(fx, fy);
        lemma_with_bit_same(buf, pixel_index(fx, fy));
    }
}

/// Buffer bit index of a logical point on the panel (-1 off the panel).
pub open spec fn mapped_index(r: Rotation, x: int, y: int) -> int {
    match spec_map_display_point(r, x, y) {
        Some((fx, fy)) => pixel_index(fx, fy),
        None => -1,
    }
}

/// Different logical points land on different panel pixels.
pub proof fn lemma_map_injective(r: Rotation, x1: int, y1: int, x2: int, y2: int)
    requires
        spec_map_display_point(r, x1, y1) is Some,
        spec_map_display_point(r, x2, y2) is Some,
        x1 != x2 || y1 != y2,
    ensures
        mapped_index(r, x1, y1) != mapped_index(r, x2, y2),
{
    let (a0, a1) = spec_map_display_point(r, x1, y1)->0;
    let (b0, b1) = spec_map_display_point(r, x2, y2)->0;
    assert(a0 != b0 || a1 != b1);
    if a1 == b1 {
    } else {
        assert(a1 * 800 + a0 != b1 * 800 + b0) by (nonlinear_arith)
            requires
                0 <= a0 < 800,
                0 <= b0 < 800,
                a1 != b1,
        ;
    }
}

/// Writing a logical pixel and reading it back gives what was written;
/// every other logical pixel reads as before.
pub proof fn lemma_pixel_write_read(r: Rotation, buf: Seq<u8>, x: int, y: int, on: bool, x2: int, y2: int)
    requires
        buf.len() == BUFFER_SIZE,
        spec_map_display_point(r, x, y) is Some,
    ensures
        pixel_value(r, set_pixel_spec(r, buf, x, y, on), x, y) == on,
        (x2 != x || y2 != y) ==> pixel_value(r, set_pixel_spec(r, buf, x, y, on), x2, y2)
            == pixel_value(r, buf, x2, y2),
{
    let (fx, fy) = spec_map_display_point(r, x, y)->0;
    lemma_panel_index(fx, fy);
    lemma_with_bit(buf, pixel_index(fx, fy), on, pixel_index(fx, fy));
    if x2 != x || y2 != y {
        if let Some((gx, gy)) = spec_map_display_point(r, x2, y2) {
            lemma_panel_index(gx, gy);
            lemma_map_injective(r, x, y, x2, y2);
            lemma_with_bit(buf, pixel_index(fx, fy), on, pixel_index(gx, gy));
        }
    }
}

/// Two buffers of `BUFFER_SIZE` bytes, one being drawn into (active) while
/// the other holds what the panel last showed.
pub struct DisplayBuffers {
    buf0: Vec<u8>,
    buf1: Vec<u8>,
    active: bool,
    rotation: Rotation,
}

impl DisplayBuffers {
    /// Both buffers hold `BUFFER_SIZE` bytes.
    pub closed spec fn wf(&self) -> bool {
        self.buf0@.len() == BUFFER_SIZE && self.buf1@.len() == BUFFER_SIZE
    }

    /// The buffer being drawn into.
    pub closed spec fn active_view(&self) -> Seq<u8> {
        if self.active {
            self.buf1@
        } else {
            self.buf0@
        }
    }

    /// The other buffer.
    pub closed spec fn inactive_view(&self) -> Seq<u8> {
        if self.active {
            self.buf0@
        } else {
            self.buf1@
        }
    }

    /// Which of the two buffers is active (`true`: the second).
    pub closed spec fn spec_active_flag(&self) -> bool {
        self.active
    }

    pub closed spec fn spec_rotation(&self) -> Rotation {
        self.rotation
    }

    /// Whether both buffers have their full size.
    pub fn check_wf(&self) -> (r: bool)
        ensures
            r == self.wf(),
    {
        self.buf0.len() == BUFFER_SIZE && self.buf1.len() == BUFFER_SIZE
    }

    /// A well-formed buffer pair has two full-size buffers.
    pub proof fn lemma_wf_sizes(&self)
        requires
            self.wf(),
        ensures
            self.active_view().len() == BUFFER_SIZE,
            self.inactive_view().len() == BUFFER_SIZE,
    {
    }

    /// Two white buffers, no rotation.
    pub fn new() -> (r: Self)
        ensures
            r.active_view() == Seq::new(BUFFER_SIZE as nat, |i: int| 0xFFu8),
            r.inactive_view() == Seq::new(BUFFER_SIZE as nat, |i: int| 0xFFu8),
            r.spec_rotation() == Rotation::Rotate0,
            !r.spec_active_flag(),
            r.wf(),
    {
        let buf0 = vec![0xFFu8; BUFFER_SIZE];
        let buf1 = vec![0xFFu8; BUFFER_SIZE];
        let r = DisplayBuffers { buf0, buf1, active: false, rotation: Rotation::Rotate0 };
        assert(r.active_view() =~= Seq::new(BUFFER_SIZE as nat, |i: int| 0xFFu8));
        assert(r.inactive_view() =~= Seq::new(BUFFER_SIZE as nat, |i: int| 0xFFu8));
        r
    }

    pub fn rotation(&self) -> (r: Rotation)
        ensures
            r == self.spec_rotation(),
    {
        self.rotation
    }

    pub fn set_rotation(&mut self, rotation: Rotation)
        requires
            old(self).wf(),
        ensures
            final(self).wf(),
            final(self).spec_rotation() == rotation,
            final(self).active_view() == old(self).active_view(),
            final(self).inactive_view() == old(self).inactive_view(),
            final(self).spec_active_flag() == old(self).spec_active_flag(),
    {
        self.rotation = rotation;
    }

    /// Logical width and height under the current rotation.
    pub fn size(&self) -> (r: (u32, u32))
        ensures
            r.0 == logical_width(self.spec_rotation()),
            r.1 == logical_height(self.spec_rotation()),
    {
        match self.rotation {
            Rotation::Rotate0 | Rotation::Rotate180 => (WIDTH as u32, HEIGHT as u32),
            Rotation::Rotate90 | Rotation::Rotate270 => (HEIGHT as u32, WIDTH as u32),
        }
    }

    pub fn get_active_buffer(&self) -> (r: &[u8])
        requires
            self.wf(),
        ensures
            r@ == self.active_view(),
            r@.len() == BUFFER_SIZE,
    {
        if self.active {
            self.buf1.as_slice()
        } else {
            self.buf0.as_slice()
        }
    }

    /// The buffer being drawn into, for writing.
    pub fn get_active_buffer_mut(&mut self) -> (r: &mut [u8])
        ensures
            r@ == old(self).active_view(),
            final(self).active_view() == final(r)@,
            final(self).inactive_view() == old(self).inactive_view(),
            final(self).spec_rotation() == old(self).spec_rotation(),
            final(self).spec_active_flag() == old(self).spec_active_flag(),
            old(self).wf() ==> (final(self).wf() <==> final(r)@.len() == BUFFER_SIZE),
    {
        if self.active {
            self.buf1.as_mut_slice()
        } else {
            self.buf0.as_mut_slice()
        }
    }

    pub fn get_inactive_buffer(&self) -> (r: &[u8])
        requires
            self.wf(),
        ensures
            r@ == self.inactive_view(),
            r@.len() == BUFFER_SIZE,
    {
        if self.active {
            self.buf0.as_slice()
        } else {
            self.buf1.as_slice()
        }
    }

    /// Fills the active buffer with one byte value.
    pub fn clear_screen(&mut self, color: u8)
        requires
            old(self).wf(),
        ensures
            final(self).wf(),
            final(self).active_view() == Seq::new(BUFFER_SIZE as nat, |i: int| color),
            final(self).inactive_view() == old(self).inactive_view(),
            final(self).spec_rotation() == old(self).spec_rotation(),
            final(self).spec_active_flag() == old(self).spec_active_flag(),
    {
        let fresh = vec![color; BUFFER_SIZE];
        if self.active {
            self.buf1 = fresh;
        } else {
            self.buf0 = fresh;
        }
        assert(self.active_view() =~= Seq::new(BUFFER_SIZE as nat, |i: int| color));
    }

    /// Makes the other buffer the active one.
    pub fn swap_buffers(&mut self)
        requires
            old(self).wf(),
        ensures
            final(self).wf(),
            final(self).active_view() == old(self).inactive_view(),
            final(self).inactive_view() == old(self).active_view(),
            final(self).spec_active_flag() == !old(self).spec_active_flag(),
            final(self).spec_rotation() == old(self).spec_rotation(),
    {
        self.active = !self.active;
    }

    /// Copies the active buffer into the inactive one.
    pub fn copy_active_to_inactive(&mut self)
        requires
            old(self).wf(),
        ensures
            final(self).wf(),
            final(self).inactive_view() == old(self).active_view(),
            final(self).active_view() == old(self).active_view(),
            final(self).spec_active_flag() == old(self).spec_active_flag(),
            final(self).spec_rotation() == old(self).spec_rotation(),
    {
        if self.active {
            self.buf0 = self.buf1.clone();
        } else {
            self.buf1 = self.buf0.clone();
        }
    }

    /// Copies the inactive buffer into the active one.
    pub fn copy_inactive_to_active(&mut self)
        requires
            old(self).wf(),
        ensures
            final(self).wf(),
            final(self).active_view() == old(self).inactive_view(),
            final(self).inactive_view() == old(self).inactive_view(),
            final(self).spec_active_flag() == old(self).spec_active_flag(),
            final(self).spec_rotation() == old(self).spec_rotation(),
    {
        if self.active {
            self.buf1 = self.buf0.clone();
        } else {
            self.buf0 = self.buf1.clone();
        }
    }

    /// Sets (`on`: white) or clears the pixel at a logical position; points
    /// off the panel are ignored.
    pub fn set_pixel(&mut self, x: i32, y: i32, on: bool)
        requires
            old(self).wf(),
        ensures
            final(self).wf(),
            final(self).active_view() == set_pixel_spec(
                old(self).spec_rotation(),
                old(self).active_view(),
                x as int,
                y as int,
                on,
            ),
            final(self).inactive_view() == old(self).inactive_view(),
            final(self).spec_rotation() == old(self).spec_rotation(),
            final(self).spec_active_flag() == old(self).spec_active_flag(),
    {
        match map_display_point(self.rotation, x, y) {
            None => {},
            Some((fx, fy)) => {
                let index = fy * WIDTH + fx;
                let byte_index = index / 8;
                let bit_index = (7 - (index % 8)) as u8;
                let mask: u8 = 1u8 << bit_index;
                if self.active {
                    let b = self.buf1[byte_index];
                    self.buf1.set(byte_index, if on { b | mask } else { b & !mask });
                } else {
                    let b = self.buf0[byte_index];
                    self.buf0.set(byte_index, if on { b | mask } else { b & !mask });
                }
            },
        }
    }

    /// Whether the pixel at a logical position is white in the active
    /// buffer; points off the panel read as white.
    pub fn read_pixel(&self, x: i32, y: i32) -> (r: bool)
        requires
            self.wf(),
        ensures
            r == pixel_value(self.spec_rotation(), self.active_view(), x as int, y as int),
    {
        match map_display_point(self.rotation, x, y) {
            None => true,
            Some((fx, fy)) => {
                let index = fy * WIDTH + fx;
                let byte_index = index / 8;
                let bit_index = (7 - (index % 8)) as u8;
                let b = if self.active {
                    self.buf1[byte_index]
                } else {
                    self.buf0[byte_index]
                };
                (b >> bit_index) & 1 == 1
            },
        }
    }
}

} // verus!
