//! Packing of rasterized glyph coverage into the 1-bit and grayscale
//! planes of a book's glyph table.

use vstd::prelude::*;

verus! {

// ---------------------------------------------------------------------------
// Glyph bitmaps
// ---------------------------------------------------------------------------

/// The (black-and-white, low, high) bits of one coverage value: darkness
/// `255 - coverage` sorted into five bands.
pub open spec fn gray2_bits(coverage: u8) -> (bool, bool, bool) {
    let val = 255 - coverage;
    if val >= 205 {
        (true, false, false)
    } else if val >= 154 {
        (true, true, false)
    } else if val >= 103 {
        (false, false, true)
    } else if val >= 52 {
        (false, true, true)
    } else {
        (false, false, false)
    }
}

/// Whether bit `i` of a packed plane is set.
pub open spec fn plane_bit(plane: Seq<u8>, i: int) -> bool {
    crate::framebuffer::bit_at(plane, i)
}

/// Bit `which` (0: black-and-white, 1: low, 2: high) of a coverage value.
pub open spec fn gray2_plane_bit(coverage: u8, which: int) -> bool {
    let (b, l, m) = gray2_bits(coverage);
    if which == 0 {
        b
    } else if which == 1 {
        l
    } else {
        m
    }
}

/// Plane `which` of `n` bytes with the bits of the first `k` pixels set.
pub open spec fn packed(bitmap: Seq<u8>, which: int, k: int, n: nat) -> Seq<u8>
    decreases k,
{
    if k <= 0 {
        Seq::new(n, |i: int| 0u8)
    } else {
        let p = packed(bitmap, which, k - 1, n);
        if gray2_plane_bit(bitmap[k - 1], which) {
            crate::framebuffer::with_bit(p, k - 1, true)
        } else {
            p
        }
    }
}

proof fn lemma_packed(bitmap: Seq<u8>, which: int, k: int, n: nat)
    requires
        0 <= k <= n * 8,
    ensures
        packed(bitmap, which, k, n).len() == n,
        forall|j: int|
            0 <= j < n * 8 ==> #[trigger] plane_bit(packed(bitmap, which, k, n), j) == (j < k
                && gray2_plane_bit(bitmap[j], which)),
    decreases k,
{
    let p = packed(bitmap, which, k, n);
    if k == 0 {
        assert forall|j: int| 0 <= j < n * 8 implies #[trigger] plane_bit(p, j) == (j < k
            && gray2_plane_bit(bitmap[j], which)) by {
            crate::bitmap::lemma_zero_bit(p, j);
        }
    } else {
        lemma_packed(bitmap, which, k - 1, n);
        let q = packed(bitmap, which, k - 1, n);
        assert forall|j: int| 0 <= j < n * 8 implies #[trigger] plane_bit(p, j) == (j < k
            && gray2_plane_bit(bitmap[j], which)) by {
            assert(plane_bit(q, j) == (j < k - 1 && gray2_plane_bit(bitmap[j], which)));
            if gray2_plane_bit(bitmap[k - 1], which) {
                crate::framebuffer::lemma_with_bit(q, k - 1, true, j);
            }
        }
    }
}

/// Packs an 8-bit coverage bitmap into a black-and-white plane and the low
/// and high grayscale planes (bit order MSB first).
pub fn pack_gray2_bitmap(bitmap: &[u8], width: usize, height: usize) -> (r: (Vec<u8>, Vec<u8>, Vec<u8>))
    requires
        width * height <= bitmap@.len(),
    ensures
        r.0@.len() == (width * height + 7) / 8,
        r.1@.len() == (width * height + 7) / 8,
        r.2@.len() == (width * height + 7) / 8,
        forall|i: int|
            0 <= i < width * height ==> {
                let (b, l, m) = #[trigger] gray2_bits(bitmap@[i]);
                plane_bit(r.0@, i) == b && plane_bit(r.1@, i) == l && plane_bit(r.2@, i) == m
            },
        forall|i: int|
            width * height <= i < r.0@.len() * 8 ==> !plane_bit(r.0@, i) && !plane_bit(r.1@, i)
                && !plane_bit(r.2@, i),
{
    let _blen = bitmap.len();
    let total = width * height;
    let n = total / 8 + if total % 8 == 0 {
        0
    } else {
        1
    };
    assert(n == (total + 7) / 8);
    let mut bw: Vec<u8> = vec![0u8; n];
    let mut lsb: Vec<u8> = vec![0u8; n];
    let mut msb: Vec<u8> = vec![0u8; n];
    assert(bw@ =~= packed(bitmap@, 0, 0, n as nat));
    assert(lsb@ =~= packed(bitmap@, 1, 0, n as nat));
    assert(msb@ =~= packed(bitmap@, 2, 0, n as nat));
    let mut px: usize = 0;
    while px < total
        invariant
            px <= total,
            total == width * height,
            total <= bitmap@.len(),
            n == (total + 7) / 8,
            bw@ == packed(bitmap@, 0, px as int, n as nat),
            lsb@ == packed(bitmap@, 1, px as int, n as nat),
            msb@ == packed(bitmap@, 2, px as int, n as nat),
        decreases total - px,
    {
        proof {
            lemma_packed(bitmap@, 0, px as int, n as nat);
            lemma_packed(bitmap@, 1, px as int, n as nat);
            lemma_packed(bitmap@, 2, px as int, n as nat);
        }
        let val = 255u8 - bitmap[px];
        let (b, m, l) = if val >= 205 {
            (true, false, false)
        } else if val >= 154 {
            (true, false, true)
        } else if val >= 103 {
            (false, true, false)
        } else if val >= 52 {
            (false, true, true)
        } else {
            (false, false, false)
        };
        assert(gray2_bits(bitmap@[px as int]) == (b, l, m));
        if b {
            crate::bitmap::write_bit(&mut bw, px, true);
        }
        if l {
            crate::bitmap::write_bit(&mut lsb, px, true);
        }
        if m {
            crate::bitmap::write_bit(&mut msb, px, true);
        }
        px = px + 1;
    }
    proof {
        lemma_packed(bitmap@, 0, total as int, n as nat);
        lemma_packed(bitmap@, 1, total as int, n as nat);
        lemma_packed(bitmap@, 2, total as int, n as nat);
        assert forall|i: int| 0 <= i < width * height implies {
            let (b, l, m) = #[trigger] gray2_bits(bitmap@[i]);
            plane_bit(bw@, i) == b && plane_bit(lsb@, i) == l && plane_bit(msb@, i) == m
        } by {
            assert(plane_bit(bw@, i) == gray2_plane_bit(bitmap@[i], 0));
            assert(plane_bit(lsb@, i) == gray2_plane_bit(bitmap@[i], 1));
            assert(plane_bit(msb@, i) == gray2_plane_bit(bitmap@[i], 2));
        }
        assert forall|i: int| width * height <= i < bw@.len() * 8 implies !plane_bit(bw@, i) && !plane_bit(
            lsb@,
            i,
        ) && !plane_bit(msb@, i) by {
            assert(plane_bit(bw@, i) == (i < total && gray2_plane_bit(bitmap@[i], 0)));
            assert(plane_bit(lsb@, i) == (i < total && gray2_plane_bit(bitmap@[i], 1)));
            assert(plane_bit(msb@, i) == (i < total && gray2_plane_bit(bitmap@[i], 2)));
        }
    }
    (bw, lsb, msb)
}

} // verus!
