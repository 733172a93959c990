//! Reading a TRBK book file: the fixed header, the metadata block, the
//! table of contents, the page table, the glyph table, the embedded image
//! table and the draw operations of a page. All values are little-endian.

use vstd::prelude::*;
use vstd::bytes::*;
use vstd::slice::*;
use vstd::utf8::*;
use crate::image_viewer::ImageError;
use crate::text::utf8_string;
use crate::trbk::{TrbkBookInfo, TrbkGlyph, TrbkImageInfo, TrbkMetadata, TrbkOp, TrbkTocEntry};

verus! {

/// Whether `n` bytes start at `o` inside `d`.
pub open spec fn fits(d: Seq<u8>, o: int, n: int) -> bool {
    0 <= o && 0 <= n && o + n <= d.len()
}

pub open spec fn le16(d: Seq<u8>, o: int) -> u16 {
    spec_u16_from_le_bytes(d.subrange(o, o + 2))
}

pub open spec fn le32(d: Seq<u8>, o: int) -> u32 {
    spec_u32_from_le_bytes(d.subrange(o, o + 4))
}

/// Reads a `u16` at a fixed offset.
pub fn read_u16_le(data: &[u8], offset: usize) -> (r: Result<u16, ImageError>)
    ensures
        match r {
            Ok(v) => fits(data@, offset as int, 2) && v == le16(data@, offset as int),
            Err(e) => !fits(data@, offset as int, 2) && e == ImageError::Decode,
        },
{
    if offset > data.len() || data.len() - offset < 2 {
        return Err(ImageError::Decode);
    }
    Ok(u16_from_le_bytes(slice_subrange(data, offset, offset + 2)))
}

/// Reads an `i16` at a fixed offset.
pub fn read_i16_le(data: &[u8], offset: usize) -> (r: Result<i16, ImageError>)
    ensures
        match r {
            Ok(v) => fits(data@, offset as int, 2) && v == le16(data@, offset as int) as i16,
            Err(e) => !fits(data@, offset as int, 2) && e == ImageError::Decode,
        },
{
    match read_u16_le(data, offset) {
        Ok(v) => Ok(v as i16),
        Err(e) => Err(e),
    }
}

/// Reads a `u32` at a fixed offset.
pub fn read_u32_le(data: &[u8], offset: usize) -> (r: Result<u32, ImageError>)
    ensures
        match r {
            Ok(v) => fits(data@, offset as int, 4) && v == le32(data@, offset as int),
            Err(e) => !fits(data@, offset as int, 4) && e == ImageError::Decode,
        },
{
    if offset > data.len() || data.len() - offset < 4 {
        return Err(ImageError::Decode);
    }
    Ok(u32_from_le_bytes(slice_subrange(data, offset, offset + 4)))
}

/// A string at `c`: a `u32` byte length and that many bytes of UTF-8; with
/// the position after it.
pub open spec fn spec_read_string(d: Seq<u8>, c: int) -> Option<(Seq<char>, int)> {
    if !fits(d, c, 4) {
        None
    } else {
        let n = le32(d, c) as int;
        if fits(d, c + 4, n) && valid_utf8(d.subrange(c + 4, c + 4 + n)) {
            Some((decode_utf8(d.subrange(c + 4, c + 4 + n)), c + 4 + n))
        } else {
            None
        }
    }
}

/// Reads a length-prefixed UTF-8 string and advances the cursor past it.
pub fn read_string(data: &[u8], cursor: &mut usize) -> (r: Result<String, ImageError>)
    ensures
        match spec_read_string(data@, *old(cursor) as int) {
            Some((s, c)) => r matches Ok(x) && x@ == s && *final(cursor) == c,
            None => r == Err::<String, ImageError>(ImageError::Decode),
        },
{
    let len = match read_u32_le(data, *cursor) {
        Ok(n) => n as usize,
        Err(e) => return Err(e),
    };
    if data.len() - *cursor - 4 < len {
        return Err(ImageError::Decode);
    }
    let start = *cursor + 4;
    match utf8_string(slice_subrange(data, start, start + len)) {
        Some(s) => {
            proof {
                encode_utf8_decode_utf8(s@);
            }
            *cursor = start + len;
            Ok(s)
        },
        None => Err(ImageError::Decode),
    }
}

/// The fixed fields at the start of a TRBK file.
#[derive(Clone, Copy, Debug)]
pub struct TrbkHeader {
    pub version: u8,
    pub header_size: u16,
    pub screen_width: u16,
    pub screen_height: u16,
    pub page_count: u32,
    pub toc_count: u32,
    pub page_lut_offset: u32,
    pub toc_offset: u32,
    pub page_data_offset: u32,
    pub images_offset: u32,
    pub glyph_count: u32,
    pub glyph_table_offset: u32,
}

/// Bytes of the fixed header.
pub const TRBK_HEADER_LEN: usize = 0x30;

/// The "TRBK" magic.
pub open spec fn trbk_magic() -> Seq<u8> {
    seq![0x54u8, 0x52u8, 0x42u8, 0x4Bu8]
}

/// The fixed header's fields (version 2 adds images, glyph count and glyph
/// table; version 1 has none of them).
pub open spec fn header_fields(d: Seq<u8>) -> TrbkHeader {
    let v2 = d[4] >= 2;
    TrbkHeader {
        version: d[4],
        header_size: le16(d, 0x06),
        screen_width: le16(d, 0x08),
        screen_height: le16(d, 0x0A),
        page_count: le32(d, 0x0C),
        toc_count: le32(d, 0x10),
        page_lut_offset: le32(d, 0x14),
        toc_offset: le32(d, 0x18),
        page_data_offset: le32(d, 0x1C),
        images_offset: if v2 {
            le32(d, 0x20)
        } else {
            0
        },
        glyph_count: if v2 {
            le32(d, 0x28)
        } else {
            0
        },
        glyph_table_offset: if v2 {
            le32(d, 0x2C)
        } else {
            0
        },
    }
}

/// The fixed header of a file: too short or without the magic is a decode
/// error, an unknown version unsupported, and a table of contents that does
/// not start right after the header a decode error.
pub open spec fn spec_parse_header(d: Seq<u8>) -> Result<TrbkHeader, ImageError> {
    if d.len() < 0x30 || d.subrange(0, 4) != trbk_magic() {
        Err(ImageError::Decode)
    } else if d[4] != 1 && d[4] != 2 {
        Err(ImageError::Unsupported)
    } else {
        let h = header_fields(d);
        if h.toc_count != 0 && h.toc_offset != h.header_size {
            Err(ImageError::Decode)
        } else {
            Ok(h)
        }
    }
}

/// Parses the fixed header at the start of `data`.
pub fn parse_trbk_header(data: &[u8]) -> (r: Result<TrbkHeader, ImageError>)
    ensures
        r == spec_parse_header(data@),
{
    if data.len() < TRBK_HEADER_LEN {
        return Err(ImageError::Decode);
    }
    if !(data[0] == 0x54 && data[1] == 0x52 && data[2] == 0x42 && data[3] == 0x4B) {
        assert(data@.subrange(0, 4) != trbk_magic()) by {
            if data@.subrange(0, 4) == trbk_magic() {
                assert(data@.subrange(0, 4)[0] == data@[0]);
                assert(data@.subrange(0, 4)[1] == data@[1]);
                assert(data@.subrange(0, 4)[2] == data@[2]);
                assert(data@.subrange(0, 4)[3] == data@[3]);
            }
        }
        return Err(ImageError::Decode);
    }
    assert(data@.subrange(0, 4) =~= trbk_magic());
    let version = data[4];
    if version != 1 && version != 2 {
        return Err(ImageError::Unsupported);
    }
    let v2 = version >= 2;
    let h = TrbkHeader {
        version,
        header_size: u16_from_le_bytes(slice_subrange(data, 0x06, 0x08)),
        screen_width: u16_from_le_bytes(slice_subrange(data, 0x08, 0x0A)),
        screen_height: u16_from_le_bytes(slice_subrange(data, 0x0A, 0x0C)),
        page_count: u32_from_le_bytes(slice_subrange(data, 0x0C, 0x10)),
        toc_count: u32_from_le_bytes(slice_subrange(data, 0x10, 0x14)),
        page_lut_offset: u32_from_le_bytes(slice_subrange(data, 0x14, 0x18)),
        toc_offset: u32_from_le_bytes(slice_subrange(data, 0x18, 0x1C)),
        page_data_offset: u32_from_le_bytes(slice_subrange(data, 0x1C, 0x20)),
        images_offset: if v2 {
            u32_from_le_bytes(slice_subrange(data, 0x20, 0x24))
        } else {
            0
        },
        glyph_count: if v2 {
            u32_from_le_bytes(slice_subrange(data, 0x28, 0x2C))
        } else {
            0
        },
        glyph_table_offset: if v2 {
            u32_from_le_bytes(slice_subrange(data, 0x2C, 0x30))
        } else {
            0
        },
    };
    if h.toc_count != 0 && h.toc_offset != h.header_size as u32 {
        return Err(ImageError::Decode);
    }
    Ok(h)
}

/// Book metadata as values.
pub struct MetadataModel {
    pub title: Seq<char>,
    pub author: Seq<char>,
    pub language: Seq<char>,
    pub identifier: Seq<char>,
    pub font_name: Seq<char>,
    pub char_width: u16,
    pub line_height: u16,
    pub ascent: i16,
    pub margin_left: u16,
    pub margin_right: u16,
    pub margin_top: u16,
    pub margin_bottom: u16,
}

pub open spec fn metadata_view(m: TrbkMetadata) -> MetadataModel {
    MetadataModel {
        title: m.title@,
        author: m.author@,
        language: m.language@,
        identifier: m.identifier@,
        font_name: m.font_name@,
        char_width: m.char_width,
        line_height: m.line_height,
        ascent: m.ascent,
        margin_left: m.margin_left,
        margin_right: m.margin_right,
        margin_top: m.margin_top,
        margin_bottom: m.margin_bottom,
    }
}

/// The metadata block inside the header: five strings (title, author,
/// language, identifier, font) then seven 16-bit settings.
pub open spec fn spec_parse_metadata(d: Seq<u8>, version: u8) -> Option<MetadataModel> {
    let c0: int = if version >= 2 {
        0x30
    } else {
        0x2C
    };
    match spec_read_string(d, c0) {
        None => None,
        Some((title, c1)) => match spec_read_string(d, c1) {
            None => None,
            Some((author, c2)) => match spec_read_string(d, c2) {
                None => None,
                Some((language, c3)) => match spec_read_string(d, c3) {
                    None => None,
                    Some((identifier, c4)) => match spec_read_string(d, c4) {
                        None => None,
                        Some((font_name, c)) => {
                            if !fits(d, c, 14) {
                                None
                            } else {
                                Some(
                                    MetadataModel {
                                        title,
                                        author,
                                        language,
                                        identifier,
                                        font_name,
                                        char_width: le16(d, c),
                                        line_height: le16(d, c + 2),
                                        ascent: le16(d, c + 4) as i16,
                                        margin_left: le16(d, c + 6),
                                        margin_right: le16(d, c + 8),
                                        margin_top: le16(d, c + 10),
                                        margin_bottom: le16(d, c + 12),
                                    },
                                )
                            }
                        },
                    },
                },
            },
        },
    }
}

/// Parses the metadata block of a header of the given version.
pub fn parse_trbk_metadata(header: &[u8], version: u8) -> (r: Result<TrbkMetadata, ImageError>)
    ensures
        match spec_parse_metadata(header@, version) {
            Some(m) => r matches Ok(x) && metadata_view(x) == m,
            None => r == Err::<TrbkMetadata, ImageError>(ImageError::Decode),
        },
{
    let mut cursor: usize = if version >= 2 {
        0x30
    } else {
        0x2C
    };
    let title = match read_string(header, &mut cursor) {
        Ok(s) => s,
        Err(e) => return Err(e),
    };
    let author = match read_string(header, &mut cursor) {
        Ok(s) => s,
        Err(e) => return Err(e),
    };
    let language = match read_string(header, &mut cursor) {
        Ok(s) => s,
        Err(e) => return Err(e),
    };
    let identifier = match read_string(header, &mut cursor) {
        Ok(s) => s,
        Err(e) => return Err(e),
    };
    let font_name = match read_string(header, &mut cursor) {
        Ok(s) => s,
        Err(e) => return Err(e),
    };
    if header.len() - cursor < 14 {
        return Err(ImageError::Decode);
    }
    let char_width = u16_from_le_bytes(slice_subrange(header, cursor, cursor + 2));
    let line_height = u16_from_le_bytes(slice_subrange(header, cursor + 2, cursor + 4));
    let ascent = u16_from_le_bytes(slice_subrange(header, cursor + 4, cursor + 6)) as i16;
    let margin_left = u16_from_le_bytes(slice_subrange(header, cursor + 6, cursor + 8));
    let margin_right = u16_from_le_bytes(slice_subrange(header, cursor + 8, cursor + 10));
    let margin_top = u16_from_le_bytes(slice_subrange(header, cursor + 10, cursor + 12));
    let margin_bottom = u16_from_le_bytes(slice_subrange(header, cursor + 12, cursor + 14));
    Ok(
        TrbkMetadata {
            title,
            author,
            language,
            identifier,
            font_name,
            char_width,
            line_height,
            ascent,
            margin_left,
            margin_right,
            margin_top,
            margin_bottom,
        },
    )
}


/// A table-of-contents entry as values: title, page, level.
pub open spec fn toc_view(e: TrbkTocEntry) -> (Seq<char>, u32, u8) {
    (e.title@, e.page_index, e.level)
}

pub open spec fn toc_views(s: Seq<TrbkTocEntry>) -> Seq<(Seq<char>, u32, u8)> {
    s.map_values(|e: TrbkTocEntry| toc_view(e))
}

/// One table-of-contents entry at `c`: a string, then the page (`u32`),
/// the level (`u8`) and three reserved bytes.
pub open spec fn toc_entry_at(d: Seq<u8>, c: int) -> Option<((Seq<char>, u32, u8), int)> {
    match spec_read_string(d, c) {
        None => None,
        Some((title, c1)) => {
            if fits(d, c1, 8) {
                Some(((title, le32(d, c1), d[c1 + 4]), c1 + 8))
            } else {
                None
            }
        },
    }
}

/// `n` table-of-contents entries, one after the other from `c`.
pub open spec fn spec_parse_toc(d: Seq<u8>, c: int, n: nat) -> Option<Seq<(Seq<char>, u32, u8)>>
    decreases n,
{
    if n == 0 {
        Some(seq![])
    } else {
        match toc_entry_at(d, c) {
            None => None,
            Some((e, c2)) => match spec_parse_toc(d, c2, (n - 1) as nat) {
                None => None,
                Some(rest) => Some(seq![e] + rest),
            },
        }
    }
}

/// Parses `count` table-of-contents entries starting at `offset`.
pub fn parse_trbk_toc(data: &[u8], offset: usize, count: usize) -> (r: Result<Vec<TrbkTocEntry>, ImageError>)
    ensures
        match spec_parse_toc(data@, offset as int, count as nat) {
            Some(es) => r matches Ok(v) && toc_views(v@) == es,
            None => r == Err::<Vec<TrbkTocEntry>, ImageError>(ImageError::Decode),
        },
{
    let mut out: Vec<TrbkTocEntry> = Vec::new();
    let mut cursor = offset;
    let mut i: usize = 0;
    while i < count
        invariant
            i <= count,
            spec_parse_toc(data@, offset as int, count as nat) == match spec_parse_toc(
                data@,
                cursor as int,
                (count - i) as nat,
            ) {
                Some(rest) => Some(toc_views(out@) + rest),
                None => None,
            },
        decreases count - i,
    {
        let ghost c0 = cursor;
        let title = match read_string(data, &mut cursor) {
            Ok(t) => t,
            Err(e) => return Err(e),
        };
        if data.len() - cursor < 8 {
            return Err(ImageError::Decode);
        }
        let page_index = u32_from_le_bytes(slice_subrange(data, cursor, cursor + 4));
        let level = data[cursor + 4];
        cursor = cursor + 8;
        let ghost before = toc_views(out@);
        let entry = TrbkTocEntry { title, page_index, level };
        out.push(entry);
        proof {
            assert(toc_views(out@) =~= before.push(toc_view(entry)));
            let e = toc_view(entry);
            assert(toc_entry_at(data@, c0 as int) == Some((e, cursor as int)));
            match spec_parse_toc(data@, cursor as int, (count - i - 1) as nat) {
                Some(rest) => {
                    assert(before + (seq![e] + rest) =~= before.push(e) + rest);
                },
                None => {},
            }
        }
        i = i + 1;
    }
    proof {
        assert(toc_views(out@) + seq![] =~= toc_views(out@));
    }
    Ok(out)
}

/// The page table: `n` page offsets (`u32`) from `o`.
pub open spec fn spec_parse_lut(d: Seq<u8>, o: int, n: nat) -> Option<Seq<u32>> {
    if fits(d, o, 4 * n as int) {
        Some(Seq::new(n, |i: int| le32(d, o + 4 * i)))
    } else {
        None
    }
}

/// Parses the page table.
pub fn parse_trbk_page_lut(data: &[u8], offset: usize, count: usize) -> (r: Result<Vec<u32>, ImageError>)
    ensures
        match spec_parse_lut(data@, offset as int, count as nat) {
            Some(v) => r matches Ok(x) && x@ == v,
            None => r == Err::<Vec<u32>, ImageError>(ImageError::Decode),
        },
{
    if offset > data.len() || (data.len() - offset) / 4 < count {
        return Err(ImageError::Decode);
    }
    let mut out: Vec<u32> = Vec::new();
    let dlen = data.len();
    let mut i: usize = 0;
    while i < count
        invariant
            dlen == data@.len(),
            i <= count,
            offset + 4 * count <= data@.len(),
            out@.len() == i,
            forall|k: int| 0 <= k < i ==> out@[k] == le32(data@, offset + 4 * k),
        decreases count - i,
    {
        let at = offset + 4 * i;
        out.push(u32_from_le_bytes(slice_subrange(data, at, at + 4)));
        i = i + 1;
    }
    assert(out@ =~= Seq::new(count as nat, |k: int| le32(data@, offset + 4 * k)));
    Ok(out)
}

/// A glyph as values.
pub struct GlyphModel {
    pub codepoint: u32,
    pub style: u8,
    pub width: u8,
    pub height: u8,
    pub x_advance: i16,
    pub x_offset: i16,
    pub y_offset: i16,
    pub bw: Seq<u8>,
    pub lsb: Option<Seq<u8>>,
    pub msb: Option<Seq<u8>>,
}

pub open spec fn opt_bytes(o: Option<Vec<u8>>) -> Option<Seq<u8>> {
    match o {
        Some(v) => Some(v@),
        None => None,
    }
}

pub open spec fn glyph_view(g: TrbkGlyph) -> GlyphModel {
    GlyphModel {
        codepoint: g.codepoint,
        style: g.style,
        width: g.width,
        height: g.height,
        x_advance: g.x_advance,
        x_offset: g.x_offset,
        y_offset: g.y_offset,
        bw: g.bitmap_bw@,
        lsb: opt_bytes(g.bitmap_lsb),
        msb: opt_bytes(g.bitmap_msb),
    }
}

pub open spec fn glyph_views(s: Seq<TrbkGlyph>) -> Seq<GlyphModel> {
    s.map_values(|g: TrbkGlyph| glyph_view(g))
}

/// Bytes of one 1-bit plane of a `w` by `h` bitmap.
pub open spec fn plane_bytes(w: u8, h: u8) -> int {
    (w * h + 7) / 8
}

/// One glyph record at `c`: codepoint, style, width, height, advance and
/// offsets, bitmap length and bitmap. A bitmap of exactly three planes is a
/// black-and-white plane followed by the two grayscale planes.
pub open spec fn glyph_at(d: Seq<u8>, c: int) -> Option<(GlyphModel, int)> {
    if !fits(d, c, 17) {
        None
    } else {
        let n = le32(d, c + 13) as int;
        if !fits(d, c + 17, n) {
            None
        } else {
            let bitmap = d.subrange(c + 17, c + 17 + n);
            let w = d[c + 5];
            let h = d[c + 6];
            let plane = plane_bytes(w, h);
            let three = n == plane * 3;
            Some(
                (
                    GlyphModel {
                        codepoint: le32(d, c),
                        style: d[c + 4],
                        width: w,
                        height: h,
                        x_advance: le16(d, c + 7) as i16,
                        x_offset: le16(d, c + 9) as i16,
                        y_offset: le16(d, c + 11) as i16,
                        bw: if three {
                            bitmap.subrange(0, plane)
                        } else {
                            bitmap
                        },
                        lsb: if three {
                            Some(bitmap.subrange(plane, 2 * plane))
                        } else {
                            None
                        },
                        msb: if three {
                            Some(bitmap.subrange(2 * plane, 3 * plane))
                        } else {
                            None
                        },
                    },
                    c + 17 + n,
                ),
            )
        }
    }
}

/// `n` glyph records, one after the other from `c`.
pub open spec fn spec_parse_glyphs(d: Seq<u8>, c: int, n: nat) -> Option<Seq<GlyphModel>>
    decreases n,
{
    if n == 0 {
        Some(seq![])
    } else {
        match glyph_at(d, c) {
            None => None,
            Some((g, c2)) => match spec_parse_glyphs(d, c2, (n - 1) as nat) {
                None => None,
                Some(rest) => Some(seq![g] + rest),
            },
        }
    }
}

/// Parses one glyph record and advances the cursor past it.
fn parse_glyph(data: &[u8], cursor: &mut usize) -> (r: Result<TrbkGlyph, ImageError>)
    ensures
        match glyph_at(data@, *old(cursor) as int) {
            Some((g, c)) => r matches Ok(x) && glyph_view(x) == g && *final(cursor) == c,
            None => r == Err::<TrbkGlyph, ImageError>(ImageError::Decode),
        },
{
    let c = *cursor;
    if c > data.len() || data.len() - c < 17 {
        return Err(ImageError::Decode);
    }
    let codepoint = u32_from_le_bytes(slice_subrange(data, c, c + 4));
    let style = data[c + 4];
    let width = data[c + 5];
    let height = data[c + 6];
    let x_advance = u16_from_le_bytes(slice_subrange(data, c + 7, c + 9)) as i16;
    let x_offset = u16_from_le_bytes(slice_subrange(data, c + 9, c + 11)) as i16;
    let y_offset = u16_from_le_bytes(slice_subrange(data, c + 11, c + 13)) as i16;
    let n = u32_from_le_bytes(slice_subrange(data, c + 13, c + 17)) as usize;
    if data.len() - c - 17 < n {
        return Err(ImageError::Decode);
    }
    let start = c + 17;
    let bitmap = slice_subrange(data, start, start + n);
    proof {
        assert((width as usize) * (height as usize) <= 255 * 255) by (nonlinear_arith)
            requires
                width <= 255,
                height <= 255,
        ;
    }
    let plane = ((width as usize) * (height as usize) + 7) / 8;
    let (bw, lsb, msb) = if n == plane * 3 {
        (
            slice_to_vec(slice_subrange(bitmap, 0, plane)),
            Some(slice_to_vec(slice_subrange(bitmap, plane, 2 * plane))),
            Some(slice_to_vec(slice_subrange(bitmap, 2 * plane, 3 * plane))),
        )
    } else {
        (slice_to_vec(bitmap), None, None)
    };
    *cursor = start + n;
    Ok(
        TrbkGlyph {
            codepoint,
            style,
            width,
            height,
            x_advance,
            x_offset,
            y_offset,
            bitmap_bw: bw,
            bitmap_lsb: lsb,
            bitmap_msb: msb,
        },
    )
}

/// Parses `count` glyph records starting at `offset`.
pub fn parse_trbk_glyphs(data: &[u8], offset: usize, count: usize) -> (r: Result<Vec<TrbkGlyph>, ImageError>)
    ensures
        match spec_parse_glyphs(data@, offset as int, count as nat) {
            Some(gs) => r matches Ok(v) && glyph_views(v@) == gs,
            None => r == Err::<Vec<TrbkGlyph>, ImageError>(ImageError::Decode),
        },
{
    let mut out: Vec<TrbkGlyph> = Vec::new();
    let mut cursor = offset;
    let mut i: usize = 0;
    while i < count
        invariant
            i <= count,
            spec_parse_glyphs(data@, offset as int, count as nat) == match spec_parse_glyphs(
                data@,
                cursor as int,
                (count - i) as nat,
            ) {
                Some(rest) => Some(glyph_views(out@) + rest),
                None => None,
            },
        decreases count - i,
    {
        let ghost c0 = cursor;
        let g = match parse_glyph(data, &mut cursor) {
            Ok(g) => g,
            Err(e) => return Err(e),
        };
        let ghost before = glyph_views(out@);
        out.push(g);
        proof {
            assert(glyph_views(out@) =~= before.push(glyph_view(g)));
            match spec_parse_glyphs(data@, cursor as int, (count - i - 1) as nat) {
                Some(rest) => {
                    assert(before + (seq![glyph_view(g)] + rest) =~= before.push(glyph_view(g))
                        + rest);
                },
                None => {},
            }
        }
        i = i + 1;
    }
    proof {
        assert(glyph_views(out@) + seq![] =~= glyph_views(out@));
    }
    Ok(out)
}

/// One image table entry at `e`: offset (relative to the image section),
/// length, width, height.
pub open spec fn image_entry(d: Seq<u8>, e: int, section: u32) -> TrbkImageInfo {
    let rel = le32(d, e);
    TrbkImageInfo {
        data_offset: if section + rel > u32::MAX {
            u32::MAX
        } else {
            (section + rel) as u32
        },
        data_len: le32(d, e + 4),
        width: le16(d, e + 8),
        height: le16(d, e + 10),
    }
}

/// Bytes per image table entry after the first: 16, or 14 when the first
/// entry's offset shows a table of 14-byte entries.
pub open spec fn image_entry_size(d: Seq<u8>, o: int, count: u32) -> int {
    let rel = le32(d, o + 4) as int;
    if rel == 4 + count * 16 {
        16
    } else if rel == 4 + count * 14 {
        14
    } else {
        16
    }
}

/// The image table at section offset `section`: a count, a 16-byte first
/// entry, then the other entries.
pub open spec fn spec_parse_images(d: Seq<u8>, section: u32) -> Option<Seq<TrbkImageInfo>> {
    let o = section as int;
    if !fits(d, o, 4) {
        None
    } else {
        let count = le32(d, o);
        if count == 0 {
            Some(seq![])
        } else if !fits(d, o + 4, 16) {
            None
        } else {
            let size = image_entry_size(d, o, count);
            if !fits(d, o + 20, (count - 1) * size) {
                None
            } else {
                Some(
                    Seq::new(
                        count as nat,
                        |k: int|
                            if k == 0 {
                                image_entry(d, o + 4, section)
                            } else {
                                image_entry(d, o + 20 + (k - 1) * size, section)
                            },
                    ),
                )
            }
        }
    }
}

fn read_image_entry(data: &[u8], at: usize, section: u32) -> (r: TrbkImageInfo)
    requires
        fits(data@, at as int, 12),
    ensures
        r == image_entry(data@, at as int, section),
{
    let _len = data.len();
    let rel = u32_from_le_bytes(slice_subrange(data, at, at + 4));
    TrbkImageInfo {
        data_offset: section.saturating_add(rel),
        data_len: u32_from_le_bytes(slice_subrange(data, at + 4, at + 8)),
        width: u16_from_le_bytes(slice_subrange(data, at + 8, at + 10)),
        height: u16_from_le_bytes(slice_subrange(data, at + 10, at + 12)),
    }
}

/// Parses the embedded image table at `section`.
pub fn parse_trbk_images(data: &[u8], section: u32) -> (r: Result<Vec<TrbkImageInfo>, ImageError>)
    ensures
        match spec_parse_images(data@, section) {
            Some(v) => r matches Ok(x) && x@ == v,
            None => r == Err::<Vec<TrbkImageInfo>, ImageError>(ImageError::Decode),
        },
{
    let o = section as usize;
    let count = match read_u32_le(data, o) {
        Ok(n) => n,
        Err(e) => return Err(e),
    };
    let mut out: Vec<TrbkImageInfo> = Vec::new();
    if count == 0 {
        assert(out@ =~= seq![]);
        return Ok(out);
    }
    if data.len() - o - 4 < 16 {
        return Err(ImageError::Decode);
    }
    let rel = u32_from_le_bytes(slice_subrange(data, o + 4, o + 8)) as u64;
    let size: usize = if rel == 4 + (count as u64) * 16 {
        16
    } else if rel == 4 + (count as u64) * 14 {
        14
    } else {
        16
    };
    assert(size == image_entry_size(data@, o as int, count));
    let rest = (count - 1) as usize;
    if (data.len() - o - 20) / size < rest {
        proof {
            assert((data@.len() - o - 20) < rest * size) by (nonlinear_arith)
                requires
                    (data@.len() - o - 20) / (size as int) < rest,
                    size > 0,
                    data@.len() - o - 20 >= 0,
            ;
        }
        return Err(ImageError::Decode);
    }
    proof {
        assert(rest * size <= data@.len() - o - 20) by (nonlinear_arith)
            requires
                (data@.len() - o - 20) / (size as int) >= rest,
                size > 0,
                data@.len() - o - 20 >= 0,
        ;
    }
    out.push(read_image_entry(data, o + 4, section));
    let dlen = data.len();
    let mut k: usize = 1;
    while k < count as usize
        invariant
            dlen == data@.len(),
            1 <= k <= count,
            count >= 1,
            size == 14 || size == 16,
            o as int + 20 + (count - 1) * size <= data@.len(),
            out@.len() == k,
            out@[0] == image_entry(data@, o + 4, section),
            forall|j: int| 1 <= j < k ==> out@[j] == image_entry(data@, o + 20 + (j - 1) * size, section),
        decreases count - k,
    {
        proof {
            assert((k - 1) * size + size <= (count - 1) * size) by (nonlinear_arith)
                requires
                    k < count,
                    size > 0,
            ;
        }
        let at = o + 20 + (k - 1) * size;
        out.push(read_image_entry(data, at, section));
        k = k + 1;
    }
    assert(out@ =~= Seq::new(
        count as nat,
        |j: int|
            if j == 0 {
                image_entry(data@, o + 4, section)
            } else {
                image_entry(data@, o + 20 + (j - 1) * size, section)
            },
    ));
    Ok(out)
}

/// A draw operation as values.
pub enum PageOpModel {
    Text(i32, i32, u8, Seq<char>),
    Image(i32, i32, u16, u16, u32),
}

pub open spec fn page_op_view(op: TrbkOp) -> PageOpModel {
    match op {
        TrbkOp::TextRun { x, y, style, text } => PageOpModel::Text(x, y, style, text@),
        TrbkOp::Image { x, y, width, height, image_index } => PageOpModel::Image(
            x,
            y,
            width,
            height,
            image_index,
        ),
    }
}

pub open spec fn page_op_views(s: Seq<TrbkOp>) -> Seq<PageOpModel> {
    s.map_values(|op: TrbkOp| page_op_view(op))
}

/// The operation a record's payload holds: `None` for a malformed known
/// record, `Some(None)` for an unknown opcode, which is skipped.
pub open spec fn record_op(opcode: u8, p: Seq<u8>) -> Option<Option<PageOpModel>> {
    if opcode == 0x01 {
        if p.len() < 6 || !valid_utf8(p.skip(6)) {
            None
        } else {
            Some(
                Some(
                    PageOpModel::Text(
                        le16(p, 0) as i32,
                        le16(p, 2) as i32,
                        p[4],
                        decode_utf8(p.skip(6)),
                    ),
                ),
            )
        }
    } else if opcode == 0x02 {
        if p.len() < 12 {
            None
        } else {
            Some(
                Some(
                    PageOpModel::Image(
                        le16(p, 0) as i32,
                        le16(p, 2) as i32,
                        le16(p, 4),
                        le16(p, 6),
                        le32(p, 8),
                    ),
                ),
            )
        }
    } else {
        Some(None)
    }
}

/// The draw operations of page data from `c`: records of an opcode, a
/// `u16` payload length and the payload. A text run holds x, y, style, a
/// reserved byte and UTF-8 text; an image x, y, width, height and image
/// index. Unknown opcodes are skipped; a truncated record is an error.
pub open spec fn spec_parse_ops(d: Seq<u8>, c: int) -> Option<Seq<PageOpModel>>
    decreases d.len() - c,
{
    if c < 0 || c >= d.len() {
        Some(seq![])
    } else if !fits(d, c, 3) {
        None
    } else {
        let n = le16(d, c + 1) as int;
        if !fits(d, c + 3, n) {
            None
        } else {
            match record_op(d[c], d.subrange(c + 3, c + 3 + n)) {
                None => None,
                Some(op) => match spec_parse_ops(d, c + 3 + n) {
                    None => None,
                    Some(rest) => match op {
                        Some(o) => Some(seq![o] + rest),
                        None => Some(rest),
                    },
                },
            }
        }
    }
}

/// Decodes one record's payload.
fn parse_record(opcode: u8, p: &[u8]) -> (r: Result<Option<TrbkOp>, ImageError>)
    ensures
        match record_op(opcode, p@) {
            None => r == Err::<Option<TrbkOp>, ImageError>(ImageError::Decode),
            Some(None) => r == Ok::<Option<TrbkOp>, ImageError>(None),
            Some(Some(m)) => r matches Ok(Some(op)) && page_op_view(op) == m,
        },
{
    if opcode == 0x01 {
        if p.len() < 6 {
            return Err(ImageError::Decode);
        }
        let x = u16_from_le_bytes(slice_subrange(p, 0, 2)) as i32;
        let y = u16_from_le_bytes(slice_subrange(p, 2, 4)) as i32;
        let style = p[4];
        let tail = slice_subrange(p, 6, p.len());
        assert(tail@ =~= p@.skip(6));
        match utf8_string(tail) {
            Some(text) => {
                proof {
                    encode_utf8_decode_utf8(text@);
                }
                Ok(Some(TrbkOp::TextRun { x, y, style, text }))
            },
            None => Err(ImageError::Decode),
        }
    } else if opcode == 0x02 {
        if p.len() < 12 {
            return Err(ImageError::Decode);
        }
        Ok(
            Some(
                TrbkOp::Image {
                    x: u16_from_le_bytes(slice_subrange(p, 0, 2)) as i32,
                    y: u16_from_le_bytes(slice_subrange(p, 2, 4)) as i32,
                    width: u16_from_le_bytes(slice_subrange(p, 4, 6)),
                    height: u16_from_le_bytes(slice_subrange(p, 6, 8)),
                    image_index: u32_from_le_bytes(slice_subrange(p, 8, 12)),
                },
            ),
        )
    } else {
        Ok(None)
    }
}

/// Decodes the draw operations of one page's data.
pub fn parse_trbk_page_ops(data: &[u8]) -> (r: Result<Vec<TrbkOp>, ImageError>)
    ensures
        match spec_parse_ops(data@, 0) {
            Some(ops) => r matches Ok(v) && page_op_views(v@) == ops,
            None => r == Err::<Vec<TrbkOp>, ImageError>(ImageError::Decode),
        },
{
    let mut out: Vec<TrbkOp> = Vec::new();
    let mut c: usize = 0;
    while c < data.len()
        invariant
            c <= data@.len(),
            spec_parse_ops(data@, 0) == match spec_parse_ops(data@, c as int) {
                Some(rest) => Some(page_op_views(out@) + rest),
                None => None,
            },
        decreases data@.len() - c,
    {
        if data.len() - c < 3 {
            return Err(ImageError::Decode);
        }
        let opcode = data[c];
        let n = u16_from_le_bytes(slice_subrange(data, c + 1, c + 3)) as usize;
        if data.len() - c - 3 < n {
            return Err(ImageError::Decode);
        }
        let rec = parse_record(opcode, slice_subrange(data, c + 3, c + 3 + n));
        let ghost before = page_op_views(out@);
        let ghost next = (c + 3 + n) as int;
        match rec {
            Err(e) => {
                return Err(e);
            },
            Ok(None) => {},
            Ok(Some(op)) => {
                out.push(op);
                proof {
                    assert(page_op_views(out@) =~= before.push(page_op_view(op)));
                    match spec_parse_ops(data@, next) {
                        Some(rest) => {
                            assert(before + (seq![page_op_view(op)] + rest) =~= before.push(
                                page_op_view(op),
                            ) + rest);
                        },
                        None => {},
                    }
                }
            },
        }
        c = c + 3 + n;
    }
    proof {
        assert(page_op_views(out@) + seq![] =~= page_op_views(out@));
    }
    Ok(out)
}

/// An opened book: what the reader needs up front, and where each page's
/// data lies in the file.
pub struct TrbkLayout {
    pub info: TrbkBookInfo,
    pub page_offsets: Vec<u32>,
    pub page_data_offset: u32,
    pub glyph_table_offset: u32,
}

/// An opened book as values.
pub struct OpenModel {
    pub screen_width: u16,
    pub screen_height: u16,
    pub page_count: nat,
    pub metadata: MetadataModel,
    pub toc: Seq<(Seq<char>, u32, u8)>,
    pub page_offsets: Seq<u32>,
    pub glyphs: Seq<GlyphModel>,
    pub images: Seq<TrbkImageInfo>,
    pub page_data_offset: u32,
    pub glyph_table_offset: u32,
}

pub open spec fn layout_view(l: TrbkLayout) -> OpenModel {
    OpenModel {
        screen_width: l.info.screen_width,
        screen_height: l.info.screen_height,
        page_count: l.info.page_count as nat,
        metadata: metadata_view(l.info.metadata),
        toc: toc_views(l.info.toc@),
        page_offsets: l.page_offsets@,
        glyphs: glyph_views(l.info.glyphs@),
        images: l.info.images@,
        page_data_offset: l.page_data_offset,
        glyph_table_offset: l.glyph_table_offset,
    }
}

/// Opens a whole TRBK file: header, metadata, table of contents (when it
/// has entries), page table, glyphs (when it has any) and image table (when
/// it has one). A missing or malformed part is a decode error.
pub open spec fn spec_open_trbk(d: Seq<u8>) -> Result<OpenModel, ImageError> {
    match spec_parse_header(d) {
        Err(e) => Err(e),
        Ok(h) => {
            if d.len() < h.header_size {
                Err(ImageError::Decode)
            } else {
                let meta = spec_parse_metadata(d.subrange(0, h.header_size as int), h.version);
                let toc = if h.toc_count > 0 {
                    spec_parse_toc(d, h.toc_offset as int, h.toc_count as nat)
                } else {
                    Some(seq![])
                };
                let lut = spec_parse_lut(d, h.page_lut_offset as int, h.page_count as nat);
                let glyphs = if h.glyph_count > 0 {
                    spec_parse_glyphs(d, h.glyph_table_offset as int, h.glyph_count as nat)
                } else {
                    Some(seq![])
                };
                let images = if h.images_offset > 0 {
                    spec_parse_images(d, h.images_offset)
                } else {
                    Some(seq![])
                };
                if meta is None || toc is None || lut is None || glyphs is None || images is None {
                    Err(ImageError::Decode)
                } else {
                    Ok(
                        OpenModel {
                            screen_width: h.screen_width,
                            screen_height: h.screen_height,
                            page_count: h.page_count as nat,
                            metadata: meta->0,
                            toc: toc->0,
                            page_offsets: lut->0,
                            glyphs: glyphs->0,
                            images: images->0,
                            page_data_offset: h.page_data_offset,
                            glyph_table_offset: h.glyph_table_offset,
                        },
                    )
                }
            }
        },
    }
}

/// Opens a book from the bytes of its file.
pub fn open_trbk(file: &[u8]) -> (r: Result<TrbkLayout, ImageError>)
    ensures
        match spec_open_trbk(file@) {
            Ok(m) => r matches Ok(l) && layout_view(l) == m,
            Err(e) => r matches Err(x) && x == e,
        },
{
    let h = match parse_trbk_header(file) {
        Ok(h) => h,
        Err(e) => return Err(e),
    };
    let header_size = h.header_size as usize;
    if file.len() < header_size {
        return Err(ImageError::Decode);
    }
    let metadata = match parse_trbk_metadata(slice_subrange(file, 0, header_size), h.version) {
        Ok(m) => m,
        Err(e) => return Err(e),
    };
    let toc = if h.toc_count > 0 {
        match parse_trbk_toc(file, h.toc_offset as usize, h.toc_count as usize) {
            Ok(t) => t,
            Err(e) => return Err(e),
        }
    } else {
        Vec::new()
    };
    let page_offsets = match parse_trbk_page_lut(
        file,
        h.page_lut_offset as usize,
        h.page_count as usize,
    ) {
        Ok(v) => v,
        Err(e) => return Err(e),
    };
    let glyphs = if h.glyph_count > 0 {
        match parse_trbk_glyphs(file, h.glyph_table_offset as usize, h.glyph_count as usize) {
            Ok(g) => g,
            Err(e) => return Err(e),
        }
    } else {
        Vec::new()
    };
    let images = if h.images_offset > 0 {
        match parse_trbk_images(file, h.images_offset) {
            Ok(v) => v,
            Err(e) => return Err(e),
        }
    } else {
        Vec::new()
    };
    proof {
        assert(toc_views(toc@) =~= toc_views(toc@));
        if h.toc_count == 0 {
            assert(toc_views(toc@) =~= seq![]);
        }
        if h.glyph_count == 0 {
            assert(glyph_views(glyphs@) =~= seq![]);
        }
        if h.images_offset == 0 {
            assert(images@ =~= seq![]);
        }
    }
    Ok(
        TrbkLayout {
            info: TrbkBookInfo {
                screen_width: h.screen_width,
                screen_height: h.screen_height,
                page_count: h.page_count as usize,
                metadata,
                glyphs,
                toc,
                images,
            },
            page_offsets,
            page_data_offset: h.page_data_offset,
            glyph_table_offset: h.glyph_table_offset,
        },
    )
}

/// Where page `i`'s data starts and ends: from the page data offset plus
/// its table entry to the next page's start, or to the glyph table for the
/// last page.
pub open spec fn spec_page_range(
    offsets: Seq<u32>,
    page_data_offset: u32,
    glyph_table_offset: u32,
    i: int,
) -> Result<(int, int), ImageError> {
    if i < 0 || i >= offsets.len() {
        Err(ImageError::Decode)
    } else {
        let start = page_data_offset + offsets[i];
        let end = if i + 1 < offsets.len() {
            page_data_offset + offsets[i + 1]
        } else {
            glyph_table_offset as int
        };
        if end < start {
            Err(ImageError::Decode)
        } else {
            Ok((start, end))
        }
    }
}

/// Whether every page start fits the 32-bit offsets of the format.
pub open spec fn page_starts_fit(offsets: Seq<u32>, page_data_offset: u32) -> bool {
    forall|k: int| 0 <= k < offsets.len() ==> page_data_offset + #[trigger] offsets[k] <= u32::MAX
}

/// Checks `page_starts_fit`.
pub fn check_page_starts(layout: &TrbkLayout) -> (r: bool)
    ensures
        r == page_starts_fit(layout.page_offsets@, layout.page_data_offset),
{
    let mut i: usize = 0;
    while i < layout.page_offsets.len()
        invariant
            i <= layout.page_offsets@.len(),
            forall|k: int|
                0 <= k < i ==> layout.page_data_offset + #[trigger] layout.page_offsets@[k] <= u32::MAX,
        decreases layout.page_offsets@.len() - i,
    {
        if layout.page_offsets[i] > u32::MAX - layout.page_data_offset {
            return false;
        }
        i = i + 1;
    }
    true
}

/// The byte range of a page's data in the file.
pub fn trbk_page_range(layout: &TrbkLayout, page_index: usize) -> (r: Result<(u32, u32), ImageError>)
    requires
        page_starts_fit(layout.page_offsets@, layout.page_data_offset),
    ensures
        match spec_page_range(
            layout.page_offsets@,
            layout.page_data_offset,
            layout.glyph_table_offset,
            page_index as int,
        ) {
            Ok((s, e)) => r matches Ok((a, b)) && a == s && b == e,
            Err(x) => r matches Err(y) && y == x,
        },
{
    let n = layout.page_offsets.len();
    if page_index >= n {
        return Err(ImageError::Decode);
    }
    let start = layout.page_data_offset + layout.page_offsets[page_index];
    let end = if page_index + 1 < n {
        layout.page_data_offset + layout.page_offsets[page_index + 1]
    } else {
        layout.glyph_table_offset
    };
    if end < start {
        return Err(ImageError::Decode);
    }
    Ok((start, end))
}

/// The draw operations of page `i`, read from the book file: a page whose
/// data runs past the end of the file is a decode error.
pub open spec fn spec_trbk_page(d: Seq<u8>, l: OpenModel, i: int) -> Result<Seq<PageOpModel>, ImageError> {
    match spec_page_range(l.page_offsets, l.page_data_offset, l.glyph_table_offset, i) {
        Err(e) => Err(e),
        Ok((s, e)) => {
            if e > d.len() {
                Err(ImageError::Decode)
            } else {
                match spec_parse_ops(d.subrange(s, e), 0) {
                    Some(ops) => Ok(ops),
                    None => Err(ImageError::Decode),
                }
            }
        },
    }
}

/// Reads the draw operations of one page from the bytes of the book file.
pub fn trbk_page(file: &[u8], layout: &TrbkLayout, page_index: usize) -> (r: Result<
    crate::trbk::TrbkPage,
    ImageError,
>)
    requires
        page_starts_fit(layout.page_offsets@, layout.page_data_offset),
    ensures
        match spec_trbk_page(file@, layout_view(*layout), page_index as int) {
            Ok(ops) => r matches Ok(p) && page_op_views(p.ops@) == ops,
            Err(e) => r matches Err(x) && x == e,
        },
{
    let (start, end) = match trbk_page_range(layout, page_index) {
        Ok(range) => range,
        Err(e) => return Err(e),
    };
    if end as usize > file.len() {
        return Err(ImageError::Decode);
    }
    match parse_trbk_page_ops(slice_subrange(file, start as usize, end as usize)) {
        Ok(ops) => Ok(crate::trbk::TrbkPage { ops }),
        Err(e) => Err(e),
    }
}

} // verus!
