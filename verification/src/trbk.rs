//! In-memory form of a TRBK book: metadata, table of contents, glyphs,
//! embedded images and the draw operations of a page.

use vstd::prelude::*;

verus! {

/// Book metadata stored in the TRBK header.
#[derive(Clone, Debug)]
pub struct TrbkMetadata {
    pub title: String,
    pub author: String,
    pub language: String,
    pub identifier: String,
    pub font_name: String,
    pub char_width: u16,
    pub line_height: u16,
    pub ascent: i16,
    pub margin_left: u16,
    pub margin_right: u16,
    pub margin_top: u16,
    pub margin_bottom: u16,
}

/// One table-of-contents entry.
#[derive(Clone, Debug)]
pub struct TrbkTocEntry {
    pub title: String,
    pub page_index: u32,
    pub level: u8,
}

/// A pre-rendered glyph: a 1-bit bitmap, plus two grayscale planes when
/// the glyph is antialiased.
#[derive(Clone, Debug)]
pub struct TrbkGlyph {
    pub codepoint: u32,
    pub style: u8,
    pub width: u8,
    pub height: u8,
    pub x_advance: i16,
    pub x_offset: i16,
    pub y_offset: i16,
    pub bitmap_bw: Vec<u8>,
    pub bitmap_lsb: Option<Vec<u8>>,
    pub bitmap_msb: Option<Vec<u8>>,
}

/// Location and size of an embedded image.
#[derive(Clone, Copy, Debug)]
pub struct TrbkImageInfo {
    pub data_offset: u32,
    pub data_len: u32,
    pub width: u16,
    pub height: u16,
}

/// Everything about an open book except its pages.
#[derive(Clone, Debug)]
pub struct TrbkBookInfo {
    pub screen_width: u16,
    pub screen_height: u16,
    pub page_count: usize,
    pub metadata: TrbkMetadata,
    pub glyphs: Vec<TrbkGlyph>,
    pub toc: Vec<TrbkTocEntry>,
    pub images: Vec<TrbkImageInfo>,
}

/// One draw operation of a page.
#[derive(Clone, Debug)]
pub enum TrbkOp {
    TextRun { x: i32, y: i32, style: u8, text: String },
    Image { x: i32, y: i32, width: u16, height: u16, image_index: u32 },
}

/// The draw operations of one page.
#[derive(Clone, Debug)]
pub struct TrbkPage {
    pub ops: Vec<TrbkOp>,
}

/// A whole book held in memory.
#[derive(Clone, Debug)]
pub struct TrbkBook {
    pub info: TrbkBookInfo,
    pub pages: Vec<TrbkPage>,
}

} // verus!
