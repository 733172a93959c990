//! Directory entries, decoded images, and the interfaces through which the
//! application reaches storage, books and power management.

use vstd::prelude::*;
use crate::framebuffer::Rotation;
use crate::trbk::{TrbkBook, TrbkBookInfo, TrbkPage};

verus! {

#[derive(Clone, Copy, Debug, PartialEq, Eq, Structural)]
pub enum EntryKind {
    Dir,
    File,
}

/// A listed directory entry.
#[derive(Clone, Debug)]
pub struct ImageEntry {
    pub name: String,
    pub kind: EntryKind,
}

impl ImageEntry {
    pub fn duplicate(&self) -> (r: ImageEntry)
        ensures
            r.name@ == self.name@,
            r.kind == self.kind,
    {
        ImageEntry { name: self.name.clone(), kind: self.kind }
    }
}

/// A decoded image.
#[derive(Clone, Debug)]
pub enum ImageData {
    /// 8-bit grayscale, row-major.
    Gray8 { width: u32, height: u32, pixels: Vec<u8> },
    /// Concatenated planes: base | lsb | msb.
    Gray2 { width: u32, height: u32, data: Vec<u8> },
    /// A grayscale image streamed from storage on demand.
    Gray2Stream { width: u32, height: u32, key: String },
    /// 1-bit packed, row-major, MSB first; set bits are white.
    Mono1 { width: u32, height: u32, bits: Vec<u8> },
}

/// The mathematical content of an image.
pub enum ImageView {
    Gray8 { width: u32, height: u32, pixels: Seq<u8> },
    Gray2 { width: u32, height: u32, data: Seq<u8> },
    Gray2Stream { width: u32, height: u32, key: Seq<char> },
    Mono1 { width: u32, height: u32, bits: Seq<u8> },
}

impl View for ImageData {
    type V = ImageView;

    open spec fn view(&self) -> ImageView {
        match self {
            ImageData::Gray8 { width, height, pixels } => ImageView::Gray8 {
                width: *width,
                height: *height,
                pixels: pixels@,
            },
            ImageData::Gray2 { width, height, data } => ImageView::Gray2 {
                width: *width,
                height: *height,
                data: data@,
            },
            ImageData::Gray2Stream { width, height, key } => ImageView::Gray2Stream {
                width: *width,
                height: *height,
                key: key@,
            },
            ImageData::Mono1 { width, height, bits } => ImageView::Mono1 {
                width: *width,
                height: *height,
                bits: bits@,
            },
        }
    }
}

impl ImageData {
    /// A copy with the same content.
    pub fn duplicate(&self) -> (r: ImageData)
        ensures
            r@ == self@,
    {
        match self {
            ImageData::Gray8 { width, height, pixels } => ImageData::Gray8 {
                width: *width,
                height: *height,
                pixels: pixels.clone(),
            },
            ImageData::Gray2 { width, height, data } => ImageData::Gray2 {
                width: *width,
                height: *height,
                data: data.clone(),
            },
            ImageData::Gray2Stream { width, height, key } => ImageData::Gray2Stream {
                width: *width,
                height: *height,
                key: key.clone(),
            },
            ImageData::Mono1 { width, height, bits } => ImageData::Mono1 {
                width: *width,
                height: *height,
                bits: bits.clone(),
            },
        }
    }

    /// Width and height, whatever the encoding.
    pub fn dimensions(&self) -> (r: (u32, u32))
        ensures
            r == image_dimensions(self@),
    {
        match self {
            ImageData::Gray8 { width, height, .. } => (*width, *height),
            ImageData::Gray2 { width, height, .. } => (*width, *height),
            ImageData::Gray2Stream { width, height, .. } => (*width, *height),
            ImageData::Mono1 { width, height, .. } => (*width, *height),
        }
    }
}

pub open spec fn image_dimensions(v: ImageView) -> (u32, u32) {
    match v {
        ImageView::Gray8 { width, height, .. } => (width, height),
        ImageView::Gray2 { width, height, .. } => (width, height),
        ImageView::Gray2Stream { width, height, .. } => (width, height),
        ImageView::Mono1 { width, height, .. } => (width, height),
    }
}

#[derive(Clone, Debug)]
pub enum ImageError {
    Io,
    Decode,
    Unsupported,
    Message(String),
}

/// Lists directories and loads images.
pub trait ImageSource {
    fn refresh(&mut self, path: &[String]) -> Result<Vec<ImageEntry>, ImageError>;

    fn load(&mut self, path: &[String], entry: &ImageEntry) -> Result<ImageData, ImageError>;
}

/// Opens books and hands out their pages and images.
pub trait BookSource {
    fn load_trbk(&mut self, path: &[String], entry: &ImageEntry) -> Result<TrbkBook, ImageError> {
        Err(ImageError::Unsupported)
    }

    fn open_trbk(&mut self, path: &[String], entry: &ImageEntry) -> Result<
        TrbkBookInfo,
        ImageError,
    > {
        Err(ImageError::Unsupported)
    }

    fn trbk_page(&mut self, page_index: usize) -> Result<TrbkPage, ImageError> {
        Err(ImageError::Unsupported)
    }

    fn trbk_image(&mut self, image_index: usize) -> Result<ImageData, ImageError> {
        Err(ImageError::Unsupported)
    }

    fn close_trbk(&mut self) {
    }
}

/// Streams large grayscale images straight into the display planes. A
/// region is drawn with its top left corner at (`dst_x`, `dst_y`) and
/// leaves the buffer outside its `width` by `height` rectangle alone.
pub trait Gray2StreamSource {
    fn load_gray2_stream(
        &mut self,
        key: &str,
        width: u32,
        height: u32,
        rotation: Rotation,
        base: &mut [u8],
        lsb: &mut [u8],
        msb: &mut [u8],
    ) -> (r: Result<(), ImageError>)
        ensures
            final(base)@.len() == old(base)@.len(),
            final(lsb)@.len() == old(lsb)@.len(),
            final(msb)@.len() == old(msb)@.len(),
    {
        Err(ImageError::Unsupported)
    }

    fn load_gray2_stream_region(
        &mut self,
        key: &str,
        width: u32,
        height: u32,
        rotation: Rotation,
        base: &mut [u8],
        lsb: &mut [u8],
        msb: &mut [u8],
        dst_x: i32,
        dst_y: i32,
    ) -> (r: Result<(), ImageError>)
        ensures
            final(base)@.len() == old(base)@.len(),
            final(lsb)@.len() == old(lsb)@.len(),
            final(msb)@.len() == old(msb)@.len(),
            forall|px: int, py: int|
                crate::framebuffer::spec_map_display_point(rotation, px, py) is Some && !(dst_x <= px
                    < dst_x + width && dst_y <= py < dst_y + height) ==> #[trigger] crate::framebuffer::pixel_value(
                    rotation,
                    final(base)@,
                    px,
                    py,
                ) == crate::framebuffer::pixel_value(rotation, old(base)@, px, py),
    {
        Err(ImageError::Unsupported)
    }

    fn load_gray2_stream_thumbnail(
        &mut self,
        key: &str,
        width: u32,
        height: u32,
        thumb_w: u32,
        thumb_h: u32,
    ) -> Option<ImageData> {
        None
    }
}

/// Persists resume state, reading positions, recent entries and thumbnails.
pub trait PersistenceSource {
    fn save_resume(&mut self, name: Option<&str>) {
    }

    fn load_resume(&mut self) -> Option<String> {
        None
    }

    fn save_book_positions(&mut self, entries: &[(String, usize)]) {
    }

    fn load_book_positions(&mut self) -> Vec<(String, usize)> {
        Vec::new()
    }

    fn save_recent_entries(&mut self, entries: &[String]) {
    }

    fn load_recent_entries(&mut self) -> Vec<String> {
        Vec::new()
    }

    fn load_thumbnail(&mut self, key: &str) -> Option<ImageData> {
        None
    }

    fn save_thumbnail(&mut self, key: &str, image: &ImageData) {
    }

    fn load_thumbnail_title(&mut self, key: &str) -> Option<String> {
        None
    }

    fn save_thumbnail_title(&mut self, key: &str, title: &str) {
    }
}

/// Puts the storage to sleep and wakes it.
pub trait PowerSource {
    fn sleep(&mut self) {
    }

    fn wake(&mut self) {
    }
}

/// Everything the application needs from its platform.
pub trait AppSource: ImageSource + BookSource + Gray2StreamSource + PersistenceSource +
    PowerSource {

}

impl<T> AppSource for T where
    T: ImageSource + BookSource + Gray2StreamSource + PersistenceSource + PowerSource,
 {

}

} // verus!
