//! The image currently shown full screen.

use vstd::prelude::*;
use crate::framebuffer::{logical_height, logical_width, DisplayBuffers, BUFFER_SIZE};
use crate::image_viewer::{AppSource, ImageData, ImageEntry, ImageError};
use crate::render::{contain_drawn, max1, render_gray2_contain, GrayPlanes};

verus! {

pub struct ImageViewerState {
    current_image: Option<ImageData>,
}

impl ImageViewerState {
    pub closed spec fn image(&self) -> Option<ImageData> {
        self.current_image
    }

    pub fn new() -> (r: Self)
        ensures
            r.image() is None,
    {
        ImageViewerState { current_image: None }
    }

    pub fn set_image(&mut self, image: ImageData)
        ensures
            final(self).image() == Some(image),
    {
        self.current_image = Some(image);
    }

    /// Loads an entry from the source and shows it; on failure the source's
    /// error is returned and the shown image is kept.
    pub fn open<S: AppSource>(&mut self, source: &mut S, path: &[String], entry: &ImageEntry) -> (r:
        Result<(), ImageError>)
        ensures
            r is Ok ==> final(self).image() is Some,
            r is Err ==> *final(self) == *old(self),
    {
        let image = match source.load(path, entry) {
            Ok(image) => image,
            Err(e) => return Err(e),
        };
        self.current_image = Some(image);
        Ok(())
    }

    pub fn clear(&mut self)
        ensures
            final(self).image() is None,
    {
        self.current_image = None;
    }

    pub fn has_image(&self) -> (r: bool)
        ensures
            r == self.image() is Some,
    {
        self.current_image.is_some()
    }

    /// Hands the image out, leaving none shown.
    pub fn take_image(&mut self) -> (r: Option<ImageData>)
        ensures
            r == old(self).image(),
            final(self).image() is None,
    {
        self.current_image.take()
    }

    /// Puts back an image handed out by `take_image`.
    pub fn restore_image(&mut self, image: ImageData)
        ensures
            final(self).image() == Some(image),
    {
        self.current_image = Some(image);
    }
}

/// What a draw of the viewer left on the display buffers.
#[derive(Clone, Copy, Debug, PartialEq, Eq, Structural)]
pub enum ViewerFrame {
    /// Nothing new: the screen is only to be refreshed from the buffers.
    RestoreOnly,
    /// Nothing drawn.
    Nothing,
    /// A grayscale image in the buffer and the planes, both buffers alike.
    Grayscale,
    /// A 1-bit or 8-bit image, left to the image view to draw.
    Plain,
}

/// Whether a 2-bit image can be fitted to the display without overflow.
pub open spec fn gray2_fits(image: Option<ImageData>, buffers: DisplayBuffers) -> bool {
    image matches Some(ImageData::Gray2 { width, height, .. }) ==> {
        &&& max1(width as int) * logical_height(buffers.spec_rotation()) <= u32::MAX
        &&& max1(height as int) * logical_width(buffers.spec_rotation()) <= u32::MAX
    }
}

impl ImageViewerState {
    /// Whether the shown image can be fitted to the display without
    /// overflow (see `gray2_fits`).
    pub fn check_gray2_fits(&self, buffers: &DisplayBuffers) -> (r: bool)
        ensures
            r == gray2_fits(self.image(), *buffers),
    {
        match &self.current_image {
            Some(ImageData::Gray2 { width, height, .. }) => {
                let (tw, th) = buffers.size();
                let w1: u64 = if *width > 1 {
                    *width as u64
                } else {
                    1
                };
                let h1: u64 = if *height > 1 {
                    *height as u64
                } else {
                    1
                };
                proof {
                    assert(w1 * (th as u64) <= u64::MAX) by (nonlinear_arith)
                        requires
                            w1 <= u32::MAX,
                            th <= u32::MAX,
                    ;
                    assert(h1 * (tw as u64) <= u64::MAX) by (nonlinear_arith)
                        requires
                            h1 <= u32::MAX,
                            tw <= u32::MAX,
                    ;
                }
                w1 * (th as u64) <= u32::MAX as u64 && h1 * (tw as u64) <= u32::MAX as u64
            },
            _ => true,
        }
    }

    /// Draws the shown image into the display buffers: after a wake only a
    /// refresh is asked for; a 2-bit image is fitted to the screen into the
    /// buffer and the planes; a streamed one must have the screen's size and
    /// is loaded from storage; others are left to the image view.
    pub fn draw<S: AppSource>(
        &mut self,
        buffers: &mut DisplayBuffers,
        planes: &mut GrayPlanes,
        source: &mut S,
        wake_restore_only: &mut bool,
    ) -> (r: Result<ViewerFrame, ImageError>)
        requires
            old(buffers).wf(),
            old(planes).wf(),
            gray2_fits(old(self).image(), *old(buffers)),
        ensures
            final(buffers).wf(),
            final(planes).wf(),
            !*final(wake_restore_only),
            final(buffers).spec_rotation() == old(buffers).spec_rotation(),
            *old(wake_restore_only) ==> r == Ok::<ViewerFrame, ImageError>(ViewerFrame::RestoreOnly)
                && final(self).image() == old(self).image(),
            !*old(wake_restore_only) ==> match old(self).image() {
                None => r == Err::<ViewerFrame, ImageError>(ImageError::Decode),
                Some(ImageData::Gray2 { width, height, data }) => {
                    if data@.len() < 3 * crate::render::image_plane_len(width, height) {
                        r == Ok::<ViewerFrame, ImageError>(ViewerFrame::Nothing)
                            && final(self).image() is None
                    } else {
                        let p = crate::render::image_plane_len(width, height);
                        &&& r == Ok::<ViewerFrame, ImageError>(ViewerFrame::Grayscale)
                        &&& final(self).image() == old(self).image()
                        &&& final(buffers).inactive_view() == final(buffers).active_view()
                        &&& contain_drawn(
                            old(buffers).spec_rotation(),
                            Seq::new(BUFFER_SIZE as nat, |i: int| 0xFFu8),
                            final(buffers).active_view(),
                            Seq::new(BUFFER_SIZE as nat, |i: int| 0u8),
                            final(planes).lsb@,
                            Seq::new(BUFFER_SIZE as nat, |i: int| 0u8),
                            final(planes).msb@,
                            width,
                            height,
                            data@.subrange(0, p),
                            data@.subrange(p, 2 * p),
                            data@.subrange(2 * p, 3 * p),
                        )
                    }
                },
                Some(ImageData::Gray2Stream { width, height, .. }) => {
                    if crate::render::image_plane_len(width, height) > BUFFER_SIZE {
                        r matches Err(ImageError::Message(m)) && m@
                            == "Image size not supported on device."@
                            && final(self).image() is None
                    } else if width != logical_width(old(buffers).spec_rotation()) || height
                        != logical_height(old(buffers).spec_rotation()) {
                        r matches Err(ImageError::Message(m)) && m@
                            == "Grayscale images must match display size."@
                            && final(self).image() is None
                    } else {
                        (r == Ok::<ViewerFrame, ImageError>(ViewerFrame::Grayscale)
                            && final(self).image() == old(self).image()
                            && final(buffers).inactive_view() == final(buffers).active_view())
                            || (r == Err::<ViewerFrame, ImageError>(ImageError::Decode)
                            && final(self).image() is None)
                    }
                },
                Some(_) => r == Ok::<ViewerFrame, ImageError>(ViewerFrame::Plain)
                    && final(self).image() == old(self).image(),
            },
    {
        if *wake_restore_only {
            *wake_restore_only = false;
            return Ok(ViewerFrame::RestoreOnly);
        }
        let image = match self.current_image.take() {
            Some(image) => image,
            None => return Err(ImageError::Decode),
        };
        match &image {
            ImageData::Gray2 { width, height, data } => {
                proof {
                    assert((*width as int) * (*height as int) + 7 <= u64::MAX) by (nonlinear_arith)
                        requires
                            *width <= u32::MAX,
                            *height <= u32::MAX,
                    ;
                }
                let plane: u64 = ((*width as u64) * (*height as u64) + 7) / 8;
                if (data.len() as u64) / 3 < plane {
                    return Ok(ViewerFrame::Nothing);
                }
                let p = plane as usize;
                buffers.clear_screen(0xFF);
                planes.clear();
                render_gray2_contain(
                    buffers,
                    planes,
                    *width,
                    *height,
                    vstd::slice::slice_subrange(data.as_slice(), 0, p),
                    vstd::slice::slice_subrange(data.as_slice(), p, 2 * p),
                    vstd::slice::slice_subrange(data.as_slice(), 2 * p, 3 * p),
                );
                buffers.copy_active_to_inactive();
            },
            ImageData::Gray2Stream { width, height, key } => {
                proof {
                    assert((*width as int) * (*height as int) + 7 <= u64::MAX) by (nonlinear_arith)
                        requires
                            *width <= u32::MAX,
                            *height <= u32::MAX,
                    ;
                }
                let plane: u64 = ((*width as u64) * (*height as u64) + 7) / 8;
                if plane > BUFFER_SIZE as u64 {
                    return Err(ImageError::Message(String::from_str("Image size not supported on device.")));
                }
                let rotation = buffers.rotation();
                let (sw, sh) = buffers.size();
                if *width != sw || *height != sh {
                    return Err(ImageError::Message(String::from_str("Grayscale images must match display size.")));
                }
                buffers.clear_screen(0xFF);
                planes.clear();
                let base = buffers.get_active_buffer_mut();
                let loaded = source.load_gray2_stream(
                    key.as_str(),
                    *width,
                    *height,
                    rotation,
                    base,
                    planes.lsb.as_mut_slice(),
                    planes.msb.as_mut_slice(),
                );
                if loaded.is_err() {
                    return Err(ImageError::Decode);
                }
                buffers.copy_active_to_inactive();
            },
            _ => {},
        }
        let frame = match &image {
            ImageData::Gray2 { .. } => ViewerFrame::Grayscale,
            ImageData::Gray2Stream { .. } => ViewerFrame::Grayscale,
            _ => ViewerFrame::Plain,
        };
        self.current_image = Some(image);
        Ok(frame)
    }
}

/// Taking the image and restoring it leaves the viewer as it was.
pub proof fn lemma_take_restore(before: ImageViewerState, taken: Option<ImageData>, after: ImageViewerState)
    requires
        taken == before.image(),
        taken is Some,
        after.image() == Some(taken->0),
    ensures
        after.image() == before.image(),
{
}

} // verus!
