//! A view that shows one image over the whole screen.

use vstd::prelude::*;
use crate::display::RefreshMode;
use crate::framebuffer::DisplayBuffers;
use crate::image_viewer::ImageData;
use crate::render::{image_view_drawn, image_view_ok, render_image};
use crate::ui::Rect;

verus! {

/// An image shown full screen, and how its area is refreshed.
pub struct ReaderView<'a> {
    pub image: &'a ImageData,
    pub refresh: RefreshMode,
}

impl<'a> ReaderView<'a> {
    /// A view of `image`, refreshed with the full waveform.
    pub fn new(image: &'a ImageData) -> (r: Self)
        ensures
            r.image == image,
            r.refresh == RefreshMode::Full,
    {
        ReaderView { image, refresh: RefreshMode::Full }
    }

    /// Draws the image on a white screen and answers the area to refresh
    /// and the mode to refresh it in.
    pub fn render(&self, buffers: &mut DisplayBuffers, rect: Rect) -> (r: (Rect, RefreshMode))
        requires
            old(buffers).wf(),
            image_view_ok(*self.image, old(buffers).spec_rotation()),
        ensures
            final(buffers).wf(),
            final(buffers).inactive_view() == old(buffers).inactive_view(),
            final(buffers).spec_rotation() == old(buffers).spec_rotation(),
            final(buffers).spec_active_flag() == old(buffers).spec_active_flag(),
            image_view_drawn(old(buffers).spec_rotation(), final(buffers).active_view(), *self.image),
            r == (rect, self.refresh),
    {
        render_image(buffers, self.image);
        (rect, self.refresh)
    }
}

} // verus!
