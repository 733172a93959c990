//! The sleep screen: the wallpaper chosen from what was on screen (or the
//! most recent entry, or the logo), and the "Sleeping..." bar over it.

use vstd::prelude::*;
use crate::app::book_reader::BookReaderState;
use crate::app::image_viewer::ImageViewerState;
use crate::app::system::{position_names, rect_point, save_rect_bits, spec_recent_paths, SleepOverlay, SystemState};
use crate::app::screens::{full_rect, sleep_bar, sleep_overlay_rect, sleep_overlay_ops};
use crate::app::start_menu::{draw_views, MenuDraw, MenuDrawView};
use crate::framebuffer::{logical_height, logical_width, pixel_value, DisplayBuffers, Rotation, BUFFER_SIZE};
use crate::image_viewer::{AppSource, EntryKind, ImageData, ImageEntry};
use crate::text::{ends_with_ci, ends_with_ignore_case, path_segments, split_path};
use crate::reader_view::ReaderView;
use crate::render::{
    contain_drawn, icon_drawn, icon_fits, icon_marked_upto, image_plane_len, image_view_drawn, image_view_ok, max1,
    render_gray2_contain, draw_icon_gray2, GrayPlanes,
};
use crate::ui::Rect;

verus! {

/// The logo drawn when there is no wallpaper: its size and its two masks.
pub struct SleepWallpaperIcons<'a> {
    pub logo_w: i32,
    pub logo_h: i32,
    pub logo_dark: &'a [u8],
    pub logo_light: &'a [u8],
}

/// Two all-zero grayscale planes.
pub open spec fn zero_plane() -> Seq<u8> {
    Seq::new(BUFFER_SIZE as nat, |i: int| 0u8)
}

/// Images that can be drawn as a wallpaper without overflow.
pub open spec fn wallpaper_ok(image: ImageData, r: Rotation) -> bool {
    match image {
        ImageData::Gray2 { width, height, .. } => {
            &&& max1(width as int) * logical_height(r) <= u32::MAX
            &&& max1(height as int) * logical_width(r) <= u32::MAX
        },
        ImageData::Gray2Stream { width, height, .. } => width <= i32::MAX && height <= i32::MAX,
        _ => image_view_ok(image, r),
    }
}

/// `a` and `b` agree but for the wallpaper flags (grayscale wallpaper,
/// book kept open for it, sleep asked for from home).
pub open spec fn same_but_wallpaper(a: SystemState, b: SystemState) -> bool {
    &&& a.sleep_overlay == b.sleep_overlay
    &&& same_but_sleep_screen(a, b)
}

/// `a` and `b` agree but for the wallpaper flags and the saved overlay.
pub open spec fn same_but_sleep_screen(a: SystemState, b: SystemState) -> bool {
    &&& a.sleep_transition == b.sleep_transition
    &&& a.wake_transition == b.wake_transition
    &&& a.full_refresh == b.full_refresh
    &&& a.sleep_after_error == b.sleep_after_error
    &&& a.idle_ms == b.idle_ms
    &&& a.idle_timeout_ms == b.idle_timeout_ms
    &&& a.sleep_overlay_pending == b.sleep_overlay_pending
    &&& a.wake_restore_only == b.wake_restore_only
    &&& a.resume_name == b.resume_name
    &&& a.book_positions == b.book_positions
    &&& a.recent_entries == b.recent_entries
    &&& a.recent_dirty == b.recent_dirty
    &&& a.book_positions_dirty == b.book_positions_dirty
    &&& a.last_saved_resume == b.last_saved_resume
    &&& a.battery_percent == b.battery_percent
}

/// The display after a wallpaper image was drawn by `render_wallpaper`:
/// from the buffer `old_buf` and the grayscale flag `old_gray2` to `new_buf`,
/// the planes `lsb` and `msb` and the flag `new_gray2`.
#[verifier::opaque]
pub open spec fn wallpaper_drawn(
    r: Rotation,
    old_buf: Seq<u8>,
    new_buf: Seq<u8>,
    lsb: Seq<u8>,
    msb: Seq<u8>,
    old_gray2: bool,
    new_gray2: bool,
    image: ImageData,
) -> bool {
    match image {
        ImageData::Gray2 { width, height, data } => {
            let p = image_plane_len(width, height);
            if data@.len() >= 3 * p {
                &&& new_gray2
                &&& contain_drawn(
                    r,
                    old_buf,
                    new_buf,
                    zero_plane(),
                    lsb,
                    zero_plane(),
                    msb,
                    width,
                    height,
                    data@.subrange(0, p),
                    data@.subrange(p, 2 * p),
                    data@.subrange(2 * p, 3 * p),
                )
            } else {
                new_gray2 == old_gray2 && new_buf == old_buf && lsb == zero_plane() && msb
                    == zero_plane()
            }
        },
        // What the storage streams in is not known here.
        ImageData::Gray2Stream { .. } => true,
        _ => new_gray2 == old_gray2 && image_view_drawn(r, new_buf, image),
    }
}

/// The display after `render_sleep_fallback_logo`: the logo centred (when
/// its masks fit its size) over the buffer `old_buf`, giving `new_buf`, in
/// planes that were cleared (`lsb`, `msb`), the grayscale flag going from
/// `old_gray2` to `new_gray2`.
#[verifier::opaque]
pub open spec fn logo_drawn(
    r: Rotation,
    old_buf: Seq<u8>,
    new_buf: Seq<u8>,
    lsb: Seq<u8>,
    msb: Seq<u8>,
    old_gray2: bool,
    new_gray2: bool,
    logo: SleepWallpaperIcons,
) -> bool {
    let x = logo_x(logical_width(r), logo.logo_w as int);
    let y = logo_x(logical_height(r), logo.logo_h as int);
    let dark = logo.logo_dark@;
    let light = logo.logo_light@;
    let (w, h) = (logo.logo_w as int, logo.logo_h as int);
    if icon_fits(dark, light, w, h) {
        let used = icon_marked_upto(dark, light, w, 0, h);
        &&& icon_drawn(r, old_buf, new_buf, zero_plane(), lsb, zero_plane(), msb, false, used, x, y, w, h, dark, light)
        &&& new_gray2 == (old_gray2 || used)
    } else {
        &&& new_buf == old_buf
        &&& lsb == zero_plane()
        &&& msb == zero_plane()
        &&& new_gray2 == old_gray2
    }
}

/// Logos that can be centred and drawn without overflow.
pub open spec fn logo_ok(logo: SleepWallpaperIcons) -> bool {
    &&& logo.logo_w as int >= 800 - i32::MAX
    &&& logo.logo_h as int >= 800 - i32::MAX
    &&& logo.logo_w as int * logo.logo_h as int + 7 <= usize::MAX
}

impl SystemState {
    /// Draws `image` as the sleep wallpaper: a 2-bit image fitted to the
    /// screen into the buffer and the cleared grayscale planes (when its data
    /// holds all three planes), a streamed one loaded from storage centred
    /// into them, any other full screen on white. The grayscale flag is set
    /// when the planes were drawn.
    pub fn render_wallpaper<S: AppSource>(
        &mut self,
        source: &mut S,
        buffers: &mut DisplayBuffers,
        planes: &mut GrayPlanes,
        image: &ImageData,
    )
        requires
            old(buffers).wf(),
            old(planes).wf(),
            wallpaper_ok(*image, old(buffers).spec_rotation()),
        ensures
            final(buffers).wf(),
            final(planes).wf(),
            final(planes).used == old(planes).used,
            final(buffers).inactive_view() == old(buffers).inactive_view(),
            final(buffers).spec_rotation() == old(buffers).spec_rotation(),
            final(buffers).spec_active_flag() == old(buffers).spec_active_flag(),
            same_but_wallpaper(*old(self), *final(self)),
            final(self).sleep_wallpaper_trbk_open == old(self).sleep_wallpaper_trbk_open,
            final(self).sleep_from_home == old(self).sleep_from_home,
            (image is Gray2 || image is Gray2Stream) ==> old(self).sleep_wallpaper_gray2
                ==> final(self).sleep_wallpaper_gray2,
            !(image is Gray2 || image is Gray2Stream) ==> *final(planes) == *old(planes),
            wallpaper_drawn(
                old(buffers).spec_rotation(),
                old(buffers).active_view(),
                final(buffers).active_view(),
                final(planes).lsb@,
                final(planes).msb@,
                old(self).sleep_wallpaper_gray2,
                final(self).sleep_wallpaper_gray2,
                *image,
            ),
    {
        reveal(wallpaper_drawn);
        match image {
            ImageData::Gray2 { width, height, data } => {
                if draw_gray2_wallpaper(buffers, planes, *width, *height, data.as_slice()) {
                    self.sleep_wallpaper_gray2 = true;
                }
            },
            ImageData::Gray2Stream { width, height, key } => {
                if load_stream_wallpaper(source, buffers, planes, *width, *height, key.as_str()) {
                    self.sleep_wallpaper_gray2 = true;
                }
            },
            _ => {
                let (tw, th) = buffers.size();
                let mut reader = ReaderView::new(image);
                reader.refresh = crate::display::RefreshMode::Full;
                let _ = reader.render(buffers, Rect::new(0, 0, tw as i32, th as i32));
            },
        }
    }

    /// Draws the logo centred, clearing the grayscale planes first; the
    /// grayscale flag is set when the logo marked them.
    pub fn render_sleep_fallback_logo(
        &mut self,
        buffers: &mut DisplayBuffers,
        planes: &mut GrayPlanes,
        logo: &SleepWallpaperIcons,
    )
        requires
            old(buffers).wf(),
            old(planes).wf(),
            logo_ok(*logo),
        ensures
            final(buffers).wf(),
            final(planes).wf(),
            final(buffers).inactive_view() == old(buffers).inactive_view(),
            final(buffers).spec_rotation() == old(buffers).spec_rotation(),
            final(buffers).spec_active_flag() == old(buffers).spec_active_flag(),
            final(planes).used == old(planes).used,
            logo_drawn(
                old(buffers).spec_rotation(),
                old(buffers).active_view(),
                final(buffers).active_view(),
                final(planes).lsb@,
                final(planes).msb@,
                old(self).sleep_wallpaper_gray2,
                final(self).sleep_wallpaper_gray2,
                *logo,
            ),
            same_but_wallpaper(*old(self), *final(self)),
            final(self).sleep_wallpaper_trbk_open == old(self).sleep_wallpaper_trbk_open,
            final(self).sleep_from_home == old(self).sleep_from_home,
    {
        reveal(logo_drawn);
        planes.clear();
        let (tw, th) = buffers.size();
        let x = (tw as i32 - logo.logo_w) / 2;
        let y = (th as i32 - logo.logo_h) / 2;
        let was_used = planes.used;
        planes.used = false;
        draw_icon_gray2(buffers, planes, x, y, logo.logo_w, logo.logo_h, logo.logo_dark, logo.logo_light);
        if planes.used {
            self.sleep_wallpaper_gray2 = true;
        }
        planes.used = was_used;
    }
}

/// What kind of file a wallpaper path names, by its extension (any case).
pub open spec fn is_trbk_path(p: Seq<char>) -> bool {
    ends_with_ci(p, ".trbk"@)
}

pub open spec fn is_trimg_path(p: Seq<char>) -> bool {
    ends_with_ci(p, ".tri"@) || ends_with_ci(p, ".trimg"@)
}

impl SystemState {
    /// Loads the wallpaper of a recent entry given by its full path: the
    /// first image of a book (the book is kept open when that image is
    /// streamed from it, else closed), or a stored image. Paths without a
    /// file name, or naming neither, give nothing.
    pub fn load_sleep_wallpaper_from_path<S: AppSource>(&mut self, source: &mut S, path: &str) -> (r:
        Option<ImageData>)
        ensures
            path_segments(path@).len() == 0 ==> r is None,
            !is_trbk_path(path@) && !is_trimg_path(path@) ==> r is None,
            same_but_wallpaper(*old(self), *final(self)),
            final(self).sleep_wallpaper_gray2 == old(self).sleep_wallpaper_gray2,
            final(self).sleep_wallpaper_trbk_open == (old(self).sleep_wallpaper_trbk_open || (is_trbk_path(path@)
                    && r matches Some(ImageData::Gray2Stream { .. }))),
            final(self).sleep_from_home == old(self).sleep_from_home,
    {
        proof {
            reveal_strlit(".trbk");
            reveal_strlit(".tri");
            reveal_strlit(".trimg");
        }
        let mut parts = split_path(path);
        if parts.len() == 0 {
            return None;
        }
        let file = match parts.pop() {
            Some(f) => f,
            None => String::new(),
        };
        let entry = ImageEntry { name: file, kind: EntryKind::File };
        if ends_with_ignore_case(path, ".trbk") {
            let info = match source.open_trbk(parts.as_slice(), &entry) {
                Ok(info) => info,
                Err(_) => return None,
            };
            let image = if info.images.len() > 0 {
                match source.trbk_image(0) {
                    Ok(image) => Some(image),
                    Err(_) => None,
                }
            } else {
                None
            };
            let streamed = match &image {
                Some(ImageData::Gray2Stream { .. }) => true,
                _ => false,
            };
            if streamed {
                self.sleep_wallpaper_trbk_open = true;
            } else {
                source.close_trbk();
            }
            return image;
        }
        if ends_with_ignore_case(path, ".tri") || ends_with_ignore_case(path, ".trimg") {
            return match source.load(parts.as_slice(), &entry) {
                Ok(image) => Some(image),
                Err(_) => None,
            };
        }
        None
    }
}

/// The recent entries offered on the start menu, as `collect_recent_paths`
/// lists them.
pub open spec fn recents_of(s: SystemState, last_viewed_entry: Option<&String>) -> Seq<Seq<char>> {
    spec_recent_paths(
        s.recent_view(),
        match last_viewed_entry {
            Some(l) => Some(l@),
            None => None,
        },
        position_names(s.book_positions.ordered()),
    )
}

/// What `draw_sleep_wallpaper` drew, from the state `old_s` to `new_s`,
/// the buffer `old_buf` to `new_buf` and the planes `old_planes` to
/// `new_planes`, given the image on screen, whether a book is open, the
/// entry viewed last, whether the start menu is shown, and the logo.
#[verifier::opaque]
pub open spec fn wallpaper_chosen(
    old_s: SystemState,
    new_gray2: bool,
    new_from_home: bool,
    viewer_image: Option<ImageData>,
    book_open: bool,
    last_viewed_entry: Option<&String>,
    is_start_menu: bool,
    logo: SleepWallpaperIcons,
    r: Rotation,
    old_buf: Seq<u8>,
    new_buf: Seq<u8>,
    old_planes: GrayPlanes,
    new_planes: GrayPlanes,
) -> bool {
    let lsb = new_planes.lsb@;
    let msb = new_planes.msb@;
    let gray2 = new_gray2;
    match viewer_image {
        Some(image) => {
            &&& new_from_home == old_s.sleep_from_home
            &&& wallpaper_ok(image, r) ==> wallpaper_drawn(r, old_buf, new_buf, lsb, msb, false, gray2, image)
            &&& !wallpaper_ok(image, r) ==> new_buf == old_buf && new_planes == old_planes && !gray2
        },
        None => if book_open {
            new_from_home == old_s.sleep_from_home
        } else if !(is_start_menu || old_s.sleep_from_home) || recents_of(old_s, last_viewed_entry).len()
            == 0 {
            &&& !new_from_home
            &&& logo_drawn(r, old_buf, new_buf, lsb, msb, false, gray2, logo)
        } else {
            !new_from_home
        },
    }
}

impl SystemState {
    /// Draws the sleep wallpaper: the image on screen; else the first image
    /// of the open book; else, on the start menu or when sleep was asked
    /// for from home, the wallpaper of the most recent entry; else the logo.
    /// A book opened only for its wallpaper is closed again. Images too large
    /// to fit without overflow are skipped.
    pub fn draw_sleep_wallpaper<S: AppSource>(
        &mut self,
        source: &mut S,
        buffers: &mut DisplayBuffers,
        planes: &mut GrayPlanes,
        image_viewer: &mut ImageViewerState,
        book_reader: &BookReaderState,
        last_viewed_entry: Option<&String>,
        is_start_menu: bool,
        logo: &SleepWallpaperIcons,
    )
        requires
            old(buffers).wf(),
            old(planes).wf(),
            old(self).book_positions.wf(),
            logo_ok(*logo),
        ensures
            final(buffers).wf(),
            final(planes).wf(),
            final(planes).used == old(planes).used,
            final(buffers).inactive_view() == old(buffers).inactive_view(),
            final(buffers).spec_rotation() == old(buffers).spec_rotation(),
            final(buffers).spec_active_flag() == old(buffers).spec_active_flag(),
            final(image_viewer).image() == old(image_viewer).image(),
            same_but_wallpaper(*old(self), *final(self)),
            !final(self).sleep_wallpaper_trbk_open,
            wallpaper_chosen(
                *old(self),
                final(self).sleep_wallpaper_gray2,
                final(self).sleep_from_home,
                old(image_viewer).image(),
                book_reader.current_book is Some,
                last_viewed_entry,
                is_start_menu,
                *logo,
                old(buffers).spec_rotation(),
                old(buffers).active_view(),
                final(buffers).active_view(),
                *old(planes),
                *final(planes),
            ),
    {
        reveal(wallpaper_chosen);
        self.sleep_wallpaper_gray2 = false;
        self.sleep_wallpaper_trbk_open = false;
        if image_viewer.has_image() {
            if let Some(image) = image_viewer.take_image() {
                if check_wallpaper(&image, buffers) {
                    self.render_wallpaper(source, buffers, planes, &image);
                }
                image_viewer.restore_image(image);
            }
            return;
        }
        if book_reader.current_book.is_some() {
            if let Ok(image) = source.trbk_image(0) {
                if check_wallpaper(&image, buffers) {
                    self.render_wallpaper(source, buffers, planes, &image);
                }
            }
            return;
        }
        self.draw_home_wallpaper(source, buffers, planes, last_viewed_entry, is_start_menu, logo);
    }

    /// With nothing on screen: on the start menu or when sleep was asked
    /// for from home, the wallpaper of the most recent entry; else, or when
    /// it cannot be loaded, the logo.
    fn draw_home_wallpaper<S: AppSource>(
        &mut self,
        source: &mut S,
        buffers: &mut DisplayBuffers,
        planes: &mut GrayPlanes,
        last_viewed_entry: Option<&String>,
        is_start_menu: bool,
        logo: &SleepWallpaperIcons,
    )
        requires
            old(buffers).wf(),
            old(planes).wf(),
            old(self).book_positions.wf(),
            logo_ok(*logo),
            !old(self).sleep_wallpaper_trbk_open,
            !old(self).sleep_wallpaper_gray2,
        ensures
            final(buffers).wf(),
            final(planes).wf(),
            final(planes).used == old(planes).used,
            final(buffers).inactive_view() == old(buffers).inactive_view(),
            final(buffers).spec_rotation() == old(buffers).spec_rotation(),
            final(buffers).spec_active_flag() == old(buffers).spec_active_flag(),
            same_but_wallpaper(*old(self), *final(self)),
            !final(self).sleep_wallpaper_trbk_open,
            !final(self).sleep_from_home,
            !(is_start_menu || old(self).sleep_from_home) || recents_of(*old(self), last_viewed_entry).len()
                == 0 ==> logo_drawn(
                old(buffers).spec_rotation(),
                old(buffers).active_view(),
                final(buffers).active_view(),
                final(planes).lsb@,
                final(planes).msb@,
                false,
                final(self).sleep_wallpaper_gray2,
                *logo,
            ),
    {
        if is_start_menu || self.sleep_from_home {
            let recents = self.collect_recent_paths(last_viewed_entry);
            if recents.len() > 0 {
                if self.draw_recent_wallpaper(source, buffers, planes, recents[0].as_str()) {
                    self.sleep_from_home = false;
                    return;
                }
            }
        }
        self.sleep_from_home = false;
        self.render_sleep_fallback_logo(buffers, planes, logo);
    }

    /// Draws the wallpaper of the entry at `path`, when one can be loaded,
    /// and closes a book opened for it; answers whether one was loaded.
    fn draw_recent_wallpaper<S: AppSource>(
        &mut self,
        source: &mut S,
        buffers: &mut DisplayBuffers,
        planes: &mut GrayPlanes,
        path: &str,
    ) -> (r: bool)
        requires
            old(buffers).wf(),
            old(planes).wf(),
            !old(self).sleep_wallpaper_trbk_open,
        ensures
            final(buffers).wf(),
            final(planes).wf(),
            final(planes).used == old(planes).used,
            final(buffers).inactive_view() == old(buffers).inactive_view(),
            final(buffers).spec_rotation() == old(buffers).spec_rotation(),
            final(buffers).spec_active_flag() == old(buffers).spec_active_flag(),
            same_but_wallpaper(*old(self), *final(self)),
            !final(self).sleep_wallpaper_trbk_open,
            final(self).sleep_from_home == old(self).sleep_from_home,
            !r ==> *final(self) == *old(self) && *final(buffers) == *old(buffers) && *final(planes)
                == *old(planes),
    {
        if let Some(image) = self.load_sleep_wallpaper_from_path(source, path) {
            if check_wallpaper(&image, buffers) {
                self.render_wallpaper(source, buffers, planes, &image);
            }
            if self.sleep_wallpaper_trbk_open {
                source.close_trbk();
                self.sleep_wallpaper_trbk_open = false;
            }
            true
        } else {
            false
        }
    }
}

/// The pixels of `rect` in `buf` as `save_rect_bits` keeps them: 1 for
/// white, 0 for black, row by row.
pub open spec fn saved_pixels(r: Rotation, buf: Seq<u8>, rect: Rect) -> Seq<u8> {
    Seq::new(
        (rect.w * rect.h) as nat,
        |k: int|
            if pixel_value(r, buf, rect_point(rect, k).0, rect_point(rect, k).1) {
                1u8
            } else {
                0u8
            },
    )
}

/// What is left to do on the panel once the sleep screen was drawn into the
/// buffers: apply `ops` (the bar and its text), refresh `rect` (the whole
/// screen) with the full waveform, then, when `gray2`, show the grayscale
/// planes with the fast absolute waveform and copy the active buffer to the
/// inactive one.
pub struct SleepFrame {
    pub ops: Vec<MenuDraw>,
    pub rect: Rect,
    pub gray2: bool,
}

impl SystemState {
    /// Draws the sleep screen: the wallpaper on a white screen, and saves the
    /// pixels under the "Sleeping..." bar to restore them on wake; the bar
    /// itself is in the frame's draw operations.
    pub fn draw_sleep_overlay<S: AppSource>(
        &mut self,
        source: &mut S,
        buffers: &mut DisplayBuffers,
        planes: &mut GrayPlanes,
        image_viewer: &mut ImageViewerState,
        book_reader: &BookReaderState,
        last_viewed_entry: Option<&String>,
        is_start_menu: bool,
        logo: &SleepWallpaperIcons,
    ) -> (r: SleepFrame)
        requires
            old(buffers).wf(),
            old(planes).wf(),
            old(self).book_positions.wf(),
            logo_ok(*logo),
        ensures
            final(buffers).wf(),
            final(planes).wf(),
            final(planes).used == old(planes).used,
            final(buffers).inactive_view() == old(buffers).inactive_view(),
            final(buffers).spec_rotation() == old(buffers).spec_rotation(),
            final(buffers).spec_active_flag() == old(buffers).spec_active_flag(),
            final(image_viewer).image() == old(image_viewer).image(),
            same_but_sleep_screen(*old(self), *final(self)),
            !final(self).sleep_wallpaper_trbk_open,
            wallpaper_chosen(
                *old(self),
                final(self).sleep_wallpaper_gray2,
                final(self).sleep_from_home,
                old(image_viewer).image(),
                book_reader.current_book is Some,
                last_viewed_entry,
                is_start_menu,
                *logo,
                old(buffers).spec_rotation(),
                Seq::new(BUFFER_SIZE as nat, |i: int| 0xFFu8),
                final(buffers).active_view(),
                *old(planes),
                *final(planes),
            ),
            ({
                let rot = old(buffers).spec_rotation();
                let bar = sleep_bar(logical_width(rot), logical_height(rot));
                &&& final(self).sleep_overlay matches Some(o) && o.rect == bar && o.pixels@
                    == saved_pixels(rot, final(buffers).active_view(), bar)
                &&& draw_views(r.ops@) == seq![
                    MenuDrawView::FillRect { rect: bar, on: false },
                    MenuDrawView::Text {
                        x: (bar.x + 8) as i32,
                        y: (bar.y + 14) as i32,
                        text: "Sleeping..."@,
                        on: true,
                    },
                ]
                &&& r.rect == (Rect { x: 0, y: 0, w: logical_width(rot) as i32, h: logical_height(rot) as i32 })
            }),
            r.gray2 == final(self).sleep_wallpaper_gray2,
    {
        let rect = sleep_overlay_rect(buffers);
        buffers.clear_screen(0xFF);
        self.draw_sleep_wallpaper(
            source,
            buffers,
            planes,
            image_viewer,
            book_reader,
            last_viewed_entry,
            is_start_menu,
            logo,
        );
        let saved = save_rect_bits(buffers, rect);
        assert(saved@ =~= saved_pixels(buffers.spec_rotation(), buffers.active_view(), rect));
        self.sleep_overlay = Some(SleepOverlay { rect, pixels: saved });
        let ops = sleep_overlay_ops(rect);
        SleepFrame { ops, rect: full_rect(buffers), gray2: self.sleep_wallpaper_gray2 }
    }

    /// When the sleep screen is pending, draws it (see `draw_sleep_overlay`),
    /// puts the storage to sleep and clears the request; else nothing is
    /// drawn and nothing changes. The frame that comes back only shows what
    /// the buffers already hold, so the storage is not needed for it.
    pub fn process_sleep_overlay<S: AppSource>(
        &mut self,
        source: &mut S,
        buffers: &mut DisplayBuffers,
        planes: &mut GrayPlanes,
        image_viewer: &mut ImageViewerState,
        book_reader: &BookReaderState,
        last_viewed_entry: Option<&String>,
        is_start_menu: bool,
        logo: &SleepWallpaperIcons,
    ) -> (r: Option<SleepFrame>)
        requires
            old(buffers).wf(),
            old(planes).wf(),
            old(self).book_positions.wf(),
            logo_ok(*logo),
        ensures
            final(buffers).wf(),
            final(planes).wf(),
            final(image_viewer).image() == old(image_viewer).image(),
            !old(self).sleep_overlay_pending ==> r is None && *final(self) == *old(self)
                && *final(buffers) == *old(buffers) && *final(planes) == *old(planes),
            old(self).sleep_overlay_pending ==> r is Some && final(self).sleep_overlay is Some
                && !final(self).sleep_overlay_pending,
            same_but_sleep_screen(
                *old(self),
                SystemState { sleep_overlay_pending: old(self).sleep_overlay_pending, ..*final(self) },
            ),
    {
        if !self.sleep_overlay_pending {
            return None;
        }
        let frame = self.draw_sleep_overlay(
            source,
            buffers,
            planes,
            image_viewer,
            book_reader,
            last_viewed_entry,
            is_start_menu,
            logo,
        );
        source.sleep();
        self.clear_sleep_overlay_pending();
        Some(frame)
    }
}

/// Whether `image` can be drawn as a wallpaper without overflow.
pub fn check_wallpaper(image: &ImageData, buffers: &DisplayBuffers) -> (r: bool)
    ensures
        r == wallpaper_ok(*image, buffers.spec_rotation()),
{
    let (tw, th) = buffers.size();
    let fits = |w: u32, h: u32| -> (f: bool)
        ensures
            f == (max1(w as int) * logical_height(buffers.spec_rotation()) <= u32::MAX && max1(
                h as int,
            ) * logical_width(buffers.spec_rotation()) <= u32::MAX),
        {
            let w1: u64 = if w > 1 {
                w as u64
            } else {
                1
            };
            let h1: u64 = if h > 1 {
                h as u64
            } else {
                1
            };
            proof {
                assert(w1 * (th as u64) <= u64::MAX) by (nonlinear_arith)
                    requires
                        w1 <= u32::MAX,
                        th <= u32::MAX,
                ;
                assert(h1 * (tw as u64) <= u64::MAX) by (nonlinear_arith)
                    requires
                        h1 <= u32::MAX,
                        tw <= u32::MAX,
                ;
            }
            w1 * (th as u64) <= u32::MAX as u64 && h1 * (tw as u64) <= u32::MAX as u64
        };
    match image {
        ImageData::Gray2 { width, height, .. } => fits(*width, *height),
        ImageData::Gray2Stream { width, height, .. } => *width <= i32::MAX as u32 && *height
            <= i32::MAX as u32,
        ImageData::Gray8 { width, height, .. } => *width <= i32::MAX as u32 && *height
            <= i32::MAX as u32 && fits(*width, *height),
        ImageData::Mono1 { width, height, .. } => *width <= i32::MAX as u32 && *height
            <= i32::MAX as u32,
    }
}

/// Clears the grayscale planes and, when `data` holds all three planes of
/// a `width` by `height` image, fits it to the screen; answers whether it
/// was drawn.
fn draw_gray2_wallpaper(
    buffers: &mut DisplayBuffers,
    planes: &mut GrayPlanes,
    width: u32,
    height: u32,
    data: &[u8],
) -> (r: bool)
    requires
        old(buffers).wf(),
        old(planes).wf(),
        max1(width as int) * logical_height(old(buffers).spec_rotation()) <= u32::MAX,
        max1(height as int) * logical_width(old(buffers).spec_rotation()) <= u32::MAX,
    ensures
        final(buffers).wf(),
        final(planes).wf(),
        final(planes).used == old(planes).used,
        final(buffers).inactive_view() == old(buffers).inactive_view(),
        final(buffers).spec_rotation() == old(buffers).spec_rotation(),
        final(buffers).spec_active_flag() == old(buffers).spec_active_flag(),
        ({
            let p = image_plane_len(width, height);
            if data@.len() >= 3 * p {
                &&& r
                &&& contain_drawn(
                    old(buffers).spec_rotation(),
                    old(buffers).active_view(),
                    final(buffers).active_view(),
                    zero_plane(),
                    final(planes).lsb@,
                    zero_plane(),
                    final(planes).msb@,
                    width,
                    height,
                    data@.subrange(0, p),
                    data@.subrange(p, 2 * p),
                    data@.subrange(2 * p, 3 * p),
                )
            } else {
                &&& !r
                &&& final(buffers).active_view() == old(buffers).active_view()
                &&& final(planes).lsb@ == zero_plane()
                &&& final(planes).msb@ == zero_plane()
            }
        }),
{
    planes.clear();
    proof {
        assert((width as int) * (height as int) + 7 <= u64::MAX) by (nonlinear_arith)
            requires
                width <= u32::MAX,
                height <= u32::MAX,
        ;
    }
    let plane: u64 = ((width as u64) * (height as u64) + 7) / 8;
    if (data.len() as u64) / 3 < plane {
        return false;
    }
    let p = plane as usize;
    render_gray2_contain(
        buffers,
        planes,
        width,
        height,
        vstd::slice::slice_subrange(data, 0, p),
        vstd::slice::slice_subrange(data, p, 2 * p),
        vstd::slice::slice_subrange(data, 2 * p, 3 * p),
    );
    true
}

/// Clears the grayscale planes and streams a `width` by `height` image from
/// storage into the buffer and the planes, centred; answers whether the
/// source loaded it.
fn load_stream_wallpaper<S: AppSource>(
    source: &mut S,
    buffers: &mut DisplayBuffers,
    planes: &mut GrayPlanes,
    width: u32,
    height: u32,
    key: &str,
) -> (r: bool)
    requires
        old(buffers).wf(),
        old(planes).wf(),
        width <= i32::MAX,
        height <= i32::MAX,
    ensures
        final(buffers).wf(),
        final(planes).wf(),
        final(planes).used == old(planes).used,
        final(buffers).inactive_view() == old(buffers).inactive_view(),
        final(buffers).spec_rotation() == old(buffers).spec_rotation(),
        final(buffers).spec_active_flag() == old(buffers).spec_active_flag(),
{
    planes.clear();
    let (tw, th) = buffers.size();
    let dx = (tw as i32 - width as i32) / 2;
    let dy = (th as i32 - height as i32) / 2;
    let offset_x = if dx > 0 {
        dx
    } else {
        0
    };
    let offset_y = if dy > 0 {
        dy
    } else {
        0
    };
    let rotation = buffers.rotation();
    proof {
        buffers.lemma_wf_sizes();
    }
    let base = buffers.get_active_buffer_mut();
    let loaded = source.load_gray2_stream_region(
        key,
        width,
        height,
        rotation,
        base,
        planes.lsb.as_mut_slice(),
        planes.msb.as_mut_slice(),
        offset_x,
        offset_y,
    );
    loaded.is_ok()
}

/// Where a centred item of size `n` starts on a side of `total` pixels.
pub open spec fn logo_x(total: int, n: int) -> int {
    crate::render::tdiv(total - n, 2)
}

} // verus!
