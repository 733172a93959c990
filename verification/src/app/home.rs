//! The start menu (recent entries and actions) and the file browser.

use vstd::prelude::*;
use crate::image_viewer::{AppSource, EntryKind, ImageData, ImageEntry, ImageError};
use crate::input::{ButtonState, Buttons};
use crate::text::{
    chars_of, concat, copy_str, ends_with_ci, ends_with_ignore_case, join_path, join_slash, path_segments,
    split_path, str_eq, string_from_chars, string_views,
};
use crate::app::thumbnail::{is_white, pixel_count, plane_len, sample_lum, thumbnail_from_image, thumbnail_to_mono};
use crate::bitmap::bits_match;
use crate::framebuffer::{DisplayBuffers, BUFFER_SIZE};
use crate::display::RefreshMode;
use crate::ui::{ListScreen, ListScreenView};
use crate::image_viewer::{image_dimensions, ImageView};

verus! {

/// Number of action tiles on the start menu.
pub const START_MENU_ACTIONS: usize = 3;

#[derive(Clone, Copy, Debug, PartialEq, Eq, Structural)]
pub enum StartMenuSection {
    Recents,
    Actions,
}

#[derive(Clone, Copy, Debug, PartialEq, Eq, Structural)]
pub enum StartMenuAction {
    FileBrowser,
    Settings,
    Battery,
}

/// A recent entry as shown on the start menu.
pub struct RecentPreview {
    pub path: String,
    pub title: String,
    pub image: Option<ImageData>,
}

pub struct HomeState {
    pub entries: Vec<ImageEntry>,
    pub selected: usize,
    pub path: Vec<String>,
    pub start_menu_section: StartMenuSection,
    pub start_menu_index: usize,
    pub start_menu_prev_section: StartMenuSection,
    pub start_menu_prev_index: usize,
    pub start_menu_cache: Vec<RecentPreview>,
    pub start_menu_nav_pending: bool,
    pub start_menu_need_base_refresh: bool,
}

#[derive(Debug)]
pub enum HomeOpenError {
    Empty,
}

#[derive(Debug)]
pub enum HomeOpen {
    EnterDir,
    OpenFile(ImageEntry),
}

/// What a key press on the start menu asks for.
pub enum HomeAction {
    Nothing,
    OpenRecent(String),
    OpenFileBrowser,
    OpenSettings,
}

/// What a key press in the file browser asks for.
pub enum MenuAction {
    Nothing,
    OpenSelected,
    Back,
    Dirty,
}

/// Side of the square thumbnails on the start menu.
pub const START_MENU_RECENT_THUMB: u32 = 74;

/// What follows the last '/' of a path (all of it when there is none).
pub open spec fn spec_basename(s: Seq<char>) -> Seq<char>
    decreases s.len(),
{
    if s.len() == 0 {
        s
    } else if s.last() == '/' {
        seq![]
    } else {
        spec_basename(s.drop_last()).push(s.last())
    }
}

/// The last piece of a path, `path.rsplit('/').next()`.
pub fn basename_from_path(path: &str) -> (r: String)
    ensures
        r@ == spec_basename(path@),
{
    let cs = chars_of(path);
    let mut start: usize = cs.len();
    assert(cs@.take(start as int) =~= cs@);
    assert(cs@.skip(start as int) =~= Seq::<char>::empty());
    assert(spec_basename(path@) =~= spec_basename(cs@.take(start as int)) + cs@.skip(
        start as int,
    ));
    while start > 0 && cs[start - 1] != '/'
        invariant
            start <= cs@.len(),
            cs@ == path@,
            spec_basename(path@) == spec_basename(cs@.take(start as int)) + cs@.skip(
                start as int,
            ),
        decreases start,
    {
        assert(cs@.take(start as int).drop_last() =~= cs@.take(start - 1));
        assert(cs@.skip(start - 1) =~= seq![cs@[start - 1]] + cs@.skip(start as int));
        start = start - 1;
    }
    proof {
        if start > 0 {
            assert(cs@.take(start as int).last() == '/');
        }
        assert(spec_basename(cs@.take(start as int)) =~= Seq::<char>::empty());
    }
    let mut out: Vec<char> = Vec::new();
    let mut i = start;
    while i < cs.len()
        invariant
            start <= i <= cs@.len(),
            out@ == cs@.subrange(start as int, i as int),
        decreases cs@.len() - i,
    {
        out.push(cs[i]);
        i = i + 1;
    }
    assert(out@ =~= cs@.skip(start as int));
    assert(spec_basename(path@) =~= cs@.skip(start as int));
    string_from_chars(out.as_slice())
}

/// Adds every black pixel of the active buffer to both grayscale planes
/// (so that black text drawn in 1-bit shows as black in grayscale). Bytes
/// of the planes past the frame are left as they are.
pub fn merge_bw_into_gray2(display_buffers: &DisplayBuffers, gray2_lsb: &mut [u8], gray2_msb: &mut [u8])
    requires
        display_buffers.wf(),
        old(gray2_lsb)@.len() >= BUFFER_SIZE,
        old(gray2_msb)@.len() >= BUFFER_SIZE,
    ensures
        final(gray2_lsb)@ == merged_plane(old(gray2_lsb)@, display_buffers.active_view()),
        final(gray2_msb)@ == merged_plane(old(gray2_msb)@, display_buffers.active_view()),
{
    let active = display_buffers.get_active_buffer();
    let mut i: usize = 0;
    while i < BUFFER_SIZE
        invariant
            i <= BUFFER_SIZE,
            active@ == display_buffers.active_view(),
            active@.len() == BUFFER_SIZE,
            gray2_lsb@.len() == old(gray2_lsb)@.len(),
            gray2_msb@.len() == old(gray2_msb)@.len(),
            old(gray2_lsb)@.len() >= BUFFER_SIZE,
            old(gray2_msb)@.len() >= BUFFER_SIZE,
            forall|j: int| 0 <= j < i ==> gray2_lsb@[j] == old(gray2_lsb)@[j] | !active@[j],
            forall|j: int| 0 <= j < i ==> gray2_msb@[j] == old(gray2_msb)@[j] | !active@[j],
            forall|j: int| i <= j < gray2_lsb@.len() ==> gray2_lsb@[j] == old(gray2_lsb)@[j],
            forall|j: int| i <= j < gray2_msb@.len() ==> gray2_msb@[j] == old(gray2_msb)@[j],
        decreases BUFFER_SIZE - i,
    {
        let black = !active[i];
        let l = gray2_lsb[i];
        gray2_lsb[i] = l | black;
        let m = gray2_msb[i];
        gray2_msb[i] = m | black;
        i = i + 1;
    }
    assert(gray2_lsb@ =~= merged_plane(old(gray2_lsb)@, display_buffers.active_view()));
    assert(gray2_msb@ =~= merged_plane(old(gray2_msb)@, display_buffers.active_view()));
}

/// A grayscale plane with every black pixel of `active` added to its
/// first `BUFFER_SIZE` bytes; later bytes unchanged.
pub open spec fn merged_plane(plane: Seq<u8>, active: Seq<u8>) -> Seq<u8> {
    Seq::new(
        plane.len(),
        |i: int|
            if i < BUFFER_SIZE {
                plane[i] | !active[i]
            } else {
                plane[i]
            },
    )
}

/// Whether an image satisfies the size limits of the thumbnail scaler.
pub open spec fn thumbnail_fits(v: ImageView, size: u32) -> bool {
    &&& (size as int) * (image_dimensions(v).0 as int) <= u32::MAX
    &&& (size as int) * (image_dimensions(v).1 as int) <= u32::MAX
    &&& pixel_count(v) <= u32::MAX
    &&& pixel_count(v) + 7 <= usize::MAX
    &&& v matches ImageView::Mono1 { bits, .. } ==> bits.len() * 8 >= pixel_count(v)
}

fn check_thumbnail_fits(image: &ImageData, size: u32) -> (r: bool)
    ensures
        r == thumbnail_fits(image@, size),
{
    let (w, h) = image.dimensions();
    proof {
        lemma_u32_product(size, w);
        lemma_u32_product(size, h);
        lemma_u32_product(w, h);
    }
    let sw = (size as u64) * (w as u64);
    let sh = (size as u64) * (h as u64);
    let px = (w as u64) * (h as u64);
    if sw > 0xFFFF_FFFF || sh > 0xFFFF_FFFF || px > 0xFFFF_FFFF || px + 7 > usize::MAX as u64 {
        return false;
    }
    match image {
        ImageData::Mono1 { bits, .. } => (bits.len() as u64) >= (px + 7) / 8,
        _ => true,
    }
}

proof fn lemma_u32_product(a: u32, b: u32)
    ensures
        (a as int) * (b as int) <= 0xFFFF_FFFE_0000_0001,
        (a as int) * (b as int) >= 0,
{
    assert((a as int) * (b as int) <= 0xFFFF_FFFFint * 0xFFFF_FFFFint) by (nonlinear_arith)
        requires
            0 <= a <= 0xFFFF_FFFFint,
            0 <= b <= 0xFFFF_FFFFint,
    ;
    assert((a as int) * (b as int) >= 0) by (nonlinear_arith)
        requires
            0 <= a,
            0 <= b,
    ;
}

/// A `START_MENU_RECENT_THUMB`-sized thumbnail of an image, when the image
/// has pixels and fits the scaler's limits.
fn scaled_thumbnail(image: &ImageData) -> (r: Option<ImageData>)
    ensures
        ({
            let size = START_MENU_RECENT_THUMB;
            let (w, h) = image_dimensions(image@);
            if !thumbnail_fits(image@, size) || w == 0 || h == 0 {
                r is None
            } else {
                r matches Some(t) && t@ matches ImageView::Mono1 { width, height, bits } && width
                    == size && height == size && bits.len() == plane_len(size as int, size as int)
                    && bits_match(
                    bits,
                    size * size,
                    |i: int| is_white(sample_lum(image@, size as int, i % (size as int), i / (size as int))),
                )
            }
        }),
{
    if !check_thumbnail_fits(image, START_MENU_RECENT_THUMB) {
        return None;
    }
    thumbnail_from_image(image, START_MENU_RECENT_THUMB)
}

/// The preview built from a cached thumbnail: its title (the cached one
/// when nonempty, else the path's last piece), the image to show, and the
/// image to write back to the cache when it was converted.
pub fn cached_preview(path: &str, image: ImageData, cached_title: Option<String>) -> (r: (
    String,
    Option<ImageData>,
    Option<ImageData>,
))
    ensures
        r.0@ == match cached_title {
            Some(t) => if t@.len() > 0 {
                t@
            } else {
                spec_basename(path@)
            },
            None => spec_basename(path@),
        },
        r.1 is Some,
        r.2 matches Some(t) ==> (r.1 matches Some(u) && u@ == t@),
        image@ matches ImageView::Mono1 { .. } ==> r.1 == Some(image) && r.2 is None,
{
    let title = match cached_title {
        Some(t) => if !t.as_str().is_empty() {
            t
        } else {
            basename_from_path(path)
        },
        None => basename_from_path(path),
    };
    if let ImageData::Mono1 { .. } = &image {
        return (title, Some(image), None);
    }
    let (w, h) = image.dimensions();
    proof {
        lemma_u32_product(w, h);
    }
    let fits_mono = (w as u64) * (h as u64) + 7 <= usize::MAX as u64;
    if fits_mono {
        if let Some(mono) = thumbnail_to_mono(&image) {
            let saved = mono.duplicate();
            return (title, Some(mono), Some(saved));
        }
    }
    if w != START_MENU_RECENT_THUMB || h != START_MENU_RECENT_THUMB {
        if let Some(thumb) = scaled_thumbnail(&image) {
            let saved = thumb.duplicate();
            return (title, Some(thumb), Some(saved));
        }
    }
    (title, Some(image), None)
}

/// Whether a recent path names a grayscale image file.
pub open spec fn is_image_path(p: Seq<char>) -> bool {
    ends_with_ci(p, ".tri"@) || ends_with_ci(p, ".trimg"@)
}

/// Whether a recent path names a book.
pub open spec fn is_book_path(p: Seq<char>) -> bool {
    ends_with_ci(p, ".trbk"@)
}

/// Names of the entries of a listing.
pub open spec fn entry_names(v: Seq<ImageEntry>) -> Seq<Seq<char>> {
    Seq::new(v.len(), |i: int| v[i].name@)
}

impl HomeState {
    pub fn new() -> (r: Self)
        ensures
            r.entries@.len() == 0,
            r.selected == 0,
            r.path@.len() == 0,
            r.start_menu_section == StartMenuSection::Recents,
            r.start_menu_index == 0,
            r.start_menu_prev_section == StartMenuSection::Recents,
            r.start_menu_prev_index == 0,
            r.start_menu_cache@.len() == 0,
            !r.start_menu_nav_pending,
            r.start_menu_need_base_refresh,
    {
        HomeState {
            entries: Vec::new(),
            selected: 0,
            path: Vec::new(),
            start_menu_section: StartMenuSection::Recents,
            start_menu_index: 0,
            start_menu_prev_section: StartMenuSection::Recents,
            start_menu_prev_index: 0,
            start_menu_cache: Vec::new(),
            start_menu_nav_pending: false,
            start_menu_need_base_refresh: true,
        }
    }

    /// Replaces the listing, keeping the selection when it is still valid.
    pub fn set_entries(&mut self, entries: Vec<ImageEntry>)
        ensures
            *final(self) == (HomeState {
                entries: entries,
                selected: if old(self).selected >= entries@.len() {
                    0
                } else {
                    old(self).selected
                },
                ..*old(self)
            }),
    {
        self.entries = entries;
        if self.selected >= self.entries.len() {
            self.selected = 0;
        }
    }

    /// Lists the current folder; on failure the source's error is returned
    /// and the listing is kept.
    pub fn refresh_entries<S: AppSource>(&mut self, source: &mut S) -> (r: Result<(), ImageError>)
        ensures
            final(self).path == old(self).path,
            r is Err ==> final(self).entries == old(self).entries,
            r is Err ==> final(self).selected == old(self).selected,
            r is Ok ==> (final(self).selected == 0 || final(self).selected == old(self).selected),
            r is Ok ==> (final(self).entries@.len() == 0 || final(self).selected
                < final(self).entries@.len()),
            *final(self) == (HomeState {
                entries: final(self).entries,
                selected: final(self).selected,
                ..*old(self)
            }),
    {
        let entries = match source.refresh(self.path.as_slice()) {
            Ok(e) => e,
            Err(e) => return Err(e),
        };
        self.set_entries(entries);
        Ok(())
    }

    /// "Images", or "Images/" followed by the folder path.
    pub fn menu_title(&self) -> (r: String)
        ensures
            r@ == if self.path@.len() == 0 {
                "Images"@
            } else {
                "Images/"@ + join_slash(string_views(self.path@))
            },
    {
        if self.path.len() == 0 {
            String::from_str("Images")
        } else {
            let joined = join_path(self.path.as_slice());
            concat("Images/", joined.as_str())
        }
    }

    /// The entry's path: folder pieces and name joined with '/'.
    pub fn entry_path_string(&self, entry: &ImageEntry) -> (r: String)
        ensures
            r@ == join_slash(string_views(self.path@).push(entry.name@)),
    {
        let mut parts = self.path.clone();
        assert(string_views(parts@) == string_views(self.path@));
        parts.push(entry.name.clone());
        assert(string_views(parts@) =~= string_views(self.path@).push(entry.name@));
        join_path(parts.as_slice())
    }

    /// The path of the selected entry when it is a file.
    pub fn current_entry_name_owned(&self) -> (r: Option<String>)
        ensures
            match r {
                Some(s) => self.selected < self.entries@.len() && self.entries@[self.selected as int].kind
                    == EntryKind::File && s@ == join_slash(
                    string_views(self.path@).push(self.entries@[self.selected as int].name@),
                ),
                None => self.selected >= self.entries@.len() || self.entries@[self.selected as int].kind
                    != EntryKind::File,
            },
    {
        if self.selected >= self.entries.len() {
            return None;
        }
        let entry = &self.entries[self.selected];
        match entry.kind {
            EntryKind::File => Some(self.entry_path_string(entry)),
            EntryKind::Dir => None,
        }
    }

    /// Opens the selected entry: a folder is entered (its name appended to
    /// the path), a file is handed back.
    pub fn open_selected(&mut self) -> (r: Result<HomeOpen, HomeOpenError>)
        ensures
            *final(self) == (HomeState { path: final(self).path, ..*old(self) }),
            if old(self).selected >= old(self).entries@.len() {
                r == Err::<HomeOpen, HomeOpenError>(HomeOpenError::Empty) && *final(self) == *old(self)
            } else {
                let e = old(self).entries@[old(self).selected as int];
                match e.kind {
                    EntryKind::Dir => r matches Ok(HomeOpen::EnterDir) && string_views(
                        final(self).path@,
                    ) == string_views(old(self).path@).push(e.name@),
                    EntryKind::File => r matches Ok(HomeOpen::OpenFile(f)) && f.name@ == e.name@
                        && f.kind == EntryKind::File && final(self).path == old(self).path,
                }
            },
    {
        if self.selected >= self.entries.len() {
            return Err(HomeOpenError::Empty);
        }
        let entry = self.entries[self.selected].duplicate();
        match entry.kind {
            EntryKind::Dir => {
                let ghost before = string_views(self.path@);
                let name = entry.name;
                self.path.push(name);
                assert(string_views(self.path@) =~= before.push(entry.name@));
                Ok(HomeOpen::EnterDir)
            },
            EntryKind::File => Ok(HomeOpen::OpenFile(entry)),
        }
    }

    /// Selects and opens the file at `index` (clamped to the listing).
    pub fn open_index(&mut self, index: usize) -> (r: Option<HomeOpen>)
        ensures
            *final(self) == (HomeState { selected: final(self).selected, ..*old(self) }),
            final(self).entries == old(self).entries,
            final(self).path == old(self).path,
            if old(self).entries@.len() == 0 {
                r is None && final(self).selected == old(self).selected
            } else {
                let i = if index < old(self).entries@.len() {
                    index as int
                } else {
                    old(self).entries@.len() - 1
                };
                let e = old(self).entries@[i];
                if e.kind == EntryKind::File {
                    r matches Some(HomeOpen::OpenFile(f)) && f.name@ == e.name@ && f.kind
                        == EntryKind::File && final(self).selected == i
                } else {
                    r is None && final(self).selected == old(self).selected
                }
            },
    {
        if self.entries.len() == 0 {
            return None;
        }
        let index = if index < self.entries.len() {
            index
        } else {
            self.entries.len() - 1
        };
        let entry = self.entries[index].duplicate();
        match entry.kind {
            EntryKind::Dir => None,
            EntryKind::File => {
                self.selected = index;
                Some(HomeOpen::OpenFile(entry))
            },
        }
    }

    /// Takes a fresh listing and selects the first entry named `file`;
    /// without one, "Recent entry not found." (the selection kept when it
    /// still lies in the listing, else the first entry).
    pub fn select_recent(&mut self, entries: Vec<ImageEntry>, file: &str) -> (r: Result<(), ImageError>)
        ensures
            Self::recent_selected(*old(self), *final(self), entries@, file@, r),
    {
        self.set_entries(entries);
        let mut i: usize = 0;
        while i < self.entries.len()
            invariant
                i <= self.entries@.len(),
                self.entries@ == entries@,
                *self == (HomeState {
                    entries: self.entries,
                    selected: if old(self).selected >= entries@.len() {
                        0
                    } else {
                        old(self).selected
                    },
                    ..*old(self)
                }),
                forall|j: int| 0 <= j < i ==> #[trigger] self.entries@[j].name@ != file@,
            decreases self.entries@.len() - i,
        {
            if str_eq(self.entries[i].name.as_str(), file) {
                self.selected = i;
                return Ok(());
            }
            i = i + 1;
        }
        Err(ImageError::Message(String::from_str("Recent entry not found.")))
    }

    /// `b` is `a` with the listing `es` in which the first entry named
    /// `file` is selected (`r` is `Ok`), or, when none is, the error
    /// "Recent entry not found." with the selection kept if it still lies
    /// in the listing, else the first entry.
    pub open spec fn recent_selected(
        a: HomeState,
        b: HomeState,
        es: Seq<ImageEntry>,
        file: Seq<char>,
        r: Result<(), ImageError>,
    ) -> bool {
        &&& b == (HomeState { entries: b.entries, selected: b.selected, ..a })
        &&& b.entries@ == es
        &&& if exists|i: int| 0 <= i < es.len() && #[trigger] es[i].name@ == file {
            &&& r is Ok
            &&& b.selected < es.len()
            &&& es[b.selected as int].name@ == file
            &&& forall|j: int| 0 <= j < b.selected ==> #[trigger] es[j].name@ != file
        } else {
            &&& r matches Err(ImageError::Message(m)) && m@ == "Recent entry not found."@
            &&& b.selected == if a.selected >= es.len() {
                0
            } else {
                a.selected
            }
        }
    }

    /// Goes to the folder of a recent entry (its path but the last piece),
    /// lists it, and selects the entry there (see `select_recent`). When the
    /// listing fails its error is returned with the listing and selection
    /// kept.
    pub fn open_recent_path<S: AppSource>(&mut self, source: &mut S, path: &str) -> (r: Result<
        (),
        ImageError,
    >)
        ensures
            path_segments(path@).len() == 0 ==> r is Ok && *final(self) == *old(self),
            path_segments(path@).len() > 0 ==> {
                let segs = path_segments(path@);
                &&& string_views(final(self).path@) == segs.drop_last()
                &&& {
                    let moved = HomeState { path: final(self).path, ..*old(self) };
                    ||| r is Err && *final(self) == moved
                    ||| Self::recent_selected(moved, *final(self), final(self).entries@, segs.last(), r)
                }
            },
    {
        let mut parts = split_path(path);
        if parts.len() == 0 {
            return Ok(());
        }
        let ghost segs = path_segments(path@);
        assert(string_views(parts@) =~= segs);
        let file = parts.pop().unwrap();
        assert(string_views(parts@) =~= segs.drop_last());
        self.path = parts;
        let entries = match source.refresh(self.path.as_slice()) {
            Ok(e) => e,
            Err(e) => return Err(e),
        };
        self.select_recent(entries, file.as_str())
    }

    /// Whether the start menu cache shows exactly these recent paths.
    pub fn start_menu_cache_same(&self, recents: &[String]) -> (r: bool)
        ensures
            r == (recents@.len() == self.start_menu_cache@.len() && forall|i: int|
                0 <= i < recents@.len() ==> #[trigger] recents@[i]@
                    == self.start_menu_cache@[i].path@),
    {
        if recents.len() != self.start_menu_cache.len() {
            return false;
        }
        let mut i: usize = 0;
        while i < recents.len()
            invariant
                i <= recents@.len(),
                recents@.len() == self.start_menu_cache@.len(),
                forall|j: int| 0 <= j < i ==> #[trigger] recents@[j]@
                    == self.start_menu_cache@[j].path@,
            decreases recents@.len() - i,
        {
            if !str_eq(recents[i].as_str(), self.start_menu_cache[i].path.as_str()) {
                return false;
            }
            i = i + 1;
        }
        true
    }

    /// Start menu keys. Up/Down walk the recent entries and then the action
    /// row (wrapping from the top of the recents to the last action), Left/
    /// Right move within the action row and switch to it from the recents,
    /// Confirm opens the selected recent entry or action.
    pub fn handle_start_menu_input(&mut self, recents: &[String], buttons: &ButtonState) -> (r:
        HomeAction)
        ensures
            ({
                let sec = old(self).start_menu_section;
                let idx = old(self).start_menu_index;
                let n = recents@.len();
                let moved = HomeState {
                    start_menu_prev_section: sec,
                    start_menu_prev_index: idx,
                    start_menu_nav_pending: true,
                    ..*old(self)
                };
                if buttons.spec_is_pressed(Buttons::Up) {
                    &&& r is Nothing
                    &&& *final(self) == if sec == StartMenuSection::Recents {
                        if idx > 0 {
                            HomeState { start_menu_index: (idx - 1) as usize, ..moved }
                        } else {
                            HomeState {
                                start_menu_section: StartMenuSection::Actions,
                                start_menu_index: 2,
                                ..moved
                            }
                        }
                    } else if idx == 0 && n > 0 {
                        HomeState {
                            start_menu_section: StartMenuSection::Recents,
                            start_menu_index: (n - 1) as usize,
                            ..moved
                        }
                    } else {
                        HomeState {
                            start_menu_index: if idx > 0 {
                                (idx - 1) as usize
                            } else {
                                0
                            },
                            ..moved
                        }
                    }
                } else if buttons.spec_is_pressed(Buttons::Down) {
                    &&& r is Nothing
                    &&& *final(self) == if sec == StartMenuSection::Recents {
                        if idx + 1 < n {
                            HomeState { start_menu_index: (idx + 1) as usize, ..moved }
                        } else {
                            HomeState {
                                start_menu_section: StartMenuSection::Actions,
                                start_menu_index: 0,
                                ..moved
                            }
                        }
                    } else if idx + 1 < START_MENU_ACTIONS {
                        HomeState { start_menu_index: (idx + 1) as usize, ..moved }
                    } else {
                        moved
                    }
                } else if buttons.spec_is_pressed(Buttons::Left) {
                    &&& r is Nothing
                    &&& *final(self) == if sec == StartMenuSection::Actions {
                        HomeState {
                            start_menu_index: if idx > 0 {
                                (idx - 1) as usize
                            } else {
                                0
                            },
                            ..moved
                        }
                    } else {
                        HomeState {
                            start_menu_section: StartMenuSection::Actions,
                            start_menu_index: 0,
                            ..moved
                        }
                    }
                } else if buttons.spec_is_pressed(Buttons::Right) {
                    &&& r is Nothing
                    &&& *final(self) == if sec == StartMenuSection::Actions {
                        HomeState {
                            start_menu_index: if idx + 1 < 2 {
                                (idx + 1) as usize
                            } else {
                                2
                            },
                            ..moved
                        }
                    } else {
                        HomeState {
                            start_menu_section: StartMenuSection::Actions,
                            start_menu_index: 0,
                            ..moved
                        }
                    }
                } else {
                    &&& *final(self) == *old(self)
                    &&& if buttons.spec_is_pressed(Buttons::Confirm) {
                        if sec == StartMenuSection::Recents {
                            if idx < n {
                                r matches HomeAction::OpenRecent(p) && p@ == recents@[idx as int]@
                            } else {
                                r is Nothing
                            }
                        } else {
                            if idx == 0 {
                                r is OpenFileBrowser
                            } else if idx == 1 {
                                r is OpenSettings
                            } else {
                                r is Nothing
                            }
                        }
                    } else {
                        r is Nothing
                    }
                }
            }),
    {
        if buttons.is_pressed(Buttons::Up) {
            self.start_menu_prev_section = self.start_menu_section;
            self.start_menu_prev_index = self.start_menu_index;
            if self.start_menu_section == StartMenuSection::Recents {
                if self.start_menu_index > 0 {
                    self.start_menu_index = self.start_menu_index - 1;
                } else {
                    self.start_menu_section = StartMenuSection::Actions;
                    self.start_menu_index = 2;
                }
            } else {
                if self.start_menu_index == 0 && recents.len() > 0 {
                    self.start_menu_section = StartMenuSection::Recents;
                    self.start_menu_index = recents.len() - 1;
                } else {
                    self.start_menu_index = self.start_menu_index.saturating_sub(1);
                }
            }
            self.start_menu_nav_pending = true;
            return HomeAction::Nothing;
        }
        if buttons.is_pressed(Buttons::Down) {
            self.start_menu_prev_section = self.start_menu_section;
            self.start_menu_prev_index = self.start_menu_index;
            if self.start_menu_section == StartMenuSection::Recents {
                if self.start_menu_index < recents.len() && self.start_menu_index + 1
                    < recents.len() {
                    self.start_menu_index = self.start_menu_index + 1;
                } else {
                    self.start_menu_section = StartMenuSection::Actions;
                    self.start_menu_index = 0;
                }
            } else {
                if self.start_menu_index < START_MENU_ACTIONS - 1 {
                    self.start_menu_index = self.start_menu_index + 1;
                }
            }
            self.start_menu_nav_pending = true;
            return HomeAction::Nothing;
        }
        if buttons.is_pressed(Buttons::Left) {
            self.start_menu_prev_section = self.start_menu_section;
            self.start_menu_prev_index = self.start_menu_index;
            if self.start_menu_section == StartMenuSection::Actions {
                self.start_menu_index = self.start_menu_index.saturating_sub(1);
            } else {
                self.start_menu_section = StartMenuSection::Actions;
                self.start_menu_index = 0;
            }
            self.start_menu_nav_pending = true;
            return HomeAction::Nothing;
        }
        if buttons.is_pressed(Buttons::Right) {
            self.start_menu_prev_section = self.start_menu_section;
            self.start_menu_prev_index = self.start_menu_index;
            if self.start_menu_section == StartMenuSection::Actions {
                self.start_menu_index = if self.start_menu_index < 1 {
                    self.start_menu_index + 1
                } else {
                    2
                };
            } else {
                self.start_menu_section = StartMenuSection::Actions;
                self.start_menu_index = 0;
            }
            self.start_menu_nav_pending = true;
            return HomeAction::Nothing;
        }
        if buttons.is_pressed(Buttons::Confirm) {
            match self.start_menu_section {
                StartMenuSection::Recents => {
                    if self.start_menu_index < recents.len() {
                        return HomeAction::OpenRecent(recents[self.start_menu_index].clone());
                    }
                },
                StartMenuSection::Actions => {
                    return if self.start_menu_index == 0 {
                        HomeAction::OpenFileBrowser
                    } else if self.start_menu_index == 1 {
                        HomeAction::OpenSettings
                    } else {
                        HomeAction::Nothing
                    };
                },
            }
        }
        HomeAction::Nothing
    }

    /// File browser keys: Up/Down move the selection within the listing,
    /// Confirm opens, Back goes up.
    pub fn handle_menu_input(&mut self, buttons: &ButtonState) -> (r: MenuAction)
        ensures
            ({
                let n = old(self).entries@.len();
                let sel = old(self).selected;
                if buttons.spec_is_pressed(Buttons::Up) {
                    &&& r is Dirty
                    &&& *final(self) == if n > 0 {
                        HomeState {
                            selected: if sel > 0 {
                                (sel - 1) as usize
                            } else {
                                0
                            },
                            ..*old(self)
                        }
                    } else {
                        *old(self)
                    }
                } else if buttons.spec_is_pressed(Buttons::Down) {
                    &&& r is Dirty
                    &&& *final(self) == if n > 0 {
                        HomeState {
                            selected: if sel + 1 < n {
                                (sel + 1) as usize
                            } else {
                                (n - 1) as usize
                            },
                            ..*old(self)
                        }
                    } else {
                        *old(self)
                    }
                } else {
                    &&& *final(self) == *old(self)
                    &&& if buttons.spec_is_pressed(Buttons::Confirm) {
                        r is OpenSelected
                    } else if buttons.spec_is_pressed(Buttons::Back) {
                        r is Back
                    } else {
                        r is Nothing
                    }
                }
            }),
    {
        if buttons.is_pressed(Buttons::Up) {
            if self.entries.len() > 0 {
                self.selected = self.selected.saturating_sub(1);
            }
            return MenuAction::Dirty;
        }
        if buttons.is_pressed(Buttons::Down) {
            if self.entries.len() > 0 {
                self.selected = if self.selected < self.entries.len() - 1 {
                    self.selected + 1
                } else {
                    self.entries.len() - 1
                };
            }
            return MenuAction::Dirty;
        }
        if buttons.is_pressed(Buttons::Confirm) {
            return MenuAction::OpenSelected;
        }
        if buttons.is_pressed(Buttons::Back) {
            return MenuAction::Back;
        }
        MenuAction::Nothing
    }
}

impl HomeState {
    /// Title and preview image of a recent entry: a cached thumbnail when
    /// there is one, else a thumbnail made from the image, or from the
    /// first image of the book, which is then cached. The label is the
    /// path's last piece unless a nonempty title was cached or the book
    /// names one.
    pub fn load_recent_preview<S: AppSource>(&mut self, source: &mut S, path: &str) -> (r: (
        String,
        Option<ImageData>,
    ))
        ensures
            *final(self) == *old(self),
            r.0@ == spec_basename(path@) || r.0@.len() > 0,
            !ends_with_ci(path@, ".trbk"@) && r.1 is None ==> r.0@ == spec_basename(path@),
    {
        let label_fallback = basename_from_path(path);
        if let Some(image) = source.load_thumbnail(path) {
            let title = source.load_thumbnail_title(path);
            let (title, shown, to_save) = cached_preview(path, image, title);
            if let Some(save) = to_save {
                source.save_thumbnail(path, &save);
            }
            return (title, shown);
        }
        if ends_with_ignore_case(path, ".tri") || ends_with_ignore_case(path, ".trimg") {
            let mut parts = split_path(path);
            if parts.len() == 0 {
                return (label_fallback, None);
            }
            let file = parts.pop().unwrap();
            let entry = ImageEntry { name: file, kind: EntryKind::File };
            if let Ok(image) = source.load(parts.as_slice(), &entry) {
                if let ImageData::Gray2Stream { width, height, key } = &image {
                    if let Some(thumb) = source.load_gray2_stream_thumbnail(
                        key.as_str(),
                        *width,
                        *height,
                        START_MENU_RECENT_THUMB,
                        START_MENU_RECENT_THUMB,
                    ) {
                        source.save_thumbnail(path, &thumb);
                        return (label_fallback, Some(thumb));
                    }
                }
                if let Some(thumb) = scaled_thumbnail(&image) {
                    source.save_thumbnail(path, &thumb);
                    return (label_fallback, Some(thumb));
                }
            }
            return (label_fallback, None);
        }
        if !ends_with_ignore_case(path, ".trbk") {
            return (label_fallback, None);
        }
        let mut parts = split_path(path);
        if parts.len() == 0 {
            return (label_fallback, None);
        }
        let file = parts.pop().unwrap();
        let entry = ImageEntry { name: file, kind: EntryKind::File };
        let info = match source.open_trbk(parts.as_slice(), &entry) {
            Ok(info) => info,
            Err(_) => {
                source.close_trbk();
                return (label_fallback, None);
            },
        };
        let title = if info.metadata.title.as_str().is_empty() {
            label_fallback
        } else {
            info.metadata.title.clone()
        };
        let preview = if info.images.len() > 0 {
            match source.trbk_image(0) {
                Ok(image) => {
                    let mut streamed: Option<ImageData> = None;
                    if let ImageData::Gray2Stream { width, height, key } = &image {
                        streamed = source.load_gray2_stream_thumbnail(
                            key.as_str(),
                            *width,
                            *height,
                            START_MENU_RECENT_THUMB,
                            START_MENU_RECENT_THUMB,
                        );
                    }
                    if streamed.is_some() {
                        streamed
                    } else {
                        scaled_thumbnail(&image)
                    }
                },
                Err(_) => None,
            }
        } else {
            None
        };
        source.close_trbk();
        if let Some(image) = &preview {
            source.save_thumbnail(path, image);
            source.save_thumbnail_title(path, title.as_str());
        }
        (title, preview)
    }

    /// Rebuilds the start menu previews when the recent list changed; a
    /// rebuild asks for a full redraw of the menu.
    pub fn ensure_start_menu_cache<S: AppSource>(&mut self, source: &mut S, recents: &[String])
        ensures
            final(self).start_menu_cache@.len() == recents@.len(),
            forall|i: int|
                0 <= i < recents@.len() ==> #[trigger] final(self).start_menu_cache@[i].path@
                    == recents@[i]@,
            final(self).start_menu_need_base_refresh == (old(self).start_menu_need_base_refresh
                || !(recents@.len() == old(self).start_menu_cache@.len() && forall|i: int|
                0 <= i < recents@.len() ==> #[trigger] recents@[i]@
                    == old(self).start_menu_cache@[i].path@)),
            final(self).entries == old(self).entries,
            final(self).selected == old(self).selected,
            final(self).path == old(self).path,
            final(self).start_menu_section == old(self).start_menu_section,
            final(self).start_menu_index == old(self).start_menu_index,
    {
        if self.start_menu_cache_same(recents) {
            return;
        }
        let mut cache: Vec<RecentPreview> = Vec::new();
        let mut i: usize = 0;
        while i < recents.len()
            invariant
                i <= recents@.len(),
                cache@.len() == i,
                forall|j: int| 0 <= j < i ==> #[trigger] cache@[j].path@ == recents@[j]@,
                *self == *old(self),
            decreases recents@.len() - i,
        {
            let (title, image) = self.load_recent_preview(source, recents[i].as_str());
            cache.push(RecentPreview { path: recents[i].clone(), title, image });
            i = i + 1;
        }
        self.start_menu_cache = cache;
        self.start_menu_need_base_refresh = true;
    }
}

/// Geometry of the file list.
pub const MENU_LIST_TOP: i32 = 60;
pub const MENU_LINE_HEIGHT: i32 = 24;
pub const MENU_MARGIN_X: i32 = 16;
pub const MENU_HEADER_Y: i32 = 24;

/// A listed entry's label: its name, with '/' after a folder's.
pub open spec fn entry_label(e: ImageEntry) -> Seq<char> {
    if e.kind == EntryKind::Dir {
        e.name@.push('/')
    } else {
        e.name@
    }
}

/// The file list screen of `h`: the folder as title, one row per entry,
/// the selected one marked.
pub open spec fn menu_list(h: HomeState, full_refresh: bool) -> ListScreenView {
    ListScreenView {
        title: if h.path@.len() == 0 {
            "Images"@
        } else {
            "Images/"@ + join_slash(string_views(h.path@))
        },
        items: Seq::new(h.entries@.len(), |i: int| entry_label(h.entries@[i])),
        footer: "Up/Down: select  Confirm: open  Back: up"@,
        empty_label: "No entries found in /images"@,
        selected: h.selected,
        margin_x: MENU_MARGIN_X,
        header_y: MENU_HEADER_Y,
        list_top: MENU_LIST_TOP,
        line_height: MENU_LINE_HEIGHT,
        refresh: if full_refresh {
            RefreshMode::Full
        } else {
            RefreshMode::Fast
        },
    }
}

impl HomeState {
    /// The file list as a list screen: the folder as title, one row per
    /// entry, the selected one marked.
    pub fn draw_menu(&self, full_refresh: bool) -> (r: ListScreen)
        ensures
            r@ == menu_list(*self, full_refresh),
            r.items@.len() == self.entries@.len(),
            forall|i: int| 0 <= i < r.items@.len() ==> #[trigger] r.items@[i]@ == entry_label(self.entries@[i]),
            r.title@ == if self.path@.len() == 0 {
                "Images"@
            } else {
                "Images/"@ + join_slash(string_views(self.path@))
            },
            r.footer@ == "Up/Down: select  Confirm: open  Back: up"@,
            r.empty_label@ == "No entries found in /images"@,
            r.selected == self.selected,
            r.margin_x == MENU_MARGIN_X,
            r.header_y == MENU_HEADER_Y,
            r.list_top == MENU_LIST_TOP,
            r.line_height == MENU_LINE_HEIGHT,
            r.refresh == if full_refresh {
                RefreshMode::Full
            } else {
                RefreshMode::Fast
            },
    {
        proof {
            reveal_strlit("/");
        }
        let mut items: Vec<String> = Vec::new();
        let mut i: usize = 0;
        while i < self.entries.len()
            invariant
                i <= self.entries@.len(),
                items@.len() == i,
                forall|j: int| 0 <= j < i ==> #[trigger] items@[j]@ == entry_label(self.entries@[j]),
            decreases self.entries@.len() - i,
        {
            let entry = &self.entries[i];
            let label = if entry.kind == EntryKind::Dir {
                proof {
                    reveal_strlit("/");
                }
                concat(entry.name.as_str(), "/")
            } else {
                copy_str(entry.name.as_str())
            };
            items.push(label);
            i = i + 1;
        }
        let r = ListScreen {
            title: self.menu_title(),
            items,
            footer: copy_str("Up/Down: select  Confirm: open  Back: up"),
            empty_label: copy_str("No entries found in /images"),
            selected: self.selected,
            margin_x: MENU_MARGIN_X,
            header_y: MENU_HEADER_Y,
            list_top: MENU_LIST_TOP,
            line_height: MENU_LINE_HEIGHT,
            refresh: if full_refresh {
                RefreshMode::Full
            } else {
                RefreshMode::Fast
            },
        };
        assert(r@.items =~= menu_list(*self, full_refresh).items);
        r
    }
}

} // verus!
