//! System state: idle timer, sleep and wake transitions, battery level,
//! recently opened entries, saved reading positions and resume state.

use vstd::prelude::*;
use crate::app::book_reader::BookReaderState;
use crate::app::positions::{lookup, pair_views, BookPositions};
use crate::image_viewer::AppSource;
use crate::text::{path_segments, split_path, str_eq, string_views};
use crate::framebuffer::{
    lemma_set_pixel_same, pixel_value, set_pixel_spec, DisplayBuffers, Rotation, BUFFER_SIZE,
};
use crate::ui::Rect;

verus! {

/// Idle time after which the device goes to sleep (5 minutes).
pub const IDLE_TIMEOUT_MS: u32 = 300_000;
/// Most entries kept in the recent list.
pub const MAX_RECENT: usize = 10;
/// Most entries offered on the start menu.
pub const MAX_START_RECENTS: usize = 5;

/// The pixels under the "Sleeping..." bar, kept to restore them on wake.
pub struct SleepOverlay {
    pub rect: Rect,
    pub pixels: Vec<u8>,
}

/// Logical position of the `k`th pixel of a rectangle in row-major order.
pub open spec fn rect_point(rect: Rect, k: int) -> (int, int) {
    (rect.x + k % (rect.w as int), rect.y + k / (rect.w as int))
}

/// Rectangles whose pixels can be walked without overflow.
pub open spec fn rect_ok(rect: Rect) -> bool {
    &&& rect.w >= 0
    &&& rect.h >= 0
    &&& rect.x + rect.w <= i32::MAX
    &&& rect.y + rect.h <= i32::MAX
    &&& rect.w * rect.h <= usize::MAX
}

/// The value stored for the `k`th pixel (white past the end of the list).
pub open spec fn stored_on(pixels: Seq<u8>, k: int) -> bool {
    if k < pixels.len() {
        pixels[k] == 1
    } else {
        true
    }
}

/// The buffer after writing back the first `n` stored pixels.
pub open spec fn restore_prefix(r: Rotation, buf: Seq<u8>, rect: Rect, pixels: Seq<u8>, n: int) -> Seq<u8>
    decreases n,
{
    if n <= 0 {
        buf
    } else {
        let (x, y) = rect_point(rect, n - 1);
        set_pixel_spec(r, restore_prefix(r, buf, rect, pixels, n - 1), x, y, stored_on(pixels, n - 1))
    }
}

/// Whether a rectangle's pixels can be walked without overflow.
pub fn check_rect(rect: Rect) -> (r: bool)
    ensures
        r == rect_ok(rect),
{
    if rect.w < 0 || rect.h < 0 {
        return false;
    }
    if (rect.x as i64) + (rect.w as i64) > 0x7FFF_FFFF || (rect.y as i64) + (rect.h as i64)
        > 0x7FFF_FFFF {
        return false;
    }
    proof {
        assert(0 <= (rect.w as int) * (rect.h as int) <= 0x7FFF_FFFFint * 0x7FFF_FFFFint) by (nonlinear_arith)
            requires
                0 <= rect.w <= 0x7FFF_FFFF,
                0 <= rect.h <= 0x7FFF_FFFF,
        ;
    }
    (rect.w as u64) * (rect.h as u64) <= usize::MAX as u64
}

proof fn lemma_rect_point_bounds(rect: Rect, k: int)
    requires
        rect_ok(rect),
        rect.w > 0,
        0 <= k < rect.w * rect.h,
    ensures
        rect.x <= rect_point(rect, k).0 < rect.x + rect.w,
        rect.y <= rect_point(rect, k).1 < rect.y + rect.h,
{
    assert(k / (rect.w as int) < rect.h) by (nonlinear_arith)
        requires
            0 <= k < rect.w * rect.h,
            rect.w > 0,
    ;
}

/// Saves the pixels of a rectangle (1 for white, 0 for black), row by row.
pub fn save_rect_bits(buffers: &DisplayBuffers, rect: Rect) -> (r: Vec<u8>)
    requires
        buffers.wf(),
        rect_ok(rect),
    ensures
        r@.len() == rect.w * rect.h,
        forall|k: int|
            0 <= k < r@.len() ==> #[trigger] r@[k] == if pixel_value(
                buffers.spec_rotation(),
                buffers.active_view(),
                rect_point(rect, k).0,
                rect_point(rect, k).1,
            ) {
                1u8
            } else {
                0u8
            },
{
    let mut out: Vec<u8> = Vec::new();
    if rect.w == 0 || rect.h == 0 {
        proof {
            assert(rect.w * rect.h == 0) by (nonlinear_arith)
                requires
                    rect.w == 0 || rect.h == 0,
            ;
        }
        return out;
    }
    let n = (rect.w as usize) * (rect.h as usize);
    let w = rect.w as usize;
    let mut k: usize = 0;
    while k < n
        invariant
            k <= n,
            n == rect.w * rect.h,
            w == rect.w,
            w > 0,
            rect_ok(rect),
            buffers.wf(),
            out@.len() == k,
            forall|j: int|
                0 <= j < k ==> #[trigger] out@[j] == if pixel_value(
                    buffers.spec_rotation(),
                    buffers.active_view(),
                    rect_point(rect, j).0,
                    rect_point(rect, j).1,
                ) {
                    1u8
                } else {
                    0u8
                },
        decreases n - k,
    {
        proof {
            lemma_rect_point_bounds(rect, k as int);
        }
        let x = rect.x + ((k % w) as i32);
        let y = rect.y + ((k / w) as i32);
        let white = buffers.read_pixel(x, y);
        out.push(if white { 1 } else { 0 });
        k = k + 1;
    }
    out
}

/// Where a saved resume state says to go back to.
pub enum TryResumeOutcome {
    Nothing,
    Resume { path: Vec<String>, file: String, page: Option<usize> },
}

pub enum SaveResumeOutcome {
    Saved,
    Error(String),
}

/// What `save_resume_checked` needs from the application.
pub struct ResumeContext<'a, S: AppSource> {
    pub source: &'a mut S,
    pub resume_debug: &'a str,
    pub in_start_menu: bool,
    pub current_entry: Option<&'a String>,
    pub last_viewed_entry: Option<&'a String>,
    pub home_current_entry: Option<String>,
    pub book_reader: &'a BookReaderState,
}

pub struct SystemState {
    pub sleep_overlay: Option<SleepOverlay>,
    pub sleep_transition: bool,
    pub wake_transition: bool,
    pub full_refresh: bool,
    pub sleep_after_error: bool,
    pub idle_ms: u32,
    pub idle_timeout_ms: u32,
    pub sleep_overlay_pending: bool,
    pub wake_restore_only: bool,
    pub resume_name: Option<String>,
    pub book_positions: BookPositions,
    pub recent_entries: Vec<String>,
    pub recent_dirty: bool,
    pub book_positions_dirty: bool,
    pub last_saved_resume: Option<String>,
    pub sleep_from_home: bool,
    pub sleep_wallpaper_gray2: bool,
    pub sleep_wallpaper_trbk_open: bool,
    pub battery_percent: Option<u8>,
}

/// `s` with every occurrence of `x` removed.
pub open spec fn remove_all(s: Seq<Seq<char>>, x: Seq<char>) -> Seq<Seq<char>>
    decreases s.len(),
{
    if s.len() == 0 {
        seq![]
    } else if s.last() == x {
        remove_all(s.drop_last(), x)
    } else {
        remove_all(s.drop_last(), x).push(s.last())
    }
}

/// The first `n` elements of `s` (all of them when there are fewer).
pub open spec fn cap<T>(s: Seq<T>, n: int) -> Seq<T> {
    if s.len() > n {
        s.take(n)
    } else {
        s
    }
}

/// The recent list after `path` was opened: `path` first, its older
/// occurrence removed, at most `MAX_RECENT` entries.
pub open spec fn spec_mark_recent(recent: Seq<Seq<char>>, path: Seq<char>) -> Seq<Seq<char>> {
    cap(seq![path] + remove_all(recent, path), MAX_RECENT as int)
}

/// Fills `acc` up to `MAX_START_RECENTS` entries with the names it lacks.
pub open spec fn fill_recent(acc: Seq<Seq<char>>, names: Seq<Seq<char>>) -> Seq<Seq<char>>
    decreases names.len(),
{
    if names.len() == 0 || acc.len() >= MAX_START_RECENTS {
        acc
    } else if acc.contains(names[0]) {
        fill_recent(acc, names.drop_first())
    } else {
        fill_recent(acc.push(names[0]), names.drop_first())
    }
}

/// The start menu's recent list: the saved recent entries, preceded by the
/// last viewed entry when it is not among them, then the books with saved
/// positions (in path order) while fewer than five, cut to five.
pub open spec fn spec_recent_paths(
    recent: Seq<Seq<char>>,
    last_viewed: Option<Seq<char>>,
    book_names: Seq<Seq<char>>,
) -> Seq<Seq<char>> {
    let base = match last_viewed {
        Some(l) => if recent.contains(l) {
            recent
        } else {
            seq![l] + recent
        },
        None => recent,
    };
    cap(fill_recent(base, book_names), MAX_START_RECENTS as int)
}

/// Book paths of saved positions, in path order.
pub open spec fn position_names(s: Seq<(Seq<char>, usize)>) -> Seq<Seq<char>> {
    Seq::new(s.len(), |i: int| s[i].0)
}

/// Whether `v` contains a string equal to `x`.
fn contains_str(v: &Vec<String>, x: &str) -> (r: bool)
    ensures
        r == string_views(v@).contains(x@),
{
    let mut i: usize = 0;
    while i < v.len()
        invariant
            i <= v@.len(),
            forall|j: int| 0 <= j < i ==> v@[j]@ != x@,
        decreases v@.len() - i,
    {
        if str_eq(v[i].as_str(), x) {
            assert(string_views(v@)[i as int] == x@);
            return true;
        }
        i = i + 1;
    }
    assert forall|j: int| 0 <= j < string_views(v@).len() implies string_views(v@)[j] != x@ by {
        assert(string_views(v@)[j] == v@[j]@);
    }
    false
}

/// A copy of a list of strings.
pub(crate) fn clone_strings(v: &Vec<String>) -> (r: Vec<String>)
    ensures
        string_views(r@) == string_views(v@),
{
    let mut out: Vec<String> = Vec::new();
    let mut i: usize = 0;
    while i < v.len()
        invariant
            i <= v@.len(),
            string_views(out@) == string_views(v@).take(i as int),
        decreases v@.len() - i,
    {
        let ghost before = out@;
        let c = v[i].clone();
        out.push(c);
        assert(out@ == before.push(v@[i as int]));
        assert(string_views(out@) =~= string_views(before).push(v@[i as int]@));
        assert(string_views(v@).take(i + 1) =~= string_views(v@).take(i as int).push(
            v@[i as int]@,
        ));
        i = i + 1;
    }
    assert(string_views(v@).take(i as int) =~= string_views(v@));
    out
}

/// Keeps the first `n` strings.
fn truncate_strings(v: &mut Vec<String>, n: usize)
    ensures
        string_views(final(v)@) == cap(string_views(old(v)@), n as int),
{
    if v.len() > n {
        v.truncate(n);
        assert(string_views(v@) =~= string_views(old(v)@).take(n as int));
    } else {
        assert(string_views(v@) =~= string_views(old(v)@));
    }
}

impl SystemState {
    /// Writes saved pixels back into their rectangle (missing ones white).
    pub fn restore_rect_bits(buffers: &mut DisplayBuffers, overlay: &SleepOverlay)
        requires
            old(buffers).wf(),
            rect_ok(overlay.rect),
        ensures
            final(buffers).wf(),
            final(buffers).active_view() == restore_prefix(
                old(buffers).spec_rotation(),
                old(buffers).active_view(),
                overlay.rect,
                overlay.pixels@,
                overlay.rect.w * overlay.rect.h,
            ),
            final(buffers).inactive_view() == old(buffers).inactive_view(),
            final(buffers).spec_rotation() == old(buffers).spec_rotation(),
            final(buffers).spec_active_flag() == old(buffers).spec_active_flag(),
    {
        let rect = overlay.rect;
        if rect.w == 0 || rect.h == 0 {
            proof {
                assert(rect.w * rect.h == 0) by (nonlinear_arith)
                    requires
                        rect.w == 0 || rect.h == 0,
                ;
            }
            return;
        }
        let n = (rect.w as usize) * (rect.h as usize);
        let w = rect.w as usize;
        let mut k: usize = 0;
        while k < n
            invariant
                k <= n,
                n == rect.w * rect.h,
                w == rect.w,
                w > 0,
                rect == overlay.rect,
                rect_ok(rect),
                buffers.wf(),
                buffers.active_view() == restore_prefix(
                    old(buffers).spec_rotation(),
                    old(buffers).active_view(),
                    rect,
                    overlay.pixels@,
                    k as int,
                ),
                buffers.inactive_view() == old(buffers).inactive_view(),
                buffers.spec_rotation() == old(buffers).spec_rotation(),
                buffers.spec_active_flag() == old(buffers).spec_active_flag(),
            decreases n - k,
        {
            proof {
                lemma_rect_point_bounds(rect, k as int);
            }
            let x = rect.x + ((k % w) as i32);
            let y = rect.y + ((k / w) as i32);
            let on = if k < overlay.pixels.len() {
                overlay.pixels[k] == 1
            } else {
                true
            };
            buffers.set_pixel(x, y, on);
            k = k + 1;
        }
    }

    pub open spec fn recent_view(&self) -> Seq<Seq<char>> {
        string_views(self.recent_entries@)
    }

    pub fn new(
        resume_name: Option<String>,
        book_positions: BookPositions,
        recent_entries: Vec<String>,
    ) -> (r: Self)
        ensures
            r.sleep_overlay is None,
            r.sleep_transition,
            !r.wake_transition,
            r.full_refresh,
            !r.sleep_after_error,
            r.idle_ms == 0,
            r.idle_timeout_ms == IDLE_TIMEOUT_MS,
            !r.sleep_overlay_pending,
            !r.wake_restore_only,
            r.resume_name == resume_name,
            r.book_positions == book_positions,
            r.recent_entries == recent_entries,
            !r.recent_dirty,
            !r.book_positions_dirty,
            r.last_saved_resume is None,
            !r.sleep_from_home,
            !r.sleep_wallpaper_gray2,
            !r.sleep_wallpaper_trbk_open,
            r.battery_percent is None,
    {
        SystemState {
            sleep_overlay: None,
            sleep_transition: true,
            wake_transition: false,
            full_refresh: true,
            sleep_after_error: false,
            idle_ms: 0,
            idle_timeout_ms: IDLE_TIMEOUT_MS,
            sleep_overlay_pending: false,
            wake_restore_only: false,
            resume_name,
            book_positions,
            recent_entries,
            recent_dirty: false,
            book_positions_dirty: false,
            last_saved_resume: None,
            sleep_from_home: false,
            sleep_wallpaper_gray2: false,
            sleep_wallpaper_trbk_open: false,
            battery_percent: None,
        }
    }

    pub fn reset_idle(&mut self)
        ensures
            *final(self) == (SystemState { idle_ms: 0, ..*old(self) }),
    {
        self.idle_ms = 0;
    }

    /// Adds elapsed time (saturating) and reports whether the idle timeout
    /// has been reached.
    pub fn add_idle(&mut self, elapsed_ms: u32) -> (r: bool)
        ensures
            final(self).idle_ms == if old(self).idle_ms + elapsed_ms > u32::MAX {
                u32::MAX
            } else {
                (old(self).idle_ms + elapsed_ms) as u32
            },
            *final(self) == (SystemState { idle_ms: final(self).idle_ms, ..*old(self) }),
            r == (final(self).idle_ms >= old(self).idle_timeout_ms),
    {
        self.idle_ms = self.idle_ms.saturating_add(elapsed_ms);
        self.idle_ms >= self.idle_timeout_ms
    }

    pub fn prepare_sleep(&mut self, from_home: bool)
        ensures
            *final(self) == (SystemState {
                sleep_from_home: from_home,
                sleep_transition: false,
                sleep_overlay_pending: false,
                ..*old(self)
            }),
    {
        self.sleep_from_home = from_home;
        self.sleep_transition = false;
        self.sleep_overlay_pending = false;
    }

    pub fn start_sleep_request(&mut self, from_home: bool)
        ensures
            *final(self) == (SystemState {
                sleep_from_home: from_home,
                sleep_transition: false,
                sleep_overlay_pending: false,
                ..*old(self)
            }),
    {
        self.prepare_sleep(from_home);
    }

    pub fn mark_sleep_transition(&mut self)
        ensures
            *final(self) == (SystemState { sleep_transition: true, ..*old(self) }),
    {
        self.sleep_transition = true;
    }

    pub fn mark_wake_transition(&mut self)
        ensures
            *final(self) == (SystemState { wake_transition: true, ..*old(self) }),
    {
        self.wake_transition = true;
    }

    pub fn clear_sleep_transition(&mut self)
        ensures
            *final(self) == (SystemState { sleep_transition: false, ..*old(self) }),
    {
        self.sleep_transition = false;
    }

    pub fn start_sleep_overlay(&mut self)
        ensures
            *final(self) == (SystemState {
                sleep_transition: true,
                sleep_overlay_pending: true,
                ..*old(self)
            }),
    {
        self.sleep_transition = true;
        self.sleep_overlay_pending = true;
    }

    pub fn clear_sleep_overlay_pending(&mut self)
        ensures
            *final(self) == (SystemState { sleep_overlay_pending: false, ..*old(self) }),
    {
        self.sleep_overlay_pending = false;
    }

    pub fn sleep_overlay_pending(&self) -> (r: bool)
        ensures
            r == self.sleep_overlay_pending,
    {
        self.sleep_overlay_pending
    }

    /// Reports and clears the pending sleep transition.
    pub fn take_sleep_transition(&mut self) -> (r: bool)
        ensures
            r == old(self).sleep_transition,
            *final(self) == (SystemState { sleep_transition: false, ..*old(self) }),
    {
        let value = self.sleep_transition;
        self.sleep_transition = false;
        value
    }

    /// Reports and clears the pending wake transition.
    pub fn take_wake_transition(&mut self) -> (r: bool)
        ensures
            r == old(self).wake_transition,
            *final(self) == (SystemState { wake_transition: false, ..*old(self) }),
    {
        let value = self.wake_transition;
        self.wake_transition = false;
        value
    }

    /// Records a battery reading; reports whether it changed.
    pub fn set_battery_percent(&mut self, percent: Option<u8>) -> (r: bool)
        ensures
            r == (old(self).battery_percent != percent),
            *final(self) == (SystemState { battery_percent: percent, ..*old(self) }),
    {
        let same = match (self.battery_percent, percent) {
            (None, None) => true,
            (Some(a), Some(b)) => a == b,
            _ => false,
        };
        if same {
            return false;
        }
        self.battery_percent = percent;
        true
    }

    pub fn on_wake(&mut self)
        ensures
            *final(self) == (SystemState {
                wake_transition: true,
                sleep_transition: false,
                full_refresh: true,
                idle_ms: 0,
                ..*old(self)
            }),
    {
        self.mark_wake_transition();
        self.clear_sleep_transition();
        self.full_refresh = true;
        self.reset_idle();
    }

    /// The entries offered on the start menu.
    pub fn collect_recent_paths(&self, last_viewed_entry: Option<&String>) -> (r: Vec<String>)
        requires
            self.book_positions.wf(),
        ensures
            string_views(r@) == spec_recent_paths(
                self.recent_view(),
                match last_viewed_entry {
                    Some(l) => Some(l@),
                    None => None,
                },
                position_names(self.book_positions.ordered()),
            ),
            r@.len() <= MAX_START_RECENTS,
    {
        let mut recent = clone_strings(&self.recent_entries);
        let ghost last = match last_viewed_entry {
            Some(l) => Some(l@),
            None => None,
        };
        if let Some(entry) = last_viewed_entry {
            if !contains_str(&recent, entry.as_str()) {
                recent.insert(0, entry.clone());
                assert(string_views(recent@) =~= seq![entry@] + self.recent_view());
            }
        }
        let ghost base = string_views(recent@);
        let ghost names = position_names(self.book_positions.ordered());
        let n = self.book_positions.len();
        let mut i: usize = 0;
        assert(names.skip(0) =~= names);
        while i < n && recent.len() < MAX_START_RECENTS
            invariant
                i <= n,
                n == self.book_positions.ordered().len(),
                names == position_names(self.book_positions.ordered()),
                fill_recent(base, names) == fill_recent(string_views(recent@), names.skip(
                    i as int,
                )),
            decreases n - i,
        {
            let (name, _) = self.book_positions.entry_at(i);
            assert(names.skip(i as int)[0] == name@);
            assert(names.skip(i as int).drop_first() =~= names.skip(i + 1));
            if !contains_str(&recent, name.as_str()) {
                let ghost before = string_views(recent@);
                recent.push(name.clone());
                assert(string_views(recent@) =~= before.push(name@));
            }
            i = i + 1;
        }
        assert(i >= n || recent@.len() >= MAX_START_RECENTS);
        proof {
            if i >= n {
                assert(names.skip(i as int).len() == 0);
            }
        }
        truncate_strings(&mut recent, MAX_START_RECENTS);
        assert(string_views(recent@).len() == recent@.len());
        recent
    }

    /// Consumes the saved resume name and turns it into a place to reopen:
    /// nothing for none, for the start menu ("HOME") or for a path without
    /// pieces; otherwise its folder pieces, its file name and the page saved
    /// for it.
    pub fn try_resume(&mut self) -> (r: TryResumeOutcome)
        requires
            old(self).book_positions.wf(),
        ensures
            final(self).resume_name is None,
            *final(self) == (SystemState { resume_name: None, ..*old(self) }),
            match old(self).resume_name {
                None => r is Nothing,
                Some(name) => {
                    let segs = path_segments(name@);
                    if name@ == "HOME"@ || segs.len() == 0 {
                        r is Nothing
                    } else {
                        r matches TryResumeOutcome::Resume { path, file, page } && string_views(
                            path@,
                        ) == segs.drop_last() && file@ == segs.last() && page == lookup(
                            old(self).book_positions.ordered(),
                            name@,
                        )
                    }
                },
            },
    {
        let raw = self.resume_name.take();
        let name = match raw {
            None => return TryResumeOutcome::Nothing,
            Some(n) => n,
        };
        if str_eq(name.as_str(), "HOME") {
            return TryResumeOutcome::Nothing;
        }
        let mut parts = split_path(name.as_str());
        if parts.len() == 0 {
            return TryResumeOutcome::Nothing;
        }
        let ghost segs = path_segments(name@);
        assert(string_views(parts@) =~= segs);
        let file = parts.pop().unwrap();
        assert(string_views(parts@) =~= segs.drop_last());
        let page = self.book_positions.get(name.as_str());
        TryResumeOutcome::Resume { path: parts, file, page }
    }

    /// Moves `path` to the front of the recent list.
    pub fn mark_recent(&mut self, path: String)
        ensures
            final(self).recent_view() == spec_mark_recent(old(self).recent_view(), path@),
            final(self).recent_dirty,
            *final(self) == (SystemState {
                recent_entries: final(self).recent_entries,
                recent_dirty: true,
                ..*old(self)
            }),
    {
        let ghost old_view = self.recent_view();
        let mut kept: Vec<String> = Vec::new();
        let mut i: usize = 0;
        while i < self.recent_entries.len()
            invariant
                i <= self.recent_entries@.len(),
                old_view == string_views(self.recent_entries@),
                string_views(kept@) == remove_all(old_view.take(i as int), path@),
            decreases self.recent_entries@.len() - i,
        {
            assert(old_view.take(i + 1).drop_last() =~= old_view.take(i as int));
            assert(old_view.take(i + 1).last() == self.recent_entries@[i as int]@);
            if !str_eq(self.recent_entries[i].as_str(), path.as_str()) {
                let ghost before = string_views(kept@);
                kept.push(self.recent_entries[i].clone());
                assert(string_views(kept@) =~= before.push(self.recent_entries@[i as int]@));
            }
            i = i + 1;
        }
        assert(old_view.take(i as int) =~= old_view);
        let ghost removed = string_views(kept@);
        kept.insert(0, path);
        assert(string_views(kept@) =~= seq![path@] + removed);
        truncate_strings(&mut kept, MAX_RECENT);
        self.recent_entries = kept;
        self.recent_dirty = true;
    }

    /// Saves the open book's page under the current (or else the last
    /// viewed) entry; marks the positions dirty when that changed them.
    pub fn update_book_position(
        &mut self,
        book_reader: &BookReaderState,
        current_entry: Option<&String>,
        last_viewed_entry: Option<&String>,
    )
        requires
            old(self).book_positions.wf(),
        ensures
            final(self).book_positions.wf(),
            ({
                let name = match current_entry {
                    Some(c) => Some(c@),
                    None => match last_viewed_entry {
                        Some(l) => Some(l@),
                        None => None,
                    },
                };
                if book_reader.current_book is Some && name is Some {
                    let prev = lookup(old(self).book_positions.ordered(), name->0);
                    &&& final(self).book_positions.ordered()
                        == crate::app::positions::sorted_insert(
                        old(self).book_positions.ordered(),
                        name->0,
                        book_reader.current_page,
                    )
                    &&& final(self).book_positions_dirty == (old(self).book_positions_dirty || prev
                        != Some(book_reader.current_page))
                } else {
                    final(self).book_positions == old(self).book_positions
                        && final(self).book_positions_dirty == old(self).book_positions_dirty
                }
            }),
            *final(self) == (SystemState {
                book_positions: final(self).book_positions,
                book_positions_dirty: final(self).book_positions_dirty,
                ..*old(self)
            }),
    {
        if book_reader.current_book.is_some() {
            let name = match current_entry {
                Some(c) => Some(c),
                None => last_viewed_entry,
            };
            if let Some(name) = name {
                let prev = self.book_positions.insert(name.clone(), book_reader.current_page);
                let same = match prev {
                    Some(p) => p == book_reader.current_page,
                    None => false,
                };
                if !same {
                    self.book_positions_dirty = true;
                }
            }
        }
    }

    /// Writes the positions out when they changed.
    pub fn save_book_positions_now<S: AppSource>(&mut self, source: &mut S)
        ensures
            !final(self).book_positions_dirty,
            *final(self) == (SystemState { book_positions_dirty: false, ..*old(self) }),
    {
        if !self.book_positions_dirty {
            return;
        }
        let entries = self.book_positions.to_vec();
        source.save_book_positions(entries.as_slice());
        self.book_positions_dirty = false;
    }

    /// Writes the recent list out when it changed.
    pub fn save_recent_entries_now<S: AppSource>(&mut self, source: &mut S)
        ensures
            *final(self) == (SystemState { recent_dirty: false, ..*old(self) }),
    {
        if !self.recent_dirty {
            return;
        }
        source.save_recent_entries(self.recent_entries.as_slice());
        self.recent_dirty = false;
    }

    /// What to save as the resume state: "HOME" on the start menu, else the
    /// current entry, else the last viewed one, else the file browser's
    /// selected file.
    pub fn current_resume_string(
        &self,
        in_start_menu: bool,
        current_entry: Option<&String>,
        last_viewed_entry: Option<&String>,
        home_current_entry: Option<String>,
    ) -> (r: Option<String>)
        ensures
            r matches Some(s) ==> s@ == spec_resume_string(
                in_start_menu,
                opt_view(current_entry),
                opt_view(last_viewed_entry),
                match home_current_entry {
                    Some(h) => Some(h@),
                    None => None,
                },
            )->0,
            (r is Some) == (spec_resume_string(
                in_start_menu,
                opt_view(current_entry),
                opt_view(last_viewed_entry),
                match home_current_entry {
                    Some(h) => Some(h@),
                    None => None,
                },
            ) is Some),
    {
        if in_start_menu {
            let home = String::from_str("HOME");
            return Some(home);
        }
        match current_entry {
            Some(c) => Some(c.clone()),
            None => match last_viewed_entry {
                Some(l) => Some(l.clone()),
                None => home_current_entry,
            },
        }
    }

    /// Checks what the storage read back after saving `expected` as the
    /// resume state; a mismatch (or nothing read) is an error that sends the
    /// device to sleep after showing it.
    pub fn finish_resume_save(&mut self, expected: &String, actual: String) -> (r:
        SaveResumeOutcome)
        ensures
            final(self).last_saved_resume == Some(actual),
            (r is Saved) == (actual@.len() > 0 && actual@ == expected@),
            r is Saved ==> *final(self) == (SystemState {
                last_saved_resume: Some(actual),
                ..*old(self)
            }),
            r is Error ==> *final(self) == (SystemState {
                last_saved_resume: Some(actual),
                sleep_after_error: true,
                sleep_from_home: false,
                ..*old(self)
            }),
            r matches SaveResumeOutcome::Error(m) ==> m@ == "Failed to save resume state."@,
    {
        let ok = !actual.as_str().is_empty() && str_eq(actual.as_str(), expected.as_str());
        proof {
            if actual@.len() > 0 {
            }
        }
        self.last_saved_resume = Some(actual);
        if !ok {
            self.sleep_after_error = true;
            self.sleep_from_home = false;
            return SaveResumeOutcome::Error(String::from_str("Failed to save resume state."));
        }
        SaveResumeOutcome::Saved
    }

    /// Saves positions, the recent list and the resume state before sleep,
    /// reading the resume state back to check it.
    #[verifier::spinoff_prover]
    #[verifier::rlimit(50)]
    pub fn save_resume_checked<S: AppSource>(&mut self, ctx: ResumeContext<'_, S>) -> (r:
        SaveResumeOutcome)
        requires
            old(self).book_positions.wf(),
        ensures
            final(self).book_positions.wf(),
            !final(self).book_positions_dirty || (spec_expected_resume(*old(self), ctx) is None
                && final(self).book_positions_dirty == old(self).book_positions_dirty),
            spec_expected_resume(*old(self), ctx) is None ==> r is Saved && *final(self)
                == *old(self),
            r is Error ==> final(self).sleep_after_error && !final(self).sleep_from_home,
            spec_expected_resume(*old(self), ctx) matches Some(x) ==> {
                let saved = SystemState {
                    book_positions: final(self).book_positions,
                    book_positions_dirty: false,
                    recent_dirty: false,
                    ..*old(self)
                };
                &&& final(self).book_positions.ordered() == positions_after_update(
                    *old(self),
                    *ctx.book_reader,
                    opt_view(ctx.current_entry),
                    opt_view(ctx.last_viewed_entry),
                )
                &&& if old(self).last_saved_resume matches Some(p) && p@ == x {
                    r is Saved && *final(self) == saved
                } else {
                    &&& final(self).last_saved_resume matches Some(a) && (r is Saved) == (a@.len() > 0
                        && a@ == x)
                    &&& r is Saved ==> *final(self) == (SystemState {
                        last_saved_resume: final(self).last_saved_resume,
                        ..saved
                    })
                    &&& r matches SaveResumeOutcome::Error(m) ==> m@ == "Failed to save resume state."@
                        && *final(self) == (SystemState {
                        last_saved_resume: final(self).last_saved_resume,
                        sleep_after_error: true,
                        sleep_from_home: false,
                        ..saved
                    })
                }
            },
    {
        let expected = if self.sleep_from_home {
            Some(String::from_str("HOME"))
        } else {
            self.current_resume_string(
                ctx.in_start_menu,
                ctx.current_entry,
                ctx.last_viewed_entry,
                ctx.home_current_entry,
            )
        };
        let expected = match expected {
            None => return SaveResumeOutcome::Saved,
            Some(e) => e,
        };
        self.update_book_position(ctx.book_reader, ctx.current_entry, ctx.last_viewed_entry);
        self.save_book_positions_now(ctx.source);
        self.save_recent_entries_now(ctx.source);
        let same = match &self.last_saved_resume {
            Some(prev) => str_eq(prev.as_str(), expected.as_str()),
            None => false,
        };
        if !same {
            ctx.source.save_resume(Some(expected.as_str()));
            let actual = match ctx.source.load_resume() {
                Some(a) => a,
                None => String::new(),
            };
            return self.finish_resume_save(&expected, actual);
        }
        SaveResumeOutcome::Saved
    }
}

/// The saved reading positions after the open book's page is recorded
/// under the current (or else the last viewed) entry.
pub open spec fn positions_after_update(
    s: SystemState,
    reader: BookReaderState,
    current: Option<Seq<char>>,
    last_viewed: Option<Seq<char>>,
) -> Seq<(Seq<char>, usize)> {
    let name = if current is Some {
        current
    } else {
        last_viewed
    };
    if reader.current_book is Some && name is Some {
        crate::app::positions::sorted_insert(s.book_positions.ordered(), name->0, reader.current_page)
    } else {
        s.book_positions.ordered()
    }
}

pub open spec fn opt_view(o: Option<&String>) -> Option<Seq<char>> {
    match o {
        Some(s) => Some(s@),
        None => None,
    }
}

/// The resume state that should be saved, if any.
pub open spec fn spec_resume_string(
    in_start_menu: bool,
    current: Option<Seq<char>>,
    last_viewed: Option<Seq<char>>,
    home_current: Option<Seq<char>>,
) -> Option<Seq<char>> {
    if in_start_menu {
        Some("HOME"@)
    } else if current is Some {
        current
    } else if last_viewed is Some {
        last_viewed
    } else {
        home_current
    }
}

/// The resume state a sleep request must save.
pub open spec fn spec_expected_resume<S: AppSource>(s: SystemState, ctx: ResumeContext<'_, S>) -> Option<
    Seq<char>,
> {
    if s.sleep_from_home {
        Some("HOME"@)
    } else {
        spec_resume_string(
            ctx.in_start_menu,
            opt_view(ctx.current_entry),
            opt_view(ctx.last_viewed_entry),
            match ctx.home_current_entry {
                Some(h) => Some(h@),
                None => None,
            },
        )
    }
}

/// Writing back pixels saved from the same buffer leaves it unchanged, so
/// restoring the pixels under an overlay undoes only what was drawn over
/// them.
pub proof fn lemma_restore_saved(r: Rotation, buf: Seq<u8>, rect: Rect, saved: Seq<u8>, n: int)
    requires
        buf.len() == BUFFER_SIZE,
        rect_ok(rect),
        0 <= n <= saved.len(),
        forall|k: int|
            0 <= k < saved.len() ==> #[trigger] saved[k] == if pixel_value(
                r,
                buf,
                rect_point(rect, k).0,
                rect_point(rect, k).1,
            ) {
                1u8
            } else {
                0u8
            },
    ensures
        restore_prefix(r, buf, rect, saved, n) == buf,
    decreases n,
{
    if n > 0 {
        lemma_restore_saved(r, buf, rect, saved, n - 1);
        let (x, y) = rect_point(rect, n - 1);
        assert(saved[n - 1] == 1u8 || saved[n - 1] == 0u8);
        assert(stored_on(saved, n - 1) == pixel_value(r, buf, x, y));
        lemma_set_pixel_same(r, buf, x, y);
    }
}

/// After opening `path`, it is the first recent entry, it occurs once, and
/// the list holds at most `MAX_RECENT` entries.
pub proof fn lemma_mark_recent(recent: Seq<Seq<char>>, path: Seq<char>)
    ensures
        spec_mark_recent(recent, path)[0] == path,
        spec_mark_recent(recent, path).len() <= MAX_RECENT,
        forall|i: int|
            1 <= i < spec_mark_recent(recent, path).len() ==> #[trigger] spec_mark_recent(
                recent,
                path,
            )[i] != path,
{
    lemma_remove_all(recent, path);
    let full = seq![path] + remove_all(recent, path);
    assert forall|i: int| 1 <= i < spec_mark_recent(recent, path).len() implies #[trigger] spec_mark_recent(
        recent,
        path,
    )[i] != path by {
        assert(spec_mark_recent(recent, path)[i] == full[i]);
        assert(full[i] == remove_all(recent, path)[i - 1]);
    }
}

/// Whether an entry is other than `x`.
pub open spec fn other_than(x: Seq<char>) -> spec_fn(Seq<char>) -> bool {
    |e: Seq<char>| e != x
}

proof fn lemma_remove_all_filter(s: Seq<Seq<char>>, x: Seq<char>)
    ensures
        remove_all(s, x) == s.filter(other_than(x)),
    decreases s.len(),
{
    reveal(Seq::filter);
    if s.len() > 0 {
        lemma_remove_all_filter(s.drop_last(), x);
        assert(s.filter(other_than(x)) == (if other_than(x)(s.last()) {
            s.drop_last().filter(other_than(x)).push(s.last())
        } else {
            s.drop_last().filter(other_than(x))
        }));
    }
}

/// Opening `path` puts it first and keeps every other recent entry, in
/// the order they had, dropping only the older occurrences of `path` and
/// whatever falls past `MAX_RECENT`.
pub proof fn lemma_mark_recent_keeps_order(recent: Seq<Seq<char>>, path: Seq<char>)
    ensures
        spec_mark_recent(recent, path) == cap(
            seq![path] + recent.filter(other_than(path)),
            MAX_RECENT as int,
        ),
        spec_mark_recent(recent, path).skip(1) == cap(
            recent.filter(other_than(path)),
            MAX_RECENT - 1,
        ),
{
    lemma_remove_all_filter(recent, path);
    let f = recent.filter(other_than(path));
    let full = seq![path] + f;
    assert(full.skip(1) =~= f);
    if full.len() > MAX_RECENT {
        assert(full.take(MAX_RECENT as int).skip(1) =~= f.take(MAX_RECENT - 1));
    }
}

proof fn lemma_remove_all(s: Seq<Seq<char>>, x: Seq<char>)
    ensures
        forall|i: int| 0 <= i < remove_all(s, x).len() ==> #[trigger] remove_all(s, x)[i] != x,
        remove_all(s, x).len() <= s.len(),
    decreases s.len(),
{
    if s.len() > 0 {
        lemma_remove_all(s.drop_last(), x);
    }
}

} // verus!
