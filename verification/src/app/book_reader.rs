//! Reading state of an open book: page navigation, the table of contents
//! and the prefetch bookkeeping of the next page.

use vstd::prelude::*;
use crate::image_viewer::{AppSource, ImageEntry, ImageError};
use crate::input::{ButtonState, Buttons};
use crate::trbk::{TrbkBookInfo, TrbkPage, TrbkTocEntry};
use crate::app::positions::{lookup, BookPositions};

verus! {

/// Every this many page turns the panel gets a full refresh.
pub const BOOK_FULL_REFRESH_EVERY: usize = 10;

#[derive(Clone, Copy, Debug, PartialEq, Eq, Structural)]
pub enum PageTurnIndicator {
    Forward,
    Backward,
}

pub struct BookReaderState {
    pub current_book: Option<TrbkBookInfo>,
    pub current_page_ops: Option<TrbkPage>,
    pub next_page_ops: Option<TrbkPage>,
    pub prefetched_page: Option<usize>,
    pub prefetched_gray2_used: bool,
    pub toc_selected: usize,
    pub toc_labels: Option<Vec<String>>,
    pub current_page: usize,
    pub book_turns_since_full: usize,
    pub last_rendered_page: Option<usize>,
    pub page_turn_indicator: Option<PageTurnIndicator>,
}

/// What a key press in the page view asks of the application.
pub struct BookViewResult {
    pub exit: bool,
    pub open_toc: bool,
    pub dirty: bool,
}

/// What a key press in the table of contents asks of the application.
pub struct TocResult {
    pub exit: bool,
    pub jumped: bool,
    pub dirty: bool,
}

/// `a + 1`, stopping at the maximum.
pub open spec fn sat_inc(a: usize) -> usize {
    if a == usize::MAX {
        a
    } else {
        (a + 1) as usize
    }
}

/// Number of leading table-of-contents entries that start at or before `page`.
pub open spec fn toc_prefix_len(toc: Seq<TrbkTocEntry>, page: int) -> nat
    decreases toc.len(),
{
    if toc.len() == 0 {
        0
    } else if toc[0].page_index as int <= page {
        1 + toc_prefix_len(toc.drop_first(), page)
    } else {
        0
    }
}

/// The entry of the table of contents that `page` belongs to: the last of
/// the leading entries that start at or before it (the first if none does).
pub open spec fn spec_toc_selection(toc: Seq<TrbkTocEntry>, page: int) -> int {
    let k = toc_prefix_len(toc, page);
    if k == 0 {
        0
    } else {
        k - 1
    }
}

proof fn lemma_toc_prefix(toc: Seq<TrbkTocEntry>, page: int, i: int)
    requires
        0 <= i <= toc.len(),
        forall|j: int| 0 <= j < i ==> toc[j].page_index as int <= page,
    ensures
        toc_prefix_len(toc, page) == i + toc_prefix_len(toc.skip(i), page),
    decreases i,
{
    if i > 0 {
        lemma_toc_prefix(toc.drop_first(), page, i - 1);
        assert(toc.drop_first().skip(i - 1) =~= toc.skip(i));
    } else {
        assert(toc.skip(0) =~= toc);
    }
}

proof fn lemma_toc_prefix_props(toc: Seq<TrbkTocEntry>, page: int)
    ensures
        toc_prefix_len(toc, page) <= toc.len(),
        forall|j: int| 0 <= j < toc_prefix_len(toc, page) ==> #[trigger] toc[j].page_index as int <= page,
        toc_prefix_len(toc, page) < toc.len() ==> toc[toc_prefix_len(toc, page) as int].page_index as int
            > page,
    decreases toc.len(),
{
    if toc.len() > 0 && toc[0].page_index as int <= page {
        lemma_toc_prefix_props(toc.drop_first(), page);
        assert forall|j: int| 0 <= j < toc_prefix_len(toc, page) implies #[trigger] toc[j].page_index as int
            <= page by {
            if j > 0 {
                assert(toc[j] == toc.drop_first()[j - 1]);
            }
        }
    }
}

/// The entry the table of contents opens at for `page`: in a nonempty
/// table, when the first chapter starts at or before the page, it is a
/// chapter starting at or before the page whose predecessors all do too,
/// and the chapter after it (if any) starts after the page; when even the
/// first chapter starts after the page, it is the first entry.
pub proof fn lemma_toc_selection_is_current_chapter(toc: Seq<TrbkTocEntry>, page: int)
    requires
        toc.len() > 0,
    ensures
        0 <= spec_toc_selection(toc, page) < toc.len(),
        toc[0].page_index as int > page ==> spec_toc_selection(toc, page) == 0,
        toc[0].page_index as int <= page ==> {
            let r = spec_toc_selection(toc, page);
            &&& forall|j: int| 0 <= j <= r ==> #[trigger] toc[j].page_index as int <= page
            &&& r + 1 < toc.len() ==> toc[r + 1].page_index as int > page
        },
{
    lemma_toc_prefix_props(toc, page);
    if toc[0].page_index as int <= page {
        assert(toc_prefix_len(toc, page) >= 1);
    }
}

/// Index of the table-of-contents entry that `page` falls under.
pub fn find_toc_selection(book: &TrbkBookInfo, page: usize) -> (r: usize)
    ensures
        r == spec_toc_selection(book.toc@, page as int),
{
    let mut selected: usize = 0;
    let mut idx: usize = 0;
    while idx < book.toc.len()
        invariant
            idx <= book.toc@.len(),
            forall|j: int| 0 <= j < idx ==> book.toc@[j].page_index as int <= page,
            selected == (if idx == 0 {
                0
            } else {
                idx - 1
            }),
        decreases book.toc@.len() - idx,
    {
        if (book.toc[idx].page_index as usize) <= page {
            selected = idx;
            idx = idx + 1;
        } else {
            proof {
                lemma_toc_prefix(book.toc@, page as int, idx as int);
            }
            return selected;
        }
    }
    proof {
        lemma_toc_prefix(book.toc@, page as int, idx as int);
    }
    selected
}

impl BookReaderState {
    /// No book open.
    pub open spec fn is_cleared(&self) -> bool {
        &&& self.current_book is None
        &&& self.current_page_ops is None
        &&& self.next_page_ops is None
        &&& self.prefetched_page is None
        &&& !self.prefetched_gray2_used
        &&& self.toc_selected == 0
        &&& self.toc_labels is None
        &&& self.current_page == 0
        &&& self.book_turns_since_full == 0
        &&& self.last_rendered_page is None
        &&& self.page_turn_indicator is None
    }

    pub fn new() -> (r: Self)
        ensures
            r.is_cleared(),
    {
        BookReaderState {
            current_book: None,
            current_page_ops: None,
            next_page_ops: None,
            prefetched_page: None,
            prefetched_gray2_used: false,
            toc_selected: 0,
            toc_labels: None,
            current_page: 0,
            book_turns_since_full: 0,
            last_rendered_page: None,
            page_turn_indicator: None,
        }
    }

    /// Forgets the open book and every page it cached.
    pub fn clear(&mut self)
        ensures
            final(self).is_cleared(),
    {
        self.current_book = None;
        self.current_page_ops = None;
        self.next_page_ops = None;
        self.prefetched_page = None;
        self.prefetched_gray2_used = false;
        self.toc_selected = 0;
        self.toc_labels = None;
        self.current_page = 0;
        self.book_turns_since_full = 0;
        self.last_rendered_page = None;
        self.page_turn_indicator = None;
    }

    /// Forgets the book and tells the source to close it.
    pub fn close<S: AppSource>(&mut self, source: &mut S)
        ensures
            final(self).is_cleared(),
    {
        self.clear();
        source.close_trbk();
    }

    /// Takes over a freshly opened book: the reading position comes from
    /// `saved_page` (page 0 when none was saved) and every cache is reset.
    pub fn start_book(&mut self, info: TrbkBookInfo, saved_page: Option<usize>)
        ensures
            final(self).current_book == Some(info),
            final(self).toc_labels is None,
            final(self).current_page == match saved_page {
                Some(p) => p,
                None => 0,
            },
            final(self).current_page_ops is None,
            final(self).next_page_ops is None,
            final(self).prefetched_page is None,
            !final(self).prefetched_gray2_used,
            final(self).last_rendered_page is None,
            final(self).book_turns_since_full == 0,
            final(self).toc_selected == old(self).toc_selected,
            final(self).page_turn_indicator == old(self).page_turn_indicator,
    {
        self.current_book = Some(info);
        self.toc_labels = None;
        self.current_page = match saved_page {
            Some(p) => p,
            None => 0,
        };
        self.current_page_ops = None;
        self.next_page_ops = None;
        self.prefetched_page = None;
        self.prefetched_gray2_used = false;
        self.last_rendered_page = None;
        self.book_turns_since_full = 0;
    }

    /// Opens a book from the source at the position saved under
    /// `entry_name` (page 0 when none was saved) and loads that page. When
    /// the source cannot open the book its error is returned and the state
    /// is left as it was.
    pub fn open<S: AppSource>(
        &mut self,
        source: &mut S,
        path: &[String],
        entry: &ImageEntry,
        entry_name: &str,
        book_positions: &BookPositions,
    ) -> (r: Result<(), ImageError>)
        requires
            book_positions.wf(),
        ensures
            r is Err ==> *final(self) == *old(self),
            r is Ok ==> {
                &&& final(self).current_book is Some
                &&& final(self).toc_labels is None
                &&& final(self).current_page == match lookup(
                    book_positions.ordered(),
                    entry_name@,
                ) {
                    Some(p) => p,
                    None => 0,
                }
                &&& final(self).next_page_ops is None
                &&& final(self).prefetched_page is None
                &&& !final(self).prefetched_gray2_used
                &&& final(self).last_rendered_page is None
                &&& final(self).book_turns_since_full == 0
                &&& final(self).toc_selected == old(self).toc_selected
                &&& final(self).page_turn_indicator == old(self).page_turn_indicator
            },
    {
        let info = match source.open_trbk(path, entry) {
            Ok(info) => info,
            Err(e) => return Err(e),
        };
        let saved_page = book_positions.get(entry_name);
        self.start_book(info, saved_page);
        self.current_page_ops = match source.trbk_page(self.current_page) {
            Ok(page) => Some(page),
            Err(_) => None,
        };
        Ok(())
    }

    pub fn has_book(&self) -> (r: bool)
        ensures
            r == self.current_book is Some,
    {
        self.current_book.is_some()
    }

    pub fn take_page_turn_indicator(&mut self) -> (r: Option<PageTurnIndicator>)
        ensures
            r == old(self).page_turn_indicator,
            *final(self) == (BookReaderState { page_turn_indicator: None, ..*old(self) }),
    {
        let r = self.page_turn_indicator;
        self.page_turn_indicator = None;
        r
    }

    /// The state after turning back one page.
    pub open spec fn turned_back(old: Self, new: Self) -> bool {
        &&& new.current_page == old.current_page - 1
        &&& new.current_page_ops is None
        &&& new.next_page_ops is None
        &&& new.prefetched_page is None
        &&& !new.prefetched_gray2_used
        &&& new.book_turns_since_full == sat_inc(old.book_turns_since_full)
        &&& new.page_turn_indicator == Some(PageTurnIndicator::Backward)
        &&& new.current_book == old.current_book
        &&& new.toc_selected == old.toc_selected
        &&& new.last_rendered_page == old.last_rendered_page
    }

    /// The state after turning forward one page: the prefetched next page
    /// becomes the current one.
    pub open spec fn turned_forward(old: Self, new: Self) -> bool {
        &&& new.current_page == old.current_page + 1
        &&& new.current_page_ops == old.next_page_ops
        &&& new.next_page_ops is None
        &&& new.prefetched_page is None
        &&& !new.prefetched_gray2_used
        &&& new.book_turns_since_full == sat_inc(old.book_turns_since_full)
        &&& new.page_turn_indicator == Some(PageTurnIndicator::Forward)
        &&& new.current_book == old.current_book
        &&& new.toc_selected == old.toc_selected
        &&& new.last_rendered_page == old.last_rendered_page
    }

    /// Page view keys: Left/Up turn back, Right/Down turn forward (within
    /// the book), Confirm opens a nonempty table of contents at the current
    /// chapter, Back leaves the book.
    pub fn handle_view_input<S: AppSource>(&mut self, source: &mut S, buttons: &ButtonState) -> (r:
        BookViewResult)
        ensures
            ({
                let back = buttons.spec_is_pressed(Buttons::Left) || buttons.spec_is_pressed(
                    Buttons::Up,
                );
                let fwd = buttons.spec_is_pressed(Buttons::Right) || buttons.spec_is_pressed(
                    Buttons::Down,
                );
                let confirm = buttons.spec_is_pressed(Buttons::Confirm);
                let esc = buttons.spec_is_pressed(Buttons::Back);
                let can_fwd = old(self).current_book matches Some(b) && old(self).current_page + 1
                    < b.page_count;
                let can_toc = old(self).current_book matches Some(b) && b.toc@.len() > 0;
                if back {
                    &&& !r.exit && !r.open_toc
                    &&& r.dirty == (old(self).current_page > 0)
                    &&& if old(self).current_page > 0 {
                        Self::turned_back(*old(self), *final(self))
                    } else {
                        *final(self) == *old(self)
                    }
                } else if fwd {
                    &&& !r.exit && !r.open_toc
                    &&& r.dirty == can_fwd
                    &&& if can_fwd {
                        Self::turned_forward(*old(self), *final(self))
                    } else {
                        *final(self) == *old(self)
                    }
                } else if confirm {
                    &&& !r.exit
                    &&& r.open_toc == can_toc && r.dirty == can_toc
                    &&& if can_toc {
                        &&& final(self).toc_selected == spec_toc_selection(
                            old(self).current_book->0.toc@,
                            old(self).current_page as int,
                        )
                        &&& final(self).toc_labels is None
                        &&& final(self).current_page == old(self).current_page
                        &&& final(self).current_book == old(self).current_book
                        &&& final(self).current_page_ops == old(self).current_page_ops
                        &&& final(self).next_page_ops == old(self).next_page_ops
                    } else {
                        *final(self) == *old(self)
                    }
                } else if esc {
                    r.exit && !r.open_toc && r.dirty && *final(self) == *old(self)
                } else {
                    !r.exit && !r.open_toc && !r.dirty && *final(self) == *old(self)
                }
            }),
    {
        let mut result = BookViewResult { exit: false, open_toc: false, dirty: false };
        if buttons.is_pressed(Buttons::Left) || buttons.is_pressed(Buttons::Up) {
            if self.current_page > 0 {
                self.current_page = self.current_page - 1;
                self.current_page_ops = None;
                self.next_page_ops = None;
                self.prefetched_page = None;
                self.prefetched_gray2_used = false;
                self.book_turns_since_full = self.book_turns_since_full.saturating_add(1);
                self.page_turn_indicator = Some(PageTurnIndicator::Backward);
                result.dirty = true;
            }
            return result;
        }
        if buttons.is_pressed(Buttons::Right) || buttons.is_pressed(Buttons::Down) {
            let can = match &self.current_book {
                Some(book) => book.page_count > 0 && self.current_page < book.page_count - 1,
                None => false,
            };
            if can {
                self.current_page = self.current_page + 1;
                self.current_page_ops = self.next_page_ops.take();
                self.next_page_ops = None;
                self.prefetched_page = None;
                self.prefetched_gray2_used = false;
                self.book_turns_since_full = self.book_turns_since_full.saturating_add(1);
                self.page_turn_indicator = Some(PageTurnIndicator::Forward);
                result.dirty = true;
            }
            return result;
        }
        if buttons.is_pressed(Buttons::Confirm) {
            let selection = match &self.current_book {
                Some(book) => {
                    if book.toc.len() > 0 {
                        Some(find_toc_selection(book, self.current_page))
                    } else {
                        None
                    }
                },
                None => None,
            };
            if let Some(sel) = selection {
                self.toc_selected = sel;
                self.toc_labels = None;
                result.open_toc = true;
                result.dirty = true;
            }
            return result;
        }
        if buttons.is_pressed(Buttons::Back) {
            result.exit = true;
            result.dirty = true;
            return result;
        }
        let _ = source;
        result
    }

    /// Table-of-contents keys: Up/Down move the selection within the table,
    /// Confirm jumps to the selected chapter, Back returns to the page view;
    /// without a book the table closes at once.
    pub fn handle_toc_input(&mut self, buttons: &ButtonState) -> (r: TocResult)
        ensures
            ({
                let up = buttons.spec_is_pressed(Buttons::Up);
                let down = buttons.spec_is_pressed(Buttons::Down);
                let confirm = buttons.spec_is_pressed(Buttons::Confirm);
                let esc = buttons.spec_is_pressed(Buttons::Back);
                match old(self).current_book {
                    None => r.exit && r.dirty && !r.jumped && *final(self) == *old(self),
                    Some(book) => {
                        let len = book.toc@.len();
                        let sel = old(self).toc_selected;
                        if up {
                            &&& !r.exit && !r.jumped && r.dirty == (sel > 0)
                            &&& if sel > 0 {
                                *final(self) == BookReaderState {
                                    toc_selected: (sel - 1) as usize,
                                    ..*old(self)
                                }
                            } else {
                                *final(self) == *old(self)
                            }
                        } else if down {
                            &&& !r.exit && !r.jumped && r.dirty == (sel + 1 < len)
                            &&& if sel + 1 < len {
                                *final(self) == BookReaderState {
                                    toc_selected: (sel + 1) as usize,
                                    ..*old(self)
                                }
                            } else {
                                *final(self) == *old(self)
                            }
                        } else if confirm {
                            &&& !r.exit && r.jumped == (sel < len) && r.dirty == (sel < len)
                            &&& if sel < len {
                                &&& final(self).current_page == book.toc@[sel as int].page_index
                                    as usize
                                &&& final(self).current_page_ops is None
                                &&& final(self).next_page_ops is None
                                &&& final(self).prefetched_page is None
                                &&& !final(self).prefetched_gray2_used
                                &&& final(self).last_rendered_page is None
                                &&& final(self).book_turns_since_full == 0
                                &&& final(self).current_book == old(self).current_book
                                &&& final(self).toc_selected == sel
                            } else {
                                *final(self) == *old(self)
                            }
                        } else if esc {
                            r.exit && r.dirty && !r.jumped && *final(self) == *old(self)
                        } else {
                            !r.exit && !r.dirty && !r.jumped && *final(self) == *old(self)
                        }
                    },
                }
            }),
    {
        let mut result = TocResult { exit: false, jumped: false, dirty: false };
        let (toc_len, target) = match &self.current_book {
            None => {
                result.exit = true;
                result.dirty = true;
                return result;
            },
            Some(book) => {
                let len = book.toc.len();
                let target = if self.toc_selected < len {
                    Some(book.toc[self.toc_selected].page_index as usize)
                } else {
                    None
                };
                (len, target)
            },
        };
        if buttons.is_pressed(Buttons::Up) {
            if self.toc_selected > 0 {
                self.toc_selected = self.toc_selected - 1;
                result.dirty = true;
            }
            return result;
        }
        if buttons.is_pressed(Buttons::Down) {
            if self.toc_selected < toc_len && self.toc_selected + 1 < toc_len {
                self.toc_selected = self.toc_selected + 1;
                result.dirty = true;
            }
            return result;
        }
        if buttons.is_pressed(Buttons::Confirm) {
            if let Some(page) = target {
                self.current_page = page;
                self.current_page_ops = None;
                self.next_page_ops = None;
                self.prefetched_page = None;
                self.prefetched_gray2_used = false;
                self.last_rendered_page = None;
                self.book_turns_since_full = 0;
                result.jumped = true;
                result.dirty = true;
            }
            return result;
        }
        if buttons.is_pressed(Buttons::Back) {
            result.exit = true;
            result.dirty = true;
            return result;
        }
        result
    }
}

} // verus!
