//! Drawing the open book: the current page (or the one prefetched for it),
//! the page counter and how the panel is refreshed, then the prefetch of the
//! next page; and the labels of the table of contents.

use vstd::prelude::*;
use crate::app::book_reader::{BookReaderState, BOOK_FULL_REFRESH_EVERY};
use crate::app::screens::{full_rect, opt_draw_view, page_indicator_op, page_indicator_view};
use crate::app::start_menu::MenuDraw;
use crate::display::RefreshMode;
use crate::framebuffer::{logical_height, logical_width, DisplayBuffers, BUFFER_SIZE};
use crate::image_viewer::{AppSource, ImageError};
use crate::render::{
    check_page_fits, fallback_view, page_fits, render_trbk_page_ops, text_runs, FallbackText,
    GrayPlanes,
};
use crate::trbk::{TrbkBookInfo, TrbkPage, TrbkTocEntry};
use crate::app::system::clone_strings;
use crate::text::{concat, copy_str, string_views};
use crate::ui::ListScreen;
use crate::ui::Rect;

verus! {

/// How the panel shows a drawn book page.
#[derive(Clone, Copy, Debug, PartialEq, Eq, Structural)]
pub enum BookFlush {
    /// Show the 1-bit frame in `mode`, then the grayscale planes: with the
    /// fast absolute waveform when `absolute`, else differentially.
    Grayscale { mode: RefreshMode, absolute: bool },
    /// Refresh `rect`, the whole screen, in `mode`.
    Queue { rect: Rect, mode: RefreshMode },
}

/// A drawn book page: the text left for the built-in font, the page counter
/// to draw over it, and how to refresh the panel.
pub struct BookFrame {
    pub fallback: Vec<FallbackText>,
    pub indicator: Option<MenuDraw>,
    pub flush: BookFlush,
}

/// The texts of a page that were left for the built-in font.
pub open spec fn fallback_views(f: Seq<FallbackText>) -> Seq<(i32, i32, Seq<char>)> {
    f.map_values(|t: FallbackText| fallback_view(t))
}

/// The text runs of `page` left for the built-in font: all of them when the
/// book has no glyphs, none when it has (or when the page could not be
/// drawn without overflow).
pub open spec fn page_fallback(book: TrbkBookInfo, page: TrbkPage) -> Seq<(i32, i32, Seq<char>)> {
    if page_fits(page.ops@) && book.glyphs@.len() == 0 {
        text_runs(page.ops@)
    } else {
        seq![]
    }
}

/// All-white and all-zero screens.
pub open spec fn white_screen() -> Seq<u8> {
    Seq::new(BUFFER_SIZE as nat, |i: int| 0xFFu8)
}

pub open spec fn empty_plane() -> Seq<u8> {
    Seq::new(BUFFER_SIZE as nat, |i: int| 0u8)
}

/// Clears the screen to white and the planes to zero (marked unused) and
/// renders `page` there; a page whose draw operations could overflow is left
/// blank.
fn render_fresh_page<S: AppSource>(
    source: &mut S,
    buffers: &mut DisplayBuffers,
    planes: &mut GrayPlanes,
    book: &TrbkBookInfo,
    page: &TrbkPage,
) -> (r: (bool, Vec<FallbackText>))
    requires
        old(buffers).wf(),
        old(planes).wf(),
    ensures
        final(buffers).wf(),
        final(planes).wf(),
        final(buffers).inactive_view() == old(buffers).inactive_view(),
        final(buffers).spec_rotation() == old(buffers).spec_rotation(),
        final(buffers).spec_active_flag() == old(buffers).spec_active_flag(),
        fallback_views(r.1@) == page_fallback(*book, *page),
        !page_fits(page.ops@) ==> {
            &&& final(buffers).active_view() == white_screen()
            &&& final(planes).lsb@ == empty_plane()
            &&& final(planes).msb@ == empty_plane()
            &&& !final(planes).used
            &&& !r.0
        },
{
    buffers.clear_screen(0xFF);
    planes.clear();
    planes.used = false;
    if !check_page_fits(page) {
        let none: Vec<FallbackText> = Vec::new();
        assert(fallback_views(none@) =~= seq![]);
        return (false, none);
    }
    let mut held = GrayPlanes { lsb: Vec::new(), msb: Vec::new(), used: false };
    std::mem::swap(&mut held, planes);
    let mut slot = Some(held);
    let rendered = render_trbk_page_ops(source, buffers, &mut slot, book, page);
    match slot {
        Some(p) => {
            *planes = p;
        },
        None => {},
    }
    (rendered.gray2_absolute, rendered.fallback)
}

/// What drawing the page of the book open in `a` does: `b`, `bb`, `bp`
/// and `bf` are the reader, the buffers, the planes and the full-refresh
/// flag after it (`ab`, `ap`, `af` before), `r` its answer.
#[verifier::opaque]
pub open spec fn book_drawn(
    a: BookReaderState,
    b: BookReaderState,
    ab: DisplayBuffers,
    bb: DisplayBuffers,
    ap: GrayPlanes,
    bp: GrayPlanes,
    af: bool,
    bf: bool,
    r: Result<BookFrame, ImageError>,
) -> bool {
    &&& (bb.wf())
    &&& (bp.wf())
    &&& (bb.inactive_view() == ab.inactive_view())
    &&& (bb.spec_rotation() == ab.spec_rotation())
    &&& (bb.spec_active_flag() == ab.spec_active_flag())
    &&& (a.current_book is None ==> {
            &&& r matches Err(ImageError::Decode)
            &&& b == a
            &&& bb == ab
            &&& bp == ap
            &&& bf == af
        })
    &&& (a.current_book matches Some(book) ==> r matches Ok(frame) && {
            let using = a.prefetched_page == Some(a.current_page);
            let reset = a.book_turns_since_full >= BOOK_FULL_REFRESH_EVERY;
            let mode = if bf {
                RefreshMode::Full
            } else {
                RefreshMode::Fast
            };
            let gray2 = if using {
                a.prefetched_gray2_used
            } else {
                bp.used
            };
            &&& bf == (af || reset)
            &&& b.book_turns_since_full == if reset {
                0
            } else {
                a.book_turns_since_full
            }
            &&& b.last_rendered_page == Some(a.current_page)
            &&& b.prefetched_page is None
            &&& !b.prefetched_gray2_used
            &&& b.current_book == a.current_book
            &&& b.current_page == a.current_page
            &&& b.toc_selected == a.toc_selected
            &&& b.toc_labels == a.toc_labels
            &&& b.page_turn_indicator == a.page_turn_indicator
            &&& a.current_page_ops is Some ==> b.current_page_ops
                == a.current_page_ops
            &&& a.next_page_ops is Some ==> b.next_page_ops
                == a.next_page_ops
            &&& opt_draw_view(frame.indicator) == page_indicator_view(
                bb,
                a.current_page,
                book.page_count,
            )
            &&& using ==> {
                &&& bb == ab
                &&& bp == ap
                &&& frame.fallback@.len() == 0
            }
            &&& !using ==> match b.current_page_ops {
                Some(page) => fallback_views(frame.fallback@) == page_fallback(book, page),
                None => {
                    &&& bb.active_view() == white_screen()
                    &&& bp.lsb@ == empty_plane()
                    &&& bp.msb@ == empty_plane()
                    &&& !bp.used
                    &&& frame.fallback@.len() == 0
                },
            }
            &&& frame.flush == if gray2 {
                BookFlush::Grayscale { mode, absolute: frame.flush->absolute }
            } else {
                BookFlush::Queue {
                    rect: Rect {
                        x: 0,
                        y: 0,
                        w: logical_width(ab.spec_rotation()) as i32,
                        h: logical_height(ab.spec_rotation()) as i32,
                    },
                    mode,
                }
            }
            &&& frame.flush matches BookFlush::Grayscale { absolute: true, .. } ==> !using
        })
}

impl BookReaderState {
    /// Draws the current page of the open book into the buffers, unless the
    /// prefetch already did, and answers what is left for the display: the
    /// texts for the built-in font, the page counter, and the refresh (the
    /// grayscale planes when the page used them, else the whole screen;
    /// with the full waveform every `BOOK_FULL_REFRESH_EVERY` turns or when
    /// a full refresh was asked for). The next page is fetched for the
    /// prefetch. Without an open book the answer is a decoding error.
    pub fn draw_book<S: AppSource>(
        &mut self,
        source: &mut S,
        buffers: &mut DisplayBuffers,
        planes: &mut GrayPlanes,
        full_refresh: &mut bool,
    ) -> (r: Result<BookFrame, ImageError>)
        requires
            old(buffers).wf(),
            old(planes).wf(),
        ensures
            final(buffers).wf(),
            final(planes).wf(),
            (old(self).current_book is None) == (r is Err),
            book_drawn(
                *old(self),
                *final(self),
                *old(buffers),
                *final(buffers),
                *old(planes),
                *final(planes),
                *old(full_refresh),
                *final(full_refresh),
                r,
            ),
    {
        reveal(book_drawn);
        let book = match &self.current_book {
            Some(b) => b,
            None => return Err(ImageError::Decode),
        };
        let page_count = book.page_count;
        let using_prefetch = match self.prefetched_page {
            Some(p) => p == self.current_page,
            None => false,
        };
        let mut gray2_used = false;
        let mut absolute = false;
        let mut fallback: Vec<FallbackText> = Vec::new();
        if using_prefetch {
            gray2_used = self.prefetched_gray2_used;
        } else {
            if self.current_page_ops.is_none() {
                self.current_page_ops = match source.trbk_page(self.current_page) {
                    Ok(page) => Some(page),
                    Err(_) => None,
                };
            }
            match &self.current_page_ops {
                Some(page) => {
                    let (abs, texts) = render_fresh_page(source, buffers, planes, book, page);
                    absolute = abs;
                    fallback = texts;
                },
                None => {
                    buffers.clear_screen(0xFF);
                    planes.clear();
                    planes.used = false;
                },
            }
            gray2_used = planes.used;
        }
        self.last_rendered_page = Some(self.current_page);
        let indicator = page_indicator_op(buffers, self.current_page, page_count);
        if self.book_turns_since_full >= BOOK_FULL_REFRESH_EVERY {
            *full_refresh = true;
            self.book_turns_since_full = 0;
        }
        let mode = if *full_refresh {
            RefreshMode::Full
        } else {
            RefreshMode::Fast
        };
        let flush = if gray2_used {
            BookFlush::Grayscale { mode, absolute }
        } else {
            BookFlush::Queue { rect: full_rect(buffers), mode }
        };
        self.prefetched_page = None;
        self.prefetched_gray2_used = false;
        if self.next_page_ops.is_none() && self.current_page < page_count && self.current_page + 1
            < page_count {
            self.next_page_ops = match source.trbk_page(self.current_page + 1) {
                Ok(page) => Some(page),
                Err(_) => None,
            };
        }
        Ok(BookFrame { fallback, indicator, flush })
    }
}

/// A page drawn ahead: its texts left for the built-in font and its page
/// counter, to be drawn over it.
pub struct PageTexts {
    pub fallback: Vec<FallbackText>,
    pub indicator: Option<MenuDraw>,
}

impl BookReaderState {
    /// After the current page was shown, draws the next page of the book
    /// into the buffers ahead of time (fetching it when not cached) so that
    /// turning to it needs no drawing. A page that streamed a full-screen
    /// grayscale image is not kept as prefetched. Nothing happens when a
    /// page is already prefetched, no book is open, the current page is the
    /// last, or the next page cannot be had.
    pub fn prefetch_next_page<S: AppSource>(
        &mut self,
        source: &mut S,
        buffers: &mut DisplayBuffers,
        planes: &mut GrayPlanes,
    ) -> (r: Option<PageTexts>)
        requires
            old(buffers).wf(),
            old(planes).wf(),
        ensures
            final(buffers).wf(),
            final(planes).wf(),
            final(buffers).inactive_view() == old(buffers).inactive_view(),
            final(buffers).spec_rotation() == old(buffers).spec_rotation(),
            final(buffers).spec_active_flag() == old(buffers).spec_active_flag(),
            final(self).current_book == old(self).current_book,
            final(self).current_page == old(self).current_page,
            final(self).current_page_ops == old(self).current_page_ops,
            final(self).toc_selected == old(self).toc_selected,
            final(self).toc_labels == old(self).toc_labels,
            final(self).book_turns_since_full == old(self).book_turns_since_full,
            final(self).last_rendered_page == old(self).last_rendered_page,
            final(self).page_turn_indicator == old(self).page_turn_indicator,
            old(self).next_page_ops is Some ==> final(self).next_page_ops == old(self).next_page_ops,
            r is None ==> {
                &&& *final(buffers) == *old(buffers)
                &&& *final(planes) == *old(planes)
                &&& final(self).prefetched_page == old(self).prefetched_page
                &&& final(self).prefetched_gray2_used == old(self).prefetched_gray2_used
            },
            (old(self).prefetched_page is Some || !(old(self).current_book matches Some(book)
                && old(self).current_page + 1 < book.page_count)) ==> r is None && *final(self)
                == *old(self),
            r matches Some(t) ==> {
                let next = (old(self).current_page + 1) as usize;
                &&& old(self).prefetched_page is None
                &&& old(self).current_book matches Some(book) && next < book.page_count && ({
                    &&& final(self).next_page_ops matches Some(page) && fallback_views(t.fallback@)
                        == page_fallback(book, page)
                    &&& opt_draw_view(t.indicator) == page_indicator_view(*final(buffers), next, book.page_count)
                })
                &&& (final(self).prefetched_page == Some(next) && final(self).prefetched_gray2_used
                    == final(planes).used) || (final(self).prefetched_page is None
                    && !final(self).prefetched_gray2_used)
            },
            old(self).prefetched_page is None && (old(self).current_book matches Some(book)
                && old(self).current_page + 1 < book.page_count) && final(self).next_page_ops is Some
                ==> r is Some,
    {
        if self.prefetched_page.is_some() {
            return None;
        }
        let book = match &self.current_book {
            Some(b) => b,
            None => return None,
        };
        if !(self.current_page < book.page_count && self.current_page + 1 < book.page_count) {
            return None;
        }
        let next = self.current_page + 1;
        if self.next_page_ops.is_none() {
            self.next_page_ops = match source.trbk_page(next) {
                Ok(page) => Some(page),
                Err(_) => None,
            };
        }
        let page = match &self.next_page_ops {
            Some(p) => p,
            None => return None,
        };
        let (absolute, fallback) = render_fresh_page(source, buffers, planes, book, page);
        let indicator = page_indicator_op(buffers, next, book.page_count);
        if absolute {
            self.prefetched_page = None;
            self.prefetched_gray2_used = false;
        } else {
            self.prefetched_page = Some(next);
            self.prefetched_gray2_used = planes.used;
        }
        Some(PageTexts { fallback, indicator })
    }
}

/// Geometry of the table of contents.
pub const TOC_LIST_TOP: i32 = 60;
pub const TOC_LINE_HEIGHT: i32 = 24;
pub const TOC_MARGIN_X: i32 = 16;
pub const TOC_HEADER_Y: i32 = 24;

/// Two spaces `n` times.
pub open spec fn indent(n: nat) -> Seq<char>
    decreases n,
{
    if n == 0 {
        seq![]
    } else {
        indent((n - 1) as nat) + seq![' ', ' ']
    }
}

/// The label of a table-of-contents entry: two spaces per level (at most
/// six levels deep), then its title.
pub open spec fn toc_label(e: TrbkTocEntry) -> Seq<char> {
    indent(if e.level > 6 {
        6
    } else {
        e.level as nat
    }) + e.title@
}

/// The labels of a whole table of contents.
pub open spec fn toc_label_views(toc: Seq<TrbkTocEntry>) -> Seq<Seq<char>> {
    Seq::new(toc.len(), |i: int| toc_label(toc[i]))
}

/// The label of one entry.
pub fn toc_entry_label(e: &TrbkTocEntry) -> (r: String)
    ensures
        r@ == toc_label(*e),
{
    proof {
        reveal_strlit("  ");
    }
    let depth: u8 = if e.level > 6 {
        6
    } else {
        e.level
    };
    let mut label = String::new();
    let mut k: u8 = 0;
    while k < depth
        invariant
            k <= depth,
            depth <= 6,
            depth == (if e.level > 6 {
                6
            } else {
                e.level
            }),
            label@ == indent(k as nat),
        decreases depth - k,
    {
        proof {
            reveal_strlit("  ");
        }
        assert("  "@ =~= seq![' ', ' ']);
        label = concat(label.as_str(), "  ");
        k = k + 1;
    }
    concat(label.as_str(), e.title.as_str())
}

/// The labels of a book's table of contents.
pub fn toc_labels_of(book: &TrbkBookInfo) -> (r: Vec<String>)
    ensures
        string_views(r@) == toc_label_views(book.toc@),
{
    let mut out: Vec<String> = Vec::new();
    let mut i: usize = 0;
    while i < book.toc.len()
        invariant
            i <= book.toc@.len(),
            out@.len() == i,
            forall|j: int| 0 <= j < i ==> #[trigger] out@[j]@ == toc_label(book.toc@[j]),
        decreases book.toc@.len() - i,
    {
        let label = toc_entry_label(&book.toc[i]);
        out.push(label);
        i = i + 1;
    }
    assert(string_views(out@) =~= toc_label_views(book.toc@));
    out
}

/// The row of the table of contents shown selected: the remembered one,
/// kept within the list.
pub open spec fn toc_shown_selection(selected: usize, n: nat) -> usize {
    let last = if n == 0 {
        0
    } else {
        n - 1
    };
    if selected < last {
        selected
    } else {
        last as usize
    }
}

impl BookReaderState {
    /// The table of contents of the open book as a list screen (labels built
    /// once per book), over a screen cleared to white; without an open book
    /// the screen is cleared and the answer is a decoding error.
    pub fn draw_toc(&mut self, buffers: &mut DisplayBuffers, full_refresh: bool) -> (r: Result<
        ListScreen,
        ImageError,
    >)
        requires
            old(buffers).wf(),
        ensures
            final(buffers).wf(),
            final(buffers).active_view() == white_screen(),
            final(buffers).inactive_view() == old(buffers).inactive_view(),
            final(buffers).spec_rotation() == old(buffers).spec_rotation(),
            final(buffers).spec_active_flag() == old(buffers).spec_active_flag(),
            final(self).current_book == old(self).current_book,
            final(self).current_page == old(self).current_page,
            final(self).toc_selected == old(self).toc_selected,
            old(self).current_book is None ==> (r matches Err(ImageError::Decode) && *final(self)
                == *old(self)),
            old(self).current_book matches Some(book) ==> (r matches Ok(list) && {
                let labels = match old(self).toc_labels {
                    Some(l) => string_views(l@),
                    None => toc_label_views(book.toc@),
                };
                &&& final(self).toc_labels matches Some(l) && string_views(l@) == labels
                &&& string_views(list.items@) == labels
                &&& list.title@ == book.metadata.title@
                &&& list.footer@ == "Up/Down: select  Confirm: jump  Back: return"@
                &&& list.empty_label@ == "No table of contents."@
                &&& list.selected == toc_shown_selection(old(self).toc_selected, labels.len())
                &&& list.margin_x == TOC_MARGIN_X
                &&& list.header_y == TOC_HEADER_Y
                &&& list.list_top == TOC_LIST_TOP
                &&& list.line_height == TOC_LINE_HEIGHT
                &&& list.refresh == if full_refresh {
                    RefreshMode::Full
                } else {
                    RefreshMode::Fast
                }
            }),
    {
        buffers.clear_screen(0xFF);
        let book = match &self.current_book {
            Some(b) => b,
            None => return Err(ImageError::Decode),
        };
        if self.toc_labels.is_none() {
            self.toc_labels = Some(toc_labels_of(book));
        }
        let items = match &self.toc_labels {
            Some(l) => clone_strings(l),
            None => Vec::new(),
        };
        let n = items.len();
        let last = if n == 0 {
            0
        } else {
            n - 1
        };
        let selected = if self.toc_selected < last {
            self.toc_selected
        } else {
            last
        };
        Ok(ListScreen {
            title: copy_str(book.metadata.title.as_str()),
            items,
            footer: copy_str("Up/Down: select  Confirm: jump  Back: return"),
            empty_label: copy_str("No table of contents."),
            selected,
            margin_x: TOC_MARGIN_X,
            header_y: TOC_HEADER_Y,
            list_top: TOC_LIST_TOP,
            line_height: TOC_LINE_HEIGHT,
            refresh: if full_refresh {
                RefreshMode::Full
            } else {
                RefreshMode::Fast
            },
        })
    }
}

} // verus!
