//! The smaller screens and overlays: what each draws and which part of the
//! panel it refreshes.

use vstd::prelude::*;
use crate::app::book_reader::PageTurnIndicator;
use crate::app::start_menu::{draw_views, push_op, push_text, MenuDraw, MenuDrawView, ScreenFlush};
use crate::display::RefreshMode;
use crate::framebuffer::{logical_height, logical_width, DisplayBuffers};
use crate::render::tdiv;
use crate::sd::{decimal, format_usize};
use crate::text::{chars_of, concat, copy_str};
use crate::ui::Rect;

verus! {

/// Left margin of text screens.
pub const LIST_MARGIN_X: i32 = 16;

/// Baseline of a screen's heading.
pub const HEADER_Y: i32 = 24;

/// Distance of the corner indicators from the screen's edge.
pub const PAGE_INDICATOR_MARGIN: i32 = 12;

/// Baseline of the corner indicators.
pub const PAGE_INDICATOR_Y: i32 = 24;

/// The logical size of the buffers.
pub open spec fn screen_size(b: DisplayBuffers) -> (int, int) {
    (logical_width(b.spec_rotation()), logical_height(b.spec_rotation()))
}

pub(crate) fn full_rect(buffers: &DisplayBuffers) -> (r: Rect)
    ensures
        r == (Rect { x: 0, y: 0, w: screen_size(*buffers).0 as i32, h: screen_size(*buffers).1 as i32 }),
        r.w == 800 || r.w == 480,
        r.h == 800 || r.h == 480,
{
    let (w, h) = buffers.size();
    Rect::new(0, 0, w as i32, h as i32)
}

/// A whole-screen refresh in `mode`, falling back to `fallback`.
pub open spec fn whole_screen(b: DisplayBuffers, mode: RefreshMode, fallback: RefreshMode) -> (Seq<(Rect, RefreshMode)>, RefreshMode) {
    (seq![(Rect { x: 0, y: 0, w: screen_size(b).0 as i32, h: screen_size(b).1 as i32 }, mode)], fallback)
}

/// The error screen: a heading, the message when there is one, and how to
/// leave; refreshed in full.
pub open spec fn error_ops(message: Option<Seq<char>>) -> Seq<MenuDrawView> {
    let msg = match message {
        Some(m) => seq![MenuDrawView::Text { x: LIST_MARGIN_X, y: 60, text: m, on: false }],
        None => seq![],
    };
    seq![MenuDrawView::Text { x: LIST_MARGIN_X, y: HEADER_Y, text: "Error"@, on: false }] + msg + seq![
        MenuDrawView::Text { x: LIST_MARGIN_X, y: 100, text: "Press Back to return"@, on: false },
    ]
}

/// The drawing steps of the error screen.
pub fn error_screen_ops(message: Option<&String>) -> (r: Vec<MenuDraw>)
    ensures
        draw_views(r@) == error_ops(
            match message {
                Some(m) => Some(m@),
                None => None,
            },
        ),
{
    let mut ops: Vec<MenuDraw> = Vec::new();
    proof {
        reveal_strlit("Error");
        reveal_strlit("Press Back to return");
    }
    push_text(&mut ops, LIST_MARGIN_X, HEADER_Y, copy_str("Error"), false);
    if let Some(m) = message {
        push_text(&mut ops, LIST_MARGIN_X, 60, copy_str(m.as_str()), false);
    }
    push_text(&mut ops, LIST_MARGIN_X, 100, copy_str("Press Back to return"), false);
    proof {
        assert(draw_views(ops@) =~= error_ops(
            match message {
                Some(m) => Some(m@),
                None => None,
            },
        ));
    }
    ops
}

/// The refresh of a text screen: the whole screen with the full waveform.
pub fn full_screen_flush(buffers: &DisplayBuffers) -> (r: ScreenFlush)
    ensures
        match r {
            ScreenFlush::Queue { rects, fallback } => (rects@, fallback) == whole_screen(
                *buffers,
                RefreshMode::Full,
                RefreshMode::Full,
            ),
            ScreenFlush::Grayscale => false,
        },
{
    let rects = vec![(full_rect(buffers), RefreshMode::Full)];
    assert(rects@ =~= whole_screen(*buffers, RefreshMode::Full, RefreshMode::Full).0);
    ScreenFlush::Queue { rects, fallback: RefreshMode::Full }
}

/// The USB dialog: title, message and footer, one under the other.
pub fn usb_modal_ops(title: &str, message: &str, footer: &str) -> (r: Vec<MenuDraw>)
    ensures
        draw_views(r@) == seq![
            MenuDrawView::Text { x: 16, y: 24, text: title@, on: false },
            MenuDrawView::Text { x: 16, y: 60, text: message@, on: false },
            MenuDrawView::Text { x: 16, y: 100, text: footer@, on: false },
        ],
{
    let mut ops: Vec<MenuDraw> = Vec::new();
    push_text(&mut ops, 16, 24, copy_str(title), false);
    push_text(&mut ops, 16, 60, copy_str(message), false);
    push_text(&mut ops, 16, 100, copy_str(footer), false);
    assert(draw_views(ops@) =~= seq![
        MenuDrawView::Text { x: 16, y: 24, text: title@, on: false },
        MenuDrawView::Text { x: 16, y: 60, text: message@, on: false },
        MenuDrawView::Text { x: 16, y: 100, text: footer@, on: false },
    ]);
    ops
}

/// A symbol in a top corner: the page-turn arrows and the sleep mark.
#[derive(Clone, Copy, Debug, PartialEq, Eq, Structural)]
pub enum CornerMark {
    Turn(PageTurnIndicator),
    Sleeping,
}

pub open spec fn mark_text(m: CornerMark) -> Seq<char> {
    match m {
        CornerMark::Turn(PageTurnIndicator::Forward) => ">"@,
        CornerMark::Turn(PageTurnIndicator::Backward) => "<"@,
        CornerMark::Sleeping => "Zz"@,
    }
}

/// Left edge of a corner mark: the backward arrow at the left margin,
/// the others against the right margin.
pub open spec fn mark_x(m: CornerMark, width: int) -> int {
    let w = mark_text(m).len() * 10;
    match m {
        CornerMark::Turn(PageTurnIndicator::Backward) => PAGE_INDICATOR_MARGIN as int,
        _ => {
            let x = width - PAGE_INDICATOR_MARGIN - w;
            if x > PAGE_INDICATOR_MARGIN {
                x
            } else {
                PAGE_INDICATOR_MARGIN as int
            }
        },
    }
}

/// A corner mark drawn twice a pixel apart (for weight) over the picture
/// the panel shows, and the small area refreshed fast around it.
pub fn corner_mark_ops(buffers: &DisplayBuffers, mark: CornerMark) -> (r: (Vec<MenuDraw>, Rect))
    ensures
        ({
            let x = mark_x(mark, screen_size(*buffers).0);
            let t = mark_text(mark);
            &&& draw_views(r.0@) == seq![
                MenuDrawView::Text { x: x as i32, y: PAGE_INDICATOR_Y, text: t, on: false },
                MenuDrawView::Text { x: (x + 1) as i32, y: PAGE_INDICATOR_Y, text: t, on: false },
            ]
            &&& r.1 == (Rect {
                x: (x - 2) as i32,
                y: (PAGE_INDICATOR_Y - 2) as i32,
                w: (t.len() * 10 + 4) as i32,
                h: 22,
            })
        }),
{
    let (w, _h) = buffers.size();
    proof {
        reveal_strlit(">");
        reveal_strlit("<");
        reveal_strlit("Zz");
    }
    let symbol = match mark {
        CornerMark::Turn(PageTurnIndicator::Forward) => copy_str(">"),
        CornerMark::Turn(PageTurnIndicator::Backward) => copy_str("<"),
        CornerMark::Sleeping => copy_str("Zz"),
    };
    let n = chars_of(symbol.as_str()).len();
    assert(n <= 2);
    let text_w = (n as i32) * 10;
    let x = match mark {
        CornerMark::Turn(PageTurnIndicator::Backward) => PAGE_INDICATOR_MARGIN,
        _ => {
            let v = w as i32 - PAGE_INDICATOR_MARGIN - text_w;
            if v > PAGE_INDICATOR_MARGIN {
                v
            } else {
                PAGE_INDICATOR_MARGIN
            }
        },
    };
    let mut ops: Vec<MenuDraw> = Vec::new();
    push_text(&mut ops, x, PAGE_INDICATOR_Y, copy_str(symbol.as_str()), false);
    push_text(&mut ops, x + 1, PAGE_INDICATOR_Y, symbol, false);
    let ghost t = mark_text(mark);
    assert(draw_views(ops@) =~= seq![
        MenuDrawView::Text { x: x as i32, y: PAGE_INDICATOR_Y, text: t, on: false },
        MenuDrawView::Text { x: (x + 1) as i32, y: PAGE_INDICATOR_Y, text: t, on: false },
    ]);
    (ops, Rect::new(x - 2, PAGE_INDICATOR_Y - 2, text_w + 4, 22))
}

/// The box of the exit notice, centred: the text with 10 pixels of padding
/// across and 6 down, on a 20-pixel line.
pub open spec fn exiting_rect(width: int, height: int) -> Rect {
    let rect_w: int = 120;
    let rect_h: int = 32;
    Rect { x: tdiv(width - rect_w, 2) as i32, y: tdiv(height - rect_h, 2) as i32, w: rect_w as i32, h: rect_h as i32 }
}

/// The exit notice: a black box with white text, refreshed fast.
pub fn exiting_overlay_ops(buffers: &DisplayBuffers) -> (r: (Vec<MenuDraw>, Rect))
    ensures
        ({
            let rect = exiting_rect(screen_size(*buffers).0, screen_size(*buffers).1);
            &&& draw_views(r.0@) == seq![
                MenuDrawView::FillRect { rect, on: false },
                MenuDrawView::Text { x: (rect.x + 10) as i32, y: (rect.y + 20) as i32, text: "Exiting..."@, on: true },
            ]
            &&& r.1 == rect
        }),
{
    let (w, h) = buffers.size();
    proof {
        reveal_strlit("Exiting...");
    }
    let text = copy_str("Exiting...");
    let text_w = (chars_of(text.as_str()).len() as i32) * 10;
    let rect_w = text_w + 20;
    let rect_h = 20 + 12;
    let x = (w as i32 - rect_w) / 2;
    let y = (h as i32 - rect_h) / 2;
    let rect = Rect::new(x, y, rect_w, rect_h);
    let mut ops: Vec<MenuDraw> = Vec::new();
    push_op(&mut ops, MenuDraw::FillRect { rect, on: false });
    push_text(&mut ops, x + 10, y + 20, text, true);
    assert(draw_views(ops@) =~= seq![
        MenuDrawView::FillRect { rect, on: false },
        MenuDrawView::Text { x: (rect.x + 10) as i32, y: (rect.y + 20) as i32, text: "Exiting..."@, on: true },
    ]);
    (ops, rect)
}

/// The bar of the sleep notice along the bottom edge, centred: the text
/// with 8 pixels of padding each side, 28 pixels tall, no wider than the
/// screen.
pub open spec fn sleep_bar(width: int, height: int) -> Rect {
    let text_w: int = 110;
    let bar_w: int = if text_w + 16 < width { text_w + 16 } else { width };
    let x = tdiv(width - bar_w, 2);
    let y = height - 28;
    Rect {
        x: (if x > 0 { x } else { 0 }) as i32,
        y: (if y > 0 { y } else { 0 }) as i32,
        w: bar_w as i32,
        h: 28,
    }
}

/// Where the sleep notice goes on the buffers' screen.
pub fn sleep_overlay_rect(buffers: &DisplayBuffers) -> (r: Rect)
    ensures
        r == sleep_bar(screen_size(*buffers).0, screen_size(*buffers).1),
{
    let (w, h) = buffers.size();
    let text_w: i32 = 11 * 10;
    let bar_w = if text_w + 16 < w as i32 {
        text_w + 16
    } else {
        w as i32
    };
    let xv = (w as i32 - bar_w) / 2;
    let yv = h as i32 - 28;
    Rect::new(if xv > 0 { xv } else { 0 }, if yv > 0 { yv } else { 0 }, bar_w, 28)
}

/// The sleep notice over the wallpaper: the bar in black, the text in white.
pub fn sleep_overlay_ops(rect: Rect) -> (r: Vec<MenuDraw>)
    requires
        rect.x + 8 <= i32::MAX,
        rect.y + 14 <= i32::MAX,
    ensures
        draw_views(r@) == seq![
            MenuDrawView::FillRect { rect, on: false },
            MenuDrawView::Text { x: (rect.x + 8) as i32, y: (rect.y + 14) as i32, text: "Sleeping..."@, on: true },
        ],
{
    proof {
        reveal_strlit("Sleeping...");
    }
    let mut ops: Vec<MenuDraw> = Vec::new();
    push_op(&mut ops, MenuDraw::FillRect { rect, on: false });
    push_text(&mut ops, rect.x + 8, rect.y + 14, copy_str("Sleeping..."), true);
    assert(draw_views(ops@) =~= seq![
        MenuDrawView::FillRect { rect, on: false },
        MenuDrawView::Text { x: (rect.x + 8) as i32, y: (rect.y + 14) as i32, text: "Sleeping..."@, on: true },
    ]);
    ops
}

/// The page counter shown at the bottom right: "page/total" counting from
/// one, or nothing for a book without pages.
pub open spec fn page_label(page: usize, total: usize) -> Seq<char> {
    decimal((if page == usize::MAX { page as int } else { page + 1 }) as nat) + "/"@ + decimal(total as nat)
}

/// Where the page counter goes: 8 pixels in from the right and bottom edges,
/// but at least 8 from the left.
pub open spec fn page_label_pos(width: int, height: int, n: int) -> (int, int) {
    let x = width - 8 - n * 10;
    let y = height - 8;
    (if x > 8 { x } else { 8 }, if y > 0 { y } else { 0 })
}

/// Ten to the power `k`.
pub open spec fn pow10(k: nat) -> nat
    decreases k,
{
    if k == 0 {
        1
    } else {
        10 * pow10((k - 1) as nat)
    }
}

proof fn lemma_decimal_len(n: nat, k: nat)
    requires
        k >= 1,
        n < pow10(k),
    ensures
        decimal(n).len() <= k,
    decreases k,
{
    if n >= 10 {
        assert(k >= 2) by {
            if k == 1 {
                assert(pow10(1) == 10);
            }
        }
        let k1 = (k - 1) as nat;
        assert(n / 10 < pow10(k1)) by (nonlinear_arith)
            requires
                n < 10 * pow10(k1),
        ;
        lemma_decimal_len(n / 10, k1);
    }
}

proof fn lemma_usize_digits(n: usize)
    ensures
        decimal(n as nat).len() <= 20,
{
    reveal_with_fuel(pow10, 21);
    assert(pow10(20) == 100_000_000_000_000_000_000);
    lemma_decimal_len(n as nat, 20);
}

/// The page counter drawn on the buffers' screen, when the book has pages.
pub open spec fn page_indicator_view(buffers: DisplayBuffers, page: usize, total: usize) -> Option<MenuDrawView> {
    if total == 0 {
        None
    } else {
        let t = page_label(page, total);
        let (x, y) = page_label_pos(screen_size(buffers).0, screen_size(buffers).1, t.len() as int);
        Some(MenuDrawView::Text { x: x as i32, y: y as i32, text: t, on: false })
    }
}

/// The view of an optional draw operation.
pub open spec fn opt_draw_view(o: Option<MenuDraw>) -> Option<MenuDrawView> {
    match o {
        Some(op) => Some(op@),
        None => None,
    }
}

/// The page counter of a book page.
pub fn page_indicator_op(buffers: &DisplayBuffers, page: usize, total: usize) -> (r: Option<MenuDraw>)
    ensures
        opt_draw_view(r) == page_indicator_view(*buffers, page, total),
{
    if total == 0 {
        return None;
    }
    let (w, h) = buffers.size();
    let shown = if page == usize::MAX {
        page
    } else {
        page + 1
    };
    let a = format_usize(shown);
    proof {
        reveal_strlit("/");
        lemma_usize_digits(shown);
        lemma_usize_digits(total);
    }
    let a2 = concat(a.as_str(), "/");
    let b = format_usize(total);
    let label = concat(a2.as_str(), b.as_str());
    let n = chars_of(label.as_str()).len();
    assert(n <= 41);
    let xv = w as i32 - 8 - (n as i32) * 10;
    let yv = h as i32 - 8;
    let x = if xv > 8 {
        xv
    } else {
        8
    };
    let y = if yv > 0 {
        yv
    } else {
        0
    };
    Some(MenuDraw::Text { x, y, text: label, on: false })
}

/// The settings screen: the firmware's name in bold (drawn twice a pixel
/// apart), the logo centred under it, the version and build time, and how
/// to leave.
pub open spec fn settings_view(width: int, logo_w: int, logo_h: int, version: Seq<char>, build_time: Seq<char>) -> Seq<MenuDrawView> {
    let hy = HEADER_Y + 10;
    let logo_y = hy + 24;
    let details_y = logo_y + logo_h + 12;
    seq![
        MenuDrawView::Text { x: LIST_MARGIN_X, y: hy as i32, text: "TernReader Firmware"@, on: false },
        MenuDrawView::Text { x: (LIST_MARGIN_X + 1) as i32, y: hy as i32, text: "TernReader Firmware"@, on: false },
        MenuDrawView::Logo { x: tdiv(width - logo_w, 2) as i32, y: logo_y as i32 },
        MenuDrawView::Text { x: LIST_MARGIN_X, y: details_y as i32, text: "Version: "@ + version, on: false },
        MenuDrawView::Text { x: LIST_MARGIN_X, y: (details_y + 24) as i32, text: "Build time: "@ + build_time, on: false },
        MenuDrawView::Text { x: LIST_MARGIN_X, y: (details_y + 52) as i32, text: "Press Back to return"@, on: false },
    ]
}

/// The drawing steps of the settings screen.
pub fn settings_ops(buffers: &DisplayBuffers, logo_w: i32, logo_h: i32, version: &str, build_time: &str) -> (r:
    Vec<MenuDraw>)
    requires
        logo_w as int >= 800 - i32::MAX,
        logo_h as int <= i32::MAX - 200,
    ensures
        draw_views(r@) == settings_view(screen_size(*buffers).0, logo_w as int, logo_h as int, version@, build_time@),
{
    let (w, _h) = buffers.size();
    proof {
        reveal_strlit("TernReader Firmware");
        reveal_strlit("Version: ");
        reveal_strlit("Build time: ");
        reveal_strlit("Press Back to return");
    }
    let hy = HEADER_Y + 10;
    let logo_y = hy + 24;
    let details_y = logo_y + logo_h + 12;
    let mut ops: Vec<MenuDraw> = Vec::new();
    push_text(&mut ops, LIST_MARGIN_X, hy, copy_str("TernReader Firmware"), false);
    push_text(&mut ops, LIST_MARGIN_X + 1, hy, copy_str("TernReader Firmware"), false);
    push_op(&mut ops, MenuDraw::Logo { x: (w as i32 - logo_w) / 2, y: logo_y });
    push_text(&mut ops, LIST_MARGIN_X, details_y, concat("Version: ", version), false);
    push_text(&mut ops, LIST_MARGIN_X, details_y + 24, concat("Build time: ", build_time), false);
    push_text(&mut ops, LIST_MARGIN_X, details_y + 52, copy_str("Press Back to return"), false);
    assert(draw_views(ops@) =~= settings_view(w as int, logo_w as int, logo_h as int, version@, build_time@));
    ops
}

/// The refresh after the settings screen: the grayscale planes when the
/// logo put anything in them, else the whole screen in full.
pub fn settings_flush(buffers: &DisplayBuffers, gray2_used: bool) -> (r: ScreenFlush)
    ensures
        gray2_used ==> r is Grayscale,
        !gray2_used ==> match r {
            ScreenFlush::Queue { rects, fallback } => (rects@, fallback) == whole_screen(
                *buffers,
                RefreshMode::Full,
                RefreshMode::Full,
            ),
            ScreenFlush::Grayscale => false,
        },
{
    if gray2_used {
        ScreenFlush::Grayscale
    } else {
        full_screen_flush(buffers)
    }
}

} // verus!
