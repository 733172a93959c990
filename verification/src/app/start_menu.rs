//! Layout of the start menu: what is drawn where, which tile is selected,
//! and which part of the panel is refreshed afterwards.

use vstd::prelude::*;
use crate::app::home::{HomeState, RecentPreview, StartMenuAction, StartMenuSection};
use crate::display::RefreshMode;
use crate::framebuffer::{DisplayBuffers, logical_height, logical_width};
use crate::render::tdiv;
use crate::sd::{decimal, format_usize};
use crate::text::{chars_of, concat, copy_str};
use crate::ui::Rect;

verus! {

/// Left margin of the start menu.
pub const START_MENU_MARGIN: i32 = 16;

/// Gap between two action tiles.
pub const START_MENU_ACTION_GAP: i32 = 12;

/// Baseline of the start menu heading.
pub const HEADER_Y: i32 = 24;

/// Most recent entries listed.
pub const START_MENU_MAX_ITEMS: usize = 6;

/// Where the parts of the start menu go on a screen of a given size.
#[derive(Clone, Copy, Debug, PartialEq, Eq, Structural)]
pub struct StartMenuLayout {
    pub width: i32,
    pub height: i32,
    /// The line between the recent entries and the action tiles.
    pub mid_y: i32,
    pub list_top: i32,
    pub max_items: usize,
    pub list_width: i32,
    pub item_height: i32,
    pub thumb_size: i32,
    pub action_top: i32,
    pub action_width: i32,
    pub action_height: i32,
}

/// The layout for a `width` by `height` screen.
pub open spec fn spec_start_menu_layout(width: int, height: int) -> StartMenuLayout {
    let mid_y = height * 82 / 100;
    StartMenuLayout {
        width: width as i32,
        height: height as i32,
        mid_y: mid_y as i32,
        list_top: (HEADER_Y + 24) as i32,
        max_items: START_MENU_MAX_ITEMS,
        list_width: (width - START_MENU_MARGIN * 2) as i32,
        item_height: 99,
        thumb_size: 74,
        action_top: (mid_y + 17) as i32,
        action_width: ((width - START_MENU_MARGIN * 2 - START_MENU_ACTION_GAP * 2) / 3) as i32,
        action_height: 110,
    }
}

/// The layout is that of one of the two screen orientations.
pub open spec fn layout_ok(l: StartMenuLayout) -> bool {
    l == spec_start_menu_layout(800, 480) || l == spec_start_menu_layout(480, 800)
}

proof fn lemma_layout_facts(l: StartMenuLayout)
    requires
        layout_ok(l),
    ensures
        l.width == 800 || l.width == 480,
        l.height == 480 || l.height == 800,
        l.mid_y == 393 || l.mid_y == 656,
        l.action_top == l.mid_y + 17,
        l.list_top == 48,
        l.max_items == 6,
        l.list_width == l.width - 32,
        l.item_height == 99,
        l.thumb_size == 74,
        l.action_width == 248 || l.action_width == 141,
        l.action_height == 110,
{
}

/// The start menu layout for the buffers' current orientation.
pub fn start_menu_layout(buffers: &DisplayBuffers) -> (r: StartMenuLayout)
    ensures
        r == spec_start_menu_layout(
            logical_width(buffers.spec_rotation()),
            logical_height(buffers.spec_rotation()),
        ),
        layout_ok(r),
{
    let (w, h) = buffers.size();
    let width = w as i32;
    let height = h as i32;
    let mid_y = (height * 82) / 100;
    StartMenuLayout {
        width,
        height,
        mid_y,
        list_top: HEADER_Y + 24,
        max_items: START_MENU_MAX_ITEMS,
        list_width: width - (START_MENU_MARGIN * 2),
        item_height: 99,
        thumb_size: 74,
        action_top: mid_y + 17,
        action_width: (width - (START_MENU_MARGIN * 2) - (START_MENU_ACTION_GAP * 2)) / 3,
        action_height: 110,
    }
}

/// Top of the `idx`-th recent entry.
pub open spec fn recent_y(l: StartMenuLayout, idx: int) -> int {
    l.list_top + idx * l.item_height
}

/// The `idx`-th recent entry fits above the line.
pub open spec fn recent_fits(l: StartMenuLayout, idx: int) -> bool {
    recent_y(l, idx) + l.item_height <= l.mid_y
}

/// Left edge of the `idx`-th action tile.
pub open spec fn action_x(l: StartMenuLayout, idx: int) -> int {
    START_MENU_MARGIN + idx * (l.action_width + START_MENU_ACTION_GAP)
}

/// The highlight rectangle of an entry or tile, when it is on screen.
pub open spec fn spec_rect_for(l: StartMenuLayout, section: StartMenuSection, index: int) -> Option<Rect> {
    match section {
        StartMenuSection::Recents => {
            if index >= l.max_items || !recent_fits(l, index) {
                None
            } else {
                Some(
                    Rect {
                        x: (START_MENU_MARGIN - 4) as i32,
                        y: (recent_y(l, index) - 4) as i32,
                        w: (l.list_width + 8) as i32,
                        h: (l.item_height - 4) as i32,
                    },
                )
            }
        },
        StartMenuSection::Actions => {
            if index >= 3 {
                None
            } else {
                Some(
                    Rect {
                        x: (action_x(l, index) - 4) as i32,
                        y: (l.action_top - 4) as i32,
                        w: (l.action_width + 8) as i32,
                        h: (l.action_height + 8) as i32,
                    },
                )
            }
        },
    }
}

/// The highlight rectangle of the entry or tile at `index` of `section`.
pub fn rect_for(l: &StartMenuLayout, section: StartMenuSection, index: usize) -> (r: Option<Rect>)
    requires
        layout_ok(*l),
    ensures
        r == spec_rect_for(*l, section, index as int),
{
    match section {
        StartMenuSection::Recents => {
            proof {
                lemma_layout_facts(*l);
            }
            if index >= l.max_items {
                return None;
            }
            let y = l.list_top + (index as i32 * l.item_height);
            if y + l.item_height > l.mid_y {
                return None;
            }
            Some(Rect::new(START_MENU_MARGIN - 4, y - 4, l.list_width + 8, l.item_height - 4))
        },
        StartMenuSection::Actions => {
            if index >= 3 {
                return None;
            }
            proof {
                lemma_layout_facts(*l);
                assert(index as int * (l.action_width + 12) <= 2 * 260) by (nonlinear_arith)
                    requires
                        index < 3,
                        l.action_width + 12 <= 260,
                        l.action_width >= 0,
                ;
            }
            let x = START_MENU_MARGIN + index as i32 * (l.action_width + START_MENU_ACTION_GAP);
            Some(Rect::new(x - 4, l.action_top - 4, l.action_width + 8, l.action_height + 8))
        },
    }
}

/// One drawing step of the start menu. Colours follow the 1-bit buffer:
/// `on` is white.
pub enum MenuDraw {
    FillRect { rect: Rect, on: bool },
    /// A one-pixel outline.
    StrokeRect { rect: Rect, on: bool },
    /// Text in the 10x20 font with its baseline at `y`.
    Text { x: i32, y: i32, text: String, on: bool },
    /// The thumbnail of the `index`-th recent entry, scaled into a square.
    Thumbnail { index: usize, x: i32, y: i32, size: i32 },
    /// The icon of an action tile.
    Icon { action: StartMenuAction, x: i32, y: i32, size: i32 },
    /// The firmware logo with its top-left corner here.
    Logo { x: i32, y: i32 },
}

/// A drawing step with its text as characters.
pub enum MenuDrawView {
    FillRect { rect: Rect, on: bool },
    StrokeRect { rect: Rect, on: bool },
    Text { x: i32, y: i32, text: Seq<char>, on: bool },
    Thumbnail { index: usize, x: i32, y: i32, size: i32 },
    Icon { action: StartMenuAction, x: i32, y: i32, size: i32 },
    Logo { x: i32, y: i32 },
}

impl View for MenuDraw {
    type V = MenuDrawView;

    open spec fn view(&self) -> MenuDrawView {
        match self {
            MenuDraw::FillRect { rect, on } => MenuDrawView::FillRect { rect: *rect, on: *on },
            MenuDraw::StrokeRect { rect, on } => MenuDrawView::StrokeRect { rect: *rect, on: *on },
            MenuDraw::Text { x, y, text, on } => MenuDrawView::Text { x: *x, y: *y, text: text@, on: *on },
            MenuDraw::Thumbnail { index, x, y, size } => MenuDrawView::Thumbnail {
                index: *index,
                x: *x,
                y: *y,
                size: *size,
            },
            MenuDraw::Icon { action, x, y, size } => MenuDrawView::Icon {
                action: *action,
                x: *x,
                y: *y,
                size: *size,
            },
            MenuDraw::Logo { x, y } => MenuDrawView::Logo { x: *x, y: *y },
        }
    }
}

/// The views of a list of drawing steps.
pub open spec fn draw_views(v: Seq<MenuDraw>) -> Seq<MenuDrawView> {
    Seq::new(v.len(), |i: int| v[i]@)
}

/// What the start menu shows of a recent entry: its title and whether it
/// has a thumbnail.
pub open spec fn preview_views(v: Seq<RecentPreview>) -> Seq<(Seq<char>, bool)> {
    Seq::new(v.len(), |i: int| (v[i].title@, v[i].image is Some))
}

/// Number of recent entries drawn: they are taken in order while they fit
/// above the line, at most `max_items`.
pub open spec fn drawn_from(l: StartMenuLayout, n: int, i: int) -> int
    decreases l.max_items - i,
{
    if i >= n || i >= l.max_items || !recent_fits(l, i) {
        i
    } else {
        drawn_from(l, n, i + 1)
    }
}

/// The steps that draw the `idx`-th recent entry.
pub open spec fn recent_ops(
    l: StartMenuLayout,
    idx: int,
    title: Seq<char>,
    has_image: bool,
    selected: bool,
) -> Seq<MenuDrawView> {
    let y = recent_y(l, idx);
    let thumb_x = START_MENU_MARGIN as int;
    let thumb_y = y + (l.item_height - l.thumb_size) / 2 - 2;
    let fill = if selected {
        seq![
            MenuDrawView::FillRect {
                rect: Rect {
                    x: (START_MENU_MARGIN - 4) as i32,
                    y: (y - 4) as i32,
                    w: (l.list_width + 8) as i32,
                    h: (l.item_height - 4) as i32,
                },
                on: false,
            },
        ]
    } else {
        seq![]
    };
    let frame = seq![
        MenuDrawView::StrokeRect {
            rect: Rect { x: thumb_x as i32, y: thumb_y as i32, w: l.thumb_size, h: l.thumb_size },
            on: selected,
        },
    ];
    let thumb = if has_image {
        seq![
            MenuDrawView::Thumbnail {
                index: idx as usize,
                x: (thumb_x + 2) as i32,
                y: (thumb_y + 2) as i32,
                size: (l.thumb_size - 4) as i32,
            },
        ]
    } else {
        seq![]
    };
    let label = seq![
        MenuDrawView::Text {
            x: (thumb_x + l.thumb_size + 12) as i32,
            y: (y + 26) as i32,
            text: title,
            on: selected,
        },
    ];
    fill + frame + thumb + label
}

/// The steps that draw the first `k` recent entries.
pub open spec fn recents_ops(
    l: StartMenuLayout,
    items: Seq<(Seq<char>, bool)>,
    selected: int,
    k: int,
) -> Seq<MenuDrawView>
    decreases k,
{
    if k <= 0 {
        seq![]
    } else {
        recents_ops(l, items, selected, k - 1) + recent_ops(
            l,
            k - 1,
            items[k - 1].0,
            items[k - 1].1,
            selected == k - 1,
        )
    }
}

/// The action of each tile.
pub open spec fn tile_action(idx: int) -> StartMenuAction {
    if idx == 0 {
        StartMenuAction::FileBrowser
    } else if idx == 1 {
        StartMenuAction::Settings
    } else {
        StartMenuAction::Battery
    }
}

/// The label under each tile.
pub open spec fn tile_label(idx: int) -> Seq<char> {
    if idx == 0 {
        "Files"@
    } else if idx == 1 {
        "Settings"@
    } else {
        ""@
    }
}

/// The battery charge as shown on its tile.
pub open spec fn battery_text(percent: Option<u8>) -> Seq<char> {
    match percent {
        Some(v) => decimal(v as nat) + "%"@,
        None => "--%"@,
    }
}

/// Left edge of text `n` characters wide centred on a tile at `x`.
pub open spec fn centred_x(l: StartMenuLayout, x: int, n: int) -> int {
    x + tdiv(l.action_width - n * 10, 2)
}

/// The steps that draw the `idx`-th action tile.
pub open spec fn action_ops(
    l: StartMenuLayout,
    idx: int,
    selected: bool,
    icon_size: int,
    battery: Option<u8>,
) -> Seq<MenuDrawView> {
    let x = action_x(l, idx);
    let y = l.action_top as int;
    let fill = if selected {
        seq![
            MenuDrawView::FillRect {
                rect: Rect {
                    x: (x - 4) as i32,
                    y: (y - 4) as i32,
                    w: (l.action_width + 8) as i32,
                    h: (l.action_height + 8) as i32,
                },
                on: false,
            },
        ]
    } else {
        seq![]
    };
    let label = tile_label(idx);
    let base = fill + seq![
        MenuDrawView::StrokeRect {
            rect: Rect { x: x as i32, y: y as i32, w: l.action_width, h: l.action_height },
            on: selected,
        },
        MenuDrawView::Icon {
            action: tile_action(idx),
            x: (x + tdiv(l.action_width - icon_size, 2)) as i32,
            y: (y + 5) as i32,
            size: icon_size as i32,
        },
        MenuDrawView::Text {
            x: centred_x(l, x, label.len() as int) as i32,
            y: (y + l.action_height - 12) as i32,
            text: label,
            on: false,
        },
    ];
    if idx == 2 {
        let t = battery_text(battery);
        base.push(
            MenuDrawView::Text {
                x: centred_x(l, x, t.len() as int) as i32,
                y: (y + l.action_height - 12) as i32,
                text: t,
                on: false,
            },
        )
    } else {
        base
    }
}

/// The steps that draw the first `k` action tiles.
pub open spec fn actions_ops(
    l: StartMenuLayout,
    selected: int,
    icon_size: int,
    battery: Option<u8>,
    k: int,
) -> Seq<MenuDrawView>
    decreases k,
{
    if k <= 0 {
        seq![]
    } else {
        actions_ops(l, selected, icon_size, battery, k - 1) + action_ops(
            l,
            k - 1,
            selected == k - 1,
            icon_size,
            battery,
        )
    }
}

/// Everything the start menu draws on a cleared screen: the heading, the
/// recent entries (or a note that there are none), the dividing line and
/// the three action tiles. `recent_sel` and `action_sel` are the selected
/// entry and tile (-1 for none).
pub open spec fn spec_start_menu_ops(
    l: StartMenuLayout,
    items: Seq<(Seq<char>, bool)>,
    recent_sel: int,
    action_sel: int,
    icon_size: int,
    battery: Option<u8>,
) -> Seq<MenuDrawView> {
    let k = drawn_from(l, items.len() as int, 0);
    let heading = seq![
        MenuDrawView::Text { x: START_MENU_MARGIN, y: HEADER_Y, text: "Recents"@, on: false },
    ];
    let empty_note = if k == 0 {
        seq![
            MenuDrawView::Text {
                x: START_MENU_MARGIN,
                y: (l.list_top + 24) as i32,
                text: "No recent items."@,
                on: false,
            },
        ]
    } else {
        seq![]
    };
    let line = seq![
        MenuDrawView::FillRect {
            rect: Rect {
                x: START_MENU_MARGIN,
                y: l.mid_y,
                w: (l.width - START_MENU_MARGIN * 2) as i32,
                h: 1,
            },
            on: false,
        },
    ];
    heading + recents_ops(l, items, recent_sel, k) + empty_note + line + actions_ops(
        l,
        action_sel,
        icon_size,
        battery,
        3,
    )
}

/// The selected entry (`Recents`) or tile (`Actions`) of a section, -1 when
/// the selection is not shown there.
pub open spec fn selected_in(h: HomeState, section: StartMenuSection, suppress: bool) -> int {
    if !suppress && h.start_menu_section == section {
        h.start_menu_index as int
    } else {
        -1
    }
}

proof fn lemma_decimal_short(n: nat)
    requires
        n < 1000,
    ensures
        decimal(n).len() <= 3,
{
    reveal_with_fuel(decimal, 3);
}

proof fn lemma_drawn_bounds(l: StartMenuLayout, n: int, i: int)
    requires
        0 <= i,
    ensures
        i <= drawn_from(l, n, i),
        drawn_from(l, n, i) <= if i > n { i } else { n },
        drawn_from(l, n, i) <= if i > l.max_items { i } else { l.max_items as int },
        forall|j: int| i <= j < drawn_from(l, n, i) ==> recent_fits(l, j),
    decreases l.max_items - i,
{
    if !(i >= n || i >= l.max_items || !recent_fits(l, i)) {
        lemma_drawn_bounds(l, n, i + 1);
    }
}

/// Pushes the steps of a text label.
pub(crate) fn push_text(ops: &mut Vec<MenuDraw>, x: i32, y: i32, text: String, on: bool)
    ensures
        draw_views(final(ops)@) == draw_views(old(ops)@).push(MenuDrawView::Text { x, y, text: text@, on }),
{
    let ghost t = text@;
    ops.push(MenuDraw::Text { x, y, text, on });
    assert(draw_views(ops@) =~= draw_views(old(ops)@).push(MenuDrawView::Text { x, y, text: t, on }));
}

/// Pushes one drawing step that holds no text.
pub(crate) fn push_op(ops: &mut Vec<MenuDraw>, op: MenuDraw)
    ensures
        draw_views(final(ops)@) == draw_views(old(ops)@).push(op@),
{
    let ghost v = op@;
    ops.push(op);
    assert(draw_views(ops@) =~= draw_views(old(ops)@).push(v));
}

/// Pushes the steps that draw the `idx`-th recent entry.
fn push_recent_ops(ops: &mut Vec<MenuDraw>, l: &StartMenuLayout, idx: usize, preview: &RecentPreview, selected: bool)
    requires
        layout_ok(*l),
        idx < l.max_items,
        recent_fits(*l, idx as int),
    ensures
        draw_views(final(ops)@) == draw_views(old(ops)@) + recent_ops(
            *l,
            idx as int,
            preview.title@,
            preview.image is Some,
            selected,
        ),
{
    proof {
        lemma_layout_facts(*l);
    }
    let y = l.list_top + (idx as i32 * l.item_height);
    if selected {
        push_op(
            ops,
            MenuDraw::FillRect {
                rect: Rect::new(START_MENU_MARGIN - 4, y - 4, l.list_width + 8, l.item_height - 4),
                on: false,
            },
        );
    }
    let thumb_x = START_MENU_MARGIN;
    let thumb_y = y + (l.item_height - l.thumb_size) / 2 - 2;
    push_op(
        ops,
        MenuDraw::StrokeRect { rect: Rect::new(thumb_x, thumb_y, l.thumb_size, l.thumb_size), on: selected },
    );
    if preview.image.is_some() {
        push_op(
            ops,
            MenuDraw::Thumbnail { index: idx, x: thumb_x + 2, y: thumb_y + 2, size: l.thumb_size - 4 },
        );
    }
    push_text(ops, thumb_x + l.thumb_size + 12, y + 26, copy_str(preview.title.as_str()), selected);
    proof {
        assert(draw_views(final(ops)@) =~= draw_views(old(ops)@) + recent_ops(
            *l,
            idx as int,
            preview.title@,
            preview.image is Some,
            selected,
        ));
    }
}

/// The battery charge as text.
fn battery_label(percent: Option<u8>) -> (r: String)
    ensures
        r@ == battery_text(percent),
        r@.len() <= 4,
{
    match percent {
        Some(value) => {
            let digits = format_usize(value as usize);
            proof {
                reveal_strlit("%");
                lemma_decimal_short(value as nat);
            }
            concat(digits.as_str(), "%")
        },
        None => {
            proof {
                reveal_strlit("--%");
            }
            copy_str("--%")
        },
    }
}

/// Pushes the steps that draw the `idx`-th action tile.
fn push_action_ops(
    ops: &mut Vec<MenuDraw>,
    l: &StartMenuLayout,
    idx: usize,
    selected: bool,
    icon_size: i32,
    battery_percent: Option<u8>,
)
    requires
        layout_ok(*l),
        idx < 3,
        icon_size as int >= l.action_width - i32::MAX,
    ensures
        draw_views(final(ops)@) == draw_views(old(ops)@) + action_ops(
            *l,
            idx as int,
            selected,
            icon_size as int,
            battery_percent,
        ),
{
    proof {
        lemma_layout_facts(*l);
        assert(idx as int * (l.action_width + 12) <= 2 * 260) by (nonlinear_arith)
            requires
                idx < 3,
                l.action_width + 12 <= 260,
                l.action_width >= 0,
        ;
    }
    let x = START_MENU_MARGIN + idx as i32 * (l.action_width + START_MENU_ACTION_GAP);
    let y = l.action_top;
    if selected {
        push_op(
            ops,
            MenuDraw::FillRect { rect: Rect::new(x - 4, y - 4, l.action_width + 8, l.action_height + 8), on: false },
        );
    }
    push_op(ops, MenuDraw::StrokeRect { rect: Rect::new(x, y, l.action_width, l.action_height), on: selected });
    let action = if idx == 0 {
        StartMenuAction::FileBrowser
    } else if idx == 1 {
        StartMenuAction::Settings
    } else {
        StartMenuAction::Battery
    };
    let half = (l.action_width - icon_size) / 2;
    assert(half == tdiv(l.action_width - icon_size, 2));
    push_op(ops, MenuDraw::Icon { action, x: x + half, y: y + 5, size: icon_size });
    proof {
        reveal_strlit("Files");
        reveal_strlit("Settings");
        reveal_strlit("");
    }
    let label = if idx == 0 {
        copy_str("Files")
    } else if idx == 1 {
        copy_str("Settings")
    } else {
        copy_str("")
    };
    let label_len = chars_of(label.as_str()).len();
    assert(label_len <= 8);
    let lx = x + (l.action_width - (label_len as i32 * 10)) / 2;
    push_text(ops, lx, y + l.action_height - 12, label, false);
    if idx == 2 {
        let text = battery_label(battery_percent);
        let text_len = chars_of(text.as_str()).len();
        let tx = x + (l.action_width - (text_len as i32 * 10)) / 2;
        push_text(ops, tx, y + l.action_height - 12, text, false);
    }
    proof {
        assert(draw_views(final(ops)@) =~= draw_views(old(ops)@) + action_ops(
            *l,
            idx as int,
            selected,
            icon_size as int,
            battery_percent,
        ));
    }
}

impl HomeState {
    /// The drawing steps of the start menu, in order, and how many recent
    /// entries they show. With `suppress_selection` no entry or tile is
    /// highlighted. The steps are meant for a screen cleared to white with
    /// empty grayscale planes.
    pub fn start_menu_ops(
        &self,
        l: &StartMenuLayout,
        suppress_selection: bool,
        battery_percent: Option<u8>,
        icon_size: i32,
    ) -> (r: (Vec<MenuDraw>, usize))
        requires
            layout_ok(*l),
            icon_size as int >= l.action_width - i32::MAX,
        ensures
            r.1 == drawn_from(*l, self.start_menu_cache@.len() as int, 0),
            draw_views(r.0@) == spec_start_menu_ops(
                *l,
                preview_views(self.start_menu_cache@),
                selected_in(*self, StartMenuSection::Recents, suppress_selection),
                selected_in(*self, StartMenuSection::Actions, suppress_selection),
                icon_size as int,
                battery_percent,
            ),
    {
        let ghost items = preview_views(self.start_menu_cache@);
        let ghost rsel = selected_in(*self, StartMenuSection::Recents, suppress_selection);
        let ghost asel = selected_in(*self, StartMenuSection::Actions, suppress_selection);
        proof {
            lemma_layout_facts(*l);
        }
        let mut ops: Vec<MenuDraw> = Vec::new();
        proof {
            reveal_strlit("Recents");
        }
        push_text(&mut ops, START_MENU_MARGIN, HEADER_Y, copy_str("Recents"), false);
        let ghost head = draw_views(ops@);
        let n = self.start_menu_cache.len();
        let mut draw_count: usize = 0;
        proof {
            lemma_drawn_bounds(*l, n as int, 0);
            assert(recents_ops(*l, items, rsel, 0) =~= Seq::<MenuDrawView>::empty());
            assert(draw_views(ops@) =~= head + recents_ops(*l, items, rsel, 0));
        }
        while draw_count < n && draw_count < l.max_items
            invariant
                layout_ok(*l),
                n == self.start_menu_cache@.len(),
                items == preview_views(self.start_menu_cache@),
                rsel == selected_in(*self, StartMenuSection::Recents, suppress_selection),
                draw_count <= n,
                draw_count <= l.max_items,
                drawn_from(*l, n as int, 0) == drawn_from(*l, n as int, draw_count as int),
                draw_views(ops@) == head + recents_ops(*l, items, rsel, draw_count as int),
            ensures
                drawn_from(*l, n as int, 0) == draw_count as int,
                draw_views(ops@) == head + recents_ops(*l, items, rsel, draw_count as int),
            decreases n - draw_count,
        {
            let idx = draw_count;
            proof {
                lemma_layout_facts(*l);
            }
            let y = l.list_top + (idx as i32 * l.item_height);
            if y + l.item_height > l.mid_y {
                assert(!recent_fits(*l, idx as int));
                break;
            }
            let ghost before = draw_views(ops@);
            let is_selected = !suppress_selection && self.start_menu_section
                == StartMenuSection::Recents && self.start_menu_index == idx;
            assert(is_selected == (rsel == idx as int));
            push_recent_ops(&mut ops, l, idx, &self.start_menu_cache[idx], is_selected);
            proof {
                assert(items[idx as int] == (
                    self.start_menu_cache@[idx as int].title@,
                    self.start_menu_cache@[idx as int].image is Some,
                ));
                assert(draw_views(ops@) =~= head + recents_ops(*l, items, rsel, idx + 1));
                assert(drawn_from(*l, n as int, idx as int) == drawn_from(*l, n as int, idx + 1));
            }
            draw_count = draw_count + 1;
        }
        if draw_count == 0 {
            proof {
                reveal_strlit("No recent items.");
            }
            push_text(&mut ops, START_MENU_MARGIN, l.list_top + 24, copy_str("No recent items."), false);
        }
        push_op(
            &mut ops,
            MenuDraw::FillRect {
                rect: Rect::new(START_MENU_MARGIN, l.mid_y, l.width - (START_MENU_MARGIN * 2), 1),
                on: false,
            },
        );
        let ghost pre_actions = draw_views(ops@);
        let mut idx: usize = 0;
        proof {
            assert(actions_ops(*l, asel, icon_size as int, battery_percent, 0) =~= Seq::<
                MenuDrawView,
            >::empty());
            assert(draw_views(ops@) =~= pre_actions + actions_ops(
                *l,
                asel,
                icon_size as int,
                battery_percent,
                0,
            ));
        }
        while idx < 3
            invariant
                layout_ok(*l),
                icon_size as int >= l.action_width - i32::MAX,
                asel == selected_in(*self, StartMenuSection::Actions, suppress_selection),
                idx <= 3,
                draw_views(ops@) == pre_actions + actions_ops(
                    *l,
                    asel,
                    icon_size as int,
                    battery_percent,
                    idx as int,
                ),
            decreases 3 - idx,
        {
            let is_selected = !suppress_selection && self.start_menu_section
                == StartMenuSection::Actions && self.start_menu_index == idx;
            assert(is_selected == (asel == idx as int));
            push_action_ops(&mut ops, l, idx, is_selected, icon_size, battery_percent);
            proof {
                assert(draw_views(ops@) =~= pre_actions + actions_ops(
                    *l,
                    asel,
                    icon_size as int,
                    battery_percent,
                    idx + 1,
                ));
            }
            idx = idx + 1;
        }
        proof {
            assert(draw_views(ops@) =~= spec_start_menu_ops(
                *l,
                items,
                rsel,
                asel,
                icon_size as int,
                battery_percent,
            ));
        }
        (ops, draw_count)
    }
}

/// How the panel is brought up to date after the start menu was drawn.
pub enum ScreenFlush {
    /// Add the black pixels to the grayscale planes, show the planes with
    /// the fast grayscale waveform, then copy the active buffer to the
    /// inactive one.
    Grayscale,
    /// Refresh these rectangles, each in its mode; `fallback` is the mode
    /// of a refresh that covers them all.
    Queue { rects: Vec<(Rect, RefreshMode)>, fallback: RefreshMode },
}

/// The whole screen.
pub open spec fn screen_rect(l: StartMenuLayout) -> Rect {
    Rect { x: 0, y: 0, w: l.width, h: l.height }
}

/// The mode of a whole-screen refresh of the 1-bit picture.
pub open spec fn screen_mode(full_refresh: bool) -> RefreshMode {
    if full_refresh {
        RefreshMode::Full
    } else {
        RefreshMode::Fast
    }
}

/// The flush is a queue of exactly `rects` with `fallback`.
pub open spec fn is_queue(f: ScreenFlush, rects: Seq<(Rect, RefreshMode)>, fallback: RefreshMode) -> bool {
    match f {
        ScreenFlush::Queue { rects: r, fallback: fb } => r@ == rects && fb == fallback,
        ScreenFlush::Grayscale => false,
    }
}

/// A highlight rectangle to refresh fast, when there is one.
pub open spec fn fast_rect(r: Option<Rect>) -> Seq<(Rect, RefreshMode)> {
    match r {
        Some(rect) => seq![(rect, RefreshMode::Fast)],
        None => seq![],
    }
}

/// The rectangles refreshed after moving the selection: where it was, and
/// where it is when that differs.
pub open spec fn nav_rects(l: StartMenuLayout, h: HomeState) -> Seq<(Rect, RefreshMode)> {
    let prev = fast_rect(spec_rect_for(l, h.start_menu_prev_section, h.start_menu_prev_index as int));
    if h.start_menu_prev_section != h.start_menu_section || h.start_menu_prev_index
        != h.start_menu_index {
        prev + fast_rect(spec_rect_for(l, h.start_menu_section, h.start_menu_index as int))
    } else {
        prev
    }
}

fn push_fast_rect(rects: &mut Vec<(Rect, RefreshMode)>, r: Option<Rect>)
    ensures
        final(rects)@ == old(rects)@ + fast_rect(r),
{
    match r {
        Some(rect) => {
            rects.push((rect, RefreshMode::Fast));
        },
        None => {},
    }
    assert(final(rects)@ =~= old(rects)@ + fast_rect(r));
}

impl HomeState {
    /// After the first, unhighlighted drawing of a fresh start menu: show
    /// the grayscale planes when anything was drawn into them, else refresh
    /// the whole screen. The base picture is then no longer owed.
    pub fn start_menu_base_flush(&mut self, l: &StartMenuLayout, gray2_used: bool, full_refresh: bool) -> (r:
        ScreenFlush)
        ensures
            *final(self) == (HomeState { start_menu_need_base_refresh: false, ..*old(self) }),
            gray2_used ==> r is Grayscale,
            !gray2_used ==> is_queue(
                r,
                seq![(screen_rect(*l), screen_mode(full_refresh))],
                RefreshMode::Full,
            ),
    {
        self.start_menu_need_base_refresh = false;
        if gray2_used {
            ScreenFlush::Grayscale
        } else {
            let mode = if full_refresh {
                RefreshMode::Full
            } else {
                RefreshMode::Fast
            };
            let rects = vec![(Rect::new(0, 0, l.width, l.height), mode)];
            assert(rects@ =~= seq![(screen_rect(*l), screen_mode(full_refresh))]);
            ScreenFlush::Queue { rects, fallback: RefreshMode::Full }
        }
    }

    /// After the highlighted drawing that follows a base picture: refresh
    /// the highlighted entry or tile fast.
    pub fn start_menu_selection_flush(&self, l: &StartMenuLayout) -> (r: Vec<(Rect, RefreshMode)>)
        requires
            layout_ok(*l),
        ensures
            r@ == fast_rect(spec_rect_for(*l, self.start_menu_section, self.start_menu_index as int)),
    {
        let mut rects: Vec<(Rect, RefreshMode)> = Vec::new();
        push_fast_rect(&mut rects, rect_for(l, self.start_menu_section, self.start_menu_index));
        rects
    }

    /// After an ordinary drawing of the start menu. With grayscale content,
    /// a pending move of the selection refreshes only the old and new
    /// highlight (and is then no longer pending), else the whole screen is
    /// refreshed fast; without grayscale content the whole screen is
    /// refreshed in the mode the caller asks for.
    pub fn start_menu_flush(&mut self, l: &StartMenuLayout, gray2_used: bool, full_refresh: bool) -> (r:
        ScreenFlush)
        requires
            layout_ok(*l),
        ensures
            gray2_used && old(self).start_menu_nav_pending ==> is_queue(
                r,
                nav_rects(*l, *old(self)),
                RefreshMode::Fast,
            ) && *final(self) == (HomeState { start_menu_nav_pending: false, ..*old(self) }),
            gray2_used && !old(self).start_menu_nav_pending ==> is_queue(
                r,
                seq![(screen_rect(*l), RefreshMode::Fast)],
                RefreshMode::Fast,
            ) && *final(self) == *old(self),
            !gray2_used ==> is_queue(
                r,
                seq![(screen_rect(*l), screen_mode(full_refresh))],
                RefreshMode::Full,
            ) && *final(self) == *old(self),
    {
        if gray2_used {
            if self.start_menu_nav_pending {
                let mut rects: Vec<(Rect, RefreshMode)> = Vec::new();
                push_fast_rect(
                    &mut rects,
                    rect_for(l, self.start_menu_prev_section, self.start_menu_prev_index),
                );
                if self.start_menu_prev_section != self.start_menu_section
                    || self.start_menu_prev_index != self.start_menu_index {
                    push_fast_rect(&mut rects, rect_for(l, self.start_menu_section, self.start_menu_index));
                }
                self.start_menu_nav_pending = false;
                ScreenFlush::Queue { rects, fallback: RefreshMode::Fast }
            } else {
                let rects = vec![(Rect::new(0, 0, l.width, l.height), RefreshMode::Fast)];
                assert(rects@ =~= seq![(screen_rect(*l), RefreshMode::Fast)]);
                ScreenFlush::Queue { rects, fallback: RefreshMode::Fast }
            }
        } else {
            let mode = if full_refresh {
                RefreshMode::Full
            } else {
                RefreshMode::Fast
            };
            let rects = vec![(Rect::new(0, 0, l.width, l.height), mode)];
            assert(rects@ =~= seq![(screen_rect(*l), screen_mode(full_refresh))]);
            ScreenFlush::Queue { rects, fallback: RefreshMode::Full }
        }
    }

    /// The lines of the file browser: each entry's name, with a '/' after
    /// the name of a directory.
    pub fn menu_labels(&self) -> (r: Vec<String>)
        ensures
            r@.len() == self.entries@.len(),
            forall|i: int|
                0 <= i < r@.len() ==> #[trigger] r@[i]@ == if self.entries@[i].kind
                    == crate::image_viewer::EntryKind::Dir {
                    self.entries@[i].name@.push('/')
                } else {
                    self.entries@[i].name@
                },
    {
        let mut labels: Vec<String> = Vec::new();
        let mut i: usize = 0;
        while i < self.entries.len()
            invariant
                i <= self.entries@.len(),
                labels@.len() == i,
                forall|j: int|
                    0 <= j < i ==> #[trigger] labels@[j]@ == if self.entries@[j].kind
                        == crate::image_viewer::EntryKind::Dir {
                        self.entries@[j].name@.push('/')
                    } else {
                        self.entries@[j].name@
                    },
            decreases self.entries@.len() - i,
        {
            let entry = &self.entries[i];
            let mut label = copy_str(entry.name.as_str());
            if entry.kind == crate::image_viewer::EntryKind::Dir {
                crate::text::push_char(&mut label, '/');
            }
            labels.push(label);
            i = i + 1;
        }
        labels
    }
}

} // verus!
