//! Screen rectangles and the description of a list screen.

use vstd::prelude::*;
use crate::display::RefreshMode;

verus! {

/// A rectangle in logical screen coordinates.
#[derive(Clone, Copy, Debug, PartialEq, Eq, Structural)]
pub struct Rect {
    pub x: i32,
    pub y: i32,
    pub w: i32,
    pub h: i32,
}

impl Rect {
    pub fn new(x: i32, y: i32, w: i32, h: i32) -> (r: Self)
        ensures
            r == (Rect { x, y, w, h }),
    {
        Rect { x, y, w, h }
    }
}

/// A list screen as the list widget shows it: a title, one row per item
/// with one of them selected (or `empty_label` when there are none), a
/// footer, laid out from the given margin, heading baseline, first row and
/// row height, and refreshed in `refresh` when nothing finer applies.
pub struct ListScreen {
    pub title: String,
    pub items: Vec<String>,
    pub footer: String,
    pub empty_label: String,
    pub selected: usize,
    pub margin_x: i32,
    pub header_y: i32,
    pub list_top: i32,
    pub line_height: i32,
    pub refresh: RefreshMode,
}

/// A list screen as values.
pub struct ListScreenView {
    pub title: Seq<char>,
    pub items: Seq<Seq<char>>,
    pub footer: Seq<char>,
    pub empty_label: Seq<char>,
    pub selected: usize,
    pub margin_x: i32,
    pub header_y: i32,
    pub list_top: i32,
    pub line_height: i32,
    pub refresh: RefreshMode,
}

impl View for ListScreen {
    type V = ListScreenView;

    open spec fn view(&self) -> ListScreenView {
        ListScreenView {
            title: self.title@,
            items: self.items@.map_values(|s: String| s@),
            footer: self.footer@,
            empty_label: self.empty_label@,
            selected: self.selected,
            margin_x: self.margin_x,
            header_y: self.header_y,
            list_top: self.list_top,
            line_height: self.line_height,
            refresh: self.refresh,
        }
    }
}

} // verus!
