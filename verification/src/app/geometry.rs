//! Rectangles of the screen, and what lies under a point.
use vstd::prelude::*;

verus! {

/// A rectangle in cells.
#[derive(Clone, Copy, PartialEq, Eq, Structural, Debug)]
pub struct Rect {
    pub x: u16,
    pub y: u16,
    pub width: u16,
    pub height: u16,
}

impl Default for Rect {
    fn default() -> (r: Self)
        ensures
            r == (Rect { x: 0, y: 0, width: 0, height: 0 }),
    {
        Rect { x: 0, y: 0, width: 0, height: 0 }
    }
}

impl Rect {
    pub fn new(x: u16, y: u16, width: u16, height: u16) -> (r: Self)
        ensures
            r == (Rect { x, y, width, height }),
    {
        Rect { x, y, width, height }
    }

    /// The first column to the right of it; columns end at the largest number.
    pub open spec fn right_edge(self) -> int {
        if self.x + self.width <= u16::MAX {
            self.x + self.width
        } else {
            u16::MAX as int
        }
    }

    /// The first row below it; rows end at the largest number.
    pub open spec fn bottom_edge(self) -> int {
        if self.y + self.height <= u16::MAX {
            self.y + self.height
        } else {
            u16::MAX as int
        }
    }

    pub fn right(self) -> (r: u16)
        ensures
            r == self.right_edge(),
    {
        self.x.saturating_add(self.width)
    }

    pub fn bottom(self) -> (r: u16)
        ensures
            r == self.bottom_edge(),
    {
        self.y.saturating_add(self.height)
    }

    /// A point lies in it.
    pub open spec fn covers(self, x: int, y: int) -> bool {
        self.x <= x < self.right_edge() && self.y <= y < self.bottom_edge()
    }

    /// A point lies inside its one-cell border.
    pub open spec fn covers_inside(self, x: int, y: int) -> bool {
        self.x < x < self.right_edge() - 1 && self.y < y < self.bottom_edge() - 1
    }
}

/// Whether a point lies in a rectangle. One without area holds none.
pub fn in_rect(rect: Rect, x: u16, y: u16) -> (r: bool)
    ensures
        r == rect.covers(x as int, y as int),
{
    x >= rect.x && x < rect.right() && y >= rect.y && y < rect.bottom()
}

/// The row of a bordered list at a point; `None` outside it and on its border.
pub open spec fn row_at(rect: Rect, x: int, y: int) -> Option<int> {
    if rect.covers_inside(x, y) {
        Some(y - rect.y - 1)
    } else {
        None
    }
}

/// The row of a bordered list at a point; `None` outside it and on its border.
pub fn hit(rect: Rect, x: u16, y: u16) -> (r: Option<usize>)
    ensures
        match r {
            Some(i) => row_at(rect, x as int, y as int) == Some(i as int),
            None => row_at(rect, x as int, y as int) is None,
        },
{
    if rect.width == 0 || rect.height == 0 {
        return None;
    }
    if x > rect.x && x < rect.right().saturating_sub(1) && y > rect.y && y
        < rect.bottom().saturating_sub(1) {
        Some((y - rect.y - 1) as usize)
    } else {
        None
    }
}

/// A pane without area, which the layout does not show, is never hit.
pub proof fn law_absent_panes_are_never_hit(rect: Rect, x: int, y: int)
    requires
        rect.width == 0 || rect.height == 0,
    ensures
        row_at(rect, x, y) is None,
        !rect.covers(x, y),
{
}

/// Pane rectangles from the last drawing. A pane that was not drawn has no area.
#[derive(Clone, Copy, PartialEq, Eq, Structural, Debug)]
pub struct Rects {
    pub sidebar: Rect,
    pub posts: Rect,
    pub reader: Rect,
    /// The platform's name in the reader's bottom border.
    pub attribution: Rect,
    /// The status text of the footer, without the hints.
    pub status: Rect,
}

/// No pane was drawn.
pub open spec fn no_rects() -> Rects {
    let none = Rect { x: 0, y: 0, width: 0, height: 0 };
    Rects { sidebar: none, posts: none, reader: none, attribution: none, status: none }
}

impl Default for Rects {
    fn default() -> (r: Self)
        ensures
            r == no_rects(),
    {
        let none = Rect::default();
        Rects { sidebar: none, posts: none, reader: none, attribution: none, status: none }
    }
}

/// One row of a link's footprint in the reader, in rows of the document before
/// scrolling. A link that wraps has one for each of its rows.
#[derive(Clone, Copy, PartialEq, Eq, Structural, Debug)]
pub struct LinkRect {
    /// The link's place among the open document's links.
    pub idx: usize,
    pub row: u16,
    pub col: u16,
    pub width: u16,
}

impl LinkRect {
    /// A place of the document lies on it.
    pub open spec fn at(self, col: int, row: int) -> bool {
        self.row == row && self.col <= col < self.col + self.width
    }
}

/// The first footprint at a place of the document, from `i` on.
pub open spec fn link_rect_at(s: Seq<LinkRect>, i: int, col: int, row: int) -> Option<usize>
    decreases s.len() - i,
{
    if i < 0 || i >= s.len() {
        None
    } else if s[i].at(col, row) {
        Some(s[i].idx)
    } else {
        link_rect_at(s, i + 1, col, row)
    }
}

/// The link whose footprint lies at a place of the document.
pub fn find_link_rect(s: &Vec<LinkRect>, col: u32, row: u32) -> (r: Option<usize>)
    ensures
        r == link_rect_at(s@, 0, col as int, row as int),
{
    let mut i: usize = 0;
    while i < s.len()
        invariant
            i <= s@.len(),
            link_rect_at(s@, 0, col as int, row as int) == link_rect_at(
                s@,
                i as int,
                col as int,
                row as int,
            ),
        decreases s@.len() - i,
    {
        let l = s[i];
        let from: u32 = l.col as u32;
        let to: u32 = from + l.width as u32;
        if l.row as u32 == row && col >= from && col < to {
            return Some(l.idx);
        }
        i = i + 1;
    }
    None
}

} // verus!
