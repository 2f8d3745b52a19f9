//! How the screen is divided: the body and the footer, and the panes that each layout
//! shows.
use vstd::prelude::*;

use super::links::near16;
use crate::app::geometry::{no_rects, Rect, Rects};
use crate::app::state::{App, Focus, Mode, SpecApp};
use crate::prefs::{LayoutKind, PANE_MAX, PANE_MIN};

verus! {

// --- Dividing an area -------------------------------------------------------------

/// How much room a part of an area asks for.
#[derive(Clone, Copy, PartialEq, Eq, Structural, Debug)]
pub enum Room {
    /// This many cells.
    Length(u16),
    /// This many cells at least.
    Min(u16),
}

/// Where an area starts, down or across.
pub open spec fn start_of(r: Rect, down: bool) -> int {
    if down {
        r.y as int
    } else {
        r.x as int
    }
}

/// How far an area reaches, down or across.
pub open spec fn size_of(r: Rect, down: bool) -> int {
    if down {
        r.height as int
    } else {
        r.width as int
    }
}

/// An area ends within the coordinates.
pub open spec fn is_placed(area: Rect) -> bool {
    area.x + area.width <= u16::MAX && area.y + area.height <= u16::MAX
}

/// An area cut off where the coordinates end.
pub open spec fn placed(area: Rect) -> Rect {
    Rect {
        x: area.x,
        y: area.y,
        width: (near16(area.x + area.width) - area.x) as u16,
        height: (near16(area.y + area.height) - area.y) as u16,
    }
}

/// An area cut off where the coordinates end.
pub fn place(area: Rect) -> (r: Rect)
    ensures
        r == placed(area),
        is_placed(r),
{
    Rect {
        x: area.x,
        y: area.y,
        width: area.x.saturating_add(area.width) - area.x,
        height: area.y.saturating_add(area.height) - area.y,
    }
}

/// The cells that the first `n` rooms ask for.
pub open spec fn asked(rooms: Seq<Room>, n: int) -> int
    decreases n,
{
    if n <= 0 {
        0
    } else {
        asked(rooms, n - 1) + match rooms[n - 1] {
            Room::Length(k) => k as int,
            Room::Min(k) => k as int,
        }
    }
}

/// One room takes what the others, of given lengths, leave.
pub open spec fn one_takes_the_rest(rooms: Seq<Room>) -> bool {
    exists|k: int|
        0 <= k < rooms.len() && #[trigger] rooms[k] == Room::Min(0) && forall|i: int|
            0 <= i < rooms.len() && i != k ==> #[trigger] rooms[i] is Length
}

/// The parts lie side by side, or one below the other, and fill the area. No part is larger
/// than the length asked for. Where all lengths have room each part has its length; where
/// they leave none, the room for the rest is empty.
pub open spec fn divides(area: Rect, rooms: Seq<Room>, down: bool, parts: Seq<Rect>) -> bool {
    let whole = size_of(area, down);
    let wanted = asked(rooms, rooms.len() as int);
    &&& parts.len() == rooms.len()
    &&& start_of(parts[0], down) == start_of(area, down)
    &&& forall|i: int, j: int|
        0 <= i < j < parts.len() && j == i + 1 ==> start_of(#[trigger] parts[j], down) == start_of(
            #[trigger] parts[i],
            down,
        ) + size_of(parts[i], down)
    &&& start_of(parts.last(), down) + size_of(parts.last(), down) == start_of(area, down) + whole
    &&& forall|i: int|
        0 <= i < parts.len() ==> {
            let part = #[trigger] parts[i];
            &&& start_of(part, !down) == start_of(area, !down)
            &&& size_of(part, !down) == size_of(area, !down)
            &&& match rooms[i] {
                Room::Length(n) => size_of(part, down) <= n && (wanted <= whole ==> size_of(
                    part,
                    down,
                ) == n),
                Room::Min(_) => wanted >= whole ==> size_of(part, down) == 0,
            }
        }
}

/// `Layout::split` of ratatui: the parts of an area, one for each room asked for. Its
/// solver weighs the lengths far above the room for the rest and the gaps between parts
/// above both. Where the lengths do not fit, several divisions are equally good and it is
/// left open which of them comes out.
#[verifier::external_body]
pub(crate) fn divide(area: Rect, rooms: &Vec<Room>, down: bool) -> (r: Vec<Rect>)
    requires
        is_placed(area),
        one_takes_the_rest(rooms@),
    ensures
        divides(area, rooms@, down, r@),
{
    let constraints = rooms.iter().map(|room| match room {
        Room::Length(n) => ratatui::layout::Constraint::Length(*n),
        Room::Min(n) => ratatui::layout::Constraint::Min(*n),
    });
    let layout = match down {
        true => ratatui::layout::Layout::vertical(constraints),
        false => ratatui::layout::Layout::horizontal(constraints),
    };
    let parts = layout.split(ratatui::layout::Rect::new(area.x, area.y, area.width, area.height));
    parts.iter().map(|p| Rect { x: p.x, y: p.y, width: p.width, height: p.height }).collect()
}

// --- Panes ------------------------------------------------------------------------

/// A pane's width, kept between the least and the most that a pane may take: never so
/// wide that nothing is left for the reader.
pub open spec fn pane_width(width: u16, total: u16) -> u16 {
    let left: u16 = if total < 10 {
        0
    } else {
        (total - 10) as u16
    };
    let most = if left < PANE_MAX {
        left
    } else {
        PANE_MAX
    };
    let high = if most < PANE_MIN {
        PANE_MIN
    } else {
        most
    };
    if width < PANE_MIN {
        PANE_MIN
    } else if width > high {
        high
    } else {
        width
    }
}

/// A pane's width, kept between the least and the most that a pane may take.
pub fn clamp_pane(width: u16, total: u16) -> (r: u16)
    ensures
        r == pane_width(width, total),
{
    let left = total.saturating_sub(10);
    let most: u16 = if left < PANE_MAX {
        left
    } else {
        PANE_MAX
    };
    let high: u16 = if most < PANE_MIN {
        PANE_MIN
    } else {
        most
    };
    if width < PANE_MIN {
        PANE_MIN
    } else if width > high {
        high
    } else {
        width
    }
}

/// A pane is never narrower than the least width, nor wider than the most.
pub proof fn law_pane_width_is_in_range(width: u16, total: u16)
    ensures
        PANE_MIN <= pane_width(width, total) <= PANE_MAX,
        total >= PANE_MIN + 10 ==> pane_width(width, total) <= total - 10,
        pane_width(pane_width(width, total), total) == pane_width(width, total),
{
}

/// The lesser of two lengths.
pub open spec fn lesser(a: u16, b: u16) -> u16 {
    if a < b {
        a
    } else {
        b
    }
}

/// A pane of a width at the left of the body, as far as there is room.
pub open spec fn left_of(body: Rect, width: u16) -> Rect {
    let b = placed(body);
    Rect { width: lesser(width, b.width), ..b }
}

/// What a pane at the left leaves of the body.
pub open spec fn right_of(body: Rect, width: u16) -> Rect {
    let b = placed(body);
    let w = lesser(width, b.width);
    Rect { x: (b.x + w) as u16, width: (b.width - w) as u16, ..b }
}

/// A pane of the body that starts at a column and has a width.
pub open spec fn column(body: Rect, x: int, width: u16) -> Rect {
    let b = placed(body);
    Rect { x: x as u16, width, ..b }
}

/// Three panes fill the body side by side. The first two have the widths asked for where
/// both have room; where they have not, neither is wider than asked and the third is empty.
pub open spec fn three_panes(body: Rect, sidebar: u16, posts: u16, r: Rects) -> bool {
    let b = placed(body);
    let first = r.sidebar.width;
    let second = r.posts.width;
    &&& r.sidebar == column(body, b.x as int, first)
    &&& r.posts == column(body, b.x + first, second)
    &&& r.reader == column(body, b.x + first + second, r.reader.width)
    &&& first + second + r.reader.width == b.width
    &&& first <= sidebar && second <= posts
    &&& sidebar + posts <= b.width ==> first == sidebar && second == posts
    &&& sidebar + posts >= b.width ==> r.reader.width == 0
    &&& r == Rects { sidebar: r.sidebar, posts: r.posts, reader: r.reader, ..no_rects() }
}

/// `r` are the panes of a layout in the body of the screen. Those that it does not show
/// have no area.
pub open spec fn panes_shown(
    layout: LayoutKind,
    mode: Mode,
    focus: Focus,
    widths: (u16, u16),
    body: Rect,
    r: Rects,
) -> bool {
    let sidebar = pane_width(widths.0, body.width);
    let posts = pane_width(widths.1, body.width);
    match layout {
        LayoutKind::TwoPane => {
            let (left, right) = (left_of(body, sidebar), right_of(body, sidebar));
            if mode == Mode::DocList {
                r == Rects { posts: left, reader: right, ..no_rects() }
            } else {
                r == Rects { sidebar: left, reader: right, ..no_rects() }
            }
        },
        LayoutKind::ThreePane => three_panes(body, sidebar, posts, r),
        LayoutKind::OnePane => r == match focus {
            Focus::Sidebar => Rects { sidebar: body, ..no_rects() },
            Focus::Posts => Rects { posts: body, ..no_rects() },
            Focus::Reader => Rects { reader: body, ..no_rects() },
        },
        LayoutKind::DrillDown => r == match focus {
            Focus::Sidebar => Rects { sidebar: body, ..no_rects() },
            Focus::Posts => Rects {
                sidebar: left_of(body, sidebar),
                posts: right_of(body, sidebar),
                ..no_rects()
            },
            Focus::Reader => Rects { reader: body, ..no_rects() },
        },
    }
}

fn split_beside(body: Rect, width: u16) -> (r: (Rect, Rect))
    ensures
        r.0 == left_of(body, width),
        r.1 == right_of(body, width),
{
    let mut rooms: Vec<Room> = Vec::new();
    rooms.push(Room::Length(width));
    rooms.push(Room::Min(0));
    assert(rooms@[1] == Room::Min(0));
    let cols = divide(place(body), &rooms, false);
    proof {
        reveal_with_fuel(asked, 3);
    }
    let (left, right) = (cols[0], cols[1]);
    assert(cols@.last() == right);
    (left, right)
}

fn split_in_three(body: Rect, sidebar: u16, posts: u16) -> (r: Rects)
    ensures
        three_panes(body, sidebar, posts, r),
{
    let mut rooms: Vec<Room> = Vec::new();
    rooms.push(Room::Length(sidebar));
    rooms.push(Room::Length(posts));
    rooms.push(Room::Min(0));
    assert(rooms@[2] == Room::Min(0));
    let cols = divide(place(body), &rooms, false);
    proof {
        reveal_with_fuel(asked, 4);
    }
    let r = Rects { sidebar: cols[0], posts: cols[1], reader: cols[2], ..Rects::default() };
    assert(cols@.last() == r.reader);
    r
}

/// The panes of a layout in the body of the screen.
pub fn panes(
    layout: LayoutKind,
    mode: Mode,
    focus: Focus,
    sidebar_width: u16,
    posts_width: u16,
    body: Rect,
) -> (r: Rects)
    ensures
        panes_shown(layout, mode, focus, (sidebar_width, posts_width), body, r),
{
    let sidebar = clamp_pane(sidebar_width, body.width);
    let posts = clamp_pane(posts_width, body.width);
    match layout {
        LayoutKind::TwoPane => {
            let (left, right) = split_beside(body, sidebar);
            if mode == Mode::DocList {
                Rects { posts: left, reader: right, ..Rects::default() }
            } else {
                Rects { sidebar: left, reader: right, ..Rects::default() }
            }
        },
        LayoutKind::ThreePane => split_in_three(body, sidebar, posts),
        LayoutKind::OnePane => match focus {
            Focus::Sidebar => Rects { sidebar: body, ..Rects::default() },
            Focus::Posts => Rects { posts: body, ..Rects::default() },
            Focus::Reader => Rects { reader: body, ..Rects::default() },
        },
        LayoutKind::DrillDown => match focus {
            Focus::Sidebar => Rects { sidebar: body, ..Rects::default() },
            Focus::Posts => {
                let (left, right) = split_beside(body, sidebar);
                Rects { sidebar: left, posts: right, ..Rects::default() }
            },
            Focus::Reader => Rects { reader: body, ..Rects::default() },
        },
    }
}

/// The panes of the wider layouts fill the body from side to side, whatever its width.
pub proof fn law_panes_fill_the_body(
    mode: Mode,
    focus: Focus,
    widths: (u16, u16),
    body: Rect,
    two: Rects,
    three: Rects,
)
    requires
        is_placed(body),
        panes_shown(LayoutKind::TwoPane, mode, focus, widths, body, two),
        panes_shown(LayoutKind::ThreePane, mode, focus, widths, body, three),
    ensures
        two.sidebar.width + two.posts.width + two.reader.width == body.width,
        two.reader.x + two.reader.width == body.x + body.width,
        three.sidebar.width + three.posts.width + three.reader.width == body.width,
        three.sidebar.x == body.x,
        three.posts.x == three.sidebar.x + three.sidebar.width,
        three.reader.x == three.posts.x + three.posts.width,
{
}

/// The screen without its footer.
pub open spec fn body_of(area: Rect) -> Rect {
    let a = placed(area);
    Rect { height: (a.height - lesser(1, a.height)) as u16, ..a }
}

/// The screen's last row, where it has one.
pub open spec fn footer_of(area: Rect) -> Rect {
    let a = placed(area);
    let h = lesser(1, a.height);
    Rect { y: (a.y + a.height - h) as u16, height: h, ..a }
}

/// The screen's body and its footer of one row.
pub fn split_screen(area: Rect) -> (r: (Rect, Rect))
    ensures
        r.0 == body_of(area),
        r.1 == footer_of(area),
{
    let mut rooms: Vec<Room> = Vec::new();
    rooms.push(Room::Min(0));
    rooms.push(Room::Length(1));
    assert(rooms@[0] == Room::Min(0));
    let rows = divide(place(area), &rooms, true);
    proof {
        reveal_with_fuel(asked, 3);
    }
    let (body, footer) = (rows[0], rows[1]);
    assert(rows@.last() == footer);
    (body, footer)
}

impl App {
    /// Divide the body of the screen into the panes of the layout, for drawing and for the
    /// mouse.
    pub fn place_panes(&mut self, body: Rect)
        ensures
            panes_shown(
                old(self)@.layout,
                old(self)@.mode,
                old(self)@.focus,
                (old(self)@.prefs.sidebar_width, old(self)@.prefs.posts_width),
                body,
                final(self)@.rects,
            ),
            final(self)@ == (SpecApp { rects: final(self)@.rects, ..old(self)@ }),
            old(self)@.wf() ==> final(self)@.wf(),
    {
        let rects = panes(
            self.layout,
            self.mode,
            self.focus,
            self.prefs.sidebar_width,
            self.prefs.posts_width,
            body,
        );
        self.rects = rects;
    }
}

/// With one pane, only the focused one is shown; drilling down, the feed list stays
/// visible until a post is open.
pub proof fn law_focused_pane_is_shown(
    mode: Mode,
    focus: Focus,
    widths: (u16, u16),
    body: Rect,
    one: Rects,
    drill: Rects,
)
    requires
        panes_shown(LayoutKind::OnePane, mode, focus, widths, body, one),
        panes_shown(LayoutKind::DrillDown, mode, focus, widths, body, drill),
    ensures
        focus == Focus::Sidebar ==> one.sidebar == body && drill.sidebar == body,
        focus == Focus::Posts ==> one.posts == body && drill.reader == no_rects().reader,
        focus == Focus::Reader ==> one.reader == body && drill.reader == body,
{
}

// --- Popups -----------------------------------------------------------------------

/// A popup's size in one direction, which the area bounds.
pub open spec fn popup_length(wanted: u16, room: u16) -> u16 {
    if wanted < room {
        wanted
    } else {
        room
    }
}

/// A popup in the middle of an area.
pub open spec fn popup_of(area: Rect, width: u16, height: u16) -> Rect {
    let w = popup_length(width, area.width);
    let h = popup_length(height, area.height);
    Rect {
        x: near16(area.x + (area.width - w) / 2),
        y: near16(area.y + (area.height - h) / 2),
        width: w,
        height: h,
    }
}

/// A popup in the middle of an area, no larger than the area.
pub fn centered(area: Rect, width: u16, height: u16) -> (r: Rect)
    ensures
        r == popup_of(area, width, height),
{
    let w: u16 = if width < area.width {
        width
    } else {
        area.width
    };
    let h: u16 = if height < area.height {
        height
    } else {
        area.height
    };
    Rect {
        x: area.x.saturating_add((area.width - w) / 2),
        y: area.y.saturating_add((area.height - h) / 2),
        width: w,
        height: h,
    }
}

/// A popup lies inside its area.
pub proof fn law_popups_stay_inside(area: Rect, width: u16, height: u16)
    requires
        area.x + area.width <= u16::MAX,
        area.y + area.height <= u16::MAX,
    ensures
        ({
            let p = popup_of(area, width, height);
            &&& area.x <= p.x && p.x + p.width <= area.x + area.width
            &&& area.y <= p.y && p.y + p.height <= area.y + area.height
        }),
{
}

// --- The address in the border ----------------------------------------------------

/// Where a label of a width stands in the lower border of a pane: at its right end, one
/// cell from the corner. It stands nowhere if both corners do not fit beside it.
pub open spec fn label_place(area: Rect, label_width: u16) -> Option<Rect> {
    if area.height == 0 || label_width + 2 > area.width {
        None
    } else {
        Some(
            Rect {
                x: near16(area.x + (area.width - 1 - label_width)),
                y: near16(area.y + (area.height - 1)),
                width: label_width,
                height: 1,
            },
        )
    }
}

/// Where the platform's address stands in the lower border of the reader, if it fits.
pub fn attribution_place(area: Rect, label_width: u16) -> (r: Option<Rect>)
    ensures
        r == label_place(area, label_width),
{
    if area.height == 0 || area.width < 2 || label_width > area.width - 2 {
        None
    } else {
        Some(
            Rect {
                x: area.x.saturating_add(area.width - 1 - label_width),
                y: area.y.saturating_add(area.height - 1),
                width: label_width,
                height: 1,
            },
        )
    }
}

/// A label in the border lies in the last row of its area, between the corners.
pub proof fn law_labels_stay_in_the_border(area: Rect, label_width: u16)
    requires
        is_placed(area),
    ensures
        label_place(area, label_width) matches Some(p) ==> {
            &&& p.y == area.y + area.height - 1
            &&& area.x < p.x
            &&& p.x + p.width == area.x + area.width - 1
        },
{
}

} // verus!
