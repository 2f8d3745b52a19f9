//! The part of the laid-out document that the reader shows: when a kept layout is still
//! good, how far it is scrolled, and which rows of a segment are visible.
use vstd::prelude::*;

use super::links::{near16, WIDEST};
use super::reader::{
    body_view, build, cover_view, flow_of, locate_and_highlight_links, segments_view, wants_of,
    Flow, Located, Page, Segment, SpecSegment,
};
use super::theme::Theme;
use crate::app::geometry::{LinkRect, Rect};
use crate::app::state::{App, SpecApp};
use crate::model::Block;

verus! {

// --- Keeping a layout -------------------------------------------------------------

/// Everything that the segments and the links of a layout depend on. How far the document
/// is scrolled has no part in it.
#[derive(Clone, Copy, PartialEq, Eq, Structural, Debug)]
pub struct ReaderKey {
    pub width: u16,
    pub height: u16,
    pub show_images: bool,
    pub reading_version: u64,
    pub images_version: u64,
    pub theme: Theme,
    pub focused_link: Option<usize>,
}

/// A layout that is kept from one drawing to the next.
#[derive(PartialEq, Eq, Debug)]
pub struct ReaderLayout {
    pub key: ReaderKey,
    pub segments: Vec<Segment>,
    /// The row below the last segment.
    pub total: u16,
}

impl SpecApp {
    /// What the reader's layout depends on, in a pane of a size.
    pub open spec fn reader_key(self, theme: Theme, width: u16, height: u16) -> ReaderKey {
        ReaderKey {
            width,
            height,
            show_images: self.show_images,
            reading_version: self.reading_version,
            images_version: self.images_version,
            theme,
            focused_link: self.focused_link,
        }
    }

    /// The open document laid out.
    pub open spec fn reader_flow(
        self,
        theme: Theme,
        width: u16,
        sizes: Seq<(u16, u16)>,
    ) -> Flow {
        flow_of(
            self.reading_cover,
            self.reading,
            Page { theme, width, show_images: self.show_images, sizes },
        )
    }

    /// The open document laid out, its links found.
    pub open spec fn reader_links(
        self,
        theme: Theme,
        width: u16,
        sizes: Seq<(u16, u16)>,
    ) -> Located {
        Located::nothing().with_segments(
            self.reader_flow(theme, width, sizes).segs,
            self.focused_link,
            theme,
            width,
        )
    }

    /// The reader was laid out anew.
    #[verifier::opaque]
    pub open spec fn laid_out(self, rects: Seq<LinkRect>) -> SpecApp {
        SpecApp { link_rects: rects, reader_stale: false, ..self }
    }

    /// The reader is scrolled to a row, and what asked for it is served.
    #[verifier::opaque]
    pub open spec fn scrolled_to(self, row: u16) -> SpecApp {
        SpecApp { scroll: row, scroll_to_focused: false, ..self }
    }

    /// Where the reader stands once the focused link is brought into view and the end of
    /// the document is not scrolled past.
    pub open spec fn settled_scroll(self, total: u16, height: u16) -> u16 {
        let wanted = if self.scroll_to_focused && self.focused_link is Some {
            row_in_view(
                self.scroll,
                first_row(self.link_rects, 0, self.focused_link->0),
                height,
            )
        } else {
            self.scroll
        };
        let last = if total < height {
            0
        } else {
            (total - height) as u16
        };
        if wanted < last {
            wanted
        } else {
            last
        }
    }
}

/// The row of a link's first piece, from `i` on.
pub open spec fn first_row(s: Seq<LinkRect>, i: int, link: usize) -> Option<u16>
    decreases s.len() - i,
{
    if i < 0 || i >= s.len() {
        None
    } else if s[i].idx == link {
        Some(s[i].row)
    } else {
        first_row(s, i + 1, link)
    }
}

/// Where a pane of a height, scrolled to `scroll`, stands to show a row: as it is where it
/// shows it; else the row is its first, or in its middle where it lies below.
pub open spec fn row_in_view(scroll: u16, row: Option<u16>, height: u16) -> u16 {
    match row {
        Some(r) => if r < scroll {
            r
        } else if r >= scroll + height {
            if r < height / 2 {
                0
            } else {
                (r - height / 2) as u16
            }
        } else {
            scroll
        },
        None => scroll,
    }
}

/// The row of a link's first piece.
pub fn link_row(s: &Vec<LinkRect>, link: usize) -> (r: Option<u16>)
    ensures
        r == first_row(s@, 0, link),
{
    let mut i: usize = 0;
    while i < s.len()
        invariant
            i <= s@.len(),
            first_row(s@, 0, link) == first_row(s@, i as int, link),
        decreases s@.len() - i,
    {
        if s[i].idx == link {
            return Some(s[i].row);
        }
        i = i + 1;
    }
    None
}

/// Where a pane stands to show a row.
pub fn bring_into_view(scroll: u16, row: Option<u16>, height: u16) -> (r: u16)
    ensures
        r == row_in_view(scroll, row, height),
{
    match row {
        Some(r) => {
            if r < scroll {
                r
            } else if r as u32 >= scroll as u32 + height as u32 {
                r.saturating_sub(height / 2)
            } else {
                scroll
            }
        },
        None => scroll,
    }
}

impl App {
    /// What the reader's layout depends on, in a pane of a size.
    pub fn reader_key(&self, theme: &Theme, width: u16, height: u16) -> (r: ReaderKey)
        ensures
            r == self@.reader_key(*theme, width, height),
    {
        ReaderKey {
            width,
            height,
            show_images: self.show_images,
            reading_version: self.reading_version,
            images_version: self.images_version,
            theme: *theme,
            focused_link: self.focused_link,
        }
    }

    /// Whether a kept layout is still good.
    pub fn layout_is_good(&self, kept: &ReaderLayout, theme: &Theme, width: u16, height: u16) -> (r:
        bool)
        ensures
            r == (!self@.reader_stale && kept.key == self@.reader_key(*theme, width, height)),
    {
        !self.reader_stale && kept.key == self.reader_key(theme, width, height)
    }

    /// Lay the open document out and find its links. `sizes` holds the size in cells of
    /// each of its images.
    pub fn lay_out_reader(
        &mut self,
        theme: &Theme,
        width: u16,
        height: u16,
        sizes: &Vec<(u16, u16)>,
    ) -> (r: ReaderLayout)
        requires
            width <= WIDEST,
            sizes@.len() == wants_of(
                old(self)@.reading_cover,
                old(self)@.reading,
                old(self)@.show_images,
                width,
            ).len(),
        ensures
            r.key == old(self)@.reader_key(*theme, width, height),
            segments_view(r.segments@) == old(self)@.reader_links(*theme, width, sizes@).segs,
            r.total == old(self)@.reader_flow(*theme, width, sizes@).y,
            final(self)@ == old(self)@.laid_out(
                old(self)@.reader_links(*theme, width, sizes@).rects,
            ),
            old(self)@.wf() ==> final(self)@.wf(),
    {
        proof {
            reveal(SpecApp::laid_out);
        }
        let key = self.reader_key(theme, width, height);
        let (mut segments, total) = self.built(theme, width, sizes);
        let rects = locate_and_highlight_links(&mut segments, self.focused_link, theme, width);
        self.link_rects = rects;
        self.reader_stale = false;
        ReaderLayout { key, segments, total }
    }

    fn built(&self, theme: &Theme, width: u16, sizes: &Vec<(u16, u16)>) -> (r: (
        Vec<Segment>,
        u16,
    ))
        requires
            width <= WIDEST,
            sizes@.len() == wants_of(
                self@.reading_cover,
                self@.reading,
                self@.show_images,
                width,
            ).len(),
        ensures
            segments_view(r.0@) == self@.reader_flow(*theme, width, sizes@).segs,
            r.1 == self@.reader_flow(*theme, width, sizes@).y,
    {
        let body: Option<&Vec<Block>> = match &self.reading {
            Some(doc) => Some(&doc.blocks),
            None => None,
        };
        assert(body_view(body) == self@.reading);
        assert(cover_view(self.reading_cover) == self@.reading_cover);
        build(&self.reading_cover, body, self.show_images, theme, width, sizes)
    }

    /// Bring the focused link into view where that was asked for, and do not scroll past
    /// the end of a document of `total` rows.
    pub fn settle_scroll(&mut self, total: u16, height: u16)
        ensures
            final(self)@ == old(self)@.scrolled_to(old(self)@.settled_scroll(total, height)),
            old(self)@.wf() ==> final(self)@.wf(),
    {
        proof {
            reveal(SpecApp::scrolled_to);
        }
        let row = self.scroll_target(total, height);
        self.scroll = row;
        self.scroll_to_focused = false;
    }

    fn scroll_target(&self, total: u16, height: u16) -> (r: u16)
        ensures
            r == self@.settled_scroll(total, height),
    {
        let mut wanted: u16 = self.scroll;
        if self.scroll_to_focused {
            if let Some(link) = self.focused_link {
                wanted = bring_into_view(self.scroll, link_row(&self.link_rects, link), height);
            }
        }
        let last = total.saturating_sub(height);
        if wanted < last {
            wanted
        } else {
            last
        }
    }
}

/// Scrolling, moving in the lists and whatever else leaves the document, its images, the
/// theme and the focused link alone leaves a kept layout good.
pub proof fn law_scrolling_keeps_the_layout(
    app: SpecApp,
    row: u16,
    theme: Theme,
    width: u16,
    height: u16,
)
    ensures
        app.scrolled_to(row).reader_key(theme, width, height) == app.reader_key(
            theme,
            width,
            height,
        ),
        app.scrolled_to(row).reader_stale == app.reader_stale,
{
    reveal(SpecApp::scrolled_to);
}

/// A link that was asked for is in view, unless the document ends before.
pub proof fn law_focused_link_is_shown(app: SpecApp, total: u16, height: u16, row: u16)
    requires
        app.scroll_to_focused,
        app.focused_link is Some,
        first_row(app.link_rects, 0, app.focused_link->0) == Some(row),
        row < total,
        height > 0,
    ensures
        ({
            let scroll = app.settled_scroll(total, height);
            scroll <= row < scroll + height
        }),
{
}

// --- What is visible --------------------------------------------------------------

/// The visible part of a segment.
#[derive(Clone, Copy, PartialEq, Eq, Structural, Debug)]
pub struct Visible {
    /// Where it is drawn.
    pub rect: Rect,
    /// How many of its rows lie above the pane.
    pub skip: u16,
}

/// The rows of a segment from `top` that a pane shows when it is scrolled to `scroll`:
/// the first, and the one behind the last.
pub open spec fn rows_shown(top: u16, height: u16, scroll: u16, pane: Rect) -> (int, int) {
    (
        if top < scroll {
            scroll as int
        } else {
            top as int
        },
        if top + height < scroll + pane.height {
            top + height
        } else {
            scroll + pane.height
        },
    )
}

/// The visible part of a segment of `height` rows from `top`; `None` where no row of it is
/// in the pane.
pub fn visible(top: u16, height: u16, scroll: u16, pane: Rect) -> (r: Option<Visible>)
    ensures
        ({
            let (first, behind) = rows_shown(top, height, scroll, pane);
            match r {
                Some(v) => {
                    &&& first < behind
                    &&& v.rect.x == pane.x
                    &&& v.rect.y == near16(pane.y + (first - scroll))
                    &&& v.rect.width == pane.width
                    &&& v.rect.height == behind - first
                    &&& v.skip == first - top
                },
                None => behind <= first,
            }
        }),
{
    let first: u16 = if top < scroll {
        scroll
    } else {
        top
    };
    let own: u32 = top as u32 + height as u32;
    let end: u32 = scroll as u32 + pane.height as u32;
    let behind: u32 = if own < end {
        own
    } else {
        end
    };
    if behind <= first as u32 {
        return None;
    }
    Some(
        Visible {
            rect: Rect {
                x: pane.x,
                y: pane.y.saturating_add(first - scroll),
                width: pane.width,
                height: (behind - first as u32) as u16,
            },
            skip: first - top,
        },
    )
}

/// What is drawn of a segment lies inside the pane, and shows rows of the segment.
pub proof fn law_visible_rows_are_inside(top: u16, height: u16, scroll: u16, pane: Rect)
    requires
        rows_shown(top, height, scroll, pane).0 < rows_shown(top, height, scroll, pane).1,
    ensures
        ({
            let (first, behind) = rows_shown(top, height, scroll, pane);
            &&& 0 <= first - scroll
            &&& behind - scroll <= pane.height
            &&& top <= first
            &&& behind <= top + height
        }),
{
}

/// A number as near to another as sixteen bits with a sign reach.
pub open spec fn near_i16(n: int) -> int {
    if n < -32768 {
        -32768
    } else if n > 32767 {
        32767
    } else {
        n
    }
}

/// Where an image is drawn: its column in the pane and its row, which lies above the pane
/// where the image is cut at its top. Beside a quote's bar or a list's indent it stands on
/// the left, else in the middle.
pub fn image_offset(indent: u16, cols: u16, pane_width: u16, top: u16, scroll: u16) -> (r: (
    i16,
    i16,
))
    requires
        indent <= i16::MAX,
    ensures
        r.0 == (if indent > 0 {
            indent as int
        } else if pane_width < cols {
            0
        } else {
            (pane_width - cols) / 2
        }),
        r.1 == near_i16(top - scroll),
{
    let x: i16 = if indent > 0 {
        indent as i16
    } else {
        (pane_width.saturating_sub(cols) / 2) as i16
    };
    (x, row_offset(top as i32 - scroll as i32))
}

/// The row of a grid's cell in the pane.
pub fn cell_row(top: u16, dy: u16, scroll: u16) -> (r: i16)
    ensures
        r == near_i16(top + dy - scroll),
{
    row_offset(top as i32 + dy as i32 - scroll as i32)
}

fn row_offset(n: i32) -> (r: i16)
    ensures
        r == near_i16(n as int),
{
    if n < -32768 {
        -32768
    } else if n > 32767 {
        32767
    } else {
        n as i16
    }
}

} // verus!
