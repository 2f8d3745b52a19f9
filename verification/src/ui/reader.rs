//! The reader's body as segments stacked one below the other: runs of text, images,
//! grids of images and callouts, each placed at a row of the document.
//!
//! How much room an image takes depends on the terminal's font, so the layout is made in
//! two steps: [`wanted_images`] lists the images with the width each may take, and
//! [`build`] places everything once their sizes are known.
use vstd::prelude::*;

use super::doc::{
    badge_lines, badged, blocks_to_text, inline_rows, line_in, lines_view, range_to_text,
    text_rows, Line, SpecLine,
};
use super::grid::{
    cell_room, cells_of, columns_of, grid_cell_width, grid_cells_of, grid_from, grid_height,
    grid_layout, lemma_columns_exist, lemma_grid_keys, size_at, size_of, GridCell, SpecGridCell,
};
use super::links::{near16, row_count, scan_text_links, wrapped_rows, SpecScan, WIDEST};
use super::strip::{
    contains_image, container_has_text, has_text, holds_image, strip_container_images, stripped,
    taken,
};
use super::theme::{TextStyle, Theme};
use crate::app::content::{image_key, source_key};
use crate::app::geometry::LinkRect;
use crate::model::{
    block_view, blocks_view, images_view, lemma_blocks_view, Block, Image, ImageSource, SpecBlock,
    SpecImage, SpecImageSource,
};
use crate::text::{owned, repeat_char, repeated};

verus! {

// --- Segments ---------------------------------------------------------------------

/// One piece of the laid-out document.
#[derive(PartialEq, Eq, Debug)]
pub enum Segment {
    Text { text: Vec<Line>, top: u16, height: u16 },
    Image {
        key: String,
        alt: String,
        top: u16,
        height: u16,
        width: u16,
        /// Columns kept free on the left for a quote's bar or a list's indent.
        indent: u16,
        /// A quote's bar is drawn in them.
        bar: bool,
    },
    /// A tinted box of text.
    Callout { text: Vec<Line>, tint: Option<(u8, u8, u8)>, top: u16, height: u16 },
    /// Images in columns.
    Grid { cells: Vec<GridCell>, top: u16, height: u16 },
}

/// [`Segment`] over sequences.
pub enum SpecSegment {
    Text { text: Seq<SpecLine>, top: u16, height: u16 },
    Image {
        key: Seq<char>,
        alt: Seq<char>,
        top: u16,
        height: u16,
        width: u16,
        indent: u16,
        bar: bool,
    },
    Callout { text: Seq<SpecLine>, tint: Option<(u8, u8, u8)>, top: u16, height: u16 },
    Grid { cells: Seq<SpecGridCell>, top: u16, height: u16 },
}

impl View for Segment {
    type V = SpecSegment;

    open spec fn view(&self) -> SpecSegment {
        match *self {
            Segment::Text { text, top, height } => SpecSegment::Text {
                text: lines_view(text@),
                top,
                height,
            },
            Segment::Image { key, alt, top, height, width, indent, bar } => SpecSegment::Image {
                key: key@,
                alt: alt@,
                top,
                height,
                width,
                indent,
                bar,
            },
            Segment::Callout { text, tint, top, height } => SpecSegment::Callout {
                text: lines_view(text@),
                tint,
                top,
                height,
            },
            Segment::Grid { cells, top, height } => SpecSegment::Grid {
                cells: cells_of(cells@),
                top,
                height,
            },
        }
    }
}

impl SpecSegment {
    /// The row of its top.
    pub open spec fn spec_top(self) -> u16 {
        match self {
            SpecSegment::Text { text: _, top, height: _ } => top,
            SpecSegment::Image { key: _, alt: _, top, height: _, width: _, indent: _, bar: _ }
                => top,
            SpecSegment::Callout { text: _, tint: _, top, height: _ } => top,
            SpecSegment::Grid { cells: _, top, height: _ } => top,
        }
    }

    /// How many rows it takes.
    pub open spec fn spec_height(self) -> u16 {
        match self {
            SpecSegment::Text { text: _, top: _, height } => height,
            SpecSegment::Image { key: _, alt: _, top: _, height, width: _, indent: _, bar: _ }
                => height,
            SpecSegment::Callout { text: _, tint: _, top: _, height } => height,
            SpecSegment::Grid { cells: _, top: _, height } => height,
        }
    }

    /// The keys of its images, in order.
    pub open spec fn keys(self) -> Seq<Seq<char>> {
        match self {
            SpecSegment::Image { key, alt: _, top: _, height: _, width: _, indent: _, bar: _ }
                => seq![key],
            SpecSegment::Grid { cells, top: _, height: _ } => cells.map_values(
                |c: SpecGridCell| c.key,
            ),
            _ => Seq::empty(),
        }
    }
}

impl Segment {
    /// The row of its top.
    pub fn top(&self) -> (r: u16)
        ensures
            r == self@.spec_top(),
    {
        match self {
            Segment::Text { text: _, top, height: _ } => *top,
            Segment::Image { key: _, alt: _, top, height: _, width: _, indent: _, bar: _ } => *top,
            Segment::Callout { text: _, tint: _, top, height: _ } => *top,
            Segment::Grid { cells: _, top, height: _ } => *top,
        }
    }

    /// How many rows it takes.
    pub fn height(&self) -> (r: u16)
        ensures
            r == self@.spec_height(),
    {
        match self {
            Segment::Text { text: _, top: _, height } => *height,
            Segment::Image { key: _, alt: _, top: _, height, width: _, indent: _, bar: _ }
                => *height,
            Segment::Callout { text: _, tint: _, top: _, height } => *height,
            Segment::Grid { cells: _, top: _, height } => *height,
        }
    }
}

/// Segments by their views.
pub open spec fn segments_view(s: Seq<Segment>) -> Seq<SpecSegment> {
    s.map_values(|x: Segment| x@)
}

/// Appending a segment appends its view.
pub broadcast proof fn lemma_segments_push(s: Seq<Segment>, x: Segment)
    ensures
        #[trigger] segments_view(s.push(x)) == segments_view(s).push(x@),
{
    assert(segments_view(s.push(x)) =~= segments_view(s).push(x@));
}

// --- The flow of the document -----------------------------------------------------

/// What determines how a document is laid out.
pub struct Page {
    pub theme: Theme,
    pub width: u16,
    pub show_images: bool,
    pub sizes: Seq<(u16, u16)>,
}

/// A document laid out so far: the segments, the row below them, and how many images
/// they hold.
pub struct Flow {
    pub segs: Seq<SpecSegment>,
    pub y: u16,
    pub images: int,
}

/// Rows that lines of text take.
pub open spec fn text_height(lines: Seq<SpecLine>, width: u16) -> u16 {
    wrapped_rows(lines, width) as u16
}

/// Rows that a callout's text takes: it is inset by a bar and a blank column on each side
/// of the text, and has one row at least.
pub open spec fn callout_height(lines: Seq<SpecLine>, width: u16) -> u16 {
    let inner = if width < 5 {
        1
    } else {
        (width - 4) as u16
    };
    let rows = text_height(lines, inner);
    if rows < 1 {
        1
    } else {
        rows
    }
}

impl Flow {
    /// Nothing is laid out.
    pub open spec fn blank() -> Flow {
        Flow { segs: Seq::empty(), y: 0, images: 0 }
    }

    /// The row of the next segment: one below the last, after a blank one.
    pub open spec fn next_top(self) -> u16 {
        if self.segs.len() == 0 {
            self.y
        } else {
            near16(self.y + 1)
        }
    }

    /// A run of text of a height more.
    pub open spec fn with_text(self, text: Seq<SpecLine>, height: u16) -> Flow {
        let top = self.next_top();
        Flow {
            segs: self.segs.push(SpecSegment::Text { text, top, height }),
            y: near16(top + height),
            images: self.images,
        }
    }

    /// A callout more.
    pub open spec fn with_callout(
        self,
        text: Seq<SpecLine>,
        tint: Option<(u8, u8, u8)>,
        height: u16,
    ) -> Flow {
        let top = self.next_top();
        Flow {
            segs: self.segs.push(SpecSegment::Callout { text, tint, top, height }),
            y: near16(top + height),
            images: self.images,
        }
    }

    /// An image more. Inside a quote or a list it follows without a blank row.
    pub open spec fn with_image(
        self,
        source: SpecImageSource,
        alt: Seq<char>,
        indent: u16,
        bar: bool,
        gap: bool,
        sizes: Seq<(u16, u16)>,
    ) -> Flow {
        let top = if gap {
            self.next_top()
        } else {
            self.y
        };
        let (width, height) = size_at(sizes, self.images);
        Flow {
            segs: self.segs.push(
                SpecSegment::Image {
                    key: source_key(source),
                    alt,
                    top,
                    height,
                    width,
                    indent,
                    bar,
                },
            ),
            y: near16(top + height),
            images: self.images + 1,
        }
    }

    /// The images of a quote or a list more.
    pub open spec fn with_framed(
        self,
        images: Seq<SpecImage>,
        bar: bool,
        sizes: Seq<(u16, u16)>,
    ) -> Flow
        decreases images.len(),
    {
        if images.len() == 0 {
            self
        } else {
            self.with_framed(images.drop_last(), bar, sizes).with_image(
                images.last().source,
                images.last().alt,
                2,
                bar,
                false,
                sizes,
            )
        }
    }

    /// A grid of images more; one without images is not shown.
    pub open spec fn with_grid(self, images: Seq<SpecImage>, p: Page) -> Flow {
        if images.len() == 0 {
            self
        } else {
            let top = self.next_top();
            let height = grid_height(images, p.sizes, self.images, p.width);
            Flow {
                segs: self.segs.push(
                    SpecSegment::Grid {
                        cells: grid_cells_of(images, p.sizes, self.images, p.width),
                        top,
                        height,
                    },
                ),
                y: near16(top + height),
                images: self.images + images.len(),
            }
        }
    }

    /// A run of blocks that flow as text more.
    pub open spec fn with_run(self, run: Seq<SpecBlock>, p: Page) -> Flow {
        if run.len() == 0 {
            self
        } else {
            let text = text_rows(run, p.theme);
            self.with_text(text, text_height(text, p.width))
        }
    }

    /// A quote or a list with images more: its text without them, where there is some, and
    /// then the images.
    pub open spec fn with_container(self, b: SpecBlock, p: Page) -> Flow {
        let rest = stripped(b);
        let flow = if has_text(rest) {
            self.with_run(seq![rest], p)
        } else {
            self
        };
        flow.with_framed(taken(b), b is Quote, p.sizes)
    }

    /// A block that is a segment of its own more.
    pub open spec fn with_own(self, b: SpecBlock, p: Page) -> Flow {
        match b {
            SpecBlock::Image(img) => self.with_image(img.source, img.alt, 0, false, true, p.sizes),
            SpecBlock::ImageGrid(images) => self.with_grid(images, p),
            SpecBlock::Callout { emoji, tint, content } => {
                let text = badged(
                    inline_rows(content, p.theme.spec_body(), p.theme),
                    emoji,
                    p.theme,
                );
                self.with_callout(text, tint, callout_height(text, p.width))
            },
            SpecBlock::Rule => self.with_text(
                seq![
                    line_in(
                        repeated('─', p.width as nat),
                        TextStyle::in_color(p.theme.border),
                    ),
                ],
                1,
            ),
            _ => self.with_container(b, p),
        }
    }
}

/// A block is a segment of its own: it does not flow with the text around it.
pub open spec fn stands_alone(b: SpecBlock, show_images: bool) -> bool {
    match b {
        SpecBlock::Image(_) => show_images,
        SpecBlock::ImageGrid(_) => show_images,
        SpecBlock::Quote(_) => show_images && holds_image(b),
        SpecBlock::List { ordered: _, items: _ } => show_images && holds_image(b),
        SpecBlock::Callout { emoji: _, tint: _, content: _ } => true,
        SpecBlock::Rule => true,
        _ => false,
    }
}

/// The first `k` blocks laid out, but for the run of text that they end with; and where
/// this run begins.
pub open spec fn flow_upto(start: Flow, blocks: Seq<SpecBlock>, k: int, p: Page) -> (Flow, int)
    decreases k,
{
    if k <= 0 || k > blocks.len() {
        (start, 0)
    } else {
        let (flow, from) = flow_upto(start, blocks, k - 1, p);
        let b = blocks[k - 1];
        if stands_alone(b, p.show_images) {
            (flow.with_run(blocks.subrange(from, k - 1), p).with_own(b, p), k)
        } else {
            (flow, from)
        }
    }
}

/// A document laid out: its cover first, where images are shown, and then its blocks.
pub open spec fn flow_of(
    cover: Option<SpecImageSource>,
    body: Option<Seq<SpecBlock>>,
    p: Page,
) -> Flow {
    let start = match cover {
        Some(src) => if p.show_images {
            Flow::blank().with_image(src, "cover"@, 0, false, true, p.sizes)
        } else {
            Flow::blank()
        },
        None => Flow::blank(),
    };
    match body {
        Some(blocks) => {
            let (flow, from) = flow_upto(start, blocks, blocks.len() as int, p);
            flow.with_run(blocks.subrange(from, blocks.len() as int), p)
        },
        None => start,
    }
}

// --- The images of a document -----------------------------------------------------

/// An image that a document shows, and the width that it may take.
#[derive(PartialEq, Eq, Debug)]
pub struct Want {
    pub key: String,
    pub room: u16,
}

/// [`Want`] over sequences.
pub struct SpecWant {
    pub key: Seq<char>,
    pub room: u16,
}

impl View for Want {
    type V = SpecWant;

    open spec fn view(&self) -> SpecWant {
        SpecWant { key: self.key@, room: self.room }
    }
}

/// Wants by their views.
pub open spec fn wants_view(s: Seq<Want>) -> Seq<SpecWant> {
    s.map_values(|w: Want| w@)
}

/// Images that may all take the same width.
pub open spec fn wants_for(images: Seq<SpecImage>, room: u16) -> Seq<SpecWant> {
    images.map_values(|i: SpecImage| SpecWant { key: source_key(i.source), room })
}

/// The width left beside a quote's bar or a list's indent.
pub open spec fn framed_room(width: u16) -> u16 {
    if width < 2 {
        0
    } else {
        (width - 2) as u16
    }
}

/// The images that a block shows in segments of their own.
pub open spec fn block_wants(b: SpecBlock, show_images: bool, width: u16) -> Seq<SpecWant> {
    if !stands_alone(b, show_images) {
        Seq::empty()
    } else {
        match b {
            SpecBlock::Image(img) => wants_for(seq![img], width),
            SpecBlock::ImageGrid(images) => wants_for(images, cell_room(images.len(), width)),
            SpecBlock::Quote(_) => wants_for(taken(b), framed_room(width)),
            SpecBlock::List { ordered: _, items: _ } => wants_for(taken(b), framed_room(width)),
            _ => Seq::empty(),
        }
    }
}

/// The images that blocks show in segments of their own, in order.
pub open spec fn blocks_wants(s: Seq<SpecBlock>, show_images: bool, width: u16) -> Seq<SpecWant>
    decreases s.len(),
{
    if s.len() == 0 {
        Seq::empty()
    } else {
        blocks_wants(s.drop_last(), show_images, width) + block_wants(
            s.last(),
            show_images,
            width,
        )
    }
}

/// The image that a cover is.
pub open spec fn cover_wants(
    cover: Option<SpecImageSource>,
    show_images: bool,
    width: u16,
) -> Seq<SpecWant> {
    match cover {
        Some(src) => if show_images {
            seq![SpecWant { key: source_key(src), room: width }]
        } else {
            Seq::empty()
        },
        None => Seq::empty(),
    }
}

/// The images of a document, in order.
pub open spec fn wants_of(
    cover: Option<SpecImageSource>,
    body: Option<Seq<SpecBlock>>,
    show_images: bool,
    width: u16,
) -> Seq<SpecWant> {
    cover_wants(cover, show_images, width) + (match body {
        Some(blocks) => blocks_wants(blocks, show_images, width),
        None => Seq::empty(),
    })
}

fn push_wants(images: &Vec<Image>, room: u16, out: &mut Vec<Want>)
    ensures
        wants_view(final(out)@) == wants_view(old(out)@) + wants_for(images_view(images@), room),
{
    let ghost all = wants_for(images_view(images@), room);
    let ghost start = wants_view(out@);
    let mut i: usize = 0;
    assert(start + all.take(0) =~= start);
    while i < images.len()
        invariant
            i <= images@.len(),
            all == wants_for(images_view(images@), room),
            wants_view(out@) == start + all.take(i as int),
        decreases images@.len() - i,
    {
        let want = Want { key: image_key(&images[i].source), room };
        assert(images_view(images@)[i as int] == images@[i as int]@);
        assert(want@ == all[i as int]);
        let ghost before = wants_view(out@);
        out.push(want);
        assert(wants_view(out@) =~= before.push(want@));
        assert(all.take(i + 1) =~= all.take(i as int).push(all[i as int]));
        assert(wants_view(out@) =~= start + all.take(i + 1));
        i = i + 1;
    }
    assert(all.take(all.len() as int) =~= all);
}

fn push_block_wants(block: &Block, show_images: bool, width: u16, out: &mut Vec<Want>)
    ensures
        wants_view(final(out)@) == wants_view(old(out)@) + block_wants(
            block_view(*block),
            show_images,
            width,
        ),
{
    let ghost start = wants_view(out@);
    if !is_alone(block, show_images) {
        assert(start + Seq::<SpecWant>::empty() =~= start);
        return ;
    }
    match block {
        Block::Image(img) => {
            let mut one: Vec<Image> = Vec::new();
            one.push(img.clone());
            assert(images_view(one@) =~= seq![img@]);
            push_wants(&one, width, out);
        },
        Block::ImageGrid(images) => {
            let room = grid_cell_width(images.len(), width);
            assert(images_view(images@).len() == images@.len());
            push_wants(images, room, out);
        },
        Block::Quote(_) => {
            let (_, images) = strip_container_images(block);
            push_wants(&images, width.saturating_sub(2), out);
        },
        Block::List { ordered: _, items: _ } => {
            let (_, images) = strip_container_images(block);
            push_wants(&images, width.saturating_sub(2), out);
        },
        _ => {
            assert(start + Seq::<SpecWant>::empty() =~= start);
        },
    }
}

fn is_alone(block: &Block, show_images: bool) -> (r: bool)
    ensures
        r == stands_alone(block_view(*block), show_images),
{
    match block {
        Block::Image(_) => show_images,
        Block::ImageGrid(_) => show_images,
        Block::Quote(_) => show_images && contains_image(block),
        Block::List { ordered: _, items: _ } => show_images && contains_image(block),
        Block::Callout { emoji: _, tint: _, content: _ } => true,
        Block::Rule => true,
        _ => false,
    }
}

/// A cover by its view.
pub open spec fn cover_view(cover: Option<ImageSource>) -> Option<SpecImageSource> {
    match cover {
        Some(src) => Some(src@),
        None => None,
    }
}

/// A body by its view.
pub open spec fn body_view(body: Option<&Vec<Block>>) -> Option<Seq<SpecBlock>> {
    match body {
        Some(blocks) => Some(blocks_view(blocks@)),
        None => None,
    }
}

/// The images of a document, in order, each with the width that it may take.
pub fn wanted_images(
    cover: &Option<ImageSource>,
    body: Option<&Vec<Block>>,
    show_images: bool,
    width: u16,
) -> (r: Vec<Want>)
    ensures
        wants_view(r@) == wants_of(cover_view(*cover), body_view(body), show_images, width),
{
    let mut out: Vec<Want> = Vec::new();
    assert(wants_view(out@) =~= Seq::empty());
    if let Some(src) = cover {
        if show_images {
            out.push(Want { key: image_key(src), room: width });
        }
    }
    let ghost start = wants_view(out@);
    assert(start =~= cover_wants(cover_view(*cover), show_images, width));
    if let Some(blocks) = body {
        let ghost all = blocks_view(blocks@);
        let mut i: usize = 0;
        assert(all.take(0) =~= Seq::empty());
        assert(start + Seq::<SpecWant>::empty() =~= start);
        while i < blocks.len()
            invariant
                i <= blocks@.len(),
                all == blocks_view(blocks@),
                wants_view(out@) == start + blocks_wants(all.take(i as int), show_images, width),
            decreases blocks@.len() - i,
        {
            broadcast use lemma_blocks_view;

            push_block_wants(&blocks[i], show_images, width, &mut out);
            assert(all.take(i + 1).drop_last() =~= all.take(i as int));
            assert(wants_view(out@) =~= start + blocks_wants(
                all.take(i + 1),
                show_images,
                width,
            ));
            i = i + 1;
        }
        proof {
            broadcast use lemma_blocks_view;

            assert(all.take(all.len() as int) =~= all);
        }
    } else {
        assert(start + Seq::<SpecWant>::empty() =~= start);
    }
    out
}

// --- Every wanted image is placed -------------------------------------------------

/// The keys of segments' images, in order.
pub open spec fn keys_of(s: Seq<SpecSegment>) -> Seq<Seq<char>>
    decreases s.len(),
{
    if s.len() == 0 {
        Seq::empty()
    } else {
        keys_of(s.drop_last()) + s.last().keys()
    }
}

/// The keys of wants.
pub open spec fn want_keys(s: Seq<SpecWant>) -> Seq<Seq<char>> {
    s.map_values(|w: SpecWant| w.key)
}

proof fn lemma_keys_push(s: Seq<SpecSegment>, x: SpecSegment)
    ensures
        keys_of(s.push(x)) == keys_of(s) + x.keys(),
{
    assert(s.push(x).drop_last() =~= s);
}

/// `after` holds the images of `before` and some more.
pub open spec fn adds_images(before: Flow, after: Flow, more: Seq<SpecWant>) -> bool {
    &&& after.images == before.images + more.len()
    &&& keys_of(after.segs) == keys_of(before.segs) + want_keys(more)
}

proof fn lemma_framed(flow: Flow, images: Seq<SpecImage>, bar: bool, sizes: Seq<(u16, u16)>, room: u16)
    ensures
        adds_images(flow, flow.with_framed(images, bar, sizes), wants_for(images, room)),
    decreases images.len(),
{
    let all = wants_for(images, room);
    if images.len() == 0 {
        assert(keys_of(flow.segs) + want_keys(all) =~= keys_of(flow.segs));
    } else {
        lemma_framed(flow, images.drop_last(), bar, sizes, room);
        let before = flow.with_framed(images.drop_last(), bar, sizes);
        let after = flow.with_framed(images, bar, sizes);
        assert(after.segs == before.segs.push(after.segs.last()));
        lemma_keys_push(before.segs, after.segs.last());
        assert(keys_of(after.segs) =~= keys_of(flow.segs) + want_keys(all));
    }
}

proof fn lemma_run(flow: Flow, run: Seq<SpecBlock>, p: Page)
    ensures
        adds_images(flow, flow.with_run(run, p), Seq::empty()),
{
    let none = want_keys(Seq::<SpecWant>::empty());
    assert(keys_of(flow.segs) + none =~= keys_of(flow.segs));
    if run.len() > 0 {
        let after = flow.with_run(run, p);
        lemma_keys_push(flow.segs, after.segs.last());
        assert(after.segs == flow.segs.push(after.segs.last()));
        assert(keys_of(after.segs) =~= keys_of(flow.segs) + none);
    }
}

proof fn lemma_own(flow: Flow, b: SpecBlock, p: Page)
    requires
        stands_alone(b, p.show_images),
    ensures
        adds_images(flow, flow.with_own(b, p), block_wants(b, p.show_images, p.width)),
{
    let after = flow.with_own(b, p);
    let more = block_wants(b, p.show_images, p.width);
    let none = Seq::<Seq<char>>::empty();
    match b {
        SpecBlock::Image(img) => {
            lemma_keys_push(flow.segs, after.segs.last());
            assert(after.segs == flow.segs.push(after.segs.last()));
            assert(want_keys(more) =~= seq![source_key(img.source)]);
        },
        SpecBlock::ImageGrid(images) => {
            if images.len() == 0 {
                assert(keys_of(flow.segs) + want_keys(more) =~= keys_of(flow.segs));
            } else {
                lemma_keys_push(flow.segs, after.segs.last());
                assert(after.segs == flow.segs.push(after.segs.last()));
                lemma_columns_exist(images.len(), p.width);
                lemma_grid_keys(
                    images,
                    p.sizes,
                    flow.images,
                    columns_of(images.len(), p.width),
                    0,
                    0,
                    p.width,
                );
                assert(after.segs.last().keys() =~= want_keys(more));
            }
        },
        SpecBlock::Callout { emoji: _, tint: _, content: _ } => {
            lemma_keys_push(flow.segs, after.segs.last());
            assert(after.segs == flow.segs.push(after.segs.last()));
            assert(keys_of(flow.segs) + none =~= keys_of(flow.segs));
            assert(want_keys(more) =~= none);
        },
        SpecBlock::Rule => {
            lemma_keys_push(flow.segs, after.segs.last());
            assert(after.segs == flow.segs.push(after.segs.last()));
            assert(keys_of(flow.segs) + none =~= keys_of(flow.segs));
            assert(want_keys(more) =~= none);
        },
        _ => {
            let rest = stripped(b);
            let mid = if has_text(rest) {
                flow.with_run(seq![rest], p)
            } else {
                flow
            };
            lemma_run(flow, seq![rest], p);
            assert(want_keys(Seq::<SpecWant>::empty()) =~= none);
            assert(keys_of(flow.segs) + none =~= keys_of(flow.segs));
            lemma_framed(mid, taken(b), b is Quote, p.sizes, framed_room(p.width));
        },
    }
}

proof fn lemma_flow_images(start: Flow, blocks: Seq<SpecBlock>, k: int, p: Page)
    requires
        0 <= k <= blocks.len(),
    ensures
        adds_images(
            start,
            flow_upto(start, blocks, k, p).0,
            blocks_wants(blocks.take(k), p.show_images, p.width),
        ),
        0 <= flow_upto(start, blocks, k, p).1 <= k,
    decreases k,
{
    let all = blocks_wants(blocks.take(k), p.show_images, p.width);
    if k == 0 {
        assert(keys_of(start.segs) + want_keys(all) =~= keys_of(start.segs));
    } else {
        lemma_flow_images(start, blocks, k - 1, p);
        let (flow, from) = flow_upto(start, blocks, k - 1, p);
        let b = blocks[k - 1];
        assert(blocks.take(k).drop_last() =~= blocks.take(k - 1));
        let before = blocks_wants(blocks.take(k - 1), p.show_images, p.width);
        let own = block_wants(b, p.show_images, p.width);
        assert(want_keys(before + own) =~= want_keys(before) + want_keys(own));
        if stands_alone(b, p.show_images) {
            let run = blocks.subrange(from, k - 1);
            lemma_run(flow, run, p);
            lemma_own(flow.with_run(run, p), b, p);
            assert(keys_of(flow_upto(start, blocks, k, p).0.segs) =~= keys_of(start.segs)
                + want_keys(all));
        } else {
            assert(own.len() == 0);
            assert(before + own =~= before);
        }
    }
}

/// Every image of a document is placed, once and in order.
pub proof fn law_every_wanted_image_is_placed(
    cover: Option<SpecImageSource>,
    body: Option<Seq<SpecBlock>>,
    p: Page,
)
    ensures
        keys_of(flow_of(cover, body, p).segs) == want_keys(
            wants_of(cover, body, p.show_images, p.width),
        ),
        flow_of(cover, body, p).images == wants_of(cover, body, p.show_images, p.width).len(),
{
    let first = cover_wants(cover, p.show_images, p.width);
    let start = flow_of(cover, None, p);
    assert(adds_images(Flow::blank(), start, first)) by {
        assert(want_keys(Seq::<SpecWant>::empty()) =~= Seq::empty());
        if first.len() > 0 {
            lemma_keys_push(Seq::empty(), start.segs.last());
            assert(start.segs =~= Seq::<SpecSegment>::empty().push(start.segs.last()));
            assert(want_keys(first) =~= seq![first[0].key]);
            assert(Seq::<Seq<char>>::empty() + want_keys(first) =~= want_keys(first));
        }
    }
    assert(Seq::<Seq<char>>::empty() + want_keys(first) =~= want_keys(first));
    match body {
        Some(blocks) => {
            let n = blocks.len() as int;
            lemma_flow_images(start, blocks, n, p);
            let (flow, from) = flow_upto(start, blocks, n, p);
            lemma_run(flow, blocks.subrange(from, n), p);
            assert(blocks.take(n) =~= blocks);
            let rest = blocks_wants(blocks, p.show_images, p.width);
            assert(want_keys(first + rest) =~= want_keys(first) + want_keys(rest));
            assert(want_keys(Seq::<SpecWant>::empty()) =~= Seq::empty());
            assert(keys_of(flow_of(cover, body, p).segs) =~= want_keys(first) + want_keys(rest));
        },
        None => {
            assert(first + Seq::<SpecWant>::empty() =~= first);
        },
    }
}

// --- Laying a document out --------------------------------------------------------

/// A document being laid out.
struct Stack {
    segs: Vec<Segment>,
    y: u16,
    images: usize,
}

impl Stack {
    spec fn flow(self) -> Flow {
        Flow { segs: segments_view(self.segs@), y: self.y, images: self.images as int }
    }

    fn next_top(&self) -> (r: u16)
        ensures
            r == self.flow().next_top(),
    {
        if self.segs.len() == 0 {
            self.y
        } else {
            self.y.saturating_add(1)
        }
    }

    fn push_text(&mut self, text: Vec<Line>, height: u16)
        ensures
            final(self).flow() == old(self).flow().with_text(lines_view(text@), height),
    {
        broadcast use lemma_segments_push;

        let top = self.next_top();
        self.segs.push(Segment::Text { text, top, height });
        self.y = top.saturating_add(height);
    }

    fn push_callout(&mut self, text: Vec<Line>, tint: Option<(u8, u8, u8)>, height: u16)
        ensures
            final(self).flow() == old(self).flow().with_callout(
                lines_view(text@),
                tint,
                height,
            ),
    {
        broadcast use lemma_segments_push;

        let top = self.next_top();
        self.segs.push(Segment::Callout { text, tint, top, height });
        self.y = top.saturating_add(height);
    }

    fn push_image(
        &mut self,
        source: &ImageSource,
        alt: &str,
        indent: u16,
        bar: bool,
        gap: bool,
        sizes: &Vec<(u16, u16)>,
    )
        requires
            old(self).images < usize::MAX,
        ensures
            final(self).flow() == old(self).flow().with_image(
                source@,
                alt@,
                indent,
                bar,
                gap,
                sizes@,
            ),
    {
        broadcast use lemma_segments_push;

        let top = if gap {
            self.next_top()
        } else {
            self.y
        };
        let (width, height) = size_of(sizes, self.images);
        self.segs.push(
            Segment::Image {
                key: image_key(source),
                alt: owned(alt),
                top,
                height,
                width,
                indent,
                bar,
            },
        );
        self.y = top.saturating_add(height);
        self.images = self.images + 1;
    }

    fn push_framed(&mut self, images: &Vec<Image>, bar: bool, sizes: &Vec<(u16, u16)>)
        requires
            old(self).images + images@.len() <= usize::MAX,
        ensures
            final(self).flow() == old(self).flow().with_framed(
                images_view(images@),
                bar,
                sizes@,
            ),
    {
        let ghost all = images_view(images@);
        let ghost start = self.flow();
        let mut i: usize = 0;
        assert(all.take(0) =~= Seq::empty());
        while i < images.len()
            invariant
                i <= images@.len(),
                all == images_view(images@),
                self.images + (images@.len() - i) <= usize::MAX,
                self.flow() == start.with_framed(all.take(i as int), bar, sizes@),
            decreases images@.len() - i,
        {
            assert(all.take(i + 1).drop_last() =~= all.take(i as int));
            assert(all.take(i + 1).last() == images@[i as int]@);
            self.push_image(&images[i].source, images[i].alt.as_str(), 2, bar, false, sizes);
            i = i + 1;
        }
        assert(all.take(all.len() as int) =~= all);
    }

    fn push_grid(&mut self, images: &Vec<Image>, sizes: &Vec<(u16, u16)>, width: u16, Ghost(p): Ghost<Page>)
        requires
            old(self).images + images@.len() <= usize::MAX,
            p.sizes == sizes@,
            p.width == width,
        ensures
            final(self).flow() == old(self).flow().with_grid(images_view(images@), p),
    {
        broadcast use lemma_segments_push;

        assert(images_view(images@).len() == images@.len());
        if images.len() == 0 {
            return ;
        }
        let top = self.next_top();
        let (cells, height) = grid_layout(images, sizes, self.images, width);
        self.segs.push(Segment::Grid { cells, top, height });
        self.y = top.saturating_add(height);
        self.images = self.images + images.len();
    }

    fn push_run(
        &mut self,
        blocks: &Vec<Block>,
        from: usize,
        to: usize,
        theme: &Theme,
        width: u16,
        Ghost(p): Ghost<Page>,
    )
        requires
            from <= to <= blocks@.len(),
            width <= WIDEST,
            p.theme == *theme,
            p.width == width,
        ensures
            final(self).flow() == old(self).flow().with_run(
                blocks_view(blocks@).subrange(from as int, to as int),
                p,
            ),
    {
        proof {
            lemma_blocks_view(blocks@);
        }
        if from == to {
            return ;
        }
        let text = range_to_text(blocks, from, to, theme);
        let height = row_count(&text, width) as u16;
        self.push_text(text, height);
    }

    fn push_own(
        &mut self,
        block: &Block,
        theme: &Theme,
        width: u16,
        sizes: &Vec<(u16, u16)>,
        Ghost(p): Ghost<Page>,
    )
        requires
            stands_alone(block_view(*block), p.show_images),
            old(self).images + block_wants(block_view(*block), p.show_images, p.width).len()
                <= usize::MAX,
            width <= WIDEST,
            p.theme == *theme,
            p.width == width,
            p.sizes == sizes@,
        ensures
            final(self).flow() == old(self).flow().with_own(block_view(*block), p),
    {
        match block {
            Block::Image(img) => {
                self.push_image(&img.source, img.alt.as_str(), 0, false, true, sizes);
            },
            Block::ImageGrid(images) => {
                assert(images_view(images@).len() == images@.len());
                self.push_grid(images, sizes, width, Ghost(p));
            },
            Block::Callout { emoji, tint, content } => {
                let text = badge_lines(content, emoji, theme);
                let inner: u16 = if width < 5 {
                    1
                } else {
                    width - 4
                };
                let rows = row_count(&text, inner) as u16;
                let height: u16 = if rows < 1 {
                    1
                } else {
                    rows
                };
                self.push_callout(text, *tint, height);
            },
            Block::Rule => {
                let dashes = repeat_char('─', width as usize);
                let mut text: Vec<Line> = Vec::new();
                let line = Line::styled(dashes.as_str(), TextStyle::fg(theme.border));
                text.push(line);
                assert(lines_view(text@) =~= seq![line@]);
                self.push_text(text, 1);
            },
            Block::Quote(_) => self.push_container(block, true, theme, width, sizes, Ghost(p)),
            _ => self.push_container(block, false, theme, width, sizes, Ghost(p)),
        }
    }

    fn push_container(
        &mut self,
        block: &Block,
        is_quote: bool,
        theme: &Theme,
        width: u16,
        sizes: &Vec<(u16, u16)>,
        Ghost(p): Ghost<Page>,
    )
        requires
            old(self).images + taken(block_view(*block)).len() <= usize::MAX,
            is_quote == (block_view(*block) is Quote),
            width <= WIDEST,
            p.theme == *theme,
            p.width == width,
            p.sizes == sizes@,
        ensures
            final(self).flow() == old(self).flow().with_container(block_view(*block), p),
    {
        let (rest, images) = strip_container_images(block);
        assert(images_view(images@).len() == images@.len());
        if container_has_text(&rest) {
            let mut one: Vec<Block> = Vec::new();
            one.push(rest);
            proof {
                lemma_blocks_view(one@);
                assert(blocks_view(one@).subrange(0, 1) =~= seq![block_view(rest)]);
            }
            self.push_run(&one, 0, 1, theme, width, Ghost(p));
        }
        self.push_framed(&images, is_quote, sizes);
    }
}

/// Lay a document out at a width: its cover, and its blocks. `sizes` holds the size in
/// cells of each of its [`wanted_images`]. Returns the segments and the row below the
/// last.
pub fn build(
    cover: &Option<ImageSource>,
    body: Option<&Vec<Block>>,
    show_images: bool,
    theme: &Theme,
    width: u16,
    sizes: &Vec<(u16, u16)>,
) -> (r: (Vec<Segment>, u16))
    requires
        width <= WIDEST,
        sizes@.len() == wants_of(cover_view(*cover), body_view(body), show_images, width).len(),
    ensures
        ({
            let flow = flow_of(
                cover_view(*cover),
                body_view(body),
                Page { theme: *theme, width, show_images, sizes: sizes@ },
            );
            segments_view(r.0@) == flow.segs && r.1 == flow.y
        }),
{
    let ghost p = Page { theme: *theme, width, show_images, sizes: sizes@ };
    let ghost c = cover_view(*cover);
    let mut stack = Stack { segs: Vec::new(), y: 0, images: 0 };
    assert(segments_view(stack.segs@) =~= Seq::empty());
    if let Some(src) = cover {
        if show_images {
            stack.push_image(src, "cover", 0, false, true, sizes);
        }
    }
    let ghost start = flow_of(c, None, p);
    assert(stack.flow() == start);
    if let Some(blocks) = body {
        let ghost all = blocks_view(blocks@);
        let ghost total = wants_of(c, Some(all), show_images, width).len();
        let mut from: usize = 0;
        let mut i: usize = 0;
        assert(all.len() == blocks@.len()) by {
            lemma_blocks_view(blocks@);
        }
        while i < blocks.len()
            invariant
                from <= i <= blocks@.len(),
                all == blocks_view(blocks@),
                all.len() == blocks@.len(),
                width <= WIDEST,
                p == (Page { theme: *theme, width, show_images, sizes: sizes@ }),
                start.images == cover_wants(c, show_images, width).len(),
                total == wants_of(c, Some(all), show_images, width).len(),
                total == sizes@.len(),
                flow_upto(start, all, i as int, p) == (stack.flow(), from as int),
            decreases blocks@.len() - i,
        {
            assert(all[i as int] == block_view(blocks@[i as int])) by {
                lemma_blocks_view(blocks@);
            }
            if is_alone(&blocks[i], show_images) {
                proof {
                    lemma_flow_images(start, all, i as int, p);
                    lemma_wants_grow(all, i + 1, show_images, width);
                    assert(all.take(i + 1).drop_last() =~= all.take(i as int));
                    lemma_run(
                        stack.flow(),
                        all.subrange(from as int, i as int),
                        p,
                    );
                }
                let ghost before = stack.flow();
                stack.push_run(blocks, from, i, theme, width, Ghost(p));
                proof {
                    let done = blocks_wants(all.take(i as int), show_images, width).len();
                    let own = block_wants(all[i as int], show_images, width).len();
                    assert(all.take(i + 1).last() == all[i as int]);
                    assert(blocks_wants(all.take(i + 1), show_images, width).len() == done + own);
                    assert(before.images == start.images + done);
                    assert(stack.flow().images == before.images);
                    assert(sizes@.len() == sizes.len());
                    assert(total == start.images + blocks_wants(all, show_images, width).len());
                }
                stack.push_own(&blocks[i], theme, width, sizes, Ghost(p));
                from = i + 1;
            }
            i = i + 1;
        }
        stack.push_run(blocks, from, i, theme, width, Ghost(p));
    }
    (stack.segs, stack.y)
}

/// More blocks want no fewer images.
proof fn lemma_wants_grow(s: Seq<SpecBlock>, k: int, show_images: bool, width: u16)
    requires
        0 <= k <= s.len(),
    ensures
        blocks_wants(s.take(k), show_images, width).len() <= blocks_wants(
            s,
            show_images,
            width,
        ).len(),
    decreases s.len() - k,
{
    if k == s.len() {
        assert(s.take(k) =~= s);
    } else {
        lemma_wants_grow(s, k + 1, show_images, width);
        assert(s.take(k + 1).drop_last() =~= s.take(k));
    }
}

// --- Segments are stacked ---------------------------------------------------------

/// Each segment begins below the one before it, and the document ends below the last.
pub open spec fn is_stacked(flow: Flow) -> bool {
    &&& forall|i: int, j: int|
        0 <= i < j < flow.segs.len() ==> (#[trigger] flow.segs[i]).spec_top()
            + flow.segs[i].spec_height() <= (#[trigger] flow.segs[j]).spec_top()
    &&& forall|i: int|
        0 <= i < flow.segs.len() ==> (#[trigger] flow.segs[i]).spec_top()
            + flow.segs[i].spec_height() <= flow.y
}

/// `after` is `before` with segments below it, or it ends at the last row there is.
spec fn builds_on(before: Flow, after: Flow) -> bool {
    &&& before.y <= after.y
    &&& after.y < u16::MAX && is_stacked(before) ==> is_stacked(after)
}

proof fn lemma_one_more(before: Flow, after: Flow)
    requires
        after.segs.len() == before.segs.len() + 1,
        after.segs.drop_last() == before.segs,
        before.y <= after.segs.last().spec_top(),
        after.y == near16(after.segs.last().spec_top() + after.segs.last().spec_height()),
    ensures
        builds_on(before, after),
{
    if after.y < u16::MAX && is_stacked(before) {
        let n = before.segs.len() as int;
        assert forall|i: int, j: int| 0 <= i < j < after.segs.len() implies (
        #[trigger] after.segs[i]).spec_top() + after.segs[i].spec_height() <= (
        #[trigger] after.segs[j]).spec_top() by {
            assert(after.segs.drop_last()[i] == after.segs[i]);
            assert(before.segs[i] == after.segs[i]);
            if j < n {
                assert(after.segs.drop_last()[j] == after.segs[j]);
                assert(before.segs[j] == after.segs[j]);
            }
        }
        assert forall|i: int| 0 <= i < after.segs.len() implies (
        #[trigger] after.segs[i]).spec_top() + after.segs[i].spec_height() <= after.y by {
            if i < n {
                assert(after.segs.drop_last()[i] == after.segs[i]);
                assert(before.segs[i] == after.segs[i]);
            }
        }
    }
}

proof fn lemma_image_builds_on(
    flow: Flow,
    source: SpecImageSource,
    alt: Seq<char>,
    indent: u16,
    bar: bool,
    gap: bool,
    sizes: Seq<(u16, u16)>,
)
    ensures
        builds_on(flow, flow.with_image(source, alt, indent, bar, gap, sizes)),
{
    let after = flow.with_image(source, alt, indent, bar, gap, sizes);
    assert(after.segs.drop_last() =~= flow.segs);
    lemma_one_more(flow, after);
}

proof fn lemma_framed_builds_on(flow: Flow, images: Seq<SpecImage>, bar: bool, sizes: Seq<(u16, u16)>)
    ensures
        builds_on(flow, flow.with_framed(images, bar, sizes)),
    decreases images.len(),
{
    if images.len() > 0 {
        lemma_framed_builds_on(flow, images.drop_last(), bar, sizes);
        lemma_image_builds_on(
            flow.with_framed(images.drop_last(), bar, sizes),
            images.last().source,
            images.last().alt,
            2,
            bar,
            false,
            sizes,
        );
    }
}

proof fn lemma_run_builds_on(flow: Flow, run: Seq<SpecBlock>, p: Page)
    ensures
        builds_on(flow, flow.with_run(run, p)),
{
    if run.len() > 0 {
        let after = flow.with_run(run, p);
        assert(after.segs.drop_last() =~= flow.segs);
        lemma_one_more(flow, after);
    }
}

proof fn lemma_own_builds_on(flow: Flow, b: SpecBlock, p: Page)
    requires
        stands_alone(b, p.show_images),
    ensures
        builds_on(flow, flow.with_own(b, p)),
{
    let after = flow.with_own(b, p);
    match b {
        SpecBlock::Image(img) => {
            lemma_image_builds_on(flow, img.source, img.alt, 0, false, true, p.sizes);
        },
        SpecBlock::ImageGrid(images) => {
            if images.len() > 0 {
                assert(after.segs.drop_last() =~= flow.segs);
                lemma_one_more(flow, after);
            }
        },
        SpecBlock::Callout { emoji: _, tint: _, content: _ } => {
            assert(after.segs.drop_last() =~= flow.segs);
            lemma_one_more(flow, after);
        },
        SpecBlock::Rule => {
            assert(after.segs.drop_last() =~= flow.segs);
            lemma_one_more(flow, after);
        },
        _ => {
            let rest = stripped(b);
            lemma_run_builds_on(flow, seq![rest], p);
            let mid = if has_text(rest) {
                flow.with_run(seq![rest], p)
            } else {
                flow
            };
            lemma_framed_builds_on(mid, taken(b), b is Quote, p.sizes);
        },
    }
}

proof fn lemma_flow_builds_on(start: Flow, blocks: Seq<SpecBlock>, k: int, p: Page)
    requires
        0 <= k <= blocks.len(),
    ensures
        builds_on(start, flow_upto(start, blocks, k, p).0),
    decreases k,
{
    if k > 0 {
        lemma_flow_builds_on(start, blocks, k - 1, p);
        let (flow, from) = flow_upto(start, blocks, k - 1, p);
        let b = blocks[k - 1];
        if stands_alone(b, p.show_images) {
            let run = blocks.subrange(from, k - 1);
            lemma_run_builds_on(flow, run, p);
            lemma_own_builds_on(flow.with_run(run, p), b, p);
        }
    }
}

/// In a document that does not fill all the rows there are, no segment overlaps another,
/// and the document covers the last.
pub proof fn law_segments_are_stacked(
    cover: Option<SpecImageSource>,
    body: Option<Seq<SpecBlock>>,
    p: Page,
)
    requires
        flow_of(cover, body, p).y < u16::MAX,
    ensures
        is_stacked(flow_of(cover, body, p)),
{
    let start = flow_of(cover, None, p);
    assert(builds_on(Flow::blank(), start)) by {
        if let Some(src) = cover {
            lemma_image_builds_on(Flow::blank(), src, "cover"@, 0, false, true, p.sizes);
        }
    }
    if let Some(blocks) = body {
        let n = blocks.len() as int;
        lemma_flow_builds_on(start, blocks, n, p);
        let (flow, from) = flow_upto(start, blocks, n, p);
        lemma_run_builds_on(flow, blocks.subrange(from, n), p);
    }
}

// --- Links of a document ----------------------------------------------------------

/// A document's segments whose links have been found so far.
pub struct Located {
    /// The segments, with the focused link standing out.
    pub segs: Seq<SpecSegment>,
    /// How many links came before.
    pub links: usize,
    pub rects: Seq<LinkRect>,
}

/// The width at which a text is wrapped when it is drawn.
pub open spec fn wrap_width(width: u16) -> u16 {
    if width == 0 {
        1
    } else {
        width
    }
}

/// The width of a callout's text when it is drawn, beside its bar and its padding.
pub open spec fn inset_width(width: u16) -> u16 {
    if width < 4 {
        1
    } else {
        (width - 3) as u16
    }
}

impl Located {
    /// Nothing was looked at.
    pub open spec fn nothing() -> Located {
        Located { segs: Seq::empty(), links: 0, rects: Seq::empty() }
    }

    /// A scan that begins at a row.
    pub open spec fn scan(self, row: u16) -> SpecScan {
        SpecScan { lines: Seq::empty(), row, links: self.links, rects: self.rects }
    }

    /// One segment more. Only text has links.
    pub open spec fn with_segment(
        self,
        seg: SpecSegment,
        focused: Option<usize>,
        t: Theme,
        width: u16,
    ) -> Located {
        match seg {
            SpecSegment::Text { text, top, height } => {
                let done = self.scan(top).with_lines(text, wrap_width(width), 0, t, focused);
                Located {
                    segs: self.segs.push(SpecSegment::Text { text: done.lines, top, height }),
                    links: done.links,
                    rects: done.rects,
                }
            },
            SpecSegment::Callout { text, tint, top, height } => {
                let done = self.scan(top).with_lines(text, inset_width(width), 2, t, focused);
                Located {
                    segs: self.segs.push(
                        SpecSegment::Callout { text: done.lines, tint, top, height },
                    ),
                    links: done.links,
                    rects: done.rects,
                }
            },
            other => Located { segs: self.segs.push(other), ..self },
        }
    }

    /// All of some segments more.
    pub open spec fn with_segments(
        self,
        segs: Seq<SpecSegment>,
        focused: Option<usize>,
        t: Theme,
        width: u16,
    ) -> Located
        decreases segs.len(),
    {
        if segs.len() == 0 {
            self
        } else {
            self.with_segments(segs.drop_last(), focused, t, width).with_segment(
                segs.last(),
                focused,
                t,
                width,
            )
        }
    }
}

fn locate_in(
    seg: &mut Segment,
    focused: Option<usize>,
    theme: &Theme,
    width: u16,
    links: &mut usize,
    rects: &mut Vec<LinkRect>,
)
    requires
        width <= WIDEST,
    ensures
        forall|segs: Seq<SpecSegment>|
            #![trigger segs.push(old(seg)@)]
            (Located { segs, links: *old(links), rects: old(rects)@ }).with_segment(
                old(seg)@,
                focused,
                *theme,
                width,
            ) == (Located {
                segs: segs.push(final(seg)@),
                links: *final(links),
                rects: final(rects)@,
            }),
{
    match seg {
        Segment::Text { text, top, height: _ } => {
            scan_text_links(text, *top, width, 0, theme, focused, links, rects);
        },
        Segment::Callout { text, tint: _, top, height: _ } => {
            let w: u16 = if width < 4 {
                1
            } else {
                width - 3
            };
            scan_text_links(text, *top, w, 2, theme, focused, links, rects);
        },
        _ => {},
    }
}

/// Find where the links of a document lie, in rows of the document, and make the focused
/// one stand out. Links are counted in reading order.
pub fn locate_and_highlight_links(
    segments: &mut Vec<Segment>,
    focused: Option<usize>,
    theme: &Theme,
    width: u16,
) -> (r: Vec<LinkRect>)
    requires
        width <= WIDEST,
    ensures
        ({
            let done = Located::nothing().with_segments(
                segments_view(old(segments)@),
                focused,
                *theme,
                width,
            );
            segments_view(final(segments)@) == done.segs && r@ == done.rects
        }),
{
    let ghost all = segments_view(segments@);
    let n: usize = segments.len();
    let mut rects: Vec<LinkRect> = Vec::new();
    let mut links: usize = 0;
    let mut i: usize = 0;
    assert(all.take(0) =~= Seq::empty());
    assert(rects@ =~= Seq::empty());
    while i < n
        invariant
            i <= n == segments@.len() == all.len(),
            width <= WIDEST,
            forall|k: int| i <= k < n ==> (#[trigger] segments@[k])@ == all[k],
            Located::nothing().with_segments(all.take(i as int), focused, *theme, width)
                == (Located {
                segs: segments_view(segments@).take(i as int),
                links,
                rects: rects@,
            }),
        decreases n - i,
    {
        let ghost before = segments_view(segments@).take(i as int);
        assert(all.take(i + 1).drop_last() =~= all.take(i as int));
        assert(all.take(i + 1).last() == segments@[i as int]@);
        locate_in(&mut segments[i], focused, theme, width, &mut links, &mut rects);
        assert(before.push(all[i as int]) == before.push(all[i as int]));
        assert(segments_view(segments@).take(i + 1) =~= before.push(segments@[i as int]@));
        i = i + 1;
    }
    assert(all.take(all.len() as int) =~= all);
    assert(segments_view(segments@).take(n as int) =~= segments_view(segments@));
    rects
}

} // verus!
