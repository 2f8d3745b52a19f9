//! The neutral document model: every publisher's content is decoded into one
//! [`RichDoc`], and every frontend renders from it.
//!
//! Each type that holds strings or lists has a mathematical counterpart named
//! `Spec…`, over `Seq<char>` and `Seq`, which contracts speak of.
use vstd::prelude::*;

use crate::text::{owned, same};

verus! {

// --- Images -----------------------------------------------------------------------

/// Where an image's bytes come from: a plain URL, or a blob in a repository.
#[derive(Debug, PartialEq)]
pub enum ImageSource {
    Url(String),
    Blob { did: String, cid: String },
}

/// [`ImageSource`] over character sequences.
pub enum SpecImageSource {
    Url(Seq<char>),
    Blob { did: Seq<char>, cid: Seq<char> },
}

impl View for ImageSource {
    type V = SpecImageSource;

    open spec fn view(&self) -> SpecImageSource {
        match *self {
            ImageSource::Url(u) => SpecImageSource::Url(u@),
            ImageSource::Blob { did, cid } => SpecImageSource::Blob { did: did@, cid: cid@ },
        }
    }
}

impl Clone for ImageSource {
    fn clone(&self) -> (r: Self)
        ensures
            r@ == self@,
    {
        match self {
            ImageSource::Url(u) => ImageSource::Url(u.clone()),
            ImageSource::Blob { did, cid } => ImageSource::Blob {
                did: did.clone(),
                cid: cid.clone(),
            },
        }
    }
}

/// An image reference and its alternative text.
#[derive(Debug, PartialEq)]
pub struct Image {
    pub alt: String,
    pub source: ImageSource,
}

/// [`Image`] over character sequences.
pub struct SpecImage {
    pub alt: Seq<char>,
    pub source: SpecImageSource,
}

impl View for Image {
    type V = SpecImage;

    open spec fn view(&self) -> SpecImage {
        SpecImage { alt: self.alt@, source: self.source@ }
    }
}

impl Clone for Image {
    fn clone(&self) -> (r: Self)
        ensures
            r@ == self@,
    {
        Image { alt: self.alt.clone(), source: self.source.clone() }
    }
}

/// A list of images by their views.
pub open spec fn images_view(s: Seq<Image>) -> Seq<SpecImage> {
    s.map_values(|i: Image| i@)
}

/// A copy of a list of images.
pub fn copy_images(v: &Vec<Image>) -> (r: Vec<Image>)
    ensures
        images_view(r@) == images_view(v@),
{
    let mut out: Vec<Image> = Vec::new();
    let mut i: usize = 0;
    while i < v.len()
        invariant
            i <= v@.len(),
            out@.len() == i,
            forall|k: int| 0 <= k < i ==> (#[trigger] out@[k])@ == v@[k]@,
        decreases v@.len() - i,
    {
        out.push(v[i].clone());
        i = i + 1;
    }
    assert(images_view(out@) =~= images_view(v@));
    out
}

/// Appending to a list of images appends to its view.
pub broadcast proof fn lemma_images_push(s: Seq<Image>, x: Image)
    ensures
        #[trigger] images_view(s.push(x)) == images_view(s).push(x@),
{
    assert(images_view(s.push(x)) =~= images_view(s).push(x@));
}

// --- Inline content ---------------------------------------------------------------

/// Span-level content.
#[derive(Debug, PartialEq)]
pub enum Inline {
    Text(String),
    Strong(Vec<Inline>),
    Emphasis(Vec<Inline>),
    Strike(Vec<Inline>),
    Underline(Vec<Inline>),
    Highlight(Vec<Inline>),
    Code(String),
    Link { href: String, content: Vec<Inline> },
    Image(Image),
    LineBreak,
}

/// [`Inline`] over sequences.
pub enum SpecInline {
    Text(Seq<char>),
    Strong(Seq<SpecInline>),
    Emphasis(Seq<SpecInline>),
    Strike(Seq<SpecInline>),
    Underline(Seq<SpecInline>),
    Highlight(Seq<SpecInline>),
    Code(Seq<char>),
    Link { href: Seq<char>, content: Seq<SpecInline> },
    Image(SpecImage),
    LineBreak,
}

/// An inline by its view.
pub open spec fn inline_view(x: Inline) -> SpecInline
    decreases x,
{
    match x {
        Inline::Text(t) => SpecInline::Text(t@),
        Inline::Strong(c) => SpecInline::Strong(inlines_view(c@)),
        Inline::Emphasis(c) => SpecInline::Emphasis(inlines_view(c@)),
        Inline::Strike(c) => SpecInline::Strike(inlines_view(c@)),
        Inline::Underline(c) => SpecInline::Underline(inlines_view(c@)),
        Inline::Highlight(c) => SpecInline::Highlight(inlines_view(c@)),
        Inline::Code(t) => SpecInline::Code(t@),
        Inline::Link { href, content } => SpecInline::Link {
            href: href@,
            content: inlines_view(content@),
        },
        Inline::Image(i) => SpecInline::Image(i@),
        Inline::LineBreak => SpecInline::LineBreak,
    }
}

/// A list of inlines by their views.
pub open spec fn inlines_view(s: Seq<Inline>) -> Seq<SpecInline>
    decreases s,
{
    if s.len() == 0 {
        Seq::empty()
    } else {
        inlines_view(s.drop_last()).push(inline_view(s.last()))
    }
}

impl View for Inline {
    type V = SpecInline;

    open spec fn view(&self) -> SpecInline {
        inline_view(*self)
    }
}

/// `inlines_view` works element by element.
pub broadcast proof fn lemma_inlines_view(s: Seq<Inline>)
    ensures
        (#[trigger] inlines_view(s)).len() == s.len(),
        forall|i: int| 0 <= i < s.len() ==> #[trigger] inlines_view(s)[i] == inline_view(s[i]),
    decreases s.len(),
{
    if s.len() > 0 {
        lemma_inlines_view(s.drop_last());
    }
}

/// Appending an inline appends its view.
pub broadcast proof fn lemma_inlines_push(s: Seq<Inline>, x: Inline)
    ensures
        #[trigger] inlines_view(s.push(x)) == inlines_view(s).push(inline_view(x)),
{
    assert(s.push(x).drop_last() =~= s);
}

/// Concatenating lists of inlines concatenates their views.
pub broadcast proof fn lemma_inlines_concat(a: Seq<Inline>, b: Seq<Inline>)
    ensures
        #[trigger] inlines_view(a + b) == inlines_view(a) + inlines_view(b),
{
    lemma_inlines_view(a);
    lemma_inlines_view(b);
    lemma_inlines_view(a + b);
    assert(inlines_view(a + b) =~= inlines_view(a) + inlines_view(b));
}

/// The view of a one-element list.
pub proof fn lemma_inlines_one(x: Inline)
    ensures
        inlines_view(seq![x]) == seq![inline_view(x)],
{
    lemma_inlines_view(seq![x]);
    assert(inlines_view(seq![x]) =~= seq![inline_view(x)]);
}

/// A list holding one inline.
pub fn one_inline(x: Inline) -> (r: Vec<Inline>)
    ensures
        inlines_view(r@) == seq![inline_view(x)],
{
    let mut v: Vec<Inline> = Vec::new();
    v.push(x);
    proof {
        lemma_inlines_one(x);
        assert(v@ =~= seq![x]);
    }
    v
}

/// A copy of an inline.
pub fn copy_inline(x: &Inline) -> (r: Inline)
    ensures
        inline_view(r) == inline_view(*x),
    decreases x,
{
    match x {
        Inline::Text(t) => Inline::Text(t.clone()),
        Inline::Strong(c) => Inline::Strong(copy_inlines(c)),
        Inline::Emphasis(c) => Inline::Emphasis(copy_inlines(c)),
        Inline::Strike(c) => Inline::Strike(copy_inlines(c)),
        Inline::Underline(c) => Inline::Underline(copy_inlines(c)),
        Inline::Highlight(c) => Inline::Highlight(copy_inlines(c)),
        Inline::Code(t) => Inline::Code(t.clone()),
        Inline::Link { href, content } => Inline::Link {
            href: href.clone(),
            content: copy_inlines(content),
        },
        Inline::Image(i) => Inline::Image(i.clone()),
        Inline::LineBreak => Inline::LineBreak,
    }
}

/// A copy of a list of inlines.
pub fn copy_inlines(v: &Vec<Inline>) -> (r: Vec<Inline>)
    ensures
        inlines_view(r@) == inlines_view(v@),
    decreases v,
{
    broadcast use {lemma_inlines_view, lemma_inlines_push};

    let mut out: Vec<Inline> = Vec::new();
    let mut i: usize = 0;
    while i < v.len()
        invariant
            i <= v@.len(),
            inlines_view(out@) == inlines_view(v@).take(i as int),
        decreases v@.len() - i,
    {
        broadcast use {lemma_inlines_view, lemma_inlines_push};

        out.push(copy_inline(&v[i]));
        assert(inlines_view(v@).take(i as int).push(inline_view(v@[i as int])) =~= inlines_view(
            v@,
        ).take(i + 1));
        i = i + 1;
    }
    assert(inlines_view(v@).take(v@.len() as int) =~= inlines_view(v@));
    out
}

// --- Block content ----------------------------------------------------------------

/// Block-level content: the common denominator of every decoded format.
#[derive(Debug, PartialEq)]
pub enum Block {
    Heading { level: u8, content: Vec<Inline> },
    Paragraph(Vec<Inline>),
    Quote(Vec<Block>),
    List { ordered: bool, items: Vec<Vec<Block>> },
    Code { lang: Option<String>, text: String },
    Image(Image),
    /// Several images shown together.
    ImageGrid(Vec<Image>),
    /// An aside with an optional emoji badge and tint colour.
    Callout { emoji: Option<String>, tint: Option<(u8, u8, u8)>, content: Vec<Inline> },
    /// A gallery that lives in a record of its own and has not been fetched.
    GalleryRef { uri: String },
    /// A header row of cells (possibly empty), and body rows.
    Table { head: Vec<Vec<Inline>>, rows: Vec<Vec<Vec<Inline>>> },
    Rule,
}

/// [`Block`] over sequences.
pub enum SpecBlock {
    Heading { level: u8, content: Seq<SpecInline> },
    Paragraph(Seq<SpecInline>),
    Quote(Seq<SpecBlock>),
    List { ordered: bool, items: Seq<Seq<SpecBlock>> },
    Code { lang: Option<Seq<char>>, text: Seq<char> },
    Image(SpecImage),
    ImageGrid(Seq<SpecImage>),
    Callout { emoji: Option<Seq<char>>, tint: Option<(u8, u8, u8)>, content: Seq<SpecInline> },
    GalleryRef { uri: Seq<char> },
    Table { head: Seq<Seq<SpecInline>>, rows: Seq<Seq<Seq<SpecInline>>> },
    Rule,
}

/// An optional string by its characters.
pub open spec fn opt_view(o: Option<String>) -> Option<Seq<char>> {
    match o {
        Some(s) => Some(s@),
        None => None,
    }
}

/// A copy of an optional string.
pub fn copy_opt(o: &Option<String>) -> (r: Option<String>)
    ensures
        opt_view(r) == opt_view(*o),
{
    match o {
        Some(s) => Some(s.clone()),
        None => None,
    }
}

/// An owned copy of an optional borrowed string.
pub fn owned_opt(o: Option<&str>) -> (r: Option<String>)
    ensures
        opt_view(r) == (match o {
            Some(s) => Some(s@),
            None => None,
        }),
{
    match o {
        Some(s) => Some(owned(s)),
        None => None,
    }
}

/// Table cells by their views.
pub open spec fn cells_view(s: Seq<Vec<Inline>>) -> Seq<Seq<SpecInline>> {
    s.map_values(|c: Vec<Inline>| inlines_view(c@))
}

/// Table rows by their views.
pub open spec fn rows_view(s: Seq<Vec<Vec<Inline>>>) -> Seq<Seq<Seq<SpecInline>>> {
    s.map_values(|r: Vec<Vec<Inline>>| cells_view(r@))
}

/// Appending a cell appends its view.
pub broadcast proof fn lemma_cells_push(s: Seq<Vec<Inline>>, x: Vec<Inline>)
    ensures
        #[trigger] cells_view(s.push(x)) == cells_view(s).push(inlines_view(x@)),
{
    assert(cells_view(s.push(x)) =~= cells_view(s).push(inlines_view(x@)));
}

/// Appending a row appends its view.
pub broadcast proof fn lemma_rows_push(s: Seq<Vec<Vec<Inline>>>, x: Vec<Vec<Inline>>)
    ensures
        #[trigger] rows_view(s.push(x)) == rows_view(s).push(cells_view(x@)),
{
    assert(rows_view(s.push(x)) =~= rows_view(s).push(cells_view(x@)));
}

/// A block by its view.
pub open spec fn block_view(x: Block) -> SpecBlock
    decreases x,
{
    match x {
        Block::Heading { level, content } => SpecBlock::Heading {
            level,
            content: inlines_view(content@),
        },
        Block::Paragraph(c) => SpecBlock::Paragraph(inlines_view(c@)),
        Block::Quote(b) => SpecBlock::Quote(blocks_view(b@)),
        Block::List { ordered, items } => SpecBlock::List { ordered, items: items_view(items@) },
        Block::Code { lang, text } => SpecBlock::Code { lang: opt_view(lang), text: text@ },
        Block::Image(i) => SpecBlock::Image(i@),
        Block::ImageGrid(g) => SpecBlock::ImageGrid(images_view(g@)),
        Block::Callout { emoji, tint, content } => SpecBlock::Callout {
            emoji: opt_view(emoji),
            tint,
            content: inlines_view(content@),
        },
        Block::GalleryRef { uri } => SpecBlock::GalleryRef { uri: uri@ },
        Block::Table { head, rows } => SpecBlock::Table {
            head: cells_view(head@),
            rows: rows_view(rows@),
        },
        Block::Rule => SpecBlock::Rule,
    }
}

/// A list of blocks by their views.
pub open spec fn blocks_view(s: Seq<Block>) -> Seq<SpecBlock>
    decreases s,
{
    if s.len() == 0 {
        Seq::empty()
    } else {
        blocks_view(s.drop_last()).push(block_view(s.last()))
    }
}

/// The items of a list block by their views.
pub open spec fn items_view(s: Seq<Vec<Block>>) -> Seq<Seq<SpecBlock>>
    decreases s,
{
    if s.len() == 0 {
        Seq::empty()
    } else {
        items_view(s.drop_last()).push(blocks_view(s.last()@))
    }
}

impl View for Block {
    type V = SpecBlock;

    open spec fn view(&self) -> SpecBlock {
        block_view(*self)
    }
}

/// `blocks_view` works element by element.
pub broadcast proof fn lemma_blocks_view(s: Seq<Block>)
    ensures
        (#[trigger] blocks_view(s)).len() == s.len(),
        forall|i: int| 0 <= i < s.len() ==> #[trigger] blocks_view(s)[i] == block_view(s[i]),
    decreases s.len(),
{
    if s.len() > 0 {
        lemma_blocks_view(s.drop_last());
    }
}

/// `items_view` works element by element.
pub broadcast proof fn lemma_items_view(s: Seq<Vec<Block>>)
    ensures
        (#[trigger] items_view(s)).len() == s.len(),
        forall|i: int| 0 <= i < s.len() ==> #[trigger] items_view(s)[i] == blocks_view(s[i]@),
    decreases s.len(),
{
    if s.len() > 0 {
        lemma_items_view(s.drop_last());
    }
}

/// Appending a block appends its view.
pub broadcast proof fn lemma_blocks_push(s: Seq<Block>, x: Block)
    ensures
        #[trigger] blocks_view(s.push(x)) == blocks_view(s).push(block_view(x)),
{
    assert(s.push(x).drop_last() =~= s);
}

/// Appending a list item appends its view.
pub broadcast proof fn lemma_items_push(s: Seq<Vec<Block>>, x: Vec<Block>)
    ensures
        #[trigger] items_view(s.push(x)) == items_view(s).push(blocks_view(x@)),
{
    assert(s.push(x).drop_last() =~= s);
}

/// Concatenating lists of blocks concatenates their views.
pub broadcast proof fn lemma_blocks_concat(a: Seq<Block>, b: Seq<Block>)
    ensures
        #[trigger] blocks_view(a + b) == blocks_view(a) + blocks_view(b),
{
    lemma_blocks_view(a);
    lemma_blocks_view(b);
    lemma_blocks_view(a + b);
    assert(blocks_view(a + b) =~= blocks_view(a) + blocks_view(b));
}

/// The views of list items appended to.
pub broadcast group group_model_push {
    lemma_images_push,
    lemma_inlines_push,
    lemma_cells_push,
    lemma_rows_push,
    lemma_blocks_push,
    lemma_items_push,
}

/// A list holding one block.
pub fn one_block(x: Block) -> (r: Vec<Block>)
    ensures
        blocks_view(r@) == seq![block_view(x)],
{
    broadcast use lemma_blocks_push;

    let mut v: Vec<Block> = Vec::new();
    v.push(x);
    assert(v@ =~= Seq::<Block>::empty().push(x));
    assert(blocks_view(v@) =~= seq![block_view(x)]);
    v
}

/// A copy of table cells.
fn copy_cells(v: &Vec<Vec<Inline>>) -> (r: Vec<Vec<Inline>>)
    ensures
        cells_view(r@) == cells_view(v@),
{
    let mut out: Vec<Vec<Inline>> = Vec::new();
    let mut i: usize = 0;
    while i < v.len()
        invariant
            i <= v@.len(),
            out@.len() == i,
            forall|k: int|
                0 <= k < i ==> inlines_view((#[trigger] out@[k])@) == inlines_view(v@[k]@),
        decreases v@.len() - i,
    {
        out.push(copy_inlines(&v[i]));
        i = i + 1;
    }
    assert(cells_view(out@) =~= cells_view(v@));
    out
}

/// A copy of table rows.
fn copy_rows(v: &Vec<Vec<Vec<Inline>>>) -> (r: Vec<Vec<Vec<Inline>>>)
    ensures
        rows_view(r@) == rows_view(v@),
{
    let mut out: Vec<Vec<Vec<Inline>>> = Vec::new();
    let mut i: usize = 0;
    while i < v.len()
        invariant
            i <= v@.len(),
            out@.len() == i,
            forall|k: int| 0 <= k < i ==> cells_view((#[trigger] out@[k])@) == cells_view(v@[k]@),
        decreases v@.len() - i,
    {
        out.push(copy_cells(&v[i]));
        i = i + 1;
    }
    assert(rows_view(out@) =~= rows_view(v@));
    out
}

/// A copy of a block.
pub fn copy_block(x: &Block) -> (r: Block)
    ensures
        block_view(r) == block_view(*x),
    decreases x,
{
    match x {
        Block::Heading { level, content } => Block::Heading {
            level: *level,
            content: copy_inlines(content),
        },
        Block::Paragraph(c) => Block::Paragraph(copy_inlines(c)),
        Block::Quote(b) => Block::Quote(copy_blocks(b)),
        Block::List { ordered, items } => Block::List {
            ordered: *ordered,
            items: copy_items(items),
        },
        Block::Code { lang, text } => Block::Code { lang: copy_opt(lang), text: text.clone() },
        Block::Image(i) => Block::Image(i.clone()),
        Block::ImageGrid(g) => Block::ImageGrid(copy_images(g)),
        Block::Callout { emoji, tint, content } => Block::Callout {
            emoji: copy_opt(emoji),
            tint: *tint,
            content: copy_inlines(content),
        },
        Block::GalleryRef { uri } => Block::GalleryRef { uri: uri.clone() },
        Block::Table { head, rows } => Block::Table {
            head: copy_cells(head),
            rows: copy_rows(rows),
        },
        Block::Rule => Block::Rule,
    }
}

/// A copy of a list of blocks.
pub fn copy_blocks(v: &Vec<Block>) -> (r: Vec<Block>)
    ensures
        blocks_view(r@) == blocks_view(v@),
    decreases v,
{
    broadcast use {lemma_blocks_view, lemma_blocks_push};

    let mut out: Vec<Block> = Vec::new();
    let mut i: usize = 0;
    while i < v.len()
        invariant
            i <= v@.len(),
            blocks_view(out@) == blocks_view(v@).take(i as int),
        decreases v@.len() - i,
    {
        broadcast use {lemma_blocks_view, lemma_blocks_push};

        out.push(copy_block(&v[i]));
        assert(blocks_view(v@).take(i as int).push(block_view(v@[i as int])) =~= blocks_view(
            v@,
        ).take(i + 1));
        i = i + 1;
    }
    assert(blocks_view(v@).take(v@.len() as int) =~= blocks_view(v@));
    out
}

/// A copy of the items of a list block.
pub fn copy_items(v: &Vec<Vec<Block>>) -> (r: Vec<Vec<Block>>)
    ensures
        items_view(r@) == items_view(v@),
    decreases v,
{
    broadcast use {lemma_items_view, lemma_items_push};

    let mut out: Vec<Vec<Block>> = Vec::new();
    let mut i: usize = 0;
    while i < v.len()
        invariant
            i <= v@.len(),
            items_view(out@) == items_view(v@).take(i as int),
        decreases v@.len() - i,
    {
        broadcast use {lemma_items_view, lemma_items_push};

        out.push(copy_blocks(&v[i]));
        assert(items_view(v@).take(i as int).push(blocks_view(v@[i as int]@)) =~= items_view(
            v@,
        ).take(i + 1));
        i = i + 1;
    }
    assert(items_view(v@).take(v@.len() as int) =~= items_view(v@));
    out
}

/// A fully decoded document body.
#[derive(Debug, PartialEq)]
pub struct RichDoc {
    pub blocks: Vec<Block>,
}

impl View for RichDoc {
    type V = Seq<SpecBlock>;

    open spec fn view(&self) -> Seq<SpecBlock> {
        blocks_view(self.blocks@)
    }
}

impl Clone for RichDoc {
    fn clone(&self) -> (r: Self)
        ensures
            r@ == self@,
    {
        RichDoc { blocks: copy_blocks(&self.blocks) }
    }
}

impl Default for RichDoc {
    fn default() -> (r: Self)
        ensures
            r@ == Seq::<SpecBlock>::empty(),
    {
        RichDoc { blocks: Vec::new() }
    }
}

// --- Records ----------------------------------------------------------------------

/// The platform that a document was written on.
#[derive(Debug, Clone, Copy, PartialEq, Eq, Structural)]
pub enum PublishingPlatform {
    Leaflet,
    Pckt,
    Offprint,
    Wordpress,
    Unthread,
    GreenGale,
}

impl PublishingPlatform {
    /// The platform's home page.
    pub open spec fn spec_homepage(self) -> Seq<char> {
        match self {
            PublishingPlatform::Leaflet => "https://leaflet.pub/"@,
            PublishingPlatform::Pckt => "https://pckt.blog/"@,
            PublishingPlatform::Offprint => "https://offprint.app/"@,
            PublishingPlatform::Wordpress => "https://wordpress.org/"@,
            PublishingPlatform::Unthread => "https://unthread.at/"@,
            PublishingPlatform::GreenGale => "https://greengale.app/"@,
        }
    }

    /// The platform's home page.
    pub fn homepage(&self) -> (r: &'static str)
        ensures
            r@ == self.spec_homepage(),
    {
        match self {
            PublishingPlatform::Leaflet => "https://leaflet.pub/",
            PublishingPlatform::Pckt => "https://pckt.blog/",
            PublishingPlatform::Offprint => "https://offprint.app/",
            PublishingPlatform::Wordpress => "https://wordpress.org/",
            PublishingPlatform::Unthread => "https://unthread.at/",
            PublishingPlatform::GreenGale => "https://greengale.app/",
        }
    }
}

/// Metadata of a `site.standard.document`, independent of its decoded body.
#[derive(Debug, PartialEq)]
pub struct Document {
    /// `at://<did>/site.standard.document/<rkey>`
    pub uri: String,
    pub title: String,
    pub description: Option<String>,
    /// The owning publication (the record's `site` field).
    pub publication: String,
    pub published_at: String,
    pub updated_at: Option<String>,
    pub publishing_platform: Option<PublishingPlatform>,
    pub cover_image: Option<Image>,
    /// Flat plaintext: fallback body and search source.
    pub text_content: Option<String>,
    pub tags: Vec<String>,
    /// Path of the document below the publication's base URL.
    pub path: Option<String>,
}

/// [`Document`] over sequences.
pub struct SpecDocument {
    pub uri: Seq<char>,
    pub title: Seq<char>,
    pub description: Option<Seq<char>>,
    pub publication: Seq<char>,
    pub published_at: Seq<char>,
    pub updated_at: Option<Seq<char>>,
    pub publishing_platform: Option<PublishingPlatform>,
    pub cover_image: Option<SpecImage>,
    pub text_content: Option<Seq<char>>,
    pub tags: Seq<Seq<char>>,
    pub path: Option<Seq<char>>,
}

/// An optional image by its view.
pub open spec fn opt_image_view(o: Option<Image>) -> Option<SpecImage> {
    match o {
        Some(i) => Some(i@),
        None => None,
    }
}

impl View for Document {
    type V = SpecDocument;

    open spec fn view(&self) -> SpecDocument {
        SpecDocument {
            uri: self.uri@,
            title: self.title@,
            description: opt_view(self.description),
            publication: self.publication@,
            published_at: self.published_at@,
            updated_at: opt_view(self.updated_at),
            publishing_platform: self.publishing_platform,
            cover_image: opt_image_view(self.cover_image),
            text_content: opt_view(self.text_content),
            tags: crate::text::strings_view(self.tags@),
            path: opt_view(self.path),
        }
    }
}

/// A copy of an optional image.
fn copy_opt_image(o: &Option<Image>) -> (r: Option<Image>)
    ensures
        opt_image_view(r) == opt_image_view(*o),
{
    match o {
        Some(i) => Some(i.clone()),
        None => None,
    }
}

/// A copy of a list of strings.
pub fn copy_strings(v: &Vec<String>) -> (r: Vec<String>)
    ensures
        crate::text::strings_view(r@) == crate::text::strings_view(v@),
{
    let mut out: Vec<String> = Vec::new();
    let mut i: usize = 0;
    while i < v.len()
        invariant
            i <= v@.len(),
            out@.len() == i,
            forall|k: int| 0 <= k < i ==> (#[trigger] out@[k])@ == v@[k]@,
        decreases v@.len() - i,
    {
        out.push(v[i].clone());
        i = i + 1;
    }
    assert(crate::text::strings_view(out@) =~= crate::text::strings_view(v@));
    out
}

impl Clone for Document {
    fn clone(&self) -> (r: Self)
        ensures
            r@ == self@,
    {
        Document {
            uri: self.uri.clone(),
            title: self.title.clone(),
            description: copy_opt(&self.description),
            publication: self.publication.clone(),
            published_at: self.published_at.clone(),
            updated_at: copy_opt(&self.updated_at),
            publishing_platform: self.publishing_platform,
            cover_image: copy_opt_image(&self.cover_image),
            text_content: copy_opt(&self.text_content),
            tags: copy_strings(&self.tags),
            path: copy_opt(&self.path),
        }
    }
}

/// Documents by their views.
pub open spec fn documents_view(s: Seq<Document>) -> Seq<SpecDocument> {
    s.map_values(|d: Document| d@)
}

/// Appending a document appends its view.
pub broadcast proof fn lemma_documents_push(s: Seq<Document>, x: Document)
    ensures
        #[trigger] documents_view(s.push(x)) == documents_view(s).push(x@),
{
    assert(documents_view(s.push(x)) =~= documents_view(s).push(x@));
}

/// A `site.standard.publication` record.
#[derive(Debug, PartialEq)]
pub struct Publication {
    /// `at://<did>/site.standard.publication/<rkey>`
    pub uri: String,
    /// Base URL of the publication's web home.
    pub url: String,
    pub name: String,
    pub description: Option<String>,
    pub icon: Option<Image>,
}

/// [`Publication`] over sequences.
pub struct SpecPublication {
    pub uri: Seq<char>,
    pub url: Seq<char>,
    pub name: Seq<char>,
    pub description: Option<Seq<char>>,
    pub icon: Option<SpecImage>,
}

impl View for Publication {
    type V = SpecPublication;

    open spec fn view(&self) -> SpecPublication {
        SpecPublication {
            uri: self.uri@,
            url: self.url@,
            name: self.name@,
            description: opt_view(self.description),
            icon: opt_image_view(self.icon),
        }
    }
}

impl Clone for Publication {
    fn clone(&self) -> (r: Self)
        ensures
            r@ == self@,
    {
        Publication {
            uri: self.uri.clone(),
            url: self.url.clone(),
            name: self.name.clone(),
            description: copy_opt(&self.description),
            icon: copy_opt_image(&self.icon),
        }
    }
}

/// Publications by their views.
pub open spec fn publications_view(s: Seq<Publication>) -> Seq<SpecPublication> {
    s.map_values(|p: Publication| p@)
}

/// Appending a publication appends its view.
pub broadcast proof fn lemma_publications_push(s: Seq<Publication>, x: Publication)
    ensures
        #[trigger] publications_view(s.push(x)) == publications_view(s).push(x@),
{
    assert(publications_view(s.push(x)) =~= publications_view(s).push(x@));
}

/// A `site.standard.graph.subscription` record from the reader's own repository.
#[derive(Debug, PartialEq)]
pub struct Subscription {
    pub uri: String,
    /// The subscribed publication.
    pub publication: String,
}

/// [`Subscription`] over sequences.
pub struct SpecSubscription {
    pub uri: Seq<char>,
    pub publication: Seq<char>,
}

impl View for Subscription {
    type V = SpecSubscription;

    open spec fn view(&self) -> SpecSubscription {
        SpecSubscription { uri: self.uri@, publication: self.publication@ }
    }
}

impl Clone for Subscription {
    fn clone(&self) -> (r: Self)
        ensures
            r@ == self@,
    {
        Subscription { uri: self.uri.clone(), publication: self.publication.clone() }
    }
}

// --- Equality ---------------------------------------------------------------------

impl Clone for Inline {
    fn clone(&self) -> (r: Self)
        ensures
            r@ == self@,
    {
        copy_inline(self)
    }
}

impl Clone for Block {
    fn clone(&self) -> (r: Self)
        ensures
            r@ == self@,
    {
        copy_block(self)
    }
}

/// Whether two optional strings are the same.
pub fn same_opt(a: &Option<String>, b: &Option<String>) -> (r: bool)
    ensures
        r == (opt_view(*a) == opt_view(*b)),
{
    match (a, b) {
        (Some(x), Some(y)) => same(x.as_str(), y.as_str()),
        (None, None) => true,
        _ => false,
    }
}

/// Whether two sources are the same.
pub fn same_source(a: &ImageSource, b: &ImageSource) -> (r: bool)
    ensures
        r == (a@ == b@),
{
    match (a, b) {
        (ImageSource::Url(x), ImageSource::Url(y)) => same(x.as_str(), y.as_str()),
        (ImageSource::Blob { did: d, cid: c }, ImageSource::Blob { did: e, cid: f }) => same(
            d.as_str(),
            e.as_str(),
        ) && same(c.as_str(), f.as_str()),
        _ => false,
    }
}

/// Whether two images are the same.
pub fn same_image(a: &Image, b: &Image) -> (r: bool)
    ensures
        r == (a@ == b@),
{
    same(a.alt.as_str(), b.alt.as_str()) && same_source(&a.source, &b.source)
}

/// Whether two lists of images are the same.
pub fn same_images(a: &Vec<Image>, b: &Vec<Image>) -> (r: bool)
    ensures
        r == (images_view(a@) == images_view(b@)),
{
    assert(images_view(a@).len() == a@.len());
    assert(images_view(b@).len() == b@.len());
    if a.len() != b.len() {
        return false;
    }
    let mut i: usize = 0;
    while i < a.len()
        invariant
            i <= a@.len(),
            a@.len() == b@.len(),
            forall|k: int| 0 <= k < i ==> #[trigger] images_view(a@)[k] == images_view(b@)[k],
        decreases a@.len() - i,
    {
        assert(images_view(a@)[i as int] == a@[i as int]@);
        assert(images_view(b@)[i as int] == b@[i as int]@);
        if !same_image(&a[i], &b[i]) {
            return false;
        }
        i = i + 1;
    }
    assert(images_view(a@) =~= images_view(b@));
    true
}

/// Whether two inlines are the same.
pub fn same_inline(a: &Inline, b: &Inline) -> (r: bool)
    ensures
        r == (inline_view(*a) == inline_view(*b)),
    decreases a,
{
    match (a, b) {
        (Inline::Text(x), Inline::Text(y)) => same(x.as_str(), y.as_str()),
        (Inline::Strong(x), Inline::Strong(y)) => same_inlines(x, y),
        (Inline::Emphasis(x), Inline::Emphasis(y)) => same_inlines(x, y),
        (Inline::Strike(x), Inline::Strike(y)) => same_inlines(x, y),
        (Inline::Underline(x), Inline::Underline(y)) => same_inlines(x, y),
        (Inline::Highlight(x), Inline::Highlight(y)) => same_inlines(x, y),
        (Inline::Code(x), Inline::Code(y)) => same(x.as_str(), y.as_str()),
        (Inline::Link { href: h, content: x }, Inline::Link { href: k, content: y }) => same(
            h.as_str(),
            k.as_str(),
        ) && same_inlines(x, y),
        (Inline::Image(x), Inline::Image(y)) => same_image(x, y),
        (Inline::LineBreak, Inline::LineBreak) => true,
        _ => false,
    }
}

/// Whether two lists of inlines are the same.
pub fn same_inlines(a: &Vec<Inline>, b: &Vec<Inline>) -> (r: bool)
    ensures
        r == (inlines_view(a@) == inlines_view(b@)),
    decreases a,
{
    broadcast use lemma_inlines_view;

    assert(inlines_view(a@).len() == a@.len());
    assert(inlines_view(b@).len() == b@.len());
    if a.len() != b.len() {
        return false;
    }
    let mut i: usize = 0;
    while i < a.len()
        invariant
            i <= a@.len(),
            a@.len() == b@.len(),
            forall|k: int| 0 <= k < i ==> #[trigger] inlines_view(a@)[k] == inlines_view(b@)[k],
        decreases a@.len() - i,
    {
        broadcast use lemma_inlines_view;

        assert(inlines_view(a@)[i as int] == inline_view(a@[i as int]));
        assert(inlines_view(b@)[i as int] == inline_view(b@[i as int]));
        if !same_inline(&a[i], &b[i]) {
            return false;
        }
        i = i + 1;
    }
    assert(inlines_view(a@) =~= inlines_view(b@));
    true
}

/// Whether two rows of cells are the same.
pub fn same_cells(a: &Vec<Vec<Inline>>, b: &Vec<Vec<Inline>>) -> (r: bool)
    ensures
        r == (cells_view(a@) == cells_view(b@)),
{
    assert(cells_view(a@).len() == a@.len());
    assert(cells_view(b@).len() == b@.len());
    if a.len() != b.len() {
        return false;
    }
    let mut i: usize = 0;
    while i < a.len()
        invariant
            i <= a@.len(),
            a@.len() == b@.len(),
            forall|k: int| 0 <= k < i ==> #[trigger] cells_view(a@)[k] == cells_view(b@)[k],
        decreases a@.len() - i,
    {
        assert(cells_view(a@)[i as int] == inlines_view(a@[i as int]@));
        assert(cells_view(b@)[i as int] == inlines_view(b@[i as int]@));
        if !same_inlines(&a[i], &b[i]) {
            return false;
        }
        i = i + 1;
    }
    assert(cells_view(a@) =~= cells_view(b@));
    true
}

/// Whether two lists of rows are the same.
pub fn same_rows(a: &Vec<Vec<Vec<Inline>>>, b: &Vec<Vec<Vec<Inline>>>) -> (r: bool)
    ensures
        r == (rows_view(a@) == rows_view(b@)),
{
    assert(rows_view(a@).len() == a@.len());
    assert(rows_view(b@).len() == b@.len());
    if a.len() != b.len() {
        return false;
    }
    let mut i: usize = 0;
    while i < a.len()
        invariant
            i <= a@.len(),
            a@.len() == b@.len(),
            forall|k: int| 0 <= k < i ==> #[trigger] rows_view(a@)[k] == rows_view(b@)[k],
        decreases a@.len() - i,
    {
        assert(rows_view(a@)[i as int] == cells_view(a@[i as int]@));
        assert(rows_view(b@)[i as int] == cells_view(b@[i as int]@));
        if !same_cells(&a[i], &b[i]) {
            return false;
        }
        i = i + 1;
    }
    assert(rows_view(a@) =~= rows_view(b@));
    true
}

fn same_tint(a: &Option<(u8, u8, u8)>, b: &Option<(u8, u8, u8)>) -> (r: bool)
    ensures
        r == (*a == *b),
{
    match (a, b) {
        (Some(x), Some(y)) => x.0 == y.0 && x.1 == y.1 && x.2 == y.2,
        (None, None) => true,
        _ => false,
    }
}

/// Whether two blocks are the same.
pub fn same_block(a: &Block, b: &Block) -> (r: bool)
    ensures
        r == (block_view(*a) == block_view(*b)),
    decreases a,
{
    match (a, b) {
        (Block::Heading { level: l, content: x }, Block::Heading { level: m, content: y }) => *l
            == *m && same_inlines(x, y),
        (Block::Paragraph(x), Block::Paragraph(y)) => same_inlines(x, y),
        (Block::Quote(x), Block::Quote(y)) => same_blocks(x, y),
        (Block::List { ordered: o, items: x }, Block::List { ordered: q, items: y }) => *o == *q
            && same_items(x, y),
        (Block::Code { lang: l, text: x }, Block::Code { lang: m, text: y }) => same_opt(l, m)
            && same(x.as_str(), y.as_str()),
        (Block::Image(x), Block::Image(y)) => same_image(x, y),
        (Block::ImageGrid(x), Block::ImageGrid(y)) => same_images(x, y),
        (
            Block::Callout { emoji: e, tint: t, content: x },
            Block::Callout { emoji: f, tint: u, content: y },
        ) => same_opt(e, f) && same_tint(t, u) && same_inlines(x, y),
        (Block::GalleryRef { uri: x }, Block::GalleryRef { uri: y }) => same(
            x.as_str(),
            y.as_str(),
        ),
        (Block::Table { head: h, rows: x }, Block::Table { head: k, rows: y }) => same_cells(h, k)
            && same_rows(x, y),
        (Block::Rule, Block::Rule) => true,
        _ => false,
    }
}

/// Whether two lists of blocks are the same.
pub fn same_blocks(a: &Vec<Block>, b: &Vec<Block>) -> (r: bool)
    ensures
        r == (blocks_view(a@) == blocks_view(b@)),
    decreases a,
{
    broadcast use lemma_blocks_view;

    assert(blocks_view(a@).len() == a@.len());
    assert(blocks_view(b@).len() == b@.len());
    if a.len() != b.len() {
        return false;
    }
    let mut i: usize = 0;
    while i < a.len()
        invariant
            i <= a@.len(),
            a@.len() == b@.len(),
            forall|k: int| 0 <= k < i ==> #[trigger] blocks_view(a@)[k] == blocks_view(b@)[k],
        decreases a@.len() - i,
    {
        broadcast use lemma_blocks_view;

        assert(blocks_view(a@)[i as int] == block_view(a@[i as int]));
        assert(blocks_view(b@)[i as int] == block_view(b@[i as int]));
        if !same_block(&a[i], &b[i]) {
            return false;
        }
        i = i + 1;
    }
    assert(blocks_view(a@) =~= blocks_view(b@));
    true
}

fn same_items(a: &Vec<Vec<Block>>, b: &Vec<Vec<Block>>) -> (r: bool)
    ensures
        r == (items_view(a@) == items_view(b@)),
    decreases a,
{
    broadcast use lemma_items_view;

    assert(items_view(a@).len() == a@.len());
    assert(items_view(b@).len() == b@.len());
    if a.len() != b.len() {
        return false;
    }
    let mut i: usize = 0;
    while i < a.len()
        invariant
            i <= a@.len(),
            a@.len() == b@.len(),
            forall|k: int| 0 <= k < i ==> #[trigger] items_view(a@)[k] == items_view(b@)[k],
        decreases a@.len() - i,
    {
        broadcast use lemma_items_view;

        assert(items_view(a@)[i as int] == blocks_view(a@[i as int]@));
        assert(items_view(b@)[i as int] == blocks_view(b@[i as int]@));
        if !same_blocks(&a[i], &b[i]) {
            return false;
        }
        i = i + 1;
    }
    assert(items_view(a@) =~= items_view(b@));
    true
}

} // verus!
