//! Content decoding: every publisher's `content` becomes one neutral document.
//!
//! `site.standard.document.content` is an open union: each platform embeds its own
//! lexicon. A decoder claims the values it knows; what no decoder takes falls back
//! to the typeset `textContent`.
use vstd::prelude::*;

use crate::atp::{parsed_at_uri, AtUri, SpecAtUri};
use crate::json::{Json, SpecJson};
use crate::model::{
    blocks_view, group_model_push, one_inline, Block, Inline, PublishingPlatform, RichDoc,
    SpecBlock, SpecInline,
};
use crate::text::{
    ends_with, finishes_with, pieces_by, same, split_str, strings_view, trim, trimmed,
};

pub mod blocks;
pub mod facets;
pub mod hoist;
pub mod html;
pub mod image;
pub mod leaflet;
pub mod markdown;
pub mod offprint;
pub mod pckt;
pub mod unthread;

pub use html::Wordpress;
pub use leaflet::Leaflet;
pub use markdown::Markdown;
pub use offprint::Offprint;
pub use pckt::Pckt;
pub use unthread::Unthread;

verus! {

/// What a decoder needs beyond the `content` value: the DID of the repository that
/// owns the record, since block formats embed only a blob's CID.
pub struct DecodeCtx<'a> {
    pub repo_did: &'a str,
}

/// An optional document by its view.
pub open spec fn opt_doc_view(o: Option<RichDoc>) -> Option<Seq<SpecBlock>> {
    match o {
        Some(d) => Some(d@),
        None => None,
    }
}

/// Decodes one publisher's `content` value into the neutral document.
///
/// A decoder is a pure function of the value and the context: no input makes it
/// fail otherwise than by returning `None`, which defers to the fallback.
pub trait ContentDecoder {
    /// The values that this decoder claims.
    spec fn claims(&self, content: SpecJson) -> bool;

    /// The document that a value decodes to.
    spec fn decoded(&self, content: SpecJson, did: Seq<char>) -> Option<Seq<SpecBlock>>;

    /// The platform that a claimed value was written on.
    spec fn platform(&self, content: SpecJson) -> Option<PublishingPlatform>;

    /// Whether this decoder claims `content`.
    fn handles(&self, content: &Json) -> (r: bool)
        ensures
            r == self.claims(content@),
    ;

    /// Decode, or return `None` to defer.
    fn decode(&self, content: &Json, ctx: &DecodeCtx) -> (r: Option<RichDoc>)
        ensures
            opt_doc_view(r) == self.decoded(content@, ctx.repo_did@),
    ;

    /// The platform that a claimed value was written on, if the value tells.
    fn publishing_platform(&self, content: &Json) -> (r: Option<PublishingPlatform>)
        ensures
            r == self.platform(content@),
    ;
}

/// Whether the `$type` of `content` is `ty`.
pub(crate) fn has_type(content: &Json, ty: &str) -> (r: bool)
    ensures
        r == (content@.get_str("$type"@) == Some(ty@)),
{
    match content.get_str("$type") {
        Some(t) => same(t, ty),
        None => false,
    }
}

// --- The registry -----------------------------------------------------------------

/// What a decoder makes of a value: nothing unless it claims it.
pub open spec fn attempt<D: ContentDecoder>(d: D, content: SpecJson, did: Seq<char>) -> Option<
    Seq<SpecBlock>,
> {
    if d.claims(content) {
        d.decoded(content, did)
    } else {
        None
    }
}

/// The first of two results that is there.
pub open spec fn or_else<A>(a: Option<A>, b: Option<A>) -> Option<A> {
    match a {
        Some(x) => Some(x),
        None => b,
    }
}

/// What the first decoder makes of a value that claims it and does not defer.
pub open spec fn first_decoded(content: SpecJson, did: Seq<char>) -> Option<Seq<SpecBlock>> {
    or_else(
        attempt(Markdown, content, did),
        or_else(
            attempt(Leaflet, content, did),
            or_else(
                attempt(Pckt, content, did),
                or_else(
                    attempt(Offprint, content, did),
                    or_else(
                        attempt(Wordpress, content, did),
                        attempt(Unthread, content, did),
                    ),
                ),
            ),
        ),
    )
}

/// The document of a record: its content decoded, or its text typeset.
pub open spec fn decoded_doc(
    content: Option<SpecJson>,
    text: Option<Seq<char>>,
    did: Seq<char>,
) -> Seq<SpecBlock> {
    let body = match content {
        Some(c) => first_decoded(c, did),
        None => None,
    };
    match body {
        Some(b) => b,
        None => typeset(
            match text {
                Some(t) => t,
                None => Seq::empty(),
            },
        ),
    }
}

/// The platform of a record's content: that of the first decoder that claims it.
pub open spec fn platform_of(content: Option<SpecJson>) -> Option<PublishingPlatform> {
    match content {
        None => None,
        Some(c) => if Markdown.claims(c) {
            Markdown.platform(c)
        } else if Leaflet.claims(c) {
            Leaflet.platform(c)
        } else if Pckt.claims(c) {
            Pckt.platform(c)
        } else if Offprint.claims(c) {
            Offprint.platform(c)
        } else if Wordpress.claims(c) {
            Wordpress.platform(c)
        } else if Unthread.claims(c) {
            Unthread.platform(c)
        } else {
            None
        },
    }
}

/// Run one decoder on a value that it may claim.
fn try_decoder<D: ContentDecoder>(d: &D, content: &Json, ctx: &DecodeCtx) -> (r: Option<RichDoc>)
    ensures
        opt_doc_view(r) == attempt(*d, content@, ctx.repo_did@),
{
    if d.handles(content) {
        d.decode(content, ctx)
    } else {
        None
    }
}

/// The ordered set of decoders, with the fallback that is always on.
pub struct Registry {
    markdown: Markdown,
    leaflet: Leaflet,
    pckt: Pckt,
    offprint: Offprint,
    wordpress: Wordpress,
    unthread: Unthread,
}

impl Registry {
    /// The one set of decoders that there is.
    pub closed spec fn standard() -> Registry {
        Registry {
            markdown: Markdown,
            leaflet: Leaflet,
            pckt: Pckt,
            offprint: Offprint,
            wordpress: Wordpress,
            unthread: Unthread,
        }
    }

    /// Every decoder, in dispatch order.
    pub fn with_defaults() -> (r: Self)
        ensures
            r == Registry::standard(),
    {
        Registry {
            markdown: Markdown,
            leaflet: Leaflet,
            pckt: Pckt,
            offprint: Offprint,
            wordpress: Wordpress,
            unthread: Unthread,
        }
    }

    fn decode_content(&self, content: &Json, ctx: &DecodeCtx) -> (r: Option<RichDoc>)
        ensures
            opt_doc_view(r) == first_decoded(content@, ctx.repo_did@),
    {
        if let Some(doc) = try_decoder(&self.markdown, content, ctx) {
            return Some(doc);
        }
        if let Some(doc) = try_decoder(&self.leaflet, content, ctx) {
            return Some(doc);
        }
        if let Some(doc) = try_decoder(&self.pckt, content, ctx) {
            return Some(doc);
        }
        if let Some(doc) = try_decoder(&self.offprint, content, ctx) {
            return Some(doc);
        }
        if let Some(doc) = try_decoder(&self.wordpress, content, ctx) {
            return Some(doc);
        }
        try_decoder(&self.unthread, content, ctx)
    }

    /// Decode `content`, or typeset `text_content` when no decoder takes it.
    pub fn decode(
        &self,
        content: Option<&Json>,
        text_content: Option<&str>,
        ctx: &DecodeCtx,
    ) -> (r: RichDoc)
        ensures
            r@ == decoded_doc(
                match content {
                    Some(c) => Some(c@),
                    None => None,
                },
                match text_content {
                    Some(t) => Some(t@),
                    None => None,
                },
                ctx.repo_did@,
            ),
    {
        if let Some(value) = content {
            if let Some(doc) = self.decode_content(value, ctx) {
                return doc;
            }
        }
        match text_content {
            Some(t) => Plaintext.from_text(t),
            None => {
                let none = String::new();
                Plaintext.from_text(none.as_str())
            },
        }
    }

    /// The platform that `content` was written on, if it tells.
    pub fn publishing_platform(&self, content: Option<&Json>) -> (r: Option<PublishingPlatform>)
        ensures
            r == platform_of(
                match content {
                    Some(c) => Some(c@),
                    None => None,
                },
            ),
    {
        match content {
            None => None,
            Some(c) => if self.markdown.handles(c) {
                self.markdown.publishing_platform(c)
            } else if self.leaflet.handles(c) {
                self.leaflet.publishing_platform(c)
            } else if self.pckt.handles(c) {
                self.pckt.publishing_platform(c)
            } else if self.offprint.handles(c) {
                self.offprint.publishing_platform(c)
            } else if self.wordpress.handles(c) {
                self.wordpress.publishing_platform(c)
            } else if self.unthread.handles(c) {
                self.unthread.publishing_platform(c)
            } else {
                None
            },
        }
    }
}

/// Content of a type that no decoder knows never fails: the document is the typeset
/// text.
pub proof fn law_unknown_content_falls_back(
    content: SpecJson,
    text: Option<Seq<char>>,
    did: Seq<char>,
)
    requires
        !(content is Str),
        content.get_str("$type"@) matches Some(ty) ==> {
            &&& ty != "at.markpub.markdown"@
            &&& ty != "pub.leaflet.content"@
            &&& ty != "blog.pckt.content"@
            &&& ty != "app.offprint.content"@
            &&& ty != "org.wordpress.html"@
            &&& ty != "at.unthread.content"@
        },
    ensures
        decoded_doc(Some(content), text, did) == decoded_doc(None, text, did),
        platform_of(Some(content)) is None,
{
}

/// The decoders do not compete: a value is claimed by one of them at most, so their
/// order does not matter.
pub proof fn law_at_most_one_decoder_claims(content: SpecJson)
    ensures
        Markdown.claims(content) ==> !Leaflet.claims(content) && !Pckt.claims(content)
            && !Offprint.claims(content) && !Wordpress.claims(content) && !Unthread.claims(
            content,
        ),
        Leaflet.claims(content) ==> !Pckt.claims(content) && !Offprint.claims(content)
            && !Wordpress.claims(content) && !Unthread.claims(content),
        Pckt.claims(content) ==> !Offprint.claims(content) && !Wordpress.claims(content)
            && !Unthread.claims(content),
        Offprint.claims(content) ==> !Wordpress.claims(content) && !Unthread.claims(content),
        Wordpress.claims(content) ==> !Unthread.claims(content),
{
    reveal_strlit("at.markpub.markdown");
    reveal_strlit("pub.leaflet.content");
    reveal_strlit("blog.pckt.content");
    reveal_strlit("app.offprint.content");
    reveal_strlit("org.wordpress.html");
    reveal_strlit("at.unthread.content");
    assert("at.markpub.markdown"@[3] != "at.unthread.content"@[3]);
    assert("at.markpub.markdown"@[0] != "pub.leaflet.content"@[0]);
    assert("at.unthread.content"@[0] != "pub.leaflet.content"@[0]);
    assert("blog.pckt.content"@.len() == 17);
    assert("org.wordpress.html"@.len() == 18);
    assert("app.offprint.content"@.len() == 20);
    assert("at.unthread.content"@.len() == 19);
}

// --- References -------------------------------------------------------------------

/// The record that `content` refers to, if it is a `#contentRef`.
pub open spec fn content_ref_of(content: SpecJson) -> Option<SpecAtUri> {
    match content.get_str("$type"@) {
        None => None,
        Some(ty) => if !finishes_with(ty, "#contentRef"@) {
            None
        } else {
            match content.get_str("uri"@) {
                Some(uri) => parsed_at_uri(uri),
                None => None,
            }
        },
    }
}

/// If `content` refers to another record rather than holding the text itself, the
/// record to fetch; its own `content` is then decoded.
pub fn content_ref(content: &Json) -> (r: Option<AtUri>)
    ensures
        match r {
            Some(u) => content_ref_of(content@) == Some(u@),
            None => content_ref_of(content@) is None,
        },
{
    match content.get_str("$type") {
        None => None,
        Some(ty) => if !ends_with(ty, "#contentRef") {
            None
        } else {
            match content.get_str("uri") {
                Some(uri) => AtUri::parse(uri),
                None => None,
            }
        },
    }
}

// --- The fallback -----------------------------------------------------------------

/// The paragraphs of the first `n` pieces: those that are not blank.
pub open spec fn paragraphs_of(pieces: Seq<Seq<char>>, n: int) -> Seq<SpecBlock>
    decreases n,
{
    if n <= 0 {
        Seq::empty()
    } else {
        let rest = paragraphs_of(pieces, n - 1);
        let t = trimmed(pieces[n - 1]);
        if t.len() == 0 {
            rest
        } else {
            rest.push(SpecBlock::Paragraph(seq![SpecInline::Text(t)]))
        }
    }
}

/// Flat text as paragraphs: split at blank lines, each trimmed.
pub open spec fn typeset(text: Seq<char>) -> Seq<SpecBlock> {
    let pieces = pieces_by(text, "\n\n"@, 0);
    paragraphs_of(pieces, pieces.len() as int)
}

/// The fallback that always works.
pub struct Plaintext;

impl Plaintext {
    /// Flat text as paragraphs: split at blank lines, each trimmed.
    pub fn from_text(&self, text: &str) -> (r: RichDoc)
        ensures
            r@ == typeset(text@),
    {
        proof {
            reveal_strlit("\n\n");
        }
        let pieces = split_str(text, "\n\n");
        let ghost all = strings_view(pieces@);
        let mut blocks: Vec<Block> = Vec::new();
        let mut i: usize = 0;
        while i < pieces.len()
            invariant
                i <= pieces@.len(),
                all == strings_view(pieces@),
                blocks_view(blocks@) == paragraphs_of(all, i as int),
            decreases pieces@.len() - i,
        {
            broadcast use group_model_push;

            assert(all[i as int] == pieces@[i as int]@);
            let t = trim(pieces[i].as_str());
            if !t.as_str().is_empty() {
                blocks.push(Block::Paragraph(one_inline(Inline::Text(t))));
            }
            i = i + 1;
        }
        RichDoc { blocks }
    }
}

} // verus!
