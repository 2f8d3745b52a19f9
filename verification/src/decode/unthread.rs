//! Unthread, `at.unthread.content`: a wrapper whose `content` is a Markdown text.
use vstd::prelude::*;

use crate::decode::markdown::{from_markdown, markdown_doc, markdown_events};
use crate::decode::{ContentDecoder, DecodeCtx};
use crate::json::{Json, SpecJson};
use crate::model::{PublishingPlatform, RichDoc, SpecBlock};

verus! {

/// Decoder of Unthread posts.
pub struct Unthread;

impl ContentDecoder for Unthread {
    open spec fn claims(&self, content: SpecJson) -> bool {
        content.get_str("$type"@) == Some("at.unthread.content"@)
    }

    open spec fn decoded(&self, content: SpecJson, did: Seq<char>) -> Option<Seq<SpecBlock>> {
        match content.get_str("content"@) {
            Some(md) => Some(markdown_doc(markdown_events(md))),
            None => None,
        }
    }

    open spec fn platform(&self, content: SpecJson) -> Option<PublishingPlatform> {
        Some(PublishingPlatform::Unthread)
    }

    fn handles(&self, content: &Json) -> (r: bool) {
        crate::decode::has_type(content, "at.unthread.content")
    }

    fn decode(&self, content: &Json, ctx: &DecodeCtx) -> (r: Option<RichDoc>) {
        match content.get_str("content") {
            Some(md) => Some(from_markdown(md)),
            None => None,
        }
    }

    fn publishing_platform(&self, content: &Json) -> (r: Option<PublishingPlatform>) {
        Some(PublishingPlatform::Unthread)
    }
}

} // verus!
