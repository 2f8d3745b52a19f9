//! Image references: blob references and plain URLs.
use vstd::prelude::*;

use crate::json::{Json, SpecJson};
use crate::model::{opt_image_view, Image, ImageSource, SpecImage, SpecImageSource};
use crate::text::owned;

verus! {

/// The image that a `{ ref: { $link: <cid> } }` value stands for in the
/// repository `did`.
pub open spec fn blob_image_of(blob: SpecJson, did: Seq<char>, alt: Seq<char>) -> Option<
    SpecImage,
> {
    match blob.get("ref"@) {
        None => None,
        Some(r) => match r.get_str("$link"@) {
            None => None,
            Some(cid) => Some(SpecImage { alt, source: SpecImageSource::Blob { did, cid } }),
        },
    }
}

/// A blob-backed image; `None` if the value names no blob.
pub fn blob_image(blob: &Json, did: &str, alt: &str) -> (r: Option<Image>)
    ensures
        opt_image_view(r) == blob_image_of(blob@, did@, alt@),
{
    match blob.get("ref") {
        None => None,
        Some(r) => match r.get_str("$link") {
            None => None,
            Some(cid) => Some(
                Image {
                    alt: owned(alt),
                    source: ImageSource::Blob { did: owned(did), cid: owned(cid) },
                },
            ),
        },
    }
}

/// The image at `url`.
pub open spec fn url_image_of(url: Seq<char>, alt: Seq<char>) -> SpecImage {
    SpecImage { alt, source: SpecImageSource::Url(url) }
}

/// A URL-backed image.
pub fn url_image(url: &str, alt: &str) -> (r: Image)
    ensures
        r@ == url_image_of(url@, alt@),
{
    Image { alt: owned(alt), source: ImageSource::Url(owned(url)) }
}

} // verus!
