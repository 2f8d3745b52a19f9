//! Images: fetched once, kept, and asked for where they are.
use vstd::prelude::*;

use crate::app::content::source_key;
use crate::atp::Transport;
use crate::auth_provider::AuthProvider;
use crate::model::SpecImageSource;
use crate::read::SpecReadError;
use crate::store::{FrontendStore, StoreState};
use crate::url::transcoded_url;
use crate::worker::docs::{blob_had, bytes_had, server_known, SpecFault, Undecoded};
use crate::worker::tasks::{WorkError, Worker};
use crate::worker::{DecodedImage, SpecEvent};

verus! {

/// The bytes of an image that were had are kept, and nothing else changes.
pub proof fn law_bytes_are_kept<T: Transport>(
    t: T,
    known: Map<Seq<char>, Seq<char>>,
    learned: Map<Seq<char>, Seq<char>>,
    s: StoreState,
    after: StoreState,
    source: SpecImageSource,
    bytes: Seq<u8>,
    other: Seq<char>,
)
    requires
        bytes_had(t, known, learned, s, after, source, Ok(bytes)),
    ensures
        after.blobs.dom().contains(source_key(source)),
        after.blobs[source_key(source)] == bytes,
        other != source_key(source) ==> after.blobs.dom().contains(other)
            == s.blobs.dom().contains(other) && after.blobs[other] == s.blobs[other],
        after.documents == s.documents,
        after.follows == s.follows,
        after.publications == s.publications,
{
}

/// An image is fetched once: asked for again, it is the same bytes, and nothing is fetched.
pub proof fn law_an_image_is_fetched_once<T: Transport>(
    t: T,
    known: Map<Seq<char>, Seq<char>>,
    learned: Map<Seq<char>, Seq<char>>,
    s: StoreState,
    mid: StoreState,
    source: SpecImageSource,
    bytes: Seq<u8>,
    after: StoreState,
    later: Map<Seq<char>, Seq<char>>,
    again: Result<Seq<u8>, SpecFault>,
)
    requires
        bytes_had(t, known, learned, s, mid, source, Ok(bytes)),
        bytes_had(t, learned, later, mid, after, source, again),
    ensures
        again == Ok::<Seq<u8>, SpecFault>(bytes),
        after == mid,
        later == learned,
{
}

/// What could not be had leaves the cache as it was.
pub proof fn law_a_failure_keeps_nothing<T: Transport>(
    t: T,
    known: Map<Seq<char>, Seq<char>>,
    learned: Map<Seq<char>, Seq<char>>,
    s: StoreState,
    after: StoreState,
    source: SpecImageSource,
    fault: SpecFault,
)
    requires
        bytes_had(t, known, learned, s, after, source, Err(fault)),
    ensures
        after == s,
        !s.blobs.dom().contains(source_key(source)),
{
}

/// A repository's server is resolved once: after a blob was had from it, it is known.
pub proof fn law_a_server_is_resolved_once<T: Transport>(
    t: T,
    known: Map<Seq<char>, Seq<char>>,
    learned: Map<Seq<char>, Seq<char>>,
    did: Seq<char>,
    cid: Seq<char>,
    bytes: Seq<u8>,
    again: Result<Seq<char>, SpecReadError>,
    other: Seq<char>,
)
    requires
        blob_had(t, known, learned, did, cid, Ok(bytes)),
        server_known(t, learned, did, again),
    ensures
        learned.dom().contains(did),
        again == Ok::<Seq<char>, SpecReadError>(learned[did]),
        known.dom().contains(did) ==> learned[did] == known[did],
        other != did ==> learned.dom().contains(other) == known.dom().contains(other)
            && learned[other] == known[other],
{
}

/// The bytes that are handed on to be decoded are the image's, under its key.
pub proof fn law_an_image_is_handed_on<T: Transport, S: FrontendStore, A: AuthProvider>(
    before: Worker<T, S, A>,
    after: Worker<T, S, A>,
    key: Seq<char>,
    source: SpecImageSource,
    u: Undecoded,
)
    requires
        before.image_loaded(&after, key, source, Ok::<Undecoded, WorkError<S::Error>>(u)),
    ensures
        u.key@ == key,
        u.source@ == source,
        after.state().blobs.dom().contains(source_key(source)),
        u.bytes@ == after.state().blobs[source_key(source)],
        before.state().blobs.dom().contains(source_key(source)) ==> u.bytes@
            == before.state().blobs[source_key(source)],
        after.said() == before.said(),
{
    reveal(Worker::image_loaded);
}

/// An image that was decoded is reported under its key. One that was not is asked for once
/// more, as a JPEG, where its blob can be named; else the reader is told.
pub proof fn law_an_image_is_tried_as_a_jpeg<T: Transport, S: FrontendStore, A: AuthProvider>(
    before: Worker<T, S, A>,
    after: Worker<T, S, A>,
    key: Seq<char>,
    did: Seq<char>,
    cid: Seq<char>,
    decoded: Result<DecodedImage, String>,
    next: Option<Seq<u8>>,
)
    requires
        before.decoded_taken(&after, key, SpecImageSource::Blob { did, cid }, decoded, next),
    ensures
        decoded matches Ok(i) ==> next is None && after.said().last() == (SpecEvent::Image {
            key,
            image: i@,
        }),
        next matches Some(bytes) ==> decoded is Err && after.said() == before.said()
            && after.state().blobs.dom().contains(transcoded_url(did, cid))
            && after.state().blobs[transcoded_url(did, cid)] == bytes,
        decoded is Err && next is None ==> after.said().last() is Status,
{
}

} // verus!
