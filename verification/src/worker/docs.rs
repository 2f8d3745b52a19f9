//! Documents and images: from the cache where it has them, else from the network.
use vstd::prelude::*;

use crate::app::content::source_key;
use crate::atp::{parsed_at_uri, reply_view, AtUri, SpecAtUri, Transport};
use crate::auth_provider::AuthProvider;
use crate::model::{Document, ImageSource, RichDoc, SpecBlock, SpecDocument, SpecImageSource};
use crate::read::{
    blob_fetched, bytes_result, document_fetched, get_blob, get_document, pds_resolved,
    read_result, resolve_pds, text_result, ReadError, SpecRead, SpecReadError,
};
use crate::store::{FrontendStore, Store, StoreState};
use crate::text::{join2, owned};
use crate::url::{cdn_image_url, cdn_url};
use crate::worker::tasks::{cache_held, WorkError, Worker};
use crate::worker::{DecodedImage, FromWorker, SpecEvent};

verus! {

// --- Documents --------------------------------------------------------------------

/// `r` is what fetching and decoding a document came to, its server resolved first.
pub open spec fn document_read<T: Transport>(
    t: T,
    uri: SpecAtUri,
    r: Result<SpecRead, SpecReadError>,
) -> bool {
    exists|pds: Result<Seq<char>, SpecReadError>|
        {
            &&& #[trigger] pds_resolved(t, uri.did, pds)
            &&& match pds {
                Err(e) => r == Err::<SpecRead, SpecReadError>(e),
                Ok(p) => document_fetched(t, uri, p, r),
            }
        }
}

/// What is reported of a document.
pub open spec fn doc_event(
    uri: Seq<char>,
    meta: SpecDocument,
    body: Seq<SpecBlock>,
    from_cache: bool,
) -> SpecEvent {
    SpecEvent::Doc { uri, body, publishing_platform: meta.publishing_platform, from_cache }
}

/// A document was fetched: it is kept, marked read and reported, or the failure is the
/// network's and nothing changed.
pub open spec fn document_taken<T: Transport, E>(
    t: T,
    s: StoreState,
    after: StoreState,
    said: Seq<SpecEvent>,
    said_after: Seq<SpecEvent>,
    uri: Seq<char>,
    read: Result<SpecRead, SpecReadError>,
    r: Result<(), WorkError<E>>,
) -> bool {
    match parsed_at_uri(uri) {
        None => {
            &&& r matches Err(WorkError::Message(m)) && m@ == "malformed document AT-URI"@
            &&& after == s
            &&& said_after == said
        },
        Some(at) => {
            &&& document_read(t, at, read)
            &&& match (r, read) {
                (Ok(_), Ok((meta, body))) => {
                    &&& after == s.with_document(meta, Some(body)).with_read(uri, true)
                    &&& said_after == said.push(doc_event(uri, meta, body, false))
                },
                (Err(WorkError::Read(e)), Err(f)) => e@ == f && after == s && said_after == said,
                (Err(WorkError::Store(_)), Ok(_)) => said_after == said,
                _ => false,
            }
        },
    }
}

/// The document `uri` is held with its body.
pub open spec fn has_body(s: StoreState, uri: Seq<char>) -> bool {
    s.documents.dom().contains(uri) && s.documents[uri].body is Some
}

impl<T: Transport, S: FrontendStore, A: AuthProvider> Worker<T, S, A> {
    /// A document was fetched, kept, marked read and reported, or why not.
    #[verifier::opaque]
    pub open spec fn doc_fetched(
        &self,
        after: &Self,
        uri: Seq<char>,
        r: Result<(), WorkError<S::Error>>,
    ) -> bool {
        &&& after.same_world(self)
        &&& after.account == self.account
        &&& exists|read: Result<SpecRead, SpecReadError>| #[trigger]
            document_taken(
                self.transport,
                self.state(),
                after.state(),
                self.said(),
                after.said(),
                uri,
                read,
                r,
            )
    }

    /// A document was reported and marked read: from the cache if its body is there, else
    /// from the network.
    #[verifier::opaque]
    pub open spec fn doc_opened(
        &self,
        after: &Self,
        uri: Seq<char>,
        r: Result<(), WorkError<S::Error>>,
    ) -> bool {
        &&& after.same_world(self)
        &&& after.account == self.account
        &&& if has_body(self.state(), uri) {
            let d = self.state().documents[uri];
            match r {
                Ok(_) => {
                    &&& after.state() == self.state().with_read(uri, true)
                    &&& after.said() == self.said().push(
                        doc_event(uri, d.meta, d.body->0, true),
                    )
                },
                Err(e) => e is Store && after.said() == self.said(),
            }
        } else {
            (r matches Err(WorkError::Store(_)) && after.said() == self.said())
                || self.doc_fetched(after, uri, r)
        }
    }

    /// Fetch a document, keep it, mark it read and report it.
    pub fn fetch_doc(&mut self, doc_uri: &str) -> (r: Result<(), WorkError<S::Error>>)
        ensures
            S::reliable() ==> cache_held(r),
            old(self).doc_fetched(final(self), doc_uri@, r),
    {
        proof {
            reveal(Worker::doc_fetched);
        }
        let ghost t = self.transport;
        let ghost s = self.state();
        let ghost said = self.said();
        let uri = match AtUri::parse(doc_uri) {
            Some(u) => u,
            None => {
                let r = Err(WorkError::Message(owned("malformed document AT-URI")));
                assert(document_taken::<T, S::Error>(
                    t,
                    s,
                    self.state(),
                    said,
                    self.said(),
                    doc_uri@,
                    Err(SpecReadError::Parse(Seq::empty())),
                    r,
                ));
                return r;
            },
        };
        let pds = resolve_pds(&self.transport, uri.did.as_str());
        let ghost server = text_result(pds);
        assert(pds_resolved(t, uri@.did, server));
        let pds = match pds {
            Ok(p) => p,
            Err(e) => {
                let ghost read = Err::<SpecRead, SpecReadError>(e@);
                assert(document_read(t, uri@, read));
                let r = Err(WorkError::Read(e));
                assert(document_taken::<T, S::Error>(
                    t,
                    s,
                    self.state(),
                    said,
                    self.said(),
                    doc_uri@,
                    read,
                    r,
                ));
                return r;
            },
        };
        let got = get_document(&self.transport, &self.registry, &uri, pds.as_str());
        let ghost read = read_result(got);
        assert(document_read(t, uri@, read));
        let r = match got {
            Ok((meta, body)) => self.keep_doc(doc_uri, meta, body),
            Err(e) => Err(WorkError::Read(e)),
        };
        assert(document_taken(t, s, self.state(), said, self.said(), doc_uri@, read, r));
        r
    }

    /// Keep a document with its body, mark it read and report it.
    fn keep_doc(&mut self, doc_uri: &str, meta: Document, body: RichDoc) -> (r: Result<
        (),
        WorkError<S::Error>,
    >)
        ensures
            S::reliable() ==> cache_held(r),
            final(self).same_world(old(self)),
            final(self).account == old(self).account,
            r is Ok ==> {
                &&& final(self).state() == old(self).state().with_document(
                    meta@,
                    Some(body@),
                ).with_read(doc_uri@, true)
                &&& final(self).said() == old(self).said().push(
                    doc_event(doc_uri@, meta@, body@, false),
                )
            },
            r matches Err(e) ==> e is Store && final(self).said() == old(self).said(),
    {
        match self.store.upsert_document(&meta, Some(&body)) {
            Ok(_) => {},
            Err(e) => return Err(WorkError::Store(e)),
        }
        match self.store.set_read(doc_uri, true) {
            Ok(_) => {},
            Err(e) => return Err(WorkError::Store(e)),
        }
        self.send(
            FromWorker::Doc {
                uri: owned(doc_uri),
                body,
                publishing_platform: meta.publishing_platform,
                from_cache: false,
            },
        );
        Ok(())
    }

    /// Report a document and mark it read: from the cache if its body is there, else
    /// from the network.
    pub fn open_doc(&mut self, doc_uri: &str) -> (r: Result<(), WorkError<S::Error>>)
        ensures
            S::reliable() ==> cache_held(r),
            old(self).doc_opened(final(self), doc_uri@, r),
    {
        proof {
            reveal(Worker::doc_opened);
            reveal(Worker::doc_fetched);
        }
        let stored = match self.store.document(doc_uri) {
            Ok(d) => d,
            Err(e) => return Err(WorkError::Store(e)),
        };
        if let Some(d) = stored {
            let platform = d.meta.publishing_platform;
            if let Some(body) = d.body {
                match self.store.set_read(doc_uri, true) {
                    Ok(_) => {},
                    Err(e) => return Err(WorkError::Store(e)),
                }
                self.send(
                    FromWorker::Doc {
                        uri: owned(doc_uri),
                        body,
                        publishing_platform: platform,
                        from_cache: true,
                    },
                );
                return Ok(());
            }
        }
        self.fetch_doc(doc_uri)
    }
}

// --- Image bytes ------------------------------------------------------------------

/// Why bytes could not be had, the cache aside.
pub enum SpecFault {
    Read(SpecReadError),
    Message(Seq<char>),
}

/// An error by its view; `None` where the cache failed.
pub open spec fn fault_of<E>(e: WorkError<E>) -> Option<SpecFault> {
    match e {
        WorkError::Read(e) => Some(SpecFault::Read(e@)),
        WorkError::Message(m) => Some(SpecFault::Message(m@)),
        WorkError::Store(_) => None,
    }
}

/// Bytes or why not; `None` where the cache failed.
pub open spec fn bytes_outcome<E>(r: Result<Vec<u8>, WorkError<E>>) -> Option<
    Result<Seq<u8>, SpecFault>,
> {
    match r {
        Ok(b) => Some(Ok(b@)),
        Err(e) => match fault_of(e) {
            Some(f) => Some(Err(f)),
            None => None,
        },
    }
}

/// The bytes at an address, as the reply has them.
pub open spec fn url_bytes(reply: Result<Seq<u8>, Seq<char>>) -> Result<Seq<u8>, SpecFault> {
    match reply {
        Ok(b) => Ok(b),
        Err(e) => Err(SpecFault::Message(e)),
    }
}

/// `server` is the server of a repository: the one that is known, or what resolving it
/// came to.
pub open spec fn server_known<T: Transport>(
    t: T,
    known: Map<Seq<char>, Seq<char>>,
    did: Seq<char>,
    server: Result<Seq<char>, SpecReadError>,
) -> bool {
    if known.dom().contains(did) {
        server == Ok::<Seq<char>, SpecReadError>(known[did])
    } else {
        pds_resolved(t, did, server)
    }
}

/// The servers that are known once the server of a repository was asked for: a server that
/// was found is one of them.
pub open spec fn with_server(
    known: Map<Seq<char>, Seq<char>>,
    did: Seq<char>,
    server: Result<Seq<char>, SpecReadError>,
) -> Map<Seq<char>, Seq<char>> {
    match server {
        Ok(pds) => known.insert(did, pds),
        Err(_) => known,
    }
}

/// No server was learned but that of a repository, as it was resolved.
pub open spec fn servers_learned<T: Transport>(
    t: T,
    known: Map<Seq<char>, Seq<char>>,
    learned: Map<Seq<char>, Seq<char>>,
    did: Seq<char>,
) -> bool {
    ||| learned == known
    ||| exists|server: Result<Seq<char>, SpecReadError>| #[trigger]
        server_known(t, known, did, server) && learned == with_server(known, did, server)
}

/// No server was learned but that of the repository a blob is in.
pub open spec fn source_learned<T: Transport>(
    t: T,
    known: Map<Seq<char>, Seq<char>>,
    learned: Map<Seq<char>, Seq<char>>,
    source: SpecImageSource,
) -> bool {
    match source {
        SpecImageSource::Url(_) => learned == known,
        SpecImageSource::Blob { did, .. } => servers_learned(t, known, learned, did),
    }
}

/// The bytes at an address were fetched.
pub open spec fn url_fetched<T: Transport>(
    t: T,
    url: Seq<char>,
    got: Result<Seq<u8>, SpecFault>,
) -> bool {
    exists|reply: Result<Seq<u8>, Seq<char>>| #[trigger]
        t.answers(url, reply) && got == url_bytes(reply)
}

/// A blob was fetched from a server.
pub open spec fn blob_from<T: Transport>(
    t: T,
    pds: Seq<char>,
    did: Seq<char>,
    cid: Seq<char>,
    got: Result<Seq<u8>, SpecFault>,
) -> bool {
    exists|blob: Result<Seq<u8>, SpecReadError>| #[trigger]
        blob_fetched(t, pds, did, cid, blob) && got == (match blob {
            Ok(b) => Ok(b),
            Err(e) => Err(SpecFault::Read(e)),
        })
}

/// A blob was fetched from its repository's server, which is known from then on.
pub open spec fn blob_had<T: Transport>(
    t: T,
    known: Map<Seq<char>, Seq<char>>,
    learned: Map<Seq<char>, Seq<char>>,
    did: Seq<char>,
    cid: Seq<char>,
    got: Result<Seq<u8>, SpecFault>,
) -> bool {
    exists|server: Result<Seq<char>, SpecReadError>|
        {
            &&& #[trigger] server_known(t, known, did, server)
            &&& learned == with_server(known, did, server)
            &&& match server {
                Err(e) => got == Err::<Seq<u8>, SpecFault>(SpecFault::Read(e)),
                Ok(pds) => blob_from(t, pds, did, cid, got),
            }
        }
}

/// Bytes that are not in the cache were fetched.
pub open spec fn bytes_fetched<T: Transport>(
    t: T,
    known: Map<Seq<char>, Seq<char>>,
    learned: Map<Seq<char>, Seq<char>>,
    source: SpecImageSource,
    got: Result<Seq<u8>, SpecFault>,
) -> bool {
    match source {
        SpecImageSource::Url(url) => url_fetched(t, url, got) && learned == known,
        SpecImageSource::Blob { did, cid } => blob_had(t, known, learned, did, cid, got),
    }
}

/// Bytes of an image: those in the cache, or fetched and kept there.
pub open spec fn bytes_had<T: Transport>(
    t: T,
    known: Map<Seq<char>, Seq<char>>,
    learned: Map<Seq<char>, Seq<char>>,
    s: StoreState,
    after: StoreState,
    source: SpecImageSource,
    got: Result<Seq<u8>, SpecFault>,
) -> bool {
    let key = source_key(source);
    if s.blobs.dom().contains(key) {
        got == Ok::<Seq<u8>, SpecFault>(s.blobs[key]) && after == s && learned == known
    } else {
        &&& bytes_fetched(t, known, learned, source, got)
        &&& after == (match got {
            Ok(b) => s.with_blob(key, b),
            Err(_) => s,
        })
    }
}

impl<T: Transport, S: FrontendStore, A: AuthProvider> Worker<T, S, A> {
    /// The bytes at an address, from the cache or fetched and kept.
    fn cached_url(&mut self, url: &str) -> (r: Result<Vec<u8>, WorkError<S::Error>>)
        ensures
            S::reliable() ==> cache_held(r),
            final(self).same_but_store(old(self)),
            bytes_outcome(r) matches Some(got) ==> bytes_had(
                old(self).transport,
                old(self).servers(),
                final(self).servers(),
                old(self).state(),
                final(self).state(),
                SpecImageSource::Url(url@),
                got,
            ),
    {
        match self.store.blob(url) {
            Ok(Some(b)) => return Ok(b),
            Ok(None) => {},
            Err(e) => return Err(WorkError::Store(e)),
        }
        let reply = self.transport.get(url);
        assert(self.transport.answers(url@, reply_view(reply)));
        match reply {
            Ok(b) => match self.store.put_blob(url, b.as_slice()) {
                Ok(_) => Ok(b),
                Err(e) => Err(WorkError::Store(e)),
            },
            Err(e) => Err(WorkError::Message(e)),
        }
    }

    /// The server of a repository, resolved on first use.
    pub(crate) fn pds_for(&mut self, did: &str) -> (r: Result<String, ReadError>)
        ensures
            final(self).same_seams(old(self)),
            final(self).store == old(self).store,
            final(self).account == old(self).account,
            final(self).events == old(self).events,
            server_known(
                old(self).transport,
                old(self).servers(),
                did@,
                text_result(r),
            ),
            final(self).servers() == with_server(old(self).servers(), did@, text_result(r)),
    {
        let ghost before = self.servers();
        if let Some(p) = self.pds_cache.get(did) {
            let pds = p.clone();
            assert(before.insert(did@, pds@) =~= before);
            return Ok(pds);
        }
        match resolve_pds(&self.transport, did) {
            Ok(pds) => {
                let ghost raw = self.pds_cache@;
                self.pds_cache.insert(owned(did), pds.clone());
                assert(self.servers() =~= before.insert(did@, pds@));
                Ok(pds)
            },
            Err(e) => Err(e),
        }
    }

    fn blob_bytes(&mut self, did: &str, cid: &str) -> (r: Result<Vec<u8>, WorkError<S::Error>>)
        ensures
            S::reliable() ==> cache_held(r),
            final(self).same_seams(old(self)),
            servers_learned(
                old(self).transport,
                old(self).servers(),
                final(self).servers(),
                did@,
            ),
            final(self).account == old(self).account,
            final(self).events == old(self).events,
            bytes_outcome(r) matches Some(got) ==> bytes_had(
                old(self).transport,
                old(self).servers(),
                final(self).servers(),
                old(self).state(),
                final(self).state(),
                (SpecImageSource::Blob { did: did@, cid: cid@ }),
                got,
            ),
    {
        match self.store.blob(cid) {
            Ok(Some(b)) => return Ok(b),
            Ok(None) => {},
            Err(e) => return Err(WorkError::Store(e)),
        }
        let ghost known = self.servers();
        let ghost t = self.transport;
        let ghost source = SpecImageSource::Blob { did: did@, cid: cid@ };
        let server = self.pds_for(did);
        let ghost found = text_result(server);
        assert(server_known(t, known, did@, found));
        let ghost learned = self.servers();
        let pds = match server {
            Ok(p) => p,
            Err(e) => {
                assert(bytes_fetched(
                    t,
                    known,
                    learned,
                    source,
                    Err::<Seq<u8>, SpecFault>(SpecFault::Read(e@)),
                ));
                return Err(WorkError::Read(e));
            },
        };
        assert(found == Ok::<Seq<char>, SpecReadError>(pds@));
        let got = get_blob(&self.transport, pds.as_str(), did, cid);
        let ghost blob = bytes_result(got);
        assert(blob_fetched(t, found->Ok_0, did@, cid@, blob));
        match got {
            Ok(b) => {
                assert(blob_from(t, found->Ok_0, did@, cid@, Ok::<Seq<u8>, SpecFault>(b@)));
                assert(bytes_fetched(t, known, learned, source, Ok::<Seq<u8>, SpecFault>(b@)));
                match self.store.put_blob(cid, b.as_slice()) {
                    Ok(_) => Ok(b),
                    Err(e) => Err(WorkError::Store(e)),
                }
            },
            Err(e) => {
                assert(blob_from(
                    t,
                    found->Ok_0,
                    did@,
                    cid@,
                    Err::<Seq<u8>, SpecFault>(SpecFault::Read(e@)),
                ));
                assert(bytes_fetched(
                    t,
                    known,
                    learned,
                    source,
                    Err::<Seq<u8>, SpecFault>(SpecFault::Read(e@)),
                ));
                Err(WorkError::Read(e))
            },
        }
    }

    /// The bytes of an image as it was published, from the cache or fetched and kept.
    pub fn image_bytes(&mut self, source: &ImageSource) -> (r: Result<
        Vec<u8>,
        WorkError<S::Error>,
    >)
        ensures
            S::reliable() ==> cache_held(r),
            final(self).same_seams(old(self)),
            source_learned(
                old(self).transport,
                old(self).servers(),
                final(self).servers(),
                source@,
            ),
            final(self).account == old(self).account,
            final(self).events == old(self).events,
            bytes_outcome(r) matches Some(got) ==> bytes_had(
                old(self).transport,
                old(self).servers(),
                final(self).servers(),
                old(self).state(),
                final(self).state(),
                source@,
                got,
            ),
    {
        match source {
            ImageSource::Blob { did, cid } => self.blob_bytes(did.as_str(), cid.as_str()),
            ImageSource::Url(url) => self.cached_url(url.as_str()),
        }
    }
}

// --- Images -----------------------------------------------------------------------
//
// Decoding is the shell's. The bytes come from any server, and on bytes made to break it a
// decoder can panic where overflow is checked; only the shell can hold that off. So the
// worker hands out the bytes of an image and is told what decoding them came to.

/// The bytes of an image that was asked for, to be decoded.
#[derive(Debug, PartialEq)]
pub struct Undecoded {
    pub key: String,
    pub source: ImageSource,
    pub bytes: Vec<u8>,
}

/// What is reported of bytes that are no image.
pub open spec fn decode_failed(message: Seq<char>) -> SpecEvent {
    SpecEvent::Status("image decode failed: "@ + message)
}

/// Bytes to decode, by their values.
pub open spec fn opt_bytes(o: Option<Vec<u8>>) -> Option<Seq<u8>> {
    match o {
        Some(b) => Some(b@),
        None => None,
    }
}

/// The address that serves an image as a JPEG was asked: its bytes are to be decoded next,
/// or there are none and the failure of the first bytes is reported.
pub open spec fn asked_again<T: Transport>(
    t: T,
    known: Map<Seq<char>, Seq<char>>,
    s: StoreState,
    after: StoreState,
    url: Seq<char>,
    message: Seq<char>,
    said: Seq<SpecEvent>,
    said_after: Seq<SpecEvent>,
    next: Option<Seq<u8>>,
) -> bool {
    exists|got: Result<Seq<u8>, SpecFault>|
        {
            &&& #[trigger] bytes_had(t, known, known, s, after, SpecImageSource::Url(url), got)
            &&& match got {
                Ok(b) => next == Some(b) && said_after == said,
                Err(_) => next is None && said_after == said.push(decode_failed(message)),
            }
        }
}

impl<T: Transport, S: FrontendStore, A: AuthProvider> Worker<T, S, A> {
    /// The bytes of an image were had, or why not. Nothing is reported yet.
    #[verifier::opaque]
    pub open spec fn image_loaded(
        &self,
        after: &Self,
        key: Seq<char>,
        source: SpecImageSource,
        r: Result<Undecoded, WorkError<S::Error>>,
    ) -> bool {
        &&& after.same_seams(self)
        &&& source_learned(self.transport, self.servers(), after.servers(), source)
        &&& after.account == self.account
        &&& after.said() == self.said()
        &&& match r {
            Ok(u) => u.key@ == key && u.source@ == source && bytes_had(
                self.transport,
                self.servers(),
                after.servers(),
                self.state(),
                after.state(),
                source,
                Ok::<Seq<u8>, SpecFault>(u.bytes@),
            ),
            Err(e) => fault_of(e) matches Some(f) ==> bytes_had(
                self.transport,
                self.servers(),
                after.servers(),
                self.state(),
                after.state(),
                source,
                Err::<Seq<u8>, SpecFault>(f),
            ),
        }
    }

    /// Have the bytes of an image, from the cache or fetched and kept, to be decoded.
    pub fn load_image(&mut self, key: String, source: ImageSource) -> (r: Result<
        Undecoded,
        WorkError<S::Error>,
    >)
        ensures
            S::reliable() ==> cache_held(r),
            old(self).image_loaded(final(self), key@, source@, r),
    {
        proof {
            reveal(Worker::image_loaded);
        }
        match self.image_bytes(&source) {
            Ok(bytes) => Ok(Undecoded { key, source, bytes }),
            Err(e) => Err(e),
        }
    }

    /// What decoding the bytes of an image came to was taken in. An image is reported as it
    /// was decoded. Otherwise it is asked for once more, as a JPEG; where it cannot be had so
    /// the failure is reported.
    pub open spec fn decoded_taken(
        &self,
        after: &Self,
        key: Seq<char>,
        source: SpecImageSource,
        decoded: Result<DecodedImage, String>,
        next: Option<Seq<u8>>,
    ) -> bool {
        &&& after.same_world(self)
        &&& after.account == self.account
        &&& match decoded {
            Ok(i) => {
                &&& next is None
                &&& after.store == self.store
                &&& after.said() == self.said().push(SpecEvent::Image { key, image: i@ })
            },
            Err(m) => match cdn_url(source) {
                None => {
                    &&& next is None
                    &&& after.store == self.store
                    &&& after.said() == self.said().push(decode_failed(m@))
                },
                Some(url) => asked_again(
                    self.transport,
                    self.servers(),
                    self.state(),
                    after.state(),
                    url,
                    m@,
                    self.said(),
                    after.said(),
                    next,
                ) || !S::reliable() && next is None && after.said() == self.said().push(
                    decode_failed(m@),
                ),
            },
        }
    }

    /// Take in what decoding the bytes of an image came to; the bytes to decode next, where
    /// it is to be tried once more.
    pub fn image_decoded(
        &mut self,
        key: String,
        source: &ImageSource,
        decoded: Result<DecodedImage, String>,
    ) -> (next: Option<Vec<u8>>)
        ensures
            old(self).decoded_taken(final(self), key@, source@, decoded, opt_bytes(next)),
    {
        let ghost t = self.transport;
        let ghost known = self.servers();
        let ghost s = self.state();
        let ghost said = self.said();
        let message = match decoded {
            Ok(image) => {
                self.send(FromWorker::Image { key, image });
                return None;
            },
            Err(m) => m,
        };
        match cdn_image_url(source) {
            None => {
                self.send(FromWorker::Status(join2("image decode failed: ", message.as_str())));
                None
            },
            Some(url) => {
                let got = self.cached_url(url.as_str());
                let ghost outcome = bytes_outcome(got);
                let ghost settled = self.state();
                match got {
                    Ok(bytes) => {
                        let ghost had: Result<Seq<u8>, SpecFault> = Ok(bytes@);
                        assert(bytes_had(
                            t,
                            known,
                            known,
                            s,
                            settled,
                            SpecImageSource::Url(url@),
                            had,
                        ));
                        Some(bytes)
                    },
                    Err(_) => {
                        self.send(
                            FromWorker::Status(join2("image decode failed: ", message.as_str())),
                        );
                        proof {
                            if outcome is Some {
                                assert(self.state() == settled);
                                assert(bytes_had(
                                    t,
                                    known,
                                    known,
                                    s,
                                    self.state(),
                                    SpecImageSource::Url(url@),
                                    outcome->0,
                                ));
                                assert(asked_again(
                                    t,
                                    known,
                                    s,
                                    self.state(),
                                    url@,
                                    message@,
                                    said,
                                    self.said(),
                                    None,
                                ));
                            }
                        }
                        None
                    },
                }
            },
        }
    }

    /// What decoding the second bytes came to was taken in: the image is reported as it was
    /// decoded, or that the first bytes, of which `message` speaks, did not decode.
    pub open spec fn retry_taken(
        &self,
        after: &Self,
        key: Seq<char>,
        message: Seq<char>,
        decoded: Result<DecodedImage, String>,
    ) -> bool {
        &&& after.same_world(self)
        &&& after.account == self.account
        &&& after.store == self.store
        &&& after.said() == self.said().push(
            match decoded {
                Ok(i) => SpecEvent::Image { key, image: i@ },
                Err(_) => decode_failed(message),
            },
        )
    }

    /// Take in what decoding the second bytes of an image came to.
    pub fn image_retried(
        &mut self,
        key: String,
        message: &str,
        decoded: Result<DecodedImage, String>,
    )
        ensures
            old(self).retry_taken(final(self), key@, message@, decoded),
    {
        match decoded {
            Ok(image) => self.send(FromWorker::Image { key, image }),
            Err(_) => self.send(FromWorker::Status(join2("image decode failed: ", message))),
        }
    }
}

/// Of an image whose bytes were had, one thing is reported: the first picture that was
/// decoded, just as it was, or that the first bytes did not decode.
pub proof fn law_an_image_is_reported_once<T: Transport, S: FrontendStore, A: AuthProvider>(
    before: Worker<T, S, A>,
    mid: Worker<T, S, A>,
    after: Worker<T, S, A>,
    key: Seq<char>,
    source: SpecImageSource,
    first: Result<DecodedImage, String>,
    next: Option<Seq<u8>>,
    second: Result<DecodedImage, String>,
)
    requires
        before.decoded_taken(&mid, key, source, first, next),
        match next {
            Some(_) => first is Err && mid.retry_taken(&after, key, first->Err_0@, second),
            None => after == mid,
        },
    ensures
        after.said() == before.said().push(
            match (first, next, second) {
                (Ok(i), _, _) => SpecEvent::Image { key, image: i@ },
                (Err(_), Some(_), Ok(i)) => SpecEvent::Image { key, image: i@ },
                (Err(m), _, _) => decode_failed(m@),
            },
        ),
{
}

} // verus!
