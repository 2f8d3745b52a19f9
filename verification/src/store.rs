//! The cache contract: what a store holds, and what each operation does to it.
//!
//! Offline reading goes through these traits rather than a concrete database. The
//! contracts speak of the store's abstract [`StoreState`]; a store may fail, and then
//! nothing is promised.
use vstd::prelude::*;

use crate::model::{
    documents_view, opt_view, Document, Publication, RichDoc, SpecBlock, SpecDocument,
    SpecPublication,
};
use crate::search::terms;
use crate::text::{strings_view, text_less};

verus! {

/// A cached document: its metadata, its decoded body if there is one, and whether it
/// was read.
#[derive(Debug, PartialEq)]
pub struct StoredDoc {
    pub meta: Document,
    pub body: Option<RichDoc>,
    pub read: bool,
}

/// [`StoredDoc`] over sequences.
pub struct SpecStoredDoc {
    pub meta: SpecDocument,
    pub body: Option<Seq<SpecBlock>>,
    pub read: bool,
}

/// An optional body by its view.
pub open spec fn opt_body(o: Option<RichDoc>) -> Option<Seq<SpecBlock>> {
    match o {
        Some(b) => Some(b@),
        None => None,
    }
}

impl View for StoredDoc {
    type V = SpecStoredDoc;

    open spec fn view(&self) -> SpecStoredDoc {
        SpecStoredDoc { meta: self.meta@, body: opt_body(self.body), read: self.read }
    }
}

impl Clone for StoredDoc {
    fn clone(&self) -> (r: Self)
        ensures
            r@ == self@,
    {
        StoredDoc {
            meta: self.meta.clone(),
            body: match &self.body {
                Some(b) => Some(b.clone()),
                None => None,
            },
            read: self.read,
        }
    }
}

/// What a store holds.
pub struct StoreState {
    pub publications: Map<Seq<char>, SpecPublication>,
    pub documents: Map<Seq<char>, SpecStoredDoc>,
    pub blobs: Map<Seq<char>, Seq<u8>>,
    /// By publication: the newest document seen.
    pub sync_cursors: Map<Seq<char>, Seq<char>>,
    /// By repository: where to resume for older documents; empty once there are none.
    pub older_cursors: Map<Seq<char>, Seq<char>>,
    /// By publication: the key of the subscription record; empty if not known.
    pub follows: Map<Seq<char>, Seq<char>>,
    pub show_images: bool,
}

impl StoreState {
    /// Nothing held, images shown.
    pub open spec fn empty() -> StoreState {
        StoreState {
            publications: Map::empty(),
            documents: Map::empty(),
            blobs: Map::empty(),
            sync_cursors: Map::empty(),
            older_cursors: Map::empty(),
            follows: Map::empty(),
            show_images: true,
        }
    }

    /// With a publication put in.
    pub open spec fn with_publication(self, p: SpecPublication) -> StoreState {
        StoreState { publications: self.publications.insert(p.uri, p), ..self }
    }

    /// The document `uri` is held and was read.
    pub open spec fn is_read(self, uri: Seq<char>) -> bool {
        self.documents.dom().contains(uri) && self.documents[uri].read
    }

    /// With a document put in, which keeps its read state.
    pub open spec fn with_document(
        self,
        meta: SpecDocument,
        body: Option<Seq<SpecBlock>>,
    ) -> StoreState {
        StoreState {
            documents: self.documents.insert(
                meta.uri,
                SpecStoredDoc { meta, body, read: self.is_read(meta.uri) },
            ),
            ..self
        }
    }

    /// With a held document marked; nothing happens to one that is not held.
    pub open spec fn with_read(self, uri: Seq<char>, read: bool) -> StoreState {
        if self.documents.dom().contains(uri) {
            StoreState {
                documents: self.documents.insert(
                    uri,
                    SpecStoredDoc { read, ..self.documents[uri] },
                ),
                ..self
            }
        } else {
            self
        }
    }

    /// With a blob put in.
    pub open spec fn with_blob(self, cid: Seq<char>, bytes: Seq<u8>) -> StoreState {
        StoreState { blobs: self.blobs.insert(cid, bytes), ..self }
    }

    /// With a sync cursor set.
    pub open spec fn with_sync_cursor(self, publication: Seq<char>, cursor: Seq<char>) -> StoreState {
        StoreState { sync_cursors: self.sync_cursors.insert(publication, cursor), ..self }
    }

    /// With a cursor for older documents set.
    pub open spec fn with_older_cursor(self, did: Seq<char>, cursor: Seq<char>) -> StoreState {
        StoreState { older_cursors: self.older_cursors.insert(did, cursor), ..self }
    }

    /// With a follow; one that is there keeps its record key.
    pub open spec fn with_follow(self, publication: Seq<char>) -> StoreState {
        if self.follows.dom().contains(publication) {
            self
        } else {
            StoreState { follows: self.follows.insert(publication, Seq::empty()), ..self }
        }
    }

    /// Without a follow.
    pub open spec fn without_follow(self, publication: Seq<char>) -> StoreState {
        StoreState { follows: self.follows.remove(publication), ..self }
    }

    /// With the record key of a follow set.
    pub open spec fn with_follow_rkey(self, publication: Seq<char>, rkey: Seq<char>) -> StoreState {
        StoreState { follows: self.follows.insert(publication, rkey), ..self }
    }

    /// The record key of a follow, if it is known.
    pub open spec fn follow_rkey(self, publication: Seq<char>) -> Option<Seq<char>> {
        if self.follows.dom().contains(publication) && self.follows[publication].len() > 0 {
            Some(self.follows[publication])
        } else {
            None
        }
    }

    /// The documents of a publication.
    pub open spec fn of_publication(self, publication: Seq<char>) -> Set<Seq<char>> {
        Set::new(
            |uri: Seq<char>|
                self.documents.dom().contains(uri) && self.documents[uri].meta.publication
                    == publication,
        )
    }

    /// The documents of a publication that were read, or those that were not.
    pub open spec fn of_publication_read(self, publication: Seq<char>, read: bool) -> Set<
        Seq<char>,
    > {
        Set::new(
            |uri: Seq<char>|
                self.documents.dom().contains(uri) && self.documents[uri].meta.publication
                    == publication && self.documents[uri].read == read,
        )
    }

    /// The document `uri` is held and its text has every term of `query`.
    pub open spec fn matches(self, uri: Seq<char>, query: Seq<char>) -> bool {
        self.documents.dom().contains(uri) && (match self.documents[uri].meta.text_content {
            Some(text) => has_terms(text, query),
            None => false,
        })
    }

    /// The documents that a query finds: none for a query without terms.
    pub open spec fn found(self, query: Seq<char>) -> Set<Seq<char>> {
        Set::new(|uri: Seq<char>| terms(query).len() > 0 && self.matches(uri, query))
    }

    /// Every publication and document stands under its own URI.
    pub open spec fn keyed(self) -> bool {
        &&& forall|k: Seq<char>|
            self.publications.dom().contains(k) ==> (#[trigger] self.publications[k]).uri == k
        &&& forall|k: Seq<char>|
            self.documents.dom().contains(k) ==> (#[trigger] self.documents[k]).meta.uri == k
    }
}

/// A text has every term of a query.
pub open spec fn has_terms(text: Seq<char>, query: Seq<char>) -> bool {
    forall|i: int|
        0 <= i < terms(query).len() ==> terms(text).contains(#[trigger] terms(query)[i])
}

/// What a map holds under a key.
pub open spec fn lookup<V>(m: Map<Seq<char>, V>, key: Seq<char>) -> Option<V> {
    if m.dom().contains(key) {
        Some(m[key])
    } else {
        None
    }
}

/// `keys` lists a set, each member once.
pub open spec fn enumerates(keys: Seq<Seq<char>>, set: Set<Seq<char>>) -> bool {
    &&& keys.no_duplicates()
    &&& forall|k: Seq<char>| #[trigger] keys.contains(k) <==> set.contains(k)
}

/// Newest first, by the time of publication.
pub open spec fn newest_first(docs: Seq<SpecDocument>) -> bool {
    forall|i: int, j: int|
        0 <= i < j < docs.len() ==> !text_less(docs[i].published_at, docs[j].published_at)
}

/// `docs` are the documents that the set names, each once.
pub open spec fn are_documents(
    s: StoreState,
    set: Set<Seq<char>>,
    docs: Seq<SpecDocument>,
) -> bool {
    exists|keys: Seq<Seq<char>>|
        {
            &&& #[trigger] enumerates(keys, set)
            &&& docs.len() == keys.len()
            &&& forall|i: int|
                0 <= i < docs.len() ==> #[trigger] docs[i] == s.documents[keys[i]].meta
        }
}

/// `uris` are the URIs of the documents that the set names, each once.
pub open spec fn are_uris(s: StoreState, set: Set<Seq<char>>, uris: Seq<Seq<char>>) -> bool {
    exists|keys: Seq<Seq<char>>|
        {
            &&& #[trigger] enumerates(keys, set)
            &&& uris.len() == keys.len()
            &&& forall|i: int|
                0 <= i < uris.len() ==> #[trigger] uris[i] == s.documents[keys[i]].meta.uri
        }
}

/// `n` is the number of members of a set.
pub open spec fn counts(set: Set<Seq<char>>, n: nat) -> bool {
    exists|keys: Seq<Seq<char>>| #[trigger] enumerates(keys, set) && n == keys.len()
}

/// An optional publication by its view.
pub open spec fn opt_publication(o: Option<Publication>) -> Option<SpecPublication> {
    match o {
        Some(p) => Some(p@),
        None => None,
    }
}

/// An optional stored document by its view.
pub open spec fn opt_stored(o: Option<StoredDoc>) -> Option<SpecStoredDoc> {
    match o {
        Some(d) => Some(d@),
        None => None,
    }
}

/// Optional bytes by their view.
pub open spec fn opt_blob(o: Option<Vec<u8>>) -> Option<Seq<u8>> {
    match o {
        Some(b) => Some(b@),
        None => None,
    }
}

/// An optional borrowed body by its view.
pub open spec fn opt_body_ref(o: Option<&RichDoc>) -> Option<Seq<SpecBlock>> {
    match o {
        Some(b) => Some(b@),
        None => None,
    }
}

/// A cache of publications, documents, read state and image blobs that works offline.
pub trait Store {
    type Error;

    /// What the store holds.
    spec fn state(&self) -> StoreState;

    /// Whether it never fails; nothing is promised of a store that does not say so.
    open spec fn reliable() -> bool {
        false
    }

    /// An error in words.
    fn describe(error: &Self::Error) -> String;

    fn upsert_publication(&mut self, publication: &Publication) -> (r: Result<(), Self::Error>)
        ensures
            Self::reliable() ==> r is Ok,
            r is Ok ==> final(self).state() == old(self).state().with_publication(publication@),
    ;

    fn publication(&self, uri: &str) -> (r: Result<Option<Publication>, Self::Error>)
        ensures
            Self::reliable() ==> r is Ok,
            r matches Ok(p) ==> opt_publication(p) == lookup(self.state().publications, uri@),
    ;

    /// Put a document in; one that was read stays read.
    fn upsert_document(&mut self, meta: &Document, body: Option<&RichDoc>) -> (r: Result<
        (),
        Self::Error,
    >)
        ensures
            Self::reliable() ==> r is Ok,
            r is Ok ==> final(self).state() == old(self).state().with_document(
                meta@,
                opt_body_ref(body),
            ),
    ;

    fn document(&self, uri: &str) -> (r: Result<Option<StoredDoc>, Self::Error>)
        ensures
            Self::reliable() ==> r is Ok,
            r matches Ok(d) ==> opt_stored(d) == lookup(self.state().documents, uri@),
    ;

    /// Documents of a publication, newest first.
    fn documents_for(&self, publication_uri: &str) -> (r: Result<Vec<Document>, Self::Error>)
        ensures
            Self::reliable() ==> r is Ok,
            r matches Ok(v) ==> newest_first(documents_view(v@)) && are_documents(
                self.state(),
                self.state().of_publication(publication_uri@),
                documents_view(v@),
            ),
    ;

    fn set_read(&mut self, uri: &str, read: bool) -> (r: Result<(), Self::Error>)
        ensures
            Self::reliable() ==> r is Ok,
            r is Ok ==> final(self).state() == old(self).state().with_read(uri@, read),
    ;

    /// The documents of a publication that were read.
    fn read_uris(&self, publication_uri: &str) -> (r: Result<Vec<String>, Self::Error>)
        ensures
            Self::reliable() ==> r is Ok,
            r matches Ok(v) ==> are_uris(
                self.state(),
                self.state().of_publication_read(publication_uri@, true),
                strings_view(v@),
            ),
    ;

    /// How many documents of a publication are unread.
    fn unread_count(&self, publication_uri: &str) -> (r: Result<usize, Self::Error>)
        ensures
            Self::reliable() ==> r is Ok,
            r matches Ok(n) ==> counts(
                self.state().of_publication_read(publication_uri@, false),
                n as nat,
            ),
    ;

    /// The documents whose text has every term of the query.
    fn search(&self, query: &str) -> (r: Result<Vec<String>, Self::Error>)
        ensures
            Self::reliable() ==> r is Ok,
            r matches Ok(v) ==> enumerates(strings_view(v@), self.state().found(query@)),
    ;

    fn put_blob(&mut self, cid: &str, bytes: &[u8]) -> (r: Result<(), Self::Error>)
        ensures
            Self::reliable() ==> r is Ok,
            r is Ok ==> final(self).state() == old(self).state().with_blob(cid@, bytes@),
    ;

    fn blob(&self, cid: &str) -> (r: Result<Option<Vec<u8>>, Self::Error>)
        ensures
            Self::reliable() ==> r is Ok,
            r matches Ok(b) ==> opt_blob(b) == lookup(self.state().blobs, cid@),
    ;

    fn sync_cursor(&self, publication_uri: &str) -> (r: Result<Option<String>, Self::Error>)
        ensures
            Self::reliable() ==> r is Ok,
            r matches Ok(c) ==> opt_view(c) == lookup(
                self.state().sync_cursors,
                publication_uri@,
            ),
    ;

    fn set_sync_cursor(&mut self, publication_uri: &str, cursor: &str) -> (r: Result<
        (),
        Self::Error,
    >)
        ensures
            Self::reliable() ==> r is Ok,
            r is Ok ==> final(self).state() == old(self).state().with_sync_cursor(
                publication_uri@,
                cursor@,
            ),
    ;

    /// Where to resume for older documents of a repository: `None` if it was never
    /// fetched, empty once there are none.
    fn older_cursor(&self, did: &str) -> (r: Result<Option<String>, Self::Error>)
        ensures
            Self::reliable() ==> r is Ok,
            r matches Ok(c) ==> opt_view(c) == lookup(self.state().older_cursors, did@),
    ;

    fn set_older_cursor(&mut self, did: &str, cursor: &str) -> (r: Result<(), Self::Error>)
        ensures
            Self::reliable() ==> r is Ok,
            r is Ok ==> final(self).state() == old(self).state().with_older_cursor(did@, cursor@),
    ;
}

/// The follow list and the image preference, which the frontend keeps in the cache.
pub trait FrontendStore: Store {
    /// The followed publications.
    fn follows(&self) -> (r: Result<Vec<String>, Self::Error>)
        ensures
            Self::reliable() ==> r is Ok,
            r matches Ok(v) ==> enumerates(strings_view(v@), self.state().follows.dom()),
    ;

    fn is_followed(&self, publication_uri: &str) -> (r: Result<bool, Self::Error>)
        ensures
            Self::reliable() ==> r is Ok,
            r matches Ok(b) ==> b == self.state().follows.dom().contains(publication_uri@),
    ;

    /// Follow; one that is followed keeps its record key.
    fn follow(&mut self, publication_uri: &str) -> (r: Result<(), Self::Error>)
        ensures
            Self::reliable() ==> r is Ok,
            r is Ok ==> final(self).state() == old(self).state().with_follow(publication_uri@),
    ;

    fn unfollow(&mut self, publication_uri: &str) -> (r: Result<(), Self::Error>)
        ensures
            Self::reliable() ==> r is Ok,
            r is Ok ==> final(self).state() == old(self).state().without_follow(publication_uri@),
    ;

    /// The record key of a follow, if it is known.
    fn follow_rkey(&self, publication_uri: &str) -> (r: Result<Option<String>, Self::Error>)
        ensures
            Self::reliable() ==> r is Ok,
            r matches Ok(k) ==> opt_view(k) == self.state().follow_rkey(publication_uri@),
    ;

    fn set_follow_rkey(&mut self, publication_uri: &str, rkey: &str) -> (r: Result<
        (),
        Self::Error,
    >)
        ensures
            Self::reliable() ==> r is Ok,
            r is Ok ==> final(self).state() == old(self).state().with_follow_rkey(
                publication_uri@,
                rkey@,
            ),
    ;

    fn show_images(&self) -> (r: Result<bool, Self::Error>)
        ensures
            Self::reliable() ==> r is Ok,
            r matches Ok(b) ==> b == self.state().show_images,
    ;

    fn set_show_images(&mut self, on: bool) -> (r: Result<(), Self::Error>)
        ensures
            Self::reliable() ==> r is Ok,
            r is Ok ==> final(self).state() == (StoreState {
                show_images: on,
                ..old(self).state()
            }),
    ;
}

/// Fetching a document again never marks it unread, nor another document either way.
pub proof fn law_refetch_keeps_read_state(
    s: StoreState,
    meta: SpecDocument,
    body: Option<Seq<SpecBlock>>,
    uri: Seq<char>,
)
    ensures
        s.with_document(meta, body).is_read(uri) == s.is_read(uri),
        s.with_publication(s.publications[uri]).is_read(uri) == s.is_read(uri),
{
}

/// Following again keeps the record key, and unfollowing forgets it.
pub proof fn law_follow_keeps_the_key(s: StoreState, publication: Seq<char>)
    ensures
        s.with_follow(publication).follow_rkey(publication) == s.follow_rkey(publication),
        s.with_follow(publication).follows.dom().contains(publication),
        s.without_follow(publication).follow_rkey(publication) is None,
        !s.without_follow(publication).follows.dom().contains(publication),
{
}

/// What is put in is read back: documents, blobs and cursors.
pub proof fn law_writes_read_back(
    s: StoreState,
    meta: SpecDocument,
    body: Option<Seq<SpecBlock>>,
    cid: Seq<char>,
    bytes: Seq<u8>,
    key: Seq<char>,
    cursor: Seq<char>,
)
    ensures
        lookup(s.with_document(meta, body).documents, meta.uri) == Some(
            SpecStoredDoc { meta, body, read: s.is_read(meta.uri) },
        ),
        lookup(s.with_blob(cid, bytes).blobs, cid) == Some(bytes),
        lookup(s.with_sync_cursor(key, cursor).sync_cursors, key) == Some(cursor),
        lookup(s.with_older_cursor(key, cursor).older_cursors, key) == Some(cursor),
        cursor.len() > 0 ==> s.with_follow_rkey(key, cursor).follow_rkey(key) == Some(cursor),
{
}

} // verus!
