//! The in-memory store of the browser shell. Reads and writes stay in memory; every
//! change also leaves an operation in an outbox, from which the shell persists it.
use vstd::prelude::*;

use crate::model::{
    documents_view, publications_view, Document, Publication, RichDoc, SpecBlock, SpecDocument,
    SpecPublication,
};
use crate::persist::{blob_file_key, blob_name, body_key, body_name};
use crate::search::{terms, tokenize};
use crate::store::{
    enumerates, lookup, newest_first, opt_body_ref, FrontendStore, SpecStoredDoc, Store, StoreState,
    StoredDoc,
};
use crate::table::Table;
use crate::text::{
    comes_before, lemma_strings_view_push, lemma_text_less_asym, lemma_text_not_less_trans,
    list_contains, owned, same, strings_view, text_less,
};

verus! {

/// The version of the serialized body shape. Bodies and cursors written under another
/// version are dropped and fetched again.
pub const CACHE_SCHEMA: &'static str = "1";

// --- The snapshot -----------------------------------------------------------------

/// One document's row in the snapshot: metadata and read state, without the body.
#[derive(Debug, PartialEq)]
pub struct DocEntry {
    pub meta: Document,
    pub read: bool,
}

/// The structured snapshot: the whole store but for bodies and blob bytes.
#[derive(Debug, PartialEq)]
pub struct IndexDto {
    pub schema: String,
    pub publications: Vec<Publication>,
    /// Publication and record key, empty if not known.
    pub follows: Vec<(String, String)>,
    pub sync_cursors: Vec<(String, String)>,
    pub older_cursors: Vec<(String, String)>,
    pub show_images: bool,
    pub docs: Vec<DocEntry>,
    pub blob_cids: Vec<String>,
}

/// [`IndexDto`] over sequences.
pub struct SpecIndex {
    pub schema: Seq<char>,
    pub publications: Seq<SpecPublication>,
    pub follows: Seq<(Seq<char>, Seq<char>)>,
    pub sync_cursors: Seq<(Seq<char>, Seq<char>)>,
    pub older_cursors: Seq<(Seq<char>, Seq<char>)>,
    pub show_images: bool,
    pub docs: Seq<(SpecDocument, bool)>,
    pub blob_cids: Seq<Seq<char>>,
}

/// Pairs of strings by their characters.
pub open spec fn pairs_view(s: Seq<(String, String)>) -> Seq<(Seq<char>, Seq<char>)> {
    s.map_values(|p: (String, String)| (p.0@, p.1@))
}

/// Snapshot rows by their views.
pub open spec fn rows_view(s: Seq<DocEntry>) -> Seq<(SpecDocument, bool)> {
    s.map_values(|d: DocEntry| (d.meta@, d.read))
}

impl View for IndexDto {
    type V = SpecIndex;

    open spec fn view(&self) -> SpecIndex {
        SpecIndex {
            schema: self.schema@,
            publications: publications_view(self.publications@),
            follows: pairs_view(self.follows@),
            sync_cursors: pairs_view(self.sync_cursors@),
            older_cursors: pairs_view(self.older_cursors@),
            show_images: self.show_images,
            docs: rows_view(self.docs@),
            blob_cids: strings_view(self.blob_cids@),
        }
    }
}

impl IndexDto {
    /// Whether bodies and cursors written with this snapshot can still be read.
    pub fn schema_matches(&self) -> (r: bool)
        ensures
            r == (self.schema@ == CACHE_SCHEMA@),
    {
        same(self.schema.as_str(), CACHE_SCHEMA)
    }

    /// The names of the body files that this snapshot refers to.
    pub fn body_keys(&self) -> (r: Vec<String>)
        ensures
            strings_view(r@) == self@.docs.map_values(|d: (SpecDocument, bool)| body_name(d.0.uri)),
    {
        let ghost goal = self@.docs.map_values(|d: (SpecDocument, bool)| body_name(d.0.uri));
        let mut out: Vec<String> = Vec::new();
        let mut i: usize = 0;
        while i < self.docs.len()
            invariant
                i <= self.docs@.len(),
                out@.len() == i,
                forall|k: int|
                    0 <= k < i ==> (#[trigger] out@[k])@ == body_name(self.docs@[k].meta@.uri),
            decreases self.docs@.len() - i,
        {
            out.push(body_key(self.docs[i].meta.uri.as_str()));
            i = i + 1;
        }
        assert(strings_view(out@) =~= goal);
        out
    }

    /// The blobs that this snapshot refers to.
    pub fn blob_cids(&self) -> (r: &Vec<String>)
        ensures
            strings_view(r@) == self@.blob_cids,
    {
        &self.blob_cids
    }
}

// --- Maps from lists --------------------------------------------------------------

/// The map that a list of pairs makes, a later pair winning over an earlier.
pub open spec fn pairs_map<V>(s: Seq<(Seq<char>, V)>) -> Map<Seq<char>, V>
    decreases s.len(),
{
    if s.len() == 0 {
        Map::empty()
    } else {
        pairs_map(s.drop_last()).insert(s.last().0, s.last().1)
    }
}

/// Publications by their URIs.
pub open spec fn by_uri(s: Seq<SpecPublication>) -> Seq<(Seq<char>, SpecPublication)> {
    s.map_values(|p: SpecPublication| (p.uri, p))
}

/// Rows by the URIs of their documents.
pub open spec fn rows_by_uri(s: Seq<(SpecDocument, bool)>) -> Seq<
    (Seq<char>, (SpecDocument, bool)),
> {
    s.map_values(|d: (SpecDocument, bool)| (d.0.uri, d))
}

proof fn lemma_pairs_map_absent<V>(s: Seq<(Seq<char>, V)>, k: Seq<char>)
    requires
        forall|i: int| 0 <= i < s.len() ==> (#[trigger] s[i]).0 != k,
    ensures
        !pairs_map(s).dom().contains(k),
    decreases s.len(),
{
    if s.len() > 0 {
        assert(s.last().0 != k);
        assert forall|i: int| 0 <= i < s.drop_last().len() implies (#[trigger] s.drop_last()[i]).0
            != k by {
            assert(s.drop_last()[i] == s[i]);
        }
        lemma_pairs_map_absent(s.drop_last(), k);
    }
}

/// A list that names each key of a map once, with its value, makes that map.
proof fn lemma_pairs_map_of<V>(s: Seq<(Seq<char>, V)>, order: Seq<Seq<char>>, m: Map<Seq<char>, V>)
    requires
        order.no_duplicates(),
        forall|k: Seq<char>| #[trigger] m.dom().contains(k) <==> order.contains(k),
        s.len() == order.len(),
        forall|i: int| 0 <= i < s.len() ==> (#[trigger] s[i]).0 == order[i] && s[i].1 == m[order[i]],
    ensures
        pairs_map(s) == m,
    decreases s.len(),
{
    if s.len() == 0 {
        assert forall|k: Seq<char>| !m.dom().contains(k) by {
            if order.contains(k) {
                let i = choose|i: int| 0 <= i < order.len() && order[i] == k;
            }
        }
        assert(m =~= Map::empty());
    } else {
        let last = order.last();
        let rest = order.drop_last();
        let m2 = m.remove(last);
        assert(order.contains(last)) by {
            assert(order[order.len() - 1] == last);
        }
        assert forall|k: Seq<char>| #[trigger] m2.dom().contains(k) <==> rest.contains(k) by {
            if rest.contains(k) {
                let i = choose|i: int| 0 <= i < rest.len() && rest[i] == k;
                assert(order[i] == k);
                assert(order.contains(k));
                assert(order[order.len() - 1] == last);
            }
            if m2.dom().contains(k) {
                let i = choose|i: int| 0 <= i < order.len() && order[i] == k;
                assert(rest[i] == k);
            }
        }
        assert forall|i: int| 0 <= i < s.drop_last().len() implies (#[trigger] s.drop_last()[i]).0
            == rest[i] && s.drop_last()[i].1 == m2[rest[i]] by {
            assert(s.drop_last()[i] == s[i]);
            assert(rest[i] == order[i]);
            assert(order[order.len() - 1] == last);
        }
        assert(rest.no_duplicates());
        lemma_pairs_map_of(s.drop_last(), rest, m2);
        assert(s.last() == s[s.len() - 1]);
        assert(m2.insert(last, m[last]) =~= m);
    }
}

/// `d` describes `s`: under the current schema, hydrating it gives back all of `s` but
/// for bodies and blob bytes.
pub open spec fn describes(d: SpecIndex, s: StoreState) -> bool {
    &&& d.schema == CACHE_SCHEMA@
    &&& d.show_images == s.show_images
    &&& pairs_map(d.follows) == s.follows
    &&& pairs_map(d.sync_cursors) == s.sync_cursors
    &&& pairs_map(d.older_cursors) == s.older_cursors
    &&& enumerates(d.blob_cids, s.blobs.dom())
    &&& s.keyed() ==> {
        &&& pairs_map(by_uri(d.publications)) == s.publications
        &&& pairs_map(rows_by_uri(d.docs)) == s.documents.map_values(
            |x: SpecStoredDoc| (x.meta, x.read),
        )
    }
}

// --- Hydration --------------------------------------------------------------------

/// The cache as loaded at startup.
pub struct InitialState {
    pub publications: Table<Publication>,
    pub documents: Table<StoredDoc>,
    pub blobs: Table<Vec<u8>>,
    pub follows: Table<String>,
    pub sync_cursors: Table<String>,
    pub older_cursors: Table<String>,
    pub show_images: bool,
}

/// A table of publications as a map.
pub open spec fn publications_map(t: Map<Seq<char>, Publication>) -> Map<
    Seq<char>,
    SpecPublication,
> {
    t.map_values(|p: Publication| p@)
}

/// A table of documents as a map.
pub open spec fn documents_map(t: Map<Seq<char>, StoredDoc>) -> Map<Seq<char>, SpecStoredDoc> {
    t.map_values(|d: StoredDoc| d@)
}

/// A table of bytes as a map.
pub open spec fn bytes_map(t: Map<Seq<char>, Vec<u8>>) -> Map<Seq<char>, Seq<u8>> {
    t.map_values(|b: Vec<u8>| b@)
}

/// A table of strings as a map.
pub open spec fn strings_map(t: Map<Seq<char>, String>) -> Map<Seq<char>, Seq<char>> {
    t.map_values(|s: String| s@)
}

/// A table of bodies as a map.
pub open spec fn bodies_map(t: Map<Seq<char>, RichDoc>) -> Map<Seq<char>, Seq<SpecBlock>> {
    t.map_values(|b: RichDoc| b@)
}

impl View for InitialState {
    type V = StoreState;

    open spec fn view(&self) -> StoreState {
        StoreState {
            publications: publications_map(self.publications@),
            documents: documents_map(self.documents@),
            blobs: bytes_map(self.blobs@),
            sync_cursors: strings_map(self.sync_cursors@),
            older_cursors: strings_map(self.older_cursors@),
            follows: strings_map(self.follows@),
            show_images: self.show_images,
        }
    }
}

impl Default for InitialState {
    fn default() -> (r: Self)
        ensures
            r@ == StoreState::empty(),
    {
        let r = InitialState {
            publications: Table::new(),
            documents: Table::new(),
            blobs: Table::new(),
            follows: Table::new(),
            sync_cursors: Table::new(),
            older_cursors: Table::new(),
            show_images: true,
        };
        assert(r@.publications =~= Map::empty());
        assert(r@.documents =~= Map::empty());
        assert(r@.blobs =~= Map::empty());
        assert(r@.follows =~= Map::empty());
        assert(r@.sync_cursors =~= Map::empty());
        assert(r@.older_cursors =~= Map::empty());
        r
    }
}

/// A row with the body that was kept for its document, unless bodies are stale.
pub open spec fn hydrated_row(
    d: (SpecDocument, bool),
    bodies: Map<Seq<char>, Seq<SpecBlock>>,
    fresh: bool,
) -> SpecStoredDoc {
    SpecStoredDoc {
        meta: d.0,
        body: if fresh {
            lookup(bodies, body_name(d.0.uri))
        } else {
            None
        },
        read: d.1,
    }
}

/// Rows by URI, with their bodies.
pub open spec fn hydrated_rows(
    docs: Seq<(SpecDocument, bool)>,
    bodies: Map<Seq<char>, Seq<SpecBlock>>,
    fresh: bool,
) -> Seq<(Seq<char>, SpecStoredDoc)> {
    docs.map_values(|d: (SpecDocument, bool)| (d.0.uri, hydrated_row(d, bodies, fresh)))
}

/// The store that a snapshot, the kept bodies and the kept blobs stand for. Under
/// another schema the bodies and cursors are dropped; the rest is format-stable.
pub open spec fn hydrated(
    d: SpecIndex,
    bodies: Map<Seq<char>, Seq<SpecBlock>>,
    blobs: Map<Seq<char>, Seq<u8>>,
) -> StoreState {
    let fresh = d.schema == CACHE_SCHEMA@;
    StoreState {
        publications: pairs_map(by_uri(d.publications)),
        documents: pairs_map(hydrated_rows(d.docs, bodies, fresh)),
        blobs,
        sync_cursors: if fresh {
            pairs_map(d.sync_cursors)
        } else {
            Map::empty()
        },
        older_cursors: if fresh {
            pairs_map(d.older_cursors)
        } else {
            Map::empty()
        },
        follows: pairs_map(d.follows),
        show_images: d.show_images,
    }
}

fn table_of_pairs(pairs: Vec<(String, String)>) -> (r: Table<String>)
    ensures
        strings_map(r@) == pairs_map(pairs_view(pairs@)),
{
    let ghost all = pairs_view(pairs@);
    let mut out: Table<String> = Table::new();
    assert(strings_map(out@) =~= Map::empty());
    assert(all.take(0) =~= Seq::empty());
    for p in it: pairs.into_iter()
        invariant
            all == pairs_view(it.seq()),
            strings_map(out@) == pairs_map(all.take(it.index() as int)),
    {
        let ghost i = it.index() as int;
        let ghost before = out@;
        assert(all[i] == (p.0@, p.1@));
        let (k, v) = p;
        out.insert(k, v);
        assert(strings_map(out@) =~= strings_map(before).insert(k@, v@));
        assert(all.take(i + 1).drop_last() =~= all.take(i));
    }
    assert(all.take(all.len() as int) =~= all);
    out
}

fn table_of_publications(list: Vec<Publication>) -> (r: Table<Publication>)
    ensures
        publications_map(r@) == pairs_map(by_uri(publications_view(list@))),
{
    let ghost all = by_uri(publications_view(list@));
    let mut out: Table<Publication> = Table::new();
    assert(publications_map(out@) =~= Map::empty());
    assert(all.take(0) =~= Seq::empty());
    for p in it: list.into_iter()
        invariant
            all == by_uri(publications_view(it.seq())),
            publications_map(out@) == pairs_map(all.take(it.index() as int)),
    {
        let ghost i = it.index() as int;
        let ghost before = out@;
        assert(publications_view(it.seq())[i] == p@);
        assert(all[i] == (p@.uri, p@));
        let key = p.uri.clone();
        out.insert(key, p);
        assert(publications_map(out@) =~= publications_map(before).insert(p@.uri, p@));
        assert(all.take(i + 1).drop_last() =~= all.take(i));
    }
    assert(all.take(all.len() as int) =~= all);
    out
}

fn table_of_rows(rows: Vec<DocEntry>, bodies: &Table<RichDoc>, fresh: bool) -> (r: Table<StoredDoc>)
    ensures
        documents_map(r@) == pairs_map(
            hydrated_rows(rows_view(rows@), bodies_map(bodies@), fresh),
        ),
{
    let ghost kept = bodies_map(bodies@);
    let ghost all = hydrated_rows(rows_view(rows@), kept, fresh);
    let mut out: Table<StoredDoc> = Table::new();
    assert(documents_map(out@) =~= Map::empty());
    assert(all.take(0) =~= Seq::empty());
    for d in it: rows.into_iter()
        invariant
            kept == bodies_map(bodies@),
            all == hydrated_rows(rows_view(it.seq()), kept, fresh),
            documents_map(out@) == pairs_map(all.take(it.index() as int)),
    {
        let ghost i = it.index() as int;
        let ghost before = out@;
        let ghost row = (d.meta@, d.read);
        assert(rows_view(it.seq())[i] == row);
        assert(all[i] == (row.0.uri, hydrated_row(row, kept, fresh)));
        let body = if fresh {
            match bodies.get(body_key(d.meta.uri.as_str()).as_str()) {
                Some(b) => Some(b.clone()),
                None => None,
            }
        } else {
            None
        };
        let key = d.meta.uri.clone();
        let doc = StoredDoc { meta: d.meta, body, read: d.read };
        let ghost v = doc@;
        assert(v == hydrated_row(row, kept, fresh));
        out.insert(key, doc);
        assert(documents_map(out@) =~= documents_map(before).insert(row.0.uri, v));
        assert(all.take(i + 1).drop_last() =~= all.take(i));
    }
    assert(all.take(all.len() as int) =~= all);
    out
}

impl InitialState {
    /// Rebuild the cache from a snapshot, the bodies that could be read, by name, and the
    /// blobs that could be read.
    pub fn from_index(dto: IndexDto, bodies: &Table<RichDoc>, blobs: Table<Vec<u8>>) -> (r: Self)
        ensures
            r@ == hydrated(dto@, bodies_map(bodies@), bytes_map(blobs@)),
    {
        let fresh = dto.schema_matches();
        let r = InitialState {
            publications: table_of_publications(dto.publications),
            documents: table_of_rows(dto.docs, bodies, fresh),
            blobs,
            follows: table_of_pairs(dto.follows),
            sync_cursors: if fresh {
                table_of_pairs(dto.sync_cursors)
            } else {
                Table::new()
            },
            older_cursors: if fresh {
                table_of_pairs(dto.older_cursors)
            } else {
                Table::new()
            },
            show_images: dto.show_images,
        };
        proof {
            if !fresh {
                assert(r@.sync_cursors =~= Map::empty());
                assert(r@.older_cursors =~= Map::empty());
            }
        }
        r
    }
}

/// A snapshot of the current schema, with every body that a document had and no other,
/// and with the blobs, hydrates to the very store that it describes.
pub proof fn law_snapshot_hydrates(
    d: SpecIndex,
    s: StoreState,
    bodies: Map<Seq<char>, Seq<SpecBlock>>,
)
    requires
        describes(d, s),
        s.keyed(),
        forall|uri: Seq<char>|
            s.documents.dom().contains(uri) ==> lookup(bodies, #[trigger] body_name(uri))
                == s.documents[uri].body,
    ensures
        hydrated(d, bodies, s.blobs) == s,
{
    let h = hydrated(d, bodies, s.blobs);
    lemma_hydrated_rows(d.docs, bodies);
    let rows = pairs_map(rows_by_uri(d.docs));
    assert(h.documents =~= s.documents) by {
        assert forall|k: Seq<char>| #[trigger] s.documents.dom().contains(k) implies h.documents[k]
            == s.documents[k] by {
            assert(rows[k] == (s.documents[k].meta, s.documents[k].read));
            assert(s.documents[k].meta.uri == k);
            assert(lookup(bodies, body_name(k)) == s.documents[k].body);
        }
    }
    assert(h.publications =~= s.publications);
}

proof fn lemma_hydrated_rows(
    docs: Seq<(SpecDocument, bool)>,
    bodies: Map<Seq<char>, Seq<SpecBlock>>,
)
    ensures
        pairs_map(hydrated_rows(docs, bodies, true)) == pairs_map(rows_by_uri(docs)).map_values(
            |d: (SpecDocument, bool)| hydrated_row(d, bodies, true),
        ),
    decreases docs.len(),
{
    let f = |d: (SpecDocument, bool)| hydrated_row(d, bodies, true);
    let a = hydrated_rows(docs, bodies, true);
    let b = rows_by_uri(docs);
    if docs.len() == 0 {
        assert(pairs_map(a) =~= pairs_map(b).map_values(f));
    } else {
        lemma_hydrated_rows(docs.drop_last(), bodies);
        assert(a.drop_last() =~= hydrated_rows(docs.drop_last(), bodies, true));
        assert(b.drop_last() =~= rows_by_uri(docs.drop_last()));
        assert(pairs_map(a) =~= pairs_map(b).map_values(f));
    }
}

/// Under another schema a snapshot loses bodies and cursors and nothing else.
pub proof fn law_schema_change_drops_only_bodies_and_cursors(
    d: SpecIndex,
    bodies: Map<Seq<char>, Seq<SpecBlock>>,
    blobs: Map<Seq<char>, Seq<u8>>,
)
    requires
        d.schema != CACHE_SCHEMA@,
    ensures
        ({
            let h = hydrated(d, bodies, blobs);
            let now = hydrated(SpecIndex { schema: CACHE_SCHEMA@, ..d }, bodies, blobs);
            &&& h.publications == now.publications
            &&& h.follows == now.follows
            &&& h.blobs == now.blobs
            &&& h.show_images == now.show_images
            &&& h.documents.dom() == now.documents.dom()
            &&& forall|k: Seq<char>|
                #![trigger h.documents[k]]
                h.documents.dom().contains(k) ==> h.documents[k] == (SpecStoredDoc {
                    body: None,
                    ..now.documents[k]
                })
            &&& h.sync_cursors == Map::<Seq<char>, Seq<char>>::empty()
            &&& h.older_cursors == Map::<Seq<char>, Seq<char>>::empty()
        }),
{
    lemma_stale_rows(d.docs, bodies);
}

proof fn lemma_stale_rows(docs: Seq<(SpecDocument, bool)>, bodies: Map<Seq<char>, Seq<SpecBlock>>)
    ensures
        ({
            let a = pairs_map(hydrated_rows(docs, bodies, false));
            let b = pairs_map(hydrated_rows(docs, bodies, true));
            &&& a.dom() == b.dom()
            &&& forall|k: Seq<char>|
                #![trigger a[k]]
                a.dom().contains(k) ==> a[k] == (SpecStoredDoc { body: None, ..b[k] })
        }),
    decreases docs.len(),
{
    if docs.len() > 0 {
        lemma_stale_rows(docs.drop_last(), bodies);
        let a = hydrated_rows(docs, bodies, false);
        let b = hydrated_rows(docs, bodies, true);
        assert(a.drop_last() =~= hydrated_rows(docs.drop_last(), bodies, false));
        assert(b.drop_last() =~= hydrated_rows(docs.drop_last(), bodies, true));
        assert(pairs_map(a).dom() =~= pairs_map(b).dom());
    } else {
        assert(pairs_map(hydrated_rows(docs, bodies, false)).dom() =~= pairs_map(
            hydrated_rows(docs, bodies, true),
        ).dom());
    }
}

// --- The store --------------------------------------------------------------------

/// A change to be kept, before it is turned into bytes.
#[derive(Debug, PartialEq)]
pub enum StoreOp {
    /// The whole snapshot.
    Index(IndexDto),
    /// One document's body, under its name.
    Body { key: String, body: RichDoc },
    /// One blob, under its name.
    Blob { cid: String, bytes: Vec<u8> },
}

/// [`StoreOp`] over sequences.
pub enum SpecStoreOp {
    Index(SpecIndex),
    Body { key: Seq<char>, body: Seq<SpecBlock> },
    Blob { cid: Seq<char>, bytes: Seq<u8> },
}

impl View for StoreOp {
    type V = SpecStoreOp;

    open spec fn view(&self) -> SpecStoreOp {
        match *self {
            StoreOp::Index(d) => SpecStoreOp::Index(d@),
            StoreOp::Body { key, body } => SpecStoreOp::Body { key: key@, body: body@ },
            StoreOp::Blob { cid, bytes } => SpecStoreOp::Blob { cid: cid@, bytes: bytes@ },
        }
    }
}

/// Operations by their views.
pub open spec fn ops_view(s: Seq<StoreOp>) -> Seq<SpecStoreOp> {
    s.map_values(|o: StoreOp| o@)
}

/// What a change left in the outbox: its payloads, and after them a snapshot that
/// describes the store as it is now.
pub open spec fn announced(
    before: Seq<SpecStoreOp>,
    after: Seq<SpecStoreOp>,
    payloads: Seq<SpecStoreOp>,
    s: StoreState,
) -> bool {
    &&& after.len() == before.len() + payloads.len() + 1
    &&& after.drop_last() == before + payloads
    &&& after.last() matches SpecStoreOp::Index(d) && describes(d, s)
}

/// The store that never fails has no error to report.
#[derive(Debug, PartialEq)]
pub struct NoFault;

/// The in-memory store.
pub struct MemStore {
    publications: Table<Publication>,
    documents: Table<StoredDoc>,
    blobs: Table<Vec<u8>>,
    follows: Table<String>,
    sync_cursors: Table<String>,
    older_cursors: Table<String>,
    show_images: bool,
    outbox: Vec<StoreOp>,
}

fn list_pairs(t: &Table<String>) -> (r: Vec<(String, String)>)
    ensures
        pairs_map(pairs_view(r@)) == strings_map(t@),
{
    let n: usize = t.len();
    let mut out: Vec<(String, String)> = Vec::new();
    let mut i: usize = 0;
    while i < n
        invariant
            n == t.order().len(),
            i <= n,
            out@.len() == i,
            forall|k: int|
                0 <= k < i ==> (#[trigger] out@[k]).0@ == t.order()[k] && out@[k].1@
                    == t@[t.order()[k]]@,
        decreases n - i,
    {
        out.push((t.key_at(i).clone(), t.value_at(i).clone()));
        i = i + 1;
    }
    proof {
        let s = pairs_view(out@);
        let m = strings_map(t@);
        assert forall|k: int| 0 <= k < s.len() implies (#[trigger] s[k]).0 == t.order()[k]
            && s[k].1 == m[t.order()[k]] by {
            assert(s[k] == (out@[k].0@, out@[k].1@));
            assert(t.order().contains(t.order()[k]));
        }
        lemma_pairs_map_of(s, t.order(), m);
    }
    out
}

impl MemStore {
    /// The operations in the outbox.
    pub closed spec fn ops(&self) -> Seq<SpecStoreOp> {
        ops_view(self.outbox@)
    }

    closed spec fn held(&self) -> StoreState {
        StoreState {
            publications: publications_map(self.publications@),
            documents: documents_map(self.documents@),
            blobs: bytes_map(self.blobs@),
            sync_cursors: strings_map(self.sync_cursors@),
            older_cursors: strings_map(self.older_cursors@),
            follows: strings_map(self.follows@),
            show_images: self.show_images,
        }
    }

    /// A store that holds what was loaded.
    pub fn new(initial: InitialState) -> (r: Self)
        ensures
            r.state() == initial@,
            r.ops() == Seq::<SpecStoreOp>::empty(),
    {
        let r = MemStore {
            publications: initial.publications,
            documents: initial.documents,
            blobs: initial.blobs,
            follows: initial.follows,
            sync_cursors: initial.sync_cursors,
            older_cursors: initial.older_cursors,
            show_images: initial.show_images,
            outbox: Vec::new(),
        };
        assert(r.ops() =~= Seq::empty());
        r
    }

    /// Empty the outbox.
    pub fn take_ops(&mut self) -> (r: Vec<StoreOp>)
        ensures
            ops_view(r@) == old(self).ops(),
            final(self).ops() == Seq::<SpecStoreOp>::empty(),
            final(self).state() == old(self).state(),
    {
        let mut out: Vec<StoreOp> = Vec::new();
        core::mem::swap(&mut out, &mut self.outbox);
        assert(self.ops() =~= Seq::empty());
        out
    }

    fn list_publications(&self) -> (r: Vec<Publication>)
        ensures
            self.held().keyed() ==> pairs_map(by_uri(publications_view(r@)))
                == self.held().publications,
    {
        let t = &self.publications;
        let n: usize = t.len();
        let mut out: Vec<Publication> = Vec::new();
        let mut i: usize = 0;
        while i < n
            invariant
                n == t.order().len(),
                i <= n,
                out@.len() == i,
                forall|k: int| 0 <= k < i ==> (#[trigger] out@[k])@ == t@[t.order()[k]]@,
            decreases n - i,
        {
            out.push(t.value_at(i).clone());
            i = i + 1;
        }
        proof {
            if self.held().keyed() {
                let s = by_uri(publications_view(out@));
                let m = self.held().publications;
                assert forall|k: int| 0 <= k < s.len() implies (#[trigger] s[k]).0 == t.order()[k]
                    && s[k].1 == m[t.order()[k]] by {
                    assert(publications_view(out@)[k] == out@[k]@);
                    assert(t.order().contains(t.order()[k]));
                    assert(t@.dom().contains(t.order()[k]));
                    assert(m.dom().contains(t.order()[k]));
                    assert(m[t.order()[k]].uri == t.order()[k]);
                }
                lemma_pairs_map_of(s, t.order(), m);
            }
        }
        out
    }

    fn list_rows(&self) -> (r: Vec<DocEntry>)
        ensures
            self.held().keyed() ==> pairs_map(rows_by_uri(rows_view(r@)))
                == self.held().documents.map_values(|x: SpecStoredDoc| (x.meta, x.read)),
    {
        let t = &self.documents;
        let n: usize = t.len();
        let mut out: Vec<DocEntry> = Vec::new();
        let mut i: usize = 0;
        while i < n
            invariant
                n == t.order().len(),
                i <= n,
                out@.len() == i,
                forall|k: int|
                    0 <= k < i ==> (#[trigger] out@[k]).meta@ == t@[t.order()[k]]@.meta
                        && out@[k].read == t@[t.order()[k]]@.read,
            decreases n - i,
        {
            let d = t.value_at(i);
            out.push(DocEntry { meta: d.meta.clone(), read: d.read });
            i = i + 1;
        }
        proof {
            if self.held().keyed() {
                let s = rows_by_uri(rows_view(out@));
                let m = self.held().documents.map_values(|x: SpecStoredDoc| (x.meta, x.read));
                assert forall|k: int| 0 <= k < s.len() implies (#[trigger] s[k]).0 == t.order()[k]
                    && s[k].1 == m[t.order()[k]] by {
                    assert(rows_view(out@)[k] == (out@[k].meta@, out@[k].read));
                    assert(t.order().contains(t.order()[k]));
                    assert(self.held().documents.dom().contains(t.order()[k]));
                    assert(self.held().documents[t.order()[k]].meta.uri == t.order()[k]);
                }
                lemma_pairs_map_of(s, t.order(), m);
            }
        }
        out
    }

    fn list_cids(&self) -> (r: Vec<String>)
        ensures
            enumerates(strings_view(r@), self.held().blobs.dom()),
    {
        let t = &self.blobs;
        let n: usize = t.len();
        let mut out: Vec<String> = Vec::new();
        let mut i: usize = 0;
        while i < n
            invariant
                n == t.order().len(),
                i <= n,
                out@.len() == i,
                forall|k: int| 0 <= k < i ==> (#[trigger] out@[k])@ == t.order()[k],
            decreases n - i,
        {
            out.push(t.key_at(i).clone());
            i = i + 1;
        }
        assert(strings_view(out@) =~= t.order());
        out
    }

    /// Leave a snapshot of the store in the outbox.
    fn emit_index(&mut self)
        ensures
            final(self).held() == old(self).held(),
            announced(old(self).ops(), final(self).ops(), Seq::empty(), final(self).held()),
    {
        let dto = IndexDto {
            schema: owned(CACHE_SCHEMA),
            publications: self.list_publications(),
            follows: list_pairs(&self.follows),
            sync_cursors: list_pairs(&self.sync_cursors),
            older_cursors: list_pairs(&self.older_cursors),
            show_images: self.show_images,
            docs: self.list_rows(),
            blob_cids: self.list_cids(),
        };
        let ghost d = dto@;
        let ghost before = self.ops();
        assert(describes(d, self.held()));
        self.outbox.push(StoreOp::Index(dto));
        assert(self.ops() =~= before.push(SpecStoreOp::Index(d)));
        assert(self.ops().drop_last() =~= before + Seq::<SpecStoreOp>::empty());
    }

    /// Leave a payload in the outbox.
    fn emit(&mut self, op: StoreOp)
        ensures
            final(self).held() == old(self).held(),
            final(self).ops() == old(self).ops().push(op@),
    {
        let ghost before = self.ops();
        self.outbox.push(op);
        assert(self.ops() =~= before.push(op@));
    }
}

proof fn lemma_announced_after(
    before: Seq<SpecStoreOp>,
    payload: SpecStoreOp,
    after: Seq<SpecStoreOp>,
    s: StoreState,
)
    requires
        announced(before.push(payload), after, Seq::empty(), s),
    ensures
        announced(before, after, seq![payload], s),
{
    assert(before.push(payload) + Seq::<SpecStoreOp>::empty() =~= before + seq![payload]);
}

/// The bodies that a change brought, as payloads.
pub open spec fn body_payload(uri: Seq<char>, body: Option<Seq<SpecBlock>>) -> Seq<SpecStoreOp> {
    match body {
        Some(b) => seq![SpecStoreOp::Body { key: body_name(uri), body: b }],
        None => Seq::empty(),
    }
}

impl Store for MemStore {
    type Error = NoFault;

    closed spec fn state(&self) -> StoreState {
        self.held()
    }

    open spec fn reliable() -> bool {
        true
    }

    fn describe(error: &NoFault) -> String {
        owned("no fault")
    }

    fn upsert_publication(&mut self, publication: &Publication) -> (r: Result<(), NoFault>)
        ensures
            r is Ok,
            announced(old(self).ops(), final(self).ops(), Seq::empty(), final(self).state()),
    {
        let ghost before = self.publications@;
        self.publications.insert(publication.uri.clone(), publication.clone());
        assert(publications_map(self.publications@) =~= publications_map(before).insert(
            publication@.uri,
            publication@,
        ));
        self.emit_index();
        Ok(())
    }

    fn publication(&self, uri: &str) -> (r: Result<Option<Publication>, NoFault>)
        ensures
            r is Ok,
    {
        match self.publications.get(uri) {
            Some(p) => Ok(Some(p.clone())),
            None => Ok(None),
        }
    }

    fn upsert_document(&mut self, meta: &Document, body: Option<&RichDoc>) -> (r: Result<
        (),
        NoFault,
    >)
        ensures
            r is Ok,
            announced(
                old(self).ops(),
                final(self).ops(),
                body_payload(meta@.uri, opt_body_ref(body)),
                final(self).state(),
            ),
    {
        let read = match self.documents.get(meta.uri.as_str()) {
            Some(d) => d.read,
            None => false,
        };
        let kept = match body {
            Some(b) => Some(b.clone()),
            None => None,
        };
        let ghost before = self.documents@;
        let ghost ops = self.ops();
        let doc = StoredDoc { meta: meta.clone(), body: kept, read };
        let ghost v = doc@;
        self.documents.insert(meta.uri.clone(), doc);
        assert(documents_map(self.documents@) =~= documents_map(before).insert(meta@.uri, v));
        match body {
            Some(b) => {
                self.emit(StoreOp::Body { key: body_key(meta.uri.as_str()), body: b.clone() });
                self.emit_index();
                proof {
                    lemma_announced_after(
                        ops,
                        SpecStoreOp::Body { key: body_name(meta@.uri), body: b@ },
                        self.ops(),
                        self.held(),
                    );
                }
            },
            None => {
                self.emit_index();
            },
        }
        Ok(())
    }

    fn document(&self, uri: &str) -> (r: Result<Option<StoredDoc>, NoFault>)
        ensures
            r is Ok,
    {
        match self.documents.get(uri) {
            Some(d) => Ok(Some(d.clone())),
            None => Ok(None),
        }
    }

    fn documents_for(&self, publication_uri: &str) -> (r: Result<Vec<Document>, NoFault>)
        ensures
            r is Ok,
    {
        let t = &self.documents;
        let n: usize = t.len();
        let mut out: Vec<Document> = Vec::new();
        let ghost mut keys: Seq<Seq<char>> = Seq::empty();
        let mut i: usize = 0;
        while i < n
            invariant
                n == t.order().len(),
                t.order().no_duplicates(),
                i <= n,
                t@ == self.documents@,
                forall|k: Seq<char>| #[trigger] t@.dom().contains(k) <==> t.order().contains(k),
                out@.len() == keys.len(),
                keys.no_duplicates(),
                newest_first(documents_view(out@)),
                forall|j: int|
                    0 <= j < out@.len() ==> t@.dom().contains(#[trigger] keys[j]) && out@[j]@
                        == t@[keys[j]]@.meta,
                forall|k: Seq<char>| #[trigger]
                    keys.contains(k) <==> t.order().take(i as int).contains(k)
                        && t@[k]@.meta.publication == publication_uri@,
            decreases n - i,
        {
            let d = t.value_at(i);
            let ghost key = t.order()[i as int];
            let ghost had_keys = keys;
            let ghost had = out@;
            if same(d.meta.publication.as_str(), publication_uri) {
                let mut p: usize = out.len();
                while p > 0 && comes_before(
                    out[p - 1].published_at.as_str(),
                    d.meta.published_at.as_str(),
                )
                    invariant
                        p <= out@.len(),
                        out@ == had,
                        forall|k: int|
                            p <= k < out@.len() ==> text_less(
                                (#[trigger] out@[k]).published_at@,
                                d.meta.published_at@,
                            ),
                    decreases p,
                {
                    p = p - 1;
                }
                out.insert(p, d.meta.clone());
                proof {
                    keys = keys.insert(p as int, key);
                    assert(documents_view(out@) =~= documents_view(had).insert(
                        p as int,
                        d.meta@,
                    ));
                    lemma_insert_newest(
                        documents_view(had),
                        d.meta@,
                        documents_view(out@),
                        p as int,
                    );
                    assert(!t.order().take(i as int).contains(key)) by {
                        if t.order().take(i as int).contains(key) {
                            let j = choose|j: int|
                                0 <= j < i && t.order().take(i as int)[j] == key;
                            assert(t.order()[j] == t.order()[i as int]);
                        }
                    }
                    lemma_insert_key(had_keys, key, p as int);
                    assert forall|j: int| 0 <= j < out@.len() implies t@.dom().contains(
                        #[trigger] keys[j],
                    ) && out@[j]@ == t@[keys[j]]@.meta by {
                        if j < p {
                            assert(keys[j] == had_keys[j]);
                        } else if j > p {
                            assert(keys[j] == had_keys[j - 1]);
                        }
                    }
                }
            }
            proof {
                lemma_take_contains(t.order(), i as int);
            }
            i = i + 1;
        }
        proof {
            let s = self.held();
            assert(t.order().take(n as int) =~= t.order());
            assert(enumerates(keys, s.of_publication(publication_uri@)));
            assert(documents_view(out@).len() == keys.len());
            assert forall|j: int| 0 <= j < out@.len() implies #[trigger] documents_view(out@)[j]
                == s.documents[keys[j]].meta by {
                assert(documents_view(out@)[j] == out@[j]@);
            }
        }
        Ok(out)
    }

    fn set_read(&mut self, uri: &str, read: bool) -> (r: Result<(), NoFault>)
        ensures
            r is Ok,
            announced(old(self).ops(), final(self).ops(), Seq::empty(), final(self).state()),
    {
        let ghost before = self.documents@;
        let found = match self.documents.get(uri) {
            Some(d) => {
                let mut copy = d.clone();
                copy.read = read;
                Some(copy)
            },
            None => None,
        };
        if let Some(doc) = found {
            let ghost v = doc@;
            self.documents.insert(owned(uri), doc);
            assert(documents_map(self.documents@) =~= documents_map(before).insert(uri@, v));
        }
        self.emit_index();
        Ok(())
    }

    fn read_uris(&self, publication_uri: &str) -> (r: Result<Vec<String>, NoFault>)
        ensures
            r is Ok,
    {
        let t = &self.documents;
        let n: usize = t.len();
        let mut out: Vec<String> = Vec::new();
        let ghost mut keys: Seq<Seq<char>> = Seq::empty();
        let mut i: usize = 0;
        while i < n
            invariant
                n == t.order().len(),
                t.order().no_duplicates(),
                i <= n,
                t@ == self.documents@,
                forall|k: Seq<char>| #[trigger] t@.dom().contains(k) <==> t.order().contains(k),
                out@.len() == keys.len(),
                keys.no_duplicates(),
                forall|j: int| 0 <= j < out@.len() ==> (#[trigger] out@[j])@ == t@[keys[j]]@.meta.uri,
                forall|k: Seq<char>| #[trigger]
                    keys.contains(k) <==> t.order().take(i as int).contains(k)
                        && t@[k]@.meta.publication == publication_uri@ && t@[k]@.read,
            decreases n - i,
        {
            let d = t.value_at(i);
            let ghost key = t.order()[i as int];
            let ghost had_keys = keys;
            if same(d.meta.publication.as_str(), publication_uri) && d.read {
                out.push(d.meta.uri.clone());
                proof {
                    keys = keys.push(key);
                    lemma_fresh_key(t.order(), i as int);
                    lemma_insert_key(had_keys, key, had_keys.len() as int);
                    assert(had_keys.insert(had_keys.len() as int, key) =~= keys);
                    assert forall|j: int| 0 <= j < out@.len() implies (#[trigger] out@[j])@
                        == t@[keys[j]]@.meta.uri by {
                        if j < had_keys.len() {
                            assert(keys[j] == had_keys[j]);
                        }
                    }
                }
            }
            proof {
                lemma_take_contains(t.order(), i as int);
            }
            i = i + 1;
        }
        proof {
            let s = self.held();
            assert(t.order().take(n as int) =~= t.order());
            assert(enumerates(keys, s.of_publication_read(publication_uri@, true)));
            assert forall|j: int| 0 <= j < out@.len() implies #[trigger] strings_view(out@)[j]
                == s.documents[keys[j]].meta.uri by {
                assert(strings_view(out@)[j] == out@[j]@);
                assert(keys.contains(keys[j]));
            }
        }
        Ok(out)
    }

    fn unread_count(&self, publication_uri: &str) -> (r: Result<usize, NoFault>)
        ensures
            r is Ok,
    {
        let t = &self.documents;
        let n: usize = t.len();
        let mut count: usize = 0;
        let ghost mut keys: Seq<Seq<char>> = Seq::empty();
        let mut i: usize = 0;
        while i < n
            invariant
                n == t.order().len(),
                t.order().no_duplicates(),
                count <= i <= n,
                t@ == self.documents@,
                forall|k: Seq<char>| #[trigger] t@.dom().contains(k) <==> t.order().contains(k),
                count == keys.len(),
                keys.no_duplicates(),
                forall|k: Seq<char>| #[trigger]
                    keys.contains(k) <==> t.order().take(i as int).contains(k)
                        && t@[k]@.meta.publication == publication_uri@ && !t@[k]@.read,
            decreases n - i,
        {
            let d = t.value_at(i);
            let ghost key = t.order()[i as int];
            let ghost had_keys = keys;
            if same(d.meta.publication.as_str(), publication_uri) && !d.read {
                count = count + 1;
                proof {
                    keys = keys.push(key);
                    lemma_fresh_key(t.order(), i as int);
                    lemma_insert_key(had_keys, key, had_keys.len() as int);
                    assert(had_keys.insert(had_keys.len() as int, key) =~= keys);
                }
            }
            proof {
                lemma_take_contains(t.order(), i as int);
            }
            i = i + 1;
        }
        proof {
            assert(t.order().take(n as int) =~= t.order());
            assert(enumerates(keys, self.held().of_publication_read(publication_uri@, false)));
        }
        Ok(count)
    }

    fn search(&self, query: &str) -> (r: Result<Vec<String>, NoFault>)
        ensures
            r is Ok,
    {
        let wanted = tokenize(query);
        let mut hits: Vec<String> = Vec::new();
        assert(strings_view(wanted@).len() == wanted@.len());
        if wanted.len() == 0 {
            assert(enumerates(strings_view(hits@), self.held().found(query@)));
            return Ok(hits);
        }
        let t = &self.documents;
        let n: usize = t.len();
        let mut i: usize = 0;
        while i < n
            invariant
                n == t.order().len(),
                t.order().no_duplicates(),
                i <= n,
                t@ == self.documents@,
                strings_view(wanted@) == terms(query@),
                forall|k: Seq<char>| #[trigger] t@.dom().contains(k) <==> t.order().contains(k),
                strings_view(hits@).no_duplicates(),
                forall|k: Seq<char>| #[trigger]
                    strings_view(hits@).contains(k) <==> t.order().take(i as int).contains(k)
                        && self.held().matches(k, query@),
            decreases n - i,
        {
            let d = t.value_at(i);
            let ghost key = t.order()[i as int];
            let ghost had = strings_view(hits@);
            if let Some(text) = &d.meta.text_content {
                if holds_terms(text.as_str(), &wanted) {
                    proof {
                        lemma_fresh_key(t.order(), i as int);
                        lemma_insert_key(had, key, had.len() as int);
                        assert(had.insert(had.len() as int, key) =~= had.push(key));
                    }
                    let name = t.key_at(i).clone();
                    proof {
                        lemma_strings_view_push(hits@, name);
                    }
                    hits.push(name);
                }
            }
            proof {
                lemma_take_contains(t.order(), i as int);
                assert(t.order().contains(key));
            }
            i = i + 1;
        }
        proof {
            assert(t.order().take(n as int) =~= t.order());
            assert(enumerates(strings_view(hits@), self.held().found(query@)));
        }
        Ok(hits)
    }

    fn put_blob(&mut self, cid: &str, bytes: &[u8]) -> (r: Result<(), NoFault>)
        ensures
            r is Ok,
            announced(
                old(self).ops(),
                final(self).ops(),
                seq![SpecStoreOp::Blob { cid: blob_name(cid@), bytes: bytes@ }],
                final(self).state(),
            ),
    {
        let ghost before = self.blobs@;
        let ghost ops = self.ops();
        let copy = vstd::slice::slice_to_vec(bytes);
        self.blobs.insert(owned(cid), copy);
        assert(bytes_map(self.blobs@) =~= bytes_map(before).insert(cid@, bytes@));
        self.emit(
            StoreOp::Blob { cid: blob_file_key(cid), bytes: vstd::slice::slice_to_vec(bytes) },
        );
        self.emit_index();
        proof {
            lemma_announced_after(
                ops,
                SpecStoreOp::Blob { cid: blob_name(cid@), bytes: bytes@ },
                self.ops(),
                self.held(),
            );
        }
        Ok(())
    }

    fn blob(&self, cid: &str) -> (r: Result<Option<Vec<u8>>, NoFault>)
        ensures
            r is Ok,
    {
        match self.blobs.get(cid) {
            Some(b) => Ok(Some(vstd::slice::slice_to_vec(b.as_slice()))),
            None => Ok(None),
        }
    }

    fn sync_cursor(&self, publication_uri: &str) -> (r: Result<Option<String>, NoFault>)
        ensures
            r is Ok,
    {
        match self.sync_cursors.get(publication_uri) {
            Some(c) => Ok(Some(c.clone())),
            None => Ok(None),
        }
    }

    fn set_sync_cursor(&mut self, publication_uri: &str, cursor: &str) -> (r: Result<(), NoFault>)
        ensures
            r is Ok,
            announced(old(self).ops(), final(self).ops(), Seq::empty(), final(self).state()),
    {
        let ghost before = self.sync_cursors@;
        self.sync_cursors.insert(owned(publication_uri), owned(cursor));
        assert(strings_map(self.sync_cursors@) =~= strings_map(before).insert(
            publication_uri@,
            cursor@,
        ));
        self.emit_index();
        Ok(())
    }

    fn older_cursor(&self, did: &str) -> (r: Result<Option<String>, NoFault>)
        ensures
            r is Ok,
    {
        match self.older_cursors.get(did) {
            Some(c) => Ok(Some(c.clone())),
            None => Ok(None),
        }
    }

    fn set_older_cursor(&mut self, did: &str, cursor: &str) -> (r: Result<(), NoFault>)
        ensures
            r is Ok,
            announced(old(self).ops(), final(self).ops(), Seq::empty(), final(self).state()),
    {
        let ghost before = self.older_cursors@;
        self.older_cursors.insert(owned(did), owned(cursor));
        assert(strings_map(self.older_cursors@) =~= strings_map(before).insert(did@, cursor@));
        self.emit_index();
        Ok(())
    }
}

impl FrontendStore for MemStore {
    fn follows(&self) -> (r: Result<Vec<String>, NoFault>)
        ensures
            r is Ok,
    {
        let t = &self.follows;
        let n: usize = t.len();
        let mut out: Vec<String> = Vec::new();
        let mut i: usize = 0;
        while i < n
            invariant
                n == t.order().len(),
                i <= n,
                out@.len() == i,
                forall|k: int| 0 <= k < i ==> (#[trigger] out@[k])@ == t.order()[k],
            decreases n - i,
        {
            out.push(t.key_at(i).clone());
            i = i + 1;
        }
        assert(strings_view(out@) =~= t.order());
        Ok(out)
    }

    fn is_followed(&self, publication_uri: &str) -> (r: Result<bool, NoFault>)
        ensures
            r is Ok,
    {
        Ok(self.follows.contains_key(publication_uri))
    }

    fn follow(&mut self, publication_uri: &str) -> (r: Result<(), NoFault>)
        ensures
            r is Ok,
            announced(old(self).ops(), final(self).ops(), Seq::empty(), final(self).state()),
    {
        let ghost before = self.follows@;
        if !self.follows.contains_key(publication_uri) {
            self.follows.insert(owned(publication_uri), String::new());
            assert(strings_map(self.follows@) =~= strings_map(before).insert(
                publication_uri@,
                Seq::empty(),
            ));
        }
        self.emit_index();
        Ok(())
    }

    fn unfollow(&mut self, publication_uri: &str) -> (r: Result<(), NoFault>)
        ensures
            r is Ok,
            announced(old(self).ops(), final(self).ops(), Seq::empty(), final(self).state()),
    {
        let ghost before = self.follows@;
        let _ = self.follows.remove(publication_uri);
        assert(strings_map(self.follows@) =~= strings_map(before).remove(publication_uri@));
        self.emit_index();
        Ok(())
    }

    fn follow_rkey(&self, publication_uri: &str) -> (r: Result<Option<String>, NoFault>)
        ensures
            r is Ok,
    {
        match self.follows.get(publication_uri) {
            Some(k) => if k.as_str().is_empty() {
                Ok(None)
            } else {
                Ok(Some(k.clone()))
            },
            None => Ok(None),
        }
    }

    fn set_follow_rkey(&mut self, publication_uri: &str, rkey: &str) -> (r: Result<(), NoFault>)
        ensures
            r is Ok,
            announced(old(self).ops(), final(self).ops(), Seq::empty(), final(self).state()),
    {
        let ghost before = self.follows@;
        self.follows.insert(owned(publication_uri), owned(rkey));
        assert(strings_map(self.follows@) =~= strings_map(before).insert(publication_uri@, rkey@));
        self.emit_index();
        Ok(())
    }

    fn show_images(&self) -> (r: Result<bool, NoFault>)
        ensures
            r is Ok,
    {
        Ok(self.show_images)
    }

    fn set_show_images(&mut self, on: bool) -> (r: Result<(), NoFault>)
        ensures
            r is Ok,
            announced(old(self).ops(), final(self).ops(), Seq::empty(), final(self).state()),
    {
        self.show_images = on;
        self.emit_index();
        Ok(())
    }
}

/// Whether a text has every one of `wanted` among its terms.
fn holds_terms(text: &str, wanted: &Vec<String>) -> (r: bool)
    ensures
        r == (forall|i: int|
            0 <= i < wanted@.len() ==> terms(text@).contains(
                #[trigger] strings_view(wanted@)[i],
            )),
{
    let have = tokenize(text);
    let mut i: usize = 0;
    while i < wanted.len()
        invariant
            i <= wanted@.len(),
            strings_view(have@) == terms(text@),
            forall|k: int|
                0 <= k < i ==> terms(text@).contains(#[trigger] strings_view(wanted@)[k]),
        decreases wanted@.len() - i,
    {
        assert(strings_view(wanted@)[i as int] == wanted@[i as int]@);
        if !list_contains(&have, wanted[i].as_str()) {
            return false;
        }
        i = i + 1;
    }
    true
}

proof fn lemma_insert_newest(
    docs: Seq<SpecDocument>,
    d: SpecDocument,
    after: Seq<SpecDocument>,
    p: int,
)
    requires
        newest_first(docs),
        0 <= p <= docs.len(),
        after == docs.insert(p, d),
        p > 0 ==> !text_less(docs[p - 1].published_at, d.published_at),
        forall|k: int| p <= k < docs.len() ==> text_less(
            (#[trigger] docs[k]).published_at,
            d.published_at,
        ),
    ensures
        newest_first(after),
{
    assert forall|i: int, j: int| 0 <= i < j < after.len() implies !text_less(
        after[i].published_at,
        after[j].published_at,
    ) by {
        if j < p {
            assert(after[i] == docs[i] && after[j] == docs[j]);
        } else if j == p {
            assert(after[i] == docs[i]);
            if i < p - 1 {
                lemma_text_not_less_trans(
                    docs[i].published_at,
                    docs[p - 1].published_at,
                    d.published_at,
                );
            }
        } else {
            assert(after[j] == docs[j - 1]);
            if i == p {
                lemma_text_less_asym(docs[j - 1].published_at, d.published_at);
            } else if i < p {
                assert(after[i] == docs[i]);
            } else {
                assert(after[i] == docs[i - 1]);
            }
        }
    }
}

pub proof fn lemma_insert_key(keys: Seq<Seq<char>>, key: Seq<char>, p: int)
    requires
        keys.no_duplicates(),
        0 <= p <= keys.len(),
    ensures
        !keys.contains(key) ==> keys.insert(p, key).no_duplicates(),
        forall|k: Seq<char>| #[trigger]
            keys.insert(p, key).contains(k) <==> keys.contains(k) || k == key,
{
    let after = keys.insert(p, key);
    assert forall|k: Seq<char>| #[trigger] after.contains(k) <==> keys.contains(k) || k == key by {
        if after.contains(k) {
            let j = choose|j: int| 0 <= j < after.len() && after[j] == k;
            if j < p {
                assert(keys[j] == k);
            } else if j > p {
                assert(keys[j - 1] == k);
            }
        }
        if keys.contains(k) {
            let j = choose|j: int| 0 <= j < keys.len() && keys[j] == k;
            if j < p {
                assert(after[j] == k);
            } else {
                assert(after[j + 1] == k);
            }
        }
        assert(after[p] == key);
    }
    if !keys.contains(key) {
        assert forall|i: int, j: int|
            0 <= i < after.len() && 0 <= j < after.len() && i != j implies after[i] != after[j] by {
            let a = if i < p {
                i
            } else {
                i - 1
            };
            let b = if j < p {
                j
            } else {
                j - 1
            };
            if i != p {
                assert(after[i] == keys[a]);
                assert(keys.contains(keys[a]));
            }
            if j != p {
                assert(after[j] == keys[b]);
                assert(keys.contains(keys[b]));
            }
        }
    }
}

pub proof fn lemma_fresh_key(order: Seq<Seq<char>>, i: int)
    requires
        order.no_duplicates(),
        0 <= i < order.len(),
    ensures
        !order.take(i).contains(order[i]),
{
    if order.take(i).contains(order[i]) {
        let j = choose|j: int| 0 <= j < i && order.take(i)[j] == order[i];
        assert(order[j] == order[i]);
    }
}

pub proof fn lemma_take_contains(order: Seq<Seq<char>>, i: int)
    requires
        0 <= i < order.len(),
    ensures
        forall|k: Seq<char>| #[trigger]
            order.take(i + 1).contains(k) <==> order.take(i).contains(k) || k == order[i],
{
    let a = order.take(i);
    let b = order.take(i + 1);
    assert forall|k: Seq<char>| #[trigger] b.contains(k) <==> a.contains(k) || k == order[i] by {
        if b.contains(k) {
            let j = choose|j: int| 0 <= j < b.len() && b[j] == k;
            if j < i {
                assert(a[j] == k);
            }
        }
        if a.contains(k) {
            let j = choose|j: int| 0 <= j < a.len() && a[j] == k;
            assert(b[j] == k);
        }
        assert(b[i] == order[i]);
    }
}

/// A change never leaves a snapshot in the outbox before the payloads that it refers to.
pub proof fn law_payloads_precede_their_snapshot(
    before: Seq<SpecStoreOp>,
    after: Seq<SpecStoreOp>,
    payloads: Seq<SpecStoreOp>,
    s: StoreState,
)
    requires
        announced(before, after, payloads, s),
    ensures
        forall|i: int|
            0 <= i < payloads.len() ==> after[before.len() + i] == #[trigger] payloads[i],
        after[after.len() - 1] is Index,
{
    assert forall|i: int| 0 <= i < payloads.len() implies after[before.len() + i]
        == #[trigger] payloads[i] by {
        assert(after.drop_last()[before.len() + i] == (before + payloads)[before.len() + i]);
    }
}

} // verus!
