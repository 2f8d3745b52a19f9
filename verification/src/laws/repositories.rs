//! Repositories: what a server says is what is read, and requests name what they ask for.
use vstd::prelude::*;

use crate::atp::xrpc::{get_blob_url, get_record_url, list_records_url};
use crate::atp::{SpecAtUri, Transport};
use crate::decode::html::Wordpress;
use crate::decode::leaflet::Leaflet;
use crate::decode::markdown::Markdown;
use crate::decode::offprint::Offprint;
use crate::decode::pckt::Pckt;
use crate::decode::unthread::Unthread;
use crate::decode::{decoded_doc, first_decoded, platform_of, ContentDecoder};
use crate::json::{member_from, SpecJson};
use crate::laws::records::{
    blob_of, document_record, law_a_document_reads_back, lemma_member_push, put, put_opt, uri_in,
    Members,
};
use crate::laws::words::{law_pieces_read_back, law_trailing_characters, law_trimming};
use crate::model::{PublishingPlatform, SpecBlock, SpecDocument, SpecInline, SpecPublication};
use crate::read::{
    any_gallery_ref, any_item_gallery_ref, block_resolved, blocks_resolved, declared_did,
    declared_from, described_body, did_resolved, dns_did, documents_of, entries_of, entry_of,
    has_gallery_ref, identity_resolved, items_resolved, page_of, page_of_reply, pds_of,
    pds_service_from, publication_fetched, record_of, record_read, records_of, well_known_did,
    SpecIdentity, SpecRead, SpecReadError, SpecRecord,
};
use crate::text::{
    begins_with, decimal, finishes_with, joined, lossy_text, pieces, skip_char, skip_char_back,
    without_around,
};

verus! {

// --- Records and pages ------------------------------------------------------------

/// A record as a server sends it.
pub open spec fn envelope(r: SpecRecord) -> SpecJson {
    SpecJson::Object(put(Seq::empty(), "uri"@, r.uri).push(("value"@, r.value)))
}

/// A page of records as a server sends it.
pub open spec fn page(records: Seq<SpecRecord>, cursor: Option<Seq<char>>) -> SpecJson {
    let entries = records.map_values(|r: SpecRecord| envelope(r));
    let m: Members = Seq::empty().push(("records"@, SpecJson::Array(entries)));
    SpecJson::Object(put_opt(m, "cursor"@, cursor))
}

/// A record reads as it was sent.
pub proof fn law_a_record_reads_back(r: SpecRecord)
    ensures
        record_of(envelope(r)) == Ok::<SpecRecord, SpecReadError>(r),
        entry_of(envelope(r)) == Some(r),
{
    broadcast use lemma_member_push;

    reveal_strlit("uri");
    reveal_strlit("value");
    assert("uri"@.len() == 3 && "value"@.len() == 5);
    let m = put(Seq::empty(), "uri"@, r.uri).push(("value"@, r.value));
    assert(member_from(m, "uri"@, 0) == Some(SpecJson::Str(r.uri)));
    assert(member_from(m, "value"@, 0) == Some(r.value));
}

proof fn lemma_entries(records: Seq<SpecRecord>, n: int)
    requires
        0 <= n <= records.len(),
    ensures
        entries_of(records.map_values(|r: SpecRecord| envelope(r)), n) == records.take(n),
    decreases n,
{
    if n > 0 {
        lemma_entries(records, n - 1);
        law_a_record_reads_back(records[n - 1]);
        assert(records.take(n) =~= records.take(n - 1).push(records[n - 1]));
    } else {
        assert(records.take(0) =~= Seq::empty());
    }
}

/// A page reads as it was sent: every record in its order, and the cursor.
pub proof fn law_a_page_reads_back(records: Seq<SpecRecord>, cursor: Option<Seq<char>>)
    ensures
        page_of(page(records, cursor)) == Ok::<(Seq<SpecRecord>, Option<Seq<char>>), SpecReadError>(
            (records, cursor),
        ),
{
    broadcast use lemma_member_push;

    reveal_strlit("records");
    reveal_strlit("cursor");
    assert("records"@.len() == 7 && "cursor"@.len() == 6);
    let entries = records.map_values(|r: SpecRecord| envelope(r));
    let m: Members = Seq::empty().push(("records"@, SpecJson::Array(entries)));
    let all = put_opt(m, "cursor"@, cursor);
    assert(member_from(m, "records"@, 0) == Some(SpecJson::Array(entries)));
    assert(member_from(m, "cursor"@, 0) is None);
    assert(member_from(all, "records"@, 0) == Some(SpecJson::Array(entries)));
    lemma_entries(records, records.len() as int);
    assert(records.take(records.len() as int) =~= records);
}

/// The records of a walk hold every record of each of its pages.
pub proof fn law_a_walk_loses_nothing(
    replies: Seq<crate::read::Reply>,
    n: int,
    i: int,
    records: Seq<SpecRecord>,
    cursor: Option<Seq<char>>,
    k: int,
)
    requires
        0 <= i < n <= replies.len(),
        page_of_reply(replies[i]) == Ok::<(Seq<SpecRecord>, Option<Seq<char>>), SpecReadError>(
            (records, cursor),
        ),
        0 <= k < records.len(),
    ensures
        records_of(replies, n).contains(records[k]),
    decreases n,
{
    let rest = records_of(replies, n - 1);
    if i < n - 1 {
        law_a_walk_loses_nothing(replies, n - 1, i, records, cursor, k);
        let j = choose|j: int| 0 <= j < rest.len() && rest[j] == records[k];
        assert(records_of(replies, n)[j] == records[k]);
    } else {
        assert(records_of(replies, n)[rest.len() + k] == records[k]);
    }
}

/// Documents are read from their records in order, and a record that is none is passed over.
pub proof fn law_documents_are_read_in_order(
    docs: Seq<SpecDocument>,
    dids: Seq<Seq<char>>,
    rests: Seq<Seq<char>>,
    covers: Seq<Option<Seq<char>>>,
    n: int,
)
    requires
        0 <= n <= docs.len(),
        docs.len() == dids.len(),
        docs.len() == rests.len(),
        docs.len() == covers.len(),
        forall|i: int|
            0 <= i < docs.len() ==> !dids[i].contains('/') && (#[trigger] docs[i]).uri == uri_in(
                dids[i],
                rests[i],
            ) && docs[i].publishing_platform is None && docs[i].cover_image == blob_of(
                dids[i],
                covers[i],
            ),
    ensures
        documents_of(
            Seq::new(
                docs.len(),
                |i: int|
                    SpecRecord { uri: docs[i].uri, value: document_record(docs[i], covers[i]) },
            ),
            n,
        ) == docs.take(n),
    decreases n,
{
    let records = Seq::new(
        docs.len(),
        |i: int| SpecRecord { uri: docs[i].uri, value: document_record(docs[i], covers[i]) },
    );
    if n > 0 {
        law_documents_are_read_in_order(docs, dids, rests, covers, n - 1);
        let d = docs[n - 1];
        law_a_document_reads_back(d, dids[n - 1], rests[n - 1], covers[n - 1]);
        assert(records[n - 1].value == document_record(d, covers[n - 1]));
        assert(docs.take(n) =~= docs.take(n - 1).push(d));
    } else {
        assert(docs.take(0) =~= Seq::empty());
    }
}

// --- Identity ---------------------------------------------------------------------

/// A service of a DID document.
pub struct Service {
    pub id: Seq<char>,
    pub kind: Seq<char>,
    pub endpoint: Seq<char>,
}

/// A service as a DID document has it.
pub open spec fn service(s: Service) -> SpecJson {
    SpecJson::Object(
        put(put(put(Seq::empty(), "id"@, s.id), "type"@, s.kind), "serviceEndpoint"@, s.endpoint),
    )
}

/// A DID document.
pub open spec fn did_document(services: Seq<Service>) -> SpecJson {
    let all = services.map_values(|s: Service| service(s));
    let m: Members = Seq::empty().push(("service"@, SpecJson::Array(all)));
    SpecJson::Object(m)
}

/// A service is a repository server.
pub open spec fn serves(s: Service) -> bool {
    s.kind == "AtprotoPersonalDataServer"@ || finishes_with(s.id, "#atproto_pds"@)
}

proof fn lemma_service(s: Service)
    ensures
        service(s).get_str("id"@) == Some(s.id),
        service(s).get_str("type"@) == Some(s.kind),
        service(s).get_str("serviceEndpoint"@) == Some(s.endpoint),
        crate::read::is_pds_service(service(s)) == serves(s),
{
    broadcast use lemma_member_push;

    reveal_strlit("id");
    reveal_strlit("type");
    reveal_strlit("serviceEndpoint");
    assert("id"@.len() == 2 && "type"@.len() == 4 && "serviceEndpoint"@.len() == 15);
    let m = put(
        put(put(Seq::empty(), "id"@, s.id), "type"@, s.kind),
        "serviceEndpoint"@,
        s.endpoint,
    );
    assert(member_from(m, "id"@, 0) == Some(SpecJson::Str(s.id)));
    assert(member_from(m, "type"@, 0) == Some(SpecJson::Str(s.kind)));
    assert(member_from(m, "serviceEndpoint"@, 0) == Some(SpecJson::Str(s.endpoint)));
}

proof fn lemma_service_found(services: Seq<Service>, from: int, k: int)
    requires
        0 <= from <= k < services.len(),
        serves(services[k]),
        forall|i: int| from <= i < k ==> !serves(#[trigger] services[i]),
    ensures
        pds_service_from(services.map_values(|s: Service| service(s)), from) == Some(
            service(services[k]),
        ),
    decreases k - from,
{
    lemma_service(services[from]);
    if from < k {
        lemma_service_found(services, from + 1, k);
    }
}

/// The server of a repository is the first that its DID document names as one, and slashes
/// at the end of its address do not matter.
pub proof fn law_the_server_is_the_declared_one(
    services: Seq<Service>,
    k: int,
    pds: Seq<char>,
    slashes: nat,
)
    requires
        0 <= k < services.len(),
        serves(services[k]),
        forall|i: int| 0 <= i < k ==> !serves(#[trigger] services[i]),
        services[k].endpoint == pds + Seq::new(slashes, |i: int| '/'),
        pds.len() > 0 ==> pds.last() != '/',
    ensures
        pds_of(did_document(services)) == Some(pds),
{
    broadcast use lemma_member_push;

    let all = services.map_values(|s: Service| service(s));
    let m: Members = Seq::empty().push(("service"@, SpecJson::Array(all)));
    assert(member_from(m, "service"@, 0) == Some(SpecJson::Array(all)));
    lemma_service_found(services, 0, k);
    lemma_service(services[k]);
    law_trailing_characters(pds, '/', slashes);
}

/// A DNS answer that declares a text.
pub open spec fn answer(data: Seq<char>) -> SpecJson {
    SpecJson::Object(put(Seq::empty(), "data"@, data))
}

/// A DNS reply.
pub open spec fn dns_reply(data: Seq<Seq<char>>) -> SpecJson {
    let all = data.map_values(|d: Seq<char>| answer(d));
    let m: Members = Seq::empty().push(("Answer"@, SpecJson::Array(all)));
    SpecJson::Object(m)
}

pub proof fn lemma_unquoted(s: Seq<char>, quotes: nat)
    requires
        s.len() > 0,
        s[0] != '"',
        s.last() != '"',
    ensures
        without_around(Seq::new(quotes, |i: int| '"') + s + Seq::new(quotes, |i: int| '"'), '"')
            == s,
{
    let q = Seq::new(quotes, |i: int| '"');
    let all = q + s + q;
    lemma_skips(all, 0, quotes as int);
    assert(all[quotes as int] == s[0]);
    assert(all[quotes + s.len() - 1] == s.last());
    let n = (quotes + s.len()) as int;
    lemma_skips_back(all, quotes as int, n, all.len() as int);
    assert(all.subrange(quotes as int, n) =~= s);
}

proof fn lemma_skips(s: Seq<char>, i: int, n: int)
    requires
        0 <= i <= n < s.len(),
        forall|k: int| i <= k < n ==> #[trigger] s[k] == '"',
        s[n] != '"',
    ensures
        skip_char(s, '"', i) == n,
    decreases n - i,
{
    if i < n {
        assert(s[i] == '"');
        lemma_skips(s, i + 1, n);
    }
}

proof fn lemma_skips_back(s: Seq<char>, lo: int, n: int, j: int)
    requires
        0 <= lo < n <= j <= s.len(),
        forall|k: int| n <= k < j ==> #[trigger] s[k] == '"',
        s[n - 1] != '"',
    ensures
        skip_char_back(s, '"', lo, j) == n,
    decreases j,
{
    if n < j {
        assert(s[j - 1] == '"');
        lemma_skips_back(s, lo, n, j - 1);
    }
}

/// A DID that the first DNS record declares is the one found, in quotes or without.
pub proof fn law_dns_declares_the_did(did: Seq<char>, quotes: nat, others: Seq<Seq<char>>)
    requires
        begins_with(did, "did:"@),
        did.last() != '"',
    ensures
        ({
            let q = Seq::new(quotes, |i: int| '"');
            dns_did(dns_reply(seq![q + ("did="@ + did) + q] + others)) == Some(did)
        }),
{
    broadcast use lemma_member_push;

    reveal_strlit("did=");
    reveal_strlit("did:");
    let q = Seq::new(quotes, |i: int| '"');
    let said = "did="@ + did;
    let data = seq![q + said + q] + others;
    let all = data.map_values(|d: Seq<char>| answer(d));
    let m: Members = Seq::empty().push(("Answer"@, SpecJson::Array(all)));
    assert(member_from(m, "Answer"@, 0) == Some(SpecJson::Array(all)));
    assert(said[0] == 'd');
    lemma_unquoted(said, quotes);
    assert(said.subrange(0, 4) =~= "did="@);
    assert(said.subrange(4, said.len() as int) =~= did);
    assert(declared_did(q + said + q) == Some(did));
    let one = put(Seq::empty(), "data"@, q + said + q);
    assert(member_from(one, "data"@, 0) == Some(SpecJson::Str(q + said + q)));
    assert(all[0] == answer(q + said + q));
    assert(declared_from(all, 0) == Some(did));
}

/// A well-known file that holds a DID gives it, whatever whitespace stands around it.
pub proof fn law_the_well_known_file_is_read(
    bytes: Seq<u8>,
    before: Seq<char>,
    did: Seq<char>,
    after: Seq<char>,
)
    requires
        lossy_text(bytes) == before + did + after,
        crate::laws::words::is_space(before),
        crate::laws::words::is_space(after),
        begins_with(did, "did:"@),
        !crate::text::unicode_whitespace(did.last()),
    ensures
        well_known_did(bytes) == Some(did),
{
    reveal_strlit("did:");
    assert(did.subrange(0, 4)[0] == 'd');
    assert(did[0] == 'd');
    law_trimming(before, did, after);
}

/// What a handle resolves to is a DID, and a repository that is named by its DID is that
/// repository.
pub proof fn law_identities_are_dids<T: Transport>(
    t: T,
    input: Seq<char>,
    did: Seq<char>,
    id: SpecIdentity,
)
    ensures
        did_resolved(t, input, Ok(did)) ==> begins_with(did, "did:"@),
        begins_with(input, "did:"@) && identity_resolved(t, input, Ok(id)) ==> id.did == input,
        identity_resolved(t, input, Ok(id)) ==> begins_with(id.did, "did:"@),
{
}

/// A publication is fetched together with the repository that its URI names.
pub proof fn law_a_publication_comes_with_its_repository<T: Transport>(
    t: T,
    uri: SpecAtUri,
    p: SpecPublication,
    id: SpecIdentity,
)
    requires
        publication_fetched(t, uri, Ok((p, id))),
    ensures
        id.did == uri.did,
        crate::read::pds_resolved(t, uri.did, Ok(id.pds)),
{
}

// --- Requests ---------------------------------------------------------------------

/// Text that can stand in a query.
pub open spec fn queryable(s: Seq<char>) -> bool {
    !s.contains('&')
}

pub proof fn lemma_labelled(label: Seq<char>, s: Seq<char>)
    requires
        queryable(label),
        queryable(s),
    ensures
        queryable(label + s),
{
    let all = label + s;
    assert forall|i: int| 0 <= i < all.len() implies all[i] != '&' by {
        if i < label.len() {
            assert(label.contains(label[i]));
            assert(all[i] == label[i]);
        } else {
            assert(s.contains(s[i - label.len()]));
            assert(all[i] == s[i - label.len()]);
        }
    }
}

/// A request for a record names the repository, the collection and the record, each once.
pub proof fn law_a_record_is_asked_for(
    pds: Seq<char>,
    did: Seq<char>,
    collection: Seq<char>,
    rkey: Seq<char>,
)
    requires
        queryable(did),
        queryable(collection),
        queryable(rkey),
    ensures
        ({
            let start = pds + "/xrpc/com.atproto.repo.getRecord?"@;
            let url = get_record_url(pds, did, collection, rkey);
            &&& url.take(start.len() as int) == start
            &&& pieces(url.skip(start.len() as int), '&') == seq![
                "repo="@ + did,
                "collection="@ + collection,
                "rkey="@ + rkey,
            ]
        }),
{
    reveal_strlit("/xrpc/com.atproto.repo.getRecord?");
    reveal_strlit("/xrpc/com.atproto.repo.getRecord?repo=");
    reveal_strlit("repo=");
    reveal_strlit("collection=");
    reveal_strlit("&collection=");
    reveal_strlit("rkey=");
    reveal_strlit("&rkey=");
    let start = pds + "/xrpc/com.atproto.repo.getRecord?"@;
    let url = get_record_url(pds, did, collection, rkey);
    let parts = seq!["repo="@ + did, "collection="@ + collection, "rkey="@ + rkey];
    lemma_labelled("repo="@, did);
    lemma_labelled("collection="@, collection);
    lemma_labelled("rkey="@, rkey);
    law_pieces_read_back(parts, '&');
    lemma_joined_three(parts[0], parts[1], parts[2]);
    assert(url.take(start.len() as int) =~= start);
    assert(url.skip(start.len() as int) =~= joined(parts, seq!['&']));
}

pub proof fn lemma_joined_three(a: Seq<char>, b: Seq<char>, c: Seq<char>)
    ensures
        joined(seq![a, b, c], seq!['&']) == a + seq!['&'] + b + seq!['&'] + c,
        joined(seq![a, b], seq!['&']) == a + seq!['&'] + b,
{
    assert(seq![a, b, c].drop_last() =~= seq![a, b]);
    assert(seq![a, b].drop_last() =~= seq![a]);
    assert(joined(seq![a], seq!['&']) == a);
    assert(seq![a, b].last() == b && seq![a, b, c].last() == c);
    assert(joined(seq![a, b], seq!['&']) == a + seq!['&'] + b);
}

/// A request for a blob names the repository and the blob, each once.
pub proof fn law_a_blob_is_asked_for(pds: Seq<char>, did: Seq<char>, cid: Seq<char>)
    requires
        queryable(did),
        queryable(cid),
    ensures
        ({
            let start = pds + "/xrpc/com.atproto.sync.getBlob?"@;
            let url = get_blob_url(pds, did, cid);
            &&& url.take(start.len() as int) == start
            &&& pieces(url.skip(start.len() as int), '&') == seq!["did="@ + did, "cid="@ + cid]
        }),
{
    reveal_strlit("/xrpc/com.atproto.sync.getBlob?");
    reveal_strlit("/xrpc/com.atproto.sync.getBlob?did=");
    reveal_strlit("did=");
    reveal_strlit("cid=");
    reveal_strlit("&cid=");
    let start = pds + "/xrpc/com.atproto.sync.getBlob?"@;
    let url = get_blob_url(pds, did, cid);
    let parts = seq!["did="@ + did, "cid="@ + cid];
    lemma_labelled("did="@, did);
    lemma_labelled("cid="@, cid);
    law_pieces_read_back(parts, '&');
    lemma_joined_three(parts[0], parts[1], parts[1]);
    assert(url.take(start.len() as int) =~= start);
    assert(url.skip(start.len() as int) =~= joined(parts, seq!['&']));
}

/// A request for a page goes on where the cursor says: it is the request for the first page
/// with the cursor behind it.
pub proof fn law_a_page_is_asked_for(
    pds: Seq<char>,
    did: Seq<char>,
    collection: Seq<char>,
    limit: u32,
    cursor: Seq<char>,
)
    requires
        queryable(did),
        queryable(collection),
    ensures
        list_records_url(pds, did, collection, limit, Some(cursor)) == list_records_url(
            pds,
            did,
            collection,
            limit,
            None,
        ) + "&cursor="@ + cursor,
        ({
            let start = pds + "/xrpc/com.atproto.repo.listRecords?"@;
            let url = list_records_url(pds, did, collection, limit, None);
            &&& url.take(start.len() as int) == start
            &&& pieces(url.skip(start.len() as int), '&') == seq![
                "repo="@ + did,
                "collection="@ + collection,
                "limit="@ + decimal(limit as nat),
            ]
        }),
{
    reveal_strlit("/xrpc/com.atproto.repo.listRecords?");
    reveal_strlit("/xrpc/com.atproto.repo.listRecords?repo=");
    reveal_strlit("repo=");
    reveal_strlit("collection=");
    reveal_strlit("&collection=");
    reveal_strlit("limit=");
    reveal_strlit("&limit=");
    let start = pds + "/xrpc/com.atproto.repo.listRecords?"@;
    let url = list_records_url(pds, did, collection, limit, None);
    let n = decimal(limit as nat);
    lemma_digits(limit as nat);
    let parts = seq!["repo="@ + did, "collection="@ + collection, "limit="@ + n];
    lemma_labelled("repo="@, did);
    lemma_labelled("collection="@, collection);
    lemma_labelled("limit="@, n);
    law_pieces_read_back(parts, '&');
    lemma_joined_three(parts[0], parts[1], parts[2]);
    assert(url.take(start.len() as int) =~= start);
    assert(url.skip(start.len() as int) =~= joined(parts, seq!['&']));
}

proof fn lemma_digits(n: nat)
    ensures
        queryable(decimal(n)),
    decreases n,
{
    let s = decimal(n);
    if n >= 10 {
        lemma_digits(n / 10);
        let before = decimal(n / 10);
        assert forall|i: int| 0 <= i < s.len() implies s[i] != '&' by {
            if i < before.len() {
                assert(before.contains(before[i]));
                assert(s[i] == before[i]);
            }
        }
    }
}

// --- Bodies -----------------------------------------------------------------------

/// Content is read by the decoder of its format, and shows the platform that it was written
/// on.
pub proof fn law_each_format_has_its_decoder(c: SpecJson, did: Seq<char>)
    ensures
        c is Str ==> first_decoded(c, did) == Markdown.decoded(c, did),
        !(c is Str) && c.get_str("$type"@) == Some("at.markpub.markdown"@) ==> first_decoded(c, did)
            == Markdown.decoded(c, did) && platform_of(Some(c)) is None,
        !(c is Str) && c.get_str("$type"@) == Some("pub.leaflet.content"@) ==> first_decoded(c, did)
            == Leaflet.decoded(c, did) && platform_of(Some(c)) == Some(PublishingPlatform::Leaflet),
        !(c is Str) && c.get_str("$type"@) == Some("blog.pckt.content"@) ==> first_decoded(c, did)
            == Pckt.decoded(c, did) && platform_of(Some(c)) == Some(PublishingPlatform::Pckt),
        !(c is Str) && c.get_str("$type"@) == Some("app.offprint.content"@) ==> first_decoded(
            c,
            did,
        ) == Offprint.decoded(c, did) && platform_of(Some(c)) == Some(PublishingPlatform::Offprint),
        !(c is Str) && c.get_str("$type"@) == Some("org.wordpress.html"@) ==> first_decoded(c, did)
            == Wordpress.decoded(c, did) && platform_of(Some(c)) == Some(
            PublishingPlatform::Wordpress,
        ),
        !(c is Str) && c.get_str("$type"@) == Some("at.unthread.content"@) ==> first_decoded(c, did)
            == Unthread.decoded(c, did) && platform_of(Some(c)) == Some(
            PublishingPlatform::Unthread,
        ),
{
    crate::decode::law_at_most_one_decoder_claims(c);
    reveal_strlit("at.markpub.markdown");
    reveal_strlit("pub.leaflet.content");
    reveal_strlit("blog.pckt.content");
    reveal_strlit("app.offprint.content");
    reveal_strlit("org.wordpress.html");
    reveal_strlit("at.unthread.content");
    assert("at.markpub.markdown"@.len() == 19 && "at.markpub.markdown"@[3] == 'm');
    assert("pub.leaflet.content"@.len() == 19 && "pub.leaflet.content"@[3] == '.');
    assert("blog.pckt.content"@.len() == 17 && "app.offprint.content"@.len() == 20);
    assert("org.wordpress.html"@.len() == 18);
    assert("at.unthread.content"@.len() == 19 && "at.unthread.content"@[3] == 'u');
}

/// A body stays as it is, and where there is none the description is shown.
pub proof fn law_a_description_stands_in(body: Seq<SpecBlock>, d: Seq<char>)
    ensures
        body.len() > 0 ==> described_body(body, Some(d)) == body,
        described_body(body, None) == body,
        body.len() == 0 && crate::text::trimmed(d).len() > 0 ==> described_body(body, Some(d))
            == seq![SpecBlock::Paragraph(seq![SpecInline::Text(d)])],
{
}

/// Fetching galleries changes nothing where there are none.
pub proof fn law_only_galleries_are_fetched<T: Transport>(
    t: T,
    did: Seq<char>,
    pds: Seq<char>,
    before: Seq<SpecBlock>,
    after: Seq<SpecBlock>,
)
    requires
        blocks_resolved(t, did, pds, before, after),
        !any_gallery_ref(before),
    ensures
        after == before,
    decreases before,
{
    if before.len() > 0 {
        if after.len() > 0 && blocks_resolved(
            t,
            did,
            pds,
            before.drop_last(),
            after.drop_last(),
        ) && block_resolved(t, did, pds, before.last(), seq![after.last()]) {
            law_only_galleries_are_fetched(t, did, pds, before.drop_last(), after.drop_last());
            lemma_block_kept(t, did, pds, before.last(), seq![after.last()]);
            assert(seq![after.last()][0] == after.last());
            assert(before.drop_last().push(before.last()) =~= before);
            assert(after.drop_last().push(after.last()) =~= after);
        } else {
            lemma_block_kept(t, did, pds, before.last(), Seq::empty());
            assert(Seq::<SpecBlock>::empty().len() == seq![before.last()].len());
        }
    } else {
        assert(after =~= before);
    }
}

proof fn lemma_block_kept<T: Transport>(
    t: T,
    did: Seq<char>,
    pds: Seq<char>,
    b: SpecBlock,
    after: Seq<SpecBlock>,
)
    requires
        block_resolved(t, did, pds, b, after),
        !has_gallery_ref(b),
    ensures
        after == seq![b],
    decreases b,
{
    match b {
        SpecBlock::Quote(inner) => {
            law_only_galleries_are_fetched(t, did, pds, inner, after[0]->Quote_0);
            assert(after =~= seq![b]);
        },
        SpecBlock::List { ordered, items } => {
            lemma_items_kept(t, did, pds, items, after[0]->items);
            assert(after =~= seq![b]);
        },
        _ => {},
    }
}

proof fn lemma_items_kept<T: Transport>(
    t: T,
    did: Seq<char>,
    pds: Seq<char>,
    before: Seq<Seq<SpecBlock>>,
    after: Seq<Seq<SpecBlock>>,
)
    requires
        items_resolved(t, did, pds, before, after),
        !any_item_gallery_ref(before),
    ensures
        after == before,
    decreases before,
{
    if before.len() > 0 {
        lemma_items_kept(t, did, pds, before.drop_last(), after.drop_last());
        law_only_galleries_are_fetched(t, did, pds, before.last(), after.last());
        assert(before.drop_last().push(before.last()) =~= before);
        assert(after.drop_last().push(after.last()) =~= after);
    } else {
        assert(after =~= before);
    }
}

/// What is read of a document: its record's members, and a body that is its content decoded,
/// where the content stands in the record and holds no galleries.
pub proof fn law_a_document_is_read<T: Transport>(
    t: T,
    uri: SpecAtUri,
    pds: Seq<char>,
    value: SpecJson,
    content: SpecJson,
    d: SpecDocument,
    body: Seq<SpecBlock>,
)
    requires
        record_read(t, uri, pds, value, Ok((d, body))),
        value.get("content"@) == Some(content),
        crate::decode::pckt::external_cid_of(content) is None,
        crate::read::ref_of(Some(content)) is None,
        !any_gallery_ref(decoded_doc(Some(content), value.get_str("textContent"@), uri.did)),
    ensures
        crate::read::document_of(value, uri.printed()) == Some(
            SpecDocument { publishing_platform: None, ..d },
        ),
        d.publishing_platform == platform_of(Some(content)),
        body == described_body(
            decoded_doc(Some(content), value.get_str("textContent"@), uri.did),
            d.description,
        ),
{
    let meta = crate::read::document_of(value, uri.printed())->0;
    let r: Result<SpecRead, SpecReadError> = Ok((d, body));
    let found = choose|found: Option<SpecJson>|
        {
            &&& #[trigger] crate::read::content_found(t, uri.did, pds, value, found)
            &&& crate::read::content_read(t, uri, pds, value, meta, found, r)
        };
    assert(found == Some(content));
    let decoded = decoded_doc(Some(content), value.get_str("textContent"@), uri.did);
    let read = choose|read: Result<Seq<SpecBlock>, SpecReadError>|
        {
            &&& #[trigger] crate::read::body_found(t, uri.did, pds, found, value, read)
            &&& match read {
                Err(e) => r == Err::<SpecRead, SpecReadError>(e),
                Ok(b) => exists|blocks: Seq<SpecBlock>|
                    {
                        &&& #[trigger] blocks_resolved(t, uri.did, pds, b, blocks)
                        &&& r == Ok::<SpecRead, SpecReadError>(
                            (
                                SpecDocument {
                                    publishing_platform: crate::read::document_platform(found),
                                    ..meta
                                },
                                described_body(blocks, meta.description),
                            ),
                        )
                    },
            }
        };
    assert(read == Ok::<Seq<SpecBlock>, SpecReadError>(decoded));
    let blocks = choose|blocks: Seq<SpecBlock>|
        {
            &&& #[trigger] blocks_resolved(t, uri.did, pds, decoded, blocks)
            &&& r == Ok::<SpecRead, SpecReadError>(
                (
                    SpecDocument {
                        publishing_platform: crate::read::document_platform(found),
                        ..meta
                    },
                    described_body(blocks, meta.description),
                ),
            )
        };
    law_only_galleries_are_fetched(t, uri.did, pds, decoded, blocks);
}

/// Items that were moved to a blob are put back before the content is read, and everything
/// else in it stays; where the blob cannot be read the content is as it is.
pub proof fn law_moved_items_are_put_back<T: Transport>(
    t: T,
    did: Seq<char>,
    pds: Seq<char>,
    value: SpecJson,
    m: Members,
    cid: Seq<char>,
    found: Option<SpecJson>,
    other: Seq<char>,
)
    requires
        value.get("content"@) == Some(SpecJson::Object(m)),
        crate::decode::pckt::external_cid_of(SpecJson::Object(m)) == Some(cid),
        crate::read::content_found(t, did, pds, value, found),
    ensures
        exists|reply: crate::read::Reply| #[trigger]
            t.answers(get_blob_url(pds, did, cid), reply) && (match crate::read::json_of_reply(
                reply,
            ) {
                Ok(items) => found is Some && found->0.get("items"@) == Some(items) && (other
                    != "items"@ ==> found->0.get(other) == SpecJson::Object(m).get(other)),
                Err(_) => found == Some(SpecJson::Object(m)),
            }),
{
    let reply = choose|reply: crate::read::Reply| #[trigger]
        t.answers(get_blob_url(pds, did, cid), reply) && found == Some(
            match crate::read::json_of_reply(reply) {
                Ok(items) => crate::read::spliced(SpecJson::Object(m), items),
                Err(_) => SpecJson::Object(m),
            },
        );
    if let Ok(items) = crate::read::json_of_reply(reply) {
        crate::json::law_set_member_reads_back(m, "items"@, items, other);
    }
    assert(t.answers(get_blob_url(pds, did, cid), reply));
}

/// Content that refers to a record is read from that record: its own content and text.
pub proof fn law_a_reference_is_followed<T: Transport>(
    t: T,
    did: Seq<char>,
    pds: Seq<char>,
    content: SpecJson,
    value: SpecJson,
    at: SpecAtUri,
    body: Seq<SpecBlock>,
)
    requires
        crate::read::ref_of(Some(content)) == Some(at),
        at.did == did,
        crate::read::body_found(t, did, pds, Some(content), value, Ok(body)),
    ensures
        exists|reply: crate::read::Reply| #[trigger]
            t.answers(get_record_url(pds, at.did, at.collection, at.rkey), reply) && (
            crate::read::record_of_reply(reply) matches Ok(record) && body == decoded_doc(
                record.value.get("content"@),
                record.value.get_str("textContent"@),
                did,
            )),
{
    let server = choose|server: Result<Seq<char>, SpecReadError>|
        {
            &&& #[trigger] crate::read::ref_server(t, at, did, pds, server)
            &&& match server {
                Err(e) => Ok::<Seq<SpecBlock>, SpecReadError>(body) == Err::<
                    Seq<SpecBlock>,
                    SpecReadError,
                >(e),
                Ok(s) => exists|reply: crate::read::Reply| #[trigger]
                    t.answers(crate::read::record_url(s, at), reply) && Ok::<
                        Seq<SpecBlock>,
                        SpecReadError,
                    >(body) == (match crate::read::record_of_reply(reply) {
                        Ok(record) => Ok(
                            crate::read::body_of(record.value.get("content"@), record.value, did),
                        ),
                        Err(e) => Err(e),
                    }),
            }
        };
    assert(server == Ok::<Seq<char>, SpecReadError>(pds));
    let reply = choose|reply: crate::read::Reply| #[trigger]
        t.answers(crate::read::record_url(pds, at), reply) && Ok::<Seq<SpecBlock>, SpecReadError>(
            body,
        ) == (match crate::read::record_of_reply(reply) {
            Ok(record) => Ok(
                crate::read::body_of(record.value.get("content"@), record.value, did),
            ),
            Err(e) => Err(e),
        });
    assert(t.answers(get_record_url(pds, at.did, at.collection, at.rkey), reply));
}

} // verus!
