//! The read pipeline: live records become decoded documents.
//!
//! Identity resolution, listing and fetching, response parsing and decode dispatch, as
//! functions over an injected [`Transport`]. The pipeline returns model values and
//! leaves it to the caller what to cache.
//!
//! What a server answers is not a function of the request, so the contracts of the
//! functions that fetch speak of replies: those of a server to these URLs, of which the
//! result is the stated function. They do not say that nothing else was asked for.
use vstd::prelude::*;

use crate::atp::xrpc::{
    get_blob_url, get_record_url, list_records_url, plc_directory_url,
};
use crate::atp::{reply_view, xrpc, AtUri, SpecAtUri, Transport};
use crate::decode::image::{blob_image, blob_image_of};
use crate::decode::pckt::{
    external_cid_of, external_content_cid, gallery_images, gallery_images_of,
};
use crate::decode::{
    content_ref, content_ref_of, decoded_doc, paragraphs_of, platform_of, typeset, DecodeCtx,
    Registry,
};
use crate::json::{array_view, copy_json, json_text, lemma_array_view, parse_json, Json, SpecJson};
use crate::model::{
    block_view, blocks_view, documents_view, group_model_push, images_view, items_view,
    lemma_blocks_view, lemma_documents_push, lemma_items_view, lemma_publications_push, one_block,
    one_inline, opt_image_view, opt_view, owned_opt, publications_view, Block, Document, Image,
    Inline, Publication, PublishingPlatform, RichDoc, SpecBlock, SpecDocument, SpecImage,
    SpecInline, SpecPublication, SpecSubscription, Subscription,
};
use crate::text::{
    after_prefix, begins_with, chars_of, contains, ends_with, find_char, find_chars, find_from,
    find_sub_from, finishes_with, has_sub, join2, lemma_strings_view_push, lossy_text, owned,
    pieces_by, replace_char, same, slice_of, split_str, starts_with, strings_view, strip_prefix,
    swapped, text_of_bytes, trim, trim_char, trim_end_char, trimmed, without_around,
    without_trailing,
};

verus! {

/// A resolved repository: its DID and the server that hosts it.
#[derive(Debug, PartialEq)]
pub struct Identity {
    pub did: String,
    pub pds: String,
}

/// [`Identity`] over character sequences.
pub struct SpecIdentity {
    pub did: Seq<char>,
    pub pds: Seq<char>,
}

impl View for Identity {
    type V = SpecIdentity;

    open spec fn view(&self) -> SpecIdentity {
        SpecIdentity { did: self.did@, pds: self.pds@ }
    }
}

impl Clone for Identity {
    fn clone(&self) -> (r: Self)
        ensures
            r@ == self@,
    {
        Identity { did: self.did.clone(), pds: self.pds.clone() }
    }
}

/// Anything that can go wrong while reading.
#[derive(Debug, PartialEq)]
pub enum ReadError {
    /// The transport failed (network, TLS, HTTP status).
    Transport(String),
    /// Identity resolution failed.
    Resolve(String),
    /// A response was not of the expected shape.
    Parse(String),
    /// An AT-URI did not parse.
    BadUri(String),
}

/// [`ReadError`] over character sequences.
pub enum SpecReadError {
    Transport(Seq<char>),
    Resolve(Seq<char>),
    Parse(Seq<char>),
    BadUri(Seq<char>),
}

impl View for ReadError {
    type V = SpecReadError;

    open spec fn view(&self) -> SpecReadError {
        match *self {
            ReadError::Transport(m) => SpecReadError::Transport(m@),
            ReadError::Resolve(m) => SpecReadError::Resolve(m@),
            ReadError::Parse(m) => SpecReadError::Parse(m@),
            ReadError::BadUri(m) => SpecReadError::BadUri(m@),
        }
    }
}

impl SpecReadError {
    /// The error as a line of text.
    pub open spec fn described(self) -> Seq<char> {
        match self {
            SpecReadError::Transport(m) => "transport error: "@ + m,
            SpecReadError::Resolve(m) => "resolve error: "@ + m,
            SpecReadError::Parse(m) => "parse error: "@ + m,
            SpecReadError::BadUri(m) => "bad AT-URI: "@ + m,
        }
    }
}

impl ReadError {
    /// The error as a line of text.
    pub fn to_string(&self) -> (r: String)
        ensures
            r@ == self@.described(),
    {
        match self {
            ReadError::Transport(m) => join2("transport error: ", m.as_str()),
            ReadError::Resolve(m) => join2("resolve error: ", m.as_str()),
            ReadError::Parse(m) => join2("parse error: ", m.as_str()),
            ReadError::BadUri(m) => join2("bad AT-URI: ", m.as_str()),
        }
    }
}

/// A transport's reply: the bytes, or a message.
pub type Reply = Result<Seq<u8>, Seq<char>>;

/// A string or an error, by view.
pub open spec fn text_result(r: Result<String, ReadError>) -> Result<Seq<char>, SpecReadError> {
    match r {
        Ok(s) => Ok(s@),
        Err(e) => Err(e@),
    }
}

/// Bytes or an error, by view.
pub open spec fn bytes_result(r: Result<Vec<u8>, ReadError>) -> Result<Seq<u8>, SpecReadError> {
    match r {
        Ok(b) => Ok(b@),
        Err(e) => Err(e@),
    }
}

/// A value or an error, by view.
pub open spec fn json_result(r: Result<Json, ReadError>) -> Result<SpecJson, SpecReadError> {
    match r {
        Ok(v) => Ok(v@),
        Err(e) => Err(e@),
    }
}

// --- Requests ---------------------------------------------------------------------

/// A reply's bytes, a failure being the transport's.
pub open spec fn bytes_of_reply(reply: Reply) -> Result<Seq<u8>, SpecReadError> {
    match reply {
        Ok(b) => Ok(b),
        Err(m) => Err(SpecReadError::Transport(m)),
    }
}

/// Bytes read as JSON.
pub open spec fn json_of_bytes(b: Seq<u8>) -> Result<SpecJson, SpecReadError> {
    match json_text(b) {
        Ok(v) => Ok(v),
        Err(m) => Err(SpecReadError::Parse(m)),
    }
}

/// A reply read as JSON.
pub open spec fn json_of_reply(reply: Reply) -> Result<SpecJson, SpecReadError> {
    match bytes_of_reply(reply) {
        Ok(b) => json_of_bytes(b),
        Err(e) => Err(e),
    }
}

/// Bytes read as JSON.
fn read_json(bytes: &[u8]) -> (r: Result<Json, ReadError>)
    ensures
        json_result(r) == json_of_bytes(bytes@),
{
    match parse_json(bytes) {
        Ok(v) => Ok(v),
        Err(m) => Err(ReadError::Parse(m)),
    }
}

/// Fetch `url`, a failure being the transport's.
fn get<T: Transport>(t: &T, url: &str) -> (r: (Result<Vec<u8>, ReadError>, Ghost<Reply>))
    ensures
        t.answers(url@, r.1@),
        bytes_result(r.0) == bytes_of_reply(r.1@),
{
    let reply = t.get(url);
    let ghost given = reply_view(reply);
    match reply {
        Ok(b) => (Ok(b), Ghost(given)),
        Err(m) => (Err(ReadError::Transport(m)), Ghost(given)),
    }
}

/// Fetch `url` and read the reply as JSON.
fn get_json<T: Transport>(t: &T, url: &str) -> (r: (Result<Json, ReadError>, Ghost<Reply>))
    ensures
        t.answers(url@, r.1@),
        json_result(r.0) == json_of_reply(r.1@),
{
    let (bytes, reply) = get(t, url);
    match bytes {
        Ok(b) => (read_json(b.as_slice()), reply),
        Err(e) => (Err(e), reply),
    }
}

// --- Response parsers -------------------------------------------------------------

/// A record as `getRecord` and `listRecords` give it.
pub struct Record {
    pub uri: String,
    pub value: Json,
}

/// [`Record`] over sequences.
pub struct SpecRecord {
    pub uri: Seq<char>,
    pub value: SpecJson,
}

impl View for Record {
    type V = SpecRecord;

    open spec fn view(&self) -> SpecRecord {
        SpecRecord { uri: self.uri@, value: self.value@ }
    }
}

/// Records by their views.
pub open spec fn records_view(s: Seq<Record>) -> Seq<SpecRecord> {
    s.map_values(|r: Record| r@)
}

/// Appending a record appends its view.
pub broadcast proof fn lemma_records_push(s: Seq<Record>, x: Record)
    ensures
        #[trigger] records_view(s.push(x)) == records_view(s).push(x@),
{
    assert(records_view(s.push(x)) =~= records_view(s).push(x@));
}

/// A record or an error, by view.
pub open spec fn record_result(r: Result<Record, ReadError>) -> Result<SpecRecord, SpecReadError> {
    match r {
        Ok(v) => Ok(v@),
        Err(e) => Err(e@),
    }
}

/// The record of a `{ uri, cid, value }` envelope.
pub open spec fn record_of(v: SpecJson) -> Result<SpecRecord, SpecReadError> {
    match v.get_str("uri"@) {
        None => Err(SpecReadError::Parse("getRecord: missing uri"@)),
        Some(uri) => match v.get("value"@) {
            None => Err(SpecReadError::Parse("getRecord: missing value"@)),
            Some(value) => Ok(SpecRecord { uri, value }),
        },
    }
}

/// The record of a `{ uri, cid, value }` envelope.
pub fn read_record(v: &Json) -> (r: Result<Record, ReadError>)
    ensures
        record_result(r) == record_of(v@),
{
    let uri = match v.get_str("uri") {
        Some(uri) => uri,
        None => return Err(ReadError::Parse(owned("getRecord: missing uri"))),
    };
    match v.get("value") {
        Some(value) => Ok(Record { uri: owned(uri), value: copy_json(value) }),
        None => Err(ReadError::Parse(owned("getRecord: missing value"))),
    }
}

/// The record that the bytes of a `getRecord` response hold.
pub open spec fn record_of_bytes(b: Seq<u8>) -> Result<SpecRecord, SpecReadError> {
    match json_of_bytes(b) {
        Ok(v) => record_of(v),
        Err(e) => Err(e),
    }
}

/// Parse a `getRecord` response.
pub fn parse_get(bytes: &[u8]) -> (r: Result<Record, ReadError>)
    ensures
        record_result(r) == record_of_bytes(bytes@),
{
    match read_json(bytes) {
        Ok(v) => read_record(&v),
        Err(e) => Err(e),
    }
}

/// The record that a reply to `getRecord` holds.
pub open spec fn record_of_reply(reply: Reply) -> Result<SpecRecord, SpecReadError> {
    match bytes_of_reply(reply) {
        Ok(b) => record_of_bytes(b),
        Err(e) => Err(e),
    }
}

/// Fetch one record.
fn fetch_record<T: Transport>(t: &T, url: &str) -> (r: (Result<Record, ReadError>, Ghost<Reply>))
    ensures
        t.answers(url@, r.1@),
        record_result(r.0) == record_of_reply(r.1@),
{
    let (bytes, reply) = get(t, url);
    match bytes {
        Ok(b) => (parse_get(b.as_slice()), reply),
        Err(e) => (Err(e), reply),
    }
}

/// One entry of a listing: it needs a `uri` and a `value`.
pub open spec fn entry_of(e: SpecJson) -> Option<SpecRecord> {
    match e.get_str("uri"@) {
        None => None,
        Some(uri) => match e.get("value"@) {
            None => None,
            Some(value) => Some(SpecRecord { uri, value }),
        },
    }
}

/// The records among the first `n` entries.
pub open spec fn entries_of(entries: Seq<SpecJson>, n: int) -> Seq<SpecRecord>
    decreases n,
{
    if n <= 0 {
        Seq::empty()
    } else {
        let rest = entries_of(entries, n - 1);
        match entry_of(entries[n - 1]) {
            Some(r) => rest.push(r),
            None => rest,
        }
    }
}

/// A page of records and the cursor of the next.
pub type SpecPage = (Seq<SpecRecord>, Option<Seq<char>>);

/// The page of a `{ records: [{ uri, value }], cursor? }` envelope.
pub open spec fn page_of(v: SpecJson) -> Result<SpecPage, SpecReadError> {
    match v.get_array("records"@) {
        None => Err(SpecReadError::Parse("listRecords: missing records"@)),
        Some(entries) => Ok(
            (entries_of(entries, entries.len() as int), v.get_str("cursor"@)),
        ),
    }
}

/// A page or an error, by view.
pub open spec fn page_result(r: Result<(Vec<Record>, Option<String>), ReadError>) -> Result<
    SpecPage,
    SpecReadError,
> {
    match r {
        Ok((records, cursor)) => Ok((records_view(records@), opt_view(cursor))),
        Err(e) => Err(e@),
    }
}

/// The page of a `{ records: [{ uri, value }], cursor? }` envelope.
pub fn read_page(v: &Json) -> (r: Result<(Vec<Record>, Option<String>), ReadError>)
    ensures
        page_result(r) == page_of(v@),
{
    let entries = match v.get_array("records") {
        Some(entries) => entries,
        None => return Err(ReadError::Parse(owned("listRecords: missing records"))),
    };
    let mut out: Vec<Record> = Vec::new();
    let mut i: usize = 0;
    assert(records_view(out@) =~= Seq::empty());
    while i < entries.len()
        invariant
            i <= entries@.len(),
            records_view(out@) == entries_of(array_view(entries@), i as int),
        decreases entries@.len() - i,
    {
        broadcast use {lemma_array_view, lemma_records_push};

        if let Some(uri) = entries[i].get_str("uri") {
            if let Some(value) = entries[i].get("value") {
                out.push(Record { uri: owned(uri), value: copy_json(value) });
            }
        }
        i = i + 1;
    }
    proof {
        lemma_array_view(entries@);
    }
    Ok((out, owned_opt(v.get_str("cursor"))))
}

/// The page that the bytes of a `listRecords` response hold.
pub open spec fn page_of_bytes(b: Seq<u8>) -> Result<SpecPage, SpecReadError> {
    match json_of_bytes(b) {
        Ok(v) => page_of(v),
        Err(e) => Err(e),
    }
}

/// Parse a `listRecords` response.
pub fn parse_list(bytes: &[u8]) -> (r: Result<(Vec<Record>, Option<String>), ReadError>)
    ensures
        page_result(r) == page_of_bytes(bytes@),
{
    match read_json(bytes) {
        Ok(v) => read_page(&v),
        Err(e) => Err(e),
    }
}

/// The page that a reply to `listRecords` holds.
pub open spec fn page_of_reply(reply: Reply) -> Result<SpecPage, SpecReadError> {
    match bytes_of_reply(reply) {
        Ok(b) => page_of_bytes(b),
        Err(e) => Err(e),
    }
}

/// Fetch one page.
fn fetch_page<T: Transport>(t: &T, url: &str) -> (r: (
    Result<(Vec<Record>, Option<String>), ReadError>,
    Ghost<Reply>,
))
    ensures
        t.answers(url@, r.1@),
        page_result(r.0) == page_of_reply(r.1@),
{
    let (bytes, reply) = get(t, url);
    match bytes {
        Ok(b) => (parse_list(b.as_slice()), reply),
        Err(e) => (Err(e), reply),
    }
}

/// The DID that owns a record: what follows `at://` up to the first slash.
pub open spec fn owner_of(uri: Seq<char>) -> Option<Seq<char>> {
    match after_prefix(uri, "at://"@) {
        None => None,
        Some(rest) => match find_from(rest, 0, '/') {
            Some(i) => Some(rest.subrange(0, i)),
            None => Some(rest),
        },
    }
}

/// The DID that owns a record.
pub fn did_of(uri: &str) -> (r: Option<String>)
    ensures
        opt_view(r) == owner_of(uri@),
{
    match strip_prefix(uri, "at://") {
        None => None,
        Some(rest) => {
            let v = chars_of(rest.as_str());
            match find_char(&v, 0, '/') {
                Some(i) => Some(slice_of(&v, 0, i)),
                None => Some(rest),
            }
        },
    }
}

/// The strings among the first `n` values.
pub open spec fn strings_among(a: Seq<SpecJson>, n: int) -> Seq<Seq<char>>
    decreases n,
{
    if n <= 0 {
        Seq::empty()
    } else {
        let rest = strings_among(a, n - 1);
        match a[n - 1].as_str() {
            Some(s) => rest.push(s),
            None => rest,
        }
    }
}

/// The tags of a record: the strings of its `tags`.
pub open spec fn tags_of(value: SpecJson) -> Seq<Seq<char>> {
    match value.get_array("tags"@) {
        Some(a) => strings_among(a, a.len() as int),
        None => Seq::empty(),
    }
}

fn read_tags(value: &Json) -> (r: Vec<String>)
    ensures
        strings_view(r@) == tags_of(value@),
{
    let mut out: Vec<String> = Vec::new();
    assert(strings_view(out@) =~= Seq::empty());
    let a = match value.get_array("tags") {
        Some(a) => a,
        None => return out,
    };
    let mut i: usize = 0;
    while i < a.len()
        invariant
            i <= a@.len(),
            strings_view(out@) == strings_among(array_view(a@), i as int),
        decreases a@.len() - i,
    {
        broadcast use {lemma_array_view, lemma_strings_view_push};

        if let Some(s) = a[i].as_str() {
            out.push(owned(s));
        }
        i = i + 1;
    }
    proof {
        lemma_array_view(a@);
    }
    out
}

/// The image of a blob member, in the repository `did`.
pub open spec fn blob_member(value: SpecJson, key: Seq<char>, did: Seq<char>) -> Option<SpecImage> {
    match value.get(key) {
        Some(b) => blob_image_of(b, did, ""@),
        None => None,
    }
}

fn read_blob(value: &Json, key: &str, did: &str) -> (r: Option<Image>)
    ensures
        opt_image_view(r) == blob_member(value@, key@, did@),
{
    match value.get(key) {
        Some(b) => blob_image(b, did, ""),
        None => None,
    }
}

/// The metadata of a document record. Its `site` names the publication and must be
/// there; the rest may be absent.
pub open spec fn document_of(value: SpecJson, uri: Seq<char>) -> Option<SpecDocument> {
    match owner_of(uri) {
        None => None,
        Some(did) => match value.get_str("site"@) {
            None => None,
            Some(site) => Some(
                SpecDocument {
                    uri,
                    title: value.get_str_or("title"@, ""@),
                    description: value.get_str("description"@),
                    publication: site,
                    published_at: value.get_str_or("publishedAt"@, ""@),
                    updated_at: value.get_str("updatedAt"@),
                    publishing_platform: None,
                    cover_image: blob_member(value, "coverImage"@, did),
                    text_content: value.get_str("textContent"@),
                    tags: tags_of(value),
                    path: value.get_str("path"@),
                },
            ),
        },
    }
}

/// An optional document by its view.
pub open spec fn opt_document_view(o: Option<Document>) -> Option<SpecDocument> {
    match o {
        Some(d) => Some(d@),
        None => None,
    }
}

/// The metadata of a document record.
pub fn parse_document(value: &Json, uri: &str) -> (r: Option<Document>)
    ensures
        opt_document_view(r) == document_of(value@, uri@),
{
    let did = match did_of(uri) {
        Some(did) => did,
        None => return None,
    };
    let site = match value.get_str("site") {
        Some(site) => site,
        None => return None,
    };
    Some(
        Document {
            uri: owned(uri),
            title: owned(value.get_str_or("title", "")),
            description: owned_opt(value.get_str("description")),
            publication: owned(site),
            published_at: owned(value.get_str_or("publishedAt", "")),
            updated_at: owned_opt(value.get_str("updatedAt")),
            publishing_platform: None,
            cover_image: read_blob(value, "coverImage", did.as_str()),
            text_content: owned_opt(value.get_str("textContent")),
            tags: read_tags(value),
            path: owned_opt(value.get_str("path")),
        },
    )
}

/// A publication record.
pub open spec fn publication_of(value: SpecJson, uri: Seq<char>) -> Option<SpecPublication> {
    match owner_of(uri) {
        None => None,
        Some(did) => Some(
            SpecPublication {
                uri,
                url: value.get_str_or("url"@, ""@),
                name: value.get_str_or("name"@, ""@),
                description: value.get_str("description"@),
                icon: blob_member(value, "icon"@, did),
            },
        ),
    }
}

/// An optional publication by its view.
pub open spec fn opt_publication_view(o: Option<Publication>) -> Option<SpecPublication> {
    match o {
        Some(p) => Some(p@),
        None => None,
    }
}

/// A publication record.
pub fn parse_publication(value: &Json, uri: &str) -> (r: Option<Publication>)
    ensures
        opt_publication_view(r) == publication_of(value@, uri@),
{
    let did = match did_of(uri) {
        Some(did) => did,
        None => return None,
    };
    Some(
        Publication {
            uri: owned(uri),
            url: owned(value.get_str_or("url", "")),
            name: owned(value.get_str_or("name", "")),
            description: owned_opt(value.get_str("description")),
            icon: read_blob(value, "icon", did.as_str()),
        },
    )
}

/// A subscription record: it must name a publication.
pub open spec fn subscription_of(value: SpecJson, uri: Seq<char>) -> Option<SpecSubscription> {
    match value.get_str("publication"@) {
        Some(publication) => Some(SpecSubscription { uri, publication }),
        None => None,
    }
}

/// An optional subscription by its view.
pub open spec fn opt_subscription_view(o: Option<Subscription>) -> Option<SpecSubscription> {
    match o {
        Some(s) => Some(s@),
        None => None,
    }
}

/// A subscription record.
pub fn parse_subscription(value: &Json, uri: &str) -> (r: Option<Subscription>)
    ensures
        opt_subscription_view(r) == subscription_of(value@, uri@),
{
    match value.get_str("publication") {
        Some(publication) => Some(
            Subscription { uri: owned(uri), publication: owned(publication) },
        ),
        None => None,
    }
}

// --- Identity ---------------------------------------------------------------------

/// Where a handle's well-known file stands.
pub open spec fn well_known_url(handle: Seq<char>) -> Seq<char> {
    "https://"@ + handle + "/.well-known/atproto-did"@
}

/// Where a handle's DNS record is asked for.
pub open spec fn dns_url(handle: Seq<char>) -> Seq<char> {
    "https://dns.google/resolve?name=_atproto."@ + handle + "&type=TXT"@
}

/// The DID that a well-known file holds, if it holds one.
pub open spec fn well_known_did(bytes: Seq<u8>) -> Option<Seq<char>> {
    let did = trimmed(lossy_text(bytes));
    if begins_with(did, "did:"@) {
        Some(did)
    } else {
        None
    }
}

/// The DID that a well-known file holds, if it holds one.
pub fn did_from_well_known(bytes: &[u8]) -> (r: Option<String>)
    ensures
        opt_view(r) == well_known_did(bytes@),
{
    let text = text_of_bytes(bytes);
    let did = trim(text.as_str());
    if starts_with(did.as_str(), "did:") {
        Some(did)
    } else {
        None
    }
}

/// What a TXT record declares after `did=`; the text may stand in quotes.
pub open spec fn declared_did(data: Seq<char>) -> Option<Seq<char>> {
    after_prefix(without_around(data, '"'), "did="@)
}

/// What the first of the answers from `i` on declares that declares something.
pub open spec fn declared_from(answers: Seq<SpecJson>, i: int) -> Option<Seq<char>>
    decreases answers.len() - i,
{
    if i < 0 || i >= answers.len() {
        None
    } else {
        let here = match answers[i].get_str("data"@) {
            Some(data) => declared_did(data),
            None => None,
        };
        match here {
            Some(d) => Some(d),
            None => declared_from(answers, i + 1),
        }
    }
}

/// The DID of a DNS answer: the first declaration, if it is a DID.
pub open spec fn dns_did(doc: SpecJson) -> Option<Seq<char>> {
    match doc.get_array("Answer"@) {
        None => None,
        Some(answers) => match declared_from(answers, 0) {
            Some(d) => if begins_with(d, "did:"@) {
                Some(d)
            } else {
                None
            },
            None => None,
        },
    }
}

/// The DID of a DNS answer.
pub fn did_from_dns(doc: &Json) -> (r: Option<String>)
    ensures
        opt_view(r) == dns_did(doc@),
{
    let answers = match doc.get_array("Answer") {
        Some(answers) => answers,
        None => return None,
    };
    let ghost all = array_view(answers@);
    let mut i: usize = 0;
    while i < answers.len()
        invariant
            i <= answers@.len(),
            all == array_view(answers@),
            doc@.get_array("Answer"@) == Some(all),
            declared_from(all, 0) == declared_from(all, i as int),
        decreases answers@.len() - i,
    {
        broadcast use lemma_array_view;

        if let Some(data) = answers[i].get_str("data") {
            let bare = trim_char(data, '"');
            if let Some(d) = strip_prefix(bare.as_str(), "did=") {
                return if starts_with(d.as_str(), "did:") {
                    Some(d)
                } else {
                    None
                };
            }
        }
        i = i + 1;
    }
    proof {
        lemma_array_view(answers@);
    }
    None
}

/// The error for a handle that nothing resolves.
pub open spec fn unresolved(handle: Seq<char>) -> SpecReadError {
    SpecReadError::Resolve(
        "could not resolve handle "@ + handle
            + " (no well-known file and no _atproto DNS record)"@,
    )
}

/// What the two replies resolve a handle to: the well-known file wins, and the DNS
/// answer is asked for only without it.
pub open spec fn did_from_replies(handle: Seq<char>, well_known: Reply, dns: Reply) -> Result<
    Seq<char>,
    SpecReadError,
> {
    let first = match well_known {
        Ok(b) => well_known_did(b),
        Err(_) => None,
    };
    match first {
        Some(did) => Ok(did),
        None => match dns {
            Err(_) => Err(unresolved(handle)),
            Ok(b) => match json_of_bytes(b) {
                Err(e) => Err(e),
                Ok(doc) => match dns_did(doc) {
                    Some(did) => Ok(did),
                    None => Err(unresolved(handle)),
                },
            },
        },
    }
}

/// The well-known file settles a handle.
pub open spec fn settles(well_known: Reply) -> bool {
    well_known matches Ok(b) && well_known_did(b) is Some
}

/// `r` is what resolving `handle` came to: the well-known file was asked for, the DNS
/// answer where that did not settle it, and `r` is what the replies say.
pub open spec fn did_resolved<T: Transport>(
    t: T,
    handle: Seq<char>,
    r: Result<Seq<char>, SpecReadError>,
) -> bool {
    exists|well_known: Reply, dns: Reply|
        {
            &&& #[trigger] t.answers(well_known_url(handle), well_known)
            &&& settles(well_known) || t.answers(dns_url(handle), dns)
            &&& r == #[trigger] did_from_replies(handle, well_known, dns)
        }
}

fn unresolved_error(handle: &str) -> (r: ReadError)
    ensures
        r@ == unresolved(handle@),
{
    let mut m = join2("could not resolve handle ", handle);
    m.push_str(" (no well-known file and no _atproto DNS record)");
    ReadError::Resolve(m)
}

/// Resolve a handle to a DID: by its HTTPS well-known file, else by its `_atproto` DNS
/// record, asked for over HTTPS.
pub fn resolve_did<T: Transport>(t: &T, handle: &str) -> (r: Result<String, ReadError>)
    ensures
        did_resolved(*t, handle@, text_result(r)),
{
    let mut url = join2("https://", handle);
    url.push_str("/.well-known/atproto-did");
    let (bytes, well_known) = get(t, url.as_str());
    assert(t.answers(well_known_url(handle@), well_known@));
    if let Ok(b) = bytes {
        if let Some(did) = did_from_well_known(b.as_slice()) {
            assert(text_result(Ok(did)) == did_from_replies(handle@, well_known@, well_known@));
            return Ok(did);
        }
    }
    let mut query = join2("https://dns.google/resolve?name=_atproto.", handle);
    query.push_str("&type=TXT");
    let (bytes, dns) = get(t, query.as_str());
    assert(t.answers(dns_url(handle@), dns@));
    let r = match bytes {
        Err(_) => Err(unresolved_error(handle)),
        Ok(b) => match read_json(b.as_slice()) {
            Err(e) => Err(e),
            Ok(doc) => match did_from_dns(&doc) {
                Some(did) => Ok(did),
                None => Err(unresolved_error(handle)),
            },
        },
    };
    assert(text_result(r) == did_from_replies(handle@, well_known@, dns@));
    r
}

/// Where the document of a DID stands: the PLC directory for `did:plc`, the host's own
/// file for `did:web`; no other method is known.
pub open spec fn did_document_url(did: Seq<char>) -> Option<Seq<char>> {
    if begins_with(did, "did:plc:"@) {
        Some(plc_directory_url(did))
    } else {
        match after_prefix(did, "did:web:"@) {
            Some(rest) => Some(
                "https://"@ + swapped(rest, ':', '/') + "/.well-known/did.json"@,
            ),
            None => None,
        }
    }
}

/// A service entry of a repository server.
pub open spec fn is_pds_service(s: SpecJson) -> bool {
    s.get_str("type"@) == Some("AtprotoPersonalDataServer"@) || (match s.get_str("id"@) {
        Some(id) => finishes_with(id, "#atproto_pds"@),
        None => false,
    })
}

/// The first service from `i` on that is a repository server.
pub open spec fn pds_service_from(services: Seq<SpecJson>, i: int) -> Option<SpecJson>
    decreases services.len() - i,
{
    if i < 0 || i >= services.len() {
        None
    } else if is_pds_service(services[i]) {
        Some(services[i])
    } else {
        pds_service_from(services, i + 1)
    }
}

/// The repository server that a DID document names, without slashes at its end.
pub open spec fn pds_of(doc: SpecJson) -> Option<Seq<char>> {
    match doc.get_array("service"@) {
        None => None,
        Some(services) => match pds_service_from(services, 0) {
            None => None,
            Some(s) => match s.get_str("serviceEndpoint"@) {
                Some(e) => Some(without_trailing(e, '/')),
                None => None,
            },
        },
    }
}

/// The repository server that a DID document names.
pub fn pds_from_document(doc: &Json) -> (r: Option<String>)
    ensures
        opt_view(r) == pds_of(doc@),
{
    let services = match doc.get_array("service") {
        Some(services) => services,
        None => return None,
    };
    let ghost all = array_view(services@);
    let mut i: usize = 0;
    while i < services.len()
        invariant
            i <= services@.len(),
            all == array_view(services@),
            doc@.get_array("service"@) == Some(all),
            pds_service_from(all, 0) == pds_service_from(all, i as int),
        decreases services@.len() - i,
    {
        broadcast use lemma_array_view;

        let s = &services[i];
        let typed = match s.get_str("type") {
            Some(ty) => same(ty, "AtprotoPersonalDataServer"),
            None => false,
        };
        let named = match s.get_str("id") {
            Some(id) => ends_with(id, "#atproto_pds"),
            None => false,
        };
        if typed || named {
            return match s.get_str("serviceEndpoint") {
                Some(e) => Some(trim_end_char(e, '/')),
                None => None,
            };
        }
        i = i + 1;
    }
    proof {
        lemma_array_view(services@);
    }
    None
}

/// What the reply for a DID's document resolves it to.
pub open spec fn pds_from_reply(did: Seq<char>, reply: Reply) -> Result<
    Seq<char>,
    SpecReadError,
> {
    match json_of_reply(reply) {
        Err(e) => Err(e),
        Ok(doc) => match pds_of(doc) {
            Some(pds) => Ok(pds),
            None => Err(SpecReadError::Resolve("no PDS service for "@ + did)),
        },
    }
}

/// `r` is what resolving the server of `did` came to.
pub open spec fn pds_resolved<T: Transport>(
    t: T,
    did: Seq<char>,
    r: Result<Seq<char>, SpecReadError>,
) -> bool {
    match did_document_url(did) {
        None => r == Err::<Seq<char>, SpecReadError>(
            SpecReadError::Resolve("unsupported DID method: "@ + did),
        ),
        Some(url) => exists|reply: Reply| #[trigger]
            t.answers(url, reply) && r == pds_from_reply(did, reply),
    }
}

/// Resolve a DID to its repository server.
pub fn resolve_pds<T: Transport>(t: &T, did: &str) -> (r: Result<String, ReadError>)
    ensures
        pds_resolved(*t, did@, text_result(r)),
{
    let url = if starts_with(did, "did:plc:") {
        xrpc::plc_directory(did)
    } else {
        match strip_prefix(did, "did:web:") {
            Some(rest) => {
                let path = replace_char(rest.as_str(), ':', '/');
                let mut url = join2("https://", path.as_str());
                url.push_str("/.well-known/did.json");
                url
            },
            None => return Err(ReadError::Resolve(join2("unsupported DID method: ", did))),
        }
    };
    assert(did_document_url(did@) == Some(url@));
    let (doc, reply) = get_json(t, url.as_str());
    let r = match doc {
        Err(e) => Err(e),
        Ok(doc) => match pds_from_document(&doc) {
            Some(pds) => Ok(pds),
            None => Err(ReadError::Resolve(join2("no PDS service for ", did))),
        },
    };
    assert(t.answers(did_document_url(did@)->0, reply@));
    assert(text_result(r) == pds_from_reply(did@, reply@));
    r
}

/// An identity or an error, by view.
pub open spec fn identity_result(r: Result<Identity, ReadError>) -> Result<
    SpecIdentity,
    SpecReadError,
> {
    match r {
        Ok(i) => Ok(i@),
        Err(e) => Err(e@),
    }
}

/// `r` is what resolving a DID came to.
pub open spec fn repo_resolved<T: Transport>(
    t: T,
    did: Seq<char>,
    r: Result<SpecIdentity, SpecReadError>,
) -> bool {
    exists|pds: Result<Seq<char>, SpecReadError>|
        #![trigger pds_resolved(t, did, pds)]
        pds_resolved(t, did, pds) && r == (match pds {
            Ok(pds) => Ok(SpecIdentity { did, pds }),
            Err(e) => Err(e),
        })
}

/// `r` is what resolving a handle or a DID came to: a `did:` input skips the handle
/// step.
pub open spec fn identity_resolved<T: Transport>(
    t: T,
    input: Seq<char>,
    r: Result<SpecIdentity, SpecReadError>,
) -> bool {
    if begins_with(input, "did:"@) {
        repo_resolved(t, input, r)
    } else {
        exists|did: Result<Seq<char>, SpecReadError>|
            #![trigger did_resolved(t, input, did)]
            did_resolved(t, input, did) && (match did {
                Ok(d) => repo_resolved(t, d, r),
                Err(e) => r == Err::<SpecIdentity, SpecReadError>(e),
            })
    }
}

/// Resolve a DID to its identity.
fn resolve_repo<T: Transport>(t: &T, did: String) -> (r: Result<Identity, ReadError>)
    ensures
        repo_resolved(*t, did@, identity_result(r)),
{
    let pds = resolve_pds(t, did.as_str());
    let ghost found = text_result(pds);
    assert(pds_resolved(*t, did@, found));
    match pds {
        Ok(pds) => Ok(Identity { did, pds }),
        Err(e) => Err(e),
    }
}

/// Resolve a handle or a DID to its identity.
pub fn resolve_identity<T: Transport>(t: &T, handle_or_did: &str) -> (r: Result<
    Identity,
    ReadError,
>)
    ensures
        identity_resolved(*t, handle_or_did@, identity_result(r)),
{
    if starts_with(handle_or_did, "did:") {
        return resolve_repo(t, owned(handle_or_did));
    }
    let did = resolve_did(t, handle_or_did);
    let ghost found = text_result(did);
    assert(did_resolved(*t, handle_or_did@, found));
    match did {
        Ok(d) => resolve_repo(t, d),
        Err(e) => Err(e),
    }
}

// --- Discovery --------------------------------------------------------------------

/// The value of `name="…"` or `name='…'` in a tag: of the first place where `name=`
/// stands.
pub open spec fn attr_value(tag: Seq<char>, name: Seq<char>) -> Option<Seq<char>> {
    let key = name + "="@;
    match find_sub_from(tag, key, 0) {
        None => None,
        Some(p) => {
            let q = p + key.len();
            if q >= tag.len() || (tag[q] != '"' && tag[q] != '\'') {
                None
            } else {
                match find_from(tag, q + 1, tag[q]) {
                    Some(end) => Some(tag.subrange(q + 1, end)),
                    None => None,
                }
            }
        },
    }
}

/// The value of a quoted attribute in a tag.
pub fn tag_attr(tag: &str, name: &str) -> (r: Option<String>)
    ensures
        opt_view(r) == attr_value(tag@, name@),
{
    let v = chars_of(tag);
    let key = join2(name, "=");
    let k = chars_of(key.as_str());
    let p: usize = match find_chars(&v, &k, 0) {
        Some(p) => p,
        None => return None,
    };
    let q: usize = p + k.len();
    if q >= v.len() || (v[q] != '"' && v[q] != '\'') {
        return None;
    }
    match find_char(&v, q + 1, v[q]) {
        Some(end) => Some(slice_of(&v, q + 1, end)),
        None => None,
    }
}

/// What follows a `<link` up to the end of the tag.
pub open spec fn tag_part(frag: Seq<char>) -> Seq<char> {
    match find_from(frag, 0, '>') {
        Some(i) => frag.subrange(0, i),
        None => frag,
    }
}

/// A link to a publication record.
pub open spec fn is_publication_link(href: Seq<char>) -> bool {
    begins_with(href, "at://"@) && has_sub(href, "site.standard.publication"@)
}

/// The first publication link among the fragments from `i` on.
pub open spec fn link_from(frags: Seq<Seq<char>>, i: int) -> Option<Seq<char>>
    decreases frags.len() - i,
{
    if i < 0 || i >= frags.len() {
        None
    } else {
        match attr_value(tag_part(frags[i]), "href"@) {
            Some(href) => if is_publication_link(href) {
                Some(href)
            } else {
                link_from(frags, i + 1)
            },
            None => link_from(frags, i + 1),
        }
    }
}

/// The publication that a page declares: the `href` of its first `<link>` that is a
/// publication's URI.
pub open spec fn publication_link(html: Seq<char>) -> Option<Seq<char>> {
    link_from(pieces_by(html, "<link"@, 0), 1)
}

/// The publication that a page declares in its `<link>` tags, whatever the order of
/// attributes and the style of quotes.
pub fn extract_publication_link(html: &str) -> (r: Option<String>)
    ensures
        opt_view(r) == publication_link(html@),
{
    proof {
        reveal_strlit("<link");
    }
    let frags = split_str(html, "<link");
    let ghost all = strings_view(frags@);
    let mut i: usize = 1;
    while i < frags.len()
        invariant
            1 <= i,
            all == strings_view(frags@),
            all == pieces_by(html@, "<link"@, 0),
            link_from(all, 1) == link_from(all, i as int),
        decreases frags@.len() - i,
    {
        assert(all[i as int] == frags@[i as int]@);
        let frag = frags[i].as_str();
        let v = chars_of(frag);
        let tag = match find_char(&v, 0, '>') {
            Some(end) => slice_of(&v, 0, end),
            None => owned(frag),
        };
        if let Some(href) = tag_attr(tag.as_str(), "href") {
            if starts_with(href.as_str(), "at://") && contains(
                href.as_str(),
                "site.standard.publication",
            ) {
                return Some(href);
            }
        }
        i = i + 1;
    }
    None
}

/// An optional string or an error, by view.
pub open spec fn opt_result(r: Result<Option<String>, ReadError>) -> Result<
    Option<Seq<char>>,
    SpecReadError,
> {
    match r {
        Ok(o) => Ok(opt_view(o)),
        Err(e) => Err(e@),
    }
}

/// What a page's reply declares.
pub open spec fn discovered(reply: Reply) -> Result<Option<Seq<char>>, SpecReadError> {
    match bytes_of_reply(reply) {
        Ok(b) => Ok(publication_link(lossy_text(b))),
        Err(e) => Err(e),
    }
}

/// Discover a publication's URI from its web page; `None` if the page declares none.
pub fn discover_publication_uri<T: Transport>(t: &T, url: &str) -> (r: Result<
    Option<String>,
    ReadError,
>)
    ensures
        exists|reply: Reply| #[trigger]
            t.answers(url@, reply) && opt_result(r) == discovered(reply),
{
    let (bytes, reply) = get(t, url);
    let r = match bytes {
        Ok(b) => {
            let html = text_of_bytes(b.as_slice());
            Ok(extract_publication_link(html.as_str()))
        },
        Err(e) => Err(e),
    };
    assert(opt_result(r) == discovered(reply@));
    r
}

// --- Listing ----------------------------------------------------------------------

/// What is listed: a collection of a repository on a server, so many to a page.
pub struct Listing {
    pub pds: Seq<char>,
    pub did: Seq<char>,
    pub collection: Seq<char>,
    pub limit: u32,
}

impl Listing {
    /// The URL of the page at `cursor`.
    pub open spec fn url(self, cursor: Option<Seq<char>>) -> Seq<char> {
        list_records_url(self.pds, self.did, self.collection, self.limit, cursor)
    }
}

/// The cursor for the page after the first `n` replies: each page names the next.
pub open spec fn cursor_at(start: Option<Seq<char>>, replies: Seq<Reply>, n: int) -> Option<
    Seq<char>,
> {
    if n <= 0 {
        start
    } else {
        match page_of_reply(replies[n - 1]) {
            Ok((records, cursor)) => cursor,
            Err(_) => None,
        }
    }
}

/// Each reply answers the request for the page that the reply before it named.
pub open spec fn pages_asked<T: Transport>(
    t: T,
    listing: Listing,
    start: Option<Seq<char>>,
    replies: Seq<Reply>,
) -> bool {
    forall|i: int|
        0 <= i < replies.len() ==> t.answers(
            listing.url(cursor_at(start, replies, i)),
            #[trigger] replies[i],
        )
}

/// A page after which the walk goes on: it has records and a cursor.
pub open spec fn page_goes_on(reply: Reply) -> bool {
    page_of_reply(reply) matches Ok((records, cursor)) && records.len() > 0 && cursor is Some
}

/// The records of the first `n` pages.
pub open spec fn records_of(replies: Seq<Reply>, n: int) -> Seq<SpecRecord>
    decreases n,
{
    if n <= 0 {
        Seq::empty()
    } else {
        let rest = records_of(replies, n - 1);
        match page_of_reply(replies[n - 1]) {
            Ok((records, cursor)) => rest + records,
            Err(_) => rest,
        }
    }
}

/// A walk that went on until it had to end.
pub open spec fn walk_ended(replies: Seq<Reply>) -> bool {
    &&& replies.len() > 0
    &&& forall|i: int| 0 <= i < replies.len() - 1 ==> page_goes_on(#[trigger] replies[i])
    &&& !page_goes_on(replies.last())
}

/// What a walk that ended comes to: the records of all its pages, or the error of the
/// last.
pub open spec fn walk_result(replies: Seq<Reply>) -> Result<Seq<SpecRecord>, SpecReadError> {
    match page_of_reply(replies.last()) {
        Ok(_) => Ok(records_of(replies, replies.len() as int)),
        Err(e) => Err(e),
    }
}

/// `r` is what listing everything came to.
pub open spec fn all_listed<T: Transport>(
    t: T,
    listing: Listing,
    r: Result<Seq<SpecRecord>, SpecReadError>,
) -> bool {
    exists|replies: Seq<Reply>|
        {
            &&& #[trigger] pages_asked(t, listing, None, replies)
            &&& walk_ended(replies)
            &&& r == walk_result(replies)
        }
}

/// Records or an error, by view.
pub open spec fn records_result(r: Result<Vec<Record>, ReadError>) -> Result<
    Seq<SpecRecord>,
    SpecReadError,
> {
    match r {
        Ok(v) => Ok(records_view(v@)),
        Err(e) => Err(e@),
    }
}

/// One more reply leaves the cursors of the pages before it as they were.
proof fn lemma_asked_push<T: Transport>(
    t: T,
    listing: Listing,
    start: Option<Seq<char>>,
    replies: Seq<Reply>,
    reply: Reply,
)
    requires
        pages_asked(t, listing, start, replies),
        t.answers(listing.url(cursor_at(start, replies, replies.len() as int)), reply),
    ensures
        pages_asked(t, listing, start, replies.push(reply)),
{
    let more = replies.push(reply);
    assert forall|i: int| 0 <= i < more.len() implies t.answers(
        listing.url(cursor_at(start, more, i)),
        #[trigger] more[i],
    ) by {
        assert(cursor_at(start, more, i) == cursor_at(start, replies, i));
        if i < replies.len() {
            assert(more[i] == replies[i]);
        }
    }
}

proof fn lemma_records_of_push(replies: Seq<Reply>, reply: Reply, n: int)
    requires
        0 <= n <= replies.len(),
    ensures
        records_of(replies.push(reply), n) == records_of(replies, n),
    decreases n,
{
    if n > 0 {
        lemma_records_of_push(replies, reply, n - 1);
        assert(replies.push(reply)[n - 1] == replies[n - 1]);
    }
}

/// Follow the cursors of `listRecords` to fetch every record of a collection. The walk
/// ends with the first page that has no cursor or no records.
pub fn paginate<T: Transport>(
    t: &T,
    pds: &str,
    did: &str,
    collection: &str,
    page_limit: u32,
) -> (r: Result<Vec<Record>, ReadError>)
    ensures
        all_listed(
            *t,
            (Listing { pds: pds@, did: did@, collection: collection@, limit: page_limit }),
            records_result(r),
        ),
{
    let ghost listing = Listing {
        pds: pds@,
        did: did@,
        collection: collection@,
        limit: page_limit,
    };
    let mut out: Vec<Record> = Vec::new();
    let mut cursor: Option<String> = None;
    let ghost mut replies: Seq<Reply> = Seq::empty();
    assert(records_view(out@) =~= Seq::empty());
    loop
        invariant
            listing == (Listing {
                pds: pds@,
                did: did@,
                collection: collection@,
                limit: page_limit,
            }),
            pages_asked(*t, listing, None, replies),
            forall|i: int| 0 <= i < replies.len() ==> page_goes_on(#[trigger] replies[i]),
            records_view(out@) == records_of(replies, replies.len() as int),
            opt_view(cursor) == cursor_at(None, replies, replies.len() as int),
        decreases usize::MAX - out.len(),
    {
        let url = match &cursor {
            Some(c) => xrpc::list_records(pds, did, collection, page_limit, Some(c.as_str())),
            None => xrpc::list_records(pds, did, collection, page_limit, None),
        };
        let (page, reply) = fetch_page(t, url.as_str());
        let ghost before = replies;
        proof {
            assert(url@ == listing.url(cursor_at(None, replies, replies.len() as int)));
            lemma_asked_push(*t, listing, None, replies, reply@);
            lemma_records_of_push(replies, reply@, replies.len() as int);
            replies = replies.push(reply@);
            assert(replies.last() == reply@);
            assert forall|i: int| 0 <= i < replies.len() - 1 implies page_goes_on(
                #[trigger] replies[i],
            ) by {
                assert(replies[i] == before[i]);
            }
        }
        let (records, next) = match page {
            Ok(page) => page,
            Err(e) => {
                assert(walk_ended(replies));
                return Err(e);
            },
        };
        let got: usize = records.len();
        let ghost fresh = records_view(records@);
        let ghost had = out@;
        let mut records = records;
        out.append(&mut records);
        assert(records_view(out@) =~= records_view(had) + fresh);
        match next {
            Some(c) => {
                if got > 0 {
                    cursor = Some(c);
                    assert(page_goes_on(reply@));
                    assert forall|i: int| 0 <= i < replies.len() implies page_goes_on(
                        #[trigger] replies[i],
                    ) by {
                        if i == replies.len() - 1 {
                            assert(replies[i] == reply@);
                        }
                    }
                } else {
                    assert(walk_ended(replies));
                    return Ok(out);
                }
            },
            None => {
                assert(walk_ended(replies));
                return Ok(out);
            },
        }
    }
}

/// The subscriptions among the first `n` records.
pub open spec fn subscriptions_of(records: Seq<SpecRecord>, n: int) -> Seq<SpecSubscription>
    decreases n,
{
    if n <= 0 {
        Seq::empty()
    } else {
        let rest = subscriptions_of(records, n - 1);
        match subscription_of(records[n - 1].value, records[n - 1].uri) {
            Some(s) => rest.push(s),
            None => rest,
        }
    }
}

/// Subscriptions by their views.
pub open spec fn subscriptions_view(s: Seq<Subscription>) -> Seq<SpecSubscription> {
    s.map_values(|x: Subscription| x@)
}

/// The subscriptions that records hold.
pub fn read_subscriptions(records: &Vec<Record>) -> (r: Vec<Subscription>)
    ensures
        subscriptions_view(r@) == subscriptions_of(
            records_view(records@),
            records@.len() as int,
        ),
{
    let ghost all = records_view(records@);
    let mut out: Vec<Subscription> = Vec::new();
    let mut i: usize = 0;
    assert(subscriptions_view(out@) =~= Seq::empty());
    while i < records.len()
        invariant
            i <= records@.len(),
            all == records_view(records@),
            subscriptions_view(out@) == subscriptions_of(all, i as int),
        decreases records@.len() - i,
    {
        let ghost had = out@;
        assert(all[i as int] == records@[i as int]@);
        if let Some(x) = parse_subscription(&records[i].value, records[i].uri.as_str()) {
            out.push(x);
            assert(subscriptions_view(out@) =~= subscriptions_view(had).push(x@));
        }
        i = i + 1;
    }
    out
}

/// The publications among the first `n` records.
pub open spec fn publications_of(records: Seq<SpecRecord>, n: int) -> Seq<SpecPublication>
    decreases n,
{
    if n <= 0 {
        Seq::empty()
    } else {
        let rest = publications_of(records, n - 1);
        match publication_of(records[n - 1].value, records[n - 1].uri) {
            Some(p) => rest.push(p),
            None => rest,
        }
    }
}

/// The publications that records hold.
pub fn read_publications(records: &Vec<Record>) -> (r: Vec<Publication>)
    ensures
        publications_view(r@) == publications_of(records_view(records@), records@.len() as int),
{
    let ghost all = records_view(records@);
    let mut out: Vec<Publication> = Vec::new();
    let mut i: usize = 0;
    assert(publications_view(out@) =~= Seq::empty());
    while i < records.len()
        invariant
            i <= records@.len(),
            all == records_view(records@),
            publications_view(out@) == publications_of(all, i as int),
        decreases records@.len() - i,
    {
        broadcast use lemma_publications_push;

        assert(all[i as int] == records@[i as int]@);
        if let Some(x) = parse_publication(&records[i].value, records[i].uri.as_str()) {
            out.push(x);
        }
        i = i + 1;
    }
    out
}

/// The documents among the first `n` records.
pub open spec fn documents_of(records: Seq<SpecRecord>, n: int) -> Seq<SpecDocument>
    decreases n,
{
    if n <= 0 {
        Seq::empty()
    } else {
        let rest = documents_of(records, n - 1);
        match document_of(records[n - 1].value, records[n - 1].uri) {
            Some(d) => rest.push(d),
            None => rest,
        }
    }
}

/// The documents that records hold.
pub fn read_documents(records: &Vec<Record>) -> (r: Vec<Document>)
    ensures
        documents_view(r@) == documents_of(records_view(records@), records@.len() as int),
{
    let ghost all = records_view(records@);
    let mut out: Vec<Document> = Vec::new();
    let mut i: usize = 0;
    assert(documents_view(out@) =~= Seq::empty());
    while i < records.len()
        invariant
            i <= records@.len(),
            all == records_view(records@),
            documents_view(out@) == documents_of(all, i as int),
        decreases records@.len() - i,
    {
        broadcast use lemma_documents_push;

        assert(all[i as int] == records@[i as int]@);
        if let Some(x) = parse_document(&records[i].value, records[i].uri.as_str()) {
            out.push(x);
        }
        i = i + 1;
    }
    out
}

/// A collection of `repo`, so many to a page.
pub open spec fn listing_in(repo: SpecIdentity, collection: Seq<char>, limit: u32) -> Listing {
    Listing { pds: repo.pds, did: repo.did, collection, limit }
}


/// Subscriptions or an error, by view.
pub open spec fn subscriptions_result(r: Result<Vec<Subscription>, ReadError>) -> Result<Seq<SpecSubscription>, SpecReadError> {
    match r {
        Ok(v) => Ok(subscriptions_view(v@)),
        Err(e) => Err(e@),
    }
}

/// `r` is what listing the subscriptions of a repository came to.
pub open spec fn subscriptions_listed<T: Transport>(
    t: T,
    repo: SpecIdentity,
    r: Result<Seq<SpecSubscription>, SpecReadError>,
) -> bool {
    exists|all: Result<Seq<SpecRecord>, SpecReadError>|
        #![trigger all_listed(t, listing_in(repo, "site.standard.graph.subscription"@, 100), all)]
        all_listed(t, listing_in(repo, "site.standard.graph.subscription"@, 100), all) && r == (match all {
            Ok(records) => Ok(subscriptions_of(records, records.len() as int)),
            Err(e) => Err(e),
        })
}

/// A reader's own subscriptions.
pub fn list_subscriptions<T: Transport>(t: &T, reader: &Identity) -> (r: Result<
    Vec<Subscription>,
    ReadError,
>)
    ensures
        subscriptions_listed(*t, reader@, subscriptions_result(r)),
{
    let records = paginate(
        t,
        reader.pds.as_str(),
        reader.did.as_str(),
        "site.standard.graph.subscription",
        100,
    );
    let ghost all = records_result(records);
    assert(all_listed(*t, listing_in(reader@, "site.standard.graph.subscription"@, 100), all));
    match records {
        Ok(records) => Ok(read_subscriptions(&records)),
        Err(e) => Err(e),
    }
}


/// Publications or an error, by view.
pub open spec fn publications_result(r: Result<Vec<Publication>, ReadError>) -> Result<Seq<SpecPublication>, SpecReadError> {
    match r {
        Ok(v) => Ok(publications_view(v@)),
        Err(e) => Err(e@),
    }
}

/// `r` is what listing the publications of a repository came to.
pub open spec fn publications_listed<T: Transport>(
    t: T,
    repo: SpecIdentity,
    r: Result<Seq<SpecPublication>, SpecReadError>,
) -> bool {
    exists|all: Result<Seq<SpecRecord>, SpecReadError>|
        #![trigger all_listed(t, listing_in(repo, "site.standard.publication"@, 100), all)]
        all_listed(t, listing_in(repo, "site.standard.publication"@, 100), all) && r == (match all {
            Ok(records) => Ok(publications_of(records, records.len() as int)),
            Err(e) => Err(e),
        })
}

/// The publications that a repository publishes itself.
pub fn list_publications<T: Transport>(t: &T, repo: &Identity) -> (r: Result<
    Vec<Publication>,
    ReadError,
>)
    ensures
        publications_listed(*t, repo@, publications_result(r)),
{
    let records = paginate(
        t,
        repo.pds.as_str(),
        repo.did.as_str(),
        "site.standard.publication",
        100,
    );
    let ghost all = records_result(records);
    assert(all_listed(*t, listing_in(repo@, "site.standard.publication"@, 100), all));
    match records {
        Ok(records) => Ok(read_publications(&records)),
        Err(e) => Err(e),
    }
}


/// Documents or an error, by view.
pub open spec fn documents_result(r: Result<Vec<Document>, ReadError>) -> Result<Seq<SpecDocument>, SpecReadError> {
    match r {
        Ok(v) => Ok(documents_view(v@)),
        Err(e) => Err(e@),
    }
}

/// `r` is what listing the documents of a repository came to.
pub open spec fn documents_listed<T: Transport>(
    t: T,
    repo: SpecIdentity,
    r: Result<Seq<SpecDocument>, SpecReadError>,
) -> bool {
    exists|all: Result<Seq<SpecRecord>, SpecReadError>|
        #![trigger all_listed(t, listing_in(repo, "site.standard.document"@, 50), all)]
        all_listed(t, listing_in(repo, "site.standard.document"@, 50), all) && r == (match all {
            Ok(records) => Ok(documents_of(records, records.len() as int)),
            Err(e) => Err(e),
        })
}

/// Every document of a repository, metadata only, in the order the server lists them.
pub fn list_all_documents<T: Transport>(t: &T, repo: &Identity) -> (r: Result<
    Vec<Document>,
    ReadError,
>)
    ensures
        documents_listed(*t, repo@, documents_result(r)),
{
    let records = paginate(
        t,
        repo.pds.as_str(),
        repo.did.as_str(),
        "site.standard.document",
        50,
    );
    let ghost all = records_result(records);
    assert(all_listed(*t, listing_in(repo@, "site.standard.document"@, 50), all));
    match records {
        Ok(records) => Ok(read_documents(&records)),
        Err(e) => Err(e),
    }
}

/// A page of documents and the cursor of the next.
pub type SpecDocPage = (Seq<SpecDocument>, Option<Seq<char>>);

/// The documents of a page's reply.
pub open spec fn doc_page(reply: Reply) -> Result<SpecDocPage, SpecReadError> {
    match page_of_reply(reply) {
        Ok((records, cursor)) => Ok((documents_of(records, records.len() as int), cursor)),
        Err(e) => Err(e),
    }
}

/// A page of documents or an error, by view.
pub open spec fn doc_page_result(
    r: Result<(Vec<Document>, Option<String>), ReadError>,
) -> Result<SpecDocPage, SpecReadError> {
    match r {
        Ok((docs, cursor)) => Ok((documents_view(docs@), opt_view(cursor))),
        Err(e) => Err(e@),
    }
}

/// An optional borrowed string by its characters.
pub open spec fn opt_str(o: Option<&str>) -> Option<Seq<char>> {
    match o {
        Some(s) => Some(s@),
        None => None,
    }
}

/// One page of documents, whether it had records, and the reply that held it.
fn fetch_documents<T: Transport>(t: &T, repo: &Identity, cursor: Option<&str>) -> (r: (
    Result<(Vec<Document>, Option<String>), ReadError>,
    bool,
    Ghost<Reply>,
))
    ensures
        t.answers(
            listing_in(repo@, "site.standard.document"@, 50).url(opt_str(cursor)),
            r.2@,
        ),
        doc_page_result(r.0) == doc_page(r.2@),
        r.1 == (page_of_reply(r.2@) matches Ok((records, next)) && records.len() > 0),
{
    let url = xrpc::list_records(
        repo.pds.as_str(),
        repo.did.as_str(),
        "site.standard.document",
        50,
        cursor,
    );
    assert(url@ == listing_in(repo@, "site.standard.document"@, 50).url(opt_str(cursor)));
    let (page, reply) = fetch_page(t, url.as_str());
    match page {
        Ok((records, next)) => {
            assert(records_view(records@).len() == records@.len());
            let held = records.len() > 0;
            (Ok((read_documents(&records), next)), held, reply)
        },
        Err(e) => (Err(e), false, reply),
    }
}

/// `r` is what asking for one page of a repository's documents came to.
pub open spec fn doc_page_fetched<T: Transport>(
    t: T,
    repo: SpecIdentity,
    cursor: Option<Seq<char>>,
    r: Result<SpecDocPage, SpecReadError>,
) -> bool {
    exists|reply: Reply| #[trigger]
        t.answers(listing_in(repo, "site.standard.document"@, 50).url(cursor), reply) && r
            == doc_page(reply)
}

/// One page of a repository's documents, metadata only, and the cursor of the next.
pub fn list_documents<T: Transport>(t: &T, repo: &Identity, cursor: Option<&str>) -> (r: Result<
    (Vec<Document>, Option<String>),
    ReadError,
>)
    ensures
        doc_page_fetched(*t, repo@, opt_str(cursor), doc_page_result(r)),
{
    let (r, _, reply) = fetch_documents(t, repo, cursor);
    assert(doc_page_result(r) == doc_page(reply@));
    r
}

/// The documents of the first `n` pages.
pub open spec fn docs_of(replies: Seq<Reply>, n: int) -> Seq<SpecDocument>
    decreases n,
{
    if n <= 0 {
        Seq::empty()
    } else {
        let rest = docs_of(replies, n - 1);
        match doc_page(replies[n - 1]) {
            Ok((docs, cursor)) => rest + docs,
            Err(_) => rest,
        }
    }
}

proof fn lemma_docs_of_push(replies: Seq<Reply>, reply: Reply, n: int)
    requires
        0 <= n <= replies.len(),
    ensures
        docs_of(replies.push(reply), n) == docs_of(replies, n),
    decreases n,
{
    if n > 0 {
        lemma_docs_of_push(replies, reply, n - 1);
        assert(replies.push(reply)[n - 1] == replies[n - 1]);
    }
}

/// A window of at most `cap` pages: it went on up to its last page, and stopped there
/// because it had to or because the cap was reached.
pub open spec fn window_ended(replies: Seq<Reply>, cap: int) -> bool {
    &&& 0 < replies.len() <= cap
    &&& forall|i: int| 0 <= i < replies.len() - 1 ==> page_goes_on(#[trigger] replies[i])
    &&& page_goes_on(replies.last()) ==> replies.len() == cap
}

/// What a window comes to: its documents, and the cursor to resume at unless the
/// repository is exhausted.
pub open spec fn window_result(replies: Seq<Reply>) -> Result<SpecDocPage, SpecReadError> {
    match doc_page(replies.last()) {
        Ok((docs, cursor)) => Ok(
            (
                docs_of(replies, replies.len() as int),
                if page_goes_on(replies.last()) {
                    cursor
                } else {
                    None
                },
            ),
        ),
        Err(e) => Err(e),
    }
}

/// The number of pages that a window may fetch: at least one.
pub open spec fn page_cap(max_pages: u32) -> int {
    if max_pages == 0 {
        1
    } else {
        max_pages as int
    }
}

/// `r` is what reading a window of a repository's documents came to.
pub open spec fn window_read<T: Transport>(
    t: T,
    repo: SpecIdentity,
    cursor: Option<Seq<char>>,
    max_pages: u32,
    r: Result<SpecDocPage, SpecReadError>,
) -> bool {
    exists|replies: Seq<Reply>|
        {
            &&& #[trigger] pages_asked(
                t,
                listing_in(repo, "site.standard.document"@, 50),
                cursor,
                replies,
            )
            &&& window_ended(replies, page_cap(max_pages))
            &&& r == window_result(replies)
        }
}

/// A server answers each URL the same way every time.
pub open spec fn is_steady<T: Transport>(t: T) -> bool {
    forall|url: Seq<char>, a: Reply, b: Reply| #[trigger]
        t.answers(url, a) && #[trigger] t.answers(url, b) ==> a == b
}

proof fn lemma_docs_of_join(a: Seq<Reply>, b: Seq<Reply>, n: int)
    requires
        0 <= n <= b.len(),
    ensures
        docs_of(a + b, a.len() + n) == docs_of(a, a.len() as int) + docs_of(b, n),
    decreases n,
{
    if n > 0 {
        lemma_docs_of_join(a, b, n - 1);
        assert((a + b)[a.len() + n - 1] == b[n - 1]);
        assert(docs_of(a + b, a.len() + n) =~= docs_of(a, a.len() as int) + docs_of(b, n));
    } else {
        lemma_docs_of_prefix(a, b, a.len() as int);
        assert(docs_of(a, a.len() as int) + docs_of(b, 0) =~= docs_of(a, a.len() as int));
    }
}

proof fn lemma_docs_of_prefix(a: Seq<Reply>, b: Seq<Reply>, n: int)
    requires
        0 <= n <= a.len(),
    ensures
        docs_of(a + b, n) == docs_of(a, n),
    decreases n,
{
    if n > 0 {
        lemma_docs_of_prefix(a, b, n - 1);
        assert((a + b)[n - 1] == a[n - 1]);
    }
}

/// Where the server is steady, two walks from one cursor give the same replies as far as
/// both go on.
proof fn lemma_walks_agree<T: Transport>(
    t: T,
    listing: Listing,
    start: Option<Seq<char>>,
    a: Seq<Reply>,
    b: Seq<Reply>,
    n: int,
)
    requires
        is_steady(t),
        pages_asked(t, listing, start, a),
        pages_asked(t, listing, start, b),
        0 <= n <= a.len(),
        n <= b.len(),
    ensures
        a.take(n) == b.take(n),
    decreases n,
{
    if n > 0 {
        lemma_walks_agree(t, listing, start, a, b, n - 1);
        if n > 1 {
            assert(a.take(n - 1)[n - 2] == b.take(n - 1)[n - 2]);
        }
        assert(cursor_at(start, a, n - 1) == cursor_at(start, b, n - 1));
        assert(t.answers(listing.url(cursor_at(start, a, n - 1)), a[n - 1]));
        assert(t.answers(listing.url(cursor_at(start, b, n - 1)), b[n - 1]));
        assert(a.take(n) =~= a.take(n - 1).push(a[n - 1]));
        assert(b.take(n) =~= b.take(n - 1).push(b[n - 1]));
    }
}

/// Where the server is steady, a window has one result.
pub proof fn law_a_window_has_one_result<T: Transport>(
    t: T,
    repo: SpecIdentity,
    cursor: Option<Seq<char>>,
    max_pages: u32,
    a: Result<SpecDocPage, SpecReadError>,
    b: Result<SpecDocPage, SpecReadError>,
)
    requires
        is_steady(t),
        window_read(t, repo, cursor, max_pages, a),
        window_read(t, repo, cursor, max_pages, b),
    ensures
        a == b,
{
    let listing = listing_in(repo, "site.standard.document"@, 50);
    let cap = page_cap(max_pages);
    let x = choose|x: Seq<Reply>| #[trigger]
        pages_asked(t, listing, cursor, x) && window_ended(x, cap) && a == window_result(x);
    let y = choose|y: Seq<Reply>| #[trigger]
        pages_asked(t, listing, cursor, y) && window_ended(y, cap) && b == window_result(y);
    let n: int = if x.len() < y.len() {
        x.len() as int
    } else {
        y.len() as int
    };
    lemma_walks_agree(t, listing, cursor, x, y, n);
    assert(x.take(n)[n - 1] == y.take(n)[n - 1]);
    if x.len() < y.len() {
        assert(page_goes_on(y[n - 1]));
    }
    if y.len() < x.len() {
        assert(page_goes_on(x[n - 1]));
    }
    assert(x.take(n) =~= x && y.take(n) =~= y);
}

/// A window that stopped at its cap, continued at the cursor it gave, reads what one
/// window of both sizes reads.
pub proof fn law_windows_join<T: Transport>(
    t: T,
    repo: SpecIdentity,
    start: Option<Seq<char>>,
    a: u32,
    b: u32,
    newer: Seq<SpecDocument>,
    at: Seq<char>,
    older: Seq<SpecDocument>,
    rest: Option<Seq<char>>,
)
    requires
        a >= 1,
        b >= 1,
        a + b <= u32::MAX,
        window_read(t, repo, start, a, Ok((newer, Some(at)))),
        window_read(t, repo, Some(at), b, Ok((older, rest))),
    ensures
        window_read(t, repo, start, (a + b) as u32, Ok((newer + older, rest))),
        is_steady(t) ==> forall|r: Result<SpecDocPage, SpecReadError>| #[trigger]
            window_read(t, repo, start, (a + b) as u32, r) ==> r == Ok::<
                SpecDocPage,
                SpecReadError,
            >((newer + older, rest)),
{
    let listing = listing_in(repo, "site.standard.document"@, 50);
    let first: Result<SpecDocPage, SpecReadError> = Ok((newer, Some(at)));
    let second: Result<SpecDocPage, SpecReadError> = Ok((older, rest));
    let whole: Result<SpecDocPage, SpecReadError> = Ok((newer + older, rest));
    let sum = (a + b) as u32;
    let x = choose|x: Seq<Reply>| #[trigger]
        pages_asked(t, listing, start, x) && window_ended(x, page_cap(a)) && first
            == window_result(x);
    let y = choose|y: Seq<Reply>| #[trigger]
        pages_asked(t, listing, Some(at), y) && window_ended(y, page_cap(b)) && second
            == window_result(y);
    let z = x + y;
    assert(page_goes_on(x.last()));
    assert(z.last() == y.last());
    assert forall|i: int| 0 <= i < z.len() implies t.answers(
        listing.url(cursor_at(start, z, i)),
        #[trigger] z[i],
    ) by {
        if i < x.len() {
            assert(z[i] == x[i]);
            assert(cursor_at(start, z, i) == cursor_at(start, x, i));
        } else {
            let k = i - x.len();
            assert(z[i] == y[k]);
            if k == 0 {
                assert(z[i - 1] == x.last());
                assert(cursor_at(start, z, i) == Some(at));
            } else {
                assert(z[i - 1] == y[k - 1]);
            }
            assert(cursor_at(start, z, i) == cursor_at(Some(at), y, k));
        }
    }
    assert(pages_asked(t, listing, start, z));
    assert forall|i: int| 0 <= i < z.len() - 1 implies page_goes_on(#[trigger] z[i]) by {
        if i < x.len() {
            assert(z[i] == x[i]);
            if i == x.len() - 1 {
                assert(x[i] == x.last());
            }
        } else {
            assert(z[i] == y[i - x.len()]);
        }
    }
    assert(window_ended(z, page_cap(sum)));
    lemma_docs_of_join(x, y, y.len() as int);
    assert(whole == window_result(z));
    assert(window_read(t, repo, start, sum, whole));
    if is_steady(t) {
        assert forall|r: Result<SpecDocPage, SpecReadError>| #[trigger]
            window_read(t, repo, start, sum, r) implies r == whole by {
            law_a_window_has_one_result(t, repo, start, sum, r, whole);
        }
    }
}

proof fn lemma_documents_of_join(a: Seq<SpecRecord>, b: Seq<SpecRecord>, n: int)
    requires
        0 <= n <= b.len(),
    ensures
        documents_of(a + b, a.len() + n) == documents_of(a, a.len() as int) + documents_of(b, n),
    decreases n,
{
    if n > 0 {
        lemma_documents_of_join(a, b, n - 1);
        assert((a + b)[a.len() + n - 1] == b[n - 1]);
        assert(documents_of(a + b, a.len() + n) =~= documents_of(a, a.len() as int) + documents_of(
            b,
            n,
        ));
    } else {
        lemma_documents_of_prefix(a, b, a.len() as int);
        assert(documents_of(a, a.len() as int) + documents_of(b, 0) =~= documents_of(
            a,
            a.len() as int,
        ));
    }
}

proof fn lemma_documents_of_prefix(a: Seq<SpecRecord>, b: Seq<SpecRecord>, n: int)
    requires
        0 <= n <= a.len(),
    ensures
        documents_of(a + b, n) == documents_of(a, n),
    decreases n,
{
    if n > 0 {
        lemma_documents_of_prefix(a, b, n - 1);
        assert((a + b)[n - 1] == a[n - 1]);
    }
}

/// The documents of pages are those of the pages' records.
proof fn lemma_docs_of_records(replies: Seq<Reply>, n: int)
    requires
        0 <= n <= replies.len(),
    ensures
        docs_of(replies, n) == documents_of(
            records_of(replies, n),
            records_of(replies, n).len() as int,
        ),
    decreases n,
{
    if n > 0 {
        lemma_docs_of_records(replies, n - 1);
        if let Ok((records, cursor)) = page_of_reply(replies[n - 1]) {
            lemma_documents_of_join(
                records_of(replies, n - 1),
                records,
                records.len() as int,
            );
        }
    }
}

/// A window that reached the end of the repository holds every document of it: what
/// listing them all gives, in the same order.
pub proof fn law_an_exhausted_window_is_everything<T: Transport>(
    t: T,
    repo: SpecIdentity,
    max_pages: u32,
    docs: Seq<SpecDocument>,
    all: Result<Seq<SpecDocument>, SpecReadError>,
)
    requires
        is_steady(t),
        window_read(t, repo, None, max_pages, Ok((docs, None))),
        documents_listed(t, repo, all),
    ensures
        all == Ok::<Seq<SpecDocument>, SpecReadError>(docs),
{
    let listing = listing_in(repo, "site.standard.document"@, 50);
    let seen: Result<SpecDocPage, SpecReadError> = Ok((docs, None));
    let x = choose|x: Seq<Reply>| #[trigger]
        pages_asked(t, listing, None, x) && window_ended(x, page_cap(max_pages)) && seen
            == window_result(x);
    let records = choose|r: Result<Seq<SpecRecord>, SpecReadError>| #[trigger]
        all_listed(t, listing, r) && all == (match r {
            Ok(records) => Ok::<Seq<SpecDocument>, SpecReadError>(
                documents_of(records, records.len() as int),
            ),
            Err(e) => Err(e),
        });
    let y = choose|y: Seq<Reply>| #[trigger]
        pages_asked(t, listing, None, y) && walk_ended(y) && records == walk_result(y);
    assert(!page_goes_on(x.last()));
    let n: int = if x.len() < y.len() {
        x.len() as int
    } else {
        y.len() as int
    };
    lemma_walks_agree(t, listing, None, x, y, n);
    assert(x.take(n)[n - 1] == y.take(n)[n - 1]);
    if x.len() < y.len() {
        assert(page_goes_on(y[n - 1]));
    }
    if y.len() < x.len() {
        assert(page_goes_on(x[n - 1]));
    }
    assert(x.take(n) =~= x && y.take(n) =~= y);
    lemma_docs_of_records(x, x.len() as int);
}

/// A bounded window of a repository's documents from `cursor` on: at most `max_pages`
/// pages, and the cursor to resume at for older ones, `None` once there are none. The
/// repository ends with the first page that has no cursor or no records.
pub fn list_documents_window<T: Transport>(
    t: &T,
    repo: &Identity,
    cursor: Option<&str>,
    max_pages: u32,
) -> (r: Result<(Vec<Document>, Option<String>), ReadError>)
    ensures
        window_read(*t, repo@, opt_str(cursor), max_pages, doc_page_result(r)),
{
    let ghost listing = listing_in(repo@, "site.standard.document"@, 50);
    let ghost start = opt_str(cursor);
    let mut out: Vec<Document> = Vec::new();
    let mut at: Option<String> = owned_opt(cursor);
    let ghost mut replies: Seq<Reply> = Seq::empty();
    let cap: u32 = if max_pages == 0 {
        1
    } else {
        max_pages
    };
    let mut done: u32 = 0;
    assert(documents_view(out@) =~= Seq::empty());
    while done < cap
        invariant
            listing == listing_in(repo@, "site.standard.document"@, 50),
            start == opt_str(cursor),
            done <= cap,
            cap == page_cap(max_pages),
            replies.len() == done,
            pages_asked(*t, listing, start, replies),
            forall|i: int| 0 <= i < replies.len() ==> page_goes_on(#[trigger] replies[i]),
            documents_view(out@) == docs_of(replies, replies.len() as int),
            opt_view(at) == cursor_at(start, replies, replies.len() as int),
        decreases cap - done,
    {
        let (page, held, reply) = match &at {
            Some(c) => fetch_documents(t, repo, Some(c.as_str())),
            None => fetch_documents(t, repo, None),
        };
        let ghost before = replies;
        proof {
            lemma_asked_push(*t, listing, start, replies, reply@);
            lemma_docs_of_push(replies, reply@, replies.len() as int);
            replies = replies.push(reply@);
            assert(replies.last() == reply@);
            assert forall|i: int| 0 <= i < replies.len() - 1 implies page_goes_on(
                #[trigger] replies[i],
            ) by {
                assert(replies[i] == before[i]);
            }
        }
        done = done + 1;
        let (docs, next) = match page {
            Ok(page) => page,
            Err(e) => {
                assert(window_ended(replies, cap as int));
                return Err(e);
            },
        };
        let ghost fresh = documents_view(docs@);
        let ghost had = out@;
        let mut docs = docs;
        out.append(&mut docs);
        assert(documents_view(out@) =~= documents_view(had) + fresh);
        match next {
            Some(c) => {
                if held {
                    at = Some(c);
                    assert(page_goes_on(reply@));
                    assert forall|i: int| 0 <= i < replies.len() implies page_goes_on(
                        #[trigger] replies[i],
                    ) by {
                        if i == replies.len() - 1 {
                            assert(replies[i] == reply@);
                        }
                    }
                } else {
                    assert(window_ended(replies, cap as int));
                    return Ok((out, None));
                }
            },
            None => {
                assert(window_ended(replies, cap as int));
                return Ok((out, None));
            },
        }
    }
    assert(page_goes_on(replies[replies.len() - 1]));
    assert(window_ended(replies, cap as int));
    Ok((out, at))
}

/// A publication and its repository, or an error, by view.
pub open spec fn publication_result(
    r: Result<(Publication, Identity), ReadError>,
) -> Result<(SpecPublication, SpecIdentity), SpecReadError> {
    match r {
        Ok((p, i)) => Ok((p@, i@)),
        Err(e) => Err(e@),
    }
}

/// What the reply for a publication's record says.
pub open spec fn publication_from_reply(uri: SpecAtUri, pds: Seq<char>, reply: Reply) -> Result<
    (SpecPublication, SpecIdentity),
    SpecReadError,
> {
    match record_of_reply(reply) {
        Err(e) => Err(e),
        Ok(record) => match publication_of(record.value, record.uri) {
            Some(p) => Ok((p, SpecIdentity { did: uri.did, pds })),
            None => Err(SpecReadError::Parse("not a publication: "@ + uri.printed())),
        },
    }
}

/// The URL of the record `uri` on the server `pds`.
pub open spec fn record_url(pds: Seq<char>, uri: SpecAtUri) -> Seq<char> {
    get_record_url(pds, uri.did, uri.collection, uri.rkey)
}

/// `r` is what fetching a publication and its repository's identity came to.
pub open spec fn publication_fetched<T: Transport>(
    t: T,
    uri: SpecAtUri,
    r: Result<(SpecPublication, SpecIdentity), SpecReadError>,
) -> bool {
    exists|pds: Result<Seq<char>, SpecReadError>|
        {
            &&& #[trigger] pds_resolved(t, uri.did, pds)
            &&& match pds {
                Err(e) => r == Err::<(SpecPublication, SpecIdentity), SpecReadError>(e),
                Ok(pds) => exists|reply: Reply| #[trigger]
                    t.answers(record_url(pds, uri), reply) && r == publication_from_reply(
                        uri,
                        pds,
                        reply,
                    ),
            }
        }
}

/// Fetch a publication, which may live in another repository, and that repository's
/// identity.
pub fn get_publication<T: Transport>(t: &T, pub_uri: &AtUri) -> (r: Result<
    (Publication, Identity),
    ReadError,
>)
    ensures
        publication_fetched(*t, pub_uri@, publication_result(r)),
{
    let pds = resolve_pds(t, pub_uri.did.as_str());
    let ghost found = text_result(pds);
    assert(pds_resolved(*t, pub_uri@.did, found));
    let pds = match pds {
        Ok(pds) => pds,
        Err(e) => return Err(e),
    };
    let url = xrpc::get_record(
        pds.as_str(),
        pub_uri.did.as_str(),
        pub_uri.collection.as_str(),
        pub_uri.rkey.as_str(),
    );
    let (record, reply) = fetch_record(t, url.as_str());
    assert(t.answers(record_url(pds@, pub_uri@), reply@));
    let ghost server = pds@;
    let r = match record {
        Err(e) => Err(e),
        Ok(record) => match parse_publication(&record.value, record.uri.as_str()) {
            Some(p) => Ok((p, Identity { did: pub_uri.did.clone(), pds })),
            None => {
                let printed = pub_uri.to_string();
                Err(ReadError::Parse(join2("not a publication: ", printed.as_str())))
            },
        },
    };
    assert(found == Ok::<Seq<char>, SpecReadError>(server));
    assert(t.answers(record_url(found->Ok_0, pub_uri@), reply@));
    assert(publication_result(r) == publication_from_reply(pub_uri@, server, reply@));
    r
}

/// `r` is what fetching a blob came to.
pub open spec fn blob_fetched<T: Transport>(
    t: T,
    pds: Seq<char>,
    did: Seq<char>,
    cid: Seq<char>,
    r: Result<Seq<u8>, SpecReadError>,
) -> bool {
    exists|reply: Reply| #[trigger]
        t.answers(get_blob_url(pds, did, cid), reply) && r == bytes_of_reply(reply)
}

/// Fetch an image or asset blob.
pub fn get_blob<T: Transport>(t: &T, pds: &str, did: &str, cid: &str) -> (r: Result<
    Vec<u8>,
    ReadError,
>)
    ensures
        blob_fetched(*t, pds@, did@, cid@, bytes_result(r)),
{
    let url = xrpc::get_blob(pds, did, cid);
    let (r, reply) = get(t, url.as_str());
    assert(t.answers(get_blob_url(pds@, did@, cid@), reply@));
    r
}

// --- Galleries --------------------------------------------------------------------

/// The images of a gallery record's reply; none from a reply that is no such record or
/// from an empty gallery.
pub open spec fn gallery_from_reply(uri: SpecAtUri, reply: Reply) -> Option<Seq<SpecImage>> {
    match record_of_reply(reply) {
        Err(_) => None,
        Ok(record) => {
            let images = gallery_images_of(record.value, uri.did);
            if images.len() == 0 {
                None
            } else {
                Some(images)
            }
        },
    }
}

/// The server that a reference from a document in `did` on `pds` leads to: the same if
/// it stays in the repository, else the one its own repository resolves to.
pub open spec fn ref_server<T: Transport>(
    t: T,
    uri: SpecAtUri,
    did: Seq<char>,
    pds: Seq<char>,
    server: Result<Seq<char>, SpecReadError>,
) -> bool {
    if uri.did == did {
        server == Ok::<Seq<char>, SpecReadError>(pds)
    } else {
        pds_resolved(t, uri.did, server)
    }
}

/// `r` is what fetching the gallery `uri` came to.
pub open spec fn gallery_fetched<T: Transport>(
    t: T,
    uri: Seq<char>,
    did: Seq<char>,
    pds: Seq<char>,
    r: Option<Seq<SpecImage>>,
) -> bool {
    match crate::atp::parsed_at_uri(uri) {
        None => r is None,
        Some(at) => exists|server: Result<Seq<char>, SpecReadError>|
            {
                &&& #[trigger] ref_server(t, at, did, pds, server)
                &&& match server {
                    Err(_) => r is None,
                    Ok(s) => exists|reply: Reply| #[trigger]
                        t.answers(record_url(s, at), reply) && r == gallery_from_reply(at, reply),
                }
            },
    }
}

/// Optional images by view.
pub open spec fn opt_images_view(o: Option<Vec<Image>>) -> Option<Seq<SpecImage>> {
    match o {
        Some(v) => Some(images_view(v@)),
        None => None,
    }
}

/// Resolve the server that a reference leads to.
fn resolve_ref<T: Transport>(t: &T, at: &AtUri, did: &str, pds: &str) -> (r: Result<
    String,
    ReadError,
>)
    ensures
        ref_server(*t, at@, did@, pds@, text_result(r)),
{
    if same(at.did.as_str(), did) {
        Ok(owned(pds))
    } else {
        resolve_pds(t, at.did.as_str())
    }
}

/// Fetch a gallery record and decode its images; `None` on any failure and for an empty
/// gallery.
fn fetch_gallery<T: Transport>(t: &T, uri: &str, doc_did: &str, doc_pds: &str) -> (r: Option<
    Vec<Image>,
>)
    ensures
        gallery_fetched(*t, uri@, doc_did@, doc_pds@, opt_images_view(r)),
{
    let at = match AtUri::parse(uri) {
        Some(at) => at,
        None => return None,
    };
    let server = resolve_ref(t, &at, doc_did, doc_pds);
    let ghost found = text_result(server);
    assert(ref_server(*t, at@, doc_did@, doc_pds@, found));
    let pds = match server {
        Ok(pds) => pds,
        Err(_) => return None,
    };
    let url = xrpc::get_record(
        pds.as_str(),
        at.did.as_str(),
        at.collection.as_str(),
        at.rkey.as_str(),
    );
    let (record, reply) = fetch_record(t, url.as_str());
    assert(t.answers(record_url(found->Ok_0, at@), reply@));
    let r = match record {
        Err(_) => None,
        Ok(record) => {
            let images = gallery_images(&record.value, at.did.as_str());
            if images.len() == 0 {
                None
            } else {
                Some(images)
            }
        },
    };
    assert(opt_images_view(r) == gallery_from_reply(at@, reply@));
    r
}

/// A gallery's images as a block; a gallery without images leaves nothing.
pub open spec fn gallery_block(images: Option<Seq<SpecImage>>) -> Seq<SpecBlock> {
    match images {
        Some(g) => seq![SpecBlock::ImageGrid(g)],
        None => Seq::empty(),
    }
}

/// `after` is what resolving the galleries of one block came to: a gallery is fetched,
/// a container keeps its place, and anything else is as it was.
pub open spec fn block_resolved<T: Transport>(
    t: T,
    did: Seq<char>,
    pds: Seq<char>,
    b: SpecBlock,
    after: Seq<SpecBlock>,
) -> bool
    decreases b,
{
    match b {
        SpecBlock::GalleryRef { uri } => exists|images: Option<Seq<SpecImage>>|
            #[trigger] gallery_fetched(t, uri, did, pds, images) && after == gallery_block(
                images,
            ),
        SpecBlock::Quote(inner) => after.len() == 1 && match after[0] {
            SpecBlock::Quote(x) => blocks_resolved(t, did, pds, inner, x),
            _ => false,
        },
        SpecBlock::List { ordered, items } => after.len() == 1 && match after[0] {
            SpecBlock::List { ordered: o, items: x } => o == ordered && items_resolved(
                t,
                did,
                pds,
                items,
                x,
            ),
            _ => false,
        },
        other => after == seq![other],
    }
}

/// `after` is what resolving the galleries of blocks came to, one after the other: each
/// becomes one block, or none where a gallery was dropped.
pub open spec fn blocks_resolved<T: Transport>(
    t: T,
    did: Seq<char>,
    pds: Seq<char>,
    before: Seq<SpecBlock>,
    after: Seq<SpecBlock>,
) -> bool
    decreases before,
{
    if before.len() == 0 {
        after.len() == 0
    } else {
        ||| (after.len() > 0 && blocks_resolved(
            t,
            did,
            pds,
            before.drop_last(),
            after.drop_last(),
        ) && block_resolved(t, did, pds, before.last(), seq![after.last()]))
        ||| (blocks_resolved(t, did, pds, before.drop_last(), after) && block_resolved(
            t,
            did,
            pds,
            before.last(),
            Seq::empty(),
        ))
    }
}

/// `after` is what resolving the galleries of list items came to.
pub open spec fn items_resolved<T: Transport>(
    t: T,
    did: Seq<char>,
    pds: Seq<char>,
    before: Seq<Seq<SpecBlock>>,
    after: Seq<Seq<SpecBlock>>,
) -> bool
    decreases before,
{
    if before.len() == 0 {
        after.len() == 0
    } else {
        &&& after.len() > 0
        &&& items_resolved(t, did, pds, before.drop_last(), after.drop_last())
        &&& blocks_resolved(t, did, pds, before.last(), after.last())
    }
}

/// A gallery that has not been fetched stands among blocks, however deep.
pub open spec fn has_gallery_ref(b: SpecBlock) -> bool
    decreases b,
{
    match b {
        SpecBlock::GalleryRef { uri } => true,
        SpecBlock::Quote(inner) => any_gallery_ref(inner),
        SpecBlock::List { ordered, items } => any_item_gallery_ref(items),
        _ => false,
    }
}

/// A gallery that has not been fetched stands among blocks, however deep.
pub open spec fn any_gallery_ref(s: Seq<SpecBlock>) -> bool
    decreases s,
{
    s.len() > 0 && (any_gallery_ref(s.drop_last()) || has_gallery_ref(s.last()))
}

/// A gallery that has not been fetched stands among list items, however deep.
pub open spec fn any_item_gallery_ref(s: Seq<Seq<SpecBlock>>) -> bool
    decreases s,
{
    s.len() > 0 && (any_item_gallery_ref(s.drop_last()) || any_gallery_ref(s.last()))
}

proof fn lemma_gallery_ref_concat(a: Seq<SpecBlock>, b: Seq<SpecBlock>)
    ensures
        any_gallery_ref(a + b) == (any_gallery_ref(a) || any_gallery_ref(b)),
    decreases b.len(),
{
    if b.len() == 0 {
        assert(a + b =~= a);
    } else {
        lemma_gallery_ref_concat(a, b.drop_last());
        assert((a + b).drop_last() =~= a + b.drop_last());
    }
}

proof fn lemma_gallery_ref_one(b: SpecBlock)
    ensures
        any_gallery_ref(seq![b]) == has_gallery_ref(b),
{
    assert(seq![b].drop_last() =~= Seq::<SpecBlock>::empty());
    assert(!any_gallery_ref(Seq::<SpecBlock>::empty()));
}

proof fn lemma_block_resolved_clean<T: Transport>(
    t: T,
    did: Seq<char>,
    pds: Seq<char>,
    b: SpecBlock,
    after: Seq<SpecBlock>,
)
    requires
        block_resolved(t, did, pds, b, after),
    ensures
        !any_gallery_ref(after),
    decreases b,
{
    match b {
        SpecBlock::GalleryRef { uri } => {
            let images = choose|images: Option<Seq<SpecImage>>|
                #[trigger] gallery_fetched(t, uri, did, pds, images) && after == gallery_block(
                    images,
                );
            if let Some(g) = images {
                lemma_gallery_ref_one(SpecBlock::ImageGrid(g));
            }
        },
        SpecBlock::Quote(inner) => {
            let x = after[0]->Quote_0;
            law_no_gallery_reference_remains(t, did, pds, inner, x);
            assert(after =~= seq![SpecBlock::Quote(x)]);
            lemma_gallery_ref_one(SpecBlock::Quote(x));
        },
        SpecBlock::List { ordered, items } => {
            let x = after[0]->List_items;
            lemma_items_resolved_clean(t, did, pds, items, x);
            assert(after =~= seq![SpecBlock::List { ordered, items: x }]);
            lemma_gallery_ref_one(SpecBlock::List { ordered, items: x });
        },
        other => {
            lemma_gallery_ref_one(other);
        },
    }
}

proof fn lemma_items_resolved_clean<T: Transport>(
    t: T,
    did: Seq<char>,
    pds: Seq<char>,
    before: Seq<Seq<SpecBlock>>,
    after: Seq<Seq<SpecBlock>>,
)
    requires
        items_resolved(t, did, pds, before, after),
    ensures
        !any_item_gallery_ref(after),
    decreases before,
{
    if before.len() > 0 {
        lemma_items_resolved_clean(t, did, pds, before.drop_last(), after.drop_last());
        law_no_gallery_reference_remains(t, did, pds, before.last(), after.last());
    }
}

/// Whatever the servers answer, no unfetched gallery is left among the blocks, at any
/// depth.
pub proof fn law_no_gallery_reference_remains<T: Transport>(
    t: T,
    did: Seq<char>,
    pds: Seq<char>,
    before: Seq<SpecBlock>,
    after: Seq<SpecBlock>,
)
    requires
        blocks_resolved(t, did, pds, before, after),
    ensures
        !any_gallery_ref(after),
    decreases before,
{
    if before.len() > 0 {
        if after.len() > 0 && blocks_resolved(
            t,
            did,
            pds,
            before.drop_last(),
            after.drop_last(),
        ) && block_resolved(t, did, pds, before.last(), seq![after.last()]) {
            law_no_gallery_reference_remains(t, did, pds, before.drop_last(), after.drop_last());
            lemma_block_resolved_clean(t, did, pds, before.last(), seq![after.last()]);
            lemma_gallery_ref_one(after.last());
        } else {
            law_no_gallery_reference_remains(t, did, pds, before.drop_last(), after);
        }
    }
}

/// Replace each gallery reference by a grid of its images, fetched from its record; one
/// that cannot be fetched is dropped.
pub fn resolve_gallery_refs<T: Transport>(
    t: &T,
    blocks: Vec<Block>,
    doc_did: &str,
    doc_pds: &str,
) -> (r: Vec<Block>)
    ensures
        blocks_resolved(*t, doc_did@, doc_pds@, blocks_view(blocks@), blocks_view(r@)),
    decreases blocks_view(blocks@),
{
    let ghost all = blocks_view(blocks@);
    let mut out: Vec<Block> = Vec::new();
    assert(all.take(0).len() == 0);
    proof {
        lemma_blocks_view(blocks@);
    }
    for block in it: blocks.into_iter()
        invariant
            all == blocks_view(it.seq()),
            all == blocks_view(blocks@),
            blocks_resolved(
                *t,
                doc_did@,
                doc_pds@,
                all.take(it.index() as int),
                blocks_view(out@),
            ),
    {
        broadcast use {lemma_blocks_view, group_model_push};

        let ghost i = it.index() as int;
        let ghost head = blocks_view(out@);
        let ghost b = block_view(block);
        let ghost next = all.take(i + 1);
        assert(all[i] == b);
        assert(decreases_to!(all => all[i]));
        assert(next.drop_last() =~= all.take(i));
        assert(next.last() == b);
        match block {
            Block::GalleryRef { uri } => {
                let images = fetch_gallery(t, uri.as_str(), doc_did, doc_pds);
                let ghost seen = opt_images_view(images);
                assert(gallery_fetched(*t, b->GalleryRef_uri, doc_did@, doc_pds@, seen));
                assert(block_resolved(*t, doc_did@, doc_pds@, b, gallery_block(seen)));
                if let Some(images) = images {
                    out.push(Block::ImageGrid(images));
                    assert(blocks_view(out@).drop_last() =~= head);
                    assert(seq![blocks_view(out@).last()] =~= gallery_block(seen));
                }
            },
            Block::Quote(inner) => {
                assert(decreases_to!(b => b->Quote_0));
                let resolved = resolve_gallery_refs(t, inner, doc_did, doc_pds);
                let ghost x = blocks_view(resolved@);
                out.push(Block::Quote(resolved));
                assert(blocks_view(out@).drop_last() =~= head);
                assert(seq![blocks_view(out@).last()][0] == SpecBlock::Quote(x));
                assert(block_resolved(
                    *t,
                    doc_did@,
                    doc_pds@,
                    b,
                    seq![blocks_view(out@).last()],
                ));
            },
            Block::List { ordered, items } => {
                assert(decreases_to!(b => b->List_items));
                let resolved = resolve_item_refs(t, items, doc_did, doc_pds);
                let ghost x = items_view(resolved@);
                out.push(Block::List { ordered, items: resolved });
                assert(blocks_view(out@).drop_last() =~= head);
                assert(seq![blocks_view(out@).last()][0] == SpecBlock::List { ordered, items: x });
                assert(block_resolved(
                    *t,
                    doc_did@,
                    doc_pds@,
                    b,
                    seq![blocks_view(out@).last()],
                ));
            },
            other => {
                out.push(other);
                assert(blocks_view(out@).drop_last() =~= head);
                assert(block_resolved(
                    *t,
                    doc_did@,
                    doc_pds@,
                    b,
                    seq![blocks_view(out@).last()],
                ));
            },
        }
    }
    assert(all.take(all.len() as int) =~= all);
    out
}

/// Resolve the galleries of list items.
fn resolve_item_refs<T: Transport>(
    t: &T,
    items: Vec<Vec<Block>>,
    doc_did: &str,
    doc_pds: &str,
) -> (r: Vec<Vec<Block>>)
    ensures
        items_resolved(*t, doc_did@, doc_pds@, items_view(items@), items_view(r@)),
    decreases items_view(items@),
{
    let ghost all = items_view(items@);
    let mut out: Vec<Vec<Block>> = Vec::new();
    assert(all.take(0).len() == 0);
    proof {
        lemma_items_view(items@);
    }
    for item in it: items.into_iter()
        invariant
            all == items_view(it.seq()),
            all == items_view(items@),
            items_resolved(
                *t,
                doc_did@,
                doc_pds@,
                all.take(it.index() as int),
                items_view(out@),
            ),
    {
        broadcast use {lemma_items_view, group_model_push};

        let ghost i = it.index() as int;
        let ghost head = items_view(out@);
        let ghost was = blocks_view(item@);
        assert(all[i] == was);
        assert(decreases_to!(all => all[i]));
        let resolved = resolve_gallery_refs(t, item, doc_did, doc_pds);
        out.push(resolved);
        assert(all.take(i + 1).drop_last() =~= all.take(i));
        assert(all.take(i + 1).last() == was);
        assert(items_view(out@).drop_last() =~= head);
    }
    assert(all.take(all.len() as int) =~= all);
    out
}

// --- Documents --------------------------------------------------------------------

/// A body, or the description where the body is empty and the description says
/// something.
pub open spec fn described_body(body: Seq<SpecBlock>, description: Option<Seq<char>>) -> Seq<
    SpecBlock,
> {
    match description {
        Some(d) => if body.len() == 0 && trimmed(d).len() > 0 {
            seq![SpecBlock::Paragraph(seq![SpecInline::Text(d)])]
        } else {
            body
        },
        None => body,
    }
}

/// Fall back to the description blurb when the decoded body is empty, so that a
/// document of which only the metadata is published does not show as a blank post.
pub fn or_description(body: RichDoc, description: Option<&str>) -> (r: RichDoc)
    ensures
        r@ == described_body(body@, opt_str(description)),
{
    proof {
        lemma_blocks_view(body.blocks@);
    }
    if body.blocks.len() == 0 {
        if let Some(desc) = description {
            let said = trim(desc);
            if !said.as_str().is_empty() {
                return RichDoc {
                    blocks: one_block(Block::Paragraph(one_inline(Inline::Text(owned(desc))))),
                };
            }
        }
    }
    body
}

/// The content of a record with the items that were moved to a blob put back.
pub open spec fn spliced(content: SpecJson, items: SpecJson) -> SpecJson {
    content.with_member("items"@, items)
}

/// `r` is the content to decode: the record's own, or, where its items were moved to a
/// blob, with them fetched and put back. A blob that cannot be had or read leaves the
/// content without items.
pub open spec fn content_found<T: Transport>(
    t: T,
    did: Seq<char>,
    pds: Seq<char>,
    value: SpecJson,
    r: Option<SpecJson>,
) -> bool {
    match value.get("content"@) {
        None => r is None,
        Some(content) => match external_cid_of(content) {
            None => r == Some(content),
            Some(cid) => exists|reply: Reply| #[trigger]
                t.answers(get_blob_url(pds, did, cid), reply) && r == Some(
                    match json_of_reply(reply) {
                        Ok(items) => spliced(content, items),
                        Err(_) => content,
                    },
                ),
        },
    }
}

/// The body that a record holds once its content is at hand.
pub open spec fn body_of(
    content: Option<SpecJson>,
    value: SpecJson,
    did: Seq<char>,
) -> Seq<SpecBlock> {
    decoded_doc(content, value.get_str("textContent"@), did)
}

/// `r` is the decoded body: of the content itself, or of the record that it refers to.
pub open spec fn body_found<T: Transport>(
    t: T,
    did: Seq<char>,
    pds: Seq<char>,
    content: Option<SpecJson>,
    value: SpecJson,
    r: Result<Seq<SpecBlock>, SpecReadError>,
) -> bool {
    match ref_of(content) {
        None => r == Ok::<Seq<SpecBlock>, SpecReadError>(body_of(content, value, did)),
        Some(at) => exists|server: Result<Seq<char>, SpecReadError>|
            {
                &&& #[trigger] ref_server(t, at, did, pds, server)
                &&& match server {
                    Err(e) => r == Err::<Seq<SpecBlock>, SpecReadError>(e),
                    Ok(s) => exists|reply: Reply| #[trigger]
                        t.answers(record_url(s, at), reply) && r == (match record_of_reply(
                            reply,
                        ) {
                            Ok(record) => Ok(
                                body_of(record.value.get("content"@), record.value, did),
                            ),
                            Err(e) => Err(e),
                        }),
                }
            },
    }
}

/// The record that content refers to.
pub open spec fn ref_of(content: Option<SpecJson>) -> Option<SpecAtUri> {
    match content {
        Some(c) => content_ref_of(c),
        None => None,
    }
}

/// The platform of a document: its content's, or GreenGale's where the content refers
/// to a GreenGale record.
pub open spec fn document_platform(content: Option<SpecJson>) -> Option<PublishingPlatform> {
    match ref_of(content) {
        Some(at) => if at.collection == "app.greengale.document"@ {
            Some(PublishingPlatform::GreenGale)
        } else {
            platform_of(content)
        },
        None => platform_of(content),
    }
}

/// A document and its body.
pub type SpecRead = (SpecDocument, Seq<SpecBlock>);

/// `r` is what reading a document came to once its record was at hand.
pub open spec fn record_read<T: Transport>(
    t: T,
    uri: SpecAtUri,
    pds: Seq<char>,
    value: SpecJson,
    r: Result<SpecRead, SpecReadError>,
) -> bool {
    match document_of(value, uri.printed()) {
        None => r == Err::<SpecRead, SpecReadError>(
            SpecReadError::Parse("not a document: "@ + uri.printed()),
        ),
        Some(meta) => exists|content: Option<SpecJson>|
            {
                &&& #[trigger] content_found(t, uri.did, pds, value, content)
                &&& content_read(t, uri, pds, value, meta, content, r)
            },
    }
}

/// `r` is what reading a document came to once its content was at hand: the body is
/// decoded, its galleries are fetched, and the description stands in for an empty one.
pub open spec fn content_read<T: Transport>(
    t: T,
    uri: SpecAtUri,
    pds: Seq<char>,
    value: SpecJson,
    meta: SpecDocument,
    content: Option<SpecJson>,
    r: Result<SpecRead, SpecReadError>,
) -> bool {
    exists|body: Result<Seq<SpecBlock>, SpecReadError>|
        {
            &&& #[trigger] body_found(t, uri.did, pds, content, value, body)
            &&& match body {
                Err(e) => r == Err::<SpecRead, SpecReadError>(e),
                Ok(body) => exists|blocks: Seq<SpecBlock>|
                    {
                        &&& #[trigger] blocks_resolved(t, uri.did, pds, body, blocks)
                        &&& r == Ok::<SpecRead, SpecReadError>(
                            (
                                SpecDocument {
                                    publishing_platform: document_platform(content),
                                    ..meta
                                },
                                described_body(blocks, meta.description),
                            ),
                        )
                    },
            }
        }
}

/// A document and its body, or an error, by view.
pub open spec fn read_result(r: Result<(Document, RichDoc), ReadError>) -> Result<
    SpecRead,
    SpecReadError,
> {
    match r {
        Ok((meta, body)) => Ok((meta@, body@)),
        Err(e) => Err(e@),
    }
}

/// An optional value by its view.
pub open spec fn opt_json(o: Option<Json>) -> Option<SpecJson> {
    match o {
        Some(v) => Some(v@),
        None => None,
    }
}

/// Blocks or an error, by view.
pub open spec fn body_result(r: Result<RichDoc, ReadError>) -> Result<
    Seq<SpecBlock>,
    SpecReadError,
> {
    match r {
        Ok(d) => Ok(d@),
        Err(e) => Err(e@),
    }
}

/// The content to decode.
fn find_content<T: Transport>(t: &T, did: &str, pds: &str, value: &Json) -> (r: Option<Json>)
    ensures
        content_found(*t, did@, pds@, value@, opt_json(r)),
{
    let content = match value.get("content") {
        Some(content) => content,
        None => return None,
    };
    match external_content_cid(content) {
        None => Some(copy_json(content)),
        Some(cid) => {
            let url = xrpc::get_blob(pds, did, cid);
            let (items, reply) = get_json(t, url.as_str());
            assert(t.answers(get_blob_url(pds@, did@, external_cid_of(content@)->0), reply@));
            let copy = copy_json(content);
            match items {
                Ok(items) => Some(copy.with_member("items", items)),
                Err(_) => Some(copy),
            }
        },
    }
}

/// The content of a record decoded.
fn decode_value(registry: &Registry, content: Option<&Json>, value: &Json, did: &str) -> (r:
    RichDoc)
    ensures
        r@ == body_of(
            match content {
                Some(c) => Some(c@),
                None => None,
            },
            value@,
            did@,
        ),
{
    let ctx = DecodeCtx { repo_did: did };
    registry.decode(content, value.get_str("textContent"), &ctx)
}

/// The decoded body.
fn find_body<T: Transport>(
    t: &T,
    registry: &Registry,
    did: &str,
    pds: &str,
    content: &Option<Json>,
    value: &Json,
) -> (r: Result<RichDoc, ReadError>)
    ensures
        body_found(
            *t,
            did@,
            pds@,
            opt_json(*content),
            value@,
            body_result(r),
        ),
{
    let at = match content {
        Some(c) => content_ref(c),
        None => None,
    };
    let at = match at {
        Some(at) => at,
        None => return Ok(
            match content {
                Some(c) => decode_value(registry, Some(c), value, did),
                None => decode_value(registry, None, value, did),
            },
        ),
    };
    let ghost target = ref_of(opt_json(*content))->0;
    assert(target == at@);
    let server = resolve_ref(t, &at, did, pds);
    let ghost found = text_result(server);
    assert(ref_server(*t, target, did@, pds@, found));
    let ref_pds = match server {
        Ok(s) => s,
        Err(e) => return Err(e),
    };
    let url = xrpc::get_record(
        ref_pds.as_str(),
        at.did.as_str(),
        at.collection.as_str(),
        at.rkey.as_str(),
    );
    let (record, reply) = fetch_record(t, url.as_str());
    assert(t.answers(record_url(found->Ok_0, target), reply@));
    match record {
        Ok(record) => Ok(
            match record.value.get("content") {
                Some(c) => decode_value(registry, Some(c), &record.value, did),
                None => decode_value(registry, None, &record.value, did),
            },
        ),
        Err(e) => Err(e),
    }
}

/// The platform of a document.
fn find_platform(registry: &Registry, content: &Option<Json>) -> (r: Option<PublishingPlatform>)
    ensures
        r == document_platform(
            opt_json(*content),
        ),
{
    match content {
        None => registry.publishing_platform(None),
        Some(c) => {
            if let Some(at) = content_ref(c) {
                if same(at.collection.as_str(), "app.greengale.document") {
                    return Some(PublishingPlatform::GreenGale);
                }
            }
            registry.publishing_platform(Some(c))
        },
    }
}

/// `r` is what fetching and decoding a document came to.
pub open spec fn document_fetched<T: Transport>(
    t: T,
    uri: SpecAtUri,
    pds: Seq<char>,
    r: Result<SpecRead, SpecReadError>,
) -> bool {
    exists|reply: Reply|
        {
            &&& #[trigger] t.answers(record_url(pds, uri), reply)
            &&& match record_of_reply(reply) {
                Err(e) => r == Err::<SpecRead, SpecReadError>(e),
                Ok(record) => record_read(t, uri, pds, record.value, r),
            }
        }
}

/// Fetch one document and decode its body. Content that refers to another record is
/// read from there, items that were moved to a blob are put back, and galleries are
/// fetched.
pub fn get_document<T: Transport>(
    t: &T,
    registry: &Registry,
    doc_uri: &AtUri,
    pds: &str,
) -> (r: Result<(Document, RichDoc), ReadError>)
    ensures
        document_fetched(*t, doc_uri@, pds@, read_result(r)),
{
    let url = xrpc::get_record(
        pds,
        doc_uri.did.as_str(),
        doc_uri.collection.as_str(),
        doc_uri.rkey.as_str(),
    );
    let (record, reply) = fetch_record(t, url.as_str());
    assert(t.answers(record_url(pds@, doc_uri@), reply@));
    let record = match record {
        Ok(record) => record,
        Err(e) => return Err(e),
    };
    read_document_record(t, registry, doc_uri, pds, &record.value)
}

/// Read a document whose record is at hand.
pub fn read_document_record<T: Transport>(
    t: &T,
    registry: &Registry,
    doc_uri: &AtUri,
    pds: &str,
    value: &Json,
) -> (r: Result<(Document, RichDoc), ReadError>)
    ensures
        record_read(*t, doc_uri@, pds@, value@, read_result(r)),
{
    let printed = doc_uri.to_string();
    let mut meta = match parse_document(value, printed.as_str()) {
        Some(meta) => meta,
        None => return Err(ReadError::Parse(join2("not a document: ", printed.as_str()))),
    };
    let did = doc_uri.did.as_str();
    let content = find_content(t, did, pds, value);
    let ghost spec_content = opt_json(content);
    assert(content_found(*t, doc_uri@.did, pds@, value@, spec_content));
    let ghost spec_meta = meta@;
    meta.publishing_platform = find_platform(registry, &content);
    let body = find_body(t, registry, did, pds, &content, value);
    let ghost body_seen = body_result(body);
    assert(body_found(*t, doc_uri@.did, pds@, spec_content, value@, body_seen));
    let body = match body {
        Ok(body) => body,
        Err(e) => {
            let r: Result<(Document, RichDoc), ReadError> = Err(e);
            assert(content_read(
                *t,
                doc_uri@,
                pds@,
                value@,
                spec_meta,
                spec_content,
                read_result(r),
            ));
            return r;
        },
    };
    let ghost body_blocks = body@;
    let resolved = resolve_gallery_refs(t, body.blocks, did, pds);
    let ghost blocks = blocks_view(resolved@);
    assert(blocks_resolved(*t, doc_uri@.did, pds@, body_blocks, blocks));
    let body = match &meta.description {
        Some(d) => or_description(RichDoc { blocks: resolved }, Some(d.as_str())),
        None => or_description(RichDoc { blocks: resolved }, None),
    };
    let r: Result<(Document, RichDoc), ReadError> = Ok((meta, body));
    assert(body_seen == Ok::<Seq<SpecBlock>, SpecReadError>(body_blocks));
    assert(blocks_resolved(*t, doc_uri@.did, pds@, body_seen->Ok_0, blocks));
    assert(content_read(
        *t,
        doc_uri@,
        pds@,
        value@,
        spec_meta,
        spec_content,
        read_result(r),
    ));
    r
}

/// Paragraphs of text hold no gallery, so fetching galleries leaves them as they are.
proof fn lemma_text_has_no_galleries<T: Transport>(
    t: T,
    did: Seq<char>,
    pds: Seq<char>,
    pieces: Seq<Seq<char>>,
    n: int,
    after: Seq<SpecBlock>,
)
    requires
        blocks_resolved(t, did, pds, paragraphs_of(pieces, n), after),
    ensures
        after == paragraphs_of(pieces, n),
    decreases n,
{
    let before = paragraphs_of(pieces, n);
    if n <= 0 {
        assert(after =~= before);
    } else {
        let rest = paragraphs_of(pieces, n - 1);
        if trimmed(pieces[n - 1]).len() == 0 {
            lemma_text_has_no_galleries(t, did, pds, pieces, n - 1, after);
        } else {
            assert(before.drop_last() =~= rest);
            assert(before.last() is Paragraph);
            reveal_with_fuel(blocks_resolved, 2);
            reveal_with_fuel(block_resolved, 2);
            assert(seq![before.last()].len() == 1);
            assert(!block_resolved(t, did, pds, before.last(), Seq::empty()));
            assert(after.len() > 0);
            lemma_text_has_no_galleries(t, did, pds, pieces, n - 1, after.drop_last());
            assert(seq![after.last()][0] == after.last());
            assert(seq![before.last()][0] == before.last());
            assert(after =~= before);
        }
    }
}

/// A document whose items were moved to a blob that cannot be had or read shows its plain
/// text, or its description where it has none.
pub proof fn law_a_lost_blob_reads_as_text<T: Transport>(
    t: T,
    uri: SpecAtUri,
    pds: Seq<char>,
    value: SpecJson,
    content: SpecJson,
    cid: Seq<char>,
    text: Seq<char>,
    meta: SpecDocument,
    r: Result<SpecRead, SpecReadError>,
)
    requires
        value.get("content"@) == Some(content),
        external_cid_of(content) == Some(cid),
        value.get_str("textContent"@) == Some(text),
        document_of(value, uri.printed()) == Some(meta),
        forall|reply: Reply| #[trigger]
            t.answers(get_blob_url(pds, uri.did, cid), reply) ==> json_of_reply(reply) is Err,
        record_read(t, uri, pds, value, r),
    ensures
        r == Ok::<SpecRead, SpecReadError>(
            (
                SpecDocument { publishing_platform: Some(PublishingPlatform::Pckt), ..meta },
                described_body(typeset(text), meta.description),
            ),
        ),
{
    reveal_strlit("blog.pckt.content");
    reveal_strlit("#contentRef");
    reveal_strlit("at.markpub.markdown");
    reveal_strlit("pub.leaflet.content");
    reveal_strlit("app.offprint.content");
    reveal_strlit("org.wordpress.html");
    reveal_strlit("at.unthread.content");
    let found = choose|c: Option<SpecJson>| #[trigger]
        content_found(t, uri.did, pds, value, c) && content_read(
            t,
            uri,
            pds,
            value,
            meta,
            c,
            r,
        );
    assert(found == Some(content));
    let body = choose|b: Result<Seq<SpecBlock>, SpecReadError>| #[trigger]
        body_found(t, uri.did, pds, found, value, b) && match b {
            Err(e) => r == Err::<SpecRead, SpecReadError>(e),
            Ok(body) => exists|blocks: Seq<SpecBlock>|
                {
                    &&& #[trigger] blocks_resolved(t, uri.did, pds, body, blocks)
                    &&& r == Ok::<SpecRead, SpecReadError>(
                        (
                            SpecDocument {
                                publishing_platform: document_platform(found),
                                ..meta
                            },
                            described_body(blocks, meta.description),
                        ),
                    )
                },
        };
    let ty = "blog.pckt.content"@;
    assert(ty.subrange(ty.len() - 11, ty.len() as int)[10] != "#contentRef"@[10]);
    assert(!finishes_with(ty, "#contentRef"@));
    assert(ref_of(found) is None);
    assert(body == Ok::<Seq<SpecBlock>, SpecReadError>(typeset(text)));
    let pieces = pieces_by(text, "\n\n"@, 0);
    let blocks = choose|blocks: Seq<SpecBlock>| #[trigger]
        blocks_resolved(t, uri.did, pds, typeset(text), blocks) && r == Ok::<
            SpecRead,
            SpecReadError,
        >(
            (
                SpecDocument { publishing_platform: document_platform(found), ..meta },
                described_body(blocks, meta.description),
            ),
        );
    lemma_text_has_no_galleries(t, uri.did, pds, pieces, pieces.len() as int, blocks);
}

} // verus!
