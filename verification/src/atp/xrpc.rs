//! URL builders for the requests that the reader makes. Query values are simple
//! identifiers and are written as they are.
use vstd::prelude::*;

use crate::text::{decimal, decimal_of, join2};

verus! {

/// The URL of `com.atproto.identity.resolveHandle`.
pub open spec fn resolve_handle_url(service: Seq<char>, handle: Seq<char>) -> Seq<char> {
    service + "/xrpc/com.atproto.identity.resolveHandle?handle="@ + handle
}

/// `com.atproto.identity.resolveHandle` against an entryway.
pub fn resolve_handle(service: &str, handle: &str) -> (r: String)
    ensures
        r@ == resolve_handle_url(service@, handle@),
{
    let mut url = join2(service, "/xrpc/com.atproto.identity.resolveHandle?handle=");
    url.push_str(handle);
    url
}

/// The URL of a DID's entry in the PLC directory.
pub open spec fn plc_directory_url(did: Seq<char>) -> Seq<char> {
    "https://plc.directory/"@ + did
}

/// The PLC directory entry of a DID, which names its server.
pub fn plc_directory(did: &str) -> (r: String)
    ensures
        r@ == plc_directory_url(did@),
{
    join2("https://plc.directory/", did)
}

/// The URL of `com.atproto.repo.listRecords`.
pub open spec fn list_records_url(
    pds: Seq<char>,
    repo: Seq<char>,
    collection: Seq<char>,
    limit: u32,
    cursor: Option<Seq<char>>,
) -> Seq<char> {
    let base = pds + "/xrpc/com.atproto.repo.listRecords?repo="@ + repo + "&collection="@
        + collection + "&limit="@ + decimal(limit as nat);
    match cursor {
        Some(c) => base + "&cursor="@ + c,
        None => base,
    }
}

/// `com.atproto.repo.listRecords`.
pub fn list_records(
    pds: &str,
    repo: &str,
    collection: &str,
    limit: u32,
    cursor: Option<&str>,
) -> (r: String)
    ensures
        r@ == list_records_url(
            pds@,
            repo@,
            collection@,
            limit,
            match cursor {
                Some(c) => Some(c@),
                None => None,
            },
        ),
{
    let mut url = join2(pds, "/xrpc/com.atproto.repo.listRecords?repo=");
    url.push_str(repo);
    url.push_str("&collection=");
    url.push_str(collection);
    url.push_str("&limit=");
    url.push_str(decimal_of(limit as u64).as_str());
    if let Some(c) = cursor {
        url.push_str("&cursor=");
        url.push_str(c);
    }
    url
}

/// The URL of `com.atproto.repo.getRecord`.
pub open spec fn get_record_url(
    pds: Seq<char>,
    repo: Seq<char>,
    collection: Seq<char>,
    rkey: Seq<char>,
) -> Seq<char> {
    pds + "/xrpc/com.atproto.repo.getRecord?repo="@ + repo + "&collection="@ + collection
        + "&rkey="@ + rkey
}

/// `com.atproto.repo.getRecord`.
pub fn get_record(pds: &str, repo: &str, collection: &str, rkey: &str) -> (r: String)
    ensures
        r@ == get_record_url(pds@, repo@, collection@, rkey@),
{
    let mut url = join2(pds, "/xrpc/com.atproto.repo.getRecord?repo=");
    url.push_str(repo);
    url.push_str("&collection=");
    url.push_str(collection);
    url.push_str("&rkey=");
    url.push_str(rkey);
    url
}

/// The URL of `com.atproto.sync.getBlob`.
pub open spec fn get_blob_url(pds: Seq<char>, did: Seq<char>, cid: Seq<char>) -> Seq<char> {
    pds + "/xrpc/com.atproto.sync.getBlob?did="@ + did + "&cid="@ + cid
}

/// `com.atproto.sync.getBlob`: an image or asset blob by its CID.
pub fn get_blob(pds: &str, did: &str, cid: &str) -> (r: String)
    ensures
        r@ == get_blob_url(pds@, did@, cid@),
{
    let mut url = join2(pds, "/xrpc/com.atproto.sync.getBlob?did=");
    url.push_str(did);
    url.push_str("&cid=");
    url.push_str(cid);
    url
}

} // verus!
