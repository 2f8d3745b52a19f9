//! Addresses: percent-decoding, query parameters, and what a reader types for a blog.
use vstd::prelude::*;
use vstd::utf8::encode_utf8;

use crate::model::{opt_view, ImageSource, SpecImageSource};
use crate::text::{
    after_last, after_prefix, begins_with, chars_of, contains, find_char, find_from, has_sub,
    join2, last_segment, lossy_text, owned, pieces, same, skip_char, slice_of, split_char,
    starts_with, strings_view, strip_prefix, text_of_bytes, trim, trimmed,
};

verus! {

// --- Percent-decoding -------------------------------------------------------------

/// The value of a byte as a hexadecimal digit.
pub open spec fn hex_byte(b: u8) -> Option<u8> {
    if 48 <= b <= 57 {
        Some((b - 48) as u8)
    } else if 97 <= b <= 102 {
        Some((b - 87) as u8)
    } else if 65 <= b <= 70 {
        Some((b - 55) as u8)
    } else {
        None
    }
}

fn hex_of_byte(b: u8) -> (r: Option<u8>)
    ensures
        r == hex_byte(b),
        r matches Some(d) ==> d < 16,
{
    if 48 <= b && b <= 57 {
        Some(b - 48)
    } else if 97 <= b && b <= 102 {
        Some(b - 87)
    } else if 65 <= b && b <= 70 {
        Some(b - 55)
    } else {
        None
    }
}

/// The byte that two bytes after a `%` spell: two hexadecimal digits, or a plus sign and
/// one.
pub open spec fn escape_value(a: u8, b: u8) -> Option<u8> {
    match hex_byte(b) {
        Some(low) => if a == 43 {
            Some(low)
        } else {
            match hex_byte(a) {
                Some(high) => Some((high * 16 + low) as u8),
                None => None,
            }
        },
        None => None,
    }
}

fn escape_of(a: u8, b: u8) -> (r: Option<u8>)
    ensures
        r == escape_value(a, b),
{
    match hex_of_byte(b) {
        Some(low) => if a == 43 {
            Some(low)
        } else {
            match hex_of_byte(a) {
                Some(high) => Some(high * 16 + low),
                None => None,
            }
        },
        None => None,
    }
}

/// The bytes that are meant from `i` on: `%XX` is a byte, `+` a space, everything else
/// itself.
pub open spec fn unescaped_from(s: Seq<u8>, i: int) -> Seq<u8>
    decreases s.len() - i,
{
    if i < 0 || i >= s.len() {
        Seq::empty()
    } else if s[i] == 37 && i + 2 < s.len() && escape_value(s[i + 1], s[i + 2]) is Some {
        seq![escape_value(s[i + 1], s[i + 2])->0] + unescaped_from(s, i + 3)
    } else if s[i] == 43 {
        seq![32u8] + unescaped_from(s, i + 1)
    } else {
        seq![s[i]] + unescaped_from(s, i + 1)
    }
}

/// A text percent-decoded.
pub open spec fn unescaped(s: Seq<char>) -> Seq<char> {
    lossy_text(unescaped_from(encode_utf8(s), 0))
}

/// The bytes that percent-encoded bytes mean.
pub fn unescape_bytes(bytes: &[u8]) -> (r: Vec<u8>)
    ensures
        r@ == unescaped_from(bytes@, 0),
{
    let mut out: Vec<u8> = Vec::new();
    let mut i: usize = 0;
    assert(out@ + unescaped_from(bytes@, 0) =~= unescaped_from(bytes@, 0));
    while i < bytes.len()
        invariant
            i <= bytes@.len(),
            out@ + unescaped_from(bytes@, i as int) == unescaped_from(bytes@, 0),
        decreases bytes@.len() - i,
    {
        let ghost before = out@;
        let ghost at = i as int;
        let mut byte: u8 = bytes[i];
        let mut step: usize = 1;
        if byte == 37 {
            if bytes.len() - i > 2 {
                if let Some(b) = escape_of(bytes[i + 1], bytes[i + 2]) {
                    byte = b;
                    step = 3;
                }
            }
        } else if byte == 43 {
            byte = 32;
        }
        out.push(byte);
        i = i + step;
        assert(unescaped_from(bytes@, at) == seq![byte] + unescaped_from(bytes@, i as int));
        assert(out@ + unescaped_from(bytes@, i as int) =~= before + unescaped_from(bytes@, at));
    }
    assert(out@ + unescaped_from(bytes@, i as int) =~= out@);
    out
}

/// Decode `%XX` escapes and `+` as space.
pub fn percent_decode(input: &str) -> (r: String)
    ensures
        r@ == unescaped(input@),
{
    let bytes = unescape_bytes(input.as_bytes());
    text_of_bytes(bytes.as_slice())
}

proof fn lemma_plain_bytes(s: Seq<u8>, i: int)
    requires
        0 <= i <= s.len(),
        forall|k: int| 0 <= k < s.len() ==> #[trigger] s[k] != 37 && s[k] != 43,
    ensures
        unescaped_from(s, i) == s.skip(i),
    decreases s.len() - i,
{
    if i < s.len() {
        lemma_plain_bytes(s, i + 1);
        assert(seq![s[i]] + s.skip(i + 1) =~= s.skip(i));
    } else {
        assert(s.skip(i) =~= Seq::empty());
    }
}

/// Bytes without an escape and without a plus sign mean themselves.
pub proof fn law_plain_bytes_are_kept(s: Seq<u8>)
    requires
        forall|k: int| 0 <= k < s.len() ==> #[trigger] s[k] != 37 && s[k] != 43,
    ensures
        unescaped_from(s, 0) == s,
{
    lemma_plain_bytes(s, 0);
    assert(s.skip(0) =~= s);
}

// --- Query parameters -------------------------------------------------------------

/// What stands before and after the first `c`.
pub open spec fn cut_at(s: Seq<char>, c: char) -> Option<(Seq<char>, Seq<char>)> {
    match find_from(s, 0, c) {
        Some(i) => Some((s.subrange(0, i), s.subrange(i + 1, s.len() as int))),
        None => None,
    }
}

/// What stands before and after the first `c`.
pub fn split_once(s: &str, c: char) -> (r: Option<(String, String)>)
    ensures
        cut_at(s@, c) == (match r {
            Some(p) => Some((p.0@, p.1@)),
            None => None,
        }),
{
    let v = chars_of(s);
    match find_char(&v, 0, c) {
        Some(i) => Some((slice_of(&v, 0, i), slice_of(&v, i + 1, v.len()))),
        None => None,
    }
}

/// The decoded value of a pair `key=value` with this key.
pub open spec fn pair_value(pair: Seq<char>, key: Seq<char>) -> Option<Seq<char>> {
    match cut_at(pair, '=') {
        Some((k, v)) => if k == key {
            Some(unescaped(v))
        } else {
            None
        },
        None => None,
    }
}

/// The value of a key among pairs; of several, the last one's.
pub open spec fn last_value(pairs: Seq<Seq<char>>, key: Seq<char>) -> Option<Seq<char>>
    decreases pairs.len(),
{
    if pairs.len() == 0 {
        None
    } else {
        match pair_value(pairs.last(), key) {
            Some(v) => Some(v),
            None => last_value(pairs.drop_last(), key),
        }
    }
}

/// The value of a key in a query string.
pub open spec fn query_value(query: Seq<char>, key: Seq<char>) -> Option<Seq<char>> {
    last_value(pieces(query, '&'), key)
}

/// The value of a key in a query string, decoded; of several, the last one's.
pub fn query_param(query: &str, key: &str) -> (r: Option<String>)
    ensures
        opt_view(r) == query_value(query@, key@),
{
    let pairs = split_char(query, '&');
    let ghost all = strings_view(pairs@);
    let mut found: Option<String> = None;
    let mut i: usize = 0;
    assert(all.take(0) =~= Seq::empty());
    while i < pairs.len()
        invariant
            i <= pairs@.len(),
            all == strings_view(pairs@),
            all.len() == pairs@.len(),
            opt_view(found) == last_value(all.take(i as int), key@),
        decreases pairs@.len() - i,
    {
        assert(all[i as int] == pairs@[i as int]@);
        assert(all.take(i + 1).drop_last() =~= all.take(i as int));
        assert(all.take(i + 1).last() == pairs@[i as int]@);
        if let Some((k, v)) = split_once(pairs[i].as_str(), '=') {
            if same(k.as_str(), key) {
                found = Some(percent_decode(v.as_str()));
            }
        }
        i = i + 1;
    }
    assert(all.take(all.len() as int) =~= all);
    found
}

// --- Record keys and images -------------------------------------------------------

/// The record key of an AT-URI: its last segment.
pub fn rkey_from_uri(uri: &str) -> (r: String)
    ensures
        r@ == after_last(uri@, '/'),
{
    last_segment(uri, '/')
}

/// The repository and content identifier that a `getBlob` address asks for.
pub open spec fn blob_asked(url: Seq<char>) -> Option<(Seq<char>, Seq<char>)> {
    if !has_sub(url, "getBlob"@) {
        None
    } else {
        match cut_at(url, '?') {
            Some((_, query)) => match (query_value(query, "did"@), query_value(query, "cid"@)) {
                (Some(did), Some(cid)) => Some((did, cid)),
                _ => None,
            },
            None => None,
        }
    }
}

/// The repository and content identifier that a `getBlob` address asks for.
pub fn getblob_did_cid(url: &str) -> (r: Option<(String, String)>)
    ensures
        blob_asked(url@) == (match r {
            Some(p) => Some((p.0@, p.1@)),
            None => None,
        }),
{
    if !contains(url, "getBlob") {
        return None;
    }
    match split_once(url, '?') {
        Some((_, query)) => {
            let did = query_param(query.as_str(), "did");
            let cid = query_param(query.as_str(), "cid");
            match (did, cid) {
                (Some(d), Some(c)) => Some((d, c)),
                _ => None,
            }
        },
        None => None,
    }
}

/// The address that serves a blob as a JPEG.
pub open spec fn transcoded_url(did: Seq<char>, cid: Seq<char>) -> Seq<char> {
    "https://cdn.bsky.app/img/feed_fullsize/plain/"@ + did + "/"@ + cid + "@jpeg"@
}

/// The address that serves an image as a JPEG, if its blob can be named.
pub open spec fn cdn_url(source: SpecImageSource) -> Option<Seq<char>> {
    match source {
        SpecImageSource::Blob { did, cid } => Some(transcoded_url(did, cid)),
        SpecImageSource::Url(url) => match blob_asked(url) {
            Some((did, cid)) => Some(transcoded_url(did, cid)),
            None => None,
        },
    }
}

fn transcode_url(did: &str, cid: &str) -> (r: String)
    ensures
        r@ == transcoded_url(did@, cid@),
{
    let mut out = owned("https://cdn.bsky.app/img/feed_fullsize/plain/");
    out.push_str(did);
    out.push_str("/");
    out.push_str(cid);
    out.push_str("@jpeg");
    out
}

/// The address that serves an image as a JPEG: for bytes that do not decode. An address
/// that is not a blob's has none.
pub fn cdn_image_url(source: &ImageSource) -> (r: Option<String>)
    ensures
        opt_view(r) == cdn_url(source@),
{
    match source {
        ImageSource::Blob { did, cid } => Some(transcode_url(did.as_str(), cid.as_str())),
        ImageSource::Url(url) => match getblob_did_cid(url.as_str()) {
            Some((did, cid)) => Some(transcode_url(did.as_str(), cid.as_str())),
            None => None,
        },
    }
}

// --- What a reader types ----------------------------------------------------------

/// A text without the `c`s that it begins with.
pub open spec fn without_leading(s: Seq<char>, c: char) -> Seq<char> {
    s.subrange(skip_char(s, c, 0), s.len() as int)
}

/// A text without the `c`s that it begins with.
pub fn trim_start_char(s: &str, c: char) -> (r: String)
    ensures
        r@ == without_leading(s@, c),
{
    let v = chars_of(s);
    let mut i: usize = 0;
    while i < v.len() && v[i] == c
        invariant
            i <= v@.len(),
            skip_char(v@, c, 0) == skip_char(v@, c, i as int),
        decreases v@.len() - i,
    {
        i = i + 1;
    }
    slice_of(&v, i, v.len())
}

/// What stands before the first `c`, or all of it.
pub open spec fn up_to(s: Seq<char>, c: char) -> Seq<char> {
    match find_from(s, 0, c) {
        Some(i) => s.subrange(0, i),
        None => s,
    }
}

fn before_char(s: &str, c: char) -> (r: String)
    ensures
        r@ == up_to(s@, c),
{
    let v = chars_of(s);
    match find_char(&v, 0, c) {
        Some(i) => slice_of(&v, 0, i),
        None => owned(s),
    }
}

/// An address without its scheme.
pub open spec fn schemeless(s: Seq<char>) -> Seq<char> {
    match after_prefix(s, "https://"@) {
        Some(rest) => rest,
        None => match after_prefix(s, "http://"@) {
            Some(rest) => rest,
            None => s,
        },
    }
}

/// What a typed blog stands for: a DID as it is, else the host without an at sign.
pub open spec fn normalized(input: Seq<char>) -> Seq<char> {
    let s = trimmed(input);
    if begins_with(s, "did:"@) {
        s
    } else {
        without_leading(up_to(schemeless(s), '/'), '@')
    }
}

/// Bring what a reader typed to a handle or DID: a DID passes, an address is cut to its
/// host, a leading at sign goes.
pub fn normalize(input: &str) -> (r: String)
    ensures
        r@ == normalized(input@),
{
    let s = trim(input);
    if starts_with(s.as_str(), "did:") {
        return s;
    }
    let rest = match strip_prefix(s.as_str(), "https://") {
        Some(rest) => rest,
        None => match strip_prefix(s.as_str(), "http://") {
            Some(rest) => rest,
            None => s,
        },
    };
    let host = before_char(rest.as_str(), '/');
    trim_start_char(host.as_str(), '@')
}

/// The page on which a publication may be announced: the typed address, or the host's
/// root.
pub open spec fn page_url(input: Seq<char>, host: Seq<char>) -> Seq<char> {
    if begins_with(trimmed(input), "http"@) {
        trimmed(input)
    } else {
        "https://"@ + host + "/"@
    }
}

/// The page on which a publication may be announced.
pub fn page_address(input: &str, host: &str) -> (r: String)
    ensures
        r@ == page_url(input@, host@),
{
    let t = trim(input);
    if starts_with(t.as_str(), "http") {
        t
    } else {
        let mut out = join2("https://", host);
        out.push_str("/");
        out
    }
}

} // verus!
