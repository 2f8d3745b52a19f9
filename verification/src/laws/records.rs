//! Records: what a record says is what is read from it.
use vstd::prelude::*;

use crate::json::{member_from, SpecJson};
use crate::model::{SpecDocument, SpecImage, SpecImageSource, SpecPublication, SpecSubscription};
use crate::read::{document_of, owner_of, publication_of, strings_among, subscription_of};
use crate::text::{lemma_find_from, matches_at};

verus! {

// --- Writing records --------------------------------------------------------------

/// The members of an object.
pub type Members = Seq<(Seq<char>, SpecJson)>;

/// A text as a member.
pub open spec fn put(m: Members, key: Seq<char>, text: Seq<char>) -> Members {
    m.push((key, SpecJson::Str(text)))
}

/// A text as a member, where there is one.
pub open spec fn put_opt(m: Members, key: Seq<char>, text: Option<Seq<char>>) -> Members {
    match text {
        Some(t) => put(m, key, t),
        None => m,
    }
}

/// A blob as a record names it.
pub open spec fn blob_record(cid: Seq<char>) -> SpecJson {
    SpecJson::Object(
        seq![
            (
                "ref"@,
                SpecJson::Object(seq![("$link"@, SpecJson::Str(cid))]),
            ),
        ],
    )
}

/// A blob as a member, where there is one.
pub open spec fn put_blob(m: Members, key: Seq<char>, blob: Option<Seq<char>>) -> Members {
    match blob {
        Some(cid) => m.push((key, blob_record(cid))),
        None => m,
    }
}

/// Texts as an array.
pub open spec fn texts(s: Seq<Seq<char>>) -> Seq<SpecJson> {
    s.map_values(|t: Seq<char>| SpecJson::Str(t))
}

/// The image that a blob of a repository is.
pub open spec fn blob_of(did: Seq<char>, blob: Option<Seq<char>>) -> Option<SpecImage> {
    match blob {
        Some(cid) => Some(SpecImage { alt: Seq::empty(), source: SpecImageSource::Blob { did, cid } }),
        None => None,
    }
}

/// The URI of a record in a repository.
pub open spec fn uri_in(did: Seq<char>, rest: Seq<char>) -> Seq<char> {
    "at://"@ + did + "/"@ + rest
}

/// A document as its record has it; `cover` is the blob of its cover image.
pub open spec fn document_record(d: SpecDocument, cover: Option<Seq<char>>) -> SpecJson {
    let m = put(Seq::empty(), "site"@, d.publication);
    let m = put(m, "title"@, d.title);
    let m = put_opt(m, "description"@, d.description);
    let m = put(m, "publishedAt"@, d.published_at);
    let m = put_opt(m, "updatedAt"@, d.updated_at);
    let m = put_blob(m, "coverImage"@, cover);
    let m = put_opt(m, "textContent"@, d.text_content);
    let m = m.push(("tags"@, SpecJson::Array(texts(d.tags))));
    let m = put_opt(m, "path"@, d.path);
    SpecJson::Object(m)
}

/// A publication as its record has it; `icon` is the blob of its icon.
pub open spec fn publication_record(p: SpecPublication, icon: Option<Seq<char>>) -> SpecJson {
    let m = put(Seq::empty(), "url"@, p.url);
    let m = put(m, "name"@, p.name);
    let m = put_opt(m, "description"@, p.description);
    let m = put_blob(m, "icon"@, icon);
    SpecJson::Object(m)
}

// --- Reading them back ------------------------------------------------------------

pub broadcast proof fn lemma_member_push(
    m: Members,
    x: (Seq<char>, SpecJson),
    key: Seq<char>,
    i: int,
)
    requires
        0 <= i <= m.len(),
    ensures
        #[trigger] member_from(m.push(x), key, i) == (if member_from(m, key, i) is Some {
            member_from(m, key, i)
        } else if x.0 == key {
            Some(x.1)
        } else {
            None
        }),
    decreases m.len() - i,
{
    if i < m.len() {
        lemma_member_push(m, x, key, i + 1);
        assert(m.push(x)[i] == m[i]);
    } else {
        assert(member_from(m.push(x), key, i + 1) is None);
    }
}

pub proof fn lemma_blob_reads_back(cid: Seq<char>, did: Seq<char>)
    ensures
        crate::decode::image::blob_image_of(blob_record(cid), did, ""@) == blob_of(did, Some(cid)),
{
    reveal_strlit("");
    assert(""@ =~= Seq::<char>::empty());
    let link = seq![("$link"@, SpecJson::Str(cid))];
    assert(link[0].0 == "$link"@);
    assert(member_from(link, "$link"@, 0) == Some(SpecJson::Str(cid)));
    let outer = seq![("ref"@, SpecJson::Object(link))];
    assert(outer[0].0 == "ref"@);
    assert(member_from(outer, "ref"@, 0) == Some(SpecJson::Object(link)));
}

proof fn lemma_texts_read_back(s: Seq<Seq<char>>, n: int)
    requires
        0 <= n <= s.len(),
    ensures
        strings_among(texts(s), n) == s.take(n),
    decreases n,
{
    if n > 0 {
        lemma_texts_read_back(s, n - 1);
        assert(s.take(n) =~= s.take(n - 1).push(s[n - 1]));
    } else {
        assert(s.take(0) =~= Seq::empty());
    }
}

/// The repository of a record is the first part of its URI.
pub proof fn law_a_uri_names_its_repository(did: Seq<char>, rest: Seq<char>)
    requires
        !did.contains('/'),
    ensures
        owner_of(uri_in(did, rest)) == Some(did),
{
    reveal_strlit("at://");
    reveal_strlit("/");
    let uri = uri_in(did, rest);
    assert(matches_at(uri, "at://"@, 0)) by {
        assert(uri.subrange(0, 5) =~= "at://"@);
    }
    let tail = uri.subrange(5, uri.len() as int);
    assert(tail =~= did + "/"@ + rest);
    lemma_find_from(tail, 0, '/');
    assert(tail[did.len() as int] == '/');
    assert forall|j: int| 0 <= j < did.len() implies tail[j] != '/' by {
        assert(tail[j] == did[j]);
        assert(did.contains(did[j]));
    }
    assert(tail.subrange(0, did.len() as int) =~= did);
}

proof fn lemma_document_members()
    ensures
        "site"@.len() == 4 && "tags"@.len() == 4 && "path"@.len() == 4,
        "site"@[0] == 's' && "tags"@[0] == 't' && "path"@[0] == 'p',
        "title"@.len() == 5,
        "updatedAt"@.len() == 9,
        "coverImage"@.len() == 10,
        "description"@.len() == 11 && "publishedAt"@.len() == 11 && "textContent"@.len() == 11,
        "description"@[0] == 'd' && "publishedAt"@[0] == 'p' && "textContent"@[0] == 't',
        "url"@.len() == 3,
        "name"@.len() == 4 && "icon"@.len() == 4,
        "name"@[0] == 'n' && "icon"@[0] == 'i',
{
    reveal_strlit("site");
    reveal_strlit("tags");
    reveal_strlit("path");
    reveal_strlit("title");
    reveal_strlit("updatedAt");
    reveal_strlit("coverImage");
    reveal_strlit("description");
    reveal_strlit("publishedAt");
    reveal_strlit("textContent");
    reveal_strlit("url");
    reveal_strlit("name");
    reveal_strlit("icon");
}

/// A document is read as its record has it, member by member: nothing is lost, nothing is
/// made up, and no member is taken for another.
pub proof fn law_a_document_reads_back(
    d: SpecDocument,
    did: Seq<char>,
    rest: Seq<char>,
    cover: Option<Seq<char>>,
)
    requires
        !did.contains('/'),
        d.uri == uri_in(did, rest),
        d.publishing_platform is None,
        d.cover_image == blob_of(did, cover),
    ensures
        document_of(document_record(d, cover), d.uri) == Some(d),
{
    broadcast use lemma_member_push;

    lemma_document_members();
    law_a_uri_names_its_repository(did, rest);
    lemma_texts_read_back(d.tags, d.tags.len() as int);
    assert(d.tags.take(d.tags.len() as int) =~= d.tags);
    if cover is Some {
        lemma_blob_reads_back(cover->0, did);
    }
    let v = document_record(d, cover);
    assert(v.get("site"@) == Some(SpecJson::Str(d.publication)));
    assert(v.get("title"@) == Some(SpecJson::Str(d.title)));
    assert(v.get_str("description"@) == d.description);
    assert(v.get("publishedAt"@) == Some(SpecJson::Str(d.published_at)));
    assert(v.get_str("updatedAt"@) == d.updated_at);
    assert(v.get_str("textContent"@) == d.text_content);
    assert(v.get_array("tags"@) == Some(texts(d.tags)));
    assert(v.get_str("path"@) == d.path);
    assert(v.get("coverImage"@) == (match cover {
        Some(cid) => Some(blob_record(cid)),
        None => None,
    }));
}

/// A record that names no publication is no document.
pub proof fn law_a_document_belongs_somewhere(value: SpecJson, uri: Seq<char>)
    ensures
        document_of(value, uri) matches Some(d) ==> value.get("site"@) == Some(
            SpecJson::Str(d.publication),
        ) && d.uri == uri,
{
}

/// A publication is read as its record has it, member by member.
pub proof fn law_a_publication_reads_back(
    p: SpecPublication,
    did: Seq<char>,
    rest: Seq<char>,
    icon: Option<Seq<char>>,
)
    requires
        !did.contains('/'),
        p.uri == uri_in(did, rest),
        p.icon == blob_of(did, icon),
    ensures
        publication_of(publication_record(p, icon), p.uri) == Some(p),
{
    broadcast use lemma_member_push;

    lemma_document_members();
    law_a_uri_names_its_repository(did, rest);
    if icon is Some {
        lemma_blob_reads_back(icon->0, did);
    }
    let v = publication_record(p, icon);
    assert(v.get("url"@) == Some(SpecJson::Str(p.url)));
    assert(v.get("name"@) == Some(SpecJson::Str(p.name)));
    assert(v.get_str("description"@) == p.description);
    assert(v.get("icon"@) == (match icon {
        Some(cid) => Some(blob_record(cid)),
        None => None,
    }));
}

/// A subscription is read as its record has it: it names the publication, and its URI is
/// the record's.
pub proof fn law_a_subscription_reads_back(s: SpecSubscription)
    ensures
        subscription_of(SpecJson::Object(put(Seq::empty(), "publication"@, s.publication)), s.uri)
            == Some(s),
{
    broadcast use lemma_member_push;

    let m = put(Seq::empty(), "publication"@, s.publication);
    assert(member_from(m, "publication"@, 0) == Some(SpecJson::Str(s.publication)));
}

} // verus!
