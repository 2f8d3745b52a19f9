//! Accounts and addresses: what is typed, what comes back, and what signing in and out does.
use vstd::prelude::*;

use crate::auth::{callback_of, nth_word, shown_handle, target_query, CallbackError, SpecParams};
use crate::atp::xrpc::get_blob_url;
use crate::auth_provider::{AuthProvider, SpecLogin};
use crate::atp::Transport;
use crate::laws::repositories::{lemma_joined_three, lemma_labelled, queryable};
use crate::laws::words::{is_space, law_pieces_read_back, law_trimming};
use crate::store::{FrontendStore, StoreState};
use crate::text::{
    begins_with, find_from, find_sub_from, joined, lemma_find_from, matches_at, pieces, skip_char,
    skip_space, unicode_whitespace, word_end,
};
use crate::url::{
    blob_asked, cut_at, last_value, normalized, pair_value, query_value, schemeless, unescaped,
    up_to, without_leading,
};
use crate::worker::commands::{
    created_count, local_subscribed, record_failures, with_records, RecordReply,
};
use crate::worker::tasks::{WorkError, Worker};
use crate::worker::{SpecCommand, SpecEvent};
use crate::account::SpecAccount;

verus! {

// --- What a reader types ----------------------------------------------------------

/// Nothing but `@`.
pub open spec fn ats(n: nat) -> Seq<char> {
    Seq::new(n, |i: int| '@')
}

proof fn lemma_skip_ats(s: Seq<char>, i: int, n: int)
    requires
        0 <= i <= n <= s.len(),
        forall|k: int| i <= k < n ==> #[trigger] s[k] == '@',
        n < s.len() ==> s[n] != '@',
    ensures
        skip_char(s, '@', i) == n,
    decreases n - i,
{
    if i < n {
        assert(s[i] == '@');
        lemma_skip_ats(s, i + 1, n);
    }
}

/// Leading `@`s go, and only those.
pub proof fn law_leading_ats_go(n: nat, host: Seq<char>)
    requires
        host.len() > 0 ==> host[0] != '@',
    ensures
        without_leading(ats(n) + host, '@') == host,
{
    let s = ats(n) + host;
    if host.len() > 0 {
        assert(s[n as int] == host[0]);
    }
    lemma_skip_ats(s, 0, n as int);
    assert(s.subrange(n as int, s.len() as int) =~= host);
}

/// A host is what a blog is found by, with or without a scheme, an `@`, a path or spaces
/// around it.
pub proof fn law_a_blog_is_its_host(
    before: Seq<char>,
    scheme: Seq<char>,
    n: nat,
    host: Seq<char>,
    path: Seq<char>,
    after: Seq<char>,
)
    requires
        is_space(before),
        is_space(after),
        scheme == Seq::<char>::empty() || scheme == "https://"@ || scheme == "http://"@,
        host.len() > 0,
        host[0] != '@',
        !host.contains('/'),
        !host.contains(':'),
        !unicode_whitespace(host[0]),
        !unicode_whitespace(host.last()),
        path.len() > 0 ==> path[0] == '/' && !unicode_whitespace(path.last()),
    ensures
        normalized(before + (scheme + ats(n) + host + path) + after) == host,
{
    reveal_strlit("https://");
    reveal_strlit("http://");
    reveal_strlit("did:");
    let name = ats(n) + host;
    let rest = name + path;
    let s = scheme + ats(n) + host + path;
    assert(s =~= scheme + rest);
    assert(s[0] == (if scheme.len() > 0 {
        'h'
    } else if n > 0 {
        '@'
    } else {
        host[0]
    }));
    assert(s.last() == (if path.len() > 0 {
        path.last()
    } else {
        host.last()
    }));
    law_trimming(before, s, after);
    assert forall|i: int| 0 <= i < name.len() implies name[i] != '/' && name[i] != ':' by {
        if i < n {
            assert(name[i] == '@');
        } else {
            assert(name[i] == host[i - n]);
            assert(host.contains(host[i - n]));
        }
    }
    if begins_with(s, "did:"@) {
        assert(s.subrange(0, 4)[3] == ':');
        assert(s[3] == ':');
        assert(s.subrange(0, 4)[0] == 'd');
        assert(scheme.len() == 0);
        assert(name.len() <= 3);
        assert(s[name.len() as int] == '/');
        assert(s.subrange(0, 4)[name.len() as int] == "did:"@[name.len() as int]);
    }
    if scheme == "https://"@ {
        assert(s.subrange(0, 8) =~= "https://"@);
        assert(s.subrange(8, s.len() as int) =~= rest);
    } else if scheme == "http://"@ {
        assert(s.subrange(0, 7) =~= "http://"@);
        if begins_with(s, "https://"@) {
            assert(s.subrange(0, 8)[4] == 's');
        }
        assert(s.subrange(7, s.len() as int) =~= rest);
    } else {
        assert(s =~= rest);
        if begins_with(s, "https://"@) {
            assert(s.subrange(0, 8)[5] == ':');
            assert(name.len() <= 5);
            assert(s[name.len() as int] == '/');
            assert(s.subrange(0, 8)[name.len() as int] == "https://"@[name.len() as int]);
        }
        if begins_with(s, "http://"@) {
            assert(s.subrange(0, 7)[4] == ':');
            assert(name.len() <= 4);
            assert(s[name.len() as int] == '/');
            assert(s.subrange(0, 7)[name.len() as int] == "http://"@[name.len() as int]);
        }
    }
    assert(schemeless(s) =~= rest);
    lemma_find_from(rest, 0, '/');
    if path.len() > 0 {
        assert(rest[name.len() as int] == '/');
        assert forall|i: int| 0 <= i < name.len() implies rest[i] != '/' by {
            assert(rest[i] == name[i]);
        }
        assert(find_from(rest, 0, '/') == Some(name.len() as int));
        assert(rest.subrange(0, name.len() as int) =~= name);
    } else {
        assert(rest =~= name);
    }
    assert(up_to(rest, '/') == name);
    law_leading_ats_go(n, host);
}

/// A DID is taken as it is.
pub proof fn law_a_did_is_taken_as_it_is(before: Seq<char>, did: Seq<char>, after: Seq<char>)
    requires
        is_space(before),
        is_space(after),
        begins_with(did, "did:"@),
        !unicode_whitespace(did.last()),
    ensures
        normalized(before + did + after) == did,
{
    reveal_strlit("did:");
    assert(did.subrange(0, 4)[0] == 'd');
    assert(did[0] == 'd');
    law_trimming(before, did, after);
}

/// An account that signed in by its handle is shown by it, without the `@`.
pub proof fn law_a_handle_is_shown(n: nat, handle: Seq<char>, did: Seq<char>)
    requires
        handle.len() > 0,
        handle[0] != '@',
        !unicode_whitespace(handle[0]),
        !unicode_whitespace(handle.last()),
        !begins_with(ats(n) + handle, "did:"@),
    ensures
        shown_handle(ats(n) + handle, did) == handle,
{
    let none = Seq::<char>::empty();
    let s = ats(n) + handle;
    assert(s[0] == (if n > 0 {
        '@'
    } else {
        handle[0]
    }));
    assert(s.last() == handle.last());
    law_trimming(none, s, none);
    assert(none + s + none =~= s);
    law_leading_ats_go(n, handle);
}

// --- Queries ----------------------------------------------------------------------

proof fn lemma_pair(key: Seq<char>, value: Seq<char>, asked: Seq<char>)
    requires
        !key.contains('='),
    ensures
        pair_value(key + seq!['='] + value, asked) == (if key == asked {
            Some(unescaped(value))
        } else {
            None
        }),
{
    let pair = key + seq!['='] + value;
    let n = key.len() as int;
    lemma_find_from(pair, 0, '=');
    assert(pair[n] == '=');
    assert forall|i: int| 0 <= i < n implies pair[i] != '=' by {
        assert(pair[i] == key[i]);
        assert(key.contains(key[i]));
    }
    assert(find_from(pair, 0, '=') == Some(n));
    assert(pair.subrange(0, n) =~= key);
    assert(pair.subrange(n + 1, pair.len() as int) =~= value);
}

/// Pairs of keys and values as a query has them.
pub open spec fn pair_texts(pairs: Seq<(Seq<char>, Seq<char>)>) -> Seq<Seq<char>> {
    pairs.map_values(|p: (Seq<char>, Seq<char>)| p.0 + seq!['='] + p.1)
}

/// A query.
pub open spec fn query_of(pairs: Seq<(Seq<char>, Seq<char>)>) -> Seq<char> {
    joined(pair_texts(pairs), seq!['&'])
}

/// Keys and values can stand in a query.
pub open spec fn are_pairs(pairs: Seq<(Seq<char>, Seq<char>)>) -> bool {
    forall|i: int|
        0 <= i < pairs.len() ==> !(#[trigger] pairs[i]).0.contains('=') && queryable(pairs[i].0)
            && queryable(pairs[i].1)
}

proof fn lemma_last_value(pairs: Seq<(Seq<char>, Seq<char>)>, k: int, n: int)
    requires
        0 <= k < n <= pairs.len(),
        are_pairs(pairs),
        forall|j: int| k < j < n ==> (#[trigger] pairs[j]).0 != pairs[k].0,
    ensures
        last_value(pair_texts(pairs).take(n), pairs[k].0) == Some(unescaped(pairs[k].1)),
    decreases n,
{
    let texts = pair_texts(pairs).take(n);
    assert(texts.last() == pairs[n - 1].0 + seq!['='] + pairs[n - 1].1);
    lemma_pair(pairs[n - 1].0, pairs[n - 1].1, pairs[k].0);
    if k < n - 1 {
        assert(texts.drop_last() =~= pair_texts(pairs).take(n - 1));
        lemma_last_value(pairs, k, n - 1);
    }
}

proof fn lemma_no_value(pairs: Seq<(Seq<char>, Seq<char>)>, key: Seq<char>, n: int)
    requires
        0 <= n <= pairs.len(),
        are_pairs(pairs),
        forall|j: int| 0 <= j < n ==> (#[trigger] pairs[j]).0 != key,
    ensures
        last_value(pair_texts(pairs).take(n), key) is None,
    decreases n,
{
    if n > 0 {
        let texts = pair_texts(pairs).take(n);
        assert(texts.last() == pairs[n - 1].0 + seq!['='] + pairs[n - 1].1);
        lemma_pair(pairs[n - 1].0, pairs[n - 1].1, key);
        assert(texts.drop_last() =~= pair_texts(pairs).take(n - 1));
        lemma_no_value(pairs, key, n - 1);
    }
}

proof fn lemma_query_pieces(pairs: Seq<(Seq<char>, Seq<char>)>)
    requires
        pairs.len() > 0,
        are_pairs(pairs),
    ensures
        pieces(query_of(pairs), '&') == pair_texts(pairs),
{
    let texts = pair_texts(pairs);
    assert forall|i: int| 0 <= i < texts.len() implies !(#[trigger] texts[i]).contains('&') by {
        let p = pairs[i];
        lemma_labelled(seq!['='], p.1);
        lemma_labelled(p.0, seq!['='] + p.1);
        assert(texts[i] =~= p.0 + (seq!['='] + p.1));
    }
    law_pieces_read_back(texts, '&');
}

/// A query gives back the value that was put in under a key, the last one of several.
pub proof fn law_queries_read_back(pairs: Seq<(Seq<char>, Seq<char>)>, k: int)
    requires
        0 <= k < pairs.len(),
        are_pairs(pairs),
        forall|j: int| k < j < pairs.len() ==> (#[trigger] pairs[j]).0 != pairs[k].0,
    ensures
        query_value(query_of(pairs), pairs[k].0) == Some(unescaped(pairs[k].1)),
{
    lemma_query_pieces(pairs);
    lemma_last_value(pairs, k, pairs.len() as int);
    assert(pair_texts(pairs).take(pairs.len() as int) =~= pair_texts(pairs));
}

/// A query gives nothing for a key that is not in it.
pub proof fn law_absent_keys_have_no_value(pairs: Seq<(Seq<char>, Seq<char>)>, key: Seq<char>)
    requires
        pairs.len() > 0,
        are_pairs(pairs),
        forall|j: int| 0 <= j < pairs.len() ==> (#[trigger] pairs[j]).0 != key,
    ensures
        query_value(query_of(pairs), key) is None,
{
    lemma_query_pieces(pairs);
    lemma_no_value(pairs, key, pairs.len() as int);
    assert(pair_texts(pairs).take(pairs.len() as int) =~= pair_texts(pairs));
}

pub proof fn lemma_cut(a: Seq<char>, c: char, b: Seq<char>)
    requires
        !a.contains(c),
    ensures
        cut_at(a + seq![c] + b, c) == Some((a, b)),
{
    let s = a + seq![c] + b;
    let n = a.len() as int;
    lemma_find_from(s, 0, c);
    assert(s[n] == c);
    assert forall|i: int| 0 <= i < n implies s[i] != c by {
        assert(s[i] == a[i]);
        assert(a.contains(a[i]));
    }
    assert(find_from(s, 0, c) == Some(n));
    assert(s.subrange(0, n) =~= a);
    assert(s.subrange(n + 1, s.len() as int) =~= b);
}

proof fn lemma_word(s: Seq<char>, i: int, n: int)
    requires
        0 <= i <= n <= s.len(),
        forall|k: int| i <= k < n ==> !unicode_whitespace(#[trigger] s[k]),
        n < s.len() ==> unicode_whitespace(s[n]),
    ensures
        word_end(s, i) == n,
    decreases n - i,
{
    if i < n {
        assert(!unicode_whitespace(s[i]));
        lemma_word(s, i + 1, n);
    }
}

/// Text without whitespace.
pub open spec fn unspaced(s: Seq<char>) -> bool {
    forall|i: int| 0 <= i < s.len() ==> !unicode_whitespace(#[trigger] s[i])
}

/// What a browser sends to the callback's address: a method, a path with a query, and more.
pub open spec fn request(
    method: Seq<char>,
    path: Seq<char>,
    query: Seq<char>,
    more: Seq<char>,
) -> Seq<char> {
    method + seq![' '] + (path + seq!['?'] + query) + seq![' '] + more
}

/// A callback gives the code, the state and the issuer that its query names; without a code
/// it is of no use.
pub proof fn law_a_callback_is_read(
    method: Seq<char>,
    path: Seq<char>,
    query: Seq<char>,
    more: Seq<char>,
)
    requires
        method.len() > 0,
        unspaced(method),
        unspaced(path),
        unspaced(query),
        !path.contains('?'),
    ensures
        callback_of(request(method, path, query, more)) == (match query_value(query, "code"@) {
            Some(code) => Ok::<SpecParams, CallbackError>(
                SpecParams {
                    code,
                    state: query_value(query, "state"@),
                    iss: query_value(query, "iss"@),
                },
            ),
            None => Err(CallbackError::MissingCode),
        }),
{
    let target = path + seq!['?'] + query;
    let raw = request(method, path, query, more);
    let a = method.len() as int;
    let b = a + 1 + target.len();
    assert(raw[0] == method[0]);
    assert forall|k: int| 0 <= k < a implies !unicode_whitespace(#[trigger] raw[k]) by {
        assert(raw[k] == method[k]);
    }
    assert(raw[a] == ' ');
    lemma_word(raw, 0, a);
    assert(!unicode_whitespace(raw[0]));
    assert(skip_space(raw, 0) == 0);
    assert forall|k: int| a + 1 <= k < b implies !unicode_whitespace(#[trigger] raw[k]) by {
        assert(raw[k] == target[k - a - 1]);
        let j = k - a - 1;
        if j < path.len() {
            assert(target[j] == path[j]);
        } else if j > path.len() {
            assert(target[j] == query[j - path.len() - 1]);
        }
    }
    assert(raw[b] == ' ');
    assert(!unicode_whitespace(raw[a + 1]));
    assert(skip_space(raw, a + 1) == a + 1);
    assert(skip_space(raw, a) == a + 1);
    lemma_word(raw, a + 1, b);
    assert(raw.subrange(a + 1, b) =~= target);
    assert(nth_word(raw, a, 0) == Some(target));
    assert(nth_word(raw, 0, 1) == Some(target));
    lemma_cut(path, '?', query);
    assert(target_query(target) == query);
}

proof fn lemma_sub(s: Seq<char>, pat: Seq<char>, from: int, i: int)
    requires
        0 <= from <= i,
        matches_at(s, pat, i),
    ensures
        find_sub_from(s, pat, from) is Some,
    decreases i - from,
{
    if from < i && !matches_at(s, pat, from) {
        lemma_sub(s, pat, from + 1, i);
    }
}

/// An address that asks for a blob names that blob: what is asked for is what is found in
/// the address.
pub proof fn law_a_blob_address_names_its_blob(pds: Seq<char>, did: Seq<char>, cid: Seq<char>)
    requires
        !pds.contains('?'),
        queryable(did),
        queryable(cid),
    ensures
        blob_asked(get_blob_url(pds, did, cid)) == Some((unescaped(did), unescaped(cid))),
{
    reveal_strlit("/xrpc/com.atproto.sync.getBlob?did=");
    reveal_strlit("did");
    reveal_strlit("cid");
    reveal_strlit("&cid=");
    reveal_strlit("getBlob");
    let url = get_blob_url(pds, did, cid);
    let pairs = seq![("did"@, did), ("cid"@, cid)];
    let query = query_of(pairs);
    let texts = pair_texts(pairs);
    assert(texts =~= seq!["did"@ + seq!['='] + did, "cid"@ + seq!['='] + cid]);
    lemma_joined_three(texts[0], texts[1], texts[1]);
    reveal_strlit("/xrpc/com.atproto.sync.getBlob");
    let host = pds + "/xrpc/com.atproto.sync.getBlob"@;
    assert(url =~= host + seq!['?'] + query);
    assert forall|i: int| 0 <= i < host.len() implies host[i] != '?' by {
        if i < pds.len() {
            assert(host[i] == pds[i]);
            assert(pds.contains(pds[i]));
        }
    }
    lemma_cut(host, '?', query);
    let at: int = pds.len() as int + 23;
    assert(url.subrange(at, at + 7) =~= "getBlob"@);
    lemma_sub(url, "getBlob"@, 0, at);
    assert(are_pairs(pairs)) by {
        assert forall|i: int| 0 <= i < pairs.len() implies !(#[trigger] pairs[i]).0.contains('=')
            && queryable(pairs[i].0) && queryable(pairs[i].1) by {}
    }
    assert("did"@[0] == 'd' && "cid"@[0] == 'c');
    law_queries_read_back(pairs, 0);
    law_queries_read_back(pairs, 1);
}

// --- Commands ---------------------------------------------------------------------

/// Marking a post changes that post's mark and nothing else.
pub proof fn law_a_mark_is_kept<T: Transport, S: FrontendStore, A: AuthProvider>(
    before: Worker<T, S, A>,
    after: Worker<T, S, A>,
    uri: Seq<char>,
    read: bool,
    other: Seq<char>,
)
    requires
        before.carried_out(
            &after,
            SpecCommand::SetRead(uri, read),
            Ok::<(), WorkError<S::Error>>(()),
        ),
    ensures
        before.state().documents.dom().contains(uri) ==> after.state().documents[uri].read == read
            && after.state().documents[uri].meta == before.state().documents[uri].meta
            && after.state().documents[uri].body == before.state().documents[uri].body,
        other != uri ==> after.state().documents[other] == before.state().documents[other],
        after.state().documents.dom() == before.state().documents.dom(),
        after.state().publications == before.state().publications,
        after.state().follows == before.state().follows,
        after.state().show_images == before.state().show_images,
{
    assert(after.state().documents.dom() =~= before.state().documents.dom());
}

/// Turning images on or off is remembered, and nothing else changes.
pub proof fn law_the_image_setting_is_kept<T: Transport, S: FrontendStore, A: AuthProvider>(
    before: Worker<T, S, A>,
    after: Worker<T, S, A>,
    on: bool,
)
    requires
        before.carried_out(
            &after,
            SpecCommand::SetShowImages(on),
            Ok::<(), WorkError<S::Error>>(()),
        ),
    ensures
        after.state().show_images == on,
        after.state().documents == before.state().documents,
        after.state().follows == before.state().follows,
        after.state().publications == before.state().publications,
{
}

/// After signing out nobody is signed in, the screen is told so, and everything followed and
/// held is still there.
pub proof fn law_signing_out<T: Transport, S: FrontendStore, A: AuthProvider>(
    before: Worker<T, S, A>,
    after: Worker<T, S, A>,
)
    requires
        before.carried_out(&after, SpecCommand::Logout, Ok::<(), WorkError<S::Error>>(())),
    ensures
        after.who() is None,
        after.state() == before.state(),
        after.said().contains(SpecEvent::Account(None)),
{
    let n = before.said().len() as int;
    assert(after.said()[n] == SpecEvent::Account(None));
}

/// Signing in: the account is taken over and shown, or the reader is told why not, or sent
/// on to the address that the server named.
pub proof fn law_signing_in<T: Transport, S: FrontendStore, A: AuthProvider>(
    before: Worker<T, S, A>,
    after: Worker<T, S, A>,
    reply: Result<SpecLogin, Seq<char>>,
    r: Result<Option<String>, WorkError<S::Error>>,
)
    requires
        before.login_answered(&after, reply, r),
    ensures
        reply matches Ok(SpecLogin::Authenticated(a)) ==> after.who() == Some(a)
            && after.said().contains(SpecEvent::Account(Some(a))),
        reply matches Ok(SpecLogin::Redirect(url)) ==> (r matches Ok(Some(to)) && to@ == url)
            && after.who() == before.who(),
        reply is Err ==> after.who() == before.who() && after.state() == before.state()
            && after.said().last() is Error,
{
    reveal(Worker::login_answered);
    reveal(crate::worker::session::synced);
    if let Ok(SpecLogin::Authenticated(a)) = reply {
        let n = before.said().len() as int;
        let told = before.said().push(SpecEvent::Account(Some(a))).push(
            SpecEvent::Status("logged in as @"@ + a.handle),
        );
        assert(told[n] == SpecEvent::Account(Some(a)));
        assert(after.said().take(told.len() as int) == told);
        assert(after.said().take(told.len() as int)[n] == after.said()[n]);
        assert(after.said()[n] == SpecEvent::Account(Some(a)));
    }
}

/// A session that comes back signs its account in; one that does not signs nobody in, and
/// changes nothing that is held.
pub proof fn law_a_session_comes_back<T: Transport, S: FrontendStore, A: AuthProvider>(
    before: Worker<T, S, A>,
    after: Worker<T, S, A>,
    reply: Result<Option<SpecAccount>, Seq<char>>,
)
    requires
        before.session_restored(&after, reply),
    ensures
        reply matches Ok(Some(a)) ==> after.who() == Some(a),
        !(reply matches Ok(Some(_))) ==> after.state() == before.state() && after.said().contains(
            SpecEvent::Account(None),
        ),
{
    reveal(Worker::session_restored);
    if !(reply matches Ok(Some(_))) {
        let n = before.said().len() as int;
        assert(after.said()[n] == SpecEvent::Account(None));
    }
}

proof fn lemma_records(
    s: StoreState,
    uris: Seq<Seq<char>>,
    replies: Seq<RecordReply>,
    n: int,
    uri: Seq<char>,
)
    requires
        0 <= n <= replies.len(),
        replies.len() == uris.len(),
    ensures
        ({
            let after = with_records(s, uris, replies, n);
            &&& after.documents == s.documents
            &&& after.publications == s.publications
            &&& after.show_images == s.show_images
            &&& !uris.contains(uri) ==> after.follows.dom().contains(uri)
                == s.follows.dom().contains(uri) && after.follows[uri] == s.follows[uri]
        }),
        record_failures(uris, replies, n).len() + created_count(replies, n) == n,
    decreases n,
{
    if n > 0 {
        lemma_records(s, uris, replies, n - 1, uri);
        assert(uris.contains(uris[n - 1]));
    }
}

proof fn lemma_record_kept(
    s: StoreState,
    uris: Seq<Seq<char>>,
    replies: Seq<RecordReply>,
    n: int,
    i: int,
)
    requires
        0 <= i < n <= replies.len(),
        replies.len() == uris.len(),
        forall|j: int| i < j < uris.len() ==> #[trigger] uris[j] != uris[i],
        replies[i] is Ok,
    ensures
        with_records(s, uris, replies, n).follows.dom().contains(uris[i]),
        with_records(s, uris, replies, n).follows[uris[i]] == replies[i]->Ok_0,
    decreases n,
{
    if i < n - 1 {
        lemma_record_kept(s, uris, replies, n - 1, i);
        assert(uris[n - 1] != uris[i]);
    }
}

/// Each local follow whose record could be created is kept with its key; of every one that
/// could not, the reader is told, and nothing else changes.
pub proof fn law_local_follows_become_subscriptions(
    s: StoreState,
    after: StoreState,
    said: Seq<SpecEvent>,
    said_after: Seq<SpecEvent>,
    uris: Seq<Seq<char>>,
    replies: Seq<RecordReply>,
    i: int,
    other: Seq<char>,
)
    requires
        local_subscribed(s, after, said, said_after, uris, replies),
        replies.len() == uris.len(),
        0 <= i < uris.len(),
        forall|j: int| i < j < uris.len() ==> #[trigger] uris[j] != uris[i],
    ensures
        replies[i] matches Ok(rkey) ==> after.follows.dom().contains(uris[i])
            && after.follows[uris[i]] == rkey,
        !uris.contains(other) ==> after.follows.dom().contains(other)
            == s.follows.dom().contains(other) && after.follows[other] == s.follows[other],
        after.documents == s.documents,
        after.publications == s.publications,
        said_after.len() - said.len() == (replies.len() - created_count(
            replies,
            replies.len() as int,
        )) + 2,
{
    let n = replies.len() as int;
    lemma_records(s, uris, replies, n, other);
    if replies[i] is Ok {
        lemma_record_kept(s, uris, replies, n, i);
    }
    assert(said_after.drop_last().len() == said_after.len() - 1);
}

} // verus!
