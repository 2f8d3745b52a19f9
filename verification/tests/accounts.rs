//! Signing in, subscriptions and addresses.
use standard_reader::account::Account;
use standard_reader::atp::xrpc;
use standard_reader::auth::{
    account_for, account_of_session, begin_restore, callback_response, parse_callback_request,
    parse_txt_records, AuthSnapshot, AuthStore, CallbackError, CallbackParams, OAuthReturn,
    RestoreStep, StoredSession, StoredState, AUTH_SCHEMA, CALLBACK_HTML, OBSOLETE_GRANT,
};
use standard_reader::auth_provider::{
    has_exact_subscription_scope, ATPROTO_IDENTITY_SCOPE, SUBSCRIPTION_PERMISSION_SCOPE,
    SUBSCRIPTION_REPO_SCOPE,
};
use standard_reader::browser::{adapt_key, adapt_mouse, guards_key, response_headers, BrowserKey};
use standard_reader::input::{KeyCode, KeyModifiers, MouseButton, MouseEventKind};
use standard_reader::model::ImageSource;
use standard_reader::table::Table;
use standard_reader::transport::{
    bounded, is_success, reject_announced_size, TooLarge, MAX_RESPONSE_BYTES,
};
use standard_reader::url::{cdn_image_url, normalize, percent_decode, rkey_from_uri};
use standard_reader::worker::sync::{diff_subscriptions, SubscriptionDiff};

fn alice() -> Account {
    Account {
        did: "did:plc:test".into(),
        handle: "alice.test".into(),
    }
}

// --- Permissions ------------------------------------------------------------------

#[test]
fn accepts_only_the_two_required_permissions_in_either_order() {
    let forward = format!("{ATPROTO_IDENTITY_SCOPE} {SUBSCRIPTION_PERMISSION_SCOPE}");
    let reverse = format!("{SUBSCRIPTION_PERMISSION_SCOPE} {ATPROTO_IDENTITY_SCOPE}");
    let reversed_actions = format!(
        "{ATPROTO_IDENTITY_SCOPE} {SUBSCRIPTION_REPO_SCOPE}?action=delete&action=create"
    );
    assert!(has_exact_subscription_scope(Some(&forward)));
    assert!(has_exact_subscription_scope(Some(&reverse)));
    assert!(has_exact_subscription_scope(Some(&reversed_actions)));
}

#[test]
fn rejects_transitional_missing_and_extra_permissions() {
    assert!(!has_exact_subscription_scope(Some(
        "atproto transition:generic"
    )));
    assert!(!has_exact_subscription_scope(Some("atproto")));
    assert!(!has_exact_subscription_scope(Some(&format!(
        "atproto {SUBSCRIPTION_PERMISSION_SCOPE} blob:*/*"
    ))));
    assert!(!has_exact_subscription_scope(Some(
        "atproto repo:site.standard.graph.subscription?action=create&action=update"
    )));
    assert!(!has_exact_subscription_scope(None));
}

// --- The redirect -----------------------------------------------------------------

#[test]
fn parses_code_state_iss_from_get_line() {
    let raw = "GET /callback?code=abc123&state=xyz789&iss=https%3A%2F%2Fbsky.social HTTP/1.1\r\n\
               Host: 127.0.0.1:4599\r\n\r\n";
    let params = parse_callback_request(raw).unwrap();
    assert_eq!(params.code, "abc123");
    assert_eq!(params.state.as_deref(), Some("xyz789"));
    assert_eq!(params.iss.as_deref(), Some("https://bsky.social"));
}

#[test]
fn callback_without_code_is_an_error() {
    let raw = "GET /callback?state=only HTTP/1.1\r\n\r\n";
    assert!(parse_callback_request(raw).is_err());
}

#[test]
fn callback_query_order_and_extras_are_tolerated() {
    let raw = "GET /callback?iss=x&extra=1&code=c&state=s HTTP/1.1\r\n";
    let params = parse_callback_request(raw).unwrap();
    assert_eq!(params.code, "c");
    assert_eq!(params.state.as_deref(), Some("s"));
    assert_eq!(params.iss.as_deref(), Some("x"));
}

#[test]
fn useless_redirects_say_why() {
    assert_eq!(
        parse_callback_request("GET"),
        Err(CallbackError::MalformedRequest)
    );
    assert_eq!(
        parse_callback_request("GET /callback?state=only HTTP/1.1"),
        Err(CallbackError::MissingCode)
    );
    assert_eq!(
        CallbackError::MalformedRequest.to_string(),
        "malformed HTTP request line"
    );
    assert_eq!(
        CallbackError::MissingCode.to_string(),
        "callback redirect missing `code`"
    );
}

#[test]
fn the_callback_page_announces_its_length() {
    let reply = callback_response();
    let (head, page) = reply.split_once("\r\n\r\n").unwrap();
    assert_eq!(page, CALLBACK_HTML);
    assert!(head.starts_with("HTTP/1.1 200 OK\r\n"));
    assert!(head.contains(&format!("Content-Length: {}\r\n", CALLBACK_HTML.len())));
}

#[test]
fn percent_decode_handles_escapes_plus_and_trailing_percent() {
    assert_eq!(percent_decode("a%2Fb"), "a/b");
    assert_eq!(percent_decode("hello+world"), "hello world");
    assert_eq!(percent_decode("100%"), "100%");
    assert_eq!(percent_decode("plain"), "plain");
    // What the escapes spell is read as text: two bytes that are one character, and one that
    // is none.
    assert_eq!(percent_decode("caf%C3%A9"), "café");
    assert_eq!(percent_decode("%FF"), "\u{fffd}");
}

#[test]
fn the_account_shows_the_handle_that_was_typed() {
    assert_eq!(account_for(" @alice.test", "did:plc:test"), alice());
    assert_eq!(account_for("did:plc:test", "did:plc:test").handle, "did:plc:test");
}

#[test]
fn text_records_are_read_without_their_quotes() {
    let answer = br#"{"Answer":[{"data":"\"did=did:plc:a\""},{"data":"other"},{"ttl":1}]}"#;
    assert_eq!(
        parse_txt_records(answer),
        Ok(vec!["did=did:plc:a".to_string(), "other".to_string()])
    );
    assert_eq!(parse_txt_records(b"{}"), Ok(vec![]));
    assert!(parse_txt_records(b"not json").is_err());
}

// --- What is kept of signing in ---------------------------------------------------

#[test]
fn auth_snapshot_rejects_corruption_and_unknown_schema() {
    // What does not read is nothing at all.
    assert_eq!(AuthSnapshot::accept(None, 0).schema, AUTH_SCHEMA);
    let unknown = AuthSnapshot {
        schema: 99,
        account: Some(alice()),
        ..Default::default()
    };
    let read = AuthSnapshot::accept(Some(unknown), 0);
    assert_eq!(read.schema, AUTH_SCHEMA);
    assert_eq!(read.account, None);
}

#[test]
fn auth_snapshot_round_trips_account() {
    let snapshot = AuthSnapshot {
        account: Some(alice()),
        ..Default::default()
    };
    assert_eq!(
        AuthSnapshot::accept(Some(snapshot), 0).account,
        Some(alice())
    );
}

#[test]
fn acknowledged_auth_write_commits() {
    let mut store = AuthStore::new(AuthSnapshot::default());
    let mut next = AuthSnapshot::default();
    next.set_account(Some(alice()));
    assert_eq!(store.commit(next, Ok(())), Ok(()));
    assert_eq!(store.snapshot().account, Some(alice()));
}

#[test]
fn failed_auth_write_rolls_back_memory() {
    let mut store = AuthStore::new(AuthSnapshot::default());
    let mut next = AuthSnapshot::default();
    next.set_account(Some(alice()));
    assert!(store.commit(next, Err("quota exceeded".into())).is_err());
    assert_eq!(store.snapshot().account, None);
}

#[test]
fn a_sign_in_is_kept_for_ten_minutes() {
    let mut snapshot = AuthSnapshot::default();
    snapshot.put_state(
        "key".into(),
        StoredState {
            created_at_ms: 1_000,
            data: "verifier".into(),
        },
    );
    assert_eq!(snapshot.state("key", 601_000).as_deref(), Some("verifier"));
    assert_eq!(snapshot.state("key", 601_001), None);
    snapshot.prune_expired(601_000);
    assert_eq!(snapshot.states.len(), 1);
    snapshot.prune_expired(601_001);
    assert_eq!(snapshot.states.len(), 0);
}

// --- Addresses --------------------------------------------------------------------

#[test]
fn rkey_uses_final_uri_segment() {
    assert_eq!(
        rkey_from_uri("at://did:plc:test/site.standard.graph.subscription/abc"),
        "abc"
    );
}

#[test]
fn rkey_is_the_last_uri_segment() {
    assert_eq!(
        rkey_from_uri("at://did:plc:abc/site.standard.graph.subscription/3kxyz"),
        "3kxyz"
    );
}

#[test]
fn rkey_is_the_trailing_segment() {
    assert_eq!(
        rkey_from_uri("at://did:plc:x/site.standard.graph.subscription/3kabc"),
        "3kabc"
    );
    assert_eq!(rkey_from_uri("bare"), "bare");
}

#[test]
fn cdn_url_from_blob_and_getblob_url() {
    assert_eq!(
        cdn_image_url(&ImageSource::Blob {
            did: "did:plc:abc".into(),
            cid: "bafcid".into()
        })
        .as_deref(),
        Some("https://cdn.bsky.app/img/feed_fullsize/plain/did:plc:abc/bafcid@jpeg")
    );
    let url = "https://yapfest.club/xrpc/com.atproto.sync.getBlob?did=did%3Aplc%3Axyz&cid=bafblob";
    assert_eq!(
        cdn_image_url(&ImageSource::Url(url.into())).as_deref(),
        Some("https://cdn.bsky.app/img/feed_fullsize/plain/did:plc:xyz/bafblob@jpeg")
    );
    assert_eq!(
        cdn_image_url(&ImageSource::Url("https://example.com/pic.png".into())),
        None
    );
}

#[test]
fn normalizes_inputs() {
    assert_eq!(normalize("  david.yapfest.club "), "david.yapfest.club");
    assert_eq!(
        normalize("https://half-baked.pckt.blog/a/post"),
        "half-baked.pckt.blog"
    );
    assert_eq!(normalize("@alice.test"), "alice.test");
    assert_eq!(normalize("did:plc:abc"), "did:plc:abc");
}

// --- Subscriptions ----------------------------------------------------------------

#[test]
fn diff_partitions_remote_only_in_both_and_local_only() {
    let local = vec!["at://p/both".to_string(), "at://p/localonly".to_string()];
    let mut remote = Table::new();
    remote.insert("at://p/both".to_string(), "rk_both".to_string());
    remote.insert("at://p/remoteonly".to_string(), "rk_remote".to_string());

    let diff = diff_subscriptions(&local, &remote);
    assert_eq!(
        diff,
        SubscriptionDiff {
            remote_only: vec![("at://p/remoteonly".into(), "rk_remote".into())],
            in_both: vec![("at://p/both".into(), "rk_both".into())],
            local_only: vec!["at://p/localonly".into()],
        }
    );
}

#[test]
fn diff_with_no_remote_makes_everything_local_only() {
    let local = vec!["at://p/a".to_string(), "at://p/b".to_string()];
    let diff = diff_subscriptions(&local, &Table::new());
    assert!(diff.remote_only.is_empty() && diff.in_both.is_empty());
    assert_eq!(diff.local_only, ["at://p/a", "at://p/b"]);
}

// --- Responses and the browser ----------------------------------------------------

#[test]
fn bounded_reader_accepts_limit_and_rejects_one_byte_more() {
    assert_eq!(bounded(b"1234".to_vec(), 4), Ok(b"1234".to_vec()));
    assert_eq!(
        bounded(b"12345".to_vec(), 4),
        Err(TooLarge { limit: 4 })
    );
    assert!(reject_announced_size(Some(4), 4).is_ok());
    assert!(reject_announced_size(Some(5), 4).is_err());
}

#[test]
fn the_limit_is_said_in_mebibytes() {
    assert_eq!(MAX_RESPONSE_BYTES, 32 * 1024 * 1024);
    assert_eq!(
        TooLarge {
            limit: MAX_RESPONSE_BYTES
        }
        .to_string(),
        "response exceeded the 32 MiB limit"
    );
    assert!(reject_announced_size(None, 4).is_ok());
    assert!(is_success(204) && !is_success(304));
}

#[test]
fn browser_keys_and_clicks_are_the_readers() {
    let e = adapt_key(BrowserKey::Char('p'), true, false, false).unwrap();
    assert_eq!((e.code, e.modifiers), (KeyCode::Char('p'), KeyModifiers::CONTROL));
    assert!(adapt_key(BrowserKey::Home, false, false, false).is_none());
    let m = adapt_mouse(true, true, Some((3, 4)), false, true, false).unwrap();
    assert_eq!((m.column, m.row), (3, 4));
    assert_eq!(m.kind, MouseEventKind::Down(MouseButton::Left));
    assert_eq!(m.modifiers, KeyModifiers::SHIFT);
    assert!(adapt_mouse(true, false, Some((3, 4)), false, false, false).is_none());
    assert!(guards_key("Tab", false) && guards_key("P", true));
    assert!(!guards_key("p", false) && !guards_key("r", true));
}

#[test]
fn header_lines_are_split_at_the_first_colon() {
    let headers = response_headers("Content-Type: text/html\r\nlink:  <https://x.test>\r\nbad\r\n");
    assert_eq!(
        headers,
        vec![
            ("Content-Type".to_string(), "text/html".to_string()),
            ("link".to_string(), "<https://x.test>".to_string()),
        ]
    );
}

// --- Going on after a redirect ----------------------------------------------------

fn params() -> CallbackParams {
    CallbackParams {
        code: "c".into(),
        state: Some("s".into()),
        iss: None,
    }
}

#[test]
fn a_redirect_comes_before_whoever_is_signed_in() {
    let mut kept = AuthSnapshot::default();
    assert_eq!(begin_restore(None, &kept), RestoreStep::Nothing);
    kept.put_session(
        "did:plc:test".into(),
        StoredSession {
            scope: None,
            data: "{}".into(),
        },
    );
    kept.set_account(Some(alice()));
    assert_eq!(begin_restore(None, &kept), RestoreStep::Resume(alice()));
    assert_eq!(
        begin_restore(Some(OAuthReturn::Success(params())), &kept),
        RestoreStep::Exchange(params())
    );
    let refused = OAuthReturn::Error {
        state: Some("s".into()),
        error: "access_denied".into(),
        description: Some("not today".into()),
    };
    assert_eq!(
        begin_restore(Some(refused), &kept),
        RestoreStep::Fail {
            discard: Some("s".into()),
            message: "access_denied: not today".into(),
        }
    );
    kept.drop_session("did:plc:test");
    assert!(kept.granted_scope("did:plc:test").is_none());
}

#[test]
fn a_session_with_another_grant_is_refused() {
    let exact = format!("{ATPROTO_IDENTITY_SCOPE} {SUBSCRIPTION_PERMISSION_SCOPE}");
    assert_eq!(
        account_of_session("did:plc:test", Some("@alice.test"), Some(&exact)),
        Ok(alice())
    );
    assert_eq!(
        account_of_session("did:plc:test", None, Some("atproto")),
        Err(OBSOLETE_GRANT.to_string())
    );
}

#[test]
fn a_started_sign_in_can_be_discarded() {
    let mut kept = AuthSnapshot::default();
    kept.put_state(
        "k".into(),
        StoredState {
            created_at_ms: 5,
            data: "d".into(),
        },
    );
    assert_eq!(kept.state("k", 5).as_deref(), Some("d"));
    kept.discard_state("k");
    assert_eq!(kept.state("k", 5), None);
}

#[test]
fn request_addresses_name_their_parts() {
    assert_eq!(
        xrpc::resolve_handle("https://bsky.social", "alice.test"),
        "https://bsky.social/xrpc/com.atproto.identity.resolveHandle?handle=alice.test"
    );
    assert_eq!(
        xrpc::get_blob("https://pds.test", "did:plc:a", "baf"),
        "https://pds.test/xrpc/com.atproto.sync.getBlob?did=did:plc:a&cid=baf"
    );
}
