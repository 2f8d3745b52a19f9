//! Signing in: the redirect that a browser comes back with, and the kept transactions
//! and sessions.
use vstd::prelude::*;

use crate::account::{opt_account, Account, SpecAccount};
use crate::auth_provider::{exact_grant, granted_scopes, has_exact_subscription_scope};
use crate::json::{array_view, json_text, lemma_array_view, parse_json, Json, SpecJson};
use crate::model::{copy_opt, opt_view};
use crate::table::Table;
use crate::text::{
    begins_with, byte_count, byte_len, chars_of, comes_before, decimal, decimal_of, is_whitespace,
    lemma_strings_view_push, lemma_text_less_asym, lemma_text_not_less_trans, owned, skip_space,
    slice_of, starts_with, strings_view, text_less, trim, trim_char, trimmed, without_around,
    word_end,
};
use crate::url::{cut_at, query_param, query_value, split_once, trim_start_char, without_leading};

verus! {

// --- The redirect -----------------------------------------------------------------

/// What an authorization server sends back.
#[derive(Debug, PartialEq, Eq)]
pub struct CallbackParams {
    pub code: String,
    pub state: Option<String>,
    pub iss: Option<String>,
}

/// [`CallbackParams`] over sequences.
pub struct SpecParams {
    pub code: Seq<char>,
    pub state: Option<Seq<char>>,
    pub iss: Option<Seq<char>>,
}

impl View for CallbackParams {
    type V = SpecParams;

    open spec fn view(&self) -> SpecParams {
        SpecParams { code: self.code@, state: opt_view(self.state), iss: opt_view(self.iss) }
    }
}

/// Why a redirect is of no use.
#[derive(Clone, Copy, Debug, PartialEq, Eq, Structural)]
pub enum CallbackError {
    /// The request line has no target.
    MalformedRequest,
    /// The target has no code.
    MissingCode,
}

impl CallbackError {
    /// What is said of it.
    pub open spec fn message(self) -> Seq<char> {
        match self {
            CallbackError::MalformedRequest => "malformed HTTP request line"@,
            CallbackError::MissingCode => "callback redirect missing `code`"@,
        }
    }

    pub fn to_string(&self) -> (r: String)
        ensures
            r@ == self.message(),
    {
        match self {
            CallbackError::MalformedRequest => owned("malformed HTTP request line"),
            CallbackError::MissingCode => owned("callback redirect missing `code`"),
        }
    }
}

/// The word `n` (from zero) of a text, from `i` on.
pub open spec fn nth_word(s: Seq<char>, i: int, n: nat) -> Option<Seq<char>>
    decreases n,
{
    let a = skip_space(s, i);
    let b = word_end(s, a);
    if a >= s.len() {
        None
    } else if n == 0 {
        Some(s.subrange(a, b))
    } else {
        nth_word(s, b, (n - 1) as nat)
    }
}

fn word_at(s: &str, n: usize) -> (r: Option<String>)
    ensures
        opt_view(r) == nth_word(s@, 0, n as nat),
{
    let v = chars_of(s);
    let mut i: usize = 0;
    let mut left: usize = n;
    loop
        invariant
            i <= v@.len(),
            v@ == s@,
            nth_word(s@, 0, n as nat) == nth_word(s@, i as int, left as nat),
        decreases left, v@.len() - i,
    {
        let mut a: usize = i;
        while a < v.len() && is_whitespace(v[a])
            invariant
                i <= a <= v@.len(),
                v@ == s@,
                skip_space(s@, i as int) == skip_space(s@, a as int),
            decreases v@.len() - a,
        {
            a = a + 1;
        }
        if a >= v.len() {
            return None;
        }
        let mut b: usize = a;
        while b < v.len() && !is_whitespace(v[b])
            invariant
                a <= b <= v@.len(),
                v@ == s@,
                word_end(s@, a as int) == word_end(s@, b as int),
            decreases v@.len() - b,
        {
            b = b + 1;
        }
        if left == 0 {
            return Some(slice_of(&v, a, b));
        }
        i = b;
        left = left - 1;
    }
}

/// The query of a request's target: what stands after its first question mark.
pub open spec fn target_query(target: Seq<char>) -> Seq<char> {
    match cut_at(target, '?') {
        Some((_, q)) => q,
        None => Seq::empty(),
    }
}

/// What a redirect's request says.
pub open spec fn callback_of(raw: Seq<char>) -> Result<SpecParams, CallbackError> {
    match nth_word(raw, 0, 1) {
        None => Err(CallbackError::MalformedRequest),
        Some(target) => {
            let query = target_query(target);
            match query_value(query, "code"@) {
                None => Err(CallbackError::MissingCode),
                Some(code) => Ok(
                    SpecParams {
                        code,
                        state: query_value(query, "state"@),
                        iss: query_value(query, "iss"@),
                    },
                ),
            }
        },
    }
}

/// Read the code, state and issuer from a raw request: its second word is the target.
pub fn parse_callback_request(raw: &str) -> (r: Result<CallbackParams, CallbackError>)
    ensures
        callback_of(raw@) == (match r {
            Ok(p) => Ok(p@),
            Err(e) => Err(e),
        }),
{
    match word_at(raw, 1) {
        None => Err(CallbackError::MalformedRequest),
        Some(target) => {
            let query = match split_once(target.as_str(), '?') {
                Some((_, q)) => q,
                None => String::new(),
            };
            assert(query@ =~= target_query(target@));
            match query_param(query.as_str(), "code") {
                None => Err(CallbackError::MissingCode),
                Some(code) => {
                    let state = query_param(query.as_str(), "state");
                    let iss = query_param(query.as_str(), "iss");
                    Ok(CallbackParams { code, state, iss })
                },
            }
        },
    }
}

/// The name that an account is shown under: what was typed without an at sign, or the
/// DID where a DID was typed.
pub open spec fn shown_handle(ident: Seq<char>, did: Seq<char>) -> Seq<char> {
    if begins_with(ident, "did:"@) {
        did
    } else {
        without_leading(trimmed(ident), '@')
    }
}

/// The account of a completed sign-in.
pub fn account_for(ident: &str, did: &str) -> (r: Account)
    ensures
        r@ == (SpecAccount { did: did@, handle: shown_handle(ident@, did@) }),
{
    let handle = if starts_with(ident, "did:") {
        owned(did)
    } else {
        let t = trim(ident);
        trim_start_char(t.as_str(), '@')
    };
    Account { did: owned(did), handle }
}

// --- The callback page ------------------------------------------------------------

/// What the browser shows once it was sent back.
pub const CALLBACK_HTML: &'static str = "<!doctype html><html><head><meta charset=\"utf-8\"><title>standard-reader</title></head><body style=\"font-family:system-ui;text-align:center;padding-top:4rem;color:#222\"><h2>You're logged in to standard-reader.</h2><p>You can close this tab and return to the terminal.</p></body></html>";

/// The answer to the browser's request: the page, and its length in bytes.
pub open spec fn callback_reply() -> Seq<char> {
    "HTTP/1.1 200 OK\r\nContent-Type: text/html; charset=utf-8\r\nContent-Length: "@ + decimal(
        byte_len(CALLBACK_HTML@) as nat,
    ) + "\r\nConnection: close\r\n\r\n"@ + CALLBACK_HTML@
}

/// The answer to the browser's request.
pub fn callback_response() -> (r: String)
    ensures
        r@ == callback_reply(),
{
    let n = decimal_of(byte_count(CALLBACK_HTML) as u64);
    let mut out = owned(
        "HTTP/1.1 200 OK\r\nContent-Type: text/html; charset=utf-8\r\nContent-Length: ",
    );
    out.push_str(n.as_str());
    out.push_str("\r\nConnection: close\r\n\r\n");
    out.push_str(CALLBACK_HTML);
    out
}

// --- DNS over HTTPS ---------------------------------------------------------------

/// The address that answers for a name's text records.
pub open spec fn txt_url(query: Seq<char>) -> Seq<char> {
    "https://dns.google/resolve?name="@ + query + "&type=TXT"@
}

/// The address that answers for a name's text records.
pub fn txt_query_url(query: &str) -> (r: String)
    ensures
        r@ == txt_url(query@),
{
    let mut out = owned("https://dns.google/resolve?name=");
    out.push_str(query);
    out.push_str("&type=TXT");
    out
}

/// The text of an answer, without quotes around it.
pub open spec fn txt_of(answer: SpecJson) -> Option<Seq<char>> {
    match answer.get_str("data"@) {
        Some(d) => Some(without_around(d, '"')),
        None => None,
    }
}

/// The texts of the first `n` answers.
pub open spec fn txts_among(answers: Seq<SpecJson>, n: int) -> Seq<Seq<char>>
    decreases n,
{
    if n <= 0 || n > answers.len() {
        Seq::empty()
    } else {
        match txt_of(answers[n - 1]) {
            Some(t) => txts_among(answers, n - 1).push(t),
            None => txts_among(answers, n - 1),
        }
    }
}

/// The text records of an answer document.
pub open spec fn txt_records_of(doc: SpecJson) -> Seq<Seq<char>> {
    match doc.get_array("Answer"@) {
        Some(answers) => txts_among(answers, answers.len() as int),
        None => Seq::empty(),
    }
}

/// The text records of an answer document.
pub fn txt_records(doc: &Json) -> (r: Vec<String>)
    ensures
        strings_view(r@) == txt_records_of(doc@),
{
    let mut out: Vec<String> = Vec::new();
    assert(strings_view(out@) =~= Seq::empty());
    let answers = match doc.get_array("Answer") {
        Some(answers) => answers,
        None => return out,
    };
    let ghost all = array_view(answers@);
    proof {
        lemma_array_view(answers@);
    }
    let mut i: usize = 0;
    while i < answers.len()
        invariant
            i <= answers@.len(),
            all == array_view(answers@),
            all.len() == answers@.len(),
            strings_view(out@) == txts_among(all, i as int),
        decreases answers@.len() - i,
    {
        broadcast use lemma_array_view;

        if let Some(data) = answers[i].get_str("data") {
            let bare = trim_char(data, '"');
            proof {
                lemma_strings_view_push(out@, bare);
            }
            out.push(bare);
        }
        i = i + 1;
    }
    out
}

/// The text records of an answer's bytes; no JSON is an error.
pub fn parse_txt_records(bytes: &[u8]) -> (r: Result<Vec<String>, String>)
    ensures
        match (r, json_text(bytes@)) {
            (Ok(v), Ok(doc)) => strings_view(v@) == txt_records_of(doc),
            (Err(e), Err(f)) => e@ == f,
            _ => false,
        },
{
    match parse_json(bytes) {
        Ok(doc) => Ok(txt_records(&doc)),
        Err(e) => Err(e),
    }
}

// --- Transactions and sessions ----------------------------------------------------

/// The version of the kept document; one of another version is not read.
pub const AUTH_SCHEMA: u32 = 1;

/// How long a sign-in may take from its start to its redirect: ten minutes.
pub const AUTH_STATE_TTL_MS: u64 = 600_000;

/// A sign-in that was started, as the shell serialized it.
#[derive(Debug, PartialEq, Eq)]
pub struct StoredState {
    pub created_at_ms: u64,
    pub data: String,
}

/// A session, as the shell serialized it, and the scope that it was granted.
#[derive(Debug, PartialEq, Eq)]
pub struct StoredSession {
    pub scope: Option<String>,
    pub data: String,
}

/// [`StoredState`] over sequences.
pub struct SpecState {
    pub created_at_ms: u64,
    pub data: Seq<char>,
}

/// [`StoredSession`] over sequences.
pub struct SpecSession {
    pub scope: Option<Seq<char>>,
    pub data: Seq<char>,
}

impl View for StoredState {
    type V = SpecState;

    open spec fn view(&self) -> SpecState {
        SpecState { created_at_ms: self.created_at_ms, data: self.data@ }
    }
}

impl View for StoredSession {
    type V = SpecSession;

    open spec fn view(&self) -> SpecSession {
        SpecSession { scope: opt_view(self.scope), data: self.data@ }
    }
}

/// Everything that is kept of signing in.
pub struct AuthSnapshot {
    pub schema: u32,
    pub account: Option<Account>,
    pub states: Table<StoredState>,
    pub sessions: Table<StoredSession>,
}

/// [`AuthSnapshot`] over sequences and maps.
pub struct SpecSnapshot {
    pub schema: u32,
    pub account: Option<SpecAccount>,
    pub states: Map<Seq<char>, SpecState>,
    pub sessions: Map<Seq<char>, SpecSession>,
}

/// Started sign-ins as a map.
pub open spec fn states_map(t: Map<Seq<char>, StoredState>) -> Map<Seq<char>, SpecState> {
    t.map_values(|x: StoredState| x@)
}

/// Sessions as a map.
pub open spec fn sessions_map(t: Map<Seq<char>, StoredSession>) -> Map<Seq<char>, SpecSession> {
    t.map_values(|x: StoredSession| x@)
}

impl View for AuthSnapshot {
    type V = SpecSnapshot;

    open spec fn view(&self) -> SpecSnapshot {
        SpecSnapshot {
            schema: self.schema,
            account: opt_account(self.account),
            states: states_map(self.states@),
            sessions: sessions_map(self.sessions@),
        }
    }
}

/// Nothing is kept.
pub open spec fn empty_snapshot() -> SpecSnapshot {
    SpecSnapshot {
        schema: AUTH_SCHEMA,
        account: None,
        states: Map::empty(),
        sessions: Map::empty(),
    }
}

/// A sign-in that was started then is still good now.
pub open spec fn alive(created_at_ms: u64, now: u64) -> bool {
    now - created_at_ms <= AUTH_STATE_TTL_MS
}

fn is_alive(created_at_ms: u64, now: u64) -> (r: bool)
    ensures
        r == alive(created_at_ms, now),
{
    now.saturating_sub(created_at_ms) <= AUTH_STATE_TTL_MS
}

impl SpecSnapshot {
    /// Without the sign-ins that took too long.
    pub open spec fn pruned(self, now: u64) -> SpecSnapshot {
        SpecSnapshot {
            states: Map::new(
                |k: Seq<char>| self.states.dom().contains(k) && alive(
                    self.states[k].created_at_ms,
                    now,
                ),
                |k: Seq<char>| self.states[k],
            ),
            ..self
        }
    }

    /// The scope that a session was granted.
    pub open spec fn granted_scope(self, did: Seq<char>) -> Option<Seq<char>> {
        if self.sessions.dom().contains(did) {
            self.sessions[did].scope
        } else {
            None
        }
    }

    /// A started sign-in, if it is still good.
    pub open spec fn state_at(self, key: Seq<char>, now: u64) -> Option<Seq<char>> {
        if self.states.dom().contains(key) && alive(self.states[key].created_at_ms, now) {
            Some(self.states[key].data)
        } else {
            None
        }
    }

    /// `a` is who is signed in: the kept account, or else the first session's DID.
    pub open spec fn has_account(self, a: Option<SpecAccount>) -> bool {
        match a {
            Some(x) => self.account == Some(x) || (self.account is None && self.sessions.dom().contains(x.did)
                && x.handle == x.did && forall|k: Seq<char>|
                #[trigger] self.sessions.dom().contains(k) ==> !text_less(k, x.did)),
            None => self.account is None && forall|k: Seq<char>|
                !(#[trigger] self.sessions.dom().contains(k)),
        }
    }
}

/// What is read of a kept document: nothing where there is none or it is of another
/// version, and no sign-in that took too long.
pub open spec fn accepted(kept: Option<SpecSnapshot>, now: u64) -> SpecSnapshot {
    match kept {
        Some(s) => if s.schema == AUTH_SCHEMA {
            s.pruned(now)
        } else {
            empty_snapshot()
        },
        None => empty_snapshot(),
    }
}

/// A sign-in is kept for ten minutes, and not a moment longer.
pub proof fn law_transactions_expire(s: SpecSnapshot, key: Seq<char>, now: u64)
    requires
        s.states.dom().contains(key),
    ensures
        s.pruned(now).states.dom().contains(key) <==> now - s.states[key].created_at_ms <= 600_000,
        s.state_at(key, now) is Some <==> s.pruned(now).states.dom().contains(key),
{
}

impl Default for AuthSnapshot {
    fn default() -> (r: Self)
        ensures
            r@ == empty_snapshot(),
    {
        let r = AuthSnapshot {
            schema: AUTH_SCHEMA,
            account: None,
            states: Table::new(),
            sessions: Table::new(),
        };
        assert(states_map(r.states@) =~= Map::empty());
        assert(sessions_map(r.sessions@) =~= Map::empty());
        r
    }
}

impl AuthSnapshot {
    /// What a start uses of a kept document.
    pub fn accept(kept: Option<AuthSnapshot>, now: u64) -> (r: Self)
        ensures
            r@ == accepted(
                match kept {
                    Some(s) => Some(s@),
                    None => None,
                },
                now,
            ),
    {
        match kept {
            Some(s) => if s.schema == AUTH_SCHEMA {
                let mut s = s;
                s.prune_expired(now);
                s
            } else {
                AuthSnapshot::default()
            },
            None => AuthSnapshot::default(),
        }
    }

    /// Drop the sign-ins that took too long.
    pub fn prune_expired(&mut self, now: u64)
        ensures
            final(self)@ == old(self)@.pruned(now),
    {
        let mut kept: Table<StoredState> = Table::new();
        core::mem::swap(&mut kept, &mut self.states);
        let ghost all = kept@;
        let n: usize = kept.len();
        let ghost order = kept.order();
        let mut expired: Vec<String> = Vec::new();
        let mut i: usize = 0;
        while i < n
            invariant
                n == order.len(),
                order == kept.order(),
                all == kept@,
                i <= n,
                forall|k: Seq<char>| #[trigger] all.dom().contains(k) <==> order.contains(k),
                forall|k: Seq<char>|
                    #[trigger] strings_view(expired@).contains(k) <==> order.take(
                        i as int,
                    ).contains(k) && !alive(all[k].created_at_ms, now),
            decreases n - i,
        {
            let ghost key = order[i as int];
            let ghost before = strings_view(expired@);
            if !is_alive(kept.value_at(i).created_at_ms, now) {
                let name = kept.key_at(i).clone();
                proof {
                    lemma_strings_view_push(expired@, name);
                    lemma_push_contains(before, key);
                }
                expired.push(name);
            }
            proof {
                assert(order.take(i + 1) =~= order.take(i as int).push(key));
                lemma_push_contains(order.take(i as int), key);
            }
            i = i + 1;
        }
        let ghost gone = strings_view(expired@);
        assert(order.take(n as int) =~= order);
        assert(gone.take(0) =~= Seq::empty());
        let mut j: usize = 0;
        while j < expired.len()
            invariant
                j <= expired@.len(),
                gone == strings_view(expired@),
                gone.len() == expired@.len(),
                forall|k: Seq<char>|
                    #[trigger] kept@.dom().contains(k) <==> all.dom().contains(k) && !gone.take(
                        j as int,
                    ).contains(k),
                forall|k: Seq<char>| #[trigger] kept@.dom().contains(k) ==> kept@[k] == all[k],
            decreases expired@.len() - j,
        {
            let ghost before = kept@;
            let _ = kept.remove(expired[j].as_str());
            proof {
                assert(gone[j as int] == expired@[j as int]@);
                assert(gone.take(j + 1) =~= gone.take(j as int).push(gone[j as int]));
                lemma_push_contains(gone.take(j as int), gone[j as int]);
                assert(kept@ =~= before.remove(gone[j as int]));
            }
            j = j + 1;
        }
        proof {
            assert(gone.take(gone.len() as int) =~= gone);
            let want = old(self)@.pruned(now).states;
            let have = states_map(kept@);
            assert forall|k: Seq<char>| #[trigger] have.dom().contains(k)
                <==> want.dom().contains(k) by {
                assert(kept@.dom().contains(k) <==> all.dom().contains(k) && !gone.contains(k));
            }
            assert forall|k: Seq<char>| #[trigger] have.dom().contains(k) implies have[k]
                == want[k] by {
                assert(kept@.dom().contains(k));
            }
            assert(have =~= want);
        }
        self.states = kept;
    }

    /// Who is signed in: the kept account, or the first session's.
    pub fn current_account(&self) -> (r: Option<Account>)
        ensures
            self@.has_account(opt_account(r)),
    {
        if let Some(a) = &self.account {
            return Some(a.clone());
        }
        let t = &self.sessions;
        let n: usize = t.len();
        if n == 0 {
            assert forall|k: Seq<char>| !(#[trigger] self@.sessions.dom().contains(k)) by {
                assert(t@.dom().contains(k) <==> t.order().contains(k));
            }
            return None;
        }
        let mut best: usize = 0;
        let mut i: usize = 1;
        proof {
            lemma_text_not_less_self(t.order()[0]);
        }
        while i < n
            invariant
                n == t.order().len(),
                best < i <= n,
                forall|k: int|
                    0 <= k < i ==> !text_less(#[trigger] t.order()[k], t.order()[best as int]),
            decreases n - i,
        {
            let ghost was = t.order()[best as int];
            if comes_before(t.key_at(i).as_str(), t.key_at(best).as_str()) {
                proof {
                    assert forall|k: int| 0 <= k < i + 1 implies !text_less(
                        #[trigger] t.order()[k],
                        t.order()[i as int],
                    ) by {
                        lemma_text_less_asym(t.order()[i as int], was);
                        if k < i {
                            lemma_text_not_less_trans(t.order()[k], was, t.order()[i as int]);
                        } else {
                            lemma_text_not_less_self(t.order()[k]);
                        }
                    }
                }
                best = i;
            }
            i = i + 1;
        }
        let did = t.key_at(best).clone();
        proof {
            assert(t.order().contains(t.order()[best as int]));
            assert forall|k: Seq<char>| #[trigger] self@.sessions.dom().contains(
                k,
            ) implies !text_less(k, did@) by {
                assert(t@.dom().contains(k));
                assert(t.order().contains(k));
                let j = choose|j: int| 0 <= j < t.order().len() && t.order()[j] == k;
                assert(!text_less(t.order()[j], t.order()[best as int]));
            }
        }
        Some(Account { did: did.clone(), handle: did })
    }

    /// The scope that a session was granted.
    pub fn granted_scope(&self, did: &str) -> (r: Option<String>)
        ensures
            opt_view(r) == self@.granted_scope(did@),
    {
        match self.sessions.get(did) {
            Some(s) => copy_opt(&s.scope),
            None => None,
        }
    }

    /// A started sign-in, if it is still good.
    pub fn state(&self, key: &str, now: u64) -> (r: Option<String>)
        ensures
            opt_view(r) == self@.state_at(key@, now),
    {
        match self.states.get(key) {
            Some(s) => if is_alive(s.created_at_ms, now) {
                Some(s.data.clone())
            } else {
                None
            },
            None => None,
        }
    }

    /// Keep who is signed in.
    pub fn set_account(&mut self, account: Option<Account>)
        ensures
            final(self)@ == (SpecSnapshot { account: opt_account(account), ..old(self)@ }),
    {
        self.account = account;
    }

    /// Keep a sign-in that was started.
    pub fn put_state(&mut self, key: String, state: StoredState)
        ensures
            final(self)@ == (SpecSnapshot {
                states: old(self)@.states.insert(key@, state@),
                ..old(self)@
            }),
    {
        let ghost before = self.states@;
        let ghost v = state@;
        self.states.insert(key, state);
        assert(states_map(self.states@) =~= states_map(before).insert(key@, v));
    }

    /// Forget a sign-in.
    pub fn discard_state(&mut self, key: &str)
        ensures
            final(self)@ == (SpecSnapshot {
                states: old(self)@.states.remove(key@),
                ..old(self)@
            }),
    {
        let ghost before = self.states@;
        let _ = self.states.remove(key);
        assert(states_map(self.states@) =~= states_map(before).remove(key@));
    }

    /// Keep a session.
    pub fn put_session(&mut self, did: String, session: StoredSession)
        ensures
            final(self)@ == (SpecSnapshot {
                sessions: old(self)@.sessions.insert(did@, session@),
                ..old(self)@
            }),
    {
        let ghost before = self.sessions@;
        let ghost v = session@;
        self.sessions.insert(did, session);
        assert(sessions_map(self.sessions@) =~= sessions_map(before).insert(did@, v));
    }

    /// Forget a session.
    pub fn drop_session(&mut self, did: &str)
        ensures
            final(self)@ == (SpecSnapshot {
                sessions: old(self)@.sessions.remove(did@),
                ..old(self)@
            }),
    {
        let ghost before = self.sessions@;
        let _ = self.sessions.remove(did);
        assert(sessions_map(self.sessions@) =~= sessions_map(before).remove(did@));
    }
}

proof fn lemma_push_contains(s: Seq<Seq<char>>, x: Seq<char>)
    ensures
        forall|k: Seq<char>| #[trigger] s.push(x).contains(k) <==> s.contains(k) || k == x,
{
    assert forall|k: Seq<char>| #[trigger] s.push(x).contains(k) <==> s.contains(k) || k == x by {
        if s.push(x).contains(k) {
            let j = choose|j: int| 0 <= j < s.push(x).len() && s.push(x)[j] == k;
            if j < s.len() {
                assert(s[j] == k);
            }
        }
        if s.contains(k) {
            let j = choose|j: int| 0 <= j < s.len() && s[j] == k;
            assert(s.push(x)[j] == k);
        }
        assert(s.push(x)[s.len() as int] == x);
    }
}

proof fn lemma_text_not_less_self(a: Seq<char>)
    ensures
        !text_less(a, a),
    decreases a.len(),
{
    if text_less(a, a) {
        lemma_text_less_asym(a, a);
    }
}

/// What is kept, in memory and durably. A change counts only once it is durable.
pub struct AuthStore {
    state: AuthSnapshot,
}

impl AuthStore {
    /// What is kept.
    pub closed spec fn kept(&self) -> SpecSnapshot {
        self.state@
    }

    pub fn new(initial: AuthSnapshot) -> (r: Self)
        ensures
            r.kept() == initial@,
    {
        AuthStore { state: initial }
    }

    pub fn snapshot(&self) -> (r: &AuthSnapshot)
        ensures
            r@ == self.kept(),
    {
        &self.state
    }

    /// Take a change over, or drop it, as the write of it turned out.
    pub fn commit(&mut self, next: AuthSnapshot, written: Result<(), String>) -> (r: Result<
        (),
        String,
    >)
        ensures
            match written {
                Ok(_) => r is Ok && final(self).kept() == next@,
                Err(e) => r matches Err(f) && f@ == e@ && final(self).kept() == old(self).kept(),
            },
    {
        match written {
            Ok(_) => {
                self.state = next;
                Ok(())
            },
            Err(e) => Err(e),
        }
    }
}

// --- Restoring a session ----------------------------------------------------------

/// What the page came back with from the authorization server.
#[derive(Debug, PartialEq, Eq)]
pub enum OAuthReturn {
    Success(CallbackParams),
    Error { state: Option<String>, error: String, description: Option<String> },
}

/// [`OAuthReturn`] over sequences.
pub enum SpecReturn {
    Success(SpecParams),
    Error { state: Option<Seq<char>>, error: Seq<char>, description: Option<Seq<char>> },
}

impl View for OAuthReturn {
    type V = SpecReturn;

    open spec fn view(&self) -> SpecReturn {
        match *self {
            OAuthReturn::Success(p) => SpecReturn::Success(p@),
            OAuthReturn::Error { state, error, description } => SpecReturn::Error {
                state: opt_view(state),
                error: error@,
                description: opt_view(description),
            },
        }
    }
}

/// What a restore has to do next.
#[derive(Debug, PartialEq, Eq)]
pub enum RestoreStep {
    /// Exchange the code for a session.
    Exchange(CallbackParams),
    /// Forget the sign-in, if it is named, and report why it failed.
    Fail { discard: Option<String>, message: String },
    /// Check and refresh the session of this account.
    Resume(Account),
    /// Nobody is signed in.
    Nothing,
}

/// What is said of a sign-in that the server refused.
pub open spec fn refusal(error: Seq<char>, description: Option<Seq<char>>) -> Seq<char> {
    match description {
        Some(d) => error + ": "@ + d,
        None => error,
    }
}

/// The step is the right one: a redirect comes first, then whoever is signed in.
pub open spec fn restore_step_is(
    callback: Option<SpecReturn>,
    kept: SpecSnapshot,
    step: RestoreStep,
) -> bool {
    match callback {
        Some(SpecReturn::Success(p)) => step matches RestoreStep::Exchange(q) && q@ == p,
        Some(SpecReturn::Error { state, error, description }) => {
            step matches RestoreStep::Fail { discard, message } && opt_view(discard) == state
                && message@ == refusal(error, description)
        },
        None => match step {
            RestoreStep::Resume(a) => kept.has_account(Some(a@)),
            RestoreStep::Nothing => kept.has_account(None),
            _ => false,
        },
    }
}

/// What a restore has to do first.
pub fn begin_restore(callback: Option<OAuthReturn>, kept: &AuthSnapshot) -> (r: RestoreStep)
    ensures
        restore_step_is(
            match callback {
                Some(c) => Some(c@),
                None => None,
            },
            kept@,
            r,
        ),
{
    match callback {
        Some(OAuthReturn::Success(params)) => RestoreStep::Exchange(params),
        Some(OAuthReturn::Error { state, error, description }) => {
            let message = match description {
                Some(d) => {
                    let mut m = error;
                    m.push_str(": ");
                    m.push_str(d.as_str());
                    m
                },
                None => error,
            };
            RestoreStep::Fail { discard: state, message }
        },
        None => match kept.current_account() {
            Some(a) => RestoreStep::Resume(a),
            None => RestoreStep::Nothing,
        },
    }
}

/// What is said of a session whose grant is not the one that is asked for.
pub const OBSOLETE_GRANT: &'static str = "the saved OAuth session has obsolete or unexpected permissions; sign in again";

/// The account of an exchanged session, if its grant is exactly the one that is asked
/// for. Otherwise the session has to be revoked and everything forgotten.
pub fn account_of_session(
    did: &str,
    typed: Option<&str>,
    granted: Option<&str>,
) -> (r: Result<Account, String>)
    ensures
        match r {
            Ok(a) => exact_grant(granted_scopes(granted)) && a@ == (SpecAccount {
                did: did@,
                handle: shown_handle(
                    match typed {
                        Some(t) => t@,
                        None => did@,
                    },
                    did@,
                ),
            }),
            Err(e) => !exact_grant(granted_scopes(granted)) && e@ == OBSOLETE_GRANT@,
        },
{
    if has_exact_subscription_scope(granted) {
        let ident = match typed {
            Some(t) => t,
            None => did,
        };
        Ok(account_for(ident, did))
    } else {
        Err(owned(OBSOLETE_GRANT))
    }
}

} // verus!
