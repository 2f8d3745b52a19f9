//! The sign-in seam: what the worker asks of a shell's authentication, and the one grant
//! that is accepted.
use vstd::prelude::*;

use crate::account::{opt_account, Account, SpecAccount};
use crate::text::{
    chars_of, find_char, find_from, pieces, same, slice_of, split_char, strings_view,
    lemma_strings_view_push,
};

verus! {

/// Identity, and below it only the record operations that mirroring subscriptions needs.
pub const ATPROTO_IDENTITY_SCOPE: &'static str = "atproto";

pub const SUBSCRIPTION_PERMISSION_SCOPE: &'static str = "repo:site.standard.graph.subscription?action=create&action=delete";

pub const SUBSCRIPTION_REPO_SCOPE: &'static str = "repo:site.standard.graph.subscription";

/// The white space of ASCII.
pub open spec fn ascii_space(c: char) -> bool {
    c == ' ' || c == '\t' || c == '\n' || c == '\r' || c as u32 == 0xc
}

fn is_ascii_space(c: char) -> (r: bool)
    ensures
        r == ascii_space(c),
{
    c == ' ' || c == '\t' || c == '\n' || c == '\r' || c as u32 == 0xc
}

/// Where the run of characters from `i` that are no ASCII white space ends.
pub open spec fn ascii_word_end(s: Seq<char>, i: int) -> int
    decreases s.len() - i,
{
    if 0 <= i < s.len() && !ascii_space(s[i]) {
        ascii_word_end(s, i + 1)
    } else {
        i
    }
}

proof fn lemma_ascii_word_end(s: Seq<char>, i: int)
    requires
        0 <= i <= s.len(),
    ensures
        i <= ascii_word_end(s, i) <= s.len(),
        i < s.len() && !ascii_space(s[i]) ==> i < ascii_word_end(s, i),
    decreases s.len() - i,
{
    if i < s.len() && !ascii_space(s[i]) {
        lemma_ascii_word_end(s, i + 1);
    }
}

/// The words of `s` from `i` on: the runs between ASCII white space.
pub open spec fn ascii_words(s: Seq<char>, i: int) -> Seq<Seq<char>>
    decreases s.len() - i,
{
    if i < 0 || i >= s.len() {
        Seq::empty()
    } else if ascii_space(s[i]) {
        ascii_words(s, i + 1)
    } else {
        let end = ascii_word_end(s, i);
        if i < end <= s.len() {
            seq![s.subrange(i, end)] + ascii_words(s, end)
        } else {
            Seq::empty()
        }
    }
}

/// The words of a text: the runs between ASCII white space.
pub fn split_ascii_words(s: &str) -> (r: Vec<String>)
    ensures
        strings_view(r@) == ascii_words(s@, 0),
{
    let v = chars_of(s);
    let mut out: Vec<String> = Vec::new();
    let mut i: usize = 0;
    assert(strings_view(out@) + ascii_words(s@, 0) =~= ascii_words(s@, 0));
    while i < v.len()
        invariant
            i <= v@.len(),
            v@ == s@,
            strings_view(out@) + ascii_words(s@, i as int) == ascii_words(s@, 0),
        decreases v@.len() - i,
    {
        if is_ascii_space(v[i]) {
            i = i + 1;
        } else {
            let mut end: usize = i + 1;
            while end < v.len() && !is_ascii_space(v[end])
                invariant
                    i < end <= v@.len(),
                    v@ == s@,
                    ascii_word_end(s@, i as int) == ascii_word_end(s@, end as int),
                decreases v@.len() - end,
            {
                end = end + 1;
            }
            let word = slice_of(&v, i, end);
            proof {
                lemma_strings_view_push(out@, word);
                assert(strings_view(out@.push(word)) + ascii_words(s@, end as int) =~= strings_view(
                    out@,
                ) + ascii_words(s@, i as int));
            }
            out.push(word);
            i = end;
        }
    }
    assert(strings_view(out@) + ascii_words(s@, i as int) =~= strings_view(out@));
    out
}

/// A scope that permits creating and deleting subscription records, and no more.
pub open spec fn exact_permission(scope: Seq<char>) -> bool {
    match find_from(scope, 0, '?') {
        Some(i) => {
            let actions = pieces(scope.subrange(i + 1, scope.len() as int), '&');
            &&& scope.subrange(0, i) == SUBSCRIPTION_REPO_SCOPE@
            &&& actions == seq!["action=create"@, "action=delete"@] || actions
                == seq!["action=delete"@, "action=create"@]
        },
        None => false,
    }
}

/// A grant of the identity scope and the exact permission, in either order, and nothing
/// else.
pub open spec fn exact_grant(scopes: Seq<Seq<char>>) -> bool {
    &&& scopes.len() == 2
    &&& scopes[0] == ATPROTO_IDENTITY_SCOPE@ || scopes[1] == ATPROTO_IDENTITY_SCOPE@
    &&& exact_permission(scopes[0]) || exact_permission(scopes[1])
}

/// The scopes of a grant.
pub open spec fn granted_scopes(granted: Option<&str>) -> Seq<Seq<char>> {
    match granted {
        Some(g) => ascii_words(g@, 0),
        None => Seq::empty(),
    }
}

/// Whether a grant is exactly the one that the reader asks for. Broader grants of old
/// sessions are not: they must be authorized anew.
pub fn has_exact_subscription_scope(granted: Option<&str>) -> (r: bool)
    ensures
        r == exact_grant(granted_scopes(granted)),
{
    let scopes: Vec<String> = match granted {
        Some(g) => split_ascii_words(g),
        None => Vec::new(),
    };
    let ghost view = strings_view(scopes@);
    assert(view =~= granted_scopes(granted));
    assert(view.len() == scopes@.len());
    if scopes.len() != 2 {
        return false;
    }
    assert(view[0] == scopes@[0]@ && view[1] == scopes@[1]@);
    (same(scopes[0].as_str(), ATPROTO_IDENTITY_SCOPE) || same(
        scopes[1].as_str(),
        ATPROTO_IDENTITY_SCOPE,
    )) && (is_exact_subscription_permission(scopes[0].as_str())
        || is_exact_subscription_permission(scopes[1].as_str()))
}

fn is_exact_subscription_permission(scope: &str) -> (r: bool)
    ensures
        r == exact_permission(scope@),
{
    let v = chars_of(scope);
    match find_char(&v, 0, '?') {
        Some(i) => {
            let resource = slice_of(&v, 0, i);
            let query = slice_of(&v, i + 1, v.len());
            if !same(resource.as_str(), SUBSCRIPTION_REPO_SCOPE) {
                return false;
            }
            let actions = split_char(query.as_str(), '&');
            let ghost view = strings_view(actions@);
            assert(view.len() == actions@.len());
            if actions.len() != 2 {
                return false;
            }
            assert(view[0] == actions@[0]@ && view[1] == actions@[1]@);
            let a = actions[0].as_str();
            let b = actions[1].as_str();
            proof {
                assert(view =~= seq![a@, b@]);
                let forward = seq!["action=create"@, "action=delete"@];
                let reverse = seq!["action=delete"@, "action=create"@];
                assert(view == forward ==> a@ == forward[0] && b@ == forward[1]);
                assert(view == reverse ==> a@ == reverse[0] && b@ == reverse[1]);
            }
            (same(a, "action=create") && same(b, "action=delete")) || (same(a, "action=delete")
                && same(b, "action=create"))
        },
        None => false,
    }
}

/// Which order the two scopes are granted in does not matter.
pub proof fn law_grant_order_is_free(a: Seq<char>, b: Seq<char>)
    ensures
        exact_grant(seq![a, b]) == exact_grant(seq![b, a]),
{
}

/// A third permission is never accepted.
pub proof fn law_no_extra_permission(scopes: Seq<Seq<char>>, extra: Seq<char>)
    ensures
        exact_grant(scopes) ==> !exact_grant(scopes.push(extra)),
{
}

/// What a shell's sign-in step produced.
#[derive(Debug, PartialEq, Eq)]
pub enum LoginOutcome {
    /// The flow is complete.
    Authenticated(Account),
    /// The page has to move to the authorization server; a later restore completes the
    /// flow.
    Redirect(String),
}

/// [`LoginOutcome`] over sequences.
pub enum SpecLogin {
    Authenticated(SpecAccount),
    Redirect(Seq<char>),
}

impl View for LoginOutcome {
    type V = SpecLogin;

    open spec fn view(&self) -> SpecLogin {
        match *self {
            LoginOutcome::Authenticated(a) => SpecLogin::Authenticated(a@),
            LoginOutcome::Redirect(url) => SpecLogin::Redirect(url@),
        }
    }
}

/// What signing in came to, by its view.
pub open spec fn login_reply(r: Result<LoginOutcome, String>) -> Result<SpecLogin, Seq<char>> {
    match r {
        Ok(o) => Ok(o@),
        Err(e) => Err(e@),
    }
}

/// What restoring a session came to, by its view.
pub open spec fn restore_reply(r: Result<Option<Account>, String>) -> Result<
    Option<SpecAccount>,
    Seq<char>,
> {
    match r {
        Ok(a) => Ok(opt_account(a)),
        Err(e) => Err(e@),
    }
}

/// A reply by its view: what came back, or a message.
pub open spec fn text_reply(r: Result<String, String>) -> Result<Seq<char>, Seq<char>> {
    match r {
        Ok(s) => Ok(s@),
        Err(e) => Err(e@),
    }
}

/// A reply that carries nothing, by its view.
pub open spec fn unit_reply(r: Result<(), String>) -> Result<(), Seq<char>> {
    match r {
        Ok(_) => Ok(()),
        Err(e) => Err(e@),
    }
}

/// A shell's authentication, and the writes to the reader's own repository. Of what it
/// answers nothing is promised: the relations only name what was asked.
pub trait AuthProvider {
    /// That creating a subscription record may have been answered so; anything may be,
    /// unless a shell says otherwise.
    open spec fn created(
        &self,
        did: Seq<char>,
        publication: Seq<char>,
        reply: Result<Seq<char>, Seq<char>>,
    ) -> bool {
        true
    }

    /// That deleting a subscription record may have been answered so; anything may be,
    /// unless a shell says otherwise.
    open spec fn deleted(&self, did: Seq<char>, rkey: Seq<char>, reply: Result<
        (),
        Seq<char>,
    >) -> bool {
        true
    }

    /// That restoring a session may have come to this; anything may, unless a shell says
    /// otherwise.
    open spec fn restored(&self, reply: Result<Option<SpecAccount>, Seq<char>>) -> bool {
        true
    }

    /// That signing in may have come to this; anything may, unless a shell says otherwise.
    open spec fn signed(&self, ident: Seq<char>, reply: Result<SpecLogin, Seq<char>>) -> bool {
        true
    }

    /// That ending the session may have been answered so; anything may be, unless a shell
    /// says otherwise.
    open spec fn left(&self, reply: Result<(), Seq<char>>) -> bool {
        true
    }

    /// Validate and restore a kept session; `None` if there is none.
    fn restore(&self) -> (r: Result<Option<Account>, String>)
        ensures
            self.restored(restore_reply(r)),
    ;

    /// Run the sign-in flow for a handle or DID.
    fn login(&self, ident: &str) -> (r: Result<LoginOutcome, String>)
        ensures
            self.signed(ident@, login_reply(r)),
    ;

    /// Revoke the session and forget it.
    fn logout(&self) -> (r: Result<(), String>)
        ensures
            self.left(unit_reply(r)),
    ;

    /// Create a subscription record; its key.
    fn create_subscription(&self, did: &str, publication_uri: &str) -> (r: Result<String, String>)
        ensures
            self.created(did@, publication_uri@, text_reply(r)),
    ;

    /// Delete a subscription record.
    fn delete_subscription(&self, did: &str, rkey: &str) -> (r: Result<(), String>)
        ensures
            self.deleted(did@, rkey@, unit_reply(r)),
    ;
}

} // verus!
