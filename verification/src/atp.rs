//! AT Protocol plumbing without a network stack: record URIs, request URLs and
//! the seam through which a frontend moves the bytes.
use vstd::prelude::*;

use crate::text::{
    after_prefix, chars_of, find_char, find_from, lemma_find_from, slice_of, strip_prefix,
};

pub mod xrpc;

verus! {

/// A record URI, `at://<did>/<collection>/<rkey>`.
#[derive(Debug, PartialEq)]
pub struct AtUri {
    pub did: String,
    pub collection: String,
    pub rkey: String,
}

/// [`AtUri`] over character sequences.
pub struct SpecAtUri {
    pub did: Seq<char>,
    pub collection: Seq<char>,
    pub rkey: Seq<char>,
}

impl View for AtUri {
    type V = SpecAtUri;

    open spec fn view(&self) -> SpecAtUri {
        SpecAtUri { did: self.did@, collection: self.collection@, rkey: self.rkey@ }
    }
}

impl Clone for AtUri {
    fn clone(&self) -> (r: Self)
        ensures
            r@ == self@,
    {
        AtUri {
            did: self.did.clone(),
            collection: self.collection.clone(),
            rkey: self.rkey.clone(),
        }
    }
}

impl SpecAtUri {
    /// The URI written out.
    pub open spec fn printed(self) -> Seq<char> {
        "at://"@ + self.did + "/"@ + self.collection + "/"@ + self.rkey
    }

    /// No part is empty, and only the record key may hold a slash.
    pub open spec fn well_formed(self) -> bool {
        &&& self.did.len() > 0
        &&& self.collection.len() > 0
        &&& self.rkey.len() > 0
        &&& !self.did.contains('/')
        &&& !self.collection.contains('/')
    }
}

/// The URI that `s` spells: after `at://`, the text up to the first slash, the
/// text up to the second, and the rest, none of them empty.
pub open spec fn parsed_at_uri(s: Seq<char>) -> Option<SpecAtUri> {
    match after_prefix(s, "at://"@) {
        None => None,
        Some(rest) => match find_from(rest, 0, '/') {
            None => None,
            Some(a) => match find_from(rest, a + 1, '/') {
                None => None,
                Some(b) => {
                    let u = SpecAtUri {
                        did: rest.subrange(0, a),
                        collection: rest.subrange(a + 1, b),
                        rkey: rest.subrange(b + 1, rest.len() as int),
                    };
                    if u.did.len() == 0 || u.collection.len() == 0 || u.rkey.len() == 0 {
                        None
                    } else {
                        Some(u)
                    }
                },
            },
        },
    }
}

impl AtUri {
    /// Parse a record URI; `None` if it is not well formed.
    pub fn parse(s: &str) -> (r: Option<AtUri>)
        ensures
            match r {
                Some(u) => parsed_at_uri(s@) == Some(u@),
                None => parsed_at_uri(s@) is None,
            },
    {
        let rest = match strip_prefix(s, "at://") {
            Some(rest) => rest,
            None => return None,
        };
        let v = chars_of(rest.as_str());
        let a: usize = match find_char(&v, 0, '/') {
            Some(a) => a,
            None => return None,
        };
        let b: usize = match find_char(&v, a + 1, '/') {
            Some(b) => b,
            None => return None,
        };
        if a == 0 || b == a + 1 || b + 1 == v.len() {
            return None;
        }
        Some(
            AtUri {
                did: slice_of(&v, 0, a),
                collection: slice_of(&v, a + 1, b),
                rkey: slice_of(&v, b + 1, v.len()),
            },
        )
    }

    /// The URI written out.
    pub fn to_string(&self) -> (r: String)
        ensures
            r@ == self@.printed(),
    {
        let mut s = crate::text::join2("at://", self.did.as_str());
        s.push_str("/");
        s.push_str(self.collection.as_str());
        s.push_str("/");
        s.push_str(self.rkey.as_str());
        s
    }
}

/// Reading back what was written: a well-formed URI survives printing and parsing.
pub proof fn law_print_then_parse(u: SpecAtUri)
    requires
        u.well_formed(),
    ensures
        parsed_at_uri(u.printed()) == Some(u),
{
    reveal_strlit("at://");
    reveal_strlit("/");
    let s = u.printed();
    let rest = u.did + "/"@ + u.collection + "/"@ + u.rkey;
    assert(s =~= "at://"@ + rest);
    assert(s.subrange(0, 5) =~= "at://"@);
    assert(s.subrange(5, s.len() as int) =~= rest);
    let a = u.did.len() as int;
    let b = a + 1 + u.collection.len();
    assert(rest[a] == '/' && rest[b] == '/');
    assert forall|j: int| 0 <= j < a implies rest[j] != '/' by {
        assert(rest[j] == u.did[j]);
    }
    assert forall|j: int| a + 1 <= j < b implies rest[j] != '/' by {
        assert(rest[j] == u.collection[j - a - 1]);
    }
    lemma_find_from(rest, 0, '/');
    lemma_find_from(rest, a + 1, '/');
    assert(rest.subrange(0, a) =~= u.did);
    assert(rest.subrange(a + 1, b) =~= u.collection);
    assert(rest.subrange(b + 1, rest.len() as int) =~= u.rkey);
}

/// What parses is well formed, and prints as the text it was parsed from.
pub proof fn law_parse_then_print(s: Seq<char>)
    requires
        parsed_at_uri(s) is Some,
    ensures
        parsed_at_uri(s)->0.well_formed(),
        parsed_at_uri(s)->0.printed() == s,
{
    reveal_strlit("at://");
    reveal_strlit("/");
    let rest = after_prefix(s, "at://"@)->0;
    let a = find_from(rest, 0, '/')->0;
    lemma_find_from(rest, 0, '/');
    let b = find_from(rest, a + 1, '/')->0;
    lemma_find_from(rest, a + 1, '/');
    let u = parsed_at_uri(s)->0;
    assert forall|i: int| 0 <= i < u.did.len() implies u.did[i] != '/' by {
        assert(u.did[i] == rest[i]);
    }
    assert forall|i: int| 0 <= i < u.collection.len() implies u.collection[i] != '/' by {
        assert(u.collection[i] == rest[a + 1 + i]);
    }
    assert(s =~= "at://"@ + rest) by {
        assert(s.subrange(0, 5) =~= "at://"@);
        assert forall|i: int| 0 <= i < s.len() implies s[i] == ("at://"@ + rest)[i] by {
            if i < 5 {
                assert(s.subrange(0, 5)[i] == s[i]);
            }
        }
    }
    assert(u.printed() =~= s);
}

/// A transport's reply by its content: the bytes, or the error's message.
pub open spec fn reply_view(r: Result<Vec<u8>, String>) -> Result<Seq<u8>, Seq<char>> {
    match r {
        Ok(b) => Ok(b@),
        Err(m) => Err(m@),
    }
}

/// Whatever a frontend needs to perform a request, abstracted to bytes.
///
/// Synchronous on purpose: a frontend may run it on a worker thread or inline.
/// Implementations attach authentication.
pub trait Transport {
    /// That this transport may have answered a request for `url` with `reply`. What a
    /// server sends is not a function of the request, so this is a relation and
    /// nothing is known of it in general: a transport that does not say otherwise may
    /// answer anything.
    open spec fn answers(&self, url: Seq<char>, reply: Result<Seq<u8>, Seq<char>>) -> bool {
        true
    }

    /// Fetch `url`; the error is a message.
    fn get(&self, url: &str) -> (r: Result<Vec<u8>, String>)
        ensures
            self.answers(url@, reply_view(r)),
    ;

    /// Send `body` to `url`; the error is a message.
    fn post(&self, url: &str, content_type: &str, body: &[u8]) -> (r: Result<Vec<u8>, String>);
}

} // verus!
