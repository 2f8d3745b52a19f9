//! Persistence decisions: under which names records are kept, and in which order
//! pending writes go out.
use vstd::prelude::*;

use crate::text::{
    chars_of, hex_digits, hex_of, join2, lemma_hex_digits, list_contains, owned, same,
    strings_view,
};

verus! {

/// The structured snapshot.
pub const INDEX_FILE: &'static str = "index.json";

/// The reader's appearance preferences.
pub const PREFS_FILE: &'static str = "prefs.json";

/// The directory of document bodies.
pub const BODY_DIR: &'static str = "b";

/// The directory of image blobs.
pub const BLOB_DIR: &'static str = "i";

// --- Names ------------------------------------------------------------------------

/// The FNV-1a hash of bytes, from the state `h`.
pub open spec fn fnv1a(h: u64, bytes: Seq<u8>) -> u64
    decreases bytes.len(),
{
    if bytes.len() == 0 {
        h
    } else {
        (fnv1a(h, bytes.drop_last()) ^ (bytes.last() as u64)).wrapping_mul(0x0000_0100_0000_01b3)
    }
}

/// The name of a document's body file: the hash of its URI in hexadecimal.
pub open spec fn body_name(uri: Seq<char>) -> Seq<char> {
    hex_digits(
        fnv1a(0xcbf2_9ce4_8422_2325, vstd::utf8::encode_utf8(uri)) as nat,
        16,
    )
}

/// The name of a document's body file. URIs hold characters that file names may not, so
/// they are hashed, by a function that stays the same across releases.
pub fn body_key(uri: &str) -> (r: String)
    ensures
        r@ == body_name(uri@),
{
    let bytes = uri.as_bytes();
    let mut h: u64 = 0xcbf2_9ce4_8422_2325;
    let mut i: usize = 0;
    assert(bytes@.take(0) =~= Seq::<u8>::empty());
    while i < bytes.len()
        invariant
            i <= bytes@.len(),
            h == fnv1a(0xcbf2_9ce4_8422_2325, bytes@.take(i as int)),
        decreases bytes@.len() - i,
    {
        assert(bytes@.take(i + 1).drop_last() =~= bytes@.take(i as int));
        h = (h ^ (bytes[i] as u64)).wrapping_mul(0x0000_0100_0000_01b3);
        i = i + 1;
    }
    assert(bytes@.take(bytes@.len() as int) =~= bytes@);
    hex_of(h, 16)
}

/// A character that every file system takes in a name.
pub open spec fn is_safe_char(c: char) -> bool {
    ('a' <= c <= 'z') || ('A' <= c <= 'Z') || ('0' <= c <= '9')
}

/// A name made of letters and digits only, and of at least one.
pub open spec fn is_safe_name(s: Seq<char>) -> bool {
    s.len() > 0 && forall|i: int| 0 <= i < s.len() ==> is_safe_char(#[trigger] s[i])
}

/// The name of a blob's file: the CID itself, which is safe; for a blob that goes by a
/// URL, a hash of it.
pub open spec fn blob_name(cid: Seq<char>) -> Seq<char> {
    if is_safe_name(cid) {
        cid
    } else {
        "url-"@ + body_name(cid)
    }
}

/// The name of a blob's file.
pub fn blob_file_key(cid: &str) -> (r: String)
    ensures
        r@ == blob_name(cid@),
{
    let v = chars_of(cid);
    let mut safe = v.len() > 0;
    let mut i: usize = 0;
    while i < v.len()
        invariant
            i <= v@.len(),
            safe == (v@.len() > 0 && forall|k: int| 0 <= k < i ==> is_safe_char(#[trigger] v@[k])),
        decreases v@.len() - i,
    {
        let c = v[i];
        if !(('a' <= c && c <= 'z') || ('A' <= c && c <= 'Z') || ('0' <= c && c <= '9')) {
            assert(!is_safe_char(v@[i as int]));
            safe = false;
        }
        i = i + 1;
    }
    if safe {
        owned(cid)
    } else {
        join2("url-", body_key(cid).as_str())
    }
}

/// Body names are sixteen hexadecimal digits, so they hold no separator.
pub proof fn law_body_names_are_safe(uri: Seq<char>)
    ensures
        body_name(uri).len() == 16,
        is_safe_name(body_name(uri)),
        !body_name(uri).contains('/'),
{
    let h = fnv1a(0xcbf2_9ce4_8422_2325, vstd::utf8::encode_utf8(uri)) as nat;
    lemma_hex_digits(h, 16);
}

/// Blob names hold no separator, whatever the blob goes by; a safe CID is kept as it is.
pub proof fn law_blob_names_are_safe(cid: Seq<char>)
    ensures
        !blob_name(cid).contains('/'),
        is_safe_name(cid) ==> blob_name(cid) == cid,
{
    law_body_names_are_safe(cid);
    reveal_strlit("url-");
    if !is_safe_name(cid) {
        let name = blob_name(cid);
        assert forall|i: int| 0 <= i < name.len() implies name[i] != '/' by {
            if i >= 4 {
                assert(name[i] == body_name(cid)[i - 4]);
            }
        }
    }
}

// --- Operations -------------------------------------------------------------------

/// A change to be kept, as bytes.
#[derive(Debug, PartialEq)]
pub enum PersistOp {
    /// The whole structured snapshot.
    Index(Vec<u8>),
    /// One document's body.
    Body { key: String, bytes: Vec<u8> },
    /// One image blob.
    Blob { cid: String, bytes: Vec<u8> },
    /// The whole preferences.
    Prefs(Vec<u8>),
}

/// [`PersistOp`] over sequences.
pub enum SpecOp {
    Index(Seq<u8>),
    Body { key: Seq<char>, bytes: Seq<u8> },
    Blob { cid: Seq<char>, bytes: Seq<u8> },
    Prefs(Seq<u8>),
}

impl View for PersistOp {
    type V = SpecOp;

    open spec fn view(&self) -> SpecOp {
        match *self {
            PersistOp::Index(b) => SpecOp::Index(b@),
            PersistOp::Body { key, bytes } => SpecOp::Body { key: key@, bytes: bytes@ },
            PersistOp::Blob { cid, bytes } => SpecOp::Blob { cid: cid@, bytes: bytes@ },
            PersistOp::Prefs(b) => SpecOp::Prefs(b@),
        }
    }
}

/// One concrete write selected from the queue.
#[derive(Debug, PartialEq)]
pub enum QueuedWrite {
    Body { key: String, bytes: Vec<u8> },
    Blob { cid: String, bytes: Vec<u8> },
    Index(Vec<u8>),
    Prefs(Vec<u8>),
}

impl View for QueuedWrite {
    type V = SpecOp;

    open spec fn view(&self) -> SpecOp {
        match *self {
            QueuedWrite::Index(b) => SpecOp::Index(b@),
            QueuedWrite::Body { key, bytes } => SpecOp::Body { key: key@, bytes: bytes@ },
            QueuedWrite::Blob { cid, bytes } => SpecOp::Blob { cid: cid@, bytes: bytes@ },
            QueuedWrite::Prefs(b) => SpecOp::Prefs(b@),
        }
    }
}

/// Where a write goes: a directory, a name, and the bytes.
pub open spec fn target_of(w: SpecOp) -> (Option<Seq<char>>, Seq<char>, Seq<u8>) {
    match w {
        SpecOp::Body { key, bytes } => (Some(BODY_DIR@), key, bytes),
        SpecOp::Blob { cid, bytes } => (Some(BLOB_DIR@), cid, bytes),
        SpecOp::Index(bytes) => (None, INDEX_FILE@, bytes),
        SpecOp::Prefs(bytes) => (None, PREFS_FILE@, bytes),
    }
}

impl QueuedWrite {
    /// Where the write goes: a directory, a name, and the bytes.
    pub fn target(&self) -> (r: (Option<&'static str>, &str, &[u8]))
        ensures
            (match r.0 {
                Some(d) => Some(d@),
                None => None,
            }) == target_of(self@).0,
            r.1@ == target_of(self@).1,
            r.2@ == target_of(self@).2,
    {
        match self {
            QueuedWrite::Body { key, bytes } => (Some(BODY_DIR), key.as_str(), bytes.as_slice()),
            QueuedWrite::Blob { cid, bytes } => (Some(BLOB_DIR), cid.as_str(), bytes.as_slice()),
            QueuedWrite::Index(bytes) => (None, INDEX_FILE, bytes.as_slice()),
            QueuedWrite::Prefs(bytes) => (None, PREFS_FILE, bytes.as_slice()),
        }
    }

    /// The path of the write.
    pub open spec fn path(self) -> Seq<char> {
        match target_of(self@).0 {
            Some(dir) => dir + "/"@ + target_of(self@).1,
            None => target_of(self@).1,
        }
    }

    /// The path of the write, for messages.
    pub fn label(&self) -> (r: String)
        ensures
            r@ == self.path(),
    {
        let (dir, name, _) = self.target();
        match dir {
            Some(dir) => {
                let mut s = join2(dir, "/");
                s.push_str(name);
                s
            },
            None => owned(name),
        }
    }
}

// --- The queue --------------------------------------------------------------------

/// Pending payloads: names and bytes, in the order in which they go out.
pub type Pending = Seq<(Seq<char>, Seq<u8>)>;

/// A payload called `key` is pending.
pub open spec fn has_key(p: Pending, key: Seq<char>) -> bool {
    exists|i: int| 0 <= i < p.len() && (#[trigger] p[i]).0 == key
}

/// `p` with the first payload called `key` replaced, or appended if there is none.
pub open spec fn put(p: Pending, key: Seq<char>, bytes: Seq<u8>) -> Pending
    decreases p.len(),
{
    if p.len() == 0 {
        seq![(key, bytes)]
    } else if p[0].0 == key {
        p.update(0, (key, bytes))
    } else {
        seq![p[0]] + put(p.subrange(1, p.len() as int), key, bytes)
    }
}

/// The queue of pending writes.
pub struct SpecQueue {
    pub bodies: Pending,
    pub blobs: Pending,
    /// The blobs that are known to be kept.
    pub completed: Set<Seq<char>>,
    pub index: Option<Seq<u8>>,
    pub prefs: Option<Seq<u8>>,
}

impl SpecQueue {
    /// The queue after one more change: a snapshot and a body keep only their latest
    /// bytes; a blob that is pending or kept is not taken again.
    pub open spec fn pushed(self, op: SpecOp) -> SpecQueue {
        match op {
            SpecOp::Index(b) => SpecQueue { index: Some(b), ..self },
            SpecOp::Prefs(b) => SpecQueue { prefs: Some(b), ..self },
            SpecOp::Body { key, bytes } => SpecQueue {
                bodies: put(self.bodies, key, bytes),
                ..self
            },
            SpecOp::Blob { cid, bytes } => if self.completed.contains(cid) || has_key(
                self.blobs,
                cid,
            ) {
                self
            } else {
                SpecQueue { blobs: self.blobs.push((cid, bytes)), ..self }
            },
        }
    }

    /// The write that goes out next: payloads before the snapshot that refers to them.
    pub open spec fn next(self) -> Option<SpecOp> {
        if self.bodies.len() > 0 {
            Some(SpecOp::Body { key: self.bodies[0].0, bytes: self.bodies[0].1 })
        } else if self.blobs.len() > 0 {
            Some(SpecOp::Blob { cid: self.blobs[0].0, bytes: self.blobs[0].1 })
        } else if self.index is Some {
            Some(SpecOp::Index(self.index->0))
        } else if self.prefs is Some {
            Some(SpecOp::Prefs(self.prefs->0))
        } else {
            None
        }
    }

    /// The queue once that write is out.
    pub open spec fn popped(self) -> SpecQueue {
        if self.bodies.len() > 0 {
            SpecQueue { bodies: self.bodies.remove(0), ..self }
        } else if self.blobs.len() > 0 {
            SpecQueue { blobs: self.blobs.remove(0), ..self }
        } else if self.index is Some {
            SpecQueue { index: None, ..self }
        } else {
            SpecQueue { prefs: None, ..self }
        }
    }

    /// The queue once a write is known to be kept.
    pub open spec fn succeeded(self, w: SpecOp) -> SpecQueue {
        match w {
            SpecOp::Blob { cid, bytes } => SpecQueue { completed: self.completed.insert(cid), ..self },
            _ => self,
        }
    }

    /// Nothing is pending.
    pub open spec fn drained(self) -> bool {
        self.bodies.len() == 0 && self.blobs.len() == 0 && self.index is None
            && self.prefs is None
    }
}

/// The queue of pending writes, for one writer.
pub struct WriteQueue {
    bodies: Vec<(String, Vec<u8>)>,
    blobs: Vec<(String, Vec<u8>)>,
    completed_blobs: Vec<String>,
    index: Option<Vec<u8>>,
    prefs: Option<Vec<u8>>,
}

spec fn pending_view(s: Seq<(String, Vec<u8>)>) -> Pending {
    s.map_values(|e: (String, Vec<u8>)| (e.0@, e.1@))
}

spec fn opt_bytes(o: Option<Vec<u8>>) -> Option<Seq<u8>> {
    match o {
        Some(b) => Some(b@),
        None => None,
    }
}

impl View for WriteQueue {
    type V = SpecQueue;

    closed spec fn view(&self) -> SpecQueue {
        SpecQueue {
            bodies: pending_view(self.bodies@),
            blobs: pending_view(self.blobs@),
            completed: strings_view(self.completed_blobs@).to_set(),
            index: opt_bytes(self.index),
            prefs: opt_bytes(self.prefs),
        }
    }
}

/// An optional write by its view.
pub open spec fn opt_write(o: Option<QueuedWrite>) -> Option<SpecOp> {
    match o {
        Some(w) => Some(w@),
        None => None,
    }
}

fn find_key(v: &Vec<(String, Vec<u8>)>, key: &str) -> (r: Option<usize>)
    ensures
        match r {
            Some(i) => i < v@.len() && v@[i as int].0@ == key@ && (forall|k: int|
                0 <= k < i ==> (#[trigger] v@[k]).0@ != key@),
            None => forall|k: int| 0 <= k < v@.len() ==> (#[trigger] v@[k]).0@ != key@,
        },
{
    let mut i: usize = 0;
    while i < v.len()
        invariant
            i <= v@.len(),
            forall|k: int| 0 <= k < i ==> (#[trigger] v@[k]).0@ != key@,
        decreases v@.len() - i,
    {
        if same(v[i].0.as_str(), key) {
            return Some(i);
        }
        i = i + 1;
    }
    None
}

proof fn lemma_put_at(p: Pending, key: Seq<char>, bytes: Seq<u8>, i: int)
    requires
        0 <= i < p.len(),
        p[i].0 == key,
        forall|k: int| 0 <= k < i ==> (#[trigger] p[k]).0 != key,
    ensures
        put(p, key, bytes) == p.update(i, (key, bytes)),
    decreases p.len(),
{
    if i > 0 {
        let rest = p.subrange(1, p.len() as int);
        assert forall|k: int| 0 <= k < i - 1 implies (#[trigger] rest[k]).0 != key by {
            assert(rest[k] == p[k + 1]);
        }
        lemma_put_at(rest, key, bytes, i - 1);
        assert(p[0].0 != key);
        assert(seq![p[0]] + rest.update(i - 1, (key, bytes)) =~= p.update(i, (key, bytes)));
    }
}

proof fn lemma_put_absent(p: Pending, key: Seq<char>, bytes: Seq<u8>)
    requires
        forall|k: int| 0 <= k < p.len() ==> (#[trigger] p[k]).0 != key,
    ensures
        put(p, key, bytes) == p.push((key, bytes)),
    decreases p.len(),
{
    if p.len() > 0 {
        let rest = p.subrange(1, p.len() as int);
        assert forall|k: int| 0 <= k < rest.len() implies (#[trigger] rest[k]).0 != key by {
            assert(rest[k] == p[k + 1]);
        }
        lemma_put_absent(rest, key, bytes);
        assert(p[0].0 != key);
        assert(seq![p[0]] + rest.push((key, bytes)) =~= p.push((key, bytes)));
    } else {
        assert(p.push((key, bytes)) =~= seq![(key, bytes)]);
    }
}

impl Default for WriteQueue {
    fn default() -> (r: Self)
        ensures
            r@ == (SpecQueue {
                bodies: Seq::empty(),
                blobs: Seq::empty(),
                completed: Set::empty(),
                index: None,
                prefs: None,
            }),
    {
        let r = WriteQueue::new(Vec::new());
        assert(strings_view(Seq::<String>::empty()).to_set() =~= Set::empty());
        r
    }
}

impl WriteQueue {
    /// An empty queue, with the blobs that are known to be kept.
    pub fn new(completed_blobs: Vec<String>) -> (r: Self)
        ensures
            r@ == (SpecQueue {
                bodies: Seq::empty(),
                blobs: Seq::empty(),
                completed: strings_view(completed_blobs@).to_set(),
                index: None,
                prefs: None,
            }),
    {
        let r = WriteQueue {
            bodies: Vec::new(),
            blobs: Vec::new(),
            completed_blobs,
            index: None,
            prefs: None,
        };
        assert(pending_view(r.bodies@) =~= Seq::empty());
        assert(pending_view(r.blobs@) =~= Seq::empty());
        r
    }

    /// Take one change in.
    pub fn push(&mut self, op: PersistOp)
        ensures
            final(self)@ == old(self)@.pushed(op@),
    {
        match op {
            PersistOp::Index(bytes) => {
                self.index = Some(bytes);
            },
            PersistOp::Prefs(bytes) => {
                self.prefs = Some(bytes);
            },
            PersistOp::Body { key, bytes } => {
                let ghost before = self.bodies@;
                match find_key(&self.bodies, key.as_str()) {
                    Some(i) => {
                        self.bodies.set(i, (key, bytes));
                        proof {
                            let p = pending_view(before);
                            assert forall|k: int| 0 <= k < i implies (#[trigger] p[k]).0 != key@ by {
                                assert(p[k] == (before[k].0@, before[k].1@));
                            }
                            lemma_put_at(p, key@, bytes@, i as int);
                            assert(pending_view(self.bodies@) =~= p.update(
                                i as int,
                                (key@, bytes@),
                            ));
                        }
                    },
                    None => {
                        self.bodies.push((key, bytes));
                        proof {
                            let p = pending_view(before);
                            assert forall|k: int| 0 <= k < p.len() implies (#[trigger] p[k]).0
                                != key@ by {
                                assert(p[k] == (before[k].0@, before[k].1@));
                            }
                            lemma_put_absent(p, key@, bytes@);
                            assert(pending_view(self.bodies@) =~= p.push((key@, bytes@)));
                        }
                    },
                }
            },
            PersistOp::Blob { cid, bytes } => {
                let ghost before = self.blobs@;
                let ghost p = pending_view(before);
                if list_contains(&self.completed_blobs, cid.as_str()) {
                    return ;
                }
                match find_key(&self.blobs, cid.as_str()) {
                    Some(i) => {
                        assert(p[i as int].0 == cid@);
                    },
                    None => {
                        assert(!has_key(p, cid@)) by {
                            assert forall|k: int| 0 <= k < p.len() implies (#[trigger] p[k]).0
                                != cid@ by {
                                assert(p[k] == (before[k].0@, before[k].1@));
                            }
                        }
                        self.blobs.push((cid, bytes));
                        assert(pending_view(self.blobs@) =~= p.push((cid@, bytes@)));
                    },
                }
            },
        }
    }

    /// The write that goes out next.
    pub fn pop_next(&mut self) -> (r: Option<QueuedWrite>)
        ensures
            opt_write(r) == old(self)@.next(),
            final(self)@ == old(self)@.popped(),
    {
        if self.bodies.len() > 0 {
            let ghost p = pending_view(self.bodies@);
            let (key, bytes) = self.bodies.remove(0);
            assert(pending_view(self.bodies@) =~= p.remove(0));
            return Some(QueuedWrite::Body { key, bytes });
        }
        if self.blobs.len() > 0 {
            let ghost p = pending_view(self.blobs@);
            let (cid, bytes) = self.blobs.remove(0);
            assert(pending_view(self.blobs@) =~= p.remove(0));
            return Some(QueuedWrite::Blob { cid, bytes });
        }
        match self.index.take() {
            Some(bytes) => Some(QueuedWrite::Index(bytes)),
            None => match self.prefs.take() {
                Some(bytes) => Some(QueuedWrite::Prefs(bytes)),
                None => None,
            },
        }
    }

    /// Record that a write is kept. A blob that failed may be taken again.
    pub fn mark_succeeded(&mut self, write: &QueuedWrite)
        ensures
            final(self)@ == old(self)@.succeeded(write@),
    {
        match write {
            QueuedWrite::Blob { cid, bytes: _ } => {
                let ghost before = strings_view(self.completed_blobs@);
                self.completed_blobs.push(cid.clone());
                proof {
                    crate::text::lemma_strings_view_push(old(self).completed_blobs@, *cid);
                    let after = strings_view(self.completed_blobs@);
                    assert(after == before.push(cid@));
                    assert forall|x: Seq<char>| #[trigger]
                        after.to_set().contains(x) == before.to_set().insert(cid@).contains(x) by {
                        if before.contains(x) {
                            let j = choose|j: int| 0 <= j < before.len() && before[j] == x;
                            assert(after[j] == x);
                        }
                        assert(after[before.len() as int] == cid@);
                    }
                    assert(after.to_set() =~= before.to_set().insert(cid@));
                }
            },
            _ => {},
        }
    }

    /// Whether nothing is pending.
    pub fn is_empty(&self) -> (r: bool)
        ensures
            r == self@.drained(),
    {
        self.bodies.len() == 0 && self.blobs.len() == 0 && self.index.is_none()
            && self.prefs.is_none()
    }
}

/// Payloads go out first, bodies before blobs, then the snapshot that may refer to them, and
/// the preferences last. A write that goes out is gone, and nothing else is.
pub proof fn law_payloads_go_first(q: SpecQueue)
    ensures
        (q.next() matches Some(SpecOp::Body { key, bytes })) ==> q.popped() == (SpecQueue {
            bodies: q.bodies.remove(0),
            ..q
        }),
        (q.next() matches Some(SpecOp::Blob { cid, bytes })) ==> q.bodies.len() == 0 && q.popped()
            == (SpecQueue { blobs: q.blobs.remove(0), ..q }),
        (q.next() matches Some(SpecOp::Index(_))) ==> q.bodies.len() == 0 && q.blobs.len() == 0
            && q.popped() == (SpecQueue { index: None, ..q }),
        (q.next() matches Some(SpecOp::Prefs(_))) ==> q.bodies.len() == 0 && q.blobs.len() == 0
            && q.index is None && q.popped() == (SpecQueue { prefs: None, ..q }),
        q.next() is None <==> q.drained(),
        q.next() is None ==> q.popped() == q,
{
}

/// One use of a queue.
pub enum QueueStep {
    Push(SpecOp),
    Pop,
    Succeeded(SpecOp),
}

/// A queue after a use of it.
pub open spec fn stepped(q: SpecQueue, step: QueueStep) -> SpecQueue {
    match step {
        QueueStep::Push(op) => q.pushed(op),
        QueueStep::Pop => q.popped(),
        QueueStep::Succeeded(w) => q.succeeded(w),
    }
}

/// A queue after uses of it, one after the other.
pub open spec fn used(q: SpecQueue, steps: Seq<QueueStep>) -> SpecQueue
    decreases steps.len(),
{
    if steps.len() == 0 {
        q
    } else {
        stepped(used(q, steps.drop_last()), steps.last())
    }
}

/// No two payloads go by the same name.
pub open spec fn distinct(p: Pending) -> bool {
    forall|i: int, j: int| 0 <= i < j < p.len() ==> (#[trigger] p[i]).0 != (#[trigger] p[j]).0
}

/// `key` stands at `i` in pending payloads.
pub open spec fn stands_at(p: Pending, key: Seq<char>, i: int) -> bool {
    0 <= i < p.len() && p[i].0 == key
}

proof fn lemma_put(p: Pending, key: Seq<char>, bytes: Seq<u8>)
    requires
        distinct(p),
    ensures
        distinct(put(p, key, bytes)),
        has_key(p, key) ==> put(p, key, bytes).len() == p.len(),
        !has_key(p, key) ==> put(p, key, bytes) == p.push((key, bytes)),
        forall|i: int|
            0 <= i < p.len() ==> (#[trigger] put(p, key, bytes)[i]) == (if p[i].0 == key {
                (key, bytes)
            } else {
                p[i]
            }),
    decreases p.len(),
{
    let q = put(p, key, bytes);
    if p.len() == 0 {
        assert(q =~= p.push((key, bytes)));
    } else if p[0].0 == key {
        assert(stands_at(p, key, 0));
    } else {
        let rest = p.subrange(1, p.len() as int);
        assert forall|i: int, j: int| 0 <= i < j < rest.len() implies (#[trigger] rest[i]).0 != (
        #[trigger] rest[j]).0 by {
            assert(p[i + 1].0 != p[j + 1].0);
        }
        lemma_put(rest, key, bytes);
        let more = put(rest, key, bytes);
        assert(has_key(p, key) == has_key(rest, key)) by {
            if has_key(p, key) {
                let i = choose|i: int| 0 <= i < p.len() && (#[trigger] p[i]).0 == key;
                assert(rest[i - 1].0 == key);
            }
            if has_key(rest, key) {
                let i = choose|i: int| 0 <= i < rest.len() && (#[trigger] rest[i]).0 == key;
                assert(p[i + 1].0 == key);
            }
        }
        if !has_key(rest, key) {
            assert(q =~= p.push((key, bytes)));
        }
        assert forall|i: int| 0 <= i < p.len() implies (#[trigger] q[i]) == (if p[i].0 == key {
            (key, bytes)
        } else {
            p[i]
        }) by {
            if i > 0 {
                assert(q[i] == more[i - 1]);
                assert(rest[i - 1] == p[i]);
            }
        }
        assert forall|i: int, j: int| 0 <= i < j < q.len() implies (#[trigger] q[i]).0 != (
        #[trigger] q[j]).0 by {
            assert(q[j] == more[j - 1]);
            if i > 0 {
                assert(q[i] == more[i - 1]);
            } else if j < p.len() {
                assert(p[0].0 != p[j].0);
            }
        }
    }
}

/// However a queue is used from its start on, when nothing is pending, no name is pending
/// twice among the bodies or among the blobs.
pub proof fn law_each_payload_is_pending_once(start: SpecQueue, steps: Seq<QueueStep>)
    requires
        start.drained(),
    ensures
        distinct(used(start, steps).bodies),
        distinct(used(start, steps).blobs),
    decreases steps.len(),
{
    if steps.len() > 0 {
        law_each_payload_is_pending_once(start, steps.drop_last());
        let q = used(start, steps.drop_last());
        match steps.last() {
            QueueStep::Push(SpecOp::Body { key, bytes }) => lemma_put(q.bodies, key, bytes),
            QueueStep::Push(SpecOp::Blob { cid, bytes }) => {
                if !has_key(q.blobs, cid) {
                    assert forall|i: int| 0 <= i < q.blobs.len() implies (#[trigger] q.blobs[i]).0
                        != cid by {}
                }
            },
            QueueStep::Pop => {
                if q.bodies.len() > 0 {
                    let rest = q.bodies.remove(0);
                    assert forall|i: int, j: int| 0 <= i < j < rest.len() implies (
                    #[trigger] rest[i]).0 != (#[trigger] rest[j]).0 by {
                        assert(q.bodies[i + 1].0 != q.bodies[j + 1].0);
                    }
                } else if q.blobs.len() > 0 {
                    let rest = q.blobs.remove(0);
                    assert forall|i: int, j: int| 0 <= i < j < rest.len() implies (
                    #[trigger] rest[i]).0 != (#[trigger] rest[j]).0 by {
                        assert(q.blobs[i + 1].0 != q.blobs[j + 1].0);
                    }
                }
            },
            _ => {},
        }
    }
}

/// Payloads go out in the order in which they were first put in: a new one waits behind all
/// others, and one that is pending keeps its place, a body with its new bytes.
pub proof fn law_first_in_first_out(q: SpecQueue, key: Seq<char>, bytes: Seq<u8>)
    requires
        distinct(q.bodies),
    ensures
        !has_key(q.bodies, key) ==> q.pushed(SpecOp::Body { key, bytes }).bodies == q.bodies.push(
            (key, bytes),
        ),
        has_key(q.bodies, key) ==> q.pushed(SpecOp::Body { key, bytes }).bodies.len()
            == q.bodies.len(),
        forall|i: int|
            0 <= i < q.bodies.len() ==> (#[trigger] q.pushed(SpecOp::Body { key, bytes }).bodies[i])
                == (if q.bodies[i].0 == key {
                (key, bytes)
            } else {
                q.bodies[i]
            }),
        q.completed.contains(key) || has_key(q.blobs, key) ==> q.pushed(
            SpecOp::Blob { cid: key, bytes },
        ) == q,
        !q.completed.contains(key) && !has_key(q.blobs, key) ==> q.pushed(
            SpecOp::Blob { cid: key, bytes },
        ) == (SpecQueue { blobs: q.blobs.push((key, bytes)), ..q }),
{
    lemma_put(q.bodies, key, bytes);
}

proof fn lemma_kept_stays(q: SpecQueue, cid: Seq<char>, steps: Seq<QueueStep>)
    requires
        q.completed.contains(cid),
    ensures
        used(q, steps).completed.contains(cid),
    decreases steps.len(),
{
    if steps.len() > 0 {
        lemma_kept_stays(q, cid, steps.drop_last());
    }
}

/// Knowing that a write is kept changes nothing that is pending, and of anything but a blob
/// nothing at all. A blob that is known to be kept is not taken again, however the queue is
/// used in between.
pub proof fn law_kept_blobs_are_not_taken_again(
    q: SpecQueue,
    w: SpecOp,
    cid: Seq<char>,
    bytes: Seq<u8>,
    again: Seq<u8>,
    steps: Seq<QueueStep>,
)
    ensures
        q.succeeded(w) == (SpecQueue { completed: q.succeeded(w).completed, ..q }),
        !(w is Blob) ==> q.succeeded(w) == q,
        ({
            let later = used(q.succeeded(SpecOp::Blob { cid, bytes }), steps);
            later.pushed(SpecOp::Blob { cid, bytes: again }) == later
        }),
{
    lemma_kept_stays(q.succeeded(SpecOp::Blob { cid, bytes }), cid, steps);
}

/// A snapshot is written with its latest bytes only, and a second push of one leaves no
/// trace of the first; so with a body.
pub proof fn law_latest_bytes_win(q: SpecQueue, key: Seq<char>, first: Seq<u8>, second: Seq<u8>)
    ensures
        q.pushed(SpecOp::Index(first)).pushed(SpecOp::Index(second)) == q.pushed(
            SpecOp::Index(second),
        ),
        q.pushed(SpecOp::Prefs(first)).pushed(SpecOp::Prefs(second)) == q.pushed(
            SpecOp::Prefs(second),
        ),
        q.pushed(SpecOp::Body { key, bytes: first }).pushed(SpecOp::Body { key, bytes: second })
            == q.pushed(SpecOp::Body { key, bytes: second }),
{
    lemma_put_twice(q.bodies, key, first, second);
}

proof fn lemma_put_twice(p: Pending, key: Seq<char>, first: Seq<u8>, second: Seq<u8>)
    ensures
        put(put(p, key, first), key, second) == put(p, key, second),
    decreases p.len(),
{
    if p.len() == 0 {
        assert(put(put(p, key, first), key, second) =~= put(p, key, second));
    } else if p[0].0 == key {
        assert(put(put(p, key, first), key, second) =~= put(p, key, second));
    } else {
        let rest = p.subrange(1, p.len() as int);
        lemma_put_twice(rest, key, first, second);
        let once = put(p, key, first);
        assert(once.subrange(1, once.len() as int) =~= put(rest, key, first));
    }
}

/// A blob is written once: after it is known to be kept, pushing it again changes
/// nothing. A blob whose write failed is taken again.
pub proof fn law_blobs_are_written_once(
    q: SpecQueue,
    cid: Seq<char>,
    bytes: Seq<u8>,
    again: Seq<u8>,
)
    ensures
        q.succeeded(SpecOp::Blob { cid, bytes }).pushed(SpecOp::Blob { cid, bytes: again })
            == q.succeeded(SpecOp::Blob { cid, bytes }),
        !q.completed.contains(cid) && !has_key(q.blobs, cid) ==> q.pushed(
            SpecOp::Blob { cid, bytes: again },
        ).blobs == q.blobs.push((cid, again)),
{
}

} // verus!
