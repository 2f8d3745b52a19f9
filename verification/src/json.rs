//! JSON values as the decoders read them.
//!
//! Parsing is `serde_json`'s; a parsed value is unfolded node by node into
//! [`Json`], which keeps what the decoders look at (of a number, only whether it
//! is an unsigned integer, and which).
use vstd::prelude::*;

use crate::text::same;

verus! {

/// A JSON value.
#[derive(Debug, PartialEq)]
pub enum Json {
    Null,
    Bool(bool),
    /// A number that is an unsigned integer of at most 64 bits.
    Uint(u64),
    /// Any other number.
    Number,
    Str(String),
    Array(Vec<Json>),
    /// Members by name, each name at most once.
    Object(Vec<(String, Json)>),
}

/// [`Json`] over sequences.
pub enum SpecJson {
    Null,
    Bool(bool),
    Uint(u64),
    Number,
    Str(Seq<char>),
    Array(Seq<SpecJson>),
    Object(Seq<(Seq<char>, SpecJson)>),
}

/// A value by its view.
pub open spec fn json_view(x: Json) -> SpecJson
    decreases x,
{
    match x {
        Json::Null => SpecJson::Null,
        Json::Bool(b) => SpecJson::Bool(b),
        Json::Uint(n) => SpecJson::Uint(n),
        Json::Number => SpecJson::Number,
        Json::Str(s) => SpecJson::Str(s@),
        Json::Array(a) => SpecJson::Array(array_view(a@)),
        Json::Object(m) => SpecJson::Object(members_view(m@)),
    }
}

/// Array elements by their views.
pub open spec fn array_view(s: Seq<Json>) -> Seq<SpecJson>
    decreases s,
{
    if s.len() == 0 {
        Seq::empty()
    } else {
        array_view(s.drop_last()).push(json_view(s.last()))
    }
}

/// Object members by their views.
pub open spec fn members_view(s: Seq<(String, Json)>) -> Seq<(Seq<char>, SpecJson)>
    decreases s,
{
    if s.len() == 0 {
        Seq::empty()
    } else {
        members_view(s.drop_last()).push((s.last().0@, json_view(s.last().1)))
    }
}

impl View for Json {
    type V = SpecJson;

    open spec fn view(&self) -> SpecJson {
        json_view(*self)
    }
}

/// `array_view` works element by element.
pub broadcast proof fn lemma_array_view(s: Seq<Json>)
    ensures
        (#[trigger] array_view(s)).len() == s.len(),
        forall|i: int| 0 <= i < s.len() ==> #[trigger] array_view(s)[i] == json_view(s[i]),
    decreases s.len(),
{
    if s.len() > 0 {
        lemma_array_view(s.drop_last());
    }
}

/// `members_view` works element by element.
pub broadcast proof fn lemma_members_view(s: Seq<(String, Json)>)
    ensures
        (#[trigger] members_view(s)).len() == s.len(),
        forall|i: int|
            0 <= i < s.len() ==> #[trigger] members_view(s)[i] == (s[i].0@, json_view(s[i].1)),
    decreases s.len(),
{
    if s.len() > 0 {
        lemma_members_view(s.drop_last());
    }
}

/// Appending an element appends its view.
pub broadcast proof fn lemma_array_push(s: Seq<Json>, x: Json)
    ensures
        #[trigger] array_view(s.push(x)) == array_view(s).push(json_view(x)),
{
    assert(s.push(x).drop_last() =~= s);
}

/// Appending a member appends its view.
pub broadcast proof fn lemma_members_push(s: Seq<(String, Json)>, x: (String, Json))
    ensures
        #[trigger] members_view(s.push(x)) == members_view(s).push((x.0@, json_view(x.1))),
{
    assert(s.push(x).drop_last() =~= s);
}

/// The value of the first member called `key` at or after position `i`.
pub open spec fn member_from(m: Seq<(Seq<char>, SpecJson)>, key: Seq<char>, i: int) -> Option<
    SpecJson,
>
    decreases m.len() - i,
{
    if i < 0 || i >= m.len() {
        None
    } else if m[i].0 == key {
        Some(m[i].1)
    } else {
        member_from(m, key, i + 1)
    }
}

impl SpecJson {
    /// The member called `key`, if this is an object that has one.
    pub open spec fn get(self, key: Seq<char>) -> Option<SpecJson> {
        match self {
            SpecJson::Object(m) => member_from(m, key, 0),
            _ => None,
        }
    }

    /// The characters, if this is a string.
    pub open spec fn as_str(self) -> Option<Seq<char>> {
        match self {
            SpecJson::Str(s) => Some(s),
            _ => None,
        }
    }

    /// The elements, if this is an array.
    pub open spec fn as_array(self) -> Option<Seq<SpecJson>> {
        match self {
            SpecJson::Array(a) => Some(a),
            _ => None,
        }
    }

    /// The number, if this is an unsigned integer.
    pub open spec fn as_u64(self) -> Option<u64> {
        match self {
            SpecJson::Uint(n) => Some(n),
            _ => None,
        }
    }

    /// The flag, if this is a boolean.
    pub open spec fn as_bool(self) -> Option<bool> {
        match self {
            SpecJson::Bool(b) => Some(b),
            _ => None,
        }
    }

    /// The string member called `key`.
    pub open spec fn get_str(self, key: Seq<char>) -> Option<Seq<char>> {
        match self.get(key) {
            Some(v) => v.as_str(),
            None => None,
        }
    }

    /// The array member called `key`.
    pub open spec fn get_array(self, key: Seq<char>) -> Option<Seq<SpecJson>> {
        match self.get(key) {
            Some(v) => v.as_array(),
            None => None,
        }
    }

    /// The unsigned integer member called `key`.
    pub open spec fn get_u64(self, key: Seq<char>) -> Option<u64> {
        match self.get(key) {
            Some(v) => v.as_u64(),
            None => None,
        }
    }

    /// The string member called `key`, or `fallback`.
    pub open spec fn get_str_or(self, key: Seq<char>, fallback: Seq<char>) -> Seq<char> {
        match self.get_str(key) {
            Some(s) => s,
            None => fallback,
        }
    }

    /// This object with the member `key` set to `value`; anything else unchanged.
    pub open spec fn with_member(self, key: Seq<char>, value: SpecJson) -> SpecJson {
        match self {
            SpecJson::Object(m) => SpecJson::Object(set_member(m, key, value)),
            _ => self,
        }
    }
}

/// `m` with its first member called `key` set to `value`, or appended if there is
/// none.
pub open spec fn set_member(
    m: Seq<(Seq<char>, SpecJson)>,
    key: Seq<char>,
    value: SpecJson,
) -> Seq<(Seq<char>, SpecJson)>
    decreases m.len(),
{
    if m.len() == 0 {
        seq![(key, value)]
    } else if m[0].0 == key {
        m.update(0, (key, value))
    } else {
        seq![m[0]] + set_member(m.subrange(1, m.len() as int), key, value)
    }
}

/// A member that was set is read back; other members are as they were.
pub proof fn law_set_member_reads_back(
    m: Seq<(Seq<char>, SpecJson)>,
    key: Seq<char>,
    value: SpecJson,
    other: Seq<char>,
)
    ensures
        SpecJson::Object(set_member(m, key, value)).get(key) == Some(value),
        other != key ==> SpecJson::Object(set_member(m, key, value)).get(other)
            == SpecJson::Object(m).get(other),
    decreases m.len(),
{
    if m.len() == 0 {
        assert(member_from(set_member(m, key, value), other, 1) is None);
    } else if m[0].0 == key {
        lemma_member_shift(m, other, 1);
        lemma_member_shift(m.update(0, (key, value)), other, 1);
        assert(m.update(0, (key, value)).subrange(1, m.len() as int) =~= m.subrange(
            1,
            m.len() as int,
        ));
    } else {
        let rest = m.subrange(1, m.len() as int);
        law_set_member_reads_back(rest, key, value, other);
        let set = set_member(m, key, value);
        assert(set.subrange(1, set.len() as int) =~= set_member(rest, key, value));
        lemma_member_shift(set, key, 1);
        lemma_member_shift(set, other, 1);
        lemma_member_shift(m, other, 1);
    }
}

/// Looking from `k` on is looking in what is left after dropping `k` members.
proof fn lemma_member_shift(m: Seq<(Seq<char>, SpecJson)>, key: Seq<char>, k: int)
    requires
        0 <= k <= m.len(),
    ensures
        member_from(m, key, k) == member_from(m.subrange(k, m.len() as int), key, 0),
{
    lemma_member_shift_at(m, key, k, k);
}

proof fn lemma_member_shift_at(m: Seq<(Seq<char>, SpecJson)>, key: Seq<char>, k: int, i: int)
    requires
        0 <= k <= i <= m.len(),
    ensures
        member_from(m, key, i) == member_from(m.subrange(k, m.len() as int), key, i - k),
    decreases m.len() - i,
{
    if i < m.len() {
        lemma_member_shift_at(m, key, k, i + 1);
    }
}

/// A member of an object is smaller than the object.
pub proof fn lemma_member_smaller(x: SpecJson, key: Seq<char>)
    ensures
        x.get(key) matches Some(v) ==> decreases_to!(x => v),
        x.get_array(key) matches Some(a) ==> decreases_to!(x => a),
{
    if let SpecJson::Object(m) = x {
        lemma_member_found(m, key, 0);
        if let Some(v) = x.get(key) {
            let j = choose|j: int| 0 <= j < m.len() && v == (#[trigger] m[j]).1;
            assert(decreases_to!(x => x->Object_0[j].1));
            if let SpecJson::Array(a) = v {
                assert(decreases_to!(v => v->Array_0));
            }
        }
    }
}

proof fn lemma_member_found(m: Seq<(Seq<char>, SpecJson)>, key: Seq<char>, i: int)
    requires
        0 <= i <= m.len(),
    ensures
        member_from(m, key, i) matches Some(v) ==> exists|j: int|
            0 <= j < m.len() && v == (#[trigger] m[j]).1,
    decreases m.len() - i,
{
    if i < m.len() {
        lemma_member_found(m, key, i + 1);
    }
}

impl Json {
    /// The member called `key`, if this is an object that has one.
    pub fn get(&self, key: &str) -> (r: Option<&Json>)
        ensures
            match r {
                Some(v) => self@.get(key@) == Some(v@),
                None => self@.get(key@) is None,
            },
    {
        match self {
            Json::Object(m) => {
                broadcast use lemma_members_view;

                let mut i: usize = 0;
                while i < m.len()
                    invariant
                        i <= m@.len(),
                        self@ == SpecJson::Object(members_view(m@)),
                        member_from(members_view(m@), key@, 0) == member_from(
                            members_view(m@),
                            key@,
                            i as int,
                        ),
                    decreases m@.len() - i,
                {
                    broadcast use lemma_members_view;

                    if same(m[i].0.as_str(), key) {
                        return Some(&m[i].1);
                    }
                    i = i + 1;
                }
                None
            },
            _ => None,
        }
    }

    /// The characters, if this is a string.
    pub fn as_str(&self) -> (r: Option<&str>)
        ensures
            match r {
                Some(s) => self@.as_str() == Some(s@),
                None => self@.as_str() is None,
            },
    {
        match self {
            Json::Str(s) => Some(s.as_str()),
            _ => None,
        }
    }

    /// The elements, if this is an array.
    pub fn as_array(&self) -> (r: Option<&Vec<Json>>)
        ensures
            match r {
                Some(a) => self@.as_array() == Some(array_view(a@)),
                None => self@.as_array() is None,
            },
    {
        match self {
            Json::Array(a) => Some(a),
            _ => None,
        }
    }

    /// The number, if this is an unsigned integer.
    pub fn as_u64(&self) -> (r: Option<u64>)
        ensures
            r == self@.as_u64(),
    {
        match self {
            Json::Uint(n) => Some(*n),
            _ => None,
        }
    }

    /// The flag, if this is a boolean.
    pub fn as_bool(&self) -> (r: Option<bool>)
        ensures
            r == self@.as_bool(),
    {
        match self {
            Json::Bool(b) => Some(*b),
            _ => None,
        }
    }

    /// Whether this is a string.
    pub fn is_string(&self) -> (r: bool)
        ensures
            r == (self@ is Str),
    {
        match self {
            Json::Str(_) => true,
            _ => false,
        }
    }

    /// The string member called `key`.
    pub fn get_str(&self, key: &str) -> (r: Option<&str>)
        ensures
            match r {
                Some(s) => self@.get_str(key@) == Some(s@),
                None => self@.get_str(key@) is None,
            },
    {
        match self.get(key) {
            Some(v) => v.as_str(),
            None => None,
        }
    }

    /// The string member called `key`, or `fallback`.
    pub fn get_str_or<'a>(&'a self, key: &str, fallback: &'a str) -> (r: &'a str)
        ensures
            r@ == self@.get_str_or(key@, fallback@),
    {
        match self.get_str(key) {
            Some(s) => s,
            None => fallback,
        }
    }

    /// The array member called `key`.
    pub fn get_array(&self, key: &str) -> (r: Option<&Vec<Json>>)
        ensures
            match r {
                Some(a) => self@.get_array(key@) == Some(array_view(a@)),
                None => self@.get_array(key@) is None,
            },
    {
        match self.get(key) {
            Some(v) => v.as_array(),
            None => None,
        }
    }

    /// The unsigned integer member called `key`.
    pub fn get_u64(&self, key: &str) -> (r: Option<u64>)
        ensures
            r == self@.get_u64(key@),
    {
        match self.get(key) {
            Some(v) => v.as_u64(),
            None => None,
        }
    }

    /// This object with the member `key` set to `value`; anything else unchanged.
    pub fn with_member(self, key: &str, value: Json) -> (r: Json)
        ensures
            r@ == self@.with_member(key@, value@),
    {
        match self {
            Json::Object(m) => Json::Object(put_member(m, key, value)),
            other => other,
        }
    }
}

/// `m` with its first member called `key` set to `value`, or appended.
fn put_member(m: Vec<(String, Json)>, key: &str, value: Json) -> (r: Vec<(String, Json)>)
    ensures
        members_view(r@) == set_member(members_view(m@), key@, json_view(value)),
{
    broadcast use {lemma_members_view, lemma_members_push};

    let mut out = m;
    let ghost before = members_view(m@);
    let mut i: usize = 0;
    assert(before.subrange(0, before.len() as int) =~= before);
    assert(before.subrange(0, 0) + set_member(before, key@, json_view(value)) =~= set_member(
        before,
        key@,
        json_view(value),
    ));
    while i < out.len()
        invariant
            i <= out@.len(),
            before == members_view(m@),
            members_view(out@) == before,
            before.subrange(0, i as int) + set_member(
                before.subrange(i as int, before.len() as int),
                key@,
                json_view(value),
            ) == set_member(before, key@, json_view(value)),
        decreases out@.len() - i,
    {
        broadcast use {lemma_members_view, lemma_members_push};

        let ghost rest = before.subrange(i as int, before.len() as int);
        if same(out[i].0.as_str(), key) {
            out.set(i, (crate::text::owned(key), value));
            proof {
                lemma_members_view(out@);
                assert(members_view(out@) =~= before.subrange(0, i as int) + rest.update(
                    0,
                    (key@, json_view(value)),
                ));
            }
            return out;
        }
        proof {
            let tail = rest.subrange(1, rest.len() as int);
            assert(tail =~= before.subrange(i + 1, before.len() as int));
            assert(before.subrange(0, i as int) + (seq![rest[0]] + set_member(
                tail,
                key@,
                json_view(value),
            )) =~= before.subrange(0, i + 1) + set_member(tail, key@, json_view(value)));
        }
        i = i + 1;
    }
    assert(before.subrange(0, i as int) =~= before);
    out.push((crate::text::owned(key), value));
    assert(members_view(out@) =~= before + seq![(key@, json_view(value))]);
    out
}

/// A copy of a value.
pub fn copy_json(x: &Json) -> (r: Json)
    ensures
        r@ == x@,
    decreases x,
{
    match x {
        Json::Null => Json::Null,
        Json::Bool(b) => Json::Bool(*b),
        Json::Uint(n) => Json::Uint(*n),
        Json::Number => Json::Number,
        Json::Str(s) => Json::Str(s.clone()),
        Json::Array(a) => Json::Array(copy_array(a)),
        Json::Object(m) => Json::Object(copy_members(m)),
    }
}

fn copy_array(v: &Vec<Json>) -> (r: Vec<Json>)
    ensures
        array_view(r@) == array_view(v@),
    decreases v,
{
    broadcast use {lemma_array_view, lemma_array_push};

    let mut out: Vec<Json> = Vec::new();
    let mut i: usize = 0;
    while i < v.len()
        invariant
            i <= v@.len(),
            array_view(out@) == array_view(v@).take(i as int),
        decreases v@.len() - i,
    {
        broadcast use {lemma_array_view, lemma_array_push};

        out.push(copy_json(&v[i]));
        assert(array_view(v@).take(i as int).push(json_view(v@[i as int])) =~= array_view(v@).take(
            i + 1,
        ));
        i = i + 1;
    }
    assert(array_view(v@).take(v@.len() as int) =~= array_view(v@));
    out
}

fn copy_members(v: &Vec<(String, Json)>) -> (r: Vec<(String, Json)>)
    ensures
        members_view(r@) == members_view(v@),
    decreases v,
{
    broadcast use {lemma_members_view, lemma_members_push};

    let mut out: Vec<(String, Json)> = Vec::new();
    let mut i: usize = 0;
    while i < v.len()
        invariant
            i <= v@.len(),
            members_view(out@) == members_view(v@).take(i as int),
        decreases v@.len() - i,
    {
        broadcast use {lemma_members_view, lemma_members_push};

        let m = &v[i];
        out.push((m.0.clone(), copy_json(&m.1)));
        assert(members_view(v@).take(i as int).push((v@[i as int].0@, json_view(v@[i as int].1)))
            =~= members_view(v@).take(i + 1));
        i = i + 1;
    }
    assert(members_view(v@).take(v@.len() as int) =~= members_view(v@));
    out
}

// --- serde_json -------------------------------------------------------------------

/// `serde_json::Value`, a parsed JSON value.
#[verifier::external_type_specification]
#[verifier::external_body]
pub struct ExValue(serde_json::Value);

/// What a `serde_json::Value` holds.
pub uninterp spec fn value_content(v: serde_json::Value) -> SpecJson;

/// What `serde_json::from_slice` makes of `bytes` when asked for a
/// `serde_json::Value`: the value's content, or the error's message.
pub uninterp spec fn json_text(bytes: Seq<u8>) -> Result<SpecJson, Seq<char>>;

/// One node of a `serde_json::Value`, its children still values.
pub enum Node {
    Null,
    Bool(bool),
    Uint(u64),
    Number,
    Str(String),
    Array(Vec<serde_json::Value>),
    Object(Vec<(String, serde_json::Value)>),
}

/// What values in a list hold.
pub open spec fn values_content(s: Seq<serde_json::Value>) -> Seq<SpecJson> {
    s.map_values(|v: serde_json::Value| value_content(v))
}

/// What named values in a list hold.
pub open spec fn named_content(s: Seq<(String, serde_json::Value)>) -> Seq<(Seq<char>, SpecJson)> {
    s.map_values(|m: (String, serde_json::Value)| (m.0@, value_content(m.1)))
}

/// What a node holds.
pub open spec fn node_content(n: Node) -> SpecJson {
    match n {
        Node::Null => SpecJson::Null,
        Node::Bool(b) => SpecJson::Bool(b),
        Node::Uint(u) => SpecJson::Uint(u),
        Node::Number => SpecJson::Number,
        Node::Str(s) => SpecJson::Str(s@),
        Node::Array(a) => SpecJson::Array(values_content(a@)),
        Node::Object(m) => SpecJson::Object(named_content(m@)),
    }
}

/// `serde_json::from_slice` into a `serde_json::Value`. Whether it succeeds, what
/// the value holds and what the error says depend on the bytes alone.
#[verifier::external_body]
fn parse_value(bytes: &[u8]) -> (r: Result<serde_json::Value, String>)
    ensures
        match r {
            Ok(v) => json_text(bytes@) == Ok::<SpecJson, Seq<char>>(value_content(v)),
            Err(m) => json_text(bytes@) == Err::<SpecJson, Seq<char>>(m@),
        },
{
    serde_json::from_slice(bytes).map_err(|e: serde_json::Error| e.to_string())
}

/// The variants of `serde_json::Value` taken apart, one level deep: the node
/// holds what the value held. `Number::as_u64` tells unsigned integers from the
/// other numbers.
#[verifier::external_body]
fn open_value(v: serde_json::Value) -> (r: Node)
    ensures
        node_content(r) == value_content(v),
{
    match v {
        serde_json::Value::Null => Node::Null,
        serde_json::Value::Bool(b) => Node::Bool(b),
        serde_json::Value::Number(n) => n.as_u64().map_or(Node::Number, Node::Uint),
        serde_json::Value::String(s) => Node::Str(s),
        serde_json::Value::Array(a) => Node::Array(a),
        serde_json::Value::Object(m) => Node::Object(m.into_iter().collect()),
    }
}

/// A `serde_json::Value` as a [`Json`].
fn json_of(v: serde_json::Value) -> (r: Json)
    ensures
        r@ == value_content(v),
    decreases value_content(v),
{
    broadcast use {lemma_array_push, lemma_members_push};

    match open_value(v) {
        Node::Null => Json::Null,
        Node::Bool(b) => Json::Bool(b),
        Node::Uint(u) => Json::Uint(u),
        Node::Number => Json::Number,
        Node::Str(s) => Json::Str(s),
        Node::Array(a) => {
            let ghost whole = values_content(a@);
            let mut out: Vec<Json> = Vec::new();
            for x in it: a.into_iter()
                invariant
                    value_content(v) == SpecJson::Array(whole),
                    values_content(it.seq()) == whole,
                    array_view(out@) == whole.take(it.index() as int),
            {
                broadcast use lemma_array_push;

                assert(whole[it.index() as int] == value_content(x));
                assert(decreases_to!(value_content(v) => value_content(v)->Array_0[it.index()
                    as int]));
                out.push(json_of(x));
                assert(whole.take(it.index() as int).push(value_content(x)) =~= whole.take(
                    it.index() + 1,
                ));
            }
            assert(whole.take(whole.len() as int) =~= whole);
            Json::Array(out)
        },
        Node::Object(m) => {
            let ghost whole = named_content(m@);
            let mut out: Vec<(String, Json)> = Vec::new();
            for x in it: m.into_iter()
                invariant
                    value_content(v) == SpecJson::Object(whole),
                    named_content(it.seq()) == whole,
                    members_view(out@) == whole.take(it.index() as int),
            {
                broadcast use lemma_members_push;

                assert(whole[it.index() as int] == (x.0@, value_content(x.1)));
                assert(decreases_to!(value_content(v) => value_content(v)->Object_0[it.index()
                    as int].1));
                let (name, value) = x;
                out.push((name, json_of(value)));
                assert(whole.take(it.index() as int).push((x.0@, value_content(x.1)))
                    =~= whole.take(it.index() + 1));
            }
            assert(whole.take(whole.len() as int) =~= whole);
            Json::Object(out)
        },
    }
}

/// Parse `bytes` as JSON; the error is the parser's message.
pub fn parse_json(bytes: &[u8]) -> (r: Result<Json, String>)
    ensures
        match r {
            Ok(v) => json_text(bytes@) == Ok::<SpecJson, Seq<char>>(v@),
            Err(m) => json_text(bytes@) == Err::<SpecJson, Seq<char>>(m@),
        },
{
    match parse_value(bytes) {
        Ok(v) => Ok(json_of(v)),
        Err(m) => Err(m),
    }
}

} // verus!
