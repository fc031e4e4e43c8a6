//! JSON values: the executable type [`Json`] and its mathematical view [`Jv`].

use vstd::prelude::*;

use crate::number::integer_of;

verus! {

/// A JSON value as mathematics sees it.
///
/// Integers are integers; every other number is carried as the opaque `serde_json` number that
/// it arrived as. An object is a map from member names to values.
#[verifier::ext_equal]
pub enum Jv {
    Null,
    Bool(bool),
    Int(int),
    Decimal(serde_json::Number),
    Str(Seq<char>),
    Array(Seq<Jv>),
    Object(Map<Seq<char>, Jv>),
}

impl Jv {
    /// The member `key` of an object.
    pub open spec fn get(self, key: Seq<char>) -> Option<Jv> {
        match self {
            Jv::Object(m) => if m.dom().contains(key) {
                Some(m[key])
            } else {
                None
            },
            _ => None,
        }
    }

    pub open spec fn text(self) -> Option<Seq<char>> {
        match self {
            Jv::Str(s) => Some(s),
            _ => None,
        }
    }

    pub open spec fn items(self) -> Option<Seq<Jv>> {
        match self {
            Jv::Array(items) => Some(items),
            _ => None,
        }
    }

    pub open spec fn boolean(self) -> Option<bool> {
        match self {
            Jv::Bool(b) => Some(b),
            _ => None,
        }
    }

    /// The integer that fits an unsigned 64-bit word.
    pub open spec fn unsigned(self) -> Option<u64> {
        match self {
            Jv::Int(n) => if 0 <= n <= u64::MAX {
                Some(n as u64)
            } else {
                None
            },
            _ => None,
        }
    }

    /// The integer that fits a signed 64-bit word.
    pub open spec fn signed(self) -> Option<i64> {
        match self {
            Jv::Int(n) => if i64::MIN <= n <= i64::MAX {
                Some(n as i64)
            } else {
                None
            },
            _ => None,
        }
    }

    /// The member `key`, where it is a string.
    pub open spec fn text_at(self, key: Seq<char>) -> Option<Seq<char>> {
        match self.get(key) {
            Some(v) => v.text(),
            None => None,
        }
    }

    /// The member `key`, where it is a string, and `default` elsewhere.
    pub open spec fn text_or(self, key: Seq<char>, default: Seq<char>) -> Seq<char> {
        match self.text_at(key) {
            Some(s) => s,
            None => default,
        }
    }

    /// The member `key`, where it is an array.
    pub open spec fn items_at(self, key: Seq<char>) -> Option<Seq<Jv>> {
        match self.get(key) {
            Some(v) => v.items(),
            None => None,
        }
    }

    /// The member `key`, where it is an array, and nothing elsewhere.
    pub open spec fn items_or_none(self, key: Seq<char>) -> Seq<Jv> {
        match self.items_at(key) {
            Some(items) => items,
            None => Seq::empty(),
        }
    }

    pub open spec fn unsigned_or(self, key: Seq<char>, default: u64) -> u64 {
        match self.get(key) {
            Some(v) => match v.unsigned() {
                Some(n) => n,
                None => default,
            },
            None => default,
        }
    }

    pub open spec fn bool_or(self, key: Seq<char>, default: bool) -> bool {
        match self.get(key) {
            Some(v) => match v.boolean() {
                Some(b) => b,
                None => default,
            },
            None => default,
        }
    }

    /// The member `key`, and `default` where there is none.
    pub open spec fn get_or(self, key: Seq<char>, default: Jv) -> Jv {
        match self.get(key) {
            Some(v) => v,
            None => default,
        }
    }

    /// Whether a member can be set: objects take it, and null turns into an object.
    pub open spec fn is_settable(self) -> bool {
        self is Object || self is Null
    }

    /// The object with the member `key` set to `value`; null counts as the empty object.
    pub open spec fn put(self, key: Seq<char>, value: Jv) -> Jv {
        match self {
            Jv::Object(m) => Jv::Object(m.insert(key, value)),
            Jv::Null => Jv::Object(Map::<Seq<char>, Jv>::empty().insert(key, value)),
            _ => self,
        }
    }

    /// The object without the member `key`; every other value as it is.
    pub open spec fn without(self, key: Seq<char>) -> Jv {
        match self {
            Jv::Object(m) => Jv::Object(m.remove(key)),
            _ => self,
        }
    }
}

/// The object without members.
pub open spec fn empty_object() -> Jv {
    Jv::Object(Map::empty())
}

/// A JSON value.
#[derive(Debug)]
pub enum Json {
    Null,
    Bool(bool),
    Unsigned(u64),
    Signed(i64),
    Decimal(serde_json::Number),
    Str(String),
    Array(Vec<Json>),
    /// The members of an object; of two members with one name the later one counts.
    Object(Vec<(String, Json)>),
}

/// What a `serde_json::Number` stands for.
pub open spec fn number_view(n: serde_json::Number) -> Jv {
    match integer_of(n) {
        Some(i) => Jv::Int(i),
        None => Jv::Decimal(n),
    }
}

pub open spec fn value_view(v: Json) -> Jv
    decreases v,
{
    match v {
        Json::Null => Jv::Null,
        Json::Bool(b) => Jv::Bool(b),
        Json::Unsigned(n) => Jv::Int(n as int),
        Json::Signed(n) => Jv::Int(n as int),
        Json::Decimal(n) => number_view(n),
        Json::Str(s) => Jv::Str(s@),
        Json::Array(items) => Jv::Array(
            Seq::new(
                items@.len(),
                |i: int|
                    if 0 <= i < items@.len() {
                        value_view(items@[i])
                    } else {
                        Jv::Null
                    },
            ),
        ),
        Json::Object(members) => Jv::Object(members_view(members@)),
    }
}

pub open spec fn members_view(members: Seq<(String, Json)>) -> Map<Seq<char>, Jv>
    decreases members,
{
    if members.len() == 0 {
        Map::empty()
    } else {
        members_view(members.subrange(0, members.len() - 1)).insert(
            members[members.len() - 1].0@,
            value_view(members[members.len() - 1].1),
        )
    }
}

impl View for Json {
    type V = Jv;

    open spec fn view(&self) -> Jv {
        value_view(*self)
    }
}

/// The views of a list of values.
pub open spec fn views(items: Seq<Json>) -> Seq<Jv> {
    Seq::new(items.len(), |i: int| items[i]@)
}

pub open spec fn opt_view(v: Option<&Json>) -> Option<Jv> {
    match v {
        Some(x) => Some(x@),
        None => None,
    }
}

pub open spec fn opt_text(v: Option<&str>) -> Option<Seq<char>> {
    match v {
        Some(x) => Some(x@),
        None => None,
    }
}

pub broadcast proof fn lemma_array_view(items: Vec<Json>)
    ensures
        #[trigger] value_view(Json::Array(items)) == Jv::Array(views(items@)),
{
    assert(value_view(Json::Array(items))->Array_0 =~= views(items@));
}

pub broadcast proof fn lemma_object_view(members: Vec<(String, Json)>)
    ensures
        #[trigger] value_view(Json::Object(members)) == Jv::Object(members_view(members@)),
{
}

pub broadcast proof fn lemma_members_push(members: Seq<(String, Json)>, entry: (String, Json))
    ensures
        #[trigger] members_view(members.push(entry)) == members_view(members).insert(
            entry.0@,
            entry.1@,
        ),
{
    assert(members.push(entry).subrange(0, members.len() as int) =~= members);
}

pub broadcast proof fn lemma_views_push(items: Seq<Json>, item: Json)
    ensures
        #[trigger] views(items.push(item)) == views(items).push(item@),
{
    assert(views(items.push(item)) =~= views(items).push(item@));
}

pub broadcast group group_json {
    lemma_array_view,
    lemma_object_view,
    lemma_members_push,
    lemma_views_push,
}

} // verus!
