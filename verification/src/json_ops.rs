//! The operations that the rest of the proxy builds and reads JSON values with.

use vstd::prelude::*;

use crate::json::{
    empty_object, group_json, members_view, opt_text, opt_view, views, Json, Jv,
};
use crate::number::copy_number;
use crate::text::same;

verus! {

broadcast use group_json;

impl Json {
    /// The object without members.
    pub fn object() -> (r: Json)
        ensures
            r@ == empty_object(),
    {
        let members: Vec<(String, Json)> = Vec::new();
        assert(members_view(members@) =~= Map::empty());
        Json::Object(members)
    }

    pub fn text(s: &str) -> (r: Json)
        ensures
            r@ == Jv::Str(s@),
    {
        Json::Str(s.to_owned())
    }

    pub fn count(n: usize) -> (r: Json)
        ensures
            r@ == Jv::Int(n as int),
    {
        Json::Unsigned(n as u64)
    }

    /// The member `key` of an object.
    pub fn get(&self, key: &str) -> (r: Option<&Json>)
        ensures
            opt_view(r) == self@.get(key@),
    {
        match self {
            Json::Object(members) => {
                let mut i: usize = members.len();
                proof {
                    assert(members@.subrange(0, members@.len() as int) =~= members@);
                }
                while i > 0
                    invariant
                        i <= members@.len(),
                        *self == Json::Object(*members),
                        members_view(members@).dom().contains(key@) == members_view(
                            members@.subrange(0, i as int),
                        ).dom().contains(key@),
                        members_view(members@).dom().contains(key@) ==> members_view(members@)[key@]
                            == members_view(members@.subrange(0, i as int))[key@],
                    decreases i,
                {
                    i = i - 1;
                    proof {
                        let head = members@.subrange(0, i as int);
                        assert(members@.subrange(0, i + 1) =~= head.push(members@[i as int]));
                    }
                    if same(members[i].0.as_str(), key) {
                        return Some(&members[i].1);
                    }
                }
                None
            },
            _ => None,
        }
    }

    pub fn as_str(&self) -> (r: Option<&str>)
        ensures
            opt_text(r) == self@.text(),
    {
        match self {
            Json::Str(s) => Some(s.as_str()),
            _ => None,
        }
    }

    pub fn as_array(&self) -> (r: Option<&Vec<Json>>)
        ensures
            (match r {
                Some(items) => self@.items() == Some(views(items@)),
                None => self@.items() is None,
            }),
    {
        match self {
            Json::Array(items) => Some(items),
            _ => None,
        }
    }

    pub fn as_bool(&self) -> (r: Option<bool>)
        ensures
            r == self@.boolean(),
    {
        match self {
            Json::Bool(b) => Some(*b),
            _ => None,
        }
    }

    pub fn as_u64(&self) -> (r: Option<u64>)
        ensures
            r == self@.unsigned(),
    {
        match self {
            Json::Unsigned(n) => Some(*n),
            Json::Signed(n) => if *n >= 0 {
                Some(*n as u64)
            } else {
                None
            },
            Json::Decimal(n) => n.as_u64(),
            _ => None,
        }
    }

    pub fn as_i64(&self) -> (r: Option<i64>)
        ensures
            r == self@.signed(),
    {
        match self {
            Json::Unsigned(n) => if *n <= 0x7fff_ffff_ffff_ffff {
                Some(*n as i64)
            } else {
                None
            },
            Json::Signed(n) => Some(*n),
            Json::Decimal(n) => n.as_i64(),
            _ => None,
        }
    }

    pub fn is_null(&self) -> (r: bool)
        ensures
            r == (self@ is Null),
    {
        match self {
            Json::Null => true,
            _ => false,
        }
    }

    pub fn is_settable(&self) -> (r: bool)
        ensures
            r == self@.is_settable(),
    {
        match self {
            Json::Null => true,
            Json::Object(_) => true,
            _ => false,
        }
    }

    /// The member `key`, where it is a string.
    pub fn text_at(&self, key: &str) -> (r: Option<&str>)
        ensures
            opt_text(r) == self@.text_at(key@),
    {
        match self.get(key) {
            Some(v) => v.as_str(),
            None => None,
        }
    }

    /// The member `key`, where it is a string, and `default` elsewhere.
    pub fn text_or<'a>(&'a self, key: &str, default: &'a str) -> (r: &'a str)
        ensures
            r@ == self@.text_or(key@, default@),
    {
        match self.text_at(key) {
            Some(s) => s,
            None => default,
        }
    }

    /// Whether the member `key` is the string `expected`.
    pub fn text_is(&self, key: &str, expected: &str) -> (r: bool)
        ensures
            r == (self@.text_at(key@) == Some(expected@)),
    {
        match self.text_at(key) {
            Some(s) => same(s, expected),
            None => false,
        }
    }

    /// The member `key`, where it is an array.
    pub fn items_at(&self, key: &str) -> (r: Option<&Vec<Json>>)
        ensures
            (match r {
                Some(items) => self@.items_at(key@) == Some(views(items@)),
                None => self@.items_at(key@) is None,
            }),
    {
        match self.get(key) {
            Some(v) => v.as_array(),
            None => None,
        }
    }

    /// A copy of the member `key`, where it is an array, and nothing elsewhere.
    pub fn items_or_none(&self, key: &str) -> (r: Vec<Json>)
        ensures
            views(r@) == self@.items_or_none(key@),
    {
        match self.items_at(key) {
            Some(items) => copy_items(items),
            None => Vec::new(),
        }
    }

    pub fn unsigned_or(&self, key: &str, default: u64) -> (r: u64)
        ensures
            r == self@.unsigned_or(key@, default),
    {
        match self.get(key) {
            Some(v) => match v.as_u64() {
                Some(n) => n,
                None => default,
            },
            None => default,
        }
    }

    pub fn bool_or(&self, key: &str, default: bool) -> (r: bool)
        ensures
            r == self@.bool_or(key@, default),
    {
        match self.get(key) {
            Some(v) => match v.as_bool() {
                Some(b) => b,
                None => default,
            },
            None => default,
        }
    }

    /// A copy of the member `key`, and `default` where there is none.
    pub fn get_or(&self, key: &str, default: Json) -> (r: Json)
        ensures
            r@ == self@.get_or(key@, default@),
    {
        match self.get(key) {
            Some(v) => v.clone(),
            None => default,
        }
    }

    /// Takes the member `key` out of an object.
    pub fn remove(&mut self, key: &str) -> (r: Option<Json>)
        ensures
            (match r {
                Some(v) => old(self)@.get(key@) == Some(v@),
                None => old(self)@.get(key@) is None,
            }),
            final(self)@ == old(self)@.without(key@),
    {
        match self {
            Json::Object(members) => {
                let mut kept: Vec<(String, Json)> = Vec::new();
                let mut found: Option<Json> = None;
                let ghost all = members@;
                proof {
                    assert(all.subrange(0, all.len() as int) =~= all);
                }
                reverse_members(members);
                while members.len() > 0
                    invariant
                        members@.len() <= all.len(),
                        members@ == all.subrange(all.len() - members@.len(), all.len() as int).reverse(),
                        members_view(kept@) =~= members_view(
                            all.subrange(0, all.len() - members@.len()),
                        ).remove(key@),
                        (match found {
                            Some(v) => members_view(all.subrange(0, all.len() - members@.len())).dom().contains(key@)
                                && members_view(all.subrange(0, all.len() - members@.len()))[key@] == v@,
                            None => !members_view(all.subrange(0, all.len() - members@.len())).dom().contains(key@),
                        }),
                    decreases members@.len(),
                {
                    let entry = members.pop().unwrap();
                    proof {
                        let k = all.len() - members@.len() - 1;
                        assert(entry == all[k]);
                        assert(all.subrange(0, k + 1) =~= all.subrange(0, k).push(entry));
                        assert(members@ =~= all.subrange(k + 1, all.len() as int).reverse());
                    }
                    if same(entry.0.as_str(), key) {
                        found = Some(entry.1);
                    } else {
                        kept.push(entry);
                    }
                }
                *members = kept;
                found
            },
            _ => None,
        }
    }

    /// Sets the member `key` of an object; null turns into an object first.
    pub fn set(&mut self, key: &str, value: Json)
        requires
            old(self)@.is_settable(),
        ensures
            final(self)@ == old(self)@.put(key@, value@),
    {
        if self.is_null() {
            *self = Json::object();
        }
        let ghost before = self@->Object_0;
        self.remove(key);
        proof {
            assert(before.remove(key@).insert(key@, value@) =~= before.insert(key@, value@));
        }
        match self {
            Json::Object(members) => {
                members.push((key.to_owned(), value));
            },
            _ => {},
        }
    }

    /// The object with one more member.
    pub fn with(self, key: &str, value: Json) -> (r: Json)
        requires
            self@ is Object,
        ensures
            r@ == self@.put(key@, value@),
    {
        let mut r = self;
        r.set(key, value);
        r
    }
}

fn reverse_members(members: &mut Vec<(String, Json)>)
    ensures
        final(members)@ == old(members)@.reverse(),
{
    let mut reversed: Vec<(String, Json)> = Vec::new();
    let ghost all = members@;
    while members.len() > 0
        invariant
            members@.len() <= all.len(),
            members@ == all.take(members@.len() as int),
            reversed@ == all.skip(members@.len() as int).reverse(),
        decreases members@.len(),
    {
        let entry = members.pop().unwrap();
        reversed.push(entry);
        assert(reversed@ =~= all.skip(members@.len() as int).reverse());
    }
    assert(all.skip(0) =~= all);
    *members = reversed;
}

/// A copy of a list of values.
pub fn copy_items(items: &Vec<Json>) -> (r: Vec<Json>)
    ensures
        views(r@) == views(items@),
    decreases items,
{
    let mut r: Vec<Json> = Vec::new();
    let mut i: usize = 0;
    while i < items.len()
        invariant
            i <= items@.len(),
            views(r@) == views(items@).take(i as int),
        decreases items@.len() - i,
    {
        r.push(items[i].clone());
        i = i + 1;
        assert(views(items@).take(i as int) =~= views(items@).take(i - 1).push(items@[i - 1]@));
    }
    assert(views(items@).take(i as int) =~= views(items@));
    r
}

impl Clone for Json {
    fn clone(&self) -> (r: Json)
        ensures
            r@ == self@,
        decreases self,
    {
        match self {
            Json::Null => Json::Null,
            Json::Bool(b) => Json::Bool(*b),
            Json::Unsigned(n) => Json::Unsigned(*n),
            Json::Signed(n) => Json::Signed(*n),
            Json::Decimal(n) => Json::Decimal(copy_number(n)),
            Json::Str(s) => Json::Str(s.clone()),
            Json::Array(items) => Json::Array(copy_items(items)),
            Json::Object(members) => {
                let mut r: Vec<(String, Json)> = Vec::new();
                let mut i: usize = 0;
                assert(members@.take(0) =~= Seq::empty());
                while i < members.len()
                    invariant
                        i <= members@.len(),
                        *self == Json::Object(*members),
                        members_view(r@) == members_view(members@.take(i as int)),
                    decreases members@.len() - i,
                {
                    assert(decreases_to!(*self => self->Object_0));
                    assert(decreases_to!(*members => members@));
                    assert(decreases_to!(members@ => members@[i as int]));
                    assert(decreases_to!(members@[i as int] => members@[i as int].1));
                    r.push((members[i].0.clone(), members[i].1.clone()));
                    i = i + 1;
                    assert(members@.take(i as int) =~= members@.take(i - 1).push(members@[i - 1]));
                }
                assert(members@.take(i as int) =~= members@);
                Json::Object(r)
            },
        }
    }
}

} // verus!
