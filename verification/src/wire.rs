//! The boundary to `serde_json`: values in and out, and the text of a value.

use vstd::prelude::*;

use crate::json::{empty_object, group_json, members_view, number_view, views, Json, Jv};
use crate::number::{copy_number, signed_number, unsigned_number};
use crate::text::{is_white, same};

verus! {

broadcast use group_json;

/// `serde_json::Value`; what it holds is [`json_of`].
#[verifier::external_type_specification]
#[verifier::external_body]
pub struct ExJsonValue(serde_json::Value);

/// `serde_json::Error`, carried through as it is.
#[verifier::external_type_specification]
#[verifier::external_body]
pub struct ExJsonError(serde_json::Error);

/// The JSON value that a `serde_json::Value` holds.
pub uninterp spec fn json_of(v: serde_json::Value) -> Jv;

/// What `serde_json::from_str` makes of a text: a value, or nothing where the text is no JSON.
pub uninterp spec fn parsed(text: Seq<char>) -> Option<Jv>;

/// The compact text that `serde_json` writes for a value.
pub uninterp spec fn rendered(v: Jv) -> Seq<char>;

/// The member name that `serde_json` keeps to itself: an object that starts with it is read as
/// the value whose text the member holds.
pub open spec fn reserved_name() -> Seq<char> {
    "$serde_json::private::RawValue"@
}

/// Whether a value holds no number but integers and no member of the reserved name, and nests
/// arrays and objects at most `depth` deep.
pub open spec fn plain(v: Jv, depth: nat) -> bool
    decreases depth,
{
    match v {
        Jv::Decimal(_) => false,
        Jv::Array(items) => depth > 0 && forall|i: int|
            0 <= i < items.len() ==> plain(#[trigger] items[i], (depth - 1) as nat),
        Jv::Object(members) => depth > 0 && !members.dom().contains(reserved_name())
            && forall|key: Seq<char>| #[trigger]
            members.dom().contains(key) ==> plain(members[key], (depth - 1) as nat),
        _ => true,
    }
}

/// Whether a text stands in one line: it is not empty and holds no line feed and no carriage
/// return, and no white space at its ends.
pub open spec fn one_line(text: Seq<char>) -> bool {
    &&& text.len() > 0
    &&& forall|i: int| 0 <= i < text.len() ==> #[trigger] text[i] != '\n' && text[i] != '\r'
    &&& !is_white(text[0])
    &&& !is_white(text.last())
}

/// One layer of a `serde_json::Value`.
enum Layer {
    Null,
    Bool(bool),
    Number(serde_json::Number),
    Text(String),
    Array(Vec<serde_json::Value>),
    Object(Vec<(String, serde_json::Value)>),
}

spec fn entries_json(entries: Seq<(String, serde_json::Value)>) -> Map<Seq<char>, Jv>
    decreases entries.len(),
{
    if entries.len() == 0 {
        Map::empty()
    } else {
        entries_json(entries.drop_last()).insert(entries.last().0@, json_of(entries.last().1))
    }
}

spec fn layer_json(layer: Layer) -> Jv {
    match layer {
        Layer::Null => Jv::Null,
        Layer::Bool(b) => Jv::Bool(b),
        Layer::Number(n) => number_view(n),
        Layer::Text(s) => Jv::Str(s@),
        Layer::Array(items) => Jv::Array(items@.map_values(|v: serde_json::Value| json_of(v))),
        Layer::Object(entries) => Jv::Object(entries_json(entries@)),
    }
}

spec fn distinct_names(entries: Seq<(String, serde_json::Value)>) -> bool {
    forall|i: int, j: int|
        0 <= i < j < entries.len() ==> #[trigger] entries[i].0@ != #[trigger] entries[j].0@
}

/// The variants of `serde_json::Value`, told apart and moved out. An object's members come out
/// of `serde_json::Map::into_iter`, each name once.
#[verifier::external_body]
fn open_value(v: serde_json::Value) -> (layer: Layer)
    ensures
        layer_json(layer) == json_of(v),
        layer matches Layer::Object(entries) ==> distinct_names(entries@),
{
    match v {
        serde_json::Value::Null => Layer::Null,
        serde_json::Value::Bool(b) => Layer::Bool(b),
        serde_json::Value::Number(n) => Layer::Number(n),
        serde_json::Value::String(s) => Layer::Text(s),
        serde_json::Value::Array(items) => Layer::Array(items),
        serde_json::Value::Object(members) => Layer::Object(members.into_iter().collect()),
    }
}

/// The variants of `serde_json::Value`, put together. An object's members, each name once, go
/// through `serde_json::Map::from_iter`.
#[verifier::external_body]
fn close_value(layer: Layer) -> (v: serde_json::Value)
    requires
        layer matches Layer::Object(entries) ==> distinct_names(entries@),
    ensures
        json_of(v) == layer_json(layer),
{
    match layer {
        Layer::Null => serde_json::Value::Null,
        Layer::Bool(b) => serde_json::Value::Bool(b),
        Layer::Number(n) => serde_json::Value::Number(n),
        Layer::Text(s) => serde_json::Value::String(s),
        Layer::Array(items) => serde_json::Value::Array(items),
        Layer::Object(members) => serde_json::Value::Object(members.into_iter().collect()),
    }
}

/// `serde_json::from_str`, into a `serde_json::Value`: succeeds exactly on the texts that
/// [`parsed`] gives a value for, with that value. `{}` stands for the empty object.
#[verifier::external_body]
fn read_value(text: &str) -> (r: Result<serde_json::Value, serde_json::Error>)
    ensures
        (match r {
            Ok(v) => parsed(text@) == Some(json_of(v)),
            Err(_) => parsed(text@) is None,
        }),
        text@ == "{}"@ ==> r is Ok && json_of(r->Ok_0) == empty_object(),
{
    serde_json::from_str(text)
}

/// `serde_json::Value::to_string`: the compact text of the value, in one line. The text of an
/// object starts with a brace. The text reads back as the value, where that holds no number but
/// integers and no member of the reserved name, and keeps within the depth of 127 that
/// `serde_json::from_str` admits.
///
/// Nothing is said of reading back a number with a fraction: it is read through rounded powers of
/// ten, and refused where the product is too large.
#[verifier::external_body]
fn write_value(v: &serde_json::Value) -> (text: String)
    ensures
        text@ == rendered(json_of(*v)),
        one_line(text@),
        json_of(*v) is Object ==> text@[0] == '{',
        plain(json_of(*v), 127) ==> parsed(text@) == Some(json_of(*v)),
{
    v.to_string()
}

proof fn lemma_entry(entries: Seq<(String, serde_json::Value)>, k: int)
    requires
        distinct_names(entries),
        0 <= k < entries.len(),
    ensures
        entries_json(entries).dom().finite(),
        entries_json(entries).dom().contains(entries[k].0@),
        entries_json(entries)[entries[k].0@] == json_of(entries[k].1),
    decreases entries.len(),
{
    let head = entries.drop_last();
    if head.len() > 0 {
        lemma_entry(head, if k < head.len() { k } else { 0 });
    } else {
        assert(entries_json(head) =~= Map::empty());
    }
}

impl Json {
    /// The value that a `serde_json::Value` holds.
    pub fn from_serde(v: serde_json::Value) -> (r: Json)
        ensures
            r@ == json_of(v),
        decreases json_of(v),
    {
        let ghost whole = json_of(v);
        match open_value(v) {
            Layer::Null => Json::Null,
            Layer::Bool(b) => Json::Bool(b),
            Layer::Number(n) => match n.as_u64() {
                Some(u) => Json::Unsigned(u),
                None => match n.as_i64() {
                    Some(i) => Json::Signed(i),
                    None => Json::Decimal(n),
                },
            },
            Layer::Text(s) => Json::Str(s),
            Layer::Array(items) => {
                let mut rest = items;
                let ghost all = whole->Array_0;
                let mut backward: Vec<Json> = Vec::new();
                while rest.len() > 0
                    invariant
                        whole == Jv::Array(all),
                        whole == json_of(v),
                        rest@.len() + backward@.len() == all.len(),
                        forall|k: int| 0 <= k < rest@.len() ==> json_of(#[trigger] rest@[k]) == all[k],
                        forall|k: int|
                            0 <= k < backward@.len() ==> (#[trigger] backward@[k])@ == all[all.len() - 1
                                - k],
                    decreases rest@.len(),
                {
                    let item = rest.pop().unwrap();
                    proof {
                        assert(decreases_to!(whole => whole->Array_0));
                        assert(decreases_to!(all => all[rest@.len() as int]));
                    }
                    backward.push(Json::from_serde(item));
                }
                let mut forward: Vec<Json> = Vec::new();
                while backward.len() > 0
                    invariant
                        forward@.len() + backward@.len() == all.len(),
                        forall|k: int|
                            0 <= k < backward@.len() ==> (#[trigger] backward@[k])@ == all[all.len() - 1
                                - k],
                        views(forward@) == all.take(forward@.len() as int),
                    decreases backward@.len(),
                {
                    let item = backward.pop().unwrap();
                    forward.push(item);
                    proof {
                        let n = forward@.len() as int;
                        assert(all.take(n) =~= all.take(n - 1).push(all[n - 1]));
                    }
                }
                assert(all.take(all.len() as int) =~= all);
                Json::Array(forward)
            },
            Layer::Object(entries) => {
                let mut rest = entries;
                let ghost all = rest@;
                let mut members: Vec<(String, Json)> = Vec::new();
                proof {
                    assert(all.skip(all.len() as int) =~= Seq::empty());
                    assert(members_view(members@) =~= Map::empty());
                }
                while rest.len() > 0
                    invariant
                        whole == json_of(v),
                        whole == Jv::Object(entries_json(all)),
                        distinct_names(all),
                        rest@.len() <= all.len(),
                        rest@ == all.take(rest@.len() as int),
                        forall|name: Seq<char>| #[trigger]
                            members_view(members@).dom().contains(name) <==> exists|k: int|
                                rest@.len() <= k < all.len() && #[trigger] all[k].0@ == name,
                        forall|k: int|
                            rest@.len() <= k < all.len() ==> members_view(members@)[(
                            #[trigger] all[k]).0@] == json_of(all[k].1),
                    decreases rest@.len(),
                {
                    let ghost before = members@;
                    let entry = rest.pop().unwrap();
                    proof {
                        let k = rest@.len() as int;
                        assert(entry == all[k]);
                        lemma_entry(all, k);
                        assert(decreases_to!(whole => whole->Object_0));
                        assert(decreases_to!(whole->Object_0 => whole->Object_0[entry.0@]));
                    }
                    let value = Json::from_serde(entry.1);
                    members.push((entry.0, value));
                    proof {
                        let k = rest@.len() as int;
                        assert forall|name: Seq<char>| #[trigger]
                            members_view(members@).dom().contains(name) <==> exists|j: int|
                                k <= j < all.len() && #[trigger] all[j].0@ == name by {
                            if name == all[k].0@ {
                                assert(members_view(members@).dom().contains(name));
                            } else {
                                assert(members_view(members@).dom().contains(name)
                                    == members_view(before).dom().contains(name));
                            }
                        }
                    }
                }
                proof {
                    lemma_entries_domain(all);
                    assert forall|name: Seq<char>| #[trigger] members_view(members@).dom().contains(name)
                        implies members_view(members@)[name] == entries_json(all)[name] by {
                        let k = choose|k: int| 0 <= k < all.len() && #[trigger] all[k].0@ == name;
                        lemma_entry(all, k);
                    }
                    assert(members_view(members@) =~= entries_json(all));
                }
                Json::Object(members)
            },
        }
    }

    /// The `serde_json::Value` that holds this value.
    pub fn to_serde(&self) -> (v: serde_json::Value)
        ensures
            json_of(v) == self@,
        decreases self,
    {
        match self {
            Json::Null => close_value(Layer::Null),
            Json::Bool(b) => close_value(Layer::Bool(*b)),
            Json::Unsigned(n) => close_value(Layer::Number(unsigned_number(*n))),
            Json::Signed(n) => close_value(Layer::Number(signed_number(*n))),
            Json::Decimal(n) => close_value(Layer::Number(copy_number(n))),
            Json::Str(s) => close_value(Layer::Text(s.clone())),
            Json::Array(items) => {
                let mut out: Vec<serde_json::Value> = Vec::new();
                let mut i: usize = 0;
                while i < items.len()
                    invariant
                        i <= items@.len(),
                        *self == Json::Array(*items),
                        out@.len() == i,
                        forall|k: int| 0 <= k < i ==> json_of(#[trigger] out@[k]) == items@[k]@,
                    decreases items@.len() - i,
                {
                    assert(decreases_to!(*self => self->Array_0));
                    assert(decreases_to!(*items => items@));
                    assert(decreases_to!(items@ => items@[i as int]));
                    out.push(items[i].to_serde());
                    i = i + 1;
                }
                assert(out@.map_values(|v: serde_json::Value| json_of(v)) =~= views(items@));
                close_value(Layer::Array(out))
            },
            Json::Object(members) => {
                let mut out: Vec<(String, serde_json::Value)> = Vec::new();
                let ghost all = members@;
                let mut i: usize = members.len();
                while i > 0
                    invariant
                        i <= members@.len(),
                        *self == Json::Object(*members),
                        all == members@,
                        distinct_names(out@),
                        forall|k: int| i <= k < all.len() ==> named(out@, (#[trigger] all[k]).0@),
                        forall|j: int|
                            0 <= j < out@.len() ==> members_view(all).dom().contains(
                                (#[trigger] out@[j]).0@,
                            ) && json_of(out@[j].1) == members_view(all)[out@[j].0@],
                    decreases i,
                {
                    i = i - 1;
                    assert(decreases_to!(*self => self->Object_0));
                    assert(decreases_to!(*members => members@));
                    assert(decreases_to!(members@ => members@[i as int]));
                    assert(decreases_to!(members@[i as int] => members@[i as int].1));
                    let ghost before = out@;
                    if !is_named(&out, members[i].0.as_str()) {
                        proof {
                            lemma_last_of_name(all, i as int);
                        }
                        out.push((members[i].0.clone(), members[i].1.to_serde()));
                    }
                    proof {
                        assert forall|k: int| i <= k < all.len() implies named(
                            out@,
                            (#[trigger] all[k]).0@,
                        ) by {
                            if named(before, all[k].0@) {
                                let j = choose|j: int|
                                    0 <= j < before.len() && #[trigger] before[j].0@ == all[k].0@;
                                assert(out@[j].0@ == all[k].0@);
                            } else {
                                assert(out@[out@.len() - 1].0@ == all[k].0@);
                            }
                        }
                    }
                }
                proof {
                    lemma_entries_domain(out@);
                    lemma_member_names(all);
                    let got = entries_json(out@);
                    let want = members_view(all);
                    assert forall|name: Seq<char>| #[trigger] got.dom().contains(name)
                        <==> want.dom().contains(name) by {
                        if want.dom().contains(name) {
                            let k = choose|k: int| 0 <= k < all.len() && #[trigger] all[k].0@ == name;
                            assert(named(out@, all[k].0@));
                        }
                    }
                    assert forall|name: Seq<char>| #[trigger] got.dom().contains(name)
                        implies got[name] == want[name] by {
                        let j = choose|j: int|
                            0 <= j < out@.len() && #[trigger] out@[j].0@ == name;
                        lemma_entry(out@, j);
                    }
                    assert(got =~= want);
                }
                close_value(Layer::Object(out))
            },
        }
    }

    /// The value that a JSON text stands for.
    pub fn parse(text: &str) -> (r: Option<Json>)
        ensures
            (match r {
                Some(v) => parsed(text@) == Some(v@),
                None => parsed(text@) is None,
            }),
            text@ == "{}"@ ==> parsed(text@) == Some(empty_object()),
    {
        match read_value(text) {
            Ok(v) => Some(Json::from_serde(v)),
            Err(_) => None,
        }
    }

    /// The compact JSON text of this value.
    pub fn render(&self) -> (text: String)
        ensures
            text@ == rendered(self@),
            one_line(text@),
            self@ is Object ==> text@[0] == '{',
            plain(self@, 127) ==> parsed(text@) == Some(self@),
    {
        write_value(&self.to_serde())
    }
}

/// Whether an entry has a name.
spec fn named(entries: Seq<(String, serde_json::Value)>, name: Seq<char>) -> bool {
    exists|j: int| 0 <= j < entries.len() && #[trigger] entries[j].0@ == name
}

fn is_named(entries: &Vec<(String, serde_json::Value)>, name: &str) -> (r: bool)
    ensures
        r == named(entries@, name@),
{
    let mut j: usize = 0;
    while j < entries.len()
        invariant
            j <= entries@.len(),
            forall|k: int| 0 <= k < j ==> (#[trigger] entries@[k]).0@ != name@,
        decreases entries@.len() - j,
    {
        if same(entries[j].0.as_str(), name) {
            return true;
        }
        j = j + 1;
    }
    false
}

/// The names of the members of an object are those that are listed.
proof fn lemma_member_names(members: Seq<(String, Json)>)
    ensures
        forall|name: Seq<char>| #[trigger]
            members_view(members).dom().contains(name) <==> exists|k: int|
                0 <= k < members.len() && #[trigger] members[k].0@ == name,
    decreases members.len(),
{
    if members.len() > 0 {
        let head = members.drop_last();
        lemma_member_names(head);
        assert(head.push(members.last()) =~= members);
        assert forall|name: Seq<char>| #[trigger]
            members_view(members).dom().contains(name) <==> exists|k: int|
                0 <= k < members.len() && #[trigger] members[k].0@ == name by {
            if members_view(members).dom().contains(name) {
                if name != members.last().0@ {
                    assert(members_view(head).dom().contains(name));
                    let k = choose|k: int| 0 <= k < head.len() && #[trigger] head[k].0@ == name;
                    assert(members[k].0@ == name);
                } else {
                    assert(members[members.len() - 1].0@ == name);
                }
            }
            if exists|k: int| 0 <= k < members.len() && #[trigger] members[k].0@ == name {
                let k = choose|k: int| 0 <= k < members.len() && #[trigger] members[k].0@ == name;
                if k < head.len() {
                    assert(head[k].0@ == name);
                    assert(members_view(head).dom().contains(name));
                }
            }
        }
    } else {
        assert(members_view(members) =~= Map::empty());
    }
}

/// Of the members of one name the last listed counts.
proof fn lemma_last_of_name(members: Seq<(String, Json)>, i: int)
    requires
        0 <= i < members.len(),
        forall|k: int| i < k < members.len() ==> (#[trigger] members[k]).0@ != members[i].0@,
    ensures
        members_view(members).dom().contains(members[i].0@),
        members_view(members)[members[i].0@] == members[i].1@,
    decreases members.len(),
{
    let head = members.drop_last();
    assert(head.push(members.last()) =~= members);
    if i < head.len() {
        assert(members[members.len() - 1].0@ != members[i].0@);
        lemma_last_of_name(head, i);
    }
}

proof fn lemma_entries_domain(entries: Seq<(String, serde_json::Value)>)
    ensures
        forall|name: Seq<char>| #[trigger]
            entries_json(entries).dom().contains(name) <==> exists|k: int|
                0 <= k < entries.len() && #[trigger] entries[k].0@ == name,
    decreases entries.len(),
{
    if entries.len() > 0 {
        let head = entries.drop_last();
        lemma_entries_domain(head);
        assert forall|name: Seq<char>| #[trigger]
            entries_json(entries).dom().contains(name) <==> exists|k: int|
                0 <= k < entries.len() && #[trigger] entries[k].0@ == name by {
            if entries_json(entries).dom().contains(name) {
                if name != entries.last().0@ {
                    assert(entries_json(head).dom().contains(name));
                    let k = choose|k: int| 0 <= k < head.len() && #[trigger] head[k].0@ == name;
                    assert(entries[k].0@ == name);
                } else {
                    assert(entries[entries.len() - 1].0@ == name);
                }
            }
            if exists|k: int| 0 <= k < entries.len() && #[trigger] entries[k].0@ == name {
                let k = choose|k: int| 0 <= k < entries.len() && #[trigger] entries[k].0@ == name;
                if k < head.len() {
                    assert(head[k].0@ == name);
                    assert(entries_json(head).dom().contains(name));
                }
                assert(entries_json(entries).dom().contains(name));
            }
        }
    } else {
        assert(entries_json(entries) =~= Map::empty());
    }
}

} // verus!
