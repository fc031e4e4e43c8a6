//! What reading and changing a JSON value means, and what identifiers are made of.

use vstd::prelude::*;

use crate::json::{members_view, views, Json, Jv};
use crate::util::{id_text, sextet, unix_time, url_safe_char};

verus! {

// ─── Values ────────────────────────────────────────────────────────────────

/// A member that is set is found under its name, the other members stay, and null counts as an
/// object without members; a member that is removed is not found, and the other members stay.
pub proof fn law_members(v: Jv, key: Seq<char>, other: Seq<char>, value: Jv)
    ensures
        v is Object || v is Null ==> v.put(key, value) is Object && v.put(key, value).get(key)
            == Some(value),
        (v is Object || v is Null) && other != key ==> v.put(key, value).get(other) == v.get(other),
        !(v is Object) && !(v is Null) ==> v.put(key, value) == v,
        v.without(key).get(key) is None,
        other != key ==> v.without(key).get(other) == v.get(other),
        !(v is Object) ==> v.get(key) is None && v.without(key) == v,
        v.is_settable() <==> v is Object || v is Null,
{
}

/// A value is read as what it is and as nothing else: a text, a list, a truth value, or a whole
/// number that fits the word.
pub proof fn law_readings(v: Jv)
    ensures
        v matches Jv::Str(s) ==> v.text() == Some(s),
        !(v is Str) ==> v.text() is None,
        v matches Jv::Array(items) ==> v.items() == Some(items),
        !(v is Array) ==> v.items() is None,
        v matches Jv::Bool(b) ==> v.boolean() == Some(b),
        !(v is Bool) ==> v.boolean() is None,
        v matches Jv::Int(n) ==> (0 <= n <= u64::MAX ==> v.unsigned() == Some(n as u64)) && (
        i64::MIN <= n <= i64::MAX ==> v.signed() == Some(n as i64)) && (!(0 <= n <= u64::MAX)
            ==> v.unsigned() is None) && (!(i64::MIN <= n <= i64::MAX) ==> v.signed() is None),
        !(v is Int) ==> v.unsigned() is None && v.signed() is None,
{
}

/// A member is read as the value under its name is, and what counts where there is none counts
/// also where it is something else.
pub proof fn law_member_readings(
    v: Jv,
    key: Seq<char>,
    text: Seq<char>,
    number: u64,
    flag: bool,
    value: Jv,
)
    ensures
        v.get(key) matches Some(member) ==> {
            &&& v.text_at(key) == member.text() && v.items_at(key) == member.items()
            &&& v.get_or(key, value) == member
            &&& v.text_or(key, text) == (match member {
                Jv::Str(s) => s,
                _ => text,
            })
            &&& v.items_or_none(key) == (match member {
                Jv::Array(items) => items,
                _ => Seq::empty(),
            })
            &&& v.bool_or(key, flag) == (match member {
                Jv::Bool(b) => b,
                _ => flag,
            })
            &&& v.unsigned_or(key, number) == (match member.unsigned() {
                Some(n) => n,
                None => number,
            })
        },
        v.get(key) is None ==> {
            &&& v.text_at(key) is None && v.items_at(key) is None
            &&& v.get_or(key, value) == value
            &&& v.text_or(key, text) == text
            &&& v.items_or_none(key).len() == 0
            &&& v.bool_or(key, flag) == flag
            &&& v.unsigned_or(key, number) == number
        },
{
}

/// Of two members of one name the later one counts; a list holds its values in order.
pub proof fn law_object_of_members(
    members: Seq<(String, Json)>,
    member: (String, Json),
    other: Seq<char>,
    items: Seq<Json>,
)
    ensures
        members_view(Seq::empty()) == Map::<Seq<char>, Jv>::empty(),
        Jv::Object(members_view(members.push(member))).get(member.0@) == Some(member.1@),
        other != member.0@ ==> Jv::Object(members_view(members.push(member))).get(other)
            == Jv::Object(members_view(members)).get(other),
        views(items).len() == items.len(),
        forall|i: int| 0 <= i < items.len() ==> #[trigger] views(items)[i] == items[i]@,
{
    crate::json::lemma_members_push(members, member);
}

// ─── Identifiers ───────────────────────────────────────────────────────────

/// The alphabet of identifiers: capital letters, small letters, digits, the hyphen and the
/// underscore, sixty-four characters that are all different.
pub proof fn law_alphabet(m: int, n: int)
    requires
        0 <= m < 64,
        0 <= n < 64,
    ensures
        ({
            let c = url_safe_char(n);
            'A' <= c <= 'Z' || 'a' <= c <= 'z' || '0' <= c <= '9' || c == '-' || c == '_'
        }),
        m != n ==> url_safe_char(m) != url_safe_char(n),
        n < 25 || 26 <= n < 51 || 52 <= n < 61 ==> url_safe_char(n + 1) as int == url_safe_char(n) as int
            + 1,
        url_safe_char(0) == 'A' && url_safe_char(26) == 'a' && url_safe_char(52) == '0',
        url_safe_char(62) == '-' && url_safe_char(63) == '_',
{
}

/// An identifier has sixteen characters, four for every three bytes: the four groups of six bits
/// make the same number as the three bytes.
pub proof fn law_identifier(bytes: Seq<u8>, g: int)
    requires
        bytes.len() == 12,
        0 <= g < 4,
    ensures
        id_text(bytes).len() == 16,
        forall|i: int|
            0 <= i < 16 ==> #[trigger] id_text(bytes)[i] == url_safe_char(sextet(bytes, i)),
        forall|j: int| 0 <= j < 4 ==> 0 <= #[trigger] sextet(bytes, 4 * g + j) < 64,
        sextet(bytes, 4 * g) * 262144 + sextet(bytes, 4 * g + 1) * 4096 + sextet(bytes, 4 * g + 2)
            * 64 + sextet(bytes, 4 * g + 3) == bytes[3 * g] as int * 65536 + bytes[3 * g + 1] as int
            * 256 + bytes[3 * g + 2] as int,
{
    let i = 4 * g;
    assert(i / 4 == g && i % 4 == 0);
    assert((i + 1) / 4 == g && (i + 1) % 4 == 1);
    assert((i + 2) / 4 == g && (i + 2) % 4 == 2);
    assert((i + 3) / 4 == g && (i + 3) % 4 == 3);
    assert(3 * g == g * 3);
    assert forall|j: int| 0 <= j < 4 implies 0 <= #[trigger] sextet(bytes, 4 * g + j) < 64 by {
        assert((4 * g + j) / 4 == g && (4 * g + j) % 4 == j);
    }
}

/// The time that a point in time stands for: the whole seconds from the epoch to it, and zero where
/// it lies before.
pub proof fn law_unix_time(t: std::time::SystemTime)
    ensures
        crate::util::epoch_distance(t) is None ==> unix_time(t) == 0,
        crate::util::epoch_distance(t) matches Some(d) ==> (crate::util::whole_seconds(d)
            <= i64::MAX ==> unix_time(t) == crate::util::whole_seconds(d)),
{
}

} // verus!
