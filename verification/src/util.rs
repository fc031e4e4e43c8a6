//! Identifiers, the clock, and the reading of settings.

use base64::engine::general_purpose::URL_SAFE_NO_PAD;
use base64::Engine;
use rand::RngCore;
use vstd::prelude::*;
use vstd::utf8::is_ascii_chars;

use crate::text::{ascii_lower, lowercase, same, split, split_on, texts, to_lower, trim, trimmed};

verus! {

// ─── Identifiers ───────────────────────────────────────────────────────────

/// The character of the URL-safe base64 alphabet for a number below 64.
pub open spec fn url_safe_char(n: int) -> char {
    if n < 26 {
        (65 + n) as char
    } else if n < 52 {
        (97 + n - 26) as char
    } else if n < 62 {
        (48 + n - 52) as char
    } else if n == 62 {
        '-'
    } else {
        '_'
    }
}

/// The `i`-th group of six bits of a list of bytes.
pub open spec fn sextet(bytes: Seq<u8>, i: int) -> int {
    let k = i / 4 * 3;
    if i % 4 == 0 {
        bytes[k] as int / 4
    } else if i % 4 == 1 {
        bytes[k] as int % 4 * 16 + bytes[k + 1] as int / 16
    } else if i % 4 == 2 {
        bytes[k + 1] as int % 16 * 4 + bytes[k + 2] as int / 64
    } else {
        bytes[k + 2] as int % 64
    }
}

/// The identifier that twelve bytes make: sixteen characters, one for each group of six bits.
pub open spec fn id_text(bytes: Seq<u8>) -> Seq<char> {
    Seq::new(16, |i: int| url_safe_char(sextet(bytes, i)))
}

/// Whether a text is an identifier of some twelve bytes.
pub open spec fn is_id(text: Seq<char>) -> bool {
    exists|bytes: Seq<u8>| bytes.len() == 12 && #[trigger] id_text(bytes) == text
}

/// `rand::rng` and `fill_bytes`: twelve bytes. Nothing is said about which.
#[verifier::external_body]
fn random_bytes() -> (bytes: [u8; 12]) {
    let mut bytes = [0u8; 12];
    rand::rng().fill_bytes(&mut bytes);
    bytes
}

/// `base64::Engine::encode` of `URL_SAFE_NO_PAD`: one character of the URL-safe alphabet for
/// each six bits; twelve bytes need no padding.
#[verifier::external_body]
fn encode_base64url(bytes: [u8; 12]) -> (text: String)
    ensures
        text@ == id_text(bytes@),
{
    URL_SAFE_NO_PAD.encode(bytes)
}

/// A random identifier: twelve random bytes in URL-safe base64.
pub fn uid() -> (id: String)
    ensures
        is_id(id@),
{
    let bytes = random_bytes();
    let id = encode_base64url(bytes);
    assert(bytes@.len() == 12 && id_text(bytes@) == id@);
    id
}

/// `prefix`, followed by `id`.
pub fn tagged(prefix: &str, id: &str) -> (r: String)
    ensures
        r@ == prefix@ + id@,
{
    prefix.to_owned().concat(id)
}

proof fn lemma_url_safe_injective(a: int, b: int)
    requires
        0 <= a < 64,
        0 <= b < 64,
        url_safe_char(a) == url_safe_char(b),
    ensures
        a == b,
{
    assert('-' as int == 45);
    assert('_' as int == 95);
    assert(url_safe_char(a) as int == url_safe_char(b) as int);
}

/// Every identifier has sixteen characters, all of them letters, digits, `-` or `_`.
pub proof fn law_id_alphabet(id: Seq<char>)
    requires
        is_id(id),
    ensures
        id.len() == 16,
        forall|i: int|
            0 <= i < id.len() ==> ('A' <= #[trigger] id[i] <= 'Z' || 'a' <= id[i] <= 'z' || '0'
                <= id[i] <= '9' || id[i] == '-' || id[i] == '_'),
{
    let bytes = choose|bytes: Seq<u8>| bytes.len() == 12 && #[trigger] id_text(bytes) == id;
    assert forall|i: int| 0 <= i < id.len() implies ('A' <= #[trigger] id[i] <= 'Z' || 'a' <= id[i]
        <= 'z' || '0' <= id[i] <= '9' || id[i] == '-' || id[i] == '_') by {
        let n = sextet(bytes, i);
        assert(id[i] == url_safe_char(n));
        assert(0 <= n < 64);
    }
}

/// Different bytes make different identifiers.
pub proof fn law_ids_differ(a: Seq<u8>, b: Seq<u8>)
    requires
        a.len() == 12,
        b.len() == 12,
        id_text(a) == id_text(b),
    ensures
        a == b,
{
    assert forall|j: int| 0 <= j < 12 implies a[j] == b[j] by {
        let g = j / 3;
        lemma_same_sextet(a, b, g * 4);
        lemma_same_sextet(a, b, g * 4 + 1);
        lemma_same_sextet(a, b, g * 4 + 2);
        lemma_same_sextet(a, b, g * 4 + 3);
        assert(a[g * 3] == b[g * 3]);
        assert(a[g * 3 + 1] == b[g * 3 + 1]);
        assert(a[g * 3 + 2] == b[g * 3 + 2]);
    }
    assert(a =~= b);
}

proof fn lemma_same_sextet(a: Seq<u8>, b: Seq<u8>, i: int)
    requires
        0 <= i < 16,
        a.len() == 12,
        b.len() == 12,
        id_text(a) == id_text(b),
    ensures
        sextet(a, i) == sextet(b, i),
{
    assert(id_text(a)[i] == url_safe_char(sextet(a, i)));
    assert(id_text(b)[i] == url_safe_char(sextet(b, i)));
    lemma_url_safe_injective(sextet(a, i), sextet(b, i));
}

// ─── The clock ─────────────────────────────────────────────────────────────

/// `std::time::SystemTime`, a point in time.
#[verifier::external_type_specification]
#[verifier::external_body]
pub struct ExSystemTime(std::time::SystemTime);

/// `std::time::SystemTimeError`, carried through as it is.
#[verifier::external_type_specification]
#[verifier::external_body]
pub struct ExSystemTimeError(std::time::SystemTimeError);

/// The time from the Unix epoch to a point in time, where that is not before it.
pub uninterp spec fn epoch_distance(t: std::time::SystemTime) -> Option<std::time::Duration>;

/// The whole seconds of a span of time.
pub uninterp spec fn whole_seconds(d: std::time::Duration) -> u64;

/// `std::time::SystemTime::now`. Nothing is said about which point in time it is.
#[verifier::external_body]
fn system_now() -> (t: std::time::SystemTime) {
    std::time::SystemTime::now()
}

/// `std::time::SystemTime::duration_since`, of the Unix epoch.
#[verifier::external_body]
fn since_epoch(t: std::time::SystemTime) -> (r: Result<std::time::Duration, std::time::SystemTimeError>)
    ensures
        (match r {
            Ok(d) => epoch_distance(t) == Some(d),
            Err(_) => epoch_distance(t) is None,
        }),
{
    t.duration_since(std::time::UNIX_EPOCH)
}

/// `std::time::Duration::as_secs`: the whole seconds.
#[verifier::external_body]
fn seconds_of(d: std::time::Duration) -> (r: u64)
    ensures
        r == whole_seconds(d),
{
    d.as_secs()
}

/// The Unix time that is so many whole seconds behind the epoch, and zero before it. Past the
/// largest signed number the count wraps around.
pub open spec fn unix_seconds(since: Option<u64>) -> i64 {
    match since {
        Some(seconds) => seconds as i64,
        None => 0,
    }
}

/// The Unix time of a point in time.
pub open spec fn unix_time(t: std::time::SystemTime) -> i64 {
    unix_seconds(
        match epoch_distance(t) {
            Some(d) => Some(whole_seconds(d)),
            None => None,
        },
    )
}

/// The Unix time that is so many whole seconds behind the epoch, and zero before it.
pub fn unix_time_since(since: Option<u64>) -> (r: i64)
    ensures
        r == unix_seconds(since),
{
    match since {
        Some(seconds) => seconds as i64,
        None => 0,
    }
}

/// The Unix time of a point in time.
pub fn unix_time_of(t: std::time::SystemTime) -> (r: i64)
    ensures
        r == unix_time(t),
{
    match since_epoch(t) {
        Ok(d) => unix_time_since(Some(seconds_of(d))),
        Err(_) => unix_time_since(None),
    }
}

/// The current Unix time in seconds.
pub fn now_unix() -> (r: i64)
    ensures
        exists|t: std::time::SystemTime| r == #[trigger] unix_time(t),
{
    let t = system_now();
    unix_time_of(t)
}

// ─── Settings ──────────────────────────────────────────────────────────────

/// The entries of a comma-separated list, read so far as `done`, with one more piece: trimmed,
/// and left out where it is empty or already there.
pub open spec fn csv_step(done: Seq<Seq<char>>, piece: Seq<char>) -> Seq<Seq<char>> {
    let entry = trimmed(piece);
    if entry.len() == 0 || done.contains(entry) {
        done
    } else {
        done.push(entry)
    }
}

pub open spec fn csv_entries(pieces: Seq<Seq<char>>) -> Seq<Seq<char>>
    decreases pieces.len(),
{
    if pieces.len() == 0 {
        Seq::empty()
    } else {
        csv_step(csv_entries(pieces.drop_last()), pieces.last())
    }
}

/// Whether `list` holds the text `wanted`.
pub fn holds(list: &Vec<String>, wanted: &str) -> (r: bool)
    ensures
        r == texts(list@).contains(wanted@),
{
    let mut i: usize = 0;
    while i < list.len()
        invariant
            i <= list@.len(),
            forall|k: int| 0 <= k < i ==> (#[trigger] list@[k])@ != wanted@,
        decreases list@.len() - i,
    {
        if same(list[i].as_str(), wanted) {
            assert(texts(list@)[i as int] == wanted@);
            return true;
        }
        i = i + 1;
    }
    assert forall|k: int| 0 <= k < texts(list@).len() implies texts(list@)[k] != wanted@ by {
        assert(list@[k]@ != wanted@);
    }
    false
}

/// The entries of a comma-separated list: trimmed, none of them empty, each once, in the order
/// of their first occurrence.
pub fn parse_csv(value: &str) -> (r: Vec<String>)
    ensures
        texts(r@) == csv_entries(split(value@, ","@)),
{
    proof {
        reveal_strlit(",");
    }
    let pieces = split_on(value, ",");
    let ghost all = texts(pieces@);
    let mut r: Vec<String> = Vec::new();
    let mut i: usize = 0;
    assert(texts(r@) =~= csv_entries(all.take(0)));
    while i < pieces.len()
        invariant
            i <= pieces@.len(),
            all == texts(pieces@),
            texts(r@) == csv_entries(all.take(i as int)),
        decreases pieces@.len() - i,
    {
        let entry = trim(pieces[i].as_str());
        let ghost before = texts(r@);
        proof {
            assert(all.take(i + 1).drop_last() =~= all.take(i as int));
            assert(all[i as int] == pieces@[i as int]@);
        }
        if !entry.as_str().is_empty() && !holds(&r, entry.as_str()) {
            let ghost e = entry@;
            r.push(entry);
            assert(texts(r@) =~= before.push(e));
        }
        i = i + 1;
    }
    assert(all.take(i as int) =~= all);
    r
}

/// No entry of a comma-separated list is empty or occurs twice, and every one of them is a
/// trimmed piece of the list.
pub proof fn law_csv_entries(pieces: Seq<Seq<char>>)
    ensures
        csv_entries(pieces).no_duplicates(),
        forall|i: int|
            0 <= i < csv_entries(pieces).len() ==> (#[trigger] csv_entries(pieces)[i]).len() > 0,
        forall|i: int|
            #![trigger csv_entries(pieces)[i]]
            0 <= i < csv_entries(pieces).len() ==> exists|k: int|
                0 <= k < pieces.len() && csv_entries(pieces)[i] == trimmed(#[trigger] pieces[k]),
        forall|k: int|
            0 <= k < pieces.len() && trimmed(#[trigger] pieces[k]).len() > 0 ==> csv_entries(
                pieces,
            ).contains(trimmed(pieces[k])),
    decreases pieces.len(),
{
    if pieces.len() > 0 {
        let head = pieces.drop_last();
        law_csv_entries(head);
        let done = csv_entries(head);
        let all = csv_entries(pieces);
        assert forall|i: int| 0 <= i < all.len() implies exists|k: int|
            0 <= k < pieces.len() && #[trigger] all[i] == trimmed(#[trigger] pieces[k]) by {
            if i < done.len() {
                assert(all[i] == done[i]);
                let k = choose|k: int| 0 <= k < head.len() && done[i] == trimmed(#[trigger] head[k]);
                assert(pieces[k] == head[k]);
            } else {
                assert(all[i] == trimmed(pieces[pieces.len() - 1]));
            }
        }
        assert forall|k: int|
            0 <= k < pieces.len() && trimmed(#[trigger] pieces[k]).len() > 0 implies all.contains(
            trimmed(pieces[k]),
        ) by {
            if k < head.len() {
                assert(head[k] == pieces[k]);
                assert(done.contains(trimmed(head[k])));
                let i = choose|i: int| 0 <= i < done.len() && done[i] == trimmed(head[k]);
                assert(all[i] == trimmed(pieces[k]));
            } else if !done.contains(trimmed(pieces[k])) {
                assert(all[all.len() - 1] == trimmed(pieces[k]));
            }
        }
    }
}

/// A model identifier in the form in which identifiers are compared: trimmed and in lower case.
pub open spec fn model_key(model: Seq<char>) -> Seq<char> {
    lowercase(trimmed(model))
}

/// Brings a model identifier into the form in which identifiers are compared.
pub fn normalize_model_id(model: &str) -> (r: String)
    ensures
        r@ == model_key(model@),
        is_ascii_chars(trimmed(model@)) ==> r@ == trimmed(model@).map_values(
            |c: char| ascii_lower(c),
        ),
{
    to_lower(trim(model).as_str())
}

} // verus!
