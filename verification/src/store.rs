//! The store of past responses, from which conversations are restored.

use vstd::prelude::*;
use vstd::string::*;

use crate::json::{group_json, views, Json, Jv};
use crate::json_ops::copy_items;
use crate::text::{copy_opt, opt_string, texts};
use crate::util::holds;

verus! {

broadcast use group_json;

/// How long an entry stays fresh: one hour, in nanoseconds.
pub const STORE_TTL: u128 = 3_600_000_000_000;

/// How many entries the store holds at most.
pub const STORE_MAX: usize = 500;

/// How many responses in a row may consist of tool calls alone.
pub const MAX_CONSECUTIVE_TOOL_CALLS: u32 = 20;

// ─── Entries ───────────────────────────────────────────────────────────────

/// A past response, with the input it answered.
#[derive(Debug)]
pub struct ResponseEntry {
    pub provider: String,
    pub input: Vec<Json>,
    pub output: Vec<Json>,
    pub previous_response_id: Option<String>,
    /// When the entry was stored, in nanoseconds on the clock of its store.
    pub stored_at: u128,
    /// How many responses in a row, up to this one, consist of tool calls alone.
    pub consecutive_tool_calls: u32,
}

/// A past response as mathematics sees it.
#[verifier::ext_equal]
pub struct Entry {
    pub provider: Seq<char>,
    pub input: Seq<Jv>,
    pub output: Seq<Jv>,
    pub previous: Option<Seq<char>>,
    pub stored_at: u128,
    pub consecutive_tool_calls: u32,
}

impl View for ResponseEntry {
    type V = Entry;

    open spec fn view(&self) -> Entry {
        Entry {
            provider: self.provider@,
            input: views(self.input@),
            output: views(self.output@),
            previous: opt_string(self.previous_response_id),
            stored_at: self.stored_at,
            consecutive_tool_calls: self.consecutive_tool_calls,
        }
    }
}

impl Clone for ResponseEntry {
    fn clone(&self) -> (r: ResponseEntry)
        ensures
            r@ == self@,
    {
        ResponseEntry {
            provider: self.provider.clone(),
            input: copy_items(&self.input),
            output: copy_items(&self.output),
            previous_response_id: copy_opt(&self.previous_response_id),
            stored_at: self.stored_at,
            consecutive_tool_calls: self.consecutive_tool_calls,
        }
    }
}

// ─── The map behind the store ──────────────────────────────────────────────

/// `indexmap::IndexMap`; what one of responses holds is [`entries`].
#[verifier::external_type_specification]
#[verifier::external_body]
#[verifier::reject_recursive_types(K)]
#[verifier::reject_recursive_types(V)]
#[verifier::reject_recursive_types(S)]
pub struct ExIndexMap<K, V, S>(indexmap::IndexMap<K, V, S>);

/// The keys and values of a map, in their order.
pub uninterp spec fn entries(map: indexmap::IndexMap<String, ResponseEntry>) -> Seq<
    (Seq<char>, Entry),
>;

/// The value that a list of keys and values has for a key.
pub open spec fn lookup(list: Seq<(Seq<char>, Entry)>, key: Seq<char>) -> Option<Entry>
    decreases list.len(),
{
    if list.len() == 0 {
        None
    } else if list.last().0 == key {
        Some(list.last().1)
    } else {
        lookup(list.drop_last(), key)
    }
}

/// A list of keys and values with a new value for a key that is there.
pub open spec fn with_value(
    list: Seq<(Seq<char>, Entry)>,
    key: Seq<char>,
    entry: Entry,
) -> Seq<(Seq<char>, Entry)> {
    Seq::new(
        list.len(),
        |i: int|
            if list[i].0 == key {
                (key, entry)
            } else {
                list[i]
            },
    )
}

/// A list of keys and values with a new value for a key: in the place of the old one, where
/// there is one, and else at the end.
pub open spec fn with_entry(
    list: Seq<(Seq<char>, Entry)>,
    key: Seq<char>,
    entry: Entry,
) -> Seq<(Seq<char>, Entry)> {
    if lookup(list, key) is Some {
        with_value(list, key, entry)
    } else {
        list.push((key, entry))
    }
}

/// Whether every key occurs once.
pub open spec fn distinct_keys(list: Seq<(Seq<char>, Entry)>) -> bool {
    forall|i: int, j: int|
        0 <= i < j < list.len() ==> (#[trigger] list[i]).0 != (#[trigger] list[j]).0
}

/// `indexmap::IndexMap::new`: a map that holds nothing.
#[verifier::external_body]
fn map_new() -> (map: indexmap::IndexMap<String, ResponseEntry>)
    ensures
        entries(map) == Seq::<(Seq<char>, Entry)>::empty(),
{
    indexmap::IndexMap::new()
}

/// `indexmap::IndexMap::len`: the number of keys.
#[verifier::external_body]
fn map_len(map: &indexmap::IndexMap<String, ResponseEntry>) -> (r: usize)
    ensures
        r == entries(*map).len(),
{
    map.len()
}

/// `indexmap::IndexMap::get`: the value for a key.
#[verifier::external_body]
fn map_get<'a>(map: &'a indexmap::IndexMap<String, ResponseEntry>, key: &str) -> (r: Option<
    &'a ResponseEntry,
>)
    ensures
        (match r {
            Some(entry) => lookup(entries(*map), key@) == Some(entry@),
            None => lookup(entries(*map), key@) is None,
        }),
{
    map.get(key)
}

/// `indexmap::IndexMap::keys`, and the first of them: the key that comes first in the order.
#[verifier::external_body]
fn map_first_key(map: &indexmap::IndexMap<String, ResponseEntry>) -> (r: Option<String>)
    ensures
        (match r {
            Some(key) => entries(*map).len() > 0 && entries(*map)[0].0 == key@,
            None => entries(*map).len() == 0,
        }),
{
    map.keys().next().cloned()
}

/// `indexmap::IndexMap::shift_remove`: takes a key out; the others keep their order.
#[verifier::external_body]
fn map_remove(map: &mut indexmap::IndexMap<String, ResponseEntry>, key: &str)
    ensures
        entries(*final(map)) == entries(*old(map)).filter(|e: (Seq<char>, Entry)| e.0 != key@),
{
    map.shift_remove(key);
}

/// `indexmap::IndexMap::retain`, of the fresh entries: the others leave, and those that stay
/// keep their order.
#[verifier::external_body]
fn map_retain_fresh(map: &mut indexmap::IndexMap<String, ResponseEntry>, now: u128)
    ensures
        entries(*final(map)) == entries(*old(map)).filter(|e: (Seq<char>, Entry)| fresh(e.1, now)),
{
    map.retain(|_, entry| entry.is_fresh(now));
}

/// `indexmap::IndexMap::insert`: a new value for a key that is there, or a new key at the end.
#[verifier::external_body]
fn map_insert(map: &mut indexmap::IndexMap<String, ResponseEntry>, key: String, entry: ResponseEntry)
    ensures
        entries(*final(map)) == with_entry(entries(*old(map)), key@, entry@),
{
    map.insert(key, entry);
}

// ─── The clock of the store ────────────────────────────────────────────────

/// `std::time::Instant`, a reading of the monotonic clock.
#[verifier::external_type_specification]
#[verifier::external_body]
pub struct ExInstant(std::time::Instant);

/// The time from one reading of the monotonic clock to a later one.
pub uninterp spec fn span_since(
    later: std::time::Instant,
    earlier: std::time::Instant,
) -> std::time::Duration;

/// A span of time in nanoseconds.
pub uninterp spec fn nanoseconds(d: std::time::Duration) -> u128;

/// `std::time::Instant::now`. Nothing is said about which reading it is.
#[verifier::external_body]
fn instant_now() -> (t: std::time::Instant) {
    std::time::Instant::now()
}

/// `std::time::Instant::duration_since`.
#[verifier::external_body]
fn instant_since(later: std::time::Instant, earlier: std::time::Instant) -> (d: std::time::Duration)
    ensures
        d == span_since(later, earlier),
{
    later.duration_since(earlier)
}

/// `std::time::Duration::as_nanos`: the span in nanoseconds.
#[verifier::external_body]
fn nanos_of(d: std::time::Duration) -> (r: u128)
    ensures
        r == nanoseconds(d),
{
    d.as_nanos()
}

/// Whether a time is one that a clock started at `start` can show: the nanoseconds from there to
/// some reading of the monotonic clock.
pub open spec fn shows(start: std::time::Instant, time: u128) -> bool {
    exists|t: std::time::Instant| time == nanoseconds(#[trigger] span_since(t, start))
}

// ─── The store ─────────────────────────────────────────────────────────────

/// Whether an entry is fresh at a time.
pub open spec fn fresh(entry: Entry, now: u128) -> bool {
    now - entry.stored_at <= STORE_TTL
}

impl ResponseEntry {
    /// Whether the entry is fresh at a time.
    pub fn is_fresh(&self, now: u128) -> (r: bool)
        ensures
            r == fresh(self@, now),
    {
        now <= self.stored_at || now - self.stored_at <= STORE_TTL
    }
}

/// What is left of a full store when an entry comes in: the fresh entries, without the oldest
/// where they fill the store still.
pub open spec fn after_eviction(list: Seq<(Seq<char>, Entry)>, now: u128) -> Seq<
    (Seq<char>, Entry),
> {
    if list.len() >= STORE_MAX {
        let kept = list.filter(|e: (Seq<char>, Entry)| fresh(e.1, now));
        if kept.len() >= STORE_MAX {
            kept.skip(1)
        } else {
            kept
        }
    } else {
        list
    }
}

/// Whether a response consists of tool calls alone.
pub open spec fn only_calls(output: Seq<Jv>) -> bool {
    output.len() > 0 && forall|i: int|
        0 <= i < output.len() ==> (#[trigger] output[i]).text_at("type"@) == Some("function_call"@)
}

/// How many responses in a row consist of tool calls alone, up to one with the given output.
/// The count wraps around past the largest that it can hold.
pub open spec fn calls_in_a_row(
    list: Seq<(Seq<char>, Entry)>,
    output: Seq<Jv>,
    previous: Option<Seq<char>>,
) -> u32 {
    if only_calls(output) {
        match previous {
            Some(id) => match lookup(list, id) {
                Some(entry) => if entry.consecutive_tool_calls == u32::MAX {
                    0
                } else {
                    (entry.consecutive_tool_calls + 1) as u32
                },
                None => 1,
            },
            None => 1,
        }
    } else {
        0
    }
}

/// The entry for a response that comes into a store.
pub open spec fn new_entry(
    list: Seq<(Seq<char>, Entry)>,
    now: u128,
    stamp: u128,
    provider: Seq<char>,
    input: Seq<Jv>,
    output: Seq<Jv>,
    previous: Option<Seq<char>>,
) -> Entry {
    Entry {
        provider,
        input,
        output,
        previous,
        stored_at: stamp,
        consecutive_tool_calls: calls_in_a_row(after_eviction(list, now), output, previous),
    }
}

/// A store after a response has come in. One without an identifier changes nothing.
pub open spec fn after_store(
    list: Seq<(Seq<char>, Entry)>,
    now: u128,
    stamp: u128,
    id: Seq<char>,
    provider: Seq<char>,
    input: Seq<Jv>,
    output: Seq<Jv>,
    previous: Option<Seq<char>>,
) -> Seq<(Seq<char>, Entry)> {
    if id.len() == 0 {
        list
    } else {
        with_entry(
            after_eviction(list, now),
            id,
            new_entry(list, now, stamp, provider, input, output, previous),
        )
    }
}

/// The keys of a list that are not among `seen`.
pub open spec fn unseen(list: Seq<(Seq<char>, Entry)>, seen: Seq<Seq<char>>) -> Set<Seq<char>> {
    list.map_values(|e: (Seq<char>, Entry)| e.0).to_set().difference(seen.to_set())
}

pub proof fn lemma_unseen_shrinks(
    list: Seq<(Seq<char>, Entry)>,
    seen: Seq<Seq<char>>,
    id: Seq<char>,
)
    requires
        lookup(list, id) is Some,
        !seen.contains(id),
    ensures
        unseen(list, seen.push(id)).len() < unseen(list, seen).len(),
{
    let keys = list.map_values(|e: (Seq<char>, Entry)| e.0);
    lemma_lookup(list, id);
    let i = choose|i: int| 0 <= i < list.len() && #[trigger] list[i].0 == id;
    assert(keys[i] == id);
    assert(keys.contains(id));
    vstd::seq_lib::seq_to_set_is_finite(keys);
    assert(seen.push(id).to_set() =~= seen.to_set().insert(id)) by {
        assert forall|x: Seq<char>| seen.push(id).contains(x) <==> (seen.contains(x) || x == id) by {
            if seen.contains(x) {
                let k = choose|k: int| 0 <= k < seen.len() && seen[k] == x;
                assert(seen.push(id)[k] == x);
            }
            if x == id {
                assert(seen.push(id)[seen.len() as int] == x);
            }
        }
    }
    assert(unseen(list, seen.push(id)) =~= unseen(list, seen).remove(id));
    assert(unseen(list, seen).contains(id));
}

/// What a key that is found says of the list, and one that is not.
pub proof fn lemma_lookup(list: Seq<(Seq<char>, Entry)>, key: Seq<char>)
    ensures
        lookup(list, key) is Some <==> exists|i: int|
            0 <= i < list.len() && #[trigger] list[i].0 == key,
        lookup(list, key) matches Some(entry) ==> exists|i: int|
            0 <= i < list.len() && #[trigger] list[i] == (key, entry),
    decreases list.len(),
{
    if list.len() > 0 {
        let head = list.drop_last();
        lemma_lookup(head, key);
        if list.last().0 == key {
            assert(list[list.len() - 1] == (key, list.last().1));
        } else {
            if lookup(head, key) is Some {
                let i = choose|i: int|
                    0 <= i < head.len() && #[trigger] head[i] == (key, lookup(head, key)->0);
                assert(list[i] == head[i]);
            }
            if exists|i: int| 0 <= i < list.len() && #[trigger] list[i].0 == key {
                let i = choose|i: int| 0 <= i < list.len() && #[trigger] list[i].0 == key;
                assert(head[i].0 == key);
            }
        }
    }
}

/// The items of a conversation that ends with the response `id`, oldest first: of each response
/// the input, then the output. A response that is missing, or that comes round again, ends it.
pub open spec fn chain_items(
    list: Seq<(Seq<char>, Entry)>,
    id: Seq<char>,
    seen: Seq<Seq<char>>,
) -> Seq<Jv>
    decreases unseen(list, seen).len(),
    when true
    via chain_items_ends
{
    if seen.contains(id) {
        Seq::empty()
    } else {
        match lookup(list, id) {
            Some(entry) => (match entry.previous {
                Some(previous) => chain_items(list, previous, seen.push(id)),
                None => Seq::empty(),
            }) + entry.input + entry.output,
            None => Seq::empty(),
        }
    }
}

#[via_fn]
proof fn chain_items_ends(list: Seq<(Seq<char>, Entry)>, id: Seq<char>, seen: Seq<Seq<char>>) {
    if !seen.contains(id) && lookup(list, id) is Some {
        lemma_unseen_shrinks(list, seen, id);
    }
}

/// Past responses by their identifiers.
pub struct ResponseStore {
    data: indexmap::IndexMap<String, ResponseEntry>,
    started: std::time::Instant,
}

impl View for ResponseStore {
    type V = Seq<(Seq<char>, Entry)>;

    closed spec fn view(&self) -> Seq<(Seq<char>, Entry)> {
        entries(self.data)
    }
}

/// Whether a list of responses is one that a store can hold: each identifier once, and no more
/// entries than there is room for.
pub open spec fn storable(list: Seq<(Seq<char>, Entry)>) -> bool {
    distinct_keys(list) && list.len() <= STORE_MAX
}

fn makes_only_calls(output: &Vec<Json>) -> (r: bool)
    ensures
        r == only_calls(views(output@)),
{
    let ghost all = views(output@);
    let mut i: usize = 0;
    while i < output.len()
        invariant
            i <= output@.len(),
            all == views(output@),
            forall|k: int|
                0 <= k < i ==> (#[trigger] all[k]).text_at("type"@) == Some("function_call"@),
        decreases output@.len() - i,
    {
        if !output[i].text_is("type", "function_call") {
            assert(all[i as int].text_at("type"@) != Some("function_call"@));
            return false;
        }
        i = i + 1;
    }
    output.len() > 0
}

pub proof fn lemma_filter_is_part(list: Seq<(Seq<char>, Entry)>, wanted: spec_fn((Seq<char>, Entry)) -> bool)
    requires
        distinct_keys(list),
    ensures
        distinct_keys(list.filter(wanted)),
        list.filter(wanted).len() <= list.len(),
        forall|i: int|
            0 <= i < list.filter(wanted).len() ==> list.contains(
                #[trigger] list.filter(wanted)[i],
            ),
    decreases list.len(),
{
    reveal(Seq::filter);
    if list.len() > 0 {
        let head = list.drop_last();
        lemma_filter_is_part(head, wanted);
        let part = head.filter(wanted);
        assert forall|i: int| 0 <= i < part.len() implies list.contains(#[trigger] part[i])
            && part[i].0 != list.last().0 by {
            assert(head.contains(part[i]));
            let k = choose|k: int| 0 <= k < head.len() && head[k] == part[i];
            assert(list[k] == part[i]);
            assert(list[k].0 != list[list.len() - 1].0);
        }
        assert(list.contains(list.last())) by {
            assert(list[list.len() - 1] == list.last());
        }
        assert forall|i: int| 0 <= i < list.filter(wanted).len() implies list.contains(
            #[trigger] list.filter(wanted)[i],
        ) by {
            if i < part.len() {
                assert(list.filter(wanted)[i] == part[i]);
            } else {
                assert(list.filter(wanted)[i] == list.last());
            }
        }
        let all = list.filter(wanted);
        assert forall|i: int, j: int| 0 <= i < j < all.len() implies (#[trigger] all[i]).0 != (
        #[trigger] all[j]).0 by {
            assert(all[i] == part[i]);
            if j < part.len() {
                assert(all[j] == part[j]);
            } else {
                assert(all[j] == list.last());
            }
        }
    }
}

proof fn lemma_without_first(list: Seq<(Seq<char>, Entry)>)
    requires
        distinct_keys(list),
        list.len() > 0,
    ensures
        list.filter(|e: (Seq<char>, Entry)| e.0 != list[0].0) == list.skip(1),
{
    let wanted = |e: (Seq<char>, Entry)| e.0 != list[0].0;
    lemma_without_first_up_to(list, wanted, list.len() as int);
    assert(list.take(list.len() as int) =~= list);
}

proof fn lemma_without_first_up_to(
    list: Seq<(Seq<char>, Entry)>,
    wanted: spec_fn((Seq<char>, Entry)) -> bool,
    n: int,
)
    requires
        distinct_keys(list),
        1 <= n <= list.len(),
        wanted == (|e: (Seq<char>, Entry)| e.0 != list[0].0),
    ensures
        list.take(n).filter(wanted) == list.take(n).skip(1),
    decreases n,
{
    reveal(Seq::filter);
    if n == 1 {
        let one = list.take(1);
        assert(one.drop_last() =~= Seq::empty());
        assert(one.drop_last().filter(wanted) =~= Seq::empty());
        assert(!wanted(one.last()));
        assert(one.filter(wanted) =~= one.skip(1));
    } else {
        lemma_without_first_up_to(list, wanted, n - 1);
        assert(list.take(n).drop_last() =~= list.take(n - 1));
        assert(list[0].0 != list[n - 1].0);
        assert(list.take(n - 1).skip(1).push(list[n - 1]) =~= list.take(n).skip(1));
    }
}

pub proof fn lemma_after_eviction(list: Seq<(Seq<char>, Entry)>, now: u128)
    requires
        storable(list),
    ensures
        distinct_keys(after_eviction(list, now)),
        after_eviction(list, now).len() < STORE_MAX,
{
    lemma_filter_is_part(list, |e: (Seq<char>, Entry)| fresh(e.1, now));
}

pub proof fn lemma_with_entry(list: Seq<(Seq<char>, Entry)>, key: Seq<char>, entry: Entry)
    requires
        distinct_keys(list),
    ensures
        distinct_keys(with_entry(list, key, entry)),
        with_entry(list, key, entry).len() <= list.len() + 1,
        lookup(with_entry(list, key, entry), key) == Some(entry),
        forall|other: Seq<char>|
            other != key ==> #[trigger] lookup(with_entry(list, key, entry), other) == lookup(
                list,
                other,
            ),
{
    lemma_lookup(list, key);
    let after = with_entry(list, key, entry);
    if lookup(list, key) is Some {
        lemma_with_value(list, key, entry);
    } else {
        assert(after.drop_last() =~= list);
        assert forall|other: Seq<char>| other != key implies #[trigger] lookup(after, other)
            == lookup(list, other) by {}
        assert(distinct_keys(after));
    }
}

proof fn lemma_with_value(list: Seq<(Seq<char>, Entry)>, key: Seq<char>, entry: Entry)
    requires
        distinct_keys(list),
    ensures
        distinct_keys(with_value(list, key, entry)),
        lookup(with_value(list, key, entry), key) == (if lookup(list, key) is Some {
            Some(entry)
        } else {
            None
        }),
        forall|other: Seq<char>|
            other != key ==> #[trigger] lookup(with_value(list, key, entry), other) == lookup(
                list,
                other,
            ),
    decreases list.len(),
{
    let after = with_value(list, key, entry);
    assert forall|i: int, j: int| 0 <= i < j < after.len() implies (#[trigger] after[i]).0 != (
    #[trigger] after[j]).0 by {
        assert(after[i].0 == list[i].0);
        assert(after[j].0 == list[j].0);
    }
    if list.len() > 0 {
        let head = list.drop_last();
        lemma_with_value(head, key, entry);
        assert(after.drop_last() =~= with_value(head, key, entry));
        assert forall|other: Seq<char>| other != key implies #[trigger] lookup(after, other)
            == lookup(list, other) by {
            assert(lookup(with_value(head, key, entry), other) == lookup(head, other));
        }
    }
}

impl ResponseStore {
    /// Whether the store is in order.
    pub open spec fn wf(&self) -> bool {
        storable(self@)
    }

    /// When the clock of the store was started.
    pub closed spec fn clock_start(&self) -> std::time::Instant {
        self.started
    }

    /// A store that holds nothing.
    pub fn new() -> (r: ResponseStore)
        ensures
            r.wf(),
            r@ == Seq::<(Seq<char>, Entry)>::empty(),
    {
        ResponseStore { data: map_new(), started: instant_now() }
    }

    /// The time on the clock of the store: the nanoseconds from its start to now. When now is, is
    /// left to the clock.
    fn clock(&self) -> (time: u128)
        ensures
            shows(self.clock_start(), time),
    {
        let now = instant_now();
        nanos_of(instant_since(now, self.started))
    }

    /// The entry of a response.
    pub fn get(&self, id: &str) -> (r: Option<ResponseEntry>)
        ensures
            (match r {
                Some(entry) => lookup(self@, id@) == Some(entry@),
                None => lookup(self@, id@) is None,
            }),
    {
        match map_get(&self.data, id) {
            Some(entry) => Some(entry.clone()),
            None => None,
        }
    }

    /// Stores a response. A full store first loses the entries that are no longer fresh, and its
    /// oldest entry where that makes no room.
    ///
    /// What the clock shows when this happens is left to the clock.
    pub fn store(
        &mut self,
        id: &str,
        provider: &str,
        input: Vec<Json>,
        output: Vec<Json>,
        previous_response_id: Option<String>,
    )
        requires
            old(self).wf(),
        ensures
            final(self).wf(),
            final(self).clock_start() == old(self).clock_start(),
            exists|now: u128, stamp: u128|
                shows(old(self).clock_start(), now) && shows(old(self).clock_start(), stamp)
                    && final(self)@ == #[trigger] after_store(
                    old(self)@,
                    now,
                    stamp,
                    id@,
                    provider@,
                    views(input@),
                    views(output@),
                    opt_string(previous_response_id),
                ),
    {
        let now = self.clock();
        let stamp = self.clock();
        self.store_at(now, stamp, id, provider, input, output, previous_response_id);
    }

    /// Stores a response, when the clock shows `now` before and `stamp` after making room.
    pub fn store_at(
        &mut self,
        now: u128,
        stamp: u128,
        id: &str,
        provider: &str,
        input: Vec<Json>,
        output: Vec<Json>,
        previous_response_id: Option<String>,
    )
        requires
            old(self).wf(),
        ensures
            final(self).wf(),
            final(self).clock_start() == old(self).clock_start(),
            final(self)@ == after_store(
                old(self)@,
                now,
                stamp,
                id@,
                provider@,
                views(input@),
                views(output@),
                opt_string(previous_response_id),
            ),
    {
        if id.is_empty() {
            return;
        }
        let ghost before = entries(self.data);
        if map_len(&self.data) >= STORE_MAX {
            map_retain_fresh(&mut self.data, now);
            let ghost kept = entries(self.data);
            proof {
                lemma_filter_is_part(before, |e: (Seq<char>, Entry)| fresh(e.1, now));
            }
            if map_len(&self.data) >= STORE_MAX {
                match map_first_key(&self.data) {
                    Some(oldest) => {
                        map_remove(&mut self.data, oldest.as_str());
                        proof {
                            lemma_without_first(kept);
                            assert((|e: (Seq<char>, Entry)| e.0 != oldest@) =~= (|
                                e: (Seq<char>, Entry),
                            | e.0 != kept[0].0));
                        }
                    },
                    None => {},
                }
            }
        }
        assert(entries(self.data) == after_eviction(before, now));
        let ghost room = entries(self.data);
        let consecutive: u32 = if makes_only_calls(&output) {
            match &previous_response_id {
                Some(previous) => match map_get(&self.data, previous.as_str()) {
                    Some(entry) => entry.consecutive_tool_calls.wrapping_add(1),
                    None => 1,
                },
                None => 1,
            }
        } else {
            0
        };
        let entry = ResponseEntry {
            provider: provider.to_owned(),
            input,
            output,
            previous_response_id,
            stored_at: stamp,
            consecutive_tool_calls: consecutive,
        };
        assert(consecutive == calls_in_a_row(
            room,
            views(output@),
            opt_string(previous_response_id),
        ));
        proof {
            lemma_after_eviction(before, now);
            lemma_with_entry(room, id@, entry@);
        }
        map_insert(&mut self.data, id.to_owned(), entry);
    }

    /// The items of the conversation that ends with a response, oldest first.
    pub fn resolve_chain(&self, previous_response_id: &str) -> (r: Vec<Json>)
        ensures
            views(r@) == chain_items(self@, previous_response_id@, Seq::empty()),
    {
        let ghost list = self@;
        let mut chain: Vec<ResponseEntry> = Vec::new();
        let mut current = previous_response_id.to_owned();
        let mut visited: Vec<String> = Vec::new();
        let mut open = true;
        assert(texts(visited@) =~= Seq::empty());
        assert(flattened(chain@) =~= Seq::empty());
        assert(chain_items(list, current@, texts(visited@)) + flattened(chain@) =~= chain_items(
            list,
            previous_response_id@,
            Seq::empty(),
        ));
        while open
            invariant
                list == self@,
                open ==> chain_items(list, current@, texts(visited@)) + flattened(chain@)
                    == chain_items(list, previous_response_id@, Seq::empty()),
                !open ==> flattened(chain@) == chain_items(
                    list,
                    previous_response_id@,
                    Seq::empty(),
                ),
            decreases
                unseen(list, texts(visited@)).len(),
                if open {
                    1int
                } else {
                    0int
                },
        {
            let ghost rest = chain_items(list, current@, texts(visited@));
            let ghost done = flattened(chain@);
            let ghost seen = texts(visited@);
            if holds(&visited, current.as_str()) {
                assert(rest + done =~= done);
                open = false;
            } else {
                match map_get(&self.data, current.as_str()) {
                    Some(entry) => {
                        let copy = entry.clone();
                        let ghost e = copy@;
                        let ghost chain_before = chain@;
                        proof {
                            lemma_unseen_shrinks(list, seen, current@);
                        }
                        let next = copy_opt(&copy.previous_response_id);
                        chain.push(copy);
                        assert(chain@.drop_last() =~= chain_before);
                        match next {
                            Some(id) => {
                                let ghost at = current@;
                                visited.push(current);
                                assert(texts(visited@) =~= seen.push(at));
                                proof {
                                    let older = chain_items(list, id@, seen.push(at));
                                    assert(older + (e.input + e.output + done) =~= older + e.input
                                        + e.output + done);
                                }
                                current = id;
                            },
                            None => {
                                assert(Seq::<Jv>::empty() + e.input + e.output + done =~= e.input
                                    + e.output + done);
                                open = false;
                            },
                        }
                    },
                    None => {
                        assert(rest + done =~= done);
                        open = false;
                    },
                }
            }
        }
        let mut items: Vec<Json> = Vec::new();
        assert(views(items@) + flattened(chain@) =~= flattened(chain@));
        while chain.len() > 0
            invariant
                views(items@) + flattened(chain@) == chain_items(
                    list,
                    previous_response_id@,
                    Seq::empty(),
                ),
            decreases chain@.len(),
        {
            let ghost before = views(items@);
            let ghost chain_before = chain@;
            let entry = chain.pop().unwrap();
            assert(chain_before.drop_last() =~= chain@);
            let mut input = entry.input;
            let mut output = entry.output;
            let ghost e = (views(input@), views(output@));
            items.append(&mut input);
            assert(views(items@) =~= before + e.0);
            items.append(&mut output);
            assert(views(items@) =~= before + e.0 + e.1);
            assert(before + (e.0 + e.1 + flattened(chain@)) =~= before + e.0 + e.1 + flattened(
                chain@,
            ));
        }
        assert(views(items@) + flattened(chain@) =~= views(items@));
        items
    }
}

/// The items of a list of responses, the newest of which comes first.
spec fn flattened(chain: Seq<ResponseEntry>) -> Seq<Jv>
    decreases chain.len(),
{
    if chain.len() == 0 {
        Seq::empty()
    } else {
        views(chain.last().input@) + views(chain.last().output@) + flattened(chain.drop_last())
    }
}

impl Default for ResponseStore {
    fn default() -> (r: ResponseStore)
        ensures
            r.wf(),
            r@ == Seq::<(Seq<char>, Entry)>::empty(),
    {
        ResponseStore::new()
    }
}

} // verus!
