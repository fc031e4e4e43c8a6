//! What the store of past responses keeps, and what it gives back.

use vstd::prelude::*;

use crate::json::Jv;
use crate::store::{
    after_eviction, after_store, calls_in_a_row, chain_items, distinct_keys, fresh,
    lemma_after_eviction, lemma_filter_is_part, lemma_lookup, lemma_unseen_shrinks,
    lemma_with_entry, lookup, new_entry, only_calls, storable, unseen, with_entry, Entry,
    STORE_MAX,
};

verus! {

/// A response that was stored is found again, as it was stored.
pub proof fn law_read_after_write(
    list: Seq<(Seq<char>, Entry)>,
    now: u128,
    stamp: u128,
    id: Seq<char>,
    provider: Seq<char>,
    input: Seq<Jv>,
    output: Seq<Jv>,
    previous: Option<Seq<char>>,
)
    requires
        storable(list),
        id.len() > 0,
    ensures
        storable(after_store(list, now, stamp, id, provider, input, output, previous)),
        lookup(after_store(list, now, stamp, id, provider, input, output, previous), id) == Some(
            new_entry(list, now, stamp, provider, input, output, previous),
        ),
{
    lemma_after_eviction(list, now);
    lemma_with_entry(
        after_eviction(list, now),
        id,
        new_entry(list, now, stamp, provider, input, output, previous),
    );
}

/// Storing one response leaves the others as they are, as long as the store has room.
pub proof fn law_others_stay(
    list: Seq<(Seq<char>, Entry)>,
    now: u128,
    stamp: u128,
    id: Seq<char>,
    provider: Seq<char>,
    input: Seq<Jv>,
    output: Seq<Jv>,
    previous: Option<Seq<char>>,
    other: Seq<char>,
)
    requires
        storable(list),
        list.len() < STORE_MAX,
        other != id,
    ensures
        lookup(after_store(list, now, stamp, id, provider, input, output, previous), other)
            == lookup(list, other),
{
    if id.len() > 0 {
        lemma_with_entry(
            after_eviction(list, now),
            id,
            new_entry(list, now, stamp, provider, input, output, previous),
        );
    }
}

/// Nothing comes into a store but what is stored: every entry after storing a response is that
/// response or was there before.
pub proof fn law_nothing_else_comes_in(
    list: Seq<(Seq<char>, Entry)>,
    now: u128,
    stamp: u128,
    id: Seq<char>,
    provider: Seq<char>,
    input: Seq<Jv>,
    output: Seq<Jv>,
    previous: Option<Seq<char>>,
    other: Seq<char>,
)
    requires
        storable(list),
        other != id,
        lookup(after_store(list, now, stamp, id, provider, input, output, previous), other) is Some,
    ensures
        lookup(after_store(list, now, stamp, id, provider, input, output, previous), other)
            == lookup(list, other),
{
    let room = after_eviction(list, now);
    if id.len() > 0 {
        lemma_after_eviction(list, now);
        lemma_with_entry(
            room,
            id,
            new_entry(list, now, stamp, provider, input, output, previous),
        );
        let entry = lookup(room, other)->0;
        lemma_lookup(room, other);
        let i = choose|i: int| 0 <= i < room.len() && #[trigger] room[i] == (other, entry);
        lemma_filter_is_part(list, |e: (Seq<char>, Entry)| fresh(e.1, now));
        let kept = list.filter(|e: (Seq<char>, Entry)| fresh(e.1, now));
        assert(list.contains(room[i])) by {
            if list.len() >= STORE_MAX {
                if kept.len() >= STORE_MAX {
                    assert(room[i] == kept[i + 1]);
                } else {
                    assert(room[i] == kept[i]);
                }
            } else {
                assert(list[i] == room[i]);
            }
        }
        let k = choose|k: int| 0 <= k < list.len() && list[k] == room[i];
        lemma_lookup_at(list, k);
    }
}

pub proof fn lemma_lookup_at(list: Seq<(Seq<char>, Entry)>, k: int)
    requires
        distinct_keys(list),
        0 <= k < list.len(),
    ensures
        lookup(list, list[k].0) == Some(list[k].1),
{
    lemma_lookup(list, list[k].0);
    assert(list[k].0 == list[k].0);
    let entry = lookup(list, list[k].0)->0;
    let i = choose|i: int| 0 <= i < list.len() && #[trigger] list[i] == (list[k].0, entry);
    if i < k {
        assert(list[i].0 != list[k].0);
    } else if k < i {
        assert(list[k].0 != list[i].0);
    }
}

/// A full store whose entries are all fresh loses its oldest entry, and no other.
pub proof fn law_full_store_loses_its_oldest(list: Seq<(Seq<char>, Entry)>, now: u128)
    requires
        storable(list),
        list.len() == STORE_MAX,
        forall|i: int| 0 <= i < list.len() ==> fresh((#[trigger] list[i]).1, now),
    ensures
        after_eviction(list, now) == list.skip(1),
{
    lemma_filter_all(list, |e: (Seq<char>, Entry)| fresh(e.1, now));
}

pub proof fn lemma_filter_all(
    list: Seq<(Seq<char>, Entry)>,
    wanted: spec_fn((Seq<char>, Entry)) -> bool,
)
    requires
        forall|i: int| 0 <= i < list.len() ==> wanted(#[trigger] list[i]),
    ensures
        list.filter(wanted) == list,
    decreases list.len(),
{
    reveal(Seq::filter);
    if list.len() > 0 {
        lemma_filter_all(list.drop_last(), wanted);
        assert(wanted(list[list.len() - 1]));
        assert(list.drop_last().push(list.last()) =~= list);
    } else {
        assert(list.filter(wanted) =~= list);
    }
}

/// A response made of tool calls alone counts one more than the response it follows, and every
/// other response starts the count again.
pub proof fn law_count_of_calls(
    list: Seq<(Seq<char>, Entry)>,
    output: Seq<Jv>,
    previous: Seq<char>,
)
    ensures
        !only_calls(output) ==> calls_in_a_row(list, output, Some(previous)) == 0,
        only_calls(output) && lookup(list, previous) is None ==> calls_in_a_row(
            list,
            output,
            Some(previous),
        ) == 1,
        only_calls(output) && (lookup(list, previous) matches Some(entry)
            && entry.consecutive_tool_calls < u32::MAX) ==> calls_in_a_row(
            list,
            output,
            Some(previous),
        ) == lookup(list, previous)->0.consecutive_tool_calls + 1,
{
}

/// Whether no response of a list follows the response `id`.
pub open spec fn unreferenced(list: Seq<(Seq<char>, Entry)>, id: Seq<char>) -> bool {
    forall|i: int| 0 <= i < list.len() ==> (#[trigger] list[i]).1.previous != Some(id)
}

proof fn lemma_chain_without(
    list: Seq<(Seq<char>, Entry)>,
    id: Seq<char>,
    entry: Entry,
    at: Seq<char>,
    seen: Seq<Seq<char>>,
)
    requires
        distinct_keys(list),
        lookup(list, id) is None,
        unreferenced(list, id),
        at != id,
    ensures
        chain_items(with_entry(list, id, entry), at, seen) == chain_items(list, at, seen),
    decreases unseen(list, seen).len(),
{
    let after = with_entry(list, id, entry);
    lemma_with_entry(list, id, entry);
    if !seen.contains(at) && lookup(list, at) is Some {
        let e = lookup(list, at)->0;
        lemma_lookup(list, at);
        let i = choose|i: int| 0 <= i < list.len() && #[trigger] list[i] == (at, e);
        assert(list[i].1.previous != Some(id));
        if e.previous is Some {
            lemma_unseen_shrinks(list, seen, at);
            lemma_chain_without(list, id, entry, e.previous->0, seen.push(at));
        }
    }
}

proof fn lemma_chain_seen(
    list: Seq<(Seq<char>, Entry)>,
    id: Seq<char>,
    at: Seq<char>,
    seen: Seq<Seq<char>>,
    more: Seq<Seq<char>>,
)
    requires
        distinct_keys(list),
        forall|x: Seq<char>| more.contains(x) <==> (seen.contains(x) || x == id),
        forall|i: int| 0 <= i < list.len() && (#[trigger] list[i]).0 != id ==> list[i].1.previous
            != Some(id),
        at != id,
    ensures
        chain_items(list, at, more) == chain_items(list, at, seen),
    decreases unseen(list, seen).len(),
{
    if !seen.contains(at) && lookup(list, at) is Some {
        let e = lookup(list, at)->0;
        lemma_lookup(list, at);
        let i = choose|i: int| 0 <= i < list.len() && #[trigger] list[i] == (at, e);
        assert(list[i].1.previous != Some(id));
        if e.previous is Some {
            lemma_unseen_shrinks(list, seen, at);
            assert forall|x: Seq<char>| more.push(at).contains(x) <==> (seen.push(at).contains(x)
                || x == id) by {
                lemma_push_contains(more, at, x);
                lemma_push_contains(seen, at, x);
            }
            lemma_chain_seen(list, id, e.previous->0, seen.push(at), more.push(at));
        }
    }
}

proof fn lemma_push_contains(s: Seq<Seq<char>>, x: Seq<char>, y: Seq<char>)
    ensures
        s.push(x).contains(y) <==> (s.contains(y) || y == x),
{
    if s.contains(y) {
        let k = choose|k: int| 0 <= k < s.len() && s[k] == y;
        assert(s.push(x)[k] == y);
    }
    if y == x {
        assert(s.push(x)[s.len() as int] == y);
    }
}

/// A new response extends the conversation it follows by its input and its output.
pub proof fn law_chain_grows(
    list: Seq<(Seq<char>, Entry)>,
    now: u128,
    stamp: u128,
    id: Seq<char>,
    provider: Seq<char>,
    input: Seq<Jv>,
    output: Seq<Jv>,
    previous: Seq<char>,
)
    requires
        storable(list),
        list.len() < STORE_MAX,
        id.len() > 0,
        previous != id,
        lookup(list, id) is None,
        unreferenced(list, id),
    ensures
        chain_items(
            after_store(list, now, stamp, id, provider, input, output, Some(previous)),
            id,
            Seq::empty(),
        ) == chain_items(list, previous, Seq::empty()) + input + output,
{
    let entry = new_entry(list, now, stamp, provider, input, output, Some(previous));
    let after = with_entry(list, id, entry);
    lemma_with_entry(list, id, entry);
    lemma_chain_without(list, id, entry, previous, Seq::empty());
    let seen = Seq::<Seq<char>>::empty();
    assert forall|i: int| 0 <= i < after.len() && (#[trigger] after[i]).0 != id implies after[i].1.previous
        != Some(id) by {
        assert(after[i] == list[i]);
    }
    assert forall|x: Seq<char>| seen.push(id).contains(x) <==> (seen.contains(x) || x == id) by {
        lemma_push_contains(seen, id, x);
    }
    lemma_chain_seen(after, id, previous, seen, seen.push(id));
}

/// The first response of a conversation is the whole of it.
pub proof fn law_chain_starts(
    list: Seq<(Seq<char>, Entry)>,
    now: u128,
    stamp: u128,
    id: Seq<char>,
    provider: Seq<char>,
    input: Seq<Jv>,
    output: Seq<Jv>,
)
    requires
        storable(list),
        id.len() > 0,
    ensures
        chain_items(
            after_store(list, now, stamp, id, provider, input, output, None),
            id,
            Seq::empty(),
        ) == input + output,
{
    law_read_after_write(list, now, stamp, id, provider, input, output, None);
    assert(Seq::<Jv>::empty() + input + output =~= input + output);
}

} // verus!
