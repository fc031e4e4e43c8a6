//! What the store of past responses counts, what it throws out, and how a conversation is read
//! from it.

use vstd::prelude::*;

use crate::handlers::kept;
use crate::json::Jv;
use crate::store::{
    after_eviction, after_store, chain_items, fresh, lemma_after_eviction, lemma_filter_is_part,
    lemma_lookup, lemma_with_entry, lookup, new_entry, shows, storable, Entry,
};
use crate::store_laws::{lemma_filter_all, lemma_lookup_at};

verus! {

// ─── What is found ─────────────────────────────────────────────────────────

/// A response is found under its identifier, and under no other.
pub proof fn law_found_by_identifier(list: Seq<(Seq<char>, Entry)>, k: int, id: Seq<char>)
    requires
        storable(list),
    ensures
        0 <= k < list.len() ==> lookup(list, list[k].0) == Some(list[k].1),
        (forall|i: int| 0 <= i < list.len() ==> (#[trigger] list[i]).0 != id) ==> lookup(
            list,
            id,
        ) is None,
{
    if 0 <= k < list.len() {
        lemma_lookup_at(list, k);
    }
    lemma_lookup(list, id);
}

// ─── What is stored ────────────────────────────────────────────────────────

/// A stored response keeps its provider, its input, its output, the response it follows and the
/// time of its storing. A response without an identifier is not stored.
pub proof fn law_stored_response(
    list: Seq<(Seq<char>, Entry)>,
    now: u128,
    stamp: u128,
    id: Seq<char>,
    provider: Seq<char>,
    input: Seq<Jv>,
    output: Seq<Jv>,
    previous: Option<Seq<char>>,
)
    requires
        storable(list),
    ensures
        ({
            let after = after_store(list, now, stamp, id, provider, input, output, previous);
            &&& id.len() == 0 ==> after == list
            &&& id.len() > 0 ==> {
                let entry = lookup(after, id)->0;
                &&& lookup(after, id) is Some
                &&& entry.provider == provider
                &&& entry.input == input
                &&& entry.output == output
                &&& entry.previous == previous
                &&& entry.stored_at == stamp
            }
        }),
{
    lemma_after_eviction(list, now);
    lemma_with_entry(
        after_eviction(list, now),
        id,
        new_entry(list, now, stamp, provider, input, output, previous),
    );
}

/// A response that was kept was stored as it is, at times that the clock of the store shows.
pub proof fn law_kept_is_stored(
    start: std::time::Instant,
    before: Seq<(Seq<char>, Entry)>,
    after: Seq<(Seq<char>, Entry)>,
    id: Seq<char>,
    provider: Seq<char>,
    input: Seq<Jv>,
    output: Seq<Jv>,
    previous: Option<Seq<char>>,
) -> (times: (u128, u128))
    requires
        kept(start, before, after, id, provider, input, output, previous),
    ensures
        shows(start, times.0),
        shows(start, times.1),
        after == after_store(before, times.0, times.1, id, provider, input, output, previous),
{
    let (now, stamp) = choose|now: u128, stamp: u128|
        shows(start, now) && shows(start, stamp) && after == #[trigger] after_store(
            before,
            now,
            stamp,
            id,
            provider,
            input,
            output,
            previous,
        );
    (now, stamp)
}

/// The count of a stored response. Where its output is empty, or holds an item that is no
/// function call, the count is zero, whatever else it holds. Where its output is function calls
/// alone, the count is one more than that of the response it follows, and one where that is not
/// kept or there is none; it is positive only there. Past the greatest count it starts at zero.
pub proof fn law_count_of_stored_calls(
    list: Seq<(Seq<char>, Entry)>,
    now: u128,
    stamp: u128,
    id: Seq<char>,
    provider: Seq<char>,
    input: Seq<Jv>,
    output: Seq<Jv>,
    previous: Option<Seq<char>>,
)
    requires
        storable(list),
        id.len() > 0,
    ensures
        ({
            let after = after_store(list, now, stamp, id, provider, input, output, previous);
            let count = lookup(after, id)->0.consecutive_tool_calls;
            &&& output.len() == 0 ==> count == 0
            &&& forall|i: int|
                0 <= i < output.len() && (#[trigger] output[i]).text_at("type"@) != Some(
                    "function_call"@,
                ) ==> count == 0
            &&& count > 0 ==> output.len() > 0 && forall|i: int|
                0 <= i < output.len() ==> (#[trigger] output[i]).text_at("type"@) == Some(
                    "function_call"@,
                )
            &&& output.len() > 0 && (forall|i: int|
                0 <= i < output.len() ==> (#[trigger] output[i]).text_at("type"@) == Some(
                    "function_call"@,
                )) ==> (match previous {
                None => count == 1,
                Some(other) => (other != id || list.len() < 500) ==> (match lookup(
                    if other != id {
                        after
                    } else {
                        list
                    },
                    other,
                ) {
                    None => count == 1,
                    Some(entry) => if entry.consecutive_tool_calls == u32::MAX {
                        count == 0
                    } else {
                        count == entry.consecutive_tool_calls + 1
                    },
                }),
            })
        }),
{
    lemma_after_eviction(list, now);
    lemma_with_entry(
        after_eviction(list, now),
        id,
        new_entry(list, now, stamp, provider, input, output, previous),
    );
}

/// A new identifier goes behind the others, and one that is stored again keeps its place, where
/// there is room.
pub proof fn law_order_of_entries(
    list: Seq<(Seq<char>, Entry)>,
    now: u128,
    stamp: u128,
    id: Seq<char>,
    provider: Seq<char>,
    input: Seq<Jv>,
    output: Seq<Jv>,
    previous: Option<Seq<char>>,
)
    requires
        storable(list),
        list.len() < 500,
        id.len() > 0,
    ensures
        ({
            let after = after_store(list, now, stamp, id, provider, input, output, previous);
            &&& (forall|k: int| 0 <= k < list.len() ==> (#[trigger] list[k]).0 != id)
                ==> after.drop_last() == list && after.last().0 == id
            &&& (exists|k: int| 0 <= k < list.len() && (#[trigger] list[k]).0 == id) ==> after.len()
                == list.len() && forall|k: int|
                0 <= k < list.len() ==> (#[trigger] after[k]).0 == list[k].0
        }),
{
    lemma_lookup(list, id);
    let after = after_store(list, now, stamp, id, provider, input, output, previous);
    if lookup(list, id) is None {
        assert(after.drop_last() =~= list);
    }
}

// ─── What is thrown out ────────────────────────────────────────────────────

proof fn lemma_filter_loses(
    list: Seq<(Seq<char>, Entry)>,
    wanted: spec_fn((Seq<char>, Entry)) -> bool,
    k: int,
)
    requires
        0 <= k < list.len(),
        !wanted(list[k]),
    ensures
        list.filter(wanted).len() < list.len(),
    decreases list.len(),
{
    reveal(Seq::filter);
    let head = list.drop_last();
    head.lemma_filter_len(wanted);
    if k < list.len() - 1 {
        assert(head[k] == list[k]);
        lemma_filter_loses(head, wanted, k);
    }
}

/// In a store of five hundred responses some of which are older than an hour, exactly those go
/// when another one is stored: every other response is kept as it is.
pub proof fn law_old_responses_go(
    list: Seq<(Seq<char>, Entry)>,
    now: u128,
    stamp: u128,
    id: Seq<char>,
    provider: Seq<char>,
    input: Seq<Jv>,
    output: Seq<Jv>,
    previous: Option<Seq<char>>,
    old: int,
    k: int,
)
    requires
        storable(list),
        list.len() == 500,
        id.len() > 0,
        0 <= old < list.len(),
        now - list[old].1.stored_at > 3_600_000_000_000,
        0 <= k < list.len(),
        list[k].0 != id,
    ensures
        lookup(
            after_store(list, now, stamp, id, provider, input, output, previous),
            list[k].0,
        ) == (if now - list[k].1.stored_at <= 3_600_000_000_000 {
            Some(list[k].1)
        } else {
            None
        }),
{
    let wanted = |e: (Seq<char>, Entry)| fresh(e.1, now);
    let room = after_eviction(list, now);
    let part = list.filter(wanted);
    assert(!wanted(list[old]));
    lemma_filter_loses(list, wanted, old);
    lemma_filter_is_part(list, wanted);
    lemma_after_eviction(list, now);
    assert(room == part);
    lemma_with_entry(room, id, new_entry(list, now, stamp, provider, input, output, previous));
    lemma_lookup(part, list[k].0);
    if wanted(list[k]) {
        list.lemma_filter_contains(wanted, k);
        let j = choose|j: int| 0 <= j < part.len() && part[j] == list[k];
        lemma_lookup_at(part, j);
    } else if lookup(part, list[k].0) is Some {
        let j = choose|j: int| 0 <= j < part.len() && #[trigger] part[j].0 == list[k].0;
        list.lemma_filter_pred(wanted, j);
        assert(list.contains(part[j]));
        let i = choose|i: int| 0 <= i < list.len() && list[i] == part[j];
        if i < k {
            assert(list[i].0 != list[k].0);
        } else if k < i {
            assert(list[k].0 != list[i].0);
        }
    }
}

/// In a store of five hundred responses none of which is older than an hour, the one that came
/// first goes when another one is stored, and no other.
pub proof fn law_first_response_goes(
    list: Seq<(Seq<char>, Entry)>,
    now: u128,
    stamp: u128,
    id: Seq<char>,
    provider: Seq<char>,
    input: Seq<Jv>,
    output: Seq<Jv>,
    previous: Option<Seq<char>>,
    k: int,
)
    requires
        storable(list),
        list.len() == 500,
        id.len() > 0,
        forall|i: int|
            0 <= i < list.len() ==> now - (#[trigger] list[i]).1.stored_at <= 3_600_000_000_000,
        0 <= k < list.len(),
        list[k].0 != id,
    ensures
        lookup(
            after_store(list, now, stamp, id, provider, input, output, previous),
            list[k].0,
        ) == (if k == 0 {
            None
        } else {
            Some(list[k].1)
        }),
{
    let wanted = |e: (Seq<char>, Entry)| fresh(e.1, now);
    assert forall|i: int| 0 <= i < list.len() implies wanted(#[trigger] list[i]) by {
        assert(now - list[i].1.stored_at <= 3_600_000_000_000);
    }
    lemma_filter_all(list, wanted);
    let room = after_eviction(list, now);
    assert(room =~= list.skip(1));
    lemma_after_eviction(list, now);
    lemma_with_entry(room, id, new_entry(list, now, stamp, provider, input, output, previous));
    lemma_lookup(room, list[k].0);
    if k > 0 {
        assert(room[k - 1] == list[k]);
        lemma_lookup_at(room, k - 1);
    } else if lookup(room, list[0].0) is Some {
        let j = choose|j: int| 0 <= j < room.len() && #[trigger] room[j].0 == list[0].0;
        assert(room[j] == list[j + 1]);
        assert(list[0].0 != list[j + 1].0);
    }
}

/// In a store of fewer than five hundred responses nothing goes, however old it is.
pub proof fn law_nothing_goes_early(
    list: Seq<(Seq<char>, Entry)>,
    now: u128,
    stamp: u128,
    id: Seq<char>,
    provider: Seq<char>,
    input: Seq<Jv>,
    output: Seq<Jv>,
    previous: Option<Seq<char>>,
    other: Seq<char>,
)
    requires
        storable(list),
        list.len() < 500,
        other != id,
    ensures
        lookup(after_store(list, now, stamp, id, provider, input, output, previous), other)
            == lookup(list, other),
{
    if id.len() > 0 {
        lemma_with_entry(
            after_eviction(list, now),
            id,
            new_entry(list, now, stamp, provider, input, output, previous),
        );
    }
}

// ─── Conversations ─────────────────────────────────────────────────────────

/// The conversation behind a response: nothing for one that is not kept; its input and then its
/// output for one that follows nothing, itself, or a response that is not kept; and for one that
/// follows another whose own predecessor is not kept, is this one or is itself, first the input
/// and output of that other response.
pub proof fn law_conversation(list: Seq<(Seq<char>, Entry)>, id: Seq<char>)
    ensures
        lookup(list, id) is None ==> chain_items(list, id, Seq::empty()).len() == 0,
        lookup(list, id) matches Some(entry) ==> {
            let items = chain_items(list, id, Seq::empty());
            &&& entry.previous is None || entry.previous == Some(id) || lookup(
                list,
                entry.previous->0,
            ) is None ==> items == entry.input + entry.output
            &&& entry.previous matches Some(other) ==> (lookup(list, other) matches Some(
                earlier,
            ) ==> (other != id && (earlier.previous is None || earlier.previous == Some(id)
                || earlier.previous == Some(other) || lookup(list, earlier.previous->0) is None)
                ==> items == earlier.input + earlier.output + entry.input + entry.output))
        },
{
    reveal_with_fuel(chain_items, 4);
    let none = Seq::<Seq<char>>::empty();
    let one = none.push(id);
    assert(one[0] == id);
    assert(one.contains(id));
    if let Some(entry) = lookup(list, id) {
        assert(Seq::<Jv>::empty() + entry.input + entry.output =~= entry.input + entry.output);
        if let Some(other) = entry.previous {
            if other != id {
                assert(!one.contains(other)) by {
                    assert forall|i: int| 0 <= i < one.len() implies one[i] != other by {}
                }
                let two = one.push(other);
                assert(two[0] == id && two[1] == other);
                assert(two.contains(id) && two.contains(other));
                if let Some(earlier) = lookup(list, other) {
                    assert(Seq::<Jv>::empty() + earlier.input + earlier.output =~= earlier.input
                        + earlier.output);
                }
            }
        }
    }
}

} // verus!
