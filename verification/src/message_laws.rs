//! What holds of every repaired message list.

use vstd::prelude::*;
use vstd::seq_lib::{group_to_multiset_ensures, lemma_multiset_commutative};

use crate::json::Jv;
use crate::messages::{
    admits_result, answers, cut_message, is_afterthought, is_caller, is_tool, joins, last_caller,
    merge_step, merged, repaired, results_end, trimmed_messages, truncated, validated,
    with_paragraph, without_leading_tools, KEEP_RECENT_FULL, MAX_MESSAGES,
};

verus! {

/// No tool result is an orphan: every one directly follows another tool result or an assistant
/// message.
pub open spec fn orphan_free(ms: Seq<Jv>) -> bool {
    forall|i: int|
        0 <= i < ms.len() && is_tool(#[trigger] ms[i]) ==> i > 0 && admits_result(ms[i - 1])
}

/// Whether `m` makes tool calls or is a tool result.
pub open spec fn is_exchange(m: Jv) -> bool {
    is_tool(m) || is_caller(m)
}

/// Every tool result directly follows another tool result or an assistant message with tool
/// calls.
pub open spec fn well_ordered(ms: Seq<Jv>) -> bool {
    forall|i: int|
        0 <= i < ms.len() && is_tool(#[trigger] ms[i]) ==> i > 0 && is_exchange(ms[i - 1])
}

/// The messages that are no tool results.
pub open spec fn spoken(ms: Seq<Jv>) -> Seq<Jv> {
    ms.filter(|m: Jv| !is_tool(m))
}

/// What the translation to a chat request does to a message list.
pub open spec fn prepared(ms: Seq<Jv>) -> Seq<Jv> {
    validated(trimmed_messages(truncated(merged(repaired(Seq::empty(), ms)))))
}

pub proof fn lemma_roles_differ()
    ensures
        "assistant"@ != "tool"@,
        "user"@ != "tool"@,
        "user"@ != "assistant"@,
        "role"@ != "content"@,
        "tool_calls"@ != "content"@,
{
    reveal_strlit("assistant");
    reveal_strlit("tool");
    reveal_strlit("user");
    reveal_strlit("role");
    reveal_strlit("content");
    reveal_strlit("tool_calls");
    assert("user"@[0] == 'u');
    assert("tool"@[0] == 't');
    assert("role"@.len() == 4);
    assert("content"@.len() == 7);
    assert("tool_calls"@.len() == 10);
}

/// Validation leaves no orphan tool result.
pub proof fn law_validated_is_orphan_free(ms: Seq<Jv>)
    ensures
        orphan_free(validated(ms)),
        validated(ms).len() <= ms.len(),
    decreases ms.len(),
{
    if ms.len() > 0 {
        law_validated_is_orphan_free(ms.drop_last());
    }
}

/// Validation drops nothing from a list without orphan tool results.
pub proof fn law_validation_keeps_orphan_free(ms: Seq<Jv>)
    requires
        orphan_free(ms),
    ensures
        validated(ms) == ms,
    decreases ms.len(),
{
    if ms.len() > 0 {
        let head = ms.drop_last();
        assert forall|i: int| 0 <= i < head.len() && is_tool(#[trigger] head[i]) implies i > 0
            && admits_result(head[i - 1]) by {
            assert(is_tool(ms[i]));
        }
        law_validation_keeps_orphan_free(head);
        if is_tool(ms.last()) {
            assert(is_tool(ms[ms.len() - 1]));
        }
        assert(head.push(ms.last()) =~= ms);
    } else {
        assert(validated(ms) =~= ms);
    }
}

/// Validating twice is validating once.
pub proof fn law_validation_is_idempotent(ms: Seq<Jv>)
    ensures
        validated(validated(ms)) == validated(ms),
{
    law_validated_is_orphan_free(ms);
    law_validation_keeps_orphan_free(validated(ms));
}

pub proof fn lemma_last_caller(ms: Seq<Jv>)
    ensures
        (match last_caller(ms) {
            Some(i) => 0 <= i < ms.len() && is_caller(ms[i]) && forall|k: int|
                i < k < ms.len() ==> !is_caller(#[trigger] ms[k]),
            None => forall|k: int| 0 <= k < ms.len() ==> !is_caller(#[trigger] ms[k]),
        }),
    decreases ms.len(),
{
    if ms.len() > 0 && !is_caller(ms.last()) {
        lemma_last_caller(ms.drop_last());
        assert forall|k: int|
            (match last_caller(ms) {
                Some(i) => i < k < ms.len(),
                None => 0 <= k < ms.len(),
            }) implies !is_caller(#[trigger] ms[k]) by {
            if k < ms.len() - 1 {
                assert(ms.drop_last()[k] == ms[k]);
            }
        }
    }
}

pub proof fn lemma_results_end(ms: Seq<Jv>, i: int)
    requires
        0 <= i <= ms.len(),
    ensures
        i <= results_end(ms, i) <= ms.len(),
        forall|k: int| i <= k < results_end(ms, i) ==> is_tool(#[trigger] ms[k]),
        results_end(ms, i) < ms.len() ==> !is_tool(ms[results_end(ms, i)]),
    decreases ms.len() - i,
{
    if i < ms.len() && is_tool(ms[i]) {
        lemma_results_end(ms, i + 1);
    }
}

proof fn lemma_repaired_well_ordered(done: Seq<Jv>, rest: Seq<Jv>)
    requires
        well_ordered(done),
    ensures
        well_ordered(repaired(done, rest)),
    decreases rest.len(),
{
    if rest.len() > 0 {
        let m = rest[0];
        let tail = rest.skip(1);
        lemma_roles_differ();
        if is_caller(m) {
            let pulled = tail.filter(|x: Jv| answers(m, x));
            let next = done.push(m) + pulled;
            tail.lemma_filter_len(|x: Jv| !answers(m, x));
            assert forall|i: int| 0 <= i < next.len() && is_tool(#[trigger] next[i]) implies i > 0
                && is_exchange(next[i - 1]) by {
                if i < done.len() {
                    assert(is_tool(done[i]));
                } else if i > done.len() + 1 {
                    tail.lemma_filter_pred(|x: Jv| answers(m, x), i - done.len() - 2);
                }
            }
            lemma_repaired_well_ordered(next, tail.filter(|x: Jv| !answers(m, x)));
        } else if is_tool(m) {
            match last_caller(done) {
                Some(c) => {
                    lemma_last_caller(done);
                    lemma_results_end(done, c + 1);
                    let e = results_end(done, c + 1);
                    let next = done.insert(e, m);
                    assert forall|i: int| 0 <= i < next.len() && is_tool(#[trigger] next[i]) implies i
                        > 0 && is_exchange(next[i - 1]) by {
                        if i < e {
                            assert(is_tool(done[i]));
                        } else if i == e {
                            assert(next[e - 1] == done[e - 1]);
                        } else {
                            assert(next[i] == done[i - 1]);
                            assert(is_tool(done[i - 1]));
                            if i == e + 1 {
                                assert(false);
                            }
                        }
                    }
                    lemma_repaired_well_ordered(next, tail);
                },
                None => lemma_repaired_well_ordered(done, tail),
            }
        } else {
            let next = done.push(m);
            assert forall|i: int| 0 <= i < next.len() && is_tool(#[trigger] next[i]) implies i > 0
                && is_exchange(next[i - 1]) by {
                assert(is_tool(done[i]));
            }
            lemma_repaired_well_ordered(next, tail);
        }
    }
}

/// After the repair every tool result directly follows an assistant message with tool calls,
/// or another tool result.
pub proof fn law_repaired_is_well_ordered(ms: Seq<Jv>)
    ensures
        well_ordered(repaired(Seq::empty(), ms)),
{
    lemma_repaired_well_ordered(Seq::empty(), ms);
}

proof fn lemma_filter_insert(s: Seq<Jv>, k: int, m: Jv)
    requires
        0 <= k <= s.len(),
        is_tool(m),
    ensures
        spoken(s.insert(k, m)) == spoken(s),
{
    let p = |x: Jv| !is_tool(x);
    let a = s.take(k);
    let b = s.skip(k);
    assert(s =~= a + b);
    assert(s.insert(k, m) =~= a.push(m) + b);
    Seq::filter_distributes_over_add(a, b, p);
    Seq::filter_distributes_over_add(a.push(m), b, p);
    a.lemma_filter_push(m, p);
}

proof fn lemma_spoken_of_tools(s: Seq<Jv>)
    requires
        forall|i: int| 0 <= i < s.len() ==> is_tool(#[trigger] s[i]),
    ensures
        spoken(s) == Seq::<Jv>::empty(),
    decreases s.len(),
{
    reveal(Seq::filter);
    if s.len() > 0 {
        lemma_spoken_of_tools(s.drop_last());
        assert(is_tool(s[s.len() - 1]));
    } else {
        assert(spoken(s) =~= Seq::empty());
    }
}

proof fn lemma_spoken_of_unclaimed(s: Seq<Jv>, caller: Jv)
    ensures
        spoken(s.filter(|x: Jv| !answers(caller, x))) == spoken(s),
    decreases s.len(),
{
    reveal(Seq::filter);
    let p = |x: Jv| !is_tool(x);
    let q = |x: Jv| !answers(caller, x);
    if s.len() > 0 {
        lemma_spoken_of_unclaimed(s.drop_last(), caller);
        if q(s.last()) {
            s.drop_last().filter(q).lemma_filter_push(s.last(), p);
        }
    } else {
        assert(s.filter(q) =~= s);
    }
}

proof fn lemma_repaired_spoken(done: Seq<Jv>, rest: Seq<Jv>)
    ensures
        spoken(repaired(done, rest)) == spoken(done) + spoken(rest),
    decreases rest.len(),
{
    let p = |x: Jv| !is_tool(x);
    if rest.len() > 0 {
        let m = rest[0];
        let tail = rest.skip(1);
        lemma_roles_differ();
        assert(rest =~= seq![m] + tail);
        Seq::filter_distributes_over_add(seq![m], tail, p);
        assert(seq![m] =~= Seq::<Jv>::empty().push(m));
        Seq::<Jv>::empty().lemma_filter_push(m, p);
        assert(Seq::<Jv>::empty().filter(p) =~= Seq::empty()) by {
            reveal(Seq::filter);
        }
        if is_caller(m) {
            let pulled = tail.filter(|x: Jv| answers(m, x));
            let left = tail.filter(|x: Jv| !answers(m, x));
            tail.lemma_filter_len(|x: Jv| !answers(m, x));
            lemma_repaired_spoken(done.push(m) + pulled, left);
            Seq::filter_distributes_over_add(done.push(m), pulled, p);
            done.lemma_filter_push(m, p);
            assert forall|i: int| 0 <= i < pulled.len() implies is_tool(#[trigger] pulled[i]) by {
                tail.lemma_filter_pred(|x: Jv| answers(m, x), i);
            }
            lemma_spoken_of_tools(pulled);
            lemma_spoken_of_unclaimed(tail, m);
            assert(spoken(done).push(m) + Seq::<Jv>::empty() + spoken(tail) =~= spoken(done) + (
            seq![m] + spoken(tail)));
        } else if is_tool(m) {
            match last_caller(done) {
                Some(c) => {
                    lemma_last_caller(done);
                    lemma_results_end(done, c + 1);
                    let e = results_end(done, c + 1);
                    lemma_filter_insert(done, e, m);
                    lemma_repaired_spoken(done.insert(e, m), tail);
                },
                None => lemma_repaired_spoken(done, tail),
            }
            assert(spoken(rest) =~= spoken(tail));
        } else {
            lemma_repaired_spoken(done.push(m), tail);
            done.lemma_filter_push(m, p);
            assert(spoken(done).push(m) + spoken(tail) =~= spoken(done) + (seq![m] + spoken(tail)));
        }
    } else {
        assert(spoken(rest) =~= Seq::empty()) by {
            reveal(Seq::filter);
        }
        assert(spoken(done) + spoken(rest) =~= spoken(done));
    }
}

/// The repair moves tool results only: all other messages stay, in their order.
pub proof fn law_repair_keeps_what_was_spoken(ms: Seq<Jv>)
    ensures
        spoken(repaired(Seq::empty(), ms)) == spoken(ms),
{
    lemma_repaired_spoken(Seq::empty(), ms);
    assert(spoken(Seq::<Jv>::empty()) =~= Seq::empty()) by {
        reveal(Seq::filter);
    }
    assert(spoken(Seq::<Jv>::empty()) + spoken(ms) =~= spoken(ms));
}

/// Up to the end of the results of the last caller, what is done stays as it is.
proof fn lemma_repaired_prefix(done: Seq<Jv>, rest: Seq<Jv>, n: int)
    requires
        last_caller(done) is Some,
        0 <= n <= results_end(done, last_caller(done)->0 + 1),
    ensures
        n <= repaired(done, rest).len(),
        repaired(done, rest).take(n) == done.take(n),
    decreases rest.len(),
{
    lemma_last_caller(done);
    let c = last_caller(done)->0;
    lemma_results_end(done, c + 1);
    let e = results_end(done, c + 1);
    if rest.len() > 0 {
        let m = rest[0];
        let tail = rest.skip(1);
        lemma_roles_differ();
        if is_caller(m) {
            let pulled = tail.filter(|x: Jv| answers(m, x));
            let next = done.push(m) + pulled;
            tail.lemma_filter_len(|x: Jv| !answers(m, x));
            lemma_caller_then_results(done, m, tail);
            lemma_repaired_prefix(next, tail.filter(|x: Jv| !answers(m, x)), n);
            assert(next.take(n) =~= done.take(n));
        } else if is_tool(m) {
            let next = done.insert(e, m);
            lemma_last_caller_is(next, c);
            lemma_results_end_is(next, c + 1, e + 1);
            lemma_repaired_prefix(next, tail, n);
            assert(next.take(n) =~= done.take(n));
        } else {
            let next = done.push(m);
            lemma_last_caller_is(next, c);
            lemma_results_end_is(next, c + 1, e);
            lemma_repaired_prefix(next, tail, n);
            assert(next.take(n) =~= done.take(n));
        }
    }
}

proof fn lemma_last_caller_is(ms: Seq<Jv>, c: int)
    requires
        0 <= c < ms.len(),
        is_caller(ms[c]),
        forall|k: int| c < k < ms.len() ==> !is_caller(#[trigger] ms[k]),
    ensures
        last_caller(ms) == Some(c),
{
    lemma_last_caller(ms);
    match last_caller(ms) {
        Some(i) => {
            if i < c {
                assert(!is_caller(ms[c]));
            } else if i > c {
                assert(!is_caller(ms[i]));
            }
        },
        None => {
            assert(!is_caller(ms[c]));
        },
    }
}

pub proof fn lemma_results_end_is(ms: Seq<Jv>, i: int, e: int)
    requires
        0 <= i <= e <= ms.len(),
        forall|k: int| i <= k < e ==> is_tool(#[trigger] ms[k]),
        e < ms.len() ==> !is_tool(ms[e]),
    ensures
        results_end(ms, i) == e,
{
    lemma_results_end(ms, i);
    let r = results_end(ms, i);
    if r < e {
        assert(is_tool(ms[r]));
    } else if e < r {
        assert(is_tool(ms[e]));
    }
}

/// A caller placed behind `done` together with its results is the last caller, and its results
/// reach to the end.
pub proof fn lemma_caller_then_results(done: Seq<Jv>, caller: Jv, tail: Seq<Jv>)
    requires
        is_caller(caller),
    ensures
        ({
            let next = done.push(caller) + tail.filter(|x: Jv| answers(caller, x));
            &&& last_caller(next) == Some(done.len() as int)
            &&& results_end(next, done.len() as int + 1) == next.len()
        }),
{
    lemma_roles_differ();
    let pulled = tail.filter(|x: Jv| answers(caller, x));
    let next = done.push(caller) + pulled;
    assert forall|k: int| done.len() < k < next.len() implies is_tool(#[trigger] next[k]) by {
        tail.lemma_filter_pred(|x: Jv| answers(caller, x), k - done.len() - 1);
    }
    assert forall|k: int| done.len() < k < next.len() implies !is_caller(#[trigger] next[k]) by {
        assert(is_tool(next[k]));
    }
    lemma_last_caller_is(next, done.len() as int);
    lemma_results_end_is(next, done.len() as int + 1, next.len() as int);
}

/// Behind an assistant message that makes tool calls stand, directly and in their order, all
/// later results that answer it: once the messages before it have been placed as `done`, the
/// repaired list goes on with the assistant message and then those results.
pub proof fn law_results_follow_their_caller(done: Seq<Jv>, caller: Jv, later: Seq<Jv>)
    requires
        is_caller(caller),
    ensures
        ({
            let results = later.filter(|m: Jv| answers(caller, m));
            (done.push(caller) + results).is_prefix_of(repaired(done, seq![caller] + later))
        }),
{
    let results = later.filter(|m: Jv| answers(caller, m));
    let rest = seq![caller] + later;
    let next = done.push(caller) + results;
    assert(rest.skip(1) =~= later);
    lemma_caller_then_results(done, caller, later);
    lemma_repaired_prefix(next, later.filter(|x: Jv| !answers(caller, x)), next.len() as int);
    assert(next.take(next.len() as int) =~= next);
}

/// The messages without the tool results that no assistant message with tool calls precedes.
pub open spec fn heard(ms: Seq<Jv>) -> Seq<Jv>
    decreases ms.len(),
{
    if ms.len() == 0 || is_caller(ms[0]) {
        ms
    } else if is_tool(ms[0]) {
        heard(ms.skip(1))
    } else {
        seq![ms[0]] + heard(ms.skip(1))
    }
}

proof fn lemma_multiset_parts(s: Seq<Jv>, caller: Jv)
    ensures
        s.filter(|x: Jv| answers(caller, x)).to_multiset().add(
            s.filter(|x: Jv| !answers(caller, x)).to_multiset(),
        ) =~= s.to_multiset(),
    decreases s.len(),
{
    broadcast use group_to_multiset_ensures;

    reveal(Seq::filter);
    if s.len() > 0 {
        lemma_multiset_parts(s.drop_last(), caller);
        assert(s =~= s.drop_last().push(s.last()));
    }
}

proof fn lemma_repaired_all(done: Seq<Jv>, rest: Seq<Jv>)
    requires
        last_caller(done) is Some || (rest.len() > 0 && is_caller(rest[0])),
    ensures
        repaired(done, rest).to_multiset() =~= done.to_multiset().add(rest.to_multiset()),
    decreases rest.len(),
{
    broadcast use group_to_multiset_ensures;

    lemma_roles_differ();
    if rest.len() > 0 {
        let m = rest[0];
        let tail = rest.skip(1);
        assert(rest =~= seq![m] + tail);
        lemma_multiset_commutative(seq![m], tail);
        assert(seq![m] =~= Seq::<Jv>::empty().push(m));
        if is_caller(m) {
            let pulled = tail.filter(|x: Jv| answers(m, x));
            let left = tail.filter(|x: Jv| !answers(m, x));
            tail.lemma_filter_len(|x: Jv| !answers(m, x));
            lemma_caller_then_results(done, m, tail);
            lemma_repaired_all(done.push(m) + pulled, left);
            lemma_multiset_commutative(done.push(m), pulled);
            lemma_multiset_parts(tail, m);
        } else if is_tool(m) {
            lemma_last_caller(done);
            let c = last_caller(done)->0;
            lemma_results_end(done, c + 1);
            let e = results_end(done, c + 1);
            let next = done.insert(e, m);
            lemma_last_caller_is(next, c);
            lemma_repaired_all(next, tail);
        } else {
            assert(done.push(m).drop_last() =~= done);
            lemma_repaired_all(done.push(m), tail);
        }
    }
}

proof fn lemma_repaired_heard(done: Seq<Jv>, rest: Seq<Jv>)
    requires
        last_caller(done) is None,
    ensures
        repaired(done, rest).to_multiset() =~= done.to_multiset().add(heard(rest).to_multiset()),
    decreases rest.len(),
{
    broadcast use group_to_multiset_ensures;

    lemma_roles_differ();
    if rest.len() > 0 {
        let m = rest[0];
        let tail = rest.skip(1);
        if is_caller(m) {
            lemma_repaired_all(done, rest);
        } else if is_tool(m) {
            lemma_repaired_heard(done, tail);
        } else {
            assert(done.push(m).drop_last() =~= done);
            lemma_repaired_heard(done.push(m), tail);
            lemma_multiset_commutative(seq![m], heard(tail));
            assert(seq![m] =~= Seq::<Jv>::empty().push(m));
        }
    }
}

/// The repair keeps every message exactly as often as it is there, but for the tool results that
/// no assistant message with tool calls precedes: those it drops.
pub proof fn law_repair_keeps_every_result(ms: Seq<Jv>)
    ensures
        repaired(Seq::empty(), ms).to_multiset() == heard(ms).to_multiset(),
{
    broadcast use group_to_multiset_ensures;

    lemma_repaired_heard(Seq::empty(), ms);
    assert(repaired(Seq::empty(), ms).to_multiset() =~= heard(ms).to_multiset());
}

/// Two neighbours that merging leaves side by side.
pub open spec fn settled(a: Jv, b: Jv) -> bool {
    !joins(a, b) && !is_afterthought(a, b)
}

/// After merging, no two neighbours are two user texts or two plain assistant texts, and no
/// plain assistant message directly follows one with tool calls.
pub proof fn law_merged_is_settled(ms: Seq<Jv>)
    ensures
        forall|i: int|
            0 < i < merged(ms).len() ==> settled(merged(ms)[i - 1], #[trigger] merged(ms)[i]),
        merged(ms).len() <= ms.len(),
    decreases ms.len(),
{
    if ms.len() > 0 {
        law_merged_is_settled(ms.drop_last());
        lemma_roles_differ();
        let done = merged(ms.drop_last());
        let m = ms.last();
        let next = merge_step(done, m);
        assert forall|i: int| 0 < i < next.len() implies settled(next[i - 1], #[trigger] next[i]) by {
            if i < done.len() - 1 {
                assert(settled(done[i - 1], done[i]));
            } else if i == done.len() - 1 {
                assert(settled(done[i - 1], done[i]));
                if joins(done.last(), m) {
                    let p = with_paragraph(done.last(), m);
                    assert(p.text_at("role"@) == done.last().text_at("role"@));
                    assert(p.get("tool_calls"@) == done.last().get("tool_calls"@));
                }
            }
        }
    }
}

/// Cutting tool outputs short changes no role and no tool call, and touches none of the last
/// messages.
pub proof fn law_truncation_keeps_shape(ms: Seq<Jv>)
    ensures
        truncated(ms).len() == ms.len(),
        forall|i: int|
            0 <= i < ms.len() ==> is_tool(#[trigger] truncated(ms)[i]) == is_tool(ms[i])
                && is_caller(truncated(ms)[i]) == is_caller(ms[i]),
        forall|i: int|
            0 <= i < ms.len() && (!is_tool(ms[i]) || ms.len() - i <= KEEP_RECENT_FULL)
                ==> #[trigger] truncated(ms)[i] == ms[i],
{
    lemma_roles_differ();
    assert forall|i: int| 0 <= i < ms.len() implies is_tool(#[trigger] truncated(ms)[i]) == is_tool(
        ms[i],
    ) && is_caller(truncated(ms)[i]) == is_caller(ms[i]) by {
        let m = ms[i];
        assert(cut_message(m).text_at("role"@) == m.text_at("role"@));
        assert(cut_message(m).get("tool_calls"@) == m.get("tool_calls"@));
    }
}

proof fn lemma_without_leading_tools(ms: Seq<Jv>)
    ensures
        without_leading_tools(ms).len() <= ms.len(),
        without_leading_tools(ms) == ms.skip(ms.len() - without_leading_tools(ms).len()),
        without_leading_tools(ms).len() > 0 ==> !is_tool(without_leading_tools(ms)[0]),
    decreases ms.len(),
{
    if ms.len() > 0 && is_tool(ms[0]) {
        lemma_without_leading_tools(ms.skip(1));
        let r = without_leading_tools(ms);
        assert(ms.skip(1).skip(ms.len() - 1 - r.len()) =~= ms.skip(ms.len() - r.len()));
    } else {
        assert(ms.skip(0) =~= ms);
    }
}

/// A trimmed conversation fits the limit; one that was too long keeps its first two messages,
/// and behind the notice an end of it that starts with no tool result.
pub proof fn law_trimmed_fits(ms: Seq<Jv>)
    ensures
        trimmed_messages(ms).len() <= MAX_MESSAGES,
        ms.len() > MAX_MESSAGES ==> {
            let r = trimmed_messages(ms);
            &&& r.len() >= 3
            &&& r.take(2) == ms.take(2)
            &&& r.skip(3) == ms.skip(ms.len() - (r.len() - 3))
            &&& (r.len() > 3 ==> !is_tool(r[3]))
        },
{
    if ms.len() > MAX_MESSAGES {
        let from = ms.len() - (MAX_MESSAGES - 3);
        lemma_without_leading_tools(ms.skip(from));
        let tail = without_leading_tools(ms.skip(from));
        let r = trimmed_messages(ms);
        assert(ms.skip(from).skip(ms.len() - from - tail.len()) =~= ms.skip(ms.len() - tail.len()));
        assert(r.take(2) =~= ms.take(2));
        assert(r.skip(3) =~= tail);
    }
}

/// Merging keeps every tool result behind a call.
pub proof fn law_merging_keeps_order(ms: Seq<Jv>)
    requires
        well_ordered(ms),
    ensures
        well_ordered(merged(ms)),
        ms.len() > 0 && is_exchange(ms.last()) ==> merged(ms).len() > 0 && is_exchange(
            merged(ms).last(),
        ),
    decreases ms.len(),
{
    if ms.len() > 0 {
        let head = ms.drop_last();
        assert forall|i: int| 0 <= i < head.len() && is_tool(#[trigger] head[i]) implies i > 0
            && is_exchange(head[i - 1]) by {
            assert(is_tool(ms[i]));
        }
        law_merging_keeps_order(head);
        lemma_roles_differ();
        let done = merged(head);
        let m = ms.last();
        let next = merge_step(done, m);
        if is_tool(m) {
            assert(is_tool(ms[ms.len() - 1]));
            assert(is_exchange(head.last()));
        }
        assert forall|i: int| 0 <= i < next.len() && is_tool(#[trigger] next[i]) implies i > 0
            && is_exchange(next[i - 1]) by {
            if i < done.len() - 1 {
                assert(is_tool(done[i]));
                assert(next[i - 1] == done[i - 1]);
            } else if i == done.len() - 1 {
                if joins(done.last(), m) {
                    let p = with_paragraph(done.last(), m);
                    assert(p.text_at("role"@) == done.last().text_at("role"@));
                } else {
                    assert(is_tool(done[i]));
                    assert(next[i - 1] == done[i - 1]);
                }
            }
        }
    }
}

/// Cutting and trimming keep every tool result behind a call.
pub proof fn law_shortening_keeps_order(ms: Seq<Jv>)
    requires
        well_ordered(ms),
    ensures
        well_ordered(trimmed_messages(truncated(ms))),
{
    law_truncation_keeps_shape(ms);
    let cut = truncated(ms);
    assert forall|i: int| 0 <= i < cut.len() && is_tool(#[trigger] cut[i]) implies i > 0
        && is_exchange(cut[i - 1]) by {
        assert(is_tool(ms[i]));
        assert(is_exchange(ms[i - 1]));
        assert(is_tool(cut[i - 1]) == is_tool(ms[i - 1]));
    }
    law_trimmed_fits(cut);
    lemma_roles_differ();
    if cut.len() > MAX_MESSAGES {
        let r = trimmed_messages(cut);
        let back = cut.len() - r.len();
        assert(r[2].text_at("role"@) == Some("user"@));
        assert forall|i: int| 0 <= i < r.len() && is_tool(#[trigger] r[i]) implies i > 0
            && is_exchange(r[i - 1]) by {
            if i < 2 {
                assert(r.take(2)[i] == cut.take(2)[i]);
                assert(r[i] == cut[i]);
                assert(r.take(2)[0] == cut.take(2)[0]);
            } else if i > 3 {
                assert(r.skip(3)[i - 3] == cut.skip(back + 3)[i - 3]);
                assert(r.skip(3)[i - 4] == cut.skip(back + 3)[i - 4]);
                assert(r[i] == cut[back + i]);
                assert(r[i - 1] == cut[back + i - 1]);
            }
        }
    }
}

/// What is in order holds no orphan, so that validation leaves it as it is.
pub proof fn lemma_order_is_valid(ms: Seq<Jv>)
    requires
        well_ordered(ms),
    ensures
        validated(ms) == ms,
{
    assert forall|i: int| 0 <= i < ms.len() && is_tool(#[trigger] ms[i]) implies i > 0
        && admits_result(ms[i - 1]) by {
        assert(is_exchange(ms[i - 1]));
    }
    law_validation_keeps_orphan_free(ms);
}

/// Once the conversation is repaired, merged, cut and trimmed, nothing is left for validation.
pub proof fn lemma_prepared_is_trimmed(ms: Seq<Jv>)
    ensures
        prepared(ms) == trimmed_messages(truncated(merged(repaired(Seq::empty(), ms)))),
        well_ordered(prepared(ms)),
{
    let joined = merged(repaired(Seq::empty(), ms));
    law_repaired_is_well_ordered(ms);
    law_merging_keeps_order(repaired(Seq::empty(), ms));
    law_shortening_keeps_order(joined);
    lemma_order_is_valid(trimmed_messages(truncated(joined)));
}

/// What goes upstream is short enough, and has every tool result behind a call.
pub proof fn law_prepared(ms: Seq<Jv>)
    ensures
        prepared(ms).len() <= MAX_MESSAGES,
        well_ordered(prepared(ms)),
{
    lemma_prepared_is_trimmed(ms);
    law_trimmed_fits(truncated(merged(repaired(Seq::empty(), ms))));
}

} // verus!
