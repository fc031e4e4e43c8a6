//! Where the repair of a conversation puts each message, and what merging, cutting and trimming
//! leave of it.

use vstd::prelude::*;
use vstd::utf8::*;

use crate::json::Jv;
use crate::message_laws::{
    law_results_follow_their_caller, lemma_caller_then_results, lemma_last_caller,
    lemma_prepared_is_trimmed, lemma_results_end, lemma_results_end_is, prepared,
};
use crate::messages::{
    answers, is_caller, is_tool, last_caller, merge_step, merged, repaired, results_end,
    trimmed_messages, truncated, validated, without_leading_tools,
};
use crate::text::{decimal, joined};
use crate::text_laws::law_joined;
use crate::words::lemma_words_differ;

verus! {

// ─── What the laws speak of ────────────────────────────────────────────────

/// A tool result, by its role.
pub open spec fn has_result(m: Jv) -> bool {
    m.text_at("role"@) == Some("tool"@)
}

/// An assistant message that makes tool calls.
pub open spec fn has_calls(m: Jv) -> bool {
    m.text_at("role"@) == Some("assistant"@) && m.get("tool_calls"@) is Some
}

/// Whether one of the calls of a message has the identifier that a tool result answers; a result
/// without one answers the empty identifier.
pub open spec fn called_for(caller: Jv, m: Jv) -> bool {
    match caller.items_at("tool_calls"@) {
        Some(calls) => exists|k: int|
            0 <= k < calls.len() && (#[trigger] calls[k]).text_at("id"@) == Some(
                match m.text_at("tool_call_id"@) {
                    Some(id) => id,
                    None => ""@,
                },
            ),
        None => false,
    }
}

proof fn lemma_answers(caller: Jv, m: Jv)
    ensures
        is_tool(m) == has_result(m),
        is_caller(caller) == has_calls(caller),
        answers(caller, m) == (has_result(m) && called_for(caller, m)),
{
    let id = m.text_or("tool_call_id"@, ""@);
    let calls = caller.items_or_none("tool_calls"@);
    if has_result(m) && called_for(caller, m) {
        let k = choose|k: int|
            0 <= k < calls.len() && (#[trigger] calls[k]).text_at("id"@) == Some(id);
        assert(caller.items_or_none("tool_calls"@)[k].text_at("id"@) == Some(id));
    }
    if answers(caller, m) {
        let k = choose|k: int|
            0 <= k < caller.items_or_none("tool_calls"@).len() && (
            #[trigger] caller.items_or_none("tool_calls"@)[k]).text_at("id"@) == Some(id);
        assert(caller.items_at("tool_calls"@)->0[k].text_at("id"@) == Some(id));
    }
}

// ─── The order of the messages ─────────────────────────────────────────────

proof fn lemma_filter_pushed(s: Seq<Jv>, m: Jv, caller: Jv)
    ensures
        answers(caller, m) ==> s.push(m).filter(|x: Jv| answers(caller, x)) == s.filter(
            |x: Jv| answers(caller, x),
        ).push(m) && s.push(m).filter(|x: Jv| !answers(caller, x)) == s.filter(
            |x: Jv| !answers(caller, x),
        ),
        !answers(caller, m) ==> s.push(m).filter(|x: Jv| answers(caller, x)) == s.filter(
            |x: Jv| answers(caller, x),
        ) && s.push(m).filter(|x: Jv| !answers(caller, x)) == s.filter(
            |x: Jv| !answers(caller, x),
        ).push(m),
{
    s.lemma_filter_push(m, |x: Jv| answers(caller, x));
    s.lemma_filter_push(m, |x: Jv| !answers(caller, x));
}

proof fn lemma_speech_is_appended(done: Seq<Jv>, rest: Seq<Jv>, m: Jv)
    requires
        !is_tool(m),
    ensures
        repaired(done, rest.push(m)) == repaired(done, rest).push(m),
    decreases rest.len(),
{
    reveal_with_fuel(repaired, 2);
    if rest.len() == 0 {
        assert(rest.push(m).skip(1) =~= Seq::empty());
        reveal(Seq::filter);
        assert(done.push(m) + Seq::empty() =~= done.push(m));
    } else {
        let first = rest[0];
        let tail = rest.skip(1);
        assert(rest.push(m)[0] == first);
        assert(rest.push(m).skip(1) =~= tail.push(m));
        if is_caller(first) {
            lemma_filter_pushed(tail, m, first);
            tail.lemma_filter_len(|x: Jv| !answers(first, x));
            lemma_speech_is_appended(
                done.push(first) + tail.filter(|x: Jv| answers(first, x)),
                tail.filter(|x: Jv| !answers(first, x)),
                m,
            );
        } else if is_tool(first) {
            match last_caller(done) {
                Some(i) => lemma_speech_is_appended(
                    done.insert(results_end(done, i + 1), first),
                    tail,
                    m,
                ),
                None => lemma_speech_is_appended(done, tail, m),
            }
        } else {
            lemma_speech_is_appended(done.push(first), tail, m);
        }
    }
}

/// A message that is no tool result stays behind everything that came before it.
pub proof fn law_speech_stays_in_place(ms: Seq<Jv>, m: Jv)
    requires
        m.text_at("role"@) != Some("tool"@),
    ensures
        repaired(Seq::empty(), ms.push(m)) == repaired(Seq::empty(), ms).push(m),
{
    lemma_speech_is_appended(Seq::empty(), ms, m);
}

proof fn lemma_orphan(done: Seq<Jv>, rest: Seq<Jv>, m: Jv)
    requires
        is_tool(m),
        forall|k: int| 0 <= k < rest.len() && is_caller(#[trigger] rest[k]) ==> !answers(rest[k], m),
    ensures
        repaired(done, rest.push(m)) == (match last_caller(repaired(done, rest)) {
            Some(i) => repaired(done, rest).insert(results_end(repaired(done, rest), i + 1), m),
            None => repaired(done, rest),
        }),
    decreases rest.len(),
{
    reveal_with_fuel(repaired, 2);
    lemma_words_differ();
    if rest.len() == 0 {
        assert(rest.push(m).skip(1) =~= Seq::empty());
    } else {
        let first = rest[0];
        let tail = rest.skip(1);
        assert(rest.push(m)[0] == first);
        assert(rest.push(m).skip(1) =~= tail.push(m));
        assert forall|k: int| 0 <= k < tail.len() && is_caller(#[trigger] tail[k]) implies !answers(
            tail[k],
            m,
        ) by {
            assert(tail[k] == rest[k + 1]);
        }
        if is_caller(first) {
            let left = |x: Jv| !answers(first, x);
            lemma_filter_pushed(tail, m, first);
            tail.lemma_filter_len(left);
            let kept = tail.filter(left);
            assert forall|k: int| 0 <= k < kept.len() && is_caller(#[trigger] kept[k]) implies !answers(
                kept[k],
                m,
            ) by {
                assert(kept.contains(kept[k]));
                tail.lemma_filter_contains_rev(left, kept[k]);
                assert(tail.contains(kept[k]));
                let j = choose|j: int| 0 <= j < tail.len() && tail[j] == kept[k];
                assert(is_caller(tail[j]));
            }
            lemma_orphan(done.push(first) + tail.filter(|x: Jv| answers(first, x)), kept, m);
        } else if is_tool(first) {
            match last_caller(done) {
                Some(i) => lemma_orphan(done.insert(results_end(done, i + 1), first), tail, m),
                None => lemma_orphan(done, tail, m),
            }
        } else {
            lemma_orphan(done.push(first), tail, m);
        }
    }
}

/// A tool result that no message before it asked for goes behind the results of the last message
/// with tool calls, and nothing else moves; where no message has made a call it is dropped.
pub proof fn law_unasked_result(ms: Seq<Jv>, m: Jv)
    requires
        has_result(m),
        forall|k: int| 0 <= k < ms.len() && has_calls(#[trigger] ms[k]) ==> !called_for(ms[k], m),
    ensures
        ({
            let before = repaired(Seq::empty(), ms);
            let after = repaired(Seq::empty(), ms.push(m));
            &&& (forall|k: int| 0 <= k < before.len() ==> !has_calls(#[trigger] before[k])) ==> after
                == before
            &&& forall|i: int, j: int|
                #![trigger before[i], before.insert(j, m)]
                0 <= i < j <= before.len() && has_calls(before[i]) && (forall|k: int|
                    i < k < before.len() ==> !has_calls(#[trigger] before[k])) && (forall|k: int|
                    i < k < j ==> has_result(#[trigger] before[k])) && (j < before.len()
                    ==> !has_result(before[j])) ==> after == before.insert(j, m)
        }),
{
    let before = repaired(Seq::empty(), ms);
    let after = repaired(Seq::empty(), ms.push(m));
    assert forall|k: int| 0 <= k < ms.len() && is_caller(#[trigger] ms[k]) implies !answers(
        ms[k],
        m,
    ) by {
        lemma_answers(ms[k], m);
    }
    lemma_orphan(Seq::empty(), ms, m);
    lemma_last_caller(before);
    assert forall|i: int, j: int|
        #![trigger before[i], before.insert(j, m)]
        0 <= i < j <= before.len() && has_calls(before[i]) && (forall|k: int|
            i < k < before.len() ==> !has_calls(#[trigger] before[k])) && (forall|k: int|
            i < k < j ==> has_result(#[trigger] before[k])) && (j < before.len() ==> !has_result(
            before[j],
        )) implies after == before.insert(j, m) by {
        assert(is_caller(before[i]));
        let last = last_caller(before)->0;
        if last < i {
            assert(!is_caller(before[i]));
        }
        if i < last {
            assert(!has_calls(before[last]));
        }
        assert forall|k: int| i + 1 <= k < j implies is_tool(#[trigger] before[k]) by {
            assert(has_result(before[k]));
        }
        lemma_results_end_is(before, i + 1, j);
    }
    if forall|k: int| 0 <= k < before.len() ==> !has_calls(#[trigger] before[k]) {
        if last_caller(before) is Some {
            assert(!has_calls(before[last_caller(before)->0]));
        }
    }
}

proof fn lemma_insert_commutes(done: Seq<Jv>, rest: Seq<Jv>, p: int, m: Jv)
    requires
        is_tool(m),
        last_caller(done) is Some,
        0 <= p <= results_end(done, last_caller(done)->0 + 1),
    ensures
        p <= repaired(done, rest).len(),
        repaired(done.insert(p, m), rest) == repaired(done, rest).insert(p, m),
    decreases rest.len(),
{
    lemma_words_differ();
    let i = last_caller(done)->0;
    lemma_last_caller(done);
    lemma_results_end(done, i + 1);
    let e = results_end(done, i + 1);
    let wide = done.insert(p, m);
    if rest.len() > 0 {
        let first = rest[0];
        let tail = rest.skip(1);
        if is_caller(first) {
            let pulled = tail.filter(|x: Jv| answers(first, x));
            lemma_caller_then_results(done, first, tail);
            tail.lemma_filter_len(|x: Jv| !answers(first, x));
            assert(wide.push(first) + pulled =~= (done.push(first) + pulled).insert(p, m));
            lemma_last_caller(done.push(first) + pulled);
            lemma_results_end(
                done.push(first) + pulled,
                last_caller(done.push(first) + pulled)->0 + 1,
            );
            lemma_insert_commutes(
                done.push(first) + pulled,
                tail.filter(|x: Jv| !answers(first, x)),
                p,
                m,
            );
        } else if is_tool(first) {
            // The place behind the results of the last caller moves by one.
            lemma_last_caller(wide);
            let j: int = if p <= i {
                i + 1
            } else {
                i
            };
            assert(wide[j] == done[i]);
            assert(last_caller(wide) == Some(j)) by {
                let w = last_caller(wide)->0;
                if w > j {
                    if w == p {
                        assert(wide[w] == m);
                    } else if w < p {
                        assert(wide[w] == done[w]);
                    } else {
                        assert(wide[w] == done[w - 1]);
                    }
                }
            }
            assert(results_end(wide, j + 1) == e + 1) by {
                assert forall|k: int| j + 1 <= k < e + 1 implies is_tool(#[trigger] wide[k]) by {
                    if k < p {
                        assert(wide[k] == done[k]);
                    } else if k > p {
                        assert(wide[k] == done[k - 1]);
                    }
                }
                if e + 1 < wide.len() {
                    assert(wide[e + 1] == done[e]);
                }
                lemma_results_end_is(wide, j + 1, e + 1);
            }
            let next = done.insert(e, first);
            assert(wide.insert(e + 1, first) =~= next.insert(p, m));
            lemma_last_caller(next);
            assert(next[i] == done[i]);
            assert(last_caller(next) == Some(i)) by {
                let w = last_caller(next)->0;
                if w > i {
                    if w < e {
                        assert(next[w] == done[w]);
                    } else if w > e {
                        assert(next[w] == done[w - 1]);
                    }
                }
            }
            assert(results_end(next, i + 1) == e + 1) by {
                assert forall|k: int| i + 1 <= k < e + 1 implies is_tool(#[trigger] next[k]) by {
                    if k < e {
                        assert(next[k] == done[k]);
                    }
                }
                if e + 1 < next.len() {
                    assert(next[e + 1] == done[e]);
                }
                lemma_results_end_is(next, i + 1, e + 1);
            }
            lemma_insert_commutes(next, tail, p, m);
        } else {
            let next = done.push(first);
            assert(wide.push(first) =~= next.insert(p, m));
            assert(next.drop_last() =~= done);
            assert(last_caller(next) == Some(i));
            assert(results_end(next, i + 1) == e) by {
                assert forall|k: int| i + 1 <= k < e implies is_tool(#[trigger] next[k]) by {
                    assert(next[k] == done[k]);
                }
                if e < done.len() {
                    assert(next[e] == done[e]);
                }
                lemma_results_end_is(next, i + 1, e);
            }
            lemma_insert_commutes(next, tail, p, m);
        }
    }
}

proof fn lemma_asked_result(done: Seq<Jv>, rest: Seq<Jv>, m: Jv) -> (at: (int, int))
    requires
        is_tool(m),
        exists|k: int| 0 <= k < rest.len() && is_caller(rest[k]) && #[trigger] answers(rest[k], m),
        forall|k: int| 0 <= k < done.len() && is_caller(#[trigger] done[k]) ==> !answers(done[k], m),
    ensures
        0 <= at.0 < at.1 <= repaired(done, rest).len(),
        repaired(done, rest.push(m)) == repaired(done, rest).insert(at.1, m),
        is_caller(repaired(done, rest)[at.0]) && answers(repaired(done, rest)[at.0], m),
        forall|k: int|
            at.0 < k < at.1 ==> answers(
                repaired(done, rest)[at.0],
                #[trigger] repaired(done, rest)[k],
            ),
        forall|k: int|
            0 <= k < at.0 && is_caller(#[trigger] repaired(done, rest)[k]) ==> !answers(
                repaired(done, rest)[k],
                m,
            ),
    decreases rest.len(),
{
    lemma_words_differ();
    let first = rest[0];
    let tail = rest.skip(1);
    let c = choose|k: int|
        0 <= k < rest.len() && is_caller(rest[k]) && #[trigger] answers(rest[k], m);
    assert(rest.push(m)[0] == first);
    assert(rest.push(m).skip(1) =~= tail.push(m));
    if c > 0 {
        assert(tail[c - 1] == rest[c]);
    }
    if is_caller(first) {
        let pulls = |x: Jv| answers(first, x);
        let left = |x: Jv| !answers(first, x);
        let pulled = tail.filter(pulls);
        let kept = tail.filter(left);
        lemma_filter_pushed(tail, m, first);
        tail.lemma_filter_len(left);
        tail.lemma_filter_len(pulls);
        if answers(first, m) {
            let next = done.push(first) + pulled;
            lemma_caller_then_results(done, first, tail);
            assert(done.push(first) + pulled.push(m) =~= next.insert(next.len() as int, m));
            lemma_last_caller(next);
            lemma_results_end(next, last_caller(next)->0 + 1);
            lemma_insert_commutes(next, kept, next.len() as int, m);
            law_results_follow_their_caller(done, first, tail);
            assert(seq![first] + tail =~= rest);
            let all = repaired(done, rest);
            assert(all.take(next.len() as int) =~= next);
            assert(all[done.len() as int] == next[done.len() as int]);
            assert forall|k: int| done.len() < k < next.len() implies answers(
                all[done.len() as int],
                #[trigger] all[k],
            ) by {
                assert(all[k] == next[k]);
                tail.lemma_filter_pred(pulls, k - done.len() - 1);
            }
            assert forall|k: int| 0 <= k < done.len() && is_caller(#[trigger] all[k]) implies !answers(
                all[k],
                m,
            ) by {
                assert(all[k] == next[k]);
                assert(next[k] == done[k]);
            }
            (done.len() as int, next.len() as int)
        } else {
            assert(left(tail[c - 1]));
            tail.lemma_filter_contains(left, c - 1);
            let j = choose|j: int| 0 <= j < kept.len() && kept[j] == tail[c - 1];
            assert(answers(kept[j], m));
            let next = done.push(first) + pulled;
            assert forall|k: int| 0 <= k < next.len() && is_caller(#[trigger] next[k]) implies !answers(
                next[k],
                m,
            ) by {
                if k < done.len() {
                    assert(next[k] == done[k]);
                } else if k > done.len() {
                    tail.lemma_filter_pred(pulls, k - done.len() - 1);
                }
            }
            lemma_asked_result(next, kept, m)
        }
    } else if is_tool(first) {
        assert(answers(tail[c - 1], m));
        match last_caller(done) {
            Some(i) => {
                lemma_last_caller(done);
                lemma_results_end(done, i + 1);
                let e = results_end(done, i + 1);
                let next = done.insert(e, first);
                assert forall|k: int| 0 <= k < next.len() && is_caller(
                    #[trigger] next[k],
                ) implies !answers(next[k], m) by {
                    if k < e {
                        assert(next[k] == done[k]);
                    } else if k > e {
                        assert(next[k] == done[k - 1]);
                    }
                }
                lemma_asked_result(next, tail, m)
            },
            None => lemma_asked_result(done, tail, m),
        }
    } else {
        assert(answers(tail[c - 1], m));
        let next = done.push(first);
        assert forall|k: int| 0 <= k < next.len() && is_caller(#[trigger] next[k]) implies !answers(
            next[k],
            m,
        ) by {
            assert(next[k] == done[k]);
        }
        lemma_asked_result(next, tail, m)
    }
}

/// A tool result that a message before it asked for goes behind the first such message, with only
/// other results that this message asked for between them, and nothing else moves.
pub proof fn law_asked_result(ms: Seq<Jv>, m: Jv, c: int) -> (at: (int, int))
    requires
        has_result(m),
        0 <= c < ms.len(),
        has_calls(ms[c]),
        called_for(ms[c], m),
    ensures
        ({
            let before = repaired(Seq::empty(), ms);
            &&& 0 <= at.0 < at.1 <= before.len()
            &&& repaired(Seq::empty(), ms.push(m)) == before.insert(at.1, m)
            &&& has_calls(before[at.0]) && called_for(before[at.0], m)
            &&& forall|k: int|
                at.0 < k < at.1 ==> has_result(#[trigger] before[k]) && called_for(
                    before[at.0],
                    before[k],
                )
            &&& forall|k: int|
                0 <= k < at.0 && has_calls(#[trigger] before[k]) ==> !called_for(before[k], m)
        }),
{
    lemma_answers(ms[c], m);
    assert(is_caller(ms[c]) && answers(ms[c], m));
    let at = lemma_asked_result(Seq::empty(), ms, m);
    let before = repaired(Seq::empty(), ms);
    lemma_answers(before[at.0], m);
    assert forall|k: int| at.0 < k < at.1 implies has_result(#[trigger] before[k]) && called_for(
        before[at.0],
        before[k],
    ) by {
        lemma_answers(before[at.0], before[k]);
    }
    assert forall|k: int| 0 <= k < at.0 && has_calls(#[trigger] before[k]) implies !called_for(
        before[k],
        m,
    ) by {
        lemma_answers(before[k], m);
        assert(is_caller(before[k]));
    }
    at
}

// ─── Merging ───────────────────────────────────────────────────────────────

/// What one more message does to a merged list. Two user texts become one message, and so do two
/// assistant texts without tool calls: the first text, a blank line and the second text, under
/// the other members of the first message. Tool calls take the place of an assistant message
/// without any; an assistant message without tool calls behind one with them is dropped. Every
/// other message goes behind the list.
pub proof fn law_merging_step(ms: Seq<Jv>, m: Jv)
    ensures
        merged(Seq::empty()).len() == 0,
        ms.len() > 0 ==> merged(ms).len() > 0,
        ms.len() == 0 ==> merged(ms.push(m)) == seq![m],
        ms.len() > 0 ==> ({
            let last = merged(ms).last();
            let init = merged(ms).drop_last();
            let after = merged(ms.push(m));
            let texts = last.text_at("content"@) is Some && m.text_at("content"@) is Some;
            let users = last.text_at("role"@) == Some("user"@) && m.text_at("role"@) == Some(
                "user"@,
            );
            let assistants = last.text_at("role"@) == Some("assistant"@) && m.text_at("role"@)
                == Some("assistant"@);
            let calls = last.get("tool_calls"@) is Some;
            let more_calls = m.get("tool_calls"@) is Some;
            &&& texts && (users || (assistants && !calls && !more_calls)) ==> {
                &&& after.len() == merged(ms).len()
                &&& after.drop_last() == init
                &&& after.last().text_at("content"@) == Some(
                    last.text_at("content"@)->0 + "\n\n"@ + m.text_at("content"@)->0,
                )
                &&& forall|key: Seq<char>|
                    key != "content"@ ==> #[trigger] after.last().get(key) == last.get(key)
            }
            &&& assistants && !calls && more_calls ==> after == init.push(m)
            &&& assistants && calls && !more_calls ==> after == merged(ms)
            &&& assistants && calls && more_calls ==> after == merged(ms).push(m)
            &&& !users && !assistants ==> after == merged(ms).push(m)
            &&& !texts && (users || (assistants && !calls && !more_calls)) ==> after == merged(
                ms,
            ).push(m)
        }),
{
    lemma_words_differ();
    assert(ms.push(m).drop_last() =~= ms);
    assert(merged(ms.push(m)) == merge_step(merged(ms), m));
    if ms.len() > 0 {
        lemma_merged_not_empty(ms);
        assert(merged(ms).drop_last().push(m).drop_last() =~= merged(ms).drop_last());
        let after = merged(ms.push(m));
        if after.len() == merged(ms).len() {
            assert(after.drop_last() =~= merged(ms).drop_last());
        }
    } else {
        assert(merged(ms) =~= Seq::empty());
    }
}

proof fn lemma_merged_not_empty(ms: Seq<Jv>)
    requires
        ms.len() > 0,
    ensures
        merged(ms).len() > 0,
{
}

/// A list of user texts, and a list of assistant texts without tool calls, is merged to one
/// message: its content is all the texts, in order, with a blank line between them, and its other
/// members are those of the first message.
pub proof fn law_texts_are_joined(ms: Seq<Jv>, role: Seq<char>, texts: Seq<Seq<char>>)
    requires
        ms.len() > 0,
        texts.len() == ms.len(),
        role == "user"@ || role == "assistant"@,
        forall|i: int|
            0 <= i < ms.len() ==> (#[trigger] ms[i]).text_at("role"@) == Some(role)
                && ms[i].text_at("content"@) == Some(texts[i]) && (role == "assistant"@
                ==> ms[i].get("tool_calls"@) is None),
    ensures
        merged(ms).len() == 1,
        merged(ms)[0].text_at("content"@) == Some(joined(texts, "\n\n"@)),
        forall|key: Seq<char>|
            key != "content"@ ==> #[trigger] merged(ms)[0].get(key) == ms[0].get(key),
    decreases ms.len(),
{
    lemma_words_differ();
    let head = ms.drop_last();
    let m = ms.last();
    assert(head.push(m) =~= ms);
    law_merging_step(head, m);
    if head.len() > 0 {
        assert forall|i: int| 0 <= i < head.len() implies (#[trigger] head[i]).text_at("role"@)
            == Some(role) && head[i].text_at("content"@) == Some(texts.drop_last()[i]) && (role
            == "assistant"@ ==> head[i].get("tool_calls"@) is None) by {
            assert(head[i] == ms[i]);
        }
        law_texts_are_joined(head, role, texts.drop_last());
        assert(texts.drop_last() + seq![texts.last()] =~= texts);
        law_joined(texts.drop_last(), seq![texts.last()], "\n\n"@);
        assert(merged(head).last() == merged(head)[0]);
        assert(merged(head)[0].get("role"@) == ms[0].get("role"@));
        assert(merged(head)[0].get("tool_calls"@) == ms[0].get("tool_calls"@));
        assert(merged(ms).last() == merged(ms)[0]);
    } else {
        assert(seq![texts[0]] =~= texts);
        law_joined(texts, texts, "\n\n"@);
    }
}

// ─── Cutting old outputs ───────────────────────────────────────────────────

/// An old output of a tool, with more than ten messages from it to the end, is cut where it has
/// more than two thousand bytes: its first two thousand characters stay, a note says how many
/// bytes are gone, and the other members stay as they are. Every other message stays as it is.
pub proof fn law_old_outputs_are_cut(ms: Seq<Jv>, i: int)
    requires
        0 <= i < ms.len(),
    ensures
        truncated(ms).len() == ms.len(),
        ms.len() - i <= 10 || !has_result(ms[i]) || ms[i].text_at("content"@) is None
            ==> truncated(ms)[i] == ms[i],
        ms[i].text_at("content"@) matches Some(content) ==> {
            let kept = if content.len() <= 2000 {
                content
            } else {
                content.subrange(0, 2000)
            };
            &&& encode_utf8(content).len() <= 2000 ==> truncated(ms)[i] == ms[i]
            &&& ms.len() - i > 10 && has_result(ms[i]) && encode_utf8(content).len() > 2000 ==> {
                &&& truncated(ms)[i].text_at("content"@) == Some(
                    kept + "\n...[output truncated, "@ + decimal(
                        (encode_utf8(content).len() - encode_utf8(kept).len()) as nat,
                    ) + " chars removed]"@,
                )
                &&& forall|key: Seq<char>|
                    key != "content"@ ==> #[trigger] truncated(ms)[i].get(key) == ms[i].get(key)
            }
        },
{
    lemma_words_differ();
    if let Some(content) = ms[i].text_at("content"@) {
        if content.len() > 2000 {
            assert(content.subrange(0, 2000) =~= content.take(2000));
        }
    }
}

// ─── Trimming long conversations ───────────────────────────────────────────

proof fn lemma_leading_tools(ms: Seq<Jv>) -> (n: int)
    ensures
        0 <= n <= ms.len(),
        without_leading_tools(ms) == ms.skip(n),
        forall|k: int| 0 <= k < n ==> is_tool(#[trigger] ms[k]),
        n < ms.len() ==> !is_tool(ms[n]),
    decreases ms.len(),
{
    if ms.len() > 0 && is_tool(ms[0]) {
        let n = lemma_leading_tools(ms.skip(1));
        assert(ms.skip(1).skip(n) =~= ms.skip(n + 1));
        assert forall|k: int| 0 <= k < n + 1 implies is_tool(#[trigger] ms[k]) by {
            if k > 0 {
                assert(ms.skip(1)[k - 1] == ms[k]);
            }
        }
        if n + 1 < ms.len() {
            assert(ms.skip(1)[n] == ms[n + 1]);
        }
        n + 1
    } else {
        assert(ms.skip(0) =~= ms);
        0
    }
}

/// A conversation of up to fifty-five messages stays whole. Of a longer one stay the first two
/// messages, then a user message that says so, then the last fifty-two messages from the first
/// one on that is no tool result.
pub proof fn law_long_conversations_are_trimmed(ms: Seq<Jv>) -> (n: int)
    ensures
        ms.len() <= 55 ==> trimmed_messages(ms) == ms,
        ms.len() > 55 ==> {
            let r = trimmed_messages(ms);
            &&& r.len() >= 3
            &&& r[0] == ms[0] && r[1] == ms[1]
            &&& r[2].text_at("role"@) == Some("user"@)
            &&& r[2].text_at("content"@) == Some(
                "[Earlier conversation trimmed. Do not repeat previous statements or tool calls you already made. Continue with the current task. If you have enough information, respond to the user instead of making more tool calls.]"@,
            )
            &&& ms.len() - 52 <= n <= ms.len()
            &&& r.skip(3) == ms.skip(n)
            &&& forall|k: int| ms.len() - 52 <= k < n ==> has_result(#[trigger] ms[k])
            &&& n < ms.len() ==> !has_result(ms[n])
        },
{
    lemma_words_differ();
    if ms.len() > 55 {
        let from = ms.len() - 52;
        let tail = ms.skip(from);
        let k = lemma_leading_tools(tail);
        assert(tail.skip(k) =~= ms.skip(from + k));
        assert(trimmed_messages(ms).skip(3) =~= ms.skip(from + k));
        assert forall|j: int| from <= j < from + k implies has_result(#[trigger] ms[j]) by {
            assert(is_tool(tail[j - from]));
        }
        if from + k < ms.len() {
            assert(ms[from + k] == tail[k]);
        }
        from + k
    } else {
        0
    }
}

// ─── Dropping orphans ──────────────────────────────────────────────────────

/// Validation drops a tool result unless the message kept before it is a tool result or an
/// assistant message, and keeps everything else.
pub proof fn law_validation_step(ms: Seq<Jv>, m: Jv)
    ensures
        validated(Seq::empty()).len() == 0,
        !has_result(m) ==> validated(ms.push(m)) == validated(ms).push(m),
        has_result(m) && validated(ms).len() == 0 ==> validated(ms.push(m)) == validated(ms),
        has_result(m) && validated(ms).len() > 0 ==> ({
            let role = validated(ms).last().text_at("role"@);
            validated(ms.push(m)) == if role == Some("tool"@) || role == Some("assistant"@) {
                validated(ms).push(m)
            } else {
                validated(ms)
            }
        }),
{
    assert(ms.push(m).drop_last() =~= ms);
}

// ─── All together ──────────────────────────────────────────────────────────

/// A conversation is repaired, then merged, then its old outputs are cut, then it is trimmed; after
/// that nothing is left to be dropped.
pub proof fn law_order_of_preparation(ms: Seq<Jv>)
    ensures
        prepared(ms) == trimmed_messages(truncated(merged(repaired(Seq::empty(), ms)))),
{
    lemma_prepared_is_trimmed(ms);
}

// ─── The first message ─────────────────────────────────────────────────────

proof fn lemma_repaired_first(done: Seq<Jv>, rest: Seq<Jv>)
    requires
        done.len() > 0,
    ensures
        repaired(done, rest).len() > 0,
        repaired(done, rest)[0] == done[0],
    decreases rest.len(),
{
    if rest.len() > 0 {
        let first = rest[0];
        let tail = rest.skip(1);
        if is_caller(first) {
            tail.lemma_filter_len(|x: Jv| !answers(first, x));
            lemma_repaired_first(
                done.push(first) + tail.filter(|x: Jv| answers(first, x)),
                tail.filter(|x: Jv| !answers(first, x)),
            );
        } else if is_tool(first) {
            match last_caller(done) {
                Some(i) => {
                    lemma_last_caller(done);
                    lemma_results_end(done, i + 1);
                    lemma_repaired_first(done.insert(results_end(done, i + 1), first), tail);
                },
                None => lemma_repaired_first(done, tail),
            }
        } else {
            lemma_repaired_first(done.push(first), tail);
        }
    }
}

proof fn lemma_merged_first(ms: Seq<Jv>, text: Seq<char>)
    requires
        ms.len() > 0,
        ms[0].text_at("role"@) == Some("user"@),
        ms[0].text_at("content"@) matches Some(content) && text.is_prefix_of(content),
    ensures
        merged(ms).len() > 0,
        merged(ms)[0].text_at("role"@) == Some("user"@),
        merged(ms)[0].text_at("content"@) matches Some(content) && text.is_prefix_of(content),
    decreases ms.len(),
{
    lemma_words_differ();
    let head = ms.drop_last();
    let m = ms.last();
    assert(head.push(m) =~= ms);
    law_merging_step(head, m);
    if head.len() > 0 {
        lemma_merged_first(head, text);
        let before = merged(head);
        let after = merged(ms);
        if before.len() == 1 {
            assert(before.last() == before[0]);
            if after.len() == 1 {
                assert(after.last() == after[0]);
                assert(after.last().get("role"@) == before.last().get("role"@));
                let long = before[0].text_at("content"@)->0;
                let more = long + "\n\n"@ + m.text_at("content"@)->0;
                assert(more.take(text.len() as int) =~= long.take(text.len() as int));
            } else {
                assert(after[0] == before[0]);
            }
        } else {
            assert(after[0] == before[0]) by {
                if after.len() == before.len() {
                    assert(after.drop_last()[0] == after[0]);
                    assert(before.drop_last()[0] == before[0]);
                }
            }
        }
    } else {
        assert(merged(ms) =~= seq![m]);
    }
}

/// A conversation that starts with a user text still starts with that text, in a user message,
/// once it is ready to be sent.
pub proof fn law_first_text_comes_first(ms: Seq<Jv>, text: Seq<char>)
    requires
        ms.len() > 0,
        ms[0].text_at("role"@) == Some("user"@),
        ms[0].text_at("content"@) == Some(text),
    ensures
        prepared(ms).len() > 0,
        prepared(ms)[0].text_at("role"@) == Some("user"@),
        prepared(ms)[0].text_at("content"@) matches Some(content) && text.is_prefix_of(content),
{
    lemma_words_differ();
    lemma_prepared_is_trimmed(ms);
    let none = Seq::<Jv>::empty();
    lemma_repaired_first(none.push(ms[0]), ms.skip(1));
    assert(repaired(none, ms) == repaired(none.push(ms[0]), ms.skip(1)));
    let ordered = repaired(none, ms);
    assert(text.take(text.len() as int) =~= text);
    lemma_merged_first(ordered, text);
    let joint = merged(ordered);
    law_old_outputs_are_cut(joint, 0);
    let n = law_long_conversations_are_trimmed(truncated(joint));
}

} // verus!
