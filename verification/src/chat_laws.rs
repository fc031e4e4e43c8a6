//! A conversation in the form that the MiniMax upstream accepts stays as it is.

use vstd::prelude::*;

use crate::chat::{
    argument_text, chat_messages, law_chat_messages, ordered_messages, plain_arguments, text_call,
    text_message,
};
use crate::json::Jv;
use crate::message_laws::{lemma_order_is_valid, lemma_roles_differ};
use crate::messages::{
    answers, asks_for, is_caller, is_tool, joins, merged, repaired, with_paragraph,
};
use crate::order_laws::{
    all_apart, all_hold, any_claims, early_claims, fits_behind, is_spoken, law_merging_leaves_apart,
    law_ordering_is_settled, law_repair_leaves_order, lemma_merged_hold, lemma_repaired_hold,
    stay_apart, tidy,
};
use crate::wire::parsed;

verus! {

/// Whether the arguments of a tool call have a text that is JSON.
pub open spec fn is_settled_call(call: Jv) -> bool {
    call.get("function"@) matches Some(function) ==> function.is_settable() && argument_text(
        function,
    ).len() > 0 && parsed(argument_text(function)) is Some
}

/// Whether the arguments of every tool call that an assistant message makes have a text that is
/// JSON.
pub open spec fn is_settled(m: Jv) -> bool {
    m.text_at("role"@) == Some("assistant"@) ==> forall|k: int|
        0 <= k < m.items_or_none("tool_calls"@).len() ==> is_settled_call(
            #[trigger] m.items_or_none("tool_calls"@)[k],
        )
}

/// Whether the arguments of every tool call that an assistant message makes are missing, a text,
/// or a value whose text is sure to read back.
pub open spec fn has_plain_calls(m: Jv) -> bool {
    m.text_at("role"@) == Some("assistant"@) ==> forall|k: int|
        0 <= k < m.items_or_none("tool_calls"@).len() ==> ((
        #[trigger] m.items_or_none("tool_calls"@)[k]).get("function"@) matches Some(function)
            ==> plain_arguments(function))
}

/// Whether every assistant message of a conversation makes calls or says a text, and all
/// arguments of calls are missing, a text, or a value whose text is sure to read back.
pub open spec fn is_plain_talk(messages: Seq<Jv>) -> bool {
    all_hold(messages, |m: Jv| is_spoken(m)) && all_hold(messages, |m: Jv| has_plain_calls(m))
}

proof fn lemma_members()
    ensures
        "function"@ != "id"@,
        "role"@ != "content"@,
        "role"@ != "tool_calls"@,
        "content"@ != "tool_calls"@,
        "tool_call_id"@ != "content"@,
        "tool_call_id"@ != "tool_calls"@,
{
    reveal_strlit("function");
    reveal_strlit("id");
    reveal_strlit("role");
    reveal_strlit("content");
    reveal_strlit("tool_calls");
    reveal_strlit("tool_call_id");
    assert("function"@.len() == 8 && "id"@.len() == 2 && "role"@.len() == 4 && "content"@.len() == 7
        && "tool_calls"@.len() == 10 && "tool_call_id"@.len() == 12);
}

proof fn lemma_put_twice(v: Jv, key: Seq<char>, value: Jv)
    ensures
        v.put(key, value).put(key, value) == v.put(key, value),
{
    match v {
        Jv::Object(m) => {
            assert(m.insert(key, value).insert(key, value) =~= m.insert(key, value));
        },
        Jv::Null => {
            let m = Map::<Seq<char>, Jv>::empty();
            assert(m.insert(key, value).insert(key, value) =~= m.insert(key, value));
        },
        _ => {},
    }
}

proof fn lemma_call_twice(call: Jv)
    requires
        is_settled_call(call),
    ensures
        text_call(text_call(call)) == text_call(call),
{
    if let Some(function) = call.get("function"@) {
        let text = argument_text(function);
        let changed = function.put("arguments"@, Jv::Str(text));
        let once = call.put("function"@, changed);
        assert(once.get("function"@) == Some(changed));
        assert(argument_text(changed) == text);
        lemma_put_twice(function, "arguments"@, Jv::Str(text));
        lemma_put_twice(call, "function"@, changed);
    }
}

proof fn lemma_message_twice(m: Jv)
    requires
        is_settled(m),
    ensures
        text_message(text_message(m)) == text_message(m),
{
    lemma_members();
    lemma_roles_differ();
    let once = text_message(m);
    if m.text_at("role"@) == Some("assistant"@) {
        if let Some(calls) = m.items_at("tool_calls"@) {
            let changed = calls.map_values(|c: Jv| text_call(c));
            assert(once.items_at("tool_calls"@) == Some(changed));
            assert forall|k: int| 0 <= k < calls.len() implies text_call(
                #[trigger] changed[k],
            ) == changed[k] by {
                assert(m.items_or_none("tool_calls"@)[k] == calls[k]);
                lemma_call_twice(calls[k]);
            }
            assert(changed.map_values(|c: Jv| text_call(c)) =~= changed);
            lemma_put_twice(m, "tool_calls"@, Jv::Array(changed));
        }
    }
}

proof fn lemma_same_shape(m: Jv)
    ensures
        is_tool(text_message(m)) == is_tool(m),
        is_caller(text_message(m)) == is_caller(m),
        text_message(m).get("role"@) == m.get("role"@),
        text_message(m).get("tool_call_id"@) == m.get("tool_call_id"@),
        (text_message(m).get("tool_calls"@) is Some) == (m.get("tool_calls"@) is Some),
        !is_tool(m) ==> text_message(m).get("content"@) == m.get("content"@),
{
    lemma_members();
    lemma_roles_differ();
}

proof fn lemma_same_ids(caller: Jv, id: Seq<char>)
    ensures
        asks_for(text_message(caller), id) == asks_for(caller, id),
{
    lemma_members();
    lemma_roles_differ();
    let once = text_message(caller);
    let calls = caller.items_or_none("tool_calls"@);
    let changed = once.items_or_none("tool_calls"@);
    assert(changed.len() == calls.len());
    assert forall|k: int| 0 <= k < calls.len() implies (#[trigger] changed[k]).text_at("id"@)
        == calls[k].text_at("id"@) by {
        if caller.text_at("role"@) == Some("assistant"@) {
            assert(changed[k] == text_call(calls[k]));
        }
    }
    if asks_for(caller, id) {
        let k = choose|k: int|
            0 <= k < calls.len() && (#[trigger] calls[k]).text_at("id"@) == Some(id);
        assert(changed[k].text_at("id"@) == Some(id));
    }
    if asks_for(once, id) {
        let k = choose|k: int|
            0 <= k < changed.len() && (#[trigger] changed[k]).text_at("id"@) == Some(id);
        assert(calls[k].text_at("id"@) == Some(id));
    }
}

proof fn lemma_same_answers(caller: Jv, m: Jv)
    ensures
        answers(text_message(caller), text_message(m)) == answers(caller, m),
{
    lemma_same_shape(m);
    lemma_same_ids(caller, m.text_or("tool_call_id"@, ""@));
}

spec fn texts_of(ms: Seq<Jv>) -> Seq<Jv> {
    ms.map_values(|m: Jv| text_message(m))
}

proof fn lemma_same_claims(ms: Seq<Jv>, x: Jv)
    ensures
        any_claims(texts_of(ms), text_message(x)) == any_claims(ms, x),
        early_claims(texts_of(ms), text_message(x)) == early_claims(ms, x),
    decreases ms.len(),
{
    if ms.len() > 0 {
        lemma_same_claims(ms.drop_last(), x);
        lemma_same_shape(ms.last());
        lemma_same_answers(ms.last(), x);
        assert(texts_of(ms).drop_last() =~= texts_of(ms.drop_last()));
    }
}

proof fn lemma_same_tidy(ms: Seq<Jv>)
    requires
        tidy(ms),
    ensures
        tidy(texts_of(ms)),
    decreases ms.len(),
{
    if ms.len() > 0 {
        let head = ms.drop_last();
        let m = ms.last();
        lemma_same_tidy(head);
        lemma_same_shape(m);
        lemma_same_claims(head, m);
        assert(texts_of(ms).drop_last() =~= texts_of(head));
        if head.len() > 0 {
            lemma_same_shape(head.last());
            lemma_same_claims(head.drop_last(), head.last());
            assert(texts_of(head).drop_last() =~= texts_of(head.drop_last()));
        }
        assert(fits_behind(texts_of(head), text_message(m)));
    }
}

proof fn lemma_same_apart(ms: Seq<Jv>)
    requires
        all_apart(ms),
    ensures
        all_apart(texts_of(ms)),
{
    lemma_roles_differ();
    let all = texts_of(ms);
    assert forall|i: int| 0 < i < all.len() implies stay_apart(all[i - 1], #[trigger] all[i]) by {
        assert(stay_apart(ms[i - 1], ms[i]));
        lemma_same_shape(ms[i - 1]);
        lemma_same_shape(ms[i]);
    }
}

/// Normalizing a conversation twice is normalizing it once, where every assistant message makes
/// calls or says a text, and the arguments of every call have a text that is JSON.
pub proof fn law_normalizing_is_idempotent(messages: Seq<Jv>)
    ensures
        all_hold(messages, |m: Jv| is_spoken(m)) && all_hold(
            ordered_messages(messages),
            |m: Jv| is_settled(m),
        ) ==> chat_messages(chat_messages(messages)) == chat_messages(messages),
{
    let p = |m: Jv| is_settled(m);
    if all_hold(messages, |m: Jv| is_spoken(m)) && all_hold(ordered_messages(messages), p) {
        let ordered = merged(repaired(Seq::empty(), messages));
        law_ordering_is_settled(messages);
        lemma_order_is_valid(ordered);
        let once = chat_messages(messages);
        assert(once =~= texts_of(ordered));
        lemma_same_tidy(ordered);
        lemma_same_apart(ordered);
        law_chat_messages(messages);
        law_repair_leaves_order(once);
        law_merging_leaves_apart(once);
        lemma_order_is_valid(once);
        assert forall|i: int| 0 <= i < once.len() implies text_message(#[trigger] once[i])
            == once[i] by {
            assert(p(ordered[i]));
            lemma_message_twice(ordered[i]);
        }
        assert(chat_messages(once) =~= once);
    }
}

/// Calls whose arguments are plain stay so while a conversation is brought in order.
pub proof fn lemma_plain_calls_stay(messages: Seq<Jv>)
    requires
        all_hold(messages, |m: Jv| has_plain_calls(m)),
    ensures
        all_hold(ordered_messages(messages), |m: Jv| has_plain_calls(m)),
{
    let p = |m: Jv| has_plain_calls(m);
    lemma_roles_differ();
    lemma_members();
    assert forall|a: Jv, b: Jv| p(a) && p(b) && joins(a, b) implies p(
        #[trigger] with_paragraph(a, b),
    ) by {
        let w = with_paragraph(a, b);
        assert(w.get("tool_calls"@) == a.get("tool_calls"@));
        assert(w.text_at("role"@) == a.text_at("role"@));
    }
    lemma_repaired_hold(messages, p);
    lemma_merged_hold(repaired(Seq::empty(), messages), p);
    crate::message_laws::law_repaired_is_well_ordered(messages);
    crate::message_laws::law_merging_keeps_order(repaired(Seq::empty(), messages));
    lemma_order_is_valid(merged(repaired(Seq::empty(), messages)));
}

} // verus!
