//! What a Chat Completions conversation is made into for MiniMax, message by message.

use vstd::prelude::*;

use crate::chat::{argument_text, chat_messages, has_form, ordered_messages, ArgumentForm};
use crate::json::Jv;
use crate::message_laws::{
    law_merging_keeps_order, law_repaired_is_well_ordered, lemma_order_is_valid,
};
use crate::messages::{merged, repaired};
use crate::wire::{parsed, rendered};
use crate::words::lemma_words_differ;

verus! {

/// The arguments of a call as a text: none, and an empty text, as the empty object; a JSON text as
/// it is; any other text as an object with the text as its `input`; and any other value as its
/// JSON text.
pub proof fn law_arguments_as_text(function: Jv)
    ensures
        ({
            let text = argument_text(function);
            match function.get("arguments"@) {
                None => text == "{}"@,
                Some(Jv::Null) => text == "{}"@,
                Some(Jv::Str(s)) => {
                    &&& s.len() == 0 ==> text == "{}"@
                    &&& s.len() > 0 && parsed(s) is Some ==> text == s
                    &&& s.len() > 0 && parsed(s) is None ==> exists|v: Jv| #[trigger]
                        rendered(v) == text && v.text_at("input"@) == Some(s) && forall|key: Seq<char>|
                            key != "input"@ ==> #[trigger] v.get(key) is None
                },
                Some(other) => text == rendered(other),
            }
        }),
{
    if let Some(Jv::Str(s)) = function.get("arguments"@) {
        let v = crate::json::empty_object().put("input"@, Jv::Str(s));
        assert(v.text_at("input"@) == Some(s));
        assert forall|key: Seq<char>| key != "input"@ implies #[trigger] v.get(key) is None by {}
        if s.len() > 0 && parsed(s) is None {
            assert(rendered(v) == argument_text(function));
        }
    }
}

/// The form that arguments take is the same, told apart by whether a text is JSON: a text that is
/// sent as it is, or a value whose JSON text is sent.
pub proof fn law_form_of_arguments(function: Jv, is_json: bool, form: ArgumentForm)
    requires
        has_form(function, is_json, form),
    ensures
        (match function.get("arguments"@) {
            None => form matches ArgumentForm::Text(text) && text@ == "{}"@,
            Some(Jv::Null) => form matches ArgumentForm::Text(text) && text@ == "{}"@,
            Some(Jv::Str(s)) => {
                &&& s.len() == 0 ==> (form matches ArgumentForm::Text(text) && text@ == "{}"@)
                &&& s.len() > 0 && is_json ==> (form matches ArgumentForm::Text(text) && text@ == s)
                &&& s.len() > 0 && !is_json ==> (form matches ArgumentForm::Value(v) && v@.text_at(
                    "input"@,
                ) == Some(s))
            },
            Some(other) => form matches ArgumentForm::Value(v) && v@ == other,
        }),
{
}

/// A conversation is repaired and merged, and nothing else happens to its order.
pub proof fn law_order_of_a_conversation(messages: Seq<Jv>)
    ensures
        ordered_messages(messages) == merged(repaired(Seq::empty(), messages)),
{
    law_repaired_is_well_ordered(messages);
    law_merging_keeps_order(repaired(Seq::empty(), messages));
    lemma_order_is_valid(merged(repaired(Seq::empty(), messages)));
}

/// The call that a call is sent as: the arguments of its function as a text, and everything else as
/// it is.
pub open spec fn call_as_text(call: Jv, sent: Jv) -> bool {
    match call.get("function"@) {
        None => sent == call,
        Some(function) => {
            &&& forall|key: Seq<char>|
                key != "function"@ ==> #[trigger] sent.get(key) == call.get(key)
            &&& sent.get("function"@) is Some
            &&& function is Object || function is Null ==> {
                let made = sent.get("function"@)->0;
                &&& made.text_at("arguments"@) == Some(argument_text(function))
                &&& forall|key: Seq<char>|
                    key != "arguments"@ ==> #[trigger] made.get(key) == function.get(key)
            }
        },
    }
}

/// The message that a message is sent as. Of an assistant message with a list of tool calls each
/// call is sent with its arguments as a text; a tool message is sent with its content as a text;
/// everything else is sent as it is.
pub open spec fn message_as_text(m: Jv, sent: Jv) -> bool {
    let role = m.text_at("role"@);
    if role == Some("assistant"@) && m.items_at("tool_calls"@) is Some {
        let calls = m.items_at("tool_calls"@)->0;
        &&& forall|key: Seq<char>| key != "tool_calls"@ ==> #[trigger] sent.get(key) == m.get(key)
        &&& sent.items_at("tool_calls"@) matches Some(made) && made.len() == calls.len() && forall|
            k: int,
        |
            0 <= k < made.len() ==> call_as_text(calls[k], #[trigger] made[k])
    } else if role == Some("tool"@) && m.get("content"@) is Some && !(m.get("content"@)->0 is Str) {
        &&& forall|key: Seq<char>| key != "content"@ ==> #[trigger] sent.get(key) == m.get(key)
        &&& sent.text_at("content"@) == Some(rendered(m.get("content"@)->0))
    } else {
        sent == m
    }
}

/// A conversation is sent message by message, in the repaired order.
pub proof fn law_conversation_as_text(messages: Seq<Jv>)
    ensures
        ({
            let ordered = merged(repaired(Seq::empty(), messages));
            let sent = chat_messages(messages);
            &&& sent.len() == ordered.len()
            &&& forall|i: int|
                0 <= i < sent.len() ==> message_as_text(ordered[i], #[trigger] sent[i])
        }),
{
    lemma_words_differ();
    law_order_of_a_conversation(messages);
    let ordered = ordered_messages(messages);
    let sent = chat_messages(messages);
    assert forall|i: int| 0 <= i < sent.len() implies message_as_text(
        ordered[i],
        #[trigger] sent[i],
    ) by {
        let m = ordered[i];
        if m.text_at("role"@) == Some("assistant"@) {
            if let Some(calls) = m.items_at("tool_calls"@) {
                let made = sent[i].items_at("tool_calls"@)->0;
                assert forall|k: int| 0 <= k < made.len() implies call_as_text(
                    calls[k],
                    #[trigger] made[k],
                ) by {
                    assert(made[k] == crate::chat::text_call(calls[k]));
                }
            }
        }
    }
}

} // verus!
