//! Chat messages in the form that the MiniMax upstream accepts.

use vstd::prelude::*;
use vstd::string::*;

use crate::chat_laws::{
    has_plain_calls, is_plain_talk, is_settled, law_normalizing_is_idempotent,
    lemma_plain_calls_stay,
};
use crate::json::{empty_object, group_json, views, Json, Jv};
use crate::json_ops::copy_items;
use crate::message_laws::{
    law_merging_keeps_order, law_repaired_is_well_ordered, lemma_order_is_valid,
    lemma_roles_differ, well_ordered,
};
use crate::messages::{
    merge_consecutive, merged, repair_tool_order, repaired, validate_tool_sequence, validated,
};
use crate::wire::{parsed, plain, rendered, reserved_name};

verus! {

broadcast use group_json;

/// What the arguments of a function of a tool call become: a text as it is, or the text of a
/// value.
pub enum ArgumentForm {
    Text(String),
    Value(Json),
}

/// What the arguments of a function become, given whether they are a JSON text where they are a
/// text.
///
/// Arguments that are a JSON text stay; other text is wrapped in an object, other values are
/// written out, and where there are none the text is that of the empty object.
pub open spec fn has_form(function: Jv, is_json: bool, form: ArgumentForm) -> bool {
    match function.get_or("arguments"@, Jv::Null) {
        Jv::Null => form matches ArgumentForm::Text(text) && text@ == "{}"@,
        Jv::Str(s) => if s.len() == 0 {
            form matches ArgumentForm::Text(text) && text@ == "{}"@
        } else if is_json {
            form matches ArgumentForm::Text(text) && text@ == s
        } else {
            form matches ArgumentForm::Value(v) && v@ == empty_object().put("input"@, Jv::Str(s))
        },
        other => form matches ArgumentForm::Value(v) && v@ == other,
    }
}

/// The arguments of a function of a tool call as a JSON text.
pub open spec fn argument_text(function: Jv) -> Seq<char> {
    match function.get_or("arguments"@, Jv::Null) {
        Jv::Null => "{}"@,
        Jv::Str(s) => if s.len() == 0 {
            "{}"@
        } else if parsed(s) is Some {
            s
        } else {
            rendered(empty_object().put("input"@, Jv::Str(s)))
        },
        other => rendered(other),
    }
}

/// Whether the function of a tool call can take new arguments.
pub open spec fn callable(call: Jv) -> bool {
    match call.get("function"@) {
        Some(function) => function.is_settable(),
        None => true,
    }
}

/// A tool call with its arguments as a JSON text.
pub open spec fn text_call(call: Jv) -> Jv {
    match call.get("function"@) {
        Some(function) => call.put(
            "function"@,
            function.put("arguments"@, Jv::Str(argument_text(function))),
        ),
        None => call,
    }
}

/// Whether every tool call that an assistant message makes is [`callable`].
pub open spec fn calls_callable(message: Jv) -> bool {
    message.text_at("role"@) == Some("assistant"@) ==> forall|k: int|
        0 <= k < message.items_or_none("tool_calls"@).len() ==> callable(
            #[trigger] message.items_or_none("tool_calls"@)[k],
        )
}

/// A message with the arguments of its tool calls, or with its content as a tool result, as
/// text.
pub open spec fn text_message(message: Jv) -> Jv {
    if message.text_at("role"@) == Some("assistant"@) {
        match message.items_at("tool_calls"@) {
            Some(calls) => message.put(
                "tool_calls"@,
                Jv::Array(calls.map_values(|c: Jv| text_call(c))),
            ),
            None => message,
        }
    } else if message.text_at("role"@) == Some("tool"@) {
        match message.get("content"@) {
            Some(content) => if content is Str {
                message
            } else {
                message.put("content"@, Jv::Str(rendered(content)))
            },
            None => message,
        }
    } else {
        message
    }
}

/// A conversation in an order that the upstream accepts.
pub open spec fn ordered_messages(messages: Seq<Jv>) -> Seq<Jv> {
    validated(merged(repaired(Seq::empty(), messages)))
}

/// Whether a conversation can be brought into the form that the upstream accepts: once in
/// order, its tool calls can take new arguments.
pub open spec fn normalizable(messages: Seq<Jv>) -> bool {
    forall|i: int|
        0 <= i < ordered_messages(messages).len() ==> calls_callable(
            #[trigger] ordered_messages(messages)[i],
        )
}

/// A conversation in the form that the upstream accepts.
pub open spec fn chat_messages(messages: Seq<Jv>) -> Seq<Jv> {
    ordered_messages(messages).map_values(|m: Jv| text_message(m))
}

/// Whether the arguments of a function are missing, a text, or a value whose text is sure to
/// read back.
pub open spec fn plain_arguments(function: Jv) -> bool {
    plain(function.get_or("arguments"@, Jv::Null), 127)
}

/// What the arguments of a function become, given whether they are a JSON text where they are a
/// text.
pub fn argument_form(function: &Json, is_json: bool) -> (r: ArgumentForm)
    ensures
        has_form(function@, is_json, r),
{
    let arguments = function.get_or("arguments", Json::Null);
    match arguments {
        Json::Null => ArgumentForm::Text("{}".to_owned()),
        Json::Str(s) => {
            if s.as_str().is_empty() {
                ArgumentForm::Text("{}".to_owned())
            } else if is_json {
                ArgumentForm::Text(s)
            } else {
                ArgumentForm::Value(Json::object().with("input", Json::text(s.as_str())))
            }
        },
        other => ArgumentForm::Value(other),
    }
}

/// The arguments of a function of a tool call as a JSON text. Where they are missing, a text, or
/// a value whose text is sure to read back, the result is a JSON text.
pub fn normalize_arguments(function: &Json) -> (r: String)
    ensures
        r@ == argument_text(function@),
        r@.len() > 0,
        plain_arguments(function@) ==> parsed(r@) is Some,
{
    proof {
        reveal_strlit("");
        reveal_strlit("{}");
    }
    let given = function.text_or("arguments", "");
    let text = if given.is_empty() {
        "{}"
    } else {
        given
    };
    let is_json = Json::parse(text).is_some();
    match argument_form(function, is_json) {
        ArgumentForm::Text(text) => text,
        ArgumentForm::Value(v) => {
            proof {
                reveal_with_fuel(plain, 2);
                reveal_strlit("input");
                reveal_strlit("$serde_json::private::RawValue");
                assert("input"@.len() == 5 && reserved_name().len() == 30);
            }
            v.render()
        },
    }
}

/// Whether the text of the arguments of every call is not empty, and reads back where that is
/// sure.
pub open spec fn calls_read_back(calls: Seq<Jv>) -> bool {
    forall|k: int|
        0 <= k < calls.len() ==> ((#[trigger] calls[k]).get("function"@) matches Some(function)
            ==> argument_text(function).len() > 0 && (plain_arguments(function) ==> parsed(
            argument_text(function),
        ) is Some))
}

fn normalize_calls(calls: &Vec<Json>) -> (r: Vec<Json>)
    requires
        forall|k: int| 0 <= k < calls@.len() ==> callable((#[trigger] calls@[k])@),
    ensures
        views(r@) == views(calls@).map_values(|c: Jv| text_call(c)),
        calls_read_back(views(calls@)),
{
    let ghost all = views(calls@);
    let mut r: Vec<Json> = Vec::new();
    let mut i: usize = 0;
    while i < calls.len()
        invariant
            i <= calls@.len(),
            all == views(calls@),
            forall|k: int| 0 <= k < calls@.len() ==> callable((#[trigger] calls@[k])@),
            r@.len() == i,
            forall|k: int| 0 <= k < i ==> (#[trigger] r@[k])@ == text_call(all[k]),
            calls_read_back(all.take(i as int)),
        decreases calls@.len() - i,
    {
        let mut call = calls[i].clone();
        match calls[i].get("function") {
            Some(function) => {
                let mut changed = function.clone();
                changed.set("arguments", Json::Str(normalize_arguments(function)));
                call.set("function", changed);
            },
            None => {},
        }
        r.push(call);
        proof {
            let before = all.take(i as int);
            let after = all.take(i + 1);
            assert(forall|k: int| 0 <= k < i ==> before[k] == after[k]);
            assert forall|k: int| 0 <= k < after.len() implies ((
            #[trigger] after[k]).get("function"@) matches Some(function) ==> argument_text(
                function,
            ).len() > 0 && (plain_arguments(function) ==> parsed(argument_text(function)) is Some)) by {
                if k < i {
                    assert(before[k] == after[k]);
                }
            }
        }
        i = i + 1;
    }
    assert(views(r@) =~= all.map_values(|c: Jv| text_call(c)));
    assert(all.take(i as int) =~= all);
    r
}

/// Whether the text of the arguments of every call of a message is not empty, and reads back
/// where that is sure.
pub open spec fn message_reads_back(message: Jv) -> bool {
    message.text_at("role"@) == Some("assistant"@) ==> calls_read_back(
        message.items_or_none("tool_calls"@),
    )
}

fn normalize_message(message: &Json) -> (r: Json)
    requires
        calls_callable(message@),
    ensures
        r@ == text_message(message@),
        message_reads_back(message@),
{
    proof {
        lemma_roles_differ();
    }
    let mut r = message.clone();
    if message.text_is("role", "assistant") {
        match message.items_at("tool_calls") {
            Some(calls) => {
                assert(views(calls@) == message@.items_or_none("tool_calls"@));
                assert forall|k: int| 0 <= k < calls@.len() implies callable(
                    (#[trigger] calls@[k])@,
                ) by {
                    assert(calls@[k]@ == message@.items_or_none("tool_calls"@)[k]);
                }
                r.set("tool_calls", Json::Array(normalize_calls(calls)));
            },
            None => {},
        }
    } else if message.text_is("role", "tool") {
        match message.get("content") {
            Some(content) => {
                if content.as_str().is_none() {
                    r.set("content", Json::Str(content.render()));
                }
            },
            None => {},
        }
    }
    r
}

fn order_messages(messages: Vec<Json>) -> (r: Vec<Json>)
    ensures
        views(r@) == ordered_messages(views(messages@)),
{
    let fixed = repair_tool_order(messages);
    let merged = merge_consecutive(fixed);
    validate_tool_sequence(merged)
}

fn takes_arguments(message: &Json) -> (r: bool)
    ensures
        r == calls_callable(message@),
{
    if !message.text_is("role", "assistant") {
        return true;
    }
    match message.items_at("tool_calls") {
        Some(calls) => {
            let ghost all = message@.items_or_none("tool_calls"@);
            let mut i: usize = 0;
            while i < calls.len()
                invariant
                    i <= calls@.len(),
                    message@.text_at("role"@) == Some("assistant"@),
                    all == message@.items_or_none("tool_calls"@),
                    all == views(calls@),
                    forall|k: int| 0 <= k < i ==> callable(#[trigger] all[k]),
                decreases calls@.len() - i,
            {
                match calls[i].get("function") {
                    Some(function) => {
                        if !function.is_settable() {
                            assert(!callable(all[i as int]));
                            return false;
                        }
                    },
                    None => {},
                }
                i = i + 1;
            }
            true
        },
        None => true,
    }
}

/// Whether [`normalize_minimax_chat_messages`] can take a conversation.
pub fn can_normalize(messages: &Vec<Json>) -> (r: bool)
    ensures
        r == normalizable(views(messages@)),
{
    let ordered = order_messages(copy_items(messages));
    let ghost all = ordered_messages(views(messages@));
    let mut i: usize = 0;
    while i < ordered.len()
        invariant
            i <= ordered@.len(),
            all == ordered_messages(views(messages@)),
            all == views(ordered@),
            forall|k: int| 0 <= k < i ==> calls_callable(#[trigger] all[k]),
        decreases ordered@.len() - i,
    {
        if !takes_arguments(&ordered[i]) {
            assert(!calls_callable(all[i as int]));
            return false;
        }
        i = i + 1;
    }
    true
}

/// Brings a conversation into the form that the upstream accepts: tool results behind the calls
/// they answer, neighbours of one role merged, arguments of tool calls and tool results as text.
/// What is in that form stays as it is.
pub fn normalize_minimax_chat_messages(messages: Vec<Json>) -> (r: Vec<Json>)
    requires
        normalizable(views(messages@)),
    ensures
        views(r@) == chat_messages(views(messages@)),
        forall|i: int|
            0 <= i < ordered_messages(views(messages@)).len() ==> message_reads_back(
                #[trigger] ordered_messages(views(messages@))[i],
            ),
        is_plain_talk(views(messages@)) ==> chat_messages(views(r@)) == views(r@),
{
    let ordered = order_messages(messages);
    let ghost all = ordered_messages(views(messages@));
    let mut r: Vec<Json> = Vec::new();
    let mut i: usize = 0;
    while i < ordered.len()
        invariant
            i <= ordered@.len(),
            all == ordered_messages(views(messages@)),
            all == views(ordered@),
            normalizable(views(messages@)),
            r@.len() == i,
            forall|k: int| 0 <= k < i ==> (#[trigger] r@[k])@ == text_message(all[k]),
            forall|k: int| 0 <= k < i ==> message_reads_back(#[trigger] all[k]),
        decreases ordered@.len() - i,
    {
        assert(calls_callable(all[i as int]));
        r.push(normalize_message(&ordered[i]));
        i = i + 1;
    }
    assert(views(r@) =~= all.map_values(|m: Jv| text_message(m)));
    proof {
        if is_plain_talk(views(messages@)) {
            lemma_plain_calls_stay(views(messages@));
            let plain_calls = |m: Jv| has_plain_calls(m);
            assert forall|k: int| 0 <= k < all.len() implies is_settled(#[trigger] all[k]) by {
                assert(plain_calls(all[k]));
                assert(calls_callable(all[k]) && message_reads_back(all[k]));
            }
            law_normalizing_is_idempotent(views(messages@));
        }
    }
    r
}

// ─── Laws ──────────────────────────────────────────────────────────────────

proof fn lemma_text_message(message: Jv)
    ensures
        text_message(message).get("role"@) == message.get("role"@),
        text_message(message).get("tool_call_id"@) == message.get("tool_call_id"@),
        (text_message(message).get("tool_calls"@) is Some) == (message.get("tool_calls"@) is Some),
        message.text_at("role"@) == Some("tool"@) ==> (text_message(message).get(
            "content"@,
        ) matches Some(content) ==> content is Str),
{
    lemma_roles_differ();
    reveal_strlit("role");
    reveal_strlit("content");
    reveal_strlit("tool_calls");
    reveal_strlit("tool_call_id");
    assert("role"@.len() == 4 && "content"@.len() == 7 && "tool_calls"@.len() == 10
        && "tool_call_id"@.len() == 12);
}

/// A conversation for the upstream has every tool result behind a call, and every tool result
/// that has content has text.
pub proof fn law_chat_messages(messages: Seq<Jv>)
    ensures
        well_ordered(chat_messages(messages)),
        chat_messages(messages).len() == ordered_messages(messages).len(),
        forall|i: int|
            0 <= i < chat_messages(messages).len() ==> ((#[trigger] chat_messages(
                messages,
            )[i]).text_at("role"@) == Some("tool"@) ==> (chat_messages(messages)[i].get(
                "content"@,
            ) matches Some(content) ==> content is Str)),
{
    let ordered = ordered_messages(messages);
    let out = chat_messages(messages);
    law_repaired_is_well_ordered(messages);
    law_merging_keeps_order(repaired(Seq::empty(), messages));
    lemma_order_is_valid(merged(repaired(Seq::empty(), messages)));
    assert forall|i: int| 0 <= i < out.len() implies out[i].get("role"@) == ordered[i].get("role"@)
        && (out[i].get("tool_calls"@) is Some) == (ordered[i].get("tool_calls"@) is Some) && (
    ordered[i].text_at("role"@) == Some("tool"@) ==> ((#[trigger] out[i]).get(
        "content"@,
    ) matches Some(content) ==> content is Str)) by {
        lemma_text_message(ordered[i]);
    }
    assert(well_ordered(out));
}

} // verus!
