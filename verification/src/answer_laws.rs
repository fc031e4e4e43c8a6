//! What a Chat Completions answer becomes as a response, member by member and item by item.

use vstd::prelude::*;

use crate::json::Jv;
use crate::pattern::without_think_tags;
use crate::response::{message_output, message_parts, response_of, spoken_text, usage_of, NewIds};
use crate::text::{is_white, lemma_first_at, occurs_at, trimmed, trimmed_start};
use crate::text_laws::{law_nothing_to_trim, law_think_tags, law_trimmed};
use crate::words::lemma_words_differ;

verus! {

// ─── Items ─────────────────────────────────────────────────────────────────

/// A function call item with just these members.
pub open spec fn shows_call(
    item: Jv,
    id: Seq<char>,
    call_id: Seq<char>,
    name: Seq<char>,
    arguments: Seq<char>,
    status: Seq<char>,
) -> bool {
    &&& item.text_at("type"@) == Some("function_call"@)
    &&& item.text_at("id"@) == Some(id)
    &&& item.text_at("call_id"@) == Some(call_id)
    &&& item.text_at("name"@) == Some(name)
    &&& item.text_at("arguments"@) == Some(arguments)
    &&& item.text_at("status"@) == Some(status)
    &&& forall|key: Seq<char>|
        key != "type"@ && key != "id"@ && key != "call_id"@ && key != "name"@ && key
            != "arguments"@ && key != "status"@ ==> #[trigger] item.get(key) is None
}

/// A message item of the assistant with just these members.
pub open spec fn shows_message(item: Jv, id: Seq<char>, status: Seq<char>, parts: Seq<Jv>) -> bool {
    &&& item.text_at("type"@) == Some("message"@)
    &&& item.text_at("id"@) == Some(id)
    &&& item.text_at("status"@) == Some(status)
    &&& item.text_at("role"@) == Some("assistant"@)
    &&& item.items_at("content"@) == Some(parts)
    &&& forall|key: Seq<char>|
        key != "type"@ && key != "id"@ && key != "status"@ && key != "role"@ && key != "content"@
            ==> #[trigger] item.get(key) is None
}

/// A part of a message that says a text, without annotations.
pub open spec fn says(part: Jv, text: Seq<char>) -> bool {
    &&& part.text_at("type"@) == Some("output_text"@)
    &&& part.text_at("text"@) == Some(text)
    &&& part.items_at("annotations"@) == Some(Seq::<Jv>::empty())
    &&& forall|key: Seq<char>|
        key != "type"@ && key != "text"@ && key != "annotations"@ ==> #[trigger] part.get(
            key,
        ) is None
}

/// A part of a message that refuses.
pub open spec fn refuses(part: Jv, refusal: Seq<char>) -> bool {
    &&& part.text_at("type"@) == Some("refusal"@)
    &&& part.text_at("refusal"@) == Some(refusal)
    &&& forall|key: Seq<char>|
        key != "type"@ && key != "refusal"@ ==> #[trigger] part.get(key) is None
}

pub proof fn lemma_call_shown(
    id: Seq<char>,
    call_id: Seq<char>,
    name: Seq<char>,
    arguments: Seq<char>,
    status: Seq<char>,
)
    ensures
        shows_call(
            crate::response::call_item(id, call_id, name, arguments, status),
            id,
            call_id,
            name,
            arguments,
            status,
        ),
{
    lemma_words_differ();
}

pub proof fn lemma_message_shown(id: Seq<char>, status: Seq<char>, parts: Seq<Jv>)
    ensures
        shows_message(crate::response::message_item(id, status, parts), id, status, parts),
{
    lemma_words_differ();
}

pub proof fn lemma_text_said(text: Seq<char>)
    ensures
        says(crate::response::text_part(text), text),
{
    lemma_words_differ();
}

// ─── The text of a message ─────────────────────────────────────────────────

/// Whether a text stands nowhere in another.
pub open spec fn lacks(s: Seq<char>, pattern: Seq<char>) -> bool {
    forall|k: int|
        0 <= k && k + pattern.len() <= s.len() ==> #[trigger] s.subrange(k, k + pattern.len())
            != pattern
}

/// A content without a `<think>` tag is said as it is, but for the white space around it; one that
/// neither starts nor ends with white space is said character for character. Each tag goes with the
/// white space behind it, and nothing else does.
pub proof fn law_text_is_said(message: Jv, content: Seq<char>, a: Seq<char>, b: Seq<char>)
    requires
        message.text_at("content"@) == Some(content),
    ensures
        spoken_text(message) == trimmed(without_think_tags(content)),
        lacks(content, "<think>"@) ==> spoken_text(message) == trimmed(content),
        lacks(content, "<think>"@) && (content.len() > 0 ==> !is_white(content[0])
            && !is_white(content.last())) ==> spoken_text(message) == content,
        content == a + "<think>"@ + b && lacks(a, "<think>"@) && (forall|k: int|
            0 <= k < a.len() ==> #[trigger] (a + "<think>"@).subrange(k, k + 7) != "<think>"@)
            && lacks(trimmed_start(b), "<think>"@) ==> spoken_text(message) == trimmed(
            a + trimmed_start(b),
        ),
{
    reveal_strlit("<think>");
    assert("<think>"@.len() == 7);
    lemma_without_tag(content);
    if content.len() > 0 ==> !is_white(content[0]) && !is_white(
        content.last(),
    ) {
        law_nothing_to_trim(content);
    }
    if forall|k: int|
        0 <= k < a.len() ==> #[trigger] (a + "<think>"@).subrange(k, k + 7) != "<think>"@ {
        law_think_tags(a, b);
        lemma_without_tag(trimmed_start(b));
    }
}

proof fn lemma_without_tag(s: Seq<char>)
    ensures
        lacks(s, "<think>"@) ==> without_think_tags(s) == s,
{
    lemma_first_at(s, "<think>"@, 0);
    if lacks(s, "<think>"@) {
        assert forall|k: int| 0 <= k implies !occurs_at(s, "<think>"@, k) by {}
    }
}

/// A message without a content says nothing.
pub proof fn law_nothing_is_said(message: Jv)
    requires
        message.text_at("content"@) is None,
    ensures
        spoken_text(message).len() == 0,
{
    reveal_strlit("<think>");
    reveal_strlit("");
    lemma_without_tag(""@);
    let ends = law_trimmed(""@);
}

// ─── The output of a response ──────────────────────────────────────────────

/// The output that a message becomes: each of its tool calls as a function call item, in order and
/// with its identifier, its name and its arguments; then, where the message says or refuses
/// anything, one message with the text first and the refusal behind it.
pub proof fn law_output_of_a_message(message: Jv, call_ids: Seq<Seq<char>>, message_id: Seq<char>)
    ensures
        ({
            let output = message_output(message, call_ids, message_id);
            let calls = match message.items_at("tool_calls"@) {
                Some(calls) => calls,
                None => Seq::empty(),
            };
            let text = spoken_text(message);
            let refusal = match message.text_at("refusal"@) {
                Some(refusal) => refusal,
                None => ""@,
            };
            &&& output.len() == calls.len() + if text.len() > 0 || refusal.len() > 0 {
                1int
            } else {
                0
            }
            &&& forall|k: int|
                0 <= k < calls.len() ==> shows_call(
                    #[trigger] output[k],
                    "fc_"@ + call_ids[k],
                    match calls[k].text_at("id"@) {
                        Some(id) => id,
                        None => ""@,
                    },
                    match calls[k].get("function"@) {
                        Some(function) => match function.text_at("name"@) {
                            Some(name) => name,
                            None => ""@,
                        },
                        None => ""@,
                    },
                    match calls[k].get("function"@) {
                        Some(function) => match function.text_at("arguments"@) {
                            Some(arguments) => arguments,
                            None => "{}"@,
                        },
                        None => "{}"@,
                    },
                    "completed"@,
                )
            &&& text.len() > 0 || refusal.len() > 0 ==> {
                let parts = output.last().items_at("content"@)->0;
                &&& shows_message(output.last(), "msg_"@ + message_id, "completed"@, parts)
                &&& text.len() > 0 ==> parts.len() > 0 && says(parts[0], text)
                &&& refusal.len() > 0 ==> parts.len() > 0 && refuses(parts.last(), refusal)
                &&& parts.len() == (if text.len() > 0 {
                    1int
                } else {
                    0
                }) + if refusal.len() > 0 {
                    1int
                } else {
                    0
                }
            }
        }),
{
    lemma_words_differ();
    reveal_strlit("");
    let output = message_output(message, call_ids, message_id);
    let calls = message.items_or_none("tool_calls"@);
    let parts = message_parts(message);
    assert forall|k: int| 0 <= k < calls.len() implies output[k] == crate::response::call_output(
        calls[k],
        call_ids[k],
    ) by {}
    if parts.len() > 0 {
        assert(output.last() == crate::response::message_item(
            "msg_"@ + message_id,
            "completed"@,
            parts,
        ));
        lemma_message_shown("msg_"@ + message_id, "completed"@, parts);
    }
}

/// The answer of a model in its own words: a content without a `<think>` tag that neither starts
/// nor ends with white space is, character for character, the text of the message that the output
/// of the response ends with, whatever else the answer holds.
pub proof fn law_answer_in_its_words(
    cc: Jv,
    model: Seq<char>,
    previous: Option<Seq<char>>,
    metadata: Option<Jv>,
    ids: NewIds,
    now: i64,
    choices: Seq<Jv>,
    message: Jv,
    content: Seq<char>,
)
    requires
        cc.get("choices"@) == Some(Jv::Array(choices)),
        choices.len() > 0,
        choices[0].get("message"@) == Some(message),
        message.get("content"@) == Some(Jv::Str(content)),
        content.len() > 0,
        lacks(content, "<think>"@),
        !is_white(content[0]),
        !is_white(content.last()),
    ensures
        ({
            let response = response_of(cc, model, previous, metadata, ids, now);
            let output = response.items_at("output"@)->0;
            let parts = output.last().items_at("content"@)->0;
            &&& response.items_at("output"@) is Some && output.len() > 0
            &&& output.last().text_at("type"@) == Some("message"@)
            &&& output.last().items_at("content"@) is Some && parts.len() > 0
            &&& says(parts[0], content)
        }),
{
    lemma_words_differ();
    law_text_is_said(message, content, Seq::empty(), Seq::empty());
    law_output_of_a_message(message, ids.calls, ids.message);
    let response = response_of(cc, model, previous, metadata, ids, now);
    assert(response.items_at("output"@) == Some(message_output(message, ids.calls, ids.message)));
}

// ─── The members of a response ─────────────────────────────────────────────

/// A count in a usage record, and zero where it is none.
pub open spec fn counted(usage: Jv, key: Seq<char>) -> Jv {
    match usage.get(key) {
        Some(Jv::Int(n)) => if 0 <= n <= u64::MAX {
            Jv::Int(n)
        } else {
            Jv::Int(0)
        },
        _ => Jv::Int(0),
    }
}

/// The usage of a response counts the prompt as input and the completion as output; cached tokens
/// and reasoning tokens are carried over. Where nothing was counted the three counts are zero.
pub proof fn law_usage(usage: Option<Jv>)
    ensures
        ({
            let out = usage_of(usage);
            match usage {
                None => {
                    &&& out.get("input_tokens"@) == Some(Jv::Int(0))
                    &&& out.get("output_tokens"@) == Some(Jv::Int(0))
                    &&& out.get("total_tokens"@) == Some(Jv::Int(0))
                    &&& forall|key: Seq<char>|
                        key != "input_tokens"@ && key != "output_tokens"@ && key != "total_tokens"@
                            ==> #[trigger] out.get(key) is None
                },
                Some(u) => {
                    &&& out.get("input_tokens"@) == Some(counted(u, "prompt_tokens"@))
                    &&& out.get("output_tokens"@) == Some(counted(u, "completion_tokens"@))
                    &&& out.get("total_tokens"@) == Some(counted(u, "total_tokens"@))
                    &&& out.get("input_tokens_details"@) is Some
                    &&& out.get("input_tokens_details"@)->0.get("cached_tokens"@) == Some(
                        match u.get("prompt_tokens_details"@) {
                            Some(details) => counted(details, "cached_tokens"@),
                            None => Jv::Int(0),
                        },
                    )
                    &&& out.get("output_tokens_details"@) is Some
                    &&& out.get("output_tokens_details"@)->0.get("reasoning_tokens"@) == Some(
                        match u.get("completion_tokens_details"@) {
                            Some(details) => counted(details, "reasoning_tokens"@),
                            None => Jv::Int(0),
                        },
                    )
                    &&& forall|key: Seq<char>|
                        key != "input_tokens"@ && key != "output_tokens"@ && key != "total_tokens"@
                            && key != "input_tokens_details"@ && key != "output_tokens_details"@
                            ==> #[trigger] out.get(key) is None
                },
            }
        }),
{
    lemma_words_differ();
}

/// How a response ends for a reason: incomplete where the model ran into its limit or a filter,
/// with that as the detail, and completed for every other reason.
pub open spec fn ends_for(response: Jv, reason: Seq<char>) -> bool {
    if reason == "length"@ {
        &&& response.text_at("status"@) == Some("incomplete"@)
        &&& response.get("incomplete_details"@) is Some
        &&& response.get("incomplete_details"@)->0.text_at("reason"@) == Some("max_output_tokens"@)
    } else if reason == "content_filter"@ {
        &&& response.text_at("status"@) == Some("incomplete"@)
        &&& response.get("incomplete_details"@) is Some
        &&& response.get("incomplete_details"@)->0.text_at("reason"@) == Some("content_filter"@)
    } else {
        &&& response.text_at("status"@) == Some("completed"@)
        &&& response.get("incomplete_details"@) == Some(Jv::Null)
    }
}

/// The members of a response: its new identifier, the time the answer names or else the present,
/// the model that was asked for, the response it follows, the metadata (none where none was
/// given), the usage, and how it ended, for the reason of the first choice. An answer without a
/// message is a completed response without output.
#[verifier::spinoff_prover]
pub proof fn law_members_of_a_response(
    cc: Jv,
    model: Seq<char>,
    previous: Option<Seq<char>>,
    metadata: Option<Jv>,
    ids: NewIds,
    now: i64,
    choices: Seq<Jv>,
)
    requires
        cc.get("choices"@) == Some(Jv::Array(choices)) || (choices.len() == 0 && cc.items_at(
            "choices"@,
        ) is None),
    ensures
        ({
            let response = response_of(cc, model, previous, metadata, ids, now);
            &&& response.text_at("id"@) == Some("resp_"@ + ids.response)
            &&& response.text_at("object"@) == Some("response"@)
            &&& response.text_at("model"@) == Some(model)
            &&& response.get("created_at"@) == Some(
                match cc.get("created"@) {
                    Some(Jv::Int(n)) => if i64::MIN <= n <= i64::MAX {
                        Jv::Int(n)
                    } else {
                        Jv::Int(now as int)
                    },
                    _ => Jv::Int(now as int),
                },
            )
            &&& response.get("usage"@) == Some(usage_of(cc.get("usage"@)))
            &&& choices.len() == 0 || choices[0].get("message"@) is None ==> {
                &&& response.text_at("status"@) == Some("completed"@)
                &&& response.items_at("output"@) == Some(Seq::<Jv>::empty())
                &&& response.get("previous_response_id"@) is None
                &&& response.get("metadata"@) is None
                &&& response.get("incomplete_details"@) is None
            }
            &&& choices.len() > 0 && choices[0].get("message"@) is Some ==> {
                &&& ends_for(
                    response,
                    match choices[0].text_at("finish_reason"@) {
                        Some(reason) => reason,
                        None => "stop"@,
                    },
                )
                &&& response.get("previous_response_id"@) == Some(
                    match previous {
                        Some(id) => Jv::Str(id),
                        None => Jv::Null,
                    },
                )
                &&& metadata matches Some(given) ==> response.get("metadata"@) == Some(given)
                &&& metadata is None ==> response.get("metadata"@) == Some(
                    Jv::Object(Map::<Seq<char>, Jv>::empty()),
                )
                &&& response.items_at("output"@) == Some(
                    message_output(choices[0].get("message"@)->0, ids.calls, ids.message),
                )
            }
            &&& forall|key: Seq<char>|
                key != "id"@ && key != "object"@ && key != "created_at"@ && key != "status"@ && key
                    != "model"@ && key != "output"@ && key != "previous_response_id"@ && key
                    != "metadata"@ && key != "usage"@ && key != "incomplete_details"@
                    ==> #[trigger] response.get(key) is None
        }),
{
    lemma_words_differ();
}

} // verus!
