//! What the translation of a completion keeps.

use vstd::prelude::*;

use crate::json::{empty_object, Jv};
use crate::request::{calling_message, chat_block, chat_content, single_text, tool_call, Draft};
use crate::response::{
    call_output, first_message, function_text, message_item, message_output, message_parts,
    response_of, spoken_text, text_part, NewIds,
};

verus! {

/// The tool call that a call of a completion amounts to.
pub open spec fn plain_call(call: Jv) -> Jv {
    tool_call(
        call.text_or("id"@, ""@),
        function_text(call, "name"@, ""@),
        function_text(call, "arguments"@, "{}"@),
    )
}

/// The assistant message with the given content.
pub open spec fn assistant_message(content: Jv) -> Jv {
    empty_object().put("role"@, Jv::Str("assistant"@)).put("content"@, content)
}

proof fn lemma_member_names()
    ensures
        "type"@ != "id"@,
        "type"@ != "call_id"@,
        "type"@ != "name"@,
        "type"@ != "arguments"@,
        "type"@ != "status"@,
        "type"@ != "role"@,
        "type"@ != "content"@,
        "type"@ != "text"@,
        "type"@ != "annotations"@,
        "text"@ != "annotations"@,
        "call_id"@ != "name"@,
        "call_id"@ != "arguments"@,
        "call_id"@ != "status"@,
        "name"@ != "arguments"@,
        "name"@ != "status"@,
        "arguments"@ != "status"@,
        "role"@ != "content"@,
        "role"@ != "status"@,
        "message"@ != "function_call"@,
        "assistant"@ != "developer"@,
        "assistant"@ != "system"@,
{
    reveal_strlit("type");
    reveal_strlit("id");
    reveal_strlit("call_id");
    reveal_strlit("name");
    reveal_strlit("arguments");
    reveal_strlit("status");
    reveal_strlit("role");
    reveal_strlit("content");
    reveal_strlit("text");
    reveal_strlit("annotations");
    reveal_strlit("message");
    reveal_strlit("function_call");
    reveal_strlit("assistant");
    reveal_strlit("developer");
    reveal_strlit("system");
    assert("type"@.len() == 4 && "id"@.len() == 2 && "call_id"@.len() == 7 && "name"@.len() == 4
        && "arguments"@.len() == 9 && "status"@.len() == 6 && "role"@.len() == 4 && "content"@.len()
        == 7 && "text"@.len() == 4 && "annotations"@.len() == 11 && "message"@.len() == 7
        && "function_call"@.len() == 13 && "assistant"@.len() == 9 && "developer"@.len() == 9
        && "system"@.len() == 6);
    assert("type"@[1] == 'y' && "name"@[1] == 'a' && "role"@[1] == 'o' && "text"@[1] == 'e');
    assert("assistant"@[0] == 'a' && "developer"@[0] == 'd');
}

proof fn lemma_call_back(draft: Draft, call: Jv, id: Seq<char>)
    ensures
        draft.item(call_output(call, id)) == (Draft {
            messages: draft.messages,
            calls: draft.calls.push(plain_call(call)),
        }),
{
    lemma_member_names();
    let item = call_output(call, id);
    assert(item.text_at("type"@) == Some("function_call"@));
    assert(item.get("call_id"@) == Some(Jv::Str(call.text_or("id"@, ""@))));
    assert(item.text_at("name"@) == Some(function_text(call, "name"@, ""@)));
    assert(item.text_at("arguments"@) == Some(function_text(call, "arguments"@, "{}"@)));
}

/// A response is known by its new identifier, and shows the output of the message that it was
/// made from.
pub proof fn law_response_shows_its_message(
    cc: Jv,
    model: Seq<char>,
    previous: Option<Seq<char>>,
    metadata: Option<Jv>,
    ids: NewIds,
    now: i64,
)
    ensures
        ({
            let response = response_of(cc, model, previous, metadata, ids, now);
            &&& response.text_at("id"@) == Some("resp_"@ + ids.response)
            &&& response.text_or("id"@, ""@).len() > 0
            &&& response.items_at("output"@) == Some(
                match first_message(cc) {
                    Some(message) => message_output(message, ids.calls, ids.message),
                    None => Seq::empty(),
                },
            )
        }),
{
    reveal_strlit("resp_");
    reveal_strlit("id");
    reveal_strlit("object");
    reveal_strlit("created_at");
    reveal_strlit("status");
    reveal_strlit("model");
    reveal_strlit("output");
    reveal_strlit("previous_response_id");
    reveal_strlit("metadata");
    reveal_strlit("usage");
    reveal_strlit("incomplete_details");
    assert("resp_"@.len() == 5 && "id"@.len() == 2 && "object"@.len() == 6 && "created_at"@.len()
        == 10 && "status"@.len() == 6 && "model"@.len() == 5 && "output"@.len() == 6
        && "previous_response_id"@.len() == 20 && "metadata"@.len() == 8 && "usage"@.len() == 5
        && "incomplete_details"@.len() == 18);
}

/// The function calls of a response, handed back as input, make the tool calls of the
/// completion again, in their order.
pub proof fn law_calls_come_back(draft: Draft, calls: Seq<Jv>, ids: Seq<Seq<char>>)
    ensures
        draft.items(Seq::new(calls.len(), |k: int| call_output(calls[k], ids[k]))) == (Draft {
            messages: draft.messages,
            calls: draft.calls + calls.map_values(|c: Jv| plain_call(c)),
        }),
    decreases calls.len(),
{
    let items = Seq::new(calls.len(), |k: int| call_output(calls[k], ids[k]));
    if calls.len() == 0 {
        assert(draft.calls + calls.map_values(|c: Jv| plain_call(c)) =~= draft.calls);
    } else {
        let head = calls.drop_last();
        law_calls_come_back(draft, head, ids);
        assert(items.drop_last() =~= Seq::new(head.len(), |k: int| call_output(head[k], ids[k])));
        let mid = draft.items(items.drop_last());
        lemma_call_back(mid, calls.last(), ids[calls.len() - 1]);
        assert(mid.calls.push(plain_call(calls.last())) =~= draft.calls + calls.map_values(
            |c: Jv| plain_call(c),
        ));
    }
}

/// The output of a response, handed back as input, is the message of the completion again: its
/// tool calls, then what it said.
pub proof fn law_output_comes_back(
    spoken: Seq<Jv>,
    message: Jv,
    call_ids: Seq<Seq<char>>,
    message_id: Seq<char>,
)
    ensures
        ({
            let calls = message.items_or_none("tool_calls"@);
            let parts = message_parts(message);
            (Draft { messages: spoken, calls: Seq::empty() }).items(
                message_output(message, call_ids, message_id),
            ).flushed() == spoken + (if calls.len() > 0 {
                seq![calling_message(calls.map_values(|c: Jv| plain_call(c)))]
            } else {
                Seq::empty()
            }) + (if parts.len() > 0 {
                seq![assistant_message(chat_content(Some(Jv::Array(parts))))]
            } else {
                Seq::empty()
            })
        }),
{
    lemma_member_names();
    let calls = message.items_or_none("tool_calls"@);
    let parts = message_parts(message);
    let start = Draft { messages: spoken, calls: Seq::empty() };
    let call_items = Seq::new(calls.len(), |k: int| call_output(calls[k], call_ids[k]));
    let output = message_output(message, call_ids, message_id);
    let mapped = calls.map_values(|c: Jv| plain_call(c));
    law_calls_come_back(start, calls, call_ids);
    assert(start.calls + mapped =~= mapped);
    if parts.len() > 0 {
        let item = message_item("msg_"@ + message_id, "completed"@, parts);
        assert(output =~= call_items.push(item));
        assert(output.drop_last() =~= call_items);
        assert(item.text_at("type"@) == Some("message"@));
        assert(item.text_at("role"@) == Some("assistant"@));
        assert(item.get("content"@) == Some(Jv::Array(parts)));
        let end = start.items(call_items).item(item);
        assert(end.flushed() =~= spoken + (if calls.len() > 0 {
            seq![calling_message(mapped)]
        } else {
            Seq::empty()
        }) + seq![assistant_message(chat_content(Some(Jv::Array(parts))))]);
    } else {
        assert(output =~= call_items);
        assert(start.items(output).flushed() =~= spoken + (if calls.len() > 0 {
            seq![calling_message(mapped)]
        } else {
            Seq::empty()
        }) + Seq::empty());
    }
}

/// A message that refuses nothing comes back as its text.
pub proof fn law_text_comes_back(message: Jv)
    requires
        message.text_or("refusal"@, ""@).len() == 0,
        spoken_text(message).len() > 0,
    ensures
        chat_content(Some(Jv::Array(message_parts(message)))) == Jv::Str(spoken_text(message)),
{
    lemma_member_names();
    let text = spoken_text(message);
    let parts = message_parts(message);
    assert(parts =~= seq![text_part(text)]);
    assert(parts[0].text_at("type"@) == Some("output_text"@));
    assert(parts[0].get("text"@) == Some(Jv::Str(text)));
    let mapped = parts.map_values(|b: Jv| chat_block(b));
    assert(mapped.len() == 1);
    assert(mapped[0] == chat_block(parts[0]));
    assert(single_text(mapped) == Some(text));
}

} // verus!
