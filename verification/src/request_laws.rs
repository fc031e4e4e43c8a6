//! What a Responses request becomes as a Chat Completions request, member by member and item by
//! item.

use vstd::prelude::*;

use crate::config::Config;
use crate::handler_laws::{law_request_conversation, lemma_minimax_messages};
use crate::handlers::{minimax_body, minimax_chat, with_fetch};
use crate::json::Jv;
use crate::message_laws::prepared;
use crate::repair_laws::law_first_text_comes_first;
use crate::request::{
    chat_base, chat_block, chat_content, chat_request, chat_tool, chat_tools, input_items,
    is_function_tool, raw_messages, single_text, with_effort, with_tool_choice, with_tools, Draft,
};
use crate::store::Entry;
use crate::web_fetch::with_hint;
use crate::words::lemma_words_differ;

verus! {

// ─── Instructions ──────────────────────────────────────────────────────────

/// What the instructions of a request say to the model.
pub open spec fn instructed(instructions: Seq<char>) -> Seq<char> {
    "[System Instructions] "@ + instructions
        + "\n\nNote: Be efficient with tool calls. Avoid repeating the same tool call unnecessarily."@
}

proof fn lemma_draft_keeps_first(draft: Draft, items: Seq<Jv>)
    requires
        draft.messages.len() > 0,
    ensures
        draft.items(items).messages.len() > 0,
        draft.items(items).messages[0] == draft.messages[0],
        draft.items(items).flushed().len() > 0,
        draft.items(items).flushed()[0] == draft.messages[0],
    decreases items.len(),
{
    if items.len() > 0 {
        lemma_draft_keeps_first(draft, items.drop_last());
    }
}

/// Where a request has instructions, whatever its input is, they are the first message, a user
/// message; without them nothing stands in front of the input.
pub proof fn law_instructions_come_first(body: Jv)
    ensures
        body.text_at("instructions"@) matches Some(instructions) ==> {
            &&& raw_messages(body).len() > 0
            &&& raw_messages(body)[0].text_at("role"@) == Some("user"@)
            &&& raw_messages(body)[0].text_at("content"@) == Some(instructed(instructions))
        },
        body.get("input"@) is None || !(body.get("input"@)->0 is Str || body.get("input"@)->0 is Array)
            ==> raw_messages(body).len() == if body.text_at("instructions"@) is Some {
            1int
        } else {
            0
        },
{
    lemma_words_differ();
    if let Some(instructions) = body.text_at("instructions"@) {
        if let Some(Jv::Array(items)) = body.get("input"@) {
            lemma_draft_keeps_first(
                Draft {
                    messages: seq![crate::request::instructions_message(instructions)],
                    calls: Seq::empty(),
                },
                items,
            );
        }
    }
}

/// The conversation of a translated request begins with a user message whose content starts with
/// the instructions of the request, whatever else the request holds.
pub proof fn law_instructions_are_sent(body: Jv, instructions: Seq<char>)
    requires
        body.text_at("instructions"@) == Some(instructions),
    ensures
        ({
            let sent = chat_request(body).items_or_none("messages"@);
            &&& sent.len() > 0
            &&& sent[0].text_at("role"@) == Some("user"@)
            &&& sent[0].text_at("content"@) matches Some(content) && instructed(
                instructions,
            ).is_prefix_of(content)
        }),
{
    law_instructions_come_first(body);
    law_first_text_comes_first(raw_messages(body), instructed(instructions));
    law_request_conversation(body);
}

/// So does the conversation that goes to MiniMax, whatever history, nudge or word on `web_fetch`
/// joins it.
pub proof fn law_instructions_reach_minimax(
    config: Config,
    body: Jv,
    list: Seq<(Seq<char>, Entry)>,
    instructions: Seq<char>,
)
    requires
        body.text_at("instructions"@) == Some(instructions),
    ensures
        ({
            let sent = with_fetch(minimax_chat(config, body, list)).items_or_none("messages"@);
            &&& sent.len() > 0
            &&& sent[0].text_at("role"@) == Some("user"@)
            &&& sent[0].text_at("content"@) matches Some(content) && instructed(
                instructions,
            ).is_prefix_of(content)
        }),
{
    lemma_words_differ();
    let ready = minimax_body(body, list);
    assert(ready.text_at("instructions"@) == Some(instructions));
    law_instructions_come_first(ready);
    law_first_text_comes_first(raw_messages(ready), instructed(instructions));
    lemma_minimax_messages(config, body, list);
    let said = prepared(raw_messages(ready));
    assert(with_hint(said)[0] == said[0]);
}

// ─── Content ───────────────────────────────────────────────────────────────

/// What a block of a message's content is sent as: a text as a text, an image by its address, and
/// any other block as it is.
pub open spec fn block_sent(block: Jv, sent: Jv) -> bool {
    let kind = block.text_at("type"@);
    if kind == Some("input_text"@) || kind == Some("output_text"@) {
        &&& sent.text_at("type"@) == Some("text"@)
        &&& sent.get("text"@) == Some(
            match block.get("text"@) {
                Some(text) => text,
                None => Jv::Null,
            },
        )
        &&& forall|key: Seq<char>|
            key != "type"@ && key != "text"@ ==> #[trigger] sent.get(key) is None
    } else if kind == Some("input_image"@) {
        &&& sent.text_at("type"@) == Some("image_url"@)
        &&& sent.get("image_url"@) matches Some(image) && image.get("url"@) == Some(
            match (block.get("image_url"@), block.get("url"@)) {
                (Some(url), _) => url,
                (None, Some(url)) => url,
                (None, None) => Jv::Null,
            },
        )
        &&& forall|key: Seq<char>|
            key != "type"@ && key != "image_url"@ ==> #[trigger] sent.get(key) is None
    } else {
        sent == block
    }
}

/// What the content of a message is sent as: nothing as null, a list of one text as that text, any
/// other list as a list of the same length, block by block, and every other value as it is.
pub open spec fn content_sent(content: Option<Jv>, sent: Jv) -> bool {
    match content {
        None => sent == Jv::Null,
        Some(Jv::Array(blocks)) => {
            let kind = blocks[0].text_at("type"@);
            if blocks.len() == 1 && (kind == Some("input_text"@) || kind == Some("output_text"@)
                || kind == Some("text"@)) && blocks[0].text_at("text"@) is Some {
                sent == Jv::Str(blocks[0].text_at("text"@)->0)
            } else {
                &&& sent matches Jv::Array(list) && list.len() == blocks.len() && forall|i: int|
                    0 <= i < list.len() ==> block_sent(blocks[i], #[trigger] list[i])
            }
        },
        Some(other) => sent == other,
    }
}

proof fn lemma_block_sent(block: Jv)
    ensures
        block_sent(block, chat_block(block)),
{
    lemma_words_differ();
    reveal_strlit("");
}

/// Every content is sent as it should be, however many blocks it has.
pub proof fn law_content_is_sent(content: Option<Jv>)
    ensures
        content_sent(content, chat_content(content)),
{
    lemma_words_differ();
    reveal_strlit("");
    if let Some(Jv::Array(blocks)) = content {
        let mapped = blocks.map_values(|b: Jv| chat_block(b));
        assert forall|i: int| 0 <= i < mapped.len() implies block_sent(
            blocks[i],
            #[trigger] mapped[i],
        ) by {
            lemma_block_sent(blocks[i]);
        }
        if blocks.len() == 1 {
            assert(mapped[0] == chat_block(blocks[0]));
            lemma_block_sent(blocks[0]);
        } else {
            assert(single_text(mapped) is None);
        }
    }
}

// ─── Input items ───────────────────────────────────────────────────────────

proof fn lemma_draft_last(draft: Draft, items: Seq<Jv>)
    requires
        draft.calls.len() == 0,
        draft.messages.len() > 0 ==> draft.messages.last().get("tool_calls"@) is None,
    ensures
        ({
            let after = draft.items(items);
            after.messages.len() > 0 ==> after.messages.last().get("tool_calls"@) is None
        }),
    decreases items.len(),
{
    lemma_words_differ();
    if items.len() > 0 {
        lemma_draft_last(draft, items.drop_last());
    }
}

/// The call that an item asks for, as the model sees it.
pub open spec fn call_sent(item: Jv, call: Jv) -> bool {
    &&& call.text_at("id"@) == Some(
        match item.get("call_id"@) {
            Some(Jv::Str(id)) => id,
            Some(_) => ""@,
            None => match item.text_at("id"@) {
                Some(id) => id,
                None => ""@,
            },
        },
    )
    &&& call.text_at("type"@) == Some("function"@)
    &&& call.get("function"@) matches Some(function) && function.text_at("name"@) == Some(
        match item.text_at("name"@) {
            Some(name) => name,
            None => ""@,
        },
    ) && function.text_at("arguments"@) == Some(
        match item.text_at("arguments"@) {
            Some(arguments) => arguments,
            None => "{}"@,
        },
    )
}

/// What one more input item adds to the conversation. A message is one more message, with its
/// role (`user` for `developer`, `system` and none) and its content. A function call joins the
/// calls that the conversation ends with, or is one more assistant message. An output of a
/// function is one more tool message, with its identifier and its text. Nothing else adds
/// anything, and nothing that stands there changes.
pub proof fn law_input_item(a: Jv, b: Jv, items: Seq<Jv>, item: Jv)
    requires
        a.get("input"@) == Some(Jv::Array(items)),
        b.get("input"@) == Some(Jv::Array(items.push(item))),
        a.get("instructions"@) == b.get("instructions"@),
    ensures
        ({
            let kind = item.text_at("type"@);
            let before = raw_messages(a);
            let after = raw_messages(b);
            let last = after.last();
            &&& kind == Some("message"@) ==> {
                &&& after.len() == before.len() + 1 && after.drop_last() == before
                &&& last.text_at("role"@) == (match item.text_at("role"@) {
                    Some(role) => if role == "developer"@ || role == "system"@ {
                        Some("user"@)
                    } else {
                        Some(role)
                    },
                    None => Some("user"@),
                })
                &&& last.get("content"@) matches Some(content) && content_sent(
                    item.get("content"@),
                    content,
                )
                &&& forall|key: Seq<char>|
                    key != "role"@ && key != "content"@ ==> #[trigger] last.get(key) is None
            }
            &&& kind == Some("function_call_output"@) ==> {
                &&& after.len() == before.len() + 1 && after.drop_last() == before
                &&& last.text_at("role"@) == Some("tool"@)
                &&& last.text_at("tool_call_id"@) == (match item.text_at("call_id"@) {
                    Some(id) => Some(id),
                    None => Some(""@),
                })
                &&& last.text_at("content"@) == (match item.text_at("output"@) {
                    Some(output) => Some(output),
                    None => Some(""@),
                })
            }
            &&& kind == Some("function_call"@) ==> {
                let joins = before.len() > 0 && before.last().items_at("tool_calls"@) is Some;
                &&& after.len() > 0
                &&& after.drop_last() == if joins {
                    before.drop_last()
                } else {
                    before
                }
                &&& last.text_at("role"@) == Some("assistant"@)
                &&& last.get("content"@) == Some(Jv::Null)
                &&& last.items_at("tool_calls"@) matches Some(calls) && calls.len() > 0
                    && calls.drop_last() == (if joins {
                    before.last().items_at("tool_calls"@)->0
                } else {
                    Seq::empty()
                }) && call_sent(item, calls.last())
            }
            &&& kind != Some("message"@) && kind != Some("function_call"@) && kind != Some(
                "function_call_output"@,
            ) ==> after == before
        }),
{
    lemma_words_differ();
    reveal_strlit("");
    let opening = match a.text_at("instructions"@) {
        Some(instructions) => seq![crate::request::instructions_message(instructions)],
        None => Seq::empty(),
    };
    let start = Draft { messages: opening, calls: Seq::empty() };
    lemma_draft_last(start, items);
    assert(items.push(item).drop_last() =~= items);
    let draft = start.items(items);
    let next = draft.item(item);
    assert(raw_messages(a) == draft.flushed());
    assert(raw_messages(b) == next.flushed());
    let before = draft.flushed();
    let after = next.flushed();
    let kind = item.text_at("type"@);
    if kind == Some("message"@) {
        law_content_is_sent(item.get("content"@));
        assert(after.drop_last() =~= before);
    } else if kind == Some("function_call_output"@) {
        assert(after.drop_last() =~= before);
    } else if kind == Some("function_call"@) {
        assert(after.drop_last() =~= draft.messages);
        assert(next.calls.drop_last() =~= draft.calls);
        if draft.calls.len() > 0 {
            assert(before.drop_last() =~= draft.messages);
        }
    }
}

/// A text as input is one user message behind the instructions, and an empty list of items is
/// none.
pub proof fn law_plain_input(a: Jv, b: Jv, text: Seq<char>)
    requires
        a.get("input"@) == Some(Jv::Array(Seq::empty())),
        b.get("input"@) == Some(Jv::Str(text)),
        a.get("instructions"@) == b.get("instructions"@),
    ensures
        raw_messages(a).len() == if a.text_at("instructions"@) is Some {
            1int
        } else {
            0
        },
        raw_messages(b).drop_last() == raw_messages(a),
        raw_messages(b).last().text_at("role"@) == Some("user"@),
        raw_messages(b).last().text_at("content"@) == Some(text),
{
    lemma_words_differ();
    assert(raw_messages(b).drop_last() =~= raw_messages(a));
}

/// The items of an input: those of a list, one user message with the text for a text, and none for
/// anything else.
pub proof fn law_input_items(input: Jv)
    ensures
        input matches Jv::Array(items) ==> input_items(input) == items,
        input matches Jv::Str(text) ==> {
            let items = input_items(input);
            &&& items.len() == 1
            &&& items[0].text_at("type"@) == Some("message"@)
            &&& items[0].text_at("role"@) == Some("user"@)
            &&& content_sent(items[0].get("content"@), Jv::Str(text))
        },
        !(input is Array) && !(input is Str) ==> input_items(input).len() == 0,
{
    lemma_words_differ();
}

// ─── Tools ─────────────────────────────────────────────────────────────────

/// Of the tools the functions are sent, in their order, and no others. A tool with a `function`
/// member is sent as it is; of another the name, the description and the parameters are.
pub proof fn law_tools_are_sent(tools: Seq<Jv>, tool: Jv)
    ensures
        chat_tools(Seq::empty()).len() == 0,
        tool.text_at("type"@) != Some("function"@) ==> chat_tools(tools.push(tool)) == chat_tools(
            tools,
        ),
        tool.text_at("type"@) == Some("function"@) ==> ({
            let sent = chat_tools(tools.push(tool));
            &&& sent.len() == chat_tools(tools).len() + 1 && sent.drop_last() == chat_tools(tools)
            &&& tool.get("function"@) is Some ==> sent.last() == tool
            &&& tool.get("function"@) is None ==> {
                &&& sent.last().text_at("type"@) == Some("function"@)
                &&& sent.last().get("function"@) matches Some(function) && function.get("name"@)
                    == Some(
                    match tool.get("name"@) {
                        Some(name) => name,
                        None => Jv::Null,
                    },
                ) && function.get("description"@) == Some(
                    match tool.get("description"@) {
                        Some(description) => description,
                        None => Jv::Null,
                    },
                ) && function.get("parameters"@) == Some(
                    match tool.get("parameters"@) {
                        Some(parameters) => parameters,
                        None => Jv::Null,
                    },
                )
            }
        }),
{
    lemma_words_differ();
    reveal(Seq::filter);
    let p = |t: Jv| is_function_tool(t);
    let f = |t: Jv| chat_tool(t);
    tools.lemma_filter_push(tool, p);
    assert(tools.filter(p).push(tool).map_values(f) =~= tools.filter(p).map_values(f).push(
        chat_tool(tool),
    ));
    assert(Seq::<Jv>::empty().filter(p) =~= Seq::empty());
    if is_function_tool(tool) {
        assert(chat_tools(tools.push(tool)).drop_last() =~= chat_tools(tools));
    }
}

// ─── The request ───────────────────────────────────────────────────────────

/// A member that is carried over: it is there where the request has it and it is not null.
pub open spec fn carried_over(body: Jv, request: Jv, key: Seq<char>) -> bool {
    request.get(key) == (match body.get(key) {
        Some(value) => if value is Null {
            None
        } else {
            Some(value)
        },
        None => None,
    })
}

/// Every member of a translated request: the model as it was named, the stream flag (false where
/// none is given), the limit of the output (16384 where none is given), the temperature, `top_p`
/// and `parallel_tool_calls` where they are given, the tools where there are functions among them,
/// the choice of a tool by its name, and the effort. There is no other member.
#[verifier::spinoff_prover]
#[verifier::rlimit(60)]
pub proof fn law_request_members(body: Jv)
    ensures
        ({
            let request = chat_request(body);
            &&& request.get("model"@) == Some(
                match body.get("model"@) {
                    Some(model) => model,
                    None => Jv::Null,
                },
            )
            &&& request.get("stream"@) == Some(
                match body.get("stream"@) {
                    Some(Jv::Bool(b)) => Jv::Bool(b),
                    _ => Jv::Bool(false),
                },
            )
            &&& request.get("max_tokens"@) == Some(
                match body.get("max_output_tokens"@) {
                    Some(Jv::Int(n)) => if 0 <= n <= u64::MAX {
                        Jv::Int(n)
                    } else {
                        Jv::Int(16384)
                    },
                    _ => Jv::Int(16384),
                },
            )
            &&& carried_over(body, request, "temperature"@)
            &&& carried_over(body, request, "top_p"@)
            &&& carried_over(body, request, "parallel_tool_calls"@)
            &&& request.get("tools"@) == (match body.get("tools"@) {
                Some(Jv::Array(tools)) => if chat_tools(tools).len() > 0 {
                    Some(Jv::Array(chat_tools(tools)))
                } else {
                    None
                },
                _ => None,
            })
            &&& match body.get("tool_choice"@) {
                Some(choice) => if choice is Null {
                    request.get("tool_choice"@) is None
                } else if choice.text_at("name"@) is Some {
                    let named = request.get("tool_choice"@)->0;
                    &&& request.get("tool_choice"@) is Some
                    &&& named.text_at("type"@) == Some("function"@)
                    &&& named.get("function"@) is Some
                    &&& named.get("function"@)->0.text_at("name"@) == choice.text_at("name"@)
                } else {
                    request.get("tool_choice"@) == Some(choice)
                },
                None => request.get("tool_choice"@) is None,
            }
            &&& request.get("reasoning_effort"@) == (match body.get("reasoning"@) {
                Some(reasoning) => match reasoning.text_at("effort"@) {
                    Some(effort) => Some(Jv::Str(effort)),
                    None => None,
                },
                None => None,
            })
            &&& forall|key: Seq<char>|
                key != "model"@ && key != "messages"@ && key != "stream"@ && key != "max_tokens"@
                    && key != "temperature"@ && key != "top_p"@ && key != "parallel_tool_calls"@
                    && key != "tools"@ && key != "tool_choice"@ && key != "reasoning_effort"@
                    ==> #[trigger] request.get(key) is None
        }),
{
    lemma_words_differ();
    let base = chat_base(body);
    let warm = crate::request::carried(base, body, "temperature"@);
    let sampled = crate::request::carried(warm, body, "top_p"@);
    let tooled = with_tool_choice(with_tools(sampled, body), body);
    let effort = with_effort(tooled, body);
    assert(chat_request(body) == crate::request::carried(effort, body, "parallel_tool_calls"@));
    assert(base is Object && warm is Object && sampled is Object);
    assert(with_tools(sampled, body) is Object && tooled is Object && effort is Object);
}

} // verus!
