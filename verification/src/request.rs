//! The translation of a Responses request into a Chat Completions request.

use vstd::prelude::*;
use vstd::string::*;

use crate::json::{empty_object, group_json, views, Json, Jv};
use crate::json_ops::copy_items;
use crate::message_laws::prepared;
use crate::messages::{
    merge_consecutive, repair_tool_order, trim_messages, truncate_old_tool_outputs, user_message,
    user_text, validate_tool_sequence,
};

verus! {

broadcast use group_json;

// ─── Input items ───────────────────────────────────────────────────────────

/// The input item that stands for a plain text input.
pub open spec fn text_item(text: Seq<char>) -> Jv {
    empty_object().put("type"@, Jv::Str("message"@)).put("role"@, Jv::Str("user"@)).put(
        "content"@,
        Jv::Array(
            seq![
                empty_object().put("type"@, Jv::Str("input_text"@)).put("text"@, Jv::Str(text)),
            ],
        ),
    )
}

/// The input items that the `input` of a Responses request stands for.
pub open spec fn input_items(input: Jv) -> Seq<Jv> {
    match input {
        Jv::Array(items) => items,
        Jv::Str(text) => seq![text_item(text)],
        _ => Seq::empty(),
    }
}

/// An input item that says `text` as the user.
pub fn user_input_item(text: &str) -> (r: Json)
    ensures
        r@ == text_item(text@),
{
    let mut content: Vec<Json> = Vec::new();
    content.push(
        Json::object().with("type", Json::text("input_text")).with("text", Json::text(text)),
    );
    assert(views(content@) =~= text_item(text@).get("content"@)->0->Array_0);
    Json::object().with("type", Json::text("message")).with("role", Json::text("user")).with(
        "content",
        Json::Array(content),
    )
}

/// The `input` of a Responses request as a list of items.
pub fn normalize_input_to_array(input: &Json) -> (r: Vec<Json>)
    ensures
        views(r@) == input_items(input@),
{
    match input {
        Json::Array(items) => copy_items(items),
        Json::Str(text) => {
            let mut r: Vec<Json> = Vec::new();
            r.push(user_input_item(text.as_str()));
            assert(views(r@) =~= input_items(input@));
            r
        },
        _ => {
            let r: Vec<Json> = Vec::new();
            assert(views(r@) =~= Seq::empty());
            r
        },
    }
}

// ─── Content blocks ────────────────────────────────────────────────────────

/// A content block in the form that Chat Completions knows.
pub open spec fn chat_block(block: Jv) -> Jv {
    let kind = block.text_or("type"@, ""@);
    if kind == "input_text"@ || kind == "output_text"@ {
        empty_object().put("type"@, Jv::Str("text"@)).put("text"@, block.get_or("text"@, Jv::Null))
    } else if kind == "input_image"@ {
        empty_object().put("type"@, Jv::Str("image_url"@)).put(
            "image_url"@,
            empty_object().put(
                "url"@,
                block.get_or("image_url"@, block.get_or("url"@, Jv::Null)),
            ),
        )
    } else {
        block
    }
}

/// The text of a list of blocks that is a single text block.
pub open spec fn single_text(blocks: Seq<Jv>) -> Option<Seq<char>> {
    if blocks.len() == 1 && blocks[0].text_at("type"@) == Some("text"@) {
        blocks[0].text_at("text"@)
    } else {
        None
    }
}

/// The content of a message in the form that Chat Completions knows.
pub open spec fn chat_content(content: Option<Jv>) -> Jv {
    match content {
        None => Jv::Null,
        Some(Jv::Array(blocks)) => {
            let mapped = blocks.map_values(|b: Jv| chat_block(b));
            match single_text(mapped) {
                Some(text) => Jv::Str(text),
                None => Jv::Array(mapped),
            }
        },
        Some(other) => other,
    }
}

fn normalize_block(block: &Json) -> (r: Json)
    ensures
        r@ == chat_block(block@),
{
    let kind = block.text_or("type", "");
    if crate::text::same(kind, "input_text") || crate::text::same(kind, "output_text") {
        Json::object().with("type", Json::text("text")).with(
            "text",
            block.get_or("text", Json::Null),
        )
    } else if crate::text::same(kind, "input_image") {
        let url = block.get_or("image_url", block.get_or("url", Json::Null));
        Json::object().with("type", Json::text("image_url")).with(
            "image_url",
            Json::object().with("url", url),
        )
    } else {
        block.clone()
    }
}

/// Brings the content of a message into the form that Chat Completions knows.
pub fn normalize_content_blocks(content: Option<&Json>) -> (r: Json)
    ensures
        r@ == chat_content(crate::json::opt_view(content)),
{
    match content {
        None => Json::Null,
        Some(value) => match value {
            Json::Array(blocks) => {
                let ghost all = views(blocks@);
                let mut mapped: Vec<Json> = Vec::new();
                let mut i: usize = 0;
                while i < blocks.len()
                    invariant
                        i <= blocks@.len(),
                        mapped@.len() == i,
                        all == views(blocks@),
                        forall|k: int|
                            0 <= k < i ==> (#[trigger] mapped@[k])@ == chat_block(all[k]),
                    decreases blocks@.len() - i,
                {
                    mapped.push(normalize_block(&blocks[i]));
                    i = i + 1;
                }
                assert(views(mapped@) =~= all.map_values(|b: Jv| chat_block(b)));
                if mapped.len() == 1 && mapped[0].text_is("type", "text") {
                    match mapped[0].text_at("text") {
                        Some(text) => {
                            return Json::text(text);
                        },
                        None => {},
                    }
                }
                Json::Array(mapped)
            },
            other => other.clone(),
        },
    }
}

// ─── Items to messages ─────────────────────────────────────────────────────

/// A tool call of an assistant message.
pub open spec fn tool_call(id: Seq<char>, name: Seq<char>, arguments: Seq<char>) -> Jv {
    empty_object().put("id"@, Jv::Str(id)).put("type"@, Jv::Str("function"@)).put(
        "function"@,
        empty_object().put("name"@, Jv::Str(name)).put("arguments"@, Jv::Str(arguments)),
    )
}

/// An assistant message that makes tool calls and says nothing.
pub open spec fn calling_message(calls: Seq<Jv>) -> Jv {
    empty_object().put("role"@, Jv::Str("assistant"@)).put("content"@, Jv::Null).put(
        "tool_calls"@,
        Jv::Array(calls),
    )
}

/// The result of a tool call.
pub open spec fn tool_message(id: Seq<char>, content: Seq<char>) -> Jv {
    empty_object().put("role"@, Jv::Str("tool"@)).put("tool_call_id"@, Jv::Str(id)).put(
        "content"@,
        Jv::Str(content),
    )
}

/// The role of a message, with the roles that only Responses knows turned into `user`.
pub open spec fn chat_role(item: Jv) -> Seq<char> {
    let role = item.text_or("role"@, "user"@);
    if role == "developer"@ || role == "system"@ {
        "user"@
    } else {
        role
    }
}

/// The id that a function call item is known by.
pub open spec fn call_id_of(item: Jv) -> Seq<char> {
    match item.get("call_id"@) {
        Some(v) => match v.text() {
            Some(id) => id,
            None => ""@,
        },
        None => item.text_or("id"@, ""@),
    }
}

/// A conversation under translation: the messages so far, and the tool calls that wait for the
/// assistant message that makes them.
pub struct Draft {
    pub messages: Seq<Jv>,
    pub calls: Seq<Jv>,
}

impl Draft {
    /// The messages, with the waiting tool calls made.
    pub open spec fn flushed(self) -> Seq<Jv> {
        if self.calls.len() > 0 {
            self.messages.push(calling_message(self.calls))
        } else {
            self.messages
        }
    }

    /// The draft with one more input item.
    pub open spec fn item(self, item: Jv) -> Draft {
        let kind = item.text_or("type"@, ""@);
        if kind == "message"@ {
            Draft {
                messages: self.flushed().push(
                    empty_object().put("role"@, Jv::Str(chat_role(item))).put(
                        "content"@,
                        chat_content(item.get("content"@)),
                    ),
                ),
                calls: Seq::empty(),
            }
        } else if kind == "function_call"@ {
            Draft {
                messages: self.messages,
                calls: self.calls.push(
                    tool_call(
                        call_id_of(item),
                        item.text_or("name"@, ""@),
                        item.text_or("arguments"@, "{}"@),
                    ),
                ),
            }
        } else if kind == "function_call_output"@ {
            Draft {
                messages: self.flushed().push(
                    tool_message(item.text_or("call_id"@, ""@), item.text_or("output"@, ""@)),
                ),
                calls: Seq::empty(),
            }
        } else {
            self
        }
    }

    /// The draft with the input items `items`, one after the other.
    pub open spec fn items(self, items: Seq<Jv>) -> Draft
        decreases items.len(),
    {
        if items.len() == 0 {
            self
        } else {
            self.items(items.drop_last()).item(items.last())
        }
    }
}

/// The user message that stands for the instructions of a request.
pub open spec fn instructions_message(instructions: Seq<char>) -> Jv {
    user_message(
        "[System Instructions] "@ + instructions
            + "\n\nNote: Be efficient with tool calls. Avoid repeating the same tool call unnecessarily."@,
    )
}

/// The messages that a Responses request stands for, before they are repaired.
pub open spec fn raw_messages(body: Jv) -> Seq<Jv> {
    let opening = match body.text_at("instructions"@) {
        Some(instructions) => seq![instructions_message(instructions)],
        None => Seq::empty(),
    };
    match body.get("input"@) {
        Some(Jv::Str(text)) => opening.push(user_message(text)),
        Some(Jv::Array(items)) => (Draft { messages: opening, calls: Seq::empty() }).items(
            items,
        ).flushed(),
        _ => opening,
    }
}

fn flush(messages: &mut Vec<Json>, calls: &mut Vec<Json>)
    ensures
        views(final(messages)@) == (Draft {
            messages: views(old(messages)@),
            calls: views(old(calls)@),
        }).flushed(),
        final(calls)@.len() == 0,
{
    if calls.len() > 0 {
        let mut taken: Vec<Json> = Vec::new();
        taken.append(calls);
        assert(views(taken@) =~= views(old(calls)@));
        messages.push(
            Json::object().with("role", Json::text("assistant")).with("content", Json::Null).with(
                "tool_calls",
                Json::Array(taken),
            ),
        );
    }
}

fn add_item(messages: &mut Vec<Json>, calls: &mut Vec<Json>, item: &Json)
    ensures
        views(final(messages)@) == (Draft {
            messages: views(old(messages)@),
            calls: views(old(calls)@),
        }).item(item@).messages,
        views(final(calls)@) == (Draft {
            messages: views(old(messages)@),
            calls: views(old(calls)@),
        }).item(item@).calls,
{
    let kind = item.text_or("type", "");
    if crate::text::same(kind, "message") {
        let raw = item.text_or("role", "user");
        let role = if crate::text::same(raw, "developer") || crate::text::same(raw, "system") {
            "user"
        } else {
            raw
        };
        let content = normalize_content_blocks(item.get("content"));
        flush(messages, calls);
        messages.push(Json::object().with("role", Json::text(role)).with("content", content));
        assert(views(calls@) =~= Seq::empty());
    } else if crate::text::same(kind, "function_call") {
        let id = match item.get("call_id") {
            Some(v) => match v.as_str() {
                Some(id) => id,
                None => "",
            },
            None => item.text_or("id", ""),
        };
        let function = Json::object().with("name", Json::text(item.text_or("name", ""))).with(
            "arguments",
            Json::text(item.text_or("arguments", "{}")),
        );
        calls.push(
            Json::object().with("id", Json::text(id)).with("type", Json::text("function")).with(
                "function",
                function,
            ),
        );
    } else if crate::text::same(kind, "function_call_output") {
        flush(messages, calls);
        messages.push(
            tool_result(item.text_or("call_id", ""), item.text_or("output", "")),
        );
        assert(views(calls@) =~= Seq::empty());
    }
}

/// The result of a tool call, as a message.
pub fn tool_result(id: &str, content: &str) -> (r: Json)
    ensures
        r@ == tool_message(id@, content@),
{
    Json::object().with("role", Json::text("tool")).with("tool_call_id", Json::text(id)).with(
        "content",
        Json::text(content),
    )
}

/// The messages that a Responses request stands for, before they are repaired.
pub fn request_messages(body: &Json) -> (r: Vec<Json>)
    ensures
        views(r@) == raw_messages(body@),
{
    let mut messages: Vec<Json> = Vec::new();
    assert(views(messages@) =~= Seq::empty());
    match body.text_at("instructions") {
        Some(instructions) => {
            let mut text = "[System Instructions] ".to_owned();
            text.append(instructions);
            text.append(
                "\n\nNote: Be efficient with tool calls. Avoid repeating the same tool call unnecessarily.",
            );
            messages.push(user_text(text.as_str()));
            assert(views(messages@) =~= seq![instructions_message(instructions@)]);
        },
        None => {},
    }
    let ghost opening = views(messages@);
    match body.get("input") {
        Some(input) => match input {
            Json::Str(text) => {
                messages.push(user_text(text.as_str()));
            },
            Json::Array(items) => {
                let ghost start = Draft { messages: opening, calls: Seq::empty() };
                let ghost all = views(items@);
                let mut calls: Vec<Json> = Vec::new();
                let mut i: usize = 0;
                assert(views(calls@) =~= Seq::empty());
                assert(all.take(0) =~= Seq::empty());
                while i < items.len()
                    invariant
                        i <= items@.len(),
                        all == views(items@),
                        views(messages@) == start.items(all.take(i as int)).messages,
                        views(calls@) == start.items(all.take(i as int)).calls,
                    decreases items@.len() - i,
                {
                    add_item(&mut messages, &mut calls, &items[i]);
                    assert(all.take(i + 1).drop_last() =~= all.take(i as int));
                    i = i + 1;
                }
                assert(all.take(i as int) =~= all);
                flush(&mut messages, &mut calls);
            },
            _ => {},
        },
        None => {},
    }
    messages
}

// ─── Tools and the whole request ───────────────────────────────────────────

/// A tool in the form that Chat Completions knows.
pub open spec fn chat_tool(tool: Jv) -> Jv {
    if tool.get("function"@) is Some {
        tool
    } else {
        empty_object().put("type"@, Jv::Str("function"@)).put(
            "function"@,
            empty_object().put("name"@, tool.get_or("name"@, Jv::Null)).put(
                "description"@,
                tool.get_or("description"@, Jv::Null),
            ).put("parameters"@, tool.get_or("parameters"@, Jv::Null)),
        )
    }
}

fn normalize_tool(tool: &Json) -> (r: Json)
    ensures
        r@ == chat_tool(tool@),
{
    if tool.get("function").is_some() {
        tool.clone()
    } else {
        let function = Json::object().with("name", tool.get_or("name", Json::Null)).with(
            "description",
            tool.get_or("description", Json::Null),
        ).with("parameters", tool.get_or("parameters", Json::Null));
        Json::object().with("type", Json::text("function")).with("function", function)
    }
}

pub open spec fn is_function_tool(tool: Jv) -> bool {
    tool.text_at("type"@) == Some("function"@)
}

/// The function tools of a request; tools of other kinds are left out.
pub open spec fn chat_tools(tools: Seq<Jv>) -> Seq<Jv> {
    tools.filter(|t: Jv| is_function_tool(t)).map_values(|t: Jv| chat_tool(t))
}

fn supported_tools(tools: &Vec<Json>) -> (r: Vec<Json>)
    ensures
        views(r@) == chat_tools(views(tools@)),
{
    let ghost all = views(tools@);
    let ghost wanted = |t: Jv| is_function_tool(t);
    let mut r: Vec<Json> = Vec::new();
    let mut i: usize = 0;
    proof {
        reveal(Seq::filter);
        assert(views(r@) =~= chat_tools(all.take(0)));
    }
    while i < tools.len()
        invariant
            i <= tools@.len(),
            all == views(tools@),
            wanted == (|t: Jv| is_function_tool(t)),
            views(r@) == chat_tools(all.take(i as int)),
        decreases tools@.len() - i,
    {
        let ghost before = views(r@);
        proof {
            assert(all.take(i + 1) =~= all.take(i as int).push(all[i as int]));
            all.take(i as int).lemma_filter_push(all[i as int], wanted);
        }
        if tools[i].text_is("type", "function") {
            r.push(normalize_tool(&tools[i]));
            assert(views(r@) =~= chat_tools(all.take(i + 1)));
        }
        i = i + 1;
    }
    assert(all.take(i as int) =~= all);
    r
}

/// The tool choice of a request in the form that Chat Completions knows.
pub open spec fn chat_tool_choice(choice: Jv) -> Jv {
    match choice.text_at("name"@) {
        Some(name) => empty_object().put("type"@, Jv::Str("function"@)).put(
            "function"@,
            empty_object().put("name"@, Jv::Str(name)),
        ),
        None => choice,
    }
}

/// `req` with the member `key` of `body` carried over, where that is there and not null.
pub open spec fn carried(req: Jv, body: Jv, key: Seq<char>) -> Jv {
    match body.get(key) {
        Some(v) => if v is Null {
            req
        } else {
            req.put(key, v)
        },
        None => req,
    }
}

fn carry(req: &mut Json, body: &Json, key: &str)
    requires
        old(req)@ is Object,
    ensures
        final(req)@ == carried(old(req)@, body@, key@),
{
    match body.get(key) {
        Some(v) => {
            if !v.is_null() {
                req.set(key, v.clone());
            }
        },
        None => {},
    }
}

/// The members that every chat request has.
pub open spec fn chat_base(body: Jv) -> Jv {
    empty_object().put("model"@, body.get_or("model"@, Jv::Null)).put(
        "messages"@,
        Jv::Array(prepared(raw_messages(body))),
    ).put("stream"@, Jv::Bool(body.bool_or("stream"@, false))).put(
        "max_tokens"@,
        Jv::Int(body.unsigned_or("max_output_tokens"@, 16384) as int),
    )
}

pub open spec fn with_tools(req: Jv, body: Jv) -> Jv {
    match body.items_at("tools"@) {
        Some(tools) => if chat_tools(tools).len() > 0 {
            req.put("tools"@, Jv::Array(chat_tools(tools)))
        } else {
            req
        },
        None => req,
    }
}

pub open spec fn with_tool_choice(req: Jv, body: Jv) -> Jv {
    match body.get("tool_choice"@) {
        Some(choice) => if choice is Null {
            req
        } else {
            req.put("tool_choice"@, chat_tool_choice(choice))
        },
        None => req,
    }
}

pub open spec fn with_effort(req: Jv, body: Jv) -> Jv {
    match body.get("reasoning"@) {
        Some(reasoning) => match reasoning.text_at("effort"@) {
            Some(effort) => req.put("reasoning_effort"@, Jv::Str(effort)),
            None => req,
        },
        None => req,
    }
}

/// The Chat Completions request that a Responses request stands for.
pub open spec fn chat_request(body: Jv) -> Jv {
    let sampled = carried(carried(chat_base(body), body, "temperature"@), body, "top_p"@);
    let tooled = with_tool_choice(with_tools(sampled, body), body);
    carried(with_effort(tooled, body), body, "parallel_tool_calls"@)
}

/// Translates a Responses request body to a Chat Completions request body.
pub fn responses_request_to_chat_completions(body: &Json) -> (r: Json)
    ensures
        r@ == chat_request(body@),
        r@ is Object,
{
    let messages = request_messages(body);
    let fixed = repair_tool_order(messages);
    let merged = merge_consecutive(fixed);
    let truncated = truncate_old_tool_outputs(merged);
    let trimmed = trim_messages(truncated);
    let validated = validate_tool_sequence(trimmed);

    let mut req = Json::object().with("model", body.get_or("model", Json::Null)).with(
        "messages",
        Json::Array(validated),
    ).with("stream", Json::Bool(body.bool_or("stream", false))).with(
        "max_tokens",
        Json::Unsigned(body.unsigned_or("max_output_tokens", 16384)),
    );
    assert(req@ == chat_base(body@));
    carry(&mut req, body, "temperature");
    carry(&mut req, body, "top_p");
    match body.items_at("tools") {
        Some(tools) => {
            let supported = supported_tools(tools);
            if supported.len() > 0 {
                req.set("tools", Json::Array(supported));
            }
        },
        None => {},
    }
    match body.get("tool_choice") {
        Some(choice) => {
            if !choice.is_null() {
                let chosen = match choice.text_at("name") {
                    Some(name) => Json::object().with("type", Json::text("function")).with(
                        "function",
                        Json::object().with("name", Json::text(name)),
                    ),
                    None => choice.clone(),
                };
                req.set("tool_choice", chosen);
            }
        },
        None => {},
    }
    match body.get("reasoning") {
        Some(reasoning) => match reasoning.text_at("effort") {
            Some(effort) => {
                req.set("reasoning_effort", Json::text(effort));
            },
            None => {},
        },
        None => {},
    }
    carry(&mut req, body, "parallel_tool_calls");
    req
}

} // verus!
