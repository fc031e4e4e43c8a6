//! The translation of a chat completion into a response of the Responses API.

use vstd::prelude::*;
use vstd::string::*;

use crate::json::{empty_object, group_json, opt_text, opt_view, views, Json, Jv};
use crate::pattern::{strip_think_tags, without_think_tags};
use crate::text::{same, texts, trim, trimmed};
use crate::util::{is_id, now_unix, tagged, uid, unix_time};

verus! {

broadcast use group_json;

// ─── Reading a completion ──────────────────────────────────────────────────

/// The first choice of a chat completion, or of a chunk of one.
pub open spec fn first_choice(cc: Jv) -> Option<Jv> {
    match cc.items_at("choices"@) {
        Some(choices) => if choices.len() > 0 {
            Some(choices[0])
        } else {
            None
        },
        None => None,
    }
}

/// The message of the first choice.
pub open spec fn first_message(cc: Jv) -> Option<Jv> {
    match first_choice(cc) {
        Some(choice) => choice.get("message"@),
        None => None,
    }
}

/// The tool calls that the message of the first choice makes.
pub open spec fn completion_calls(cc: Jv) -> Seq<Jv> {
    match first_message(cc) {
        Some(message) => message.items_or_none("tool_calls"@),
        None => Seq::empty(),
    }
}

/// The string `key` of the function of a tool call, and `default` where there is none.
pub open spec fn function_text(call: Jv, key: Seq<char>, default: Seq<char>) -> Seq<char> {
    match call.get("function"@) {
        Some(function) => function.text_or(key, default),
        None => default,
    }
}

pub fn first_choice_of(cc: &Json) -> (r: Option<&Json>)
    ensures
        opt_view(r) == first_choice(cc@),
{
    match cc.items_at("choices") {
        Some(choices) => if choices.len() > 0 {
            assert(views(choices@)[0] == choices@[0]@);
            Some(&choices[0])
        } else {
            None
        },
        None => None,
    }
}

pub fn first_message_of(cc: &Json) -> (r: Option<&Json>)
    ensures
        opt_view(r) == first_message(cc@),
{
    match first_choice_of(cc) {
        Some(choice) => choice.get("message"),
        None => None,
    }
}

pub fn function_text_of<'a>(call: &'a Json, key: &str, default: &'a str) -> (r: &'a str)
    ensures
        r@ == function_text(call@, key@, default@),
{
    match call.get("function") {
        Some(function) => function.text_or(key, default),
        None => default,
    }
}

// ─── Status and usage ──────────────────────────────────────────────────────

/// The status of a response that ended for the given reason.
pub open spec fn status_for(finish_reason: Seq<char>) -> Seq<char> {
    if finish_reason == "length"@ || finish_reason == "content_filter"@ {
        "incomplete"@
    } else {
        "completed"@
    }
}

/// Why a response that ended for the given reason is incomplete.
pub open spec fn incomplete_for(finish_reason: Seq<char>) -> Jv {
    if finish_reason == "length"@ {
        empty_object().put("reason"@, Jv::Str("max_output_tokens"@))
    } else if finish_reason == "content_filter"@ {
        empty_object().put("reason"@, Jv::Str("content_filter"@))
    } else {
        Jv::Null
    }
}

/// The status of a response, and why it is incomplete, by the reason it ended for.
pub fn finish_reason_to_status(finish_reason: &str) -> (r: (&'static str, Json))
    ensures
        r.0@ == status_for(finish_reason@),
        r.1@ == incomplete_for(finish_reason@),
{
    if same(finish_reason, "length") {
        ("incomplete", Json::object().with("reason", Json::text("max_output_tokens")))
    } else if same(finish_reason, "content_filter") {
        ("incomplete", Json::object().with("reason", Json::text("content_filter")))
    } else {
        ("completed", Json::Null)
    }
}

/// The count `key` inside the member `group` of a usage record, and zero where there is none.
pub open spec fn detail(usage: Jv, group: Seq<char>, key: Seq<char>) -> int {
    match usage.get(group) {
        Some(details) => details.unsigned_or(key, 0) as int,
        None => 0,
    }
}

/// The usage record of a response: every count that is missing or no whole number is zero.
pub open spec fn usage_of(usage: Option<Jv>) -> Jv {
    match usage {
        None => empty_object().put("input_tokens"@, Jv::Int(0)).put(
            "output_tokens"@,
            Jv::Int(0),
        ).put("total_tokens"@, Jv::Int(0)),
        Some(u) => empty_object().put(
            "input_tokens"@,
            Jv::Int(u.unsigned_or("prompt_tokens"@, 0) as int),
        ).put("output_tokens"@, Jv::Int(u.unsigned_or("completion_tokens"@, 0) as int)).put(
            "total_tokens"@,
            Jv::Int(u.unsigned_or("total_tokens"@, 0) as int),
        ).put(
            "input_tokens_details"@,
            empty_object().put(
                "cached_tokens"@,
                Jv::Int(detail(u, "prompt_tokens_details"@, "cached_tokens"@)),
            ),
        ).put(
            "output_tokens_details"@,
            empty_object().put(
                "reasoning_tokens"@,
                Jv::Int(detail(u, "completion_tokens_details"@, "reasoning_tokens"@)),
            ),
        ),
    }
}

fn detail_of(usage: &Json, group: &str, key: &str) -> (r: u64)
    ensures
        r == detail(usage@, group@, key@),
{
    match usage.get(group) {
        Some(details) => details.unsigned_or(key, 0),
        None => 0,
    }
}

/// Translates the usage record of a chat completion to that of a response.
pub fn translate_usage(u: Option<&Json>) -> (r: Json)
    ensures
        r@ == usage_of(opt_view(u)),
{
    match u {
        None => Json::object().with("input_tokens", Json::Unsigned(0)).with(
            "output_tokens",
            Json::Unsigned(0),
        ).with("total_tokens", Json::Unsigned(0)),
        Some(u) => {
            let input = Json::object().with(
                "cached_tokens",
                Json::Unsigned(detail_of(u, "prompt_tokens_details", "cached_tokens")),
            );
            let output = Json::object().with(
                "reasoning_tokens",
                Json::Unsigned(detail_of(u, "completion_tokens_details", "reasoning_tokens")),
            );
            Json::object().with("input_tokens", Json::Unsigned(u.unsigned_or("prompt_tokens", 0))).with(
                "output_tokens",
                Json::Unsigned(u.unsigned_or("completion_tokens", 0)),
            ).with("total_tokens", Json::Unsigned(u.unsigned_or("total_tokens", 0))).with(
                "input_tokens_details",
                input,
            ).with("output_tokens_details", output)
        },
    }
}

// ─── Output items ──────────────────────────────────────────────────────────

/// A function call among the output items of a response.
pub open spec fn call_item(
    id: Seq<char>,
    call_id: Seq<char>,
    name: Seq<char>,
    arguments: Seq<char>,
    status: Seq<char>,
) -> Jv {
    empty_object().put("type"@, Jv::Str("function_call"@)).put("id"@, Jv::Str(id)).put(
        "call_id"@,
        Jv::Str(call_id),
    ).put("name"@, Jv::Str(name)).put("arguments"@, Jv::Str(arguments)).put(
        "status"@,
        Jv::Str(status),
    )
}

/// A message among the output items of a response.
pub open spec fn message_item(id: Seq<char>, status: Seq<char>, content: Seq<Jv>) -> Jv {
    empty_object().put("type"@, Jv::Str("message"@)).put("id"@, Jv::Str(id)).put(
        "status"@,
        Jv::Str(status),
    ).put("role"@, Jv::Str("assistant"@)).put("content"@, Jv::Array(content))
}

/// A part of a message that is text.
pub open spec fn text_part(text: Seq<char>) -> Jv {
    empty_object().put("type"@, Jv::Str("output_text"@)).put("text"@, Jv::Str(text)).put(
        "annotations"@,
        Jv::Array(Seq::empty()),
    )
}

/// A part of a message that is a refusal.
pub open spec fn refusal_part(refusal: Seq<char>) -> Jv {
    empty_object().put("type"@, Jv::Str("refusal"@)).put("refusal"@, Jv::Str(refusal))
}

pub fn function_call_item(
    id: &str,
    call_id: &str,
    name: &str,
    arguments: &str,
    status: &str,
) -> (r: Json)
    ensures
        r@ == call_item(id@, call_id@, name@, arguments@, status@),
{
    Json::object().with("type", Json::text("function_call")).with("id", Json::text(id)).with(
        "call_id",
        Json::text(call_id),
    ).with("name", Json::text(name)).with("arguments", Json::text(arguments)).with(
        "status",
        Json::text(status),
    )
}

pub fn assistant_item(id: &str, status: &str, content: Vec<Json>) -> (r: Json)
    ensures
        r@ == message_item(id@, status@, views(content@)),
{
    Json::object().with("type", Json::text("message")).with("id", Json::text(id)).with(
        "status",
        Json::text(status),
    ).with("role", Json::text("assistant")).with("content", Json::Array(content))
}

pub fn output_text(text: &str) -> (r: Json)
    ensures
        r@ == text_part(text@),
{
    let none: Vec<Json> = Vec::new();
    assert(views(none@) =~= Seq::empty());
    Json::object().with("type", Json::text("output_text")).with("text", Json::text(text)).with(
        "annotations",
        Json::Array(none),
    )
}

/// The output item for a tool call of a completion.
pub open spec fn call_output(call: Jv, id: Seq<char>) -> Jv {
    call_item(
        "fc_"@ + id,
        call.text_or("id"@, ""@),
        function_text(call, "name"@, ""@),
        function_text(call, "arguments"@, "{}"@),
        "completed"@,
    )
}

/// What a message says, without the tags of its reasoning and white space at its ends.
pub open spec fn spoken_text(message: Jv) -> Seq<char> {
    trimmed(without_think_tags(message.text_or("content"@, ""@)))
}

/// The parts of the output message for a message of a completion: its text, then its refusal,
/// each where it is not empty.
pub open spec fn message_parts(message: Jv) -> Seq<Jv> {
    let text = spoken_text(message);
    let refusal = message.text_or("refusal"@, ""@);
    (if text.len() > 0 {
        seq![text_part(text)]
    } else {
        Seq::empty()
    }) + (if refusal.len() > 0 {
        seq![refusal_part(refusal)]
    } else {
        Seq::empty()
    })
}

/// The output items for a message of a completion: its tool calls, then what it says.
pub open spec fn message_output(
    message: Jv,
    call_ids: Seq<Seq<char>>,
    message_id: Seq<char>,
) -> Seq<Jv> {
    let calls = message.items_or_none("tool_calls"@);
    let parts = message_parts(message);
    Seq::new(calls.len(), |k: int| call_output(calls[k], call_ids[k])) + (if parts.len() > 0 {
        seq![message_item("msg_"@ + message_id, "completed"@, parts)]
    } else {
        Seq::empty()
    })
}

/// The members that every response has, whatever it was made from.
pub open spec fn response_base(
    id: Seq<char>,
    created_at: int,
    status: Seq<char>,
    model: Seq<char>,
    output: Seq<Jv>,
) -> Jv {
    empty_object().put("id"@, Jv::Str(id)).put("object"@, Jv::Str("response"@)).put(
        "created_at"@,
        Jv::Int(created_at),
    ).put("status"@, Jv::Str(status)).put("model"@, Jv::Str(model)).put(
        "output"@,
        Jv::Array(output),
    )
}

/// A string, or null where there is none.
pub open spec fn text_or_null(text: Option<Seq<char>>) -> Jv {
    match text {
        Some(s) => Jv::Str(s),
        None => Jv::Null,
    }
}

/// When a completion was made, and `now` where it does not say.
pub open spec fn created_at(cc: Jv, now: i64) -> int {
    match cc.get("created"@) {
        Some(v) => match v.signed() {
            Some(n) => n as int,
            None => now as int,
        },
        None => now as int,
    }
}

/// The identifiers of the new items of a response: of itself, of its function calls, and of its
/// message.
pub struct NewIds {
    pub response: Seq<char>,
    pub calls: Seq<Seq<char>>,
    pub message: Seq<char>,
}

/// The response that a chat completion stands for.
pub open spec fn response_of(
    cc: Jv,
    model: Seq<char>,
    previous: Option<Seq<char>>,
    metadata: Option<Jv>,
    ids: NewIds,
    now: i64,
) -> Jv {
    let id = "resp_"@ + ids.response;
    let usage = usage_of(cc.get("usage"@));
    match first_message(cc) {
        None => response_base(id, created_at(cc, now), "completed"@, model, Seq::empty()).put(
            "usage"@,
            usage,
        ),
        Some(message) => {
            let finish_reason = first_choice(cc)->0.text_or("finish_reason"@, "stop"@);
            response_base(
                id,
                created_at(cc, now),
                status_for(finish_reason),
                model,
                message_output(message, ids.calls, ids.message),
            ).put("previous_response_id"@, text_or_null(previous)).put(
                "metadata"@,
                match metadata {
                    Some(m) => m,
                    None => empty_object(),
                },
            ).put("usage"@, usage).put("incomplete_details"@, incomplete_for(finish_reason))
        },
    }
}

pub fn base_object(id: &str, created_at: i64, status: &str, model: &str, output: Vec<Json>) -> (r: Json)
    ensures
        r@ == response_base(id@, created_at as int, status@, model@, views(output@)),
{
    Json::object().with("id", Json::text(id)).with("object", Json::text("response")).with(
        "created_at",
        Json::Signed(created_at),
    ).with("status", Json::text(status)).with("model", Json::text(model)).with(
        "output",
        Json::Array(output),
    )
}

pub fn nullable_text(text: Option<&str>) -> (r: Json)
    ensures
        r@ == text_or_null(opt_text(text)),
{
    match text {
        Some(s) => Json::text(s),
        None => Json::Null,
    }
}

fn output_of_message(message: &Json, call_ids: &Vec<String>, message_id: &str) -> (r: Vec<Json>)
    requires
        call_ids@.len() >= message@.items_or_none("tool_calls"@).len(),
    ensures
        views(r@) == message_output(message@, texts(call_ids@), message_id@),
{
    let ghost calls = message@.items_or_none("tool_calls"@);
    let ghost ids = texts(call_ids@);
    let mut output: Vec<Json> = Vec::new();
    assert(views(output@) =~= Seq::empty());
    match message.items_at("tool_calls") {
        Some(tool_calls) => {
            let mut i: usize = 0;
            while i < tool_calls.len()
                invariant
                    i <= tool_calls@.len() <= call_ids@.len(),
                    views(tool_calls@) == calls,
                    ids == texts(call_ids@),
                    output@.len() == i,
                    forall|k: int|
                        0 <= k < i ==> (#[trigger] output@[k])@ == call_output(calls[k], ids[k]),
                decreases tool_calls@.len() - i,
            {
                let call = &tool_calls[i];
                output.push(
                    function_call_item(
                        tagged("fc_", call_ids[i].as_str()).as_str(),
                        call.text_or("id", ""),
                        function_text_of(call, "name", ""),
                        function_text_of(call, "arguments", "{}"),
                        "completed",
                    ),
                );
                i = i + 1;
            }
        },
        None => {},
    }
    assert(views(output@) =~= Seq::new(calls.len(), |k: int| call_output(calls[k], ids[k])));
    let text = trim(strip_think_tags(message.text_or("content", "")).as_str());
    let refusal = message.text_or("refusal", "");
    let mut parts: Vec<Json> = Vec::new();
    if !text.as_str().is_empty() {
        parts.push(output_text(text.as_str()));
    }
    if !refusal.is_empty() {
        parts.push(
            Json::object().with("type", Json::text("refusal")).with("refusal", Json::text(refusal)),
        );
    }
    assert(views(parts@) =~= message_parts(message@));
    if parts.len() > 0 {
        let id = tagged("msg_", message_id);
        output.push(assistant_item(id.as_str(), "completed", parts));
    }
    assert(views(output@) =~= message_output(message@, ids, message_id@));
    output
}

/// The response that a chat completion stands for, with given identifiers and time.
pub fn response_from_completion(
    cc: &Json,
    model: &str,
    previous_response_id: Option<&str>,
    metadata: Option<&Json>,
    response_id: &str,
    call_ids: &Vec<String>,
    message_id: &str,
    now: i64,
) -> (r: Json)
    requires
        call_ids@.len() >= completion_calls(cc@).len(),
    ensures
        r@ == response_of(
            cc@,
            model@,
            opt_text(previous_response_id),
            opt_view(metadata),
            (NewIds { response: response_id@, calls: texts(call_ids@), message: message_id@ }),
            now,
        ),
{
    let id = tagged("resp_", response_id);
    let created = match cc.get("created") {
        Some(v) => match v.as_i64() {
            Some(n) => n,
            None => now,
        },
        None => now,
    };
    let usage = translate_usage(cc.get("usage"));
    match first_choice_of(cc) {
        Some(choice) => match choice.get("message") {
            Some(message) => {
                let output = output_of_message(message, call_ids, message_id);
                let (status, incomplete) = finish_reason_to_status(
                    choice.text_or("finish_reason", "stop"),
                );
                let meta = match metadata {
                    Some(m) => m.clone(),
                    None => Json::object(),
                };
                return base_object(id.as_str(), created, status, model, output).with(
                    "previous_response_id",
                    nullable_text(previous_response_id),
                ).with("metadata", meta).with("usage", usage).with("incomplete_details", incomplete);
            },
            None => {},
        },
        None => {},
    }
    let none: Vec<Json> = Vec::new();
    assert(views(none@) =~= Seq::empty());
    base_object(id.as_str(), created, "completed", model, none).with("usage", usage)
}

/// Whether `ids` are `count` identifiers.
pub open spec fn are_ids(ids: Seq<Seq<char>>, count: nat) -> bool {
    ids.len() == count && forall|i: int| 0 <= i < ids.len() ==> is_id(#[trigger] ids[i])
}

/// Whether `now` is the Unix time of some point in time.
pub open spec fn is_time(now: i64) -> bool {
    exists|t: std::time::SystemTime| now == #[trigger] unix_time(t)
}

/// As many random identifiers as asked for.
pub fn draw_ids(count: usize) -> (ids: Vec<String>)
    ensures
        are_ids(texts(ids@), count as nat),
{
    let mut ids: Vec<String> = Vec::new();
    while ids.len() < count
        invariant
            ids@.len() <= count,
            forall|i: int| 0 <= i < ids@.len() ==> is_id((#[trigger] ids@[i])@),
        decreases count - ids@.len(),
    {
        ids.push(uid());
    }
    ids
}

/// Whether all identifiers are such as are drawn, one for each of `calls` function calls.
pub open spec fn drawn(ids: NewIds, calls: nat) -> bool {
    is_id(ids.response) && are_ids(ids.calls, calls) && is_id(ids.message)
}

/// Translates a chat completion to a response. New items get random identifiers; a completion
/// that does not say when it was made counts as made now.
///
/// Which identifiers and which time these are is left to chance and to the clock.
pub fn chat_completion_to_response(
    cc: &Json,
    model: &str,
    previous_response_id: Option<&str>,
    metadata: Option<&Json>,
) -> (r: Json)
    ensures
        exists|ids: NewIds, now: i64| #[trigger]
            drawn(ids, completion_calls(cc@).len()) && #[trigger] is_time(now) && r@ == response_of(
                cc@,
                model@,
                opt_text(previous_response_id),
                opt_view(metadata),
                ids,
                now,
            ),
{
    let count = match first_message_of(cc) {
        Some(message) => match message.items_at("tool_calls") {
            Some(calls) => calls.len(),
            None => 0,
        },
        None => 0,
    };
    let response_id = uid();
    let call_ids = draw_ids(count);
    let message_id = uid();
    let now = now_unix();
    proof {
        let ids = NewIds {
            response: response_id@,
            calls: texts(call_ids@),
            message: message_id@,
        };
        assert(drawn(ids, completion_calls(cc@).len()) && is_time(now));
    }
    response_from_completion(
        cc,
        model,
        previous_response_id,
        metadata,
        response_id.as_str(),
        &call_ids,
        message_id.as_str(),
        now,
    )
}

} // verus!
