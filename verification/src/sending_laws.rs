//! What joins a request on its way to MiniMax, and what an answer becomes as a stream of chunks.

use vstd::prelude::*;

use crate::chat::{callable, calls_callable, chat_messages, ordered_messages};
use crate::config::Config;
use crate::events::frames;
use crate::handlers::{
    call_chunks, chat_body_with, chat_model, completion_chunks, count_before, data_frame,
    data_frames, error_of, fallback_name, gives_response, made_from, minimax_body, minimax_chat,
    minimax_chat_body, minimax_model, no_url, preparable, restored, routes, routes_to, with_breaker,
    with_fetch, with_history, with_nudge, Reply, Route,
};
use crate::json::Jv;
use crate::replay::response_events;
use crate::request::{chat_request, input_items};
use crate::response::{completion_calls, drawn, is_time, response_of, NewIds};
use crate::store::{chain_items, lookup, Entry};
use crate::text::{decimal, texts};
use crate::util::{is_id, unix_time};
use crate::web_fetch::{any_url, with_fetch_tool, with_hint};
use crate::wire::rendered;
use crate::words::lemma_words_differ;

verus! {

// ─── Where a request goes ──────────────────────────────────────────────────

/// A request for a provider without a key is refused, and the error says whose key is missing; with
/// a key it goes to that provider, and to MiniMax for every name but `openai`.
pub proof fn law_route(config: Config, provider: Seq<char>, route: Route)
    requires
        routes_to(config, provider, route),
    ensures
        provider == "openai"@ && config.openai_key@.len() > 0 ==> route is OpenAi,
        provider != "openai"@ && config.minimax_key@.len() > 0 ==> route is MiniMax,
        provider == "openai"@ && config.openai_key@.len() == 0 ==> (route matches Route::Refused(
            body,
        ) && body@ == error_of("OPENAI_API_KEY is not configured"@)),
        provider != "openai"@ && config.minimax_key@.len() == 0 ==> (route matches Route::Refused(
            body,
        ) && body@ == error_of("MINIMAX_API_KEY is not configured"@)),
{
}

/// A request goes where its model does.
pub proof fn law_route_of_a_model(config: Config, model: Seq<char>, route: Route)
    requires
        routes(config, model, route),
    ensures
        routes_to(config, config.provider_of(model), route),
{
}

/// An error is told as a message under `error`, and nothing else.
pub proof fn law_error(message: Seq<char>)
    ensures
        error_of(message).get("error"@) is Some,
        error_of(message).get("error"@)->0.text_at("message"@) == Some(message),
        forall|key: Seq<char>| key != "error"@ ==> #[trigger] error_of(message).get(key) is None,
{
}

/// A call without an address is answered with the error that one is required.
pub proof fn law_address_is_required()
    ensures
        no_url().text_at("error"@) == Some("url parameter required"@),
        forall|key: Seq<char>| key != "error"@ ==> #[trigger] no_url().get(key) is None,
{
}

/// The name of the fallback, and `none` without one.
pub proof fn law_name_of_the_fallback(config: Config)
    ensures
        config.fallback() matches Some(provider) ==> fallback_name(config) == provider,
        config.fallback() is None ==> fallback_name(config) == "none"@,
{
}

/// A response is given as the events that tell it to a client that asked for a stream, and whole to
/// every other.
pub proof fn law_response_is_given(
    response: Jv,
    stream: bool,
    created_at: i64,
    progress_at: i64,
    reply: Reply,
)
    requires
        gives_response(response, stream, created_at, progress_at, reply),
    ensures
        stream ==> (reply matches Reply::Texts(out) && texts(out@) == frames(
            response_events(response, created_at, progress_at),
        )),
        !stream ==> (reply matches Reply::Body(body) && body@ == response),
{
}

/// A response that is made from an answer is the answer's, under new identifiers and with a time of
/// the clock.
pub proof fn law_response_is_made_anew(
    cc: Jv,
    model: Seq<char>,
    previous: Option<Seq<char>>,
    metadata: Jv,
    response: Jv,
) -> (made: (NewIds, i64))
    requires
        made_from(cc, model, previous, metadata, response),
    ensures
        response == response_of(cc, model, previous, Some(metadata), made.0, made.1),
        is_id(made.0.response),
        is_id(made.0.message),
        made.0.calls.len() == completion_calls(cc).len(),
        forall|i: int| 0 <= i < made.0.calls.len() ==> is_id(#[trigger] made.0.calls[i]),
        exists|t: std::time::SystemTime| made.1 == #[trigger] unix_time(t),
{
    let (ids, now) = choose|ids: NewIds, now: i64| #[trigger]
        drawn(ids, completion_calls(cc).len()) && #[trigger] is_time(now) && response
            == response_of(cc, model, previous, Some(metadata), ids, now);
    (ids, now)
}

// ─── History ───────────────────────────────────────────────────────────────

/// What is restored of the response that a request follows: for MiniMax always the whole
/// conversation behind it, for another provider where it was not that provider's own; and nothing
/// where no response is named, the name is empty, or it is not kept.
pub proof fn law_restored(
    list: Seq<(Seq<char>, Entry)>,
    previous: Option<Seq<char>>,
    provider: Seq<char>,
)
    ensures
        previous is None ==> restored(list, previous, provider).len() == 0,
        previous matches Some(id) ==> {
            &&& id.len() == 0 || lookup(list, id) is None ==> restored(
                list,
                previous,
                provider,
            ).len() == 0
            &&& lookup(list, id) matches Some(entry) ==> {
                &&& id.len() > 0 && (provider == "minimax"@ || entry.provider != provider)
                    ==> restored(list, previous, provider) == chain_items(list, id, Seq::empty())
                &&& provider != "minimax"@ && entry.provider == provider ==> restored(
                    list,
                    previous,
                    provider,
                ).len() == 0
            }
        },
{
}

/// Restored items go in front of the input of a request, which names no response then; without any
/// the request stays as it is.
pub proof fn law_history_goes_in_front(
    body: Jv,
    list: Seq<(Seq<char>, Entry)>,
    provider: Seq<char>,
)
    ensures
        ({
            let items = restored(list, body.text_at("previous_response_id"@), provider);
            let after = with_history(body, list, provider);
            let own = match body.get("input"@) {
                Some(input) => input_items(input),
                None => Seq::empty(),
            };
            &&& items.len() == 0 ==> after == body
            &&& items.len() > 0 ==> {
                &&& after.items_at("input"@) == Some(items + own)
                &&& after.get("previous_response_id"@) is None
                &&& forall|key: Seq<char>|
                    key != "input"@ && key != "previous_response_id"@ ==> #[trigger] after.get(key)
                        == body.get(key)
            }
        }),
{
    lemma_words_differ();
}

/// The count that a request goes by is that of the response it follows, and zero without one.
pub proof fn law_count_before(list: Seq<(Seq<char>, Entry)>, previous: Option<Seq<char>>)
    ensures
        previous is None ==> count_before(list, previous) == 0,
        previous matches Some(id) ==> match lookup(list, id) {
            Some(entry) => count_before(list, previous) == entry.consecutive_tool_calls,
            None => count_before(list, previous) == 0,
        },
{
}

// ─── Too many calls in a row ───────────────────────────────────────────────

/// Up to nineteen calls in a row change nothing. From twenty on one user message joins the input,
/// behind everything else, which says how many there were and asks for an answer.
pub proof fn law_nudge(body: Jv, count: u32)
    ensures
        count < 20 || !(body is Object || body is Null) ==> with_nudge(body, count) == body,
        count >= 20 && (body is Object || body is Null) ==> {
            let after = with_nudge(body, count);
            let own = match body.get("input"@) {
                Some(input) => input_items(input),
                None => Seq::empty(),
            };
            let input = after.items_at("input"@)->0;
            let content = input.last().items_at("content"@)->0;
            &&& after.items_at("input"@) is Some
            &&& input.len() == own.len() + 1 && input.drop_last() == own
            &&& input.last().text_at("type"@) == Some("message"@)
            &&& input.last().text_at("role"@) == Some("user"@)
            &&& input.last().items_at("content"@) is Some && content.len() == 1
            &&& content[0].text_at("type"@) == Some("input_text"@)
            &&& content[0].text_at("text"@) == Some(
                "[SYSTEM: You have made "@ + decimal(count as nat)
                    + " consecutive tool calls without responding to the user. You MUST now stop making tool calls and provide a text response summarizing your progress, findings, and any remaining work. Do NOT make any more tool calls in this response.]"@,
            )
            &&& forall|key: Seq<char>| key != "input"@ ==> #[trigger] after.get(key) == body.get(key)
        },
{
    lemma_words_differ();
    if count >= 20 && (body is Object || body is Null) {
        let after = with_nudge(body, count);
        let own = match body.get("input"@) {
            Some(input) => input_items(input),
            None => Seq::empty(),
        };
        assert(after.items_at("input"@)->0.drop_last() =~= own);
    }
}

/// Up to twenty-two calls in a row the tools stay. From twenty-three on neither they nor a choice
/// among them are sent, and everything else is.
pub proof fn law_breaker(request: Jv, count: u32)
    ensures
        count < 23 || !(request is Object) ==> with_breaker(request, count) == request,
        count >= 23 ==> {
            let after = with_breaker(request, count);
            &&& after.get("tools"@) is None
            &&& after.get("tool_choice"@) is None
            &&& forall|key: Seq<char>|
                key != "tools"@ && key != "tool_choice"@ ==> #[trigger] after.get(key)
                    == request.get(key)
        },
{
}

// ─── The request ───────────────────────────────────────────────────────────

/// The model that MiniMax is asked for: the first of its models, and `MiniMax-M2.7` without any.
pub proof fn law_model_for_minimax(config: Config)
    ensures
        config.minimax_models@.len() > 0 ==> minimax_model(config) == config.minimax_models@[0]@,
        config.minimax_models@.len() == 0 ==> minimax_model(config) == "MiniMax-M2.7"@,
{
}

/// What goes to MiniMax for a Responses request: history first and then the nudge join the body,
/// whose translation names the model of MiniMax and asks for the reasoning apart; the breaker has
/// the last word.
pub proof fn law_request_for_minimax(config: Config, body: Jv, list: Seq<(Seq<char>, Entry)>)
    ensures
        ({
            let count = count_before(list, body.text_at("previous_response_id"@));
            let ready = with_nudge(with_history(body, list, "minimax"@), count);
            let plain = chat_request(ready);
            let sent = minimax_chat(config, body, list);
            &&& minimax_body(body, list) == ready
            &&& sent.text_at("model"@) == Some(minimax_model(config))
            &&& sent.get("reasoning_split"@) == Some(Jv::Bool(true))
            &&& count >= 23 ==> sent.get("tools"@) is None && sent.get("tool_choice"@) is None
            &&& count < 23 ==> sent.get("tools"@) == plain.get("tools"@) && sent.get("tool_choice"@)
                == plain.get("tool_choice"@)
            &&& forall|key: Seq<char>|
                key != "model"@ && key != "reasoning_split"@ && key != "tools"@ && key
                    != "tool_choice"@ ==> #[trigger] sent.get(key) == plain.get(key)
        }),
{
    lemma_words_differ();
    let count = count_before(list, body.text_at("previous_response_id"@));
    let plain = chat_request(minimax_body(body, list));
    crate::request_laws::law_request_members(minimax_body(body, list));
    assert(plain is Object);
    let named = plain.put("model"@, Jv::Str(minimax_model(config))).put(
        "reasoning_split"@,
        Jv::Bool(true),
    );
    law_breaker(named, count);
    assert(minimax_chat(config, body, list) == with_breaker(named, count));
}

/// Where the conversation has an address the tool is offered and the word on it is said; everything
/// else stays as it is, and so does a request without an address.
pub proof fn law_fetch_joins(request: Jv)
    ensures
        ({
            let messages = match request.items_at("messages"@) {
                Some(messages) => messages,
                None => Seq::empty(),
            };
            let after = with_fetch(request);
            &&& !any_url(messages) ==> after == request
            &&& any_url(messages) ==> {
                &&& after.items_at("tools"@) == Some(with_fetch_tool(request.get("tools"@)))
                &&& after.items_at("messages"@) == Some(with_hint(messages))
                &&& forall|key: Seq<char>|
                    key != "tools"@ && key != "messages"@ ==> #[trigger] after.get(key)
                        == request.get(key)
            }
        }),
{
    lemma_words_differ();
}

/// What goes to MiniMax for a Chat Completions request: the model that it names, or else that of
/// MiniMax; its messages; the reasoning apart; its limit, or else 16384; and everything else as it
/// is.
pub proof fn law_chat_body(config: Config, body: Jv, messages: Seq<Jv>)
    requires
        body is Object || body is Null,
    ensures
        ({
            let sent = chat_body_with(config, body, messages);
            &&& sent.text_at("model"@) == Some(chat_model(config, body))
            &&& chat_model(config, body) == (match body.text_at("model"@) {
                Some(model) => model,
                None => minimax_model(config),
            })
            &&& sent.items_at("messages"@) == Some(messages)
            &&& sent.get("reasoning_split"@) == Some(Jv::Bool(true))
            &&& sent.get("max_tokens"@) == (match body.get("max_tokens"@) {
                Some(limit) => Some(limit),
                None => Some(Jv::Int(16384)),
            })
            &&& forall|key: Seq<char>|
                key != "model"@ && key != "messages"@ && key != "reasoning_split"@ && key
                    != "max_tokens"@ ==> #[trigger] sent.get(key) == body.get(key)
        }),
{
    lemma_words_differ();
}

/// A Chat Completions request can be prepared where it is an object (or null), and every call of an
/// assistant message, once the conversation is in order, has a function that can take a member, or
/// none.
pub proof fn law_what_can_be_prepared(body: Jv)
    ensures
        preparable(body) <==> (body is Object || body is Null) && forall|i: int, k: int|
            #![trigger ordered_messages(body.items_or_none("messages"@))[i].items_or_none(
                "tool_calls"@,
            )[k]]
            {
                let m = ordered_messages(body.items_or_none("messages"@))[i];
                let call = m.items_or_none("tool_calls"@)[k];
                0 <= i < ordered_messages(body.items_or_none("messages"@)).len() && m.text_at(
                    "role"@,
                ) == Some("assistant"@) && 0 <= k < m.items_or_none("tool_calls"@).len() ==> (
                match call.get("function"@) {
                    Some(function) => function is Object || function is Null,
                    None => true,
                })
            },
{
    let ordered = ordered_messages(body.items_or_none("messages"@));
    if preparable(body) {
        assert forall|i: int, k: int|
            #![trigger ordered[i].items_or_none("tool_calls"@)[k]]
            0 <= i < ordered.len() && ordered[i].text_at("role"@) == Some("assistant"@) && 0 <= k
                < ordered[i].items_or_none("tool_calls"@).len() implies (
        match ordered[i].items_or_none("tool_calls"@)[k].get("function"@) {
            Some(function) => function is Object || function is Null,
            None => true,
        }) by {
            assert(calls_callable(ordered[i]));
            assert(callable(ordered[i].items_or_none("tool_calls"@)[k]));
        }
    } else if body is Object || body is Null {
        let i = choose|i: int| 0 <= i < ordered.len() && !calls_callable(#[trigger] ordered[i]);
        let k = choose|k: int|
            0 <= k < ordered[i].items_or_none("tool_calls"@).len() && !callable(
                #[trigger] ordered[i].items_or_none("tool_calls"@)[k],
            );
        assert(!callable(ordered[i].items_or_none("tool_calls"@)[k]));
    }
}

/// Its messages are those of the body, each in the form that MiniMax accepts.
pub proof fn law_messages_of_a_chat_body(config: Config, body: Jv)
    requires
        body is Object || body is Null,
    ensures
        minimax_chat_body(config, body) == chat_body_with(
            config,
            body,
            chat_messages(
                match body.items_at("messages"@) {
                    Some(messages) => messages,
                    None => Seq::empty(),
                },
            ),
        ),
{
}

// ─── An answer as a stream of chunks ───────────────────────────────────────

/// A chunk with one choice, the first, and this delta.
pub open spec fn has_delta(chunk: Jv, delta: Jv) -> bool {
    let choices = chunk.items_at("choices"@)->0;
    &&& chunk.items_at("choices"@) is Some && choices.len() == 1
    &&& choices[0].get("index"@) == Some(Jv::Int(0))
    &&& choices[0].get("delta"@) == Some(delta)
    &&& forall|key: Seq<char>|
        key != "index"@ && key != "delta"@ && key != "finish_reason"@ ==> #[trigger] choices[0].get(
            key,
        ) is None
}

/// A chunk that says nothing of how the answer ends.
pub open spec fn is_open(chunk: Jv) -> bool {
    &&& chunk.items_at("choices"@)->0[0].get("finish_reason"@) is None
    &&& forall|key: Seq<char>| key != "choices"@ ==> #[trigger] chunk.get(key) is None
}

/// A delta with one piece of the call at this index.
pub open spec fn has_piece(chunk: Jv, index: int) -> bool {
    let delta = chunk.items_at("choices"@)->0[0].get("delta"@)->0;
    let pieces = delta.items_at("tool_calls"@)->0;
    &&& has_delta(chunk, delta)
    &&& is_open(chunk)
    &&& forall|key: Seq<char>| key != "tool_calls"@ ==> #[trigger] delta.get(key) is None
    &&& delta.items_at("tool_calls"@) is Some && pieces.len() == 1
    &&& pieces[0].get("index"@) == Some(Jv::Int(index))
    &&& pieces[0].get("function"@) is Some
}

/// The piece that the delta of a chunk holds.
pub open spec fn piece_of(chunk: Jv) -> Jv {
    chunk.items_at("choices"@)->0[0].get("delta"@)->0.items_at("tool_calls"@)->0[0]
}

/// A piece of a call without its identifier, its kind and its name.
pub open spec fn is_rest(piece: Jv) -> bool {
    &&& forall|key: Seq<char>|
        key != "index"@ && key != "function"@ ==> #[trigger] piece.get(key) is None
    &&& piece.get("function"@)->0.get("name"@) is None
}

/// A delta with this content and nothing else.
pub open spec fn has_content(delta: Jv, text: Seq<char>) -> bool {
    &&& delta.text_at("content"@) == Some(text)
    &&& forall|key: Seq<char>| key != "content"@ ==> #[trigger] delta.get(key) is None
}

/// One more call makes two more chunks: one with its identifier and its name and without arguments,
/// and one with its arguments.
pub proof fn law_chunks_of_a_call(calls: Seq<Jv>, call: Jv)
    ensures
        call_chunks(Seq::empty()).len() == 0,
        ({
            let before = call_chunks(calls);
            let after = call_chunks(calls.push(call));
            let n = before.len() as int;
            let name = match call.get("function"@) {
                Some(function) => match function.text_at("name"@) {
                    Some(name) => name,
                    None => ""@,
                },
                None => ""@,
            };
            let arguments = match call.get("function"@) {
                Some(function) => match function.text_at("arguments"@) {
                    Some(arguments) => arguments,
                    None => ""@,
                },
                None => ""@,
            };
            &&& after.len() == n + 2 && after.take(n) == before
            &&& has_piece(after[n], calls.len() as int)
            &&& piece_of(after[n]).text_at("id"@) == Some(
                match call.text_at("id"@) {
                    Some(id) => id,
                    None => ""@,
                },
            )
            &&& piece_of(after[n]).text_at("type"@) == Some("function"@)
            &&& piece_of(after[n]).get("function"@)->0.text_at("name"@) == Some(name)
            &&& piece_of(after[n]).get("function"@)->0.text_at("arguments"@) == Some(""@)
            &&& has_piece(after[n + 1], calls.len() as int)
            &&& is_rest(piece_of(after[n + 1]))
            &&& piece_of(after[n + 1]).get("function"@)->0.text_at("arguments"@) == Some(arguments)
        }),
{
    lemma_words_differ();
    assert(calls.push(call).drop_last() =~= calls);
    assert(call_chunks(calls.push(call)).take(call_chunks(calls).len() as int) =~= call_chunks(
        calls,
    ));
}

/// An answer as a stream: the chunks of its calls, one chunk with its content where it has one, and
/// a last one without a delta, with the reason to finish (`stop` where none is given) and the usage.
pub proof fn law_chunks_of_an_answer(cc: Jv, choices: Seq<Jv>)
    requires
        cc.get("choices"@) == Some(Jv::Array(choices)) || (choices.len() == 0 && cc.items_at(
            "choices"@,
        ) is None),
    ensures
        ({
            let chunks = completion_chunks(cc);
            let message = if choices.len() > 0 && choices[0].get("message"@) is Some {
                choices[0].get("message"@)->0
            } else {
                Jv::Object(Map::<Seq<char>, Jv>::empty())
            };
            let calls = match message.items_at("tool_calls"@) {
                Some(calls) => calls,
                None => Seq::empty(),
            };
            let n = call_chunks(calls).len() as int;
            let content = message.text_at("content"@);
            let last = chunks.last();
            &&& chunks.len() == n + (if content is Some {
                1int
            } else {
                0
            }) + 1
            &&& chunks.take(n) == call_chunks(calls)
            &&& content matches Some(text) ==> {
                let delta = chunks[n].items_at("choices"@)->0[0].get("delta"@)->0;
                &&& has_delta(chunks[n], delta)
                &&& is_open(chunks[n])
                &&& has_content(delta, text)
            }
            &&& has_delta(last, Jv::Object(Map::<Seq<char>, Jv>::empty()))
            &&& last.items_at("choices"@)->0[0].get("finish_reason"@) == Some(
                if choices.len() > 0 && choices[0].get("finish_reason"@) is Some {
                    choices[0].get("finish_reason"@)->0
                } else {
                    Jv::Str("stop"@)
                },
            )
            &&& last.get("usage"@) == Some(
                match cc.get("usage"@) {
                    Some(usage) => usage,
                    None => Jv::Null,
                },
            )
        }),
{
    lemma_words_differ();
    let message = match crate::response::first_message(cc) {
        Some(message) => message,
        None => crate::json::empty_object(),
    };
    let calls = message.items_or_none("tool_calls"@);
    let chunks = completion_chunks(cc);
    assert(chunks.take(call_chunks(calls).len() as int) =~= call_chunks(calls));
}

/// A chunk goes over the wire as one line of data and a blank line, and many go one after the other.
pub proof fn law_frames_of_chunks(chunk: Jv, chunks: Seq<Jv>)
    ensures
        data_frame(chunk) == "data: "@ + rendered(chunk) + "\n\n"@,
        data_frames(chunks).len() == chunks.len(),
        forall|i: int|
            0 <= i < chunks.len() ==> #[trigger] data_frames(chunks)[i] == data_frame(chunks[i]),
{
}

} // verus!
