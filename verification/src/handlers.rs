//! What the proxy decides about a request, before and after it goes upstream.

use vstd::prelude::*;
use vstd::string::*;

use crate::chat::{chat_messages, normalizable, normalize_minimax_chat_messages};
use crate::config::Config;
use crate::events::frames;
use crate::json::{empty_object, group_json, views, Json, Jv};
use crate::json_ops::copy_items;
use crate::request::{
    chat_request, input_items, normalize_input_to_array, responses_request_to_chat_completions,
    text_item, user_input_item,
};
use crate::replay::{response_events, stream_response};
use crate::response::{
    chat_completion_to_response, completion_calls, drawn, first_choice, first_choice_of,
    first_message, first_message_of, function_text, function_text_of, is_time, response_of, NewIds,
};
use crate::store::{
    after_store, chain_items, lookup, shows, Entry, ResponseStore, MAX_CONSECUTIVE_TOOL_CALLS,
};
use crate::text::{decimal, decimal_text, opt_str, opt_string, same, texts};
use crate::util::now_unix;
use crate::web_fetch::{
    any_url, conversation_has_urls, ensure_web_fetch_hint, ensure_web_fetch_tool, is_success,
    with_fetch_tool, with_hint,
};
use crate::wire::rendered;

verus! {

broadcast use group_json;

// ─── Answers that need no upstream ─────────────────────────────────────────

/// The body of an answer that says what went wrong.
pub open spec fn error_of(message: Seq<char>) -> Jv {
    empty_object().put("error"@, empty_object().put("message"@, Jv::Str(message)))
}

/// The body of an answer that says what went wrong.
pub fn error_body(message: &str) -> (r: Json)
    ensures
        r@ == error_of(message@),
{
    Json::object().with("error", Json::object().with("message", Json::text(message)))
}

/// The provider to fall back on, in words.
pub open spec fn fallback_name(config: Config) -> Seq<char> {
    match config.fallback() {
        Some(provider) => provider,
        None => "none"@,
    }
}

fn fallback_text(config: &Config) -> (r: String)
    ensures
        r@ == fallback_name(*config),
{
    match config.get_fallback_provider() {
        Ok(provider) => provider,
        Err(_) => "none".to_owned(),
    }
}

fn string_items(list: &Vec<String>) -> (r: Vec<Json>)
    ensures
        views(r@) == texts(list@).map_values(|s: Seq<char>| Jv::Str(s)),
{
    let mut r: Vec<Json> = Vec::new();
    let mut i: usize = 0;
    while i < list.len()
        invariant
            i <= list@.len(),
            r@.len() == i,
            forall|k: int| 0 <= k < i ==> (#[trigger] r@[k])@ == Jv::Str(list@[k]@),
        decreases list@.len() - i,
    {
        r.push(Json::text(list[i].as_str()));
        i = i + 1;
    }
    assert(views(r@) =~= texts(list@).map_values(|s: Seq<char>| Jv::Str(s)));
    r
}

/// What the proxy says about its health.
pub fn health_body(config: &Config) -> (r: Json)
    ensures
        r@ == empty_object().put("status"@, Jv::Str("ok"@)).put(
            "proxy"@,
            Jv::Str("codex-minimax-proxy"@),
        ).put(
            "providers"@,
            Jv::Array(
                texts(config.enabled_providers@).map_values(|s: Seq<char>| Jv::Str(s)),
            ),
        ).put("default_provider"@, Jv::Str(fallback_name(*config))),
{
    Json::object().with("status", Json::text("ok")).with(
        "proxy",
        Json::text("codex-minimax-proxy"),
    ).with("providers", Json::Array(string_items(&config.enabled_providers))).with(
        "default_provider",
        Json::Str(fallback_text(config)),
    )
}

/// The models that the proxy serves.
pub fn models_body(config: &Config) -> (r: Json)
    ensures
        r@ == empty_object().put("object"@, Jv::Str("list"@)).put(
            "data"@,
            Jv::Array(views(config.model_catalog@)),
        ).put("default_provider"@, Jv::Str(fallback_name(*config))),
{
    Json::object().with("object", Json::text("list")).with(
        "data",
        Json::Array(copy_items(&config.model_catalog)),
    ).with("default_provider", Json::Str(fallback_text(config)))
}

// ─── Fetching for a client ─────────────────────────────────────────────────

/// The query of a request for a page.
pub struct CopQuery {
    pub url: Option<String>,
}

/// The body of the answer to a request for a page that gives no address.
pub open spec fn no_url() -> Jv {
    empty_object().put("error"@, Jv::Str("url parameter required"@))
}

fn no_url_body() -> (r: Json)
    ensures
        r@ == no_url(),
{
    Json::object().with("error", Json::text("url parameter required"))
}

/// What is fetched for a query; the body of the answer, where it gives no address.
pub fn cop_get_args(q: &CopQuery) -> (r: Result<Json, Json>)
    ensures
        (match r {
            Ok(args) => opt_string(q.url) is Some && opt_string(q.url)->0.len() > 0 && args@
                == empty_object().put("url"@, Jv::Str(opt_string(q.url)->0)).put(
                "method"@,
                Jv::Str("GET"@),
            ),
            Err(body) => (opt_string(q.url) is None || opt_string(q.url)->0.len() == 0) && body@
                == no_url(),
        }),
{
    match &q.url {
        Some(url) => {
            if url.as_str().is_empty() {
                Err(no_url_body())
            } else {
                Ok(
                    Json::object().with("url", Json::text(url.as_str())).with(
                        "method",
                        Json::text("GET"),
                    ),
                )
            }
        },
        None => Err(no_url_body()),
    }
}

/// What is fetched for a body; the body of the answer, where it gives no address.
pub fn cop_post_args(body: &Json) -> (r: Result<Json, Json>)
    ensures
        (match r {
            Ok(args) => body@.text_at("url"@) is Some && args@ == empty_object().put(
                "url"@,
                Jv::Str(body@.text_at("url"@)->0),
            ).put("method"@, Jv::Str(body@.text_or("method"@, "GET"@))).put(
                "headers"@,
                body@.get_or("headers"@, empty_object()),
            ).put("body"@, body@.get_or("body"@, Jv::Null)),
            Err(answer) => body@.text_at("url"@) is None && answer@ == no_url(),
        }),
{
    match body.text_at("url") {
        Some(url) => Ok(
            Json::object().with("url", Json::text(url)).with(
                "method",
                Json::text(body.text_or("method", "GET")),
            ).with("headers", body.get_or("headers", Json::object())).with(
                "body",
                body.get_or("body", Json::Null),
            ),
        ),
        None => Err(no_url_body()),
    }
}

// ─── Where a request goes ──────────────────────────────────────────────────

/// Where a request goes.
pub enum Route {
    OpenAi,
    MiniMax,
    /// Nowhere: the provider has no key, and this is the body of the answer.
    Refused(Json),
}

/// Where a request for a provider goes.
pub open spec fn routes_to(config: Config, provider: Seq<char>, route: Route) -> bool {
    if provider == "openai"@ {
        if config.openai_key@.len() == 0 {
            route matches Route::Refused(body) && body@ == error_of(
                "OPENAI_API_KEY is not configured"@,
            )
        } else {
            route is OpenAi
        }
    } else if config.minimax_key@.len() == 0 {
        route matches Route::Refused(body) && body@ == error_of("MINIMAX_API_KEY is not configured"@)
    } else {
        route is MiniMax
    }
}

/// Where a request for a model goes.
pub open spec fn routes(config: Config, model: Seq<char>, route: Route) -> bool {
    routes_to(config, config.provider_of(model), route)
}

/// Where a request for a provider goes.
pub fn route_to(config: &Config, provider: &str) -> (r: Route)
    ensures
        routes_to(*config, provider@, r),
{
    if same(provider, "openai") {
        if config.openai_key.as_str().is_empty() {
            Route::Refused(error_body("OPENAI_API_KEY is not configured"))
        } else {
            Route::OpenAi
        }
    } else if config.minimax_key.as_str().is_empty() {
        Route::Refused(error_body("MINIMAX_API_KEY is not configured"))
    } else {
        Route::MiniMax
    }
}

/// Where a request goes.
pub fn route_request(config: &Config, body: &Json) -> (r: Route)
    ensures
        routes(*config, body@.text_or("model"@, ""@), r),
{
    let provider = config.resolve_provider_for_model(body.text_or("model", ""));
    route_to(config, provider.as_str())
}

/// The address of an endpoint of an upstream.
pub fn upstream_url(base: &str, endpoint: &str) -> (r: String)
    ensures
        r@ == base@ + "/"@ + endpoint@,
{
    base.to_owned().concat("/").concat(endpoint)
}

/// The value of the header that a key authorizes with.
pub fn bearer(key: &str) -> (r: String)
    ensures
        r@ == "Bearer "@ + key@,
{
    "Bearer ".to_owned().concat(key)
}

/// The response that a request follows.
pub fn previous_id(body: &Json) -> (r: Option<String>)
    ensures
        opt_string(r) == body@.text_at("previous_response_id"@),
{
    match body.text_at("previous_response_id") {
        Some(id) => Some(id.to_owned()),
        None => None,
    }
}

/// The input of a request, as a list of items.
pub fn original_input(body: &Json) -> (r: Vec<Json>)
    ensures
        views(r@) == input_items(body@.get_or("input"@, Jv::Null)),
{
    let input = body.get_or("input", Json::Null);
    normalize_input_to_array(&input)
}

// ─── Restoring a conversation ──────────────────────────────────────────────

/// The items of the conversation that a request for a provider follows, where the proxy has to
/// restore it: nothing, where the provider holds the conversation itself.
pub open spec fn restored(
    list: Seq<(Seq<char>, Entry)>,
    previous: Option<Seq<char>>,
    provider: Seq<char>,
) -> Seq<Jv> {
    match previous {
        Some(id) => match lookup(list, id) {
            Some(entry) => if id.len() > 0 && (provider == "minimax"@ || entry.provider
                != provider) {
                chain_items(list, id, Seq::empty())
            } else {
                Seq::empty()
            },
            None => Seq::empty(),
        },
        None => Seq::empty(),
    }
}

/// A request with the conversation that it follows in its input, where the proxy has to restore
/// that.
pub open spec fn with_history(
    body: Jv,
    list: Seq<(Seq<char>, Entry)>,
    provider: Seq<char>,
) -> Jv {
    let items = restored(list, body.text_at("previous_response_id"@), provider);
    if items.len() == 0 {
        body
    } else {
        body.put(
            "input"@,
            Jv::Array(items + input_items(body.get_or("input"@, Jv::Null))),
        ).without("previous_response_id"@)
    }
}

/// Puts the conversation that a request follows into its input, where the proxy has to restore
/// it.
pub fn maybe_resolve_previous_response_chain(
    body: &mut Json,
    target_provider: &str,
    store: &ResponseStore,
)
    ensures
        final(body)@ == with_history(old(body)@, store@, target_provider@),
{
    let id = match body.text_at("previous_response_id") {
        Some(id) => {
            if id.is_empty() {
                return;
            }
            id.to_owned()
        },
        None => {
            return;
        },
    };
    let entry = match store.get(id.as_str()) {
        Some(entry) => entry,
        None => {
            return;
        },
    };
    if !(same(target_provider, "minimax") || !same(entry.provider.as_str(), target_provider)) {
        return;
    }
    let mut items = store.resolve_chain(id.as_str());
    if items.len() == 0 {
        return;
    }
    let ghost chain = views(items@);
    let mut current = original_input(body);
    let ghost own = views(current@);
    items.append(&mut current);
    assert(views(items@) =~= chain + own);
    body.set("input", Json::Array(items));
    body.remove("previous_response_id");
}

// ─── The circuit breaker ───────────────────────────────────────────────────

/// How many responses in a row, up to the one that a request follows, consist of tool calls
/// alone.
pub open spec fn count_before(list: Seq<(Seq<char>, Entry)>, previous: Option<Seq<char>>) -> u32 {
    match previous {
        Some(id) => match lookup(list, id) {
            Some(entry) => entry.consecutive_tool_calls,
            None => 0,
        },
        None => 0,
    }
}

/// What a model is told that has only made tool calls for too long.
pub open spec fn nudge_text(count: u32) -> Seq<char> {
    "[SYSTEM: You have made "@ + decimal(count as nat)
        + " consecutive tool calls without responding to the user. You MUST now stop making tool calls and provide a text response summarizing your progress, findings, and any remaining work. Do NOT make any more tool calls in this response.]"@
}

/// A request in which a model that has only made tool calls for too long is told so.
pub open spec fn with_nudge(body: Jv, count: u32) -> Jv {
    if count >= MAX_CONSECUTIVE_TOOL_CALLS {
        body.put(
            "input"@,
            Jv::Array(
                input_items(body.get_or("input"@, Jv::Null)).push(text_item(nudge_text(count))),
            ),
        )
    } else {
        body
    }
}

/// A chat request without tools, where the model has gone on making tool calls nevertheless.
pub open spec fn with_breaker(request: Jv, count: u32) -> Jv {
    if count >= MAX_CONSECUTIVE_TOOL_CALLS + 3 {
        request.without("tools"@).without("tool_choice"@)
    } else {
        request
    }
}

fn count_for(store: &ResponseStore, previous: &Option<String>) -> (r: u32)
    ensures
        r == count_before(store@, opt_string(*previous)),
{
    match previous {
        Some(id) => match store.get(id.as_str()) {
            Some(entry) => entry.consecutive_tool_calls,
            None => 0,
        },
        None => 0,
    }
}

fn nudge(body: &mut Json, count: u32)
    requires
        count >= MAX_CONSECUTIVE_TOOL_CALLS ==> old(body)@.is_settable(),
    ensures
        final(body)@ == with_nudge(old(body)@, count),
{
    if count >= MAX_CONSECUTIVE_TOOL_CALLS {
        let mut text = "[SYSTEM: You have made ".to_owned();
        text.append(decimal_text(count as u64).as_str());
        text.append(
            " consecutive tool calls without responding to the user. You MUST now stop making tool calls and provide a text response summarizing your progress, findings, and any remaining work. Do NOT make any more tool calls in this response.]",
        );
        let mut items = original_input(body);
        items.push(user_input_item(text.as_str()));
        body.set("input", Json::Array(items));
    }
}

// ─── Requests to MiniMax ───────────────────────────────────────────────────

/// The model that MiniMax is asked for.
pub open spec fn minimax_model(config: Config) -> Seq<char> {
    if config.minimax_models@.len() > 0 {
        config.minimax_models@[0]@
    } else {
        "MiniMax-M2.7"@
    }
}

fn first_minimax_model(config: &Config) -> (r: &str)
    ensures
        r@ == minimax_model(*config),
{
    if config.minimax_models.len() > 0 {
        config.minimax_models[0].as_str()
    } else {
        "MiniMax-M2.7"
    }
}

/// A chat request in which the `web_fetch` tool is offered, where its conversation holds an
/// address.
pub open spec fn with_fetch(request: Jv) -> Jv {
    let messages = request.items_or_none("messages"@);
    if any_url(messages) {
        request.put("tools"@, Jv::Array(with_fetch_tool(request.get("tools"@)))).put(
            "messages"@,
            Jv::Array(with_hint(messages)),
        )
    } else {
        request
    }
}

fn offer_fetch(request: &mut Json) -> (r: bool)
    requires
        old(request)@ is Object,
    ensures
        final(request)@ == with_fetch(old(request)@),
        r == any_url(old(request)@.items_or_none("messages"@)),
{
    proof {
        reveal_strlit("tools");
        reveal_strlit("messages");
        assert("tools"@.len() == 5 && "messages"@.len() == 8);
    }
    let messages = request.items_or_none("messages");
    if conversation_has_urls(&messages) {
        let tools = ensure_web_fetch_tool(request.get("tools"));
        request.set("tools", tools);
        request.set("messages", Json::Array(ensure_web_fetch_hint(messages)));
        true
    } else {
        false
    }
}

/// A request to MiniMax, and what the answer to it is made with.
pub struct MinimaxRequest {
    /// The chat request.
    pub request: Json,
    /// Whether the client wants a stream.
    pub stream: bool,
    /// Whether the conversation holds addresses, so that the model may ask for fetches.
    pub fetches: bool,
    /// The model that the client asked for, and the metadata that it gave.
    pub model: String,
    pub metadata: Json,
    /// The response that the request follows.
    pub previous_response_id: Option<String>,
}

/// The Responses request that is translated for MiniMax.
pub open spec fn minimax_body(body: Jv, list: Seq<(Seq<char>, Entry)>) -> Jv {
    with_nudge(
        with_history(body, list, "minimax"@),
        count_before(list, body.text_at("previous_response_id"@)),
    )
}

/// The chat request that a Responses request makes for MiniMax, before fetches are offered.
pub open spec fn minimax_chat(config: Config, body: Jv, list: Seq<(Seq<char>, Entry)>) -> Jv {
    with_breaker(
        chat_request(minimax_body(body, list)).put("model"@, Jv::Str(minimax_model(config))).put(
            "reasoning_split"@,
            Jv::Bool(true),
        ),
        count_before(list, body.text_at("previous_response_id"@)),
    )
}

/// Makes the request to MiniMax that a Responses request stands for.
pub fn prepare_minimax_responses(config: &Config, body: Json, store: &ResponseStore) -> (r:
    MinimaxRequest)
    ensures
        r.request@ == with_fetch(minimax_chat(*config, body@, store@)),
        r.request@ is Object,
        r.stream == chat_request(minimax_body(body@, store@)).bool_or("stream"@, false),
        r.fetches == any_url(
            minimax_chat(*config, body@, store@).items_or_none("messages"@),
        ),
        r.model@ == minimax_body(body@, store@).text_or("model"@, ""@),
        r.metadata@ == minimax_body(body@, store@).get_or("metadata"@, empty_object()),
        opt_string(r.previous_response_id) == body@.text_at("previous_response_id"@),
{
    let previous = previous_id(&body);
    let ghost first = body@;
    let mut body = body;
    maybe_resolve_previous_response_chain(&mut body, "minimax", store);
    let count = count_for(store, &previous);
    assert(opt_string(previous) is Some ==> first is Object);
    nudge(&mut body, count);
    let mut request = responses_request_to_chat_completions(&body);
    let stream = request.bool_or("stream", false);
    request.set("model", Json::text(first_minimax_model(config)));
    request.set("reasoning_split", Json::Bool(true));
    if count >= MAX_CONSECUTIVE_TOOL_CALLS + 3 {
        request.remove("tools");
        request.remove("tool_choice");
    }
    assert(request@ == minimax_chat(*config, first, store@));
    let fetches = offer_fetch(&mut request);
    let model = body.text_or("model", "").to_owned();
    let metadata = body.get_or("metadata", Json::object());
    MinimaxRequest { request, stream, fetches, model, metadata, previous_response_id: previous }
}

/// Whether a chat request can be brought into the form that MiniMax accepts: it is an object,
/// or null, and its messages can.
pub open spec fn preparable(body: Jv) -> bool {
    body.is_settable() && normalizable(body.items_or_none("messages"@))
}

/// Whether [`prepare_minimax_chat`] can take a request.
pub fn can_prepare(body: &Json) -> (r: bool)
    ensures
        r == preparable(body@),
{
    body.is_settable() && crate::chat::can_normalize(&body.items_or_none("messages"))
}

/// The model that a chat request to MiniMax asks for.
pub open spec fn chat_model(config: Config, body: Jv) -> Seq<char> {
    body.text_or("model"@, minimax_model(config))
}

/// A chat request with the given messages in the form that MiniMax accepts, before fetches are
/// offered.
pub open spec fn chat_body_with(config: Config, body: Jv, messages: Seq<Jv>) -> Jv {
    let ready = body.put("model"@, Jv::Str(chat_model(config, body))).put(
        "messages"@,
        Jv::Array(messages),
    ).put("reasoning_split"@, Jv::Bool(true));
    if ready.get("max_tokens"@) is None {
        ready.put("max_tokens"@, Jv::Int(16384))
    } else {
        ready
    }
}

/// A chat request in the form that MiniMax accepts, before fetches are offered.
pub open spec fn minimax_chat_body(config: Config, body: Jv) -> Jv {
    chat_body_with(config, body, chat_messages(body.items_or_none("messages"@)))
}

/// Makes the request to MiniMax that a chat request stands for, given its messages in the form
/// that MiniMax accepts.
pub fn prepare_chat_with(config: &Config, body: Json, messages: Vec<Json>) -> (r: MinimaxRequest)
    requires
        body@.is_settable(),
    ensures
        r.request@ == with_fetch(chat_body_with(*config, body@, views(messages@))),
        r.request@ is Object,
        r.stream == body@.bool_or("stream"@, false),
        r.fetches == any_url(views(messages@)),
        r.model@ == chat_model(*config, body@),
        r.metadata@ == body@.get_or("metadata"@, empty_object()),
        opt_string(r.previous_response_id) == body@.text_at("previous_response_id"@),
{
    proof {
        reveal_strlit("model");
        reveal_strlit("messages");
        reveal_strlit("reasoning_split");
        reveal_strlit("max_tokens");
        assert("model"@.len() == 5 && "messages"@.len() == 8 && "reasoning_split"@.len() == 15
            && "max_tokens"@.len() == 10);
    }
    let ghost first = body@;
    let ghost said = views(messages@);
    let previous_response_id = previous_id(&body);
    let metadata = body.get_or("metadata", Json::object());
    let stream = body.bool_or("stream", false);
    let model = body.text_or("model", first_minimax_model(config)).to_owned();
    let mut request = body;
    request.set("model", Json::text(model.as_str()));
    request.set("messages", Json::Array(messages));
    request.set("reasoning_split", Json::Bool(true));
    if request.get("max_tokens").is_none() {
        request.set("max_tokens", Json::Unsigned(16384));
    }
    assert(request@ == chat_body_with(*config, first, said));
    assert(request@.items_or_none("messages"@) == said);
    let fetches = offer_fetch(&mut request);
    MinimaxRequest { request, stream, fetches, model, metadata, previous_response_id }
}

/// Makes the request to MiniMax that a chat request stands for.
pub fn prepare_minimax_chat(config: &Config, body: Json) -> (r: MinimaxRequest)
    requires
        preparable(body@),
    ensures
        r.request@ == with_fetch(minimax_chat_body(*config, body@)),
        r.request@ is Object,
        r.stream == body@.bool_or("stream"@, false),
        r.fetches == any_url(chat_messages(body@.items_or_none("messages"@))),
        r.model@ == chat_model(*config, body@),
        r.metadata@ == body@.get_or("metadata"@, empty_object()),
        opt_string(r.previous_response_id) == body@.text_at("previous_response_id"@),
{
    let messages = normalize_minimax_chat_messages(body.items_or_none("messages"));
    prepare_chat_with(config, body, messages)
}

// ─── What is kept of a response ────────────────────────────────────────────

/// Whether a store has come to keep a response: its identifier, its output, and the input that
/// it answers. The times that this goes by are shown by its clock, which was started at `start`.
pub open spec fn kept(
    start: std::time::Instant,
    before: Seq<(Seq<char>, Entry)>,
    after: Seq<(Seq<char>, Entry)>,
    id: Seq<char>,
    provider: Seq<char>,
    input: Seq<Jv>,
    output: Seq<Jv>,
    previous: Option<Seq<char>>,
) -> bool {
    exists|now: u128, stamp: u128|
        shows(start, now) && shows(start, stamp) && after == #[trigger] after_store(
            before,
            now,
            stamp,
            id,
            provider,
            input,
            output,
            previous,
        )
}

/// Keeps a response that passed through, where it has an identifier and an output.
///
/// What the clock of the store shows is left to the clock.
pub fn keep_upstream_response(
    store: &mut ResponseStore,
    response: &Json,
    input: Vec<Json>,
    previous_response_id: Option<String>,
)
    requires
        old(store).wf(),
    ensures
        final(store).wf(),
        final(store).clock_start() == old(store).clock_start(),
        (match (response@.text_at("id"@), response@.items_at("output"@)) {
            (Some(id), Some(output)) => kept(
                old(store).clock_start(),
                old(store)@,
                final(store)@,
                id,
                "openai"@,
                views(input@),
                output,
                opt_string(previous_response_id),
            ),
            _ => final(store)@ == old(store)@,
        }),
{
    match (response.text_at("id"), response.items_at("output")) {
        (Some(id), Some(output)) => {
            store.store(id, "openai", input, copy_items(output), previous_response_id);
        },
        _ => {},
    }
}

/// Keeps what a streamed response has come to, or a response of the proxy: one without an
/// identifier is not kept.
///
/// What the clock of the store shows is left to the clock.
pub fn keep_minimax_response(
    store: &mut ResponseStore,
    response_id: &str,
    input: Vec<Json>,
    output: Vec<Json>,
    previous_response_id: Option<String>,
)
    requires
        old(store).wf(),
    ensures
        final(store).wf(),
        final(store).clock_start() == old(store).clock_start(),
        kept(
            old(store).clock_start(),
            old(store)@,
            final(store)@,
            response_id@,
            "minimax"@,
            views(input@),
            views(output@),
            opt_string(previous_response_id),
        ),
{
    store.store(response_id, "minimax", input, output, previous_response_id);
}

// ─── The status of an answer ───────────────────────────────────────────────

/// The status of the answer to a request that is refused without asking an upstream.
pub const REFUSED_STATUS: u16 = 400;

/// What has become of a request to an upstream.
pub enum Upstream {
    /// It could not be made.
    Failed,
    /// The upstream answered that it went wrong, with this status.
    Refused(u16),
    /// The upstream answered that it went well, but not with JSON.
    NoJson,
    /// The upstream answered that it went well.
    Value,
}

/// What the status of an upstream's answer says.
pub fn upstream_outcome(status: u16) -> (r: Upstream)
    ensures
        r == (if is_success(status) {
            Upstream::Value
        } else {
            Upstream::Refused(status)
        }),
{
    if 200 <= status && status < 300 {
        Upstream::Value
    } else {
        Upstream::Refused(status)
    }
}

/// The status that the client gets: that of the upstream where it refuses, or else one that says
/// how the request to it went.
pub fn answer_status(outcome: &Upstream) -> (r: u16)
    ensures
        r == (match *outcome {
            Upstream::Failed => 502,
            Upstream::NoJson => 502,
            Upstream::Refused(s) => if 100 <= s <= 999 {
                s
            } else {
                500
            },
            Upstream::Value => 200,
        }),
{
    match outcome {
        Upstream::Failed => 502,
        Upstream::NoJson => 502,
        Upstream::Refused(s) => {
            if http::StatusCode::from_u16(*s).is_ok() {
                *s
            } else {
                500
            }
        },
        Upstream::Value => 200,
    }
}

/// The type of the content that the client gets where the upstream refuses: the one that it
/// gives, or else JSON.
pub fn refusal_type<'a>(given: Option<&'a str>) -> (r: &'a str)
    ensures
        r@ == (match given {
            Some(kind) => kind@,
            None => "application/json"@,
        }),
{
    match given {
        Some(kind) => kind,
        None => "application/json",
    }
}

// ─── What the client gets ──────────────────────────────────────────────────

/// How a request to MiniMax is carried out.
pub enum Mode {
    /// In a loop of completions and fetches.
    Fetches,
    /// As a stream.
    Stream,
    /// As one completion.
    Completion,
}

impl MinimaxRequest {
    /// How the request is carried out: a model that may ask for fetches is not streamed.
    pub fn mode(&self) -> (r: Mode)
        ensures
            (match r {
                Mode::Fetches => self.fetches,
                Mode::Stream => !self.fetches && self.stream,
                Mode::Completion => !self.fetches && !self.stream,
            }),
    {
        if self.fetches {
            Mode::Fetches
        } else if self.stream {
            Mode::Stream
        } else {
            Mode::Completion
        }
    }
}

/// What the client gets.
pub enum Reply {
    /// A value.
    Body(Json),
    /// The texts of a stream.
    Texts(Vec<String>),
}

/// Whether a reply gives a response: as it is, or as the events of a stream.
pub open spec fn gives_response(
    response: Jv,
    stream: bool,
    created_at: i64,
    progress_at: i64,
    reply: Reply,
) -> bool {
    if stream {
        reply matches Reply::Texts(out) && texts(out@) == frames(
            response_events(response, created_at, progress_at),
        )
    } else {
        reply matches Reply::Body(body) && body@ == response
    }
}

/// Gives a response to the client, with given times for the first events of a stream.
pub fn reply_with_response(
    response: Json,
    stream: bool,
    created_at: i64,
    progress_at: i64,
) -> (r: Reply)
    ensures
        gives_response(response@, stream, created_at, progress_at, r),
{
    if stream {
        Reply::Texts(stream_response(&response, created_at, progress_at))
    } else {
        Reply::Body(response)
    }
}

/// Whether a response is one that a completion makes, with some identifiers and at some time.
pub open spec fn made_from(
    cc: Jv,
    model: Seq<char>,
    previous: Option<Seq<char>>,
    metadata: Jv,
    response: Jv,
) -> bool {
    exists|ids: NewIds, now: i64| #[trigger]
        drawn(ids, completion_calls(cc).len()) && #[trigger] is_time(now) && response
            == response_of(cc, model, previous, Some(metadata), ids, now)
}

/// Makes the response that a completion stands for, keeps it, and gives it to the client.
///
/// Which identifiers are drawn, and what the clocks show, is left to chance and to the clocks.
pub fn conclude_minimax_responses(
    store: &mut ResponseStore,
    completion: &Json,
    model: &str,
    metadata: &Json,
    previous_response_id: Option<String>,
    input: Vec<Json>,
    stream: bool,
) -> (r: Reply)
    requires
        old(store).wf(),
    ensures
        final(store).wf(),
        final(store).clock_start() == old(store).clock_start(),
        exists|response: Jv, created_at: i64, progress_at: i64|
            is_time(created_at) && is_time(progress_at) && #[trigger] made_from(
                completion@,
                model@,
                opt_string(previous_response_id),
                metadata@,
                response,
            ) && kept(
                old(store).clock_start(),
                old(store)@,
                final(store)@,
                response.text_or("id"@, ""@),
                "minimax"@,
                views(input@),
                response.items_or_none("output"@),
                opt_string(previous_response_id),
            ) && #[trigger] gives_response(response, stream, created_at, progress_at, r),
{
    let response = chat_completion_to_response(
        completion,
        model,
        opt_str(&previous_response_id),
        Some(metadata),
    );
    assert(made_from(
        completion@,
        model@,
        opt_string(previous_response_id),
        metadata@,
        response@,
    ));
    let output = response.items_or_none("output");
    keep_minimax_response(
        store,
        response.text_or("id", ""),
        input,
        output,
        previous_response_id,
    );
    let created_at = now_unix();
    let progress_at = now_unix();
    assert(is_time(created_at) && is_time(progress_at));
    let r = reply_with_response(response, stream, created_at, progress_at);
    assert(gives_response(response@, stream, created_at, progress_at, r));
    r
}

/// Gives a completion to the client: as it is, or as a stream of chunks.
pub fn reply_with_completion(completion: Json, stream: bool) -> (r: Reply)
    ensures
        (if stream {
            r matches Reply::Texts(out) && texts(out@) == data_frames(
                completion_chunks(completion@),
            ).push("data: [DONE]\n\n"@)
        } else {
            r matches Reply::Body(body) && body@ == completion@
        }),
{
    if stream {
        Reply::Texts(completion_as_stream(&completion))
    } else {
        Reply::Body(completion)
    }
}

// ─── A chat completion as a stream ─────────────────────────────────────────

/// A piece of a streamed chat completion.
pub open spec fn chunk_of(delta: Jv) -> Jv {
    empty_object().put(
        "choices"@,
        Jv::Array(seq![empty_object().put("index"@, Jv::Int(0)).put("delta"@, delta)]),
    )
}

/// The piece in which a tool call begins.
pub open spec fn call_chunk(index: int, call: Jv) -> Jv {
    chunk_of(
        empty_object().put(
            "tool_calls"@,
            Jv::Array(
                seq![
                    empty_object().put("index"@, Jv::Int(index)).put(
                        "id"@,
                        Jv::Str(call.text_or("id"@, ""@)),
                    ).put("type"@, Jv::Str("function"@)).put(
                        "function"@,
                        empty_object().put("name"@, Jv::Str(function_text(call, "name"@, ""@))).put(
                            "arguments"@,
                            Jv::Str(""@),
                        ),
                    ),
                ],
            ),
        ),
    )
}

/// The piece that brings the arguments of a tool call.
pub open spec fn arguments_chunk(index: int, call: Jv) -> Jv {
    chunk_of(
        empty_object().put(
            "tool_calls"@,
            Jv::Array(
                seq![
                    empty_object().put("index"@, Jv::Int(index)).put(
                        "function"@,
                        empty_object().put(
                            "arguments"@,
                            Jv::Str(function_text(call, "arguments"@, ""@)),
                        ),
                    ),
                ],
            ),
        ),
    )
}

/// The pieces for the tool calls of a message.
pub open spec fn call_chunks(calls: Seq<Jv>) -> Seq<Jv>
    decreases calls.len(),
{
    if calls.len() == 0 {
        Seq::empty()
    } else {
        call_chunks(calls.drop_last()).push(call_chunk(calls.len() - 1, calls.last())).push(
            arguments_chunk(calls.len() - 1, calls.last()),
        )
    }
}

/// The piece that says why the completion ended.
pub open spec fn last_chunk(cc: Jv) -> Jv {
    let reason = match first_choice(cc) {
        Some(choice) => choice.get_or("finish_reason"@, Jv::Str("stop"@)),
        None => Jv::Str("stop"@),
    };
    empty_object().put(
        "choices"@,
        Jv::Array(
            seq![
                empty_object().put("index"@, Jv::Int(0)).put("delta"@, empty_object()).put(
                    "finish_reason"@,
                    reason,
                ),
            ],
        ),
    ).put("usage"@, cc.get_or("usage"@, Jv::Null))
}

/// The pieces of a completion, as if it were streamed.
pub open spec fn completion_chunks(cc: Jv) -> Seq<Jv> {
    let message = match first_message(cc) {
        Some(message) => message,
        None => empty_object(),
    };
    (call_chunks(message.items_or_none("tool_calls"@)) + (match message.text_at("content"@) {
        Some(content) => seq![chunk_of(empty_object().put("content"@, Jv::Str(content)))],
        None => Seq::empty(),
    })).push(last_chunk(cc))
}

/// The text of a piece on the wire.
pub open spec fn data_frame(chunk: Jv) -> Seq<char> {
    "data: "@ + rendered(chunk) + "\n\n"@
}

/// The texts of a list of pieces on the wire.
pub open spec fn data_frames(chunks: Seq<Jv>) -> Seq<Seq<char>> {
    chunks.map_values(|c: Jv| data_frame(c))
}

fn data_line(chunk: &Json) -> (r: String)
    ensures
        r@ == data_frame(chunk@),
{
    "data: ".to_owned().concat(chunk.render().as_str()).concat("\n\n")
}

fn one(item: Json) -> (r: Vec<Json>)
    ensures
        views(r@) == seq![item@],
{
    let ghost v = item@;
    let mut r: Vec<Json> = Vec::new();
    r.push(item);
    assert(views(r@) =~= seq![v]);
    r
}

fn make_chunk(delta: Json) -> (r: Json)
    ensures
        r@ == chunk_of(delta@),
{
    Json::object().with(
        "choices",
        Json::Array(one(Json::object().with("index", Json::Unsigned(0)).with("delta", delta))),
    )
}

fn push_frame(out: &mut Vec<String>, chunk: Json)
    ensures
        texts(final(out)@) == texts(old(out)@).push(data_frame(chunk@)),
{
    let frame = data_line(&chunk);
    let ghost f = frame@;
    out.push(frame);
    assert(texts(out@) =~= texts(old(out)@).push(f));
}

fn push_calls(out: &mut Vec<String>, calls: &Vec<Json>)
    ensures
        texts(final(out)@) == texts(old(out)@) + data_frames(call_chunks(views(calls@))),
{
    let ghost all = views(calls@);
    let mut i: usize = 0;
    assert(texts(out@) =~= texts(old(out)@) + data_frames(call_chunks(all.take(0))));
    while i < calls.len()
        invariant
            i <= calls@.len(),
            all == views(calls@),
            texts(out@) == texts(old(out)@) + data_frames(call_chunks(all.take(i as int))),
        decreases calls@.len() - i,
    {
        let call = &calls[i];
        let ghost before = call_chunks(all.take(i as int));
        let name = Json::object().with(
            "name",
            Json::text(function_text_of(call, "name", "")),
        ).with("arguments", Json::text(""));
        let begun = Json::object().with("index", Json::count(i)).with(
            "id",
            Json::text(call.text_or("id", "")),
        ).with("type", Json::text("function")).with("function", name);
        push_frame(out, make_chunk(Json::object().with("tool_calls", Json::Array(one(begun)))));
        let arguments = Json::object().with(
            "arguments",
            Json::text(function_text_of(call, "arguments", "")),
        );
        let rest = Json::object().with("index", Json::count(i)).with("function", arguments);
        push_frame(out, make_chunk(Json::object().with("tool_calls", Json::Array(one(rest)))));
        proof {
            let now = all.take(i + 1);
            assert(now.drop_last() =~= all.take(i as int));
            assert(now.last() == all[i as int]);
            let a = call_chunk(i as int, all[i as int]);
            let b = arguments_chunk(i as int, all[i as int]);
            assert(call_chunks(now) == before.push(a).push(b));
            assert(data_frames(before.push(a).push(b)) =~= data_frames(before).push(
                data_frame(a),
            ).push(data_frame(b)));
            assert(texts(out@) =~= texts(old(out)@) + data_frames(call_chunks(now)));
        }
        i = i + 1;
    }
    assert(all.take(i as int) =~= all);
}

/// The texts of a completion on the wire, as if it were streamed, with the mark of the end.
pub fn completion_as_stream(cc: &Json) -> (r: Vec<String>)
    ensures
        texts(r@) == data_frames(completion_chunks(cc@)).push("data: [DONE]\n\n"@),
{
    let empty = Json::object();
    let message = match first_message_of(cc) {
        Some(message) => message,
        None => &empty,
    };
    let mut out: Vec<String> = Vec::new();
    assert(texts(out@) =~= Seq::empty());
    let calls = message.items_or_none("tool_calls");
    push_calls(&mut out, &calls);
    let ghost first = call_chunks(views(calls@));
    assert(texts(out@) =~= data_frames(first));
    let ghost second = match message@.text_at("content"@) {
        Some(content) => seq![chunk_of(empty_object().put("content"@, Jv::Str(content)))],
        None => Seq::empty(),
    };
    match message.text_at("content") {
        Some(content) => {
            push_frame(
                &mut out,
                make_chunk(Json::object().with("content", Json::text(content))),
            );
        },
        None => {},
    }
    assert(texts(out@) =~= data_frames(first + second));
    let reason = match first_choice_of(cc) {
        Some(choice) => choice.get_or("finish_reason", Json::text("stop")),
        None => Json::text("stop"),
    };
    let choice = Json::object().with("index", Json::Unsigned(0)).with("delta", Json::object()).with(
        "finish_reason",
        reason,
    );
    let last = Json::object().with("choices", Json::Array(one(choice))).with(
        "usage",
        cc.get_or("usage", Json::Null),
    );
    push_frame(&mut out, last);
    assert(texts(out@) =~= data_frames(completion_chunks(cc@)));
    let ghost before = texts(out@);
    out.push("data: [DONE]\n\n".to_owned());
    assert(texts(out@) =~= before.push("data: [DONE]\n\n"@));
    out
}

} // verus!
