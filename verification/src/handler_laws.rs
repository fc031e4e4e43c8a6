//! What holds of every request that the proxy passes on.

use vstd::prelude::*;

use crate::chat::{chat_messages, law_chat_messages};
use crate::config::{
    configures, law_settings_enable_a_provider, providers_with_key, Config, Settings,
};
use crate::handlers::{
    count_before, kept, made_from, minimax_body, minimax_chat, minimax_chat_body, nudge_text,
    routes, with_fetch, with_history, Route,
};
use crate::json::Jv;
use crate::message_laws::{
    is_exchange, law_prepared, lemma_roles_differ, prepared, well_ordered,
};
use crate::messages::{is_tool, user_message, MAX_MESSAGES};
use crate::request::{
    carried, chat_base, chat_request, input_items, raw_messages, text_item, with_tool_choice,
    with_tools,
};
use crate::response::{completion_calls, drawn, is_time, response_of, NewIds};
use crate::response_laws::law_response_shows_its_message;
use crate::store::{
    after_store, chain_items, lookup, shows, storable, Entry, MAX_CONSECUTIVE_TOOL_CALLS,
    STORE_MAX,
};
use crate::store_laws::{law_chain_grows, law_chain_starts, law_read_after_write, unreferenced};
use crate::web_fetch::{any_url, fetch_tool, hint, hinted, offers_fetch, with_fetch_tool, with_hint};

verus! {

proof fn lemma_request_members()
    ensures
        "messages"@ != "model"@,
        "messages"@ != "stream"@,
        "messages"@ != "max_tokens"@,
        "messages"@ != "temperature"@,
        "messages"@ != "top_p"@,
        "messages"@ != "tools"@,
        "messages"@ != "tool_choice"@,
        "messages"@ != "reasoning_effort"@,
        "messages"@ != "reasoning_split"@,
        "messages"@ != "parallel_tool_calls"@,
        "tools"@ != "tool_choice"@,
        "input"@ != "previous_response_id"@,
{
    reveal_strlit("messages");
    reveal_strlit("model");
    reveal_strlit("stream");
    reveal_strlit("max_tokens");
    reveal_strlit("temperature");
    reveal_strlit("top_p");
    reveal_strlit("tools");
    reveal_strlit("tool_choice");
    reveal_strlit("reasoning_effort");
    reveal_strlit("reasoning_split");
    reveal_strlit("parallel_tool_calls");
    reveal_strlit("input");
    reveal_strlit("previous_response_id");
    assert("messages"@.len() == 8 && "model"@.len() == 5 && "stream"@.len() == 6
        && "max_tokens"@.len() == 10 && "temperature"@.len() == 11 && "top_p"@.len() == 5
        && "tools"@.len() == 5 && "tool_choice"@.len() == 11 && "reasoning_effort"@.len() == 16
        && "reasoning_split"@.len() == 15 && "parallel_tool_calls"@.len() == 19 && "input"@.len()
        == 5 && "previous_response_id"@.len() == 20);
}

/// A translated request carries the prepared conversation: short enough, and with every tool
/// result behind a call.
pub proof fn law_request_conversation(body: Jv)
    ensures
        chat_request(body).items_at("messages"@) == Some(prepared(raw_messages(body))),
        well_ordered(prepared(raw_messages(body))),
        prepared(raw_messages(body)).len() <= MAX_MESSAGES,
{
    lemma_request_members();
    law_prepared(raw_messages(body));
    let sampled = carried(carried(chat_base(body), body, "temperature"@), body, "top_p"@);
    assert(sampled.items_at("messages"@) == Some(prepared(raw_messages(body))));
    let tooled = with_tool_choice(with_tools(sampled, body), body);
    assert(tooled.items_at("messages"@) == Some(prepared(raw_messages(body))));
}

proof fn lemma_hint_keeps_order(messages: Seq<Jv>)
    requires
        well_ordered(messages),
    ensures
        well_ordered(with_hint(messages)),
        with_hint(messages).len() <= messages.len() + 1,
{
    lemma_roles_differ();
    let all = with_hint(messages);
    if !hinted(messages) {
        let said = user_message(hint());
        assert(said.text_at("role"@) == Some("user"@));
        assert forall|i: int| 0 <= i < all.len() && is_tool(#[trigger] all[i]) implies i > 0
            && is_exchange(all[i - 1]) by {
            assert(all[i] == messages[i]);
            assert(all[i - 1] == messages[i - 1]);
        }
    }
}

/// The messages that go to MiniMax for a Responses request: the prepared conversation, and the
/// word on `web_fetch` where it is given.
pub proof fn lemma_minimax_messages(config: Config, body: Jv, list: Seq<(Seq<char>, Entry)>)
    ensures
        ({
            let said = prepared(raw_messages(minimax_body(body, list)));
            let chat = minimax_chat(config, body, list);
            let sent = with_fetch(chat).items_or_none("messages"@);
            &&& chat.items_at("messages"@) == Some(said)
            &&& sent == said || sent == with_hint(said)
        }),
{
    lemma_request_members();
    law_request_conversation(minimax_body(body, list));
}

/// What goes to MiniMax for a Responses request is a conversation that it accepts: every tool
/// result stands behind a call, and there are not too many messages.
pub proof fn law_minimax_conversation(config: Config, body: Jv, list: Seq<(Seq<char>, Entry)>)
    ensures
        ({
            let messages = with_fetch(minimax_chat(config, body, list)).items_or_none("messages"@);
            well_ordered(messages) && messages.len() <= MAX_MESSAGES + 1
        }),
{
    let ready = minimax_body(body, list);
    lemma_minimax_messages(config, body, list);
    law_request_conversation(ready);
    lemma_hint_keeps_order(prepared(raw_messages(ready)));
}

/// What goes to MiniMax for a chat request has every tool result behind a call.
pub proof fn law_minimax_chat_conversation(config: Config, body: Jv)
    requires
        body.is_settable(),
    ensures
        well_ordered(with_fetch(minimax_chat_body(config, body)).items_or_none("messages"@)),
{
    lemma_request_members();
    let messages = chat_messages(body.items_or_none("messages"@));
    law_chat_messages(body.items_or_none("messages"@));
    assert(minimax_chat_body(config, body).items_at("messages"@) == Some(messages));
    lemma_hint_keeps_order(messages);
}

/// A model that has only made tool calls for too long is told to stop, behind everything else.
pub proof fn law_nudge_comes_last(body: Jv, list: Seq<(Seq<char>, Entry)>)
    requires
        count_before(list, body.text_at("previous_response_id"@)) >= MAX_CONSECUTIVE_TOOL_CALLS,
    ensures
        ({
            let items = input_items(minimax_body(body, list).get_or("input"@, Jv::Null));
            items.len() > 0 && items.last() == text_item(
                nudge_text(count_before(list, body.text_at("previous_response_id"@))),
            )
        }),
{
    lemma_request_members();
    let told = with_history(body, list, "minimax"@);
    assert(body is Object);
    assert(told is Object);
}

/// A model that goes on making tool calls nevertheless has its tools taken away. It has none
/// left, but for `web_fetch` where the conversation holds an address.
pub proof fn law_breaker_takes_the_tools(config: Config, body: Jv, list: Seq<(Seq<char>, Entry)>)
    requires
        count_before(list, body.text_at("previous_response_id"@)) >= MAX_CONSECUTIVE_TOOL_CALLS + 3,
    ensures
        ({
            let chat = minimax_chat(config, body, list);
            let sent = with_fetch(chat);
            let urls = any_url(chat.items_or_none("messages"@));
            &&& sent.get("tool_choice"@) is None
            &&& !urls ==> sent.get("tools"@) is None
            &&& urls ==> sent.get("tools"@) == Some(Jv::Array(seq![fetch_tool()]))
        }),
{
    lemma_request_members();
    let chat = minimax_chat(config, body, list);
    assert(chat.get("tools"@) is None);
    assert(with_fetch_tool(None) =~= seq![fetch_tool()]);
}

/// A conversation with an address is one in which the model is offered `web_fetch` and told
/// about it; one without is left as it is.
pub proof fn law_fetch_is_offered_for_addresses(request: Jv)
    requires
        request is Object,
    ensures
        ({
            let messages = request.items_or_none("messages"@);
            let sent = with_fetch(request);
            &&& any_url(messages) ==> offers_fetch(sent.items_or_none("tools"@)) && hinted(
                sent.items_or_none("messages"@),
            )
            &&& !any_url(messages) ==> sent == request
        }),
{
    lemma_request_members();
    crate::web_fetch::law_fetch_tool_is_offered_once(request.get("tools"@));
    crate::web_fetch::law_hint_is_given_once(request.items_or_none("messages"@));
}

/// A conversation that crosses from one provider to another is restored in full: the request
/// has the items of the conversation in front of its own, and refers to no earlier response.
pub proof fn law_history_crosses_providers(
    body: Jv,
    list: Seq<(Seq<char>, Entry)>,
    id: Seq<char>,
    provider: Seq<char>,
)
    requires
        body.text_at("previous_response_id"@) == Some(id),
        id.len() > 0,
        lookup(list, id) is Some,
        lookup(list, id)->0.provider != provider || provider == "minimax"@,
        chain_items(list, id, Seq::empty()).len() > 0,
    ensures
        with_history(body, list, provider).items_at("input"@) == Some(
            chain_items(list, id, Seq::empty()) + input_items(body.get_or("input"@, Jv::Null)),
        ),
        with_history(body, list, provider).get("previous_response_id"@) is None,
{
    lemma_request_members();
}

/// A conversation that stays with its provider, or that the store does not know, is passed on
/// as it is.
pub proof fn law_history_stays_with_its_provider(
    body: Jv,
    list: Seq<(Seq<char>, Entry)>,
    provider: Seq<char>,
)
    requires
        body.text_at("previous_response_id"@) matches Some(id) ==> (lookup(list, id) matches Some(
            entry,
        ) ==> entry.provider == provider && provider != "minimax"@),
    ensures
        with_history(body, list, provider) == body,
{
}

/// With a configuration from settings no request is refused for want of a key.
pub proof fn law_no_request_is_refused(
    settings: Settings,
    config: Config,
    model: Seq<char>,
    route: Route,
)
    ensures
        configures(settings, config) && (config.minimax_key@.len() > 0 || config.openai_key@.len()
            > 0) && routes(config, model, route) ==> !(route is Refused),
{
    if configures(settings, config) && (config.minimax_key@.len() > 0 || config.openai_key@.len()
        > 0) && routes(config, model, route) {
        law_settings_enable_a_provider(settings, config);
        let provider = config.provider_of(model);
        let on = providers_with_key(config.minimax_key@, config.openai_key@);
        assert(config.enables(provider));
        assert(on.contains(provider));
        let k = choose|k: int| 0 <= k < on.len() && on[k] == provider;
        assert(provider == "minimax"@ || provider == "openai"@);
        reveal_strlit("minimax");
        reveal_strlit("openai");
        assert("minimax"@.len() == 7 && "openai"@.len() == 6);
    }
}

/// What the client gets for a Responses request is what is kept: the response is found by its
/// identifier, with the output that it showed. The conversation that ends with it goes on from
/// what it followed, over what it answered, to what it said, as long as the store has room and
/// its new identifier is not one that the store knows or refers to.
pub proof fn law_answer_is_kept(
    start: std::time::Instant,
    before: Seq<(Seq<char>, Entry)>,
    after: Seq<(Seq<char>, Entry)>,
    cc: Jv,
    model: Seq<char>,
    previous: Option<Seq<char>>,
    metadata: Jv,
    response: Jv,
    input: Seq<Jv>,
)
    requires
        storable(before),
        made_from(cc, model, previous, metadata, response),
        kept(
            start,
            before,
            after,
            response.text_or("id"@, ""@),
            "minimax"@,
            input,
            response.items_or_none("output"@),
            previous,
        ),
    ensures
        storable(after),
        lookup(after, response.text_or("id"@, ""@)) matches Some(entry) && entry.provider
            == "minimax"@ && entry.input == input && entry.output == response.items_or_none(
            "output"@,
        ) && entry.previous == previous,
        previous is None ==> chain_items(after, response.text_or("id"@, ""@), Seq::empty()) == input
            + response.items_or_none("output"@),
        previous matches Some(p) ==> before.len() < STORE_MAX && lookup(
            before,
            response.text_or("id"@, ""@),
        ) is None && unreferenced(before, response.text_or("id"@, ""@)) && p != response.text_or(
            "id"@,
            ""@,
        ) ==> chain_items(after, response.text_or("id"@, ""@), Seq::empty()) == chain_items(
            before,
            p,
            Seq::empty(),
        ) + input + response.items_or_none("output"@),
{
    let (ids, now) = choose|ids: NewIds, now: i64| #[trigger]
        drawn(ids, completion_calls(cc).len()) && #[trigger] is_time(now) && response
            == response_of(cc, model, previous, Some(metadata), ids, now);
    law_response_shows_its_message(cc, model, previous, Some(metadata), ids, now);
    let id = response.text_or("id"@, ""@);
    let output = response.items_or_none("output"@);
    let (at, stamp) = choose|at: u128, stamp: u128|
        shows(start, at) && shows(start, stamp) && after == #[trigger] after_store(
            before,
            at,
            stamp,
            id,
            "minimax"@,
            input,
            output,
            previous,
        );
    law_read_after_write(before, at, stamp, id, "minimax"@, input, output, previous);
    if previous is None {
        law_chain_starts(before, at, stamp, id, "minimax"@, input, output);
    }
    if let Some(p) = previous {
        if before.len() < STORE_MAX && lookup(before, id) is None && unreferenced(before, id) && p
            != id {
            law_chain_grows(before, at, stamp, id, "minimax"@, input, output, p);
        }
    }
}

} // verus!
