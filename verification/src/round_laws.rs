//! Which fetches a model asks for, how they are answered, and when the rounds end.

use vstd::prelude::*;

use crate::fetch_calls::{
    call_url, call_urls, fetch_calls, is_fetch, lemma_sorted_texts, sorted_texts, text_le, urls_key,
    without_fetches,
};
use crate::fetch_loop::{
    asked_by, asked_in, asked_with, cached, call_result, calls_in, Action, Asked, Rounds,
};
use crate::json::Jv;
use crate::text::joined;
use crate::wire::parsed;
use crate::words::lemma_words_differ;

verus! {

// ─── The calls ─────────────────────────────────────────────────────────────

/// A call of the function `web_fetch`.
pub open spec fn names_fetch(call: Jv) -> bool {
    match call.get("function"@) {
        Some(Jv::Object(function)) => function.dom().contains("name"@) && function["name"@]
            == Jv::Str("web_fetch"@),
        _ => false,
    }
}

/// The fetches of an answer are the calls of `web_fetch` among the tool calls of its first message,
/// all of them and in their order.
pub proof fn law_fetches_of_an_answer(cc: Jv, choices: Seq<Jv>, message: Jv, calls: Seq<Jv>)
    requires
        cc.get("choices"@) == Some(Jv::Array(choices)),
        choices.len() > 0,
        choices[0].get("message"@) == Some(message),
        message.get("tool_calls"@) == Some(Jv::Array(calls)),
    ensures
        fetch_calls(cc) == calls.filter(|c: Jv| names_fetch(c)),
{
    assert((|c: Jv| names_fetch(c)) =~= (|c: Jv| is_fetch(c)));
}

/// An answer without its fetches: the other calls stay, in their order, and where there are none
/// the message has no calls; then an answer that ended with tool calls has stopped. Nothing else
/// changes.
pub proof fn law_answer_without_fetches(cc: Jv, choices: Seq<Jv>, message: Jv, calls: Seq<Jv>)
    requires
        cc.get("choices"@) == Some(Jv::Array(choices)),
        choices.len() > 0,
        choices[0].get("message"@) == Some(message),
        message.get("tool_calls"@) == Some(Jv::Array(calls)),
    ensures
        ({
            let after = without_fetches(cc);
            let left = after.items_at("choices"@)->0;
            let said = left[0].get("message"@)->0;
            let kept = calls.filter(|c: Jv| !names_fetch(c));
            &&& after.items_at("choices"@) is Some && left.len() == choices.len()
            &&& forall|i: int| 0 < i < left.len() ==> #[trigger] left[i] == choices[i]
            &&& forall|key: Seq<char>|
                key != "choices"@ ==> #[trigger] after.get(key) == cc.get(key)
            &&& left[0].get("message"@) is Some
            &&& forall|key: Seq<char>|
                key != "tool_calls"@ ==> #[trigger] said.get(key) == message.get(key)
            &&& said.get("tool_calls"@) == if kept.len() > 0 {
                Some(Jv::Array(kept))
            } else {
                None
            }
            &&& left[0].get("finish_reason"@) == if kept.len() == 0 && choices[0].text_at(
                "finish_reason"@,
            ) == Some("tool_calls"@) {
                Some(Jv::Str("stop"@))
            } else {
                choices[0].get("finish_reason"@)
            }
            &&& forall|key: Seq<char>|
                key != "message"@ && key != "finish_reason"@ ==> #[trigger] left[0].get(key)
                    == choices[0].get(key)
        }),
{
    lemma_words_differ();
    assert((|c: Jv| !names_fetch(c)) =~= (|c: Jv| !is_fetch(c)));
    let kept = calls.filter(|c: Jv| !is_fetch(c));
    let first = crate::fetch_calls::choice_without_fetches(choices[0]);
    assert(without_fetches(cc).items_at("choices"@) == Some(choices.update(0, first)));
    assert(choices.update(0, first)[0] == first);
    assert(first.get("message"@) == Some(
        crate::fetch_calls::message_without_fetches(message, calls),
    ));
}

/// An answer whose first message has no list of tool calls has no fetches, and nothing changes
/// without them.
pub proof fn law_answer_without_calls(cc: Jv)
    requires
        (match cc.items_at("choices"@) {
            Some(choices) => choices.len() > 0 ==> (match choices[0].get("message"@) {
                Some(message) => message.items_at("tool_calls"@) is None,
                None => true,
            }),
            None => true,
        }),
    ensures
        fetch_calls(cc).len() == 0,
        forall|key: Seq<char>| #[trigger] without_fetches(cc).get(key) == cc.get(key),
{
    reveal(Seq::filter);
    if let Some(choices) = cc.items_at("choices"@) {
        if choices.len() > 0 {
            assert(choices.update(0, choices[0]) =~= choices);
        }
    }
}

// ─── The addresses ─────────────────────────────────────────────────────────

/// The order of two texts is decided by the first character in which they differ; a text comes
/// before every longer one that starts with it.
pub proof fn law_order_of_texts(a: Seq<char>, b: Seq<char>, k: int)
    requires
        0 <= k <= a.len(),
        k <= b.len(),
        forall|i: int| 0 <= i < k ==> #[trigger] a[i] == b[i],
    ensures
        k < a.len() && k < b.len() && a[k] != b[k] ==> text_le(a, b) == (a[k] < b[k]),
        k == a.len() ==> text_le(a, b),
        k == b.len() && k < a.len() ==> !text_le(a, b),
    decreases k,
{
    if k > 0 {
        assert(a[0] == b[0]);
        assert forall|i: int| 0 <= i < k - 1 implies #[trigger] a.skip(1)[i] == b.skip(1)[i] by {
            assert(a[i + 1] == b[i + 1]);
        }
        law_order_of_texts(a.skip(1), b.skip(1), k - 1);
    }
}

/// What identifies a set of addresses: all of them, in the order of texts, with a bar between them.
pub proof fn law_key_of_addresses(urls: Seq<Seq<char>>)
    ensures
        urls_key(urls) == joined(sorted_texts(urls), "|"@),
        sorted_texts(urls).to_multiset() == urls.to_multiset(),
        forall|i: int, j: int|
            0 <= i < j < sorted_texts(urls).len() ==> text_le(
                #[trigger] sorted_texts(urls)[i],
                #[trigger] sorted_texts(urls)[j],
            ),
{
    lemma_sorted_texts(urls);
}

/// The address of a call is the `url` in its arguments; a call whose arguments are no JSON text, or
/// name no address as a text, has none.
pub proof fn law_address_of_a_call(calls: Seq<Jv>, call: Jv)
    ensures
        call_urls(Seq::empty()).len() == 0,
        (match call.get("function"@) {
            Some(function) => match function.text_at("arguments"@) {
                Some(arguments) => match parsed(arguments) {
                    Some(v) => call_url(call) == v.text_at("url"@),
                    None => call_url(call) is None,
                },
                None => call_url(call) is None,
            },
            None => call_url(call) is None,
        }),
        call_url(call) is None ==> call_urls(calls.push(call)) == call_urls(calls),
        call_url(call) matches Some(url) ==> call_urls(calls.push(call)) == call_urls(calls).push(
            url,
        ),
{
    assert(calls.push(call).drop_last() =~= calls);
}

/// What a call asks for: the arguments that its text stands for, and none where it is no JSON text
/// or missing; it is known by its address, and by `unknown` without one.
pub proof fn law_fetch_asked_for(call: Jv, arguments: Option<Jv>)
    ensures
        asked_with(call, arguments).call == call,
        arguments matches Some(v) ==> asked_with(call, arguments).args == v,
        arguments is None ==> asked_with(call, arguments).args == Jv::Object(
            Map::<Seq<char>, Jv>::empty(),
        ),
        asked_with(call, arguments).name == (match arguments {
            Some(v) => match v.text_at("url"@) {
                Some(url) => url,
                None => "unknown"@,
            },
            None => "unknown"@,
        }),
        asked_by(call) == asked_with(
            call,
            parsed(
                match call.get("function"@) {
                    Some(function) => match function.text_at("arguments"@) {
                        Some(text) => text,
                        None => "{}"@,
                    },
                    None => "{}"@,
                },
            ),
        ),
{
}

// ─── The rounds ────────────────────────────────────────────────────────────

/// What is sent in a round: the request, with the messages so far and without streaming.
pub proof fn law_request_of_a_round(state: Rounds)
    requires
        state.base.is_settable(),
    ensures
        state.request().items_at("messages"@) == Some(state.messages),
        state.request().get("stream"@) == Some(Jv::Bool(false)),
        forall|key: Seq<char>|
            key != "messages"@ && key != "stream"@ ==> #[trigger] state.request().get(key)
                == state.base.get(key),
{
    lemma_words_differ();
}

/// The rounds end where nothing is to be fetched, after five rounds, and where the same addresses
/// are asked for as in the round before; in no other case.
pub proof fn law_when_rounds_end(state: Rounds, asked: Seq<Asked>, urls: Seq<char>, cc: Jv)
    ensures
        state.ends_at(asked, urls) <==> (asked.len() == 0 || state.round == 5 || urls
            == state.previous_urls),
        state.ends_with(cc) == state.ends_at(asked_in(cc), urls_key(call_urls(fetch_calls(cc)))),
        asked_in(cc).len() == fetch_calls(cc).len(),
        forall|i: int|
            0 <= i < asked_in(cc).len() ==> #[trigger] asked_in(cc)[i] == asked_by(
                fetch_calls(cc)[i],
            ),
        fetch_calls(cc).len() == 0 ==> state.last_completion(cc) == cc,
        fetch_calls(cc).len() > 0 ==> state.last_completion(cc) == without_fetches(cc),
{
}

/// What begins a round of fetches, and what stays.
pub proof fn law_round_begins(state: Rounds, asked: Seq<Asked>, urls: Seq<char>)
    ensures
        ({
            let begun = state.began_with(asked, urls);
            &&& begun.calls == asked && begun.results.len() == 0 && begun.previous_urls == urls
            &&& begun.base == state.base && begun.messages == state.messages
            &&& begun.round == state.round && begun.cache == state.cache
        }),
{
}

/// A page is kept under the address it was fetched for: it is what is found for that address
/// afterwards, and nothing else changes.
pub proof fn law_pages_are_kept(
    cache: Seq<(Seq<char>, Seq<char>)>,
    name: Seq<char>,
    content: Seq<char>,
    other: Seq<char>,
)
    ensures
        cached(Seq::empty(), other) is None,
        cached(cache.push((name, content)), name) == Some(content),
        other != name ==> cached(cache.push((name, content)), other) == cached(cache, other),
{
    assert(cache.push((name, content)).drop_last() =~= cache);
}

/// The answer to a call: a tool message with its identifier and the text of the page.
pub proof fn law_answer_to_a_fetch(call: Jv, content: Seq<char>)
    ensures
        ({
            let answer = call_result(call, content);
            &&& answer.text_at("role"@) == Some("tool"@)
            &&& answer.text_at("tool_call_id"@) == Some(
                match call.text_at("id"@) {
                    Some(id) => id,
                    None => ""@,
                },
            )
            &&& answer.text_at("content"@) == Some(content)
            &&& forall|key: Seq<char>|
                key != "role"@ && key != "tool_call_id"@ && key != "content"@
                    ==> #[trigger] answer.get(key) is None
        }),
{
    lemma_words_differ();
}

/// How a round goes on. The next call is answered from a page that is kept, or else it is fetched.
/// Once every call is answered, the calls and then the answers, in the order of the calls, join the
/// messages, and the request is sent again.
pub proof fn law_round_goes_on(state: Rounds, content: Seq<char>)
    ensures
        state.results.len() < state.calls.len() ==> ({
            let next = state.calls[state.results.len() as int];
            &&& (match cached(state.cache, next.name) {
                Some(page) => state.advanced() == (Rounds {
                    results: state.results.push(call_result(next.call, page)),
                    ..state
                }).advanced(),
                None => state.advanced() == state && state.action() == Action::Fetch(next.args),
            })
            &&& state.fetched(content) == (Rounds {
                cache: state.cache.push((next.name, content)),
                results: state.results.push(call_result(next.call, content)),
                ..state
            })
        }),
        state.results.len() >= state.calls.len() ==> ({
            let after = state.advanced();
            let said = after.messages[state.messages.len() as int];
            &&& after.round == state.round + 1
            &&& after.calls.len() == 0 && after.results.len() == 0
            &&& after.base == state.base && after.cache == state.cache && after.previous_urls
                == state.previous_urls
            &&& after.messages.len() == state.messages.len() + 1 + state.results.len()
            &&& after.messages.take(state.messages.len() as int) == state.messages
            &&& after.messages.skip(state.messages.len() as int + 1) == state.results
            &&& said.text_at("role"@) == Some("assistant"@)
            &&& said.get("content"@) == Some(Jv::Null)
            &&& said.items_at("tool_calls"@) == Some(calls_in(state.calls))
            &&& calls_in(state.calls).len() == state.calls.len()
            &&& forall|i: int|
                0 <= i < state.calls.len() ==> #[trigger] calls_in(state.calls)[i]
                    == state.calls[i].call
            &&& after.action() == Action::Post(after.request())
        }),
{
    lemma_words_differ();
    if state.results.len() >= state.calls.len() {
        let after = state.advanced();
        assert(state.answered_from_cache() == state);
        assert(after.messages.take(state.messages.len() as int) =~= state.messages);
        assert(after.messages.skip(state.messages.len() as int + 1) =~= state.results);
    }
}

} // verus!
