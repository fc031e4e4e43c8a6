//! The loop in which the model asks for pages and gets them.
//!
//! The loop decides; what it asks for is done outside: a completion is had from the upstream, or
//! a page is fetched, and handed back.

use vstd::prelude::*;
use vstd::string::*;

use crate::fetch_calls::{
    call_urls, extract_web_fetch_calls, fetch_calls, law_strip_leaves_no_fetch, name_in,
    name_of_fetch, strip_web_fetch_calls, urls_key, web_fetch_urls_key, without_fetches,
};
use crate::json::{empty_object, group_json, views, Json, Jv};
use crate::json_ops::copy_items;
use crate::request::{calling_message, tool_message, tool_result};
use crate::response::{function_text, function_text_of};
use crate::text::same;
use crate::web_fetch::MAX_FETCH_LOOPS;
use crate::wire::parsed;

verus! {

broadcast use group_json;

/// What the loop asks for next.
pub enum FetchAction {
    /// A completion for this request.
    Post(Json),
    /// A fetch with these arguments.
    Fetch(Json),
    /// Nothing: this is the completion that it ends with.
    Done(Json),
}

/// What the loop asks for next, as mathematics sees it.
#[verifier::ext_equal]
pub enum Action {
    Post(Jv),
    Fetch(Jv),
    Done(Jv),
}

impl View for FetchAction {
    type V = Action;

    open spec fn view(&self) -> Action {
        match *self {
            FetchAction::Post(v) => Action::Post(v@),
            FetchAction::Fetch(v) => Action::Fetch(v@),
            FetchAction::Done(v) => Action::Done(v@),
        }
    }
}

/// A fetch that the model asks for.
pub struct FetchCall {
    /// The call of the model.
    pub call: Json,
    /// The address that the fetch is known by.
    pub name: String,
    /// What the fetch is asked with.
    pub args: Json,
}

/// A fetch that the model asks for, as mathematics sees it.
#[verifier::ext_equal]
pub struct Asked {
    pub call: Jv,
    pub name: Seq<char>,
    pub args: Jv,
}

impl View for FetchCall {
    type V = Asked;

    open spec fn view(&self) -> Asked {
        Asked { call: self.call@, name: self.name@, args: self.args@ }
    }
}

/// The fetches of a list.
pub open spec fn asked_views(calls: Seq<FetchCall>) -> Seq<Asked> {
    Seq::new(calls.len(), |i: int| calls[i]@)
}

/// The calls of a list of fetches.
pub open spec fn calls_in(asked: Seq<Asked>) -> Seq<Jv> {
    asked.map_values(|a: Asked| a.call)
}

/// The state of the loop.
#[verifier::ext_equal]
pub struct Rounds {
    /// The request, but for its messages.
    pub base: Jv,
    /// The conversation.
    pub messages: Seq<Jv>,
    /// How many rounds of fetches are over.
    pub round: nat,
    /// What has been fetched, by the address it is known by.
    pub cache: Seq<(Seq<char>, Seq<char>)>,
    /// What tells the addresses of the round before.
    pub previous_urls: Seq<char>,
    /// The fetches of the round that is under way, and the answers to the first of them.
    pub calls: Seq<Asked>,
    pub results: Seq<Jv>,
}

/// What has been fetched from an address.
pub open spec fn cached(cache: Seq<(Seq<char>, Seq<char>)>, name: Seq<char>) -> Option<Seq<char>>
    decreases cache.len(),
{
    if cache.len() == 0 {
        None
    } else if cache.last().0 == name {
        Some(cache.last().1)
    } else {
        cached(cache.drop_last(), name)
    }
}

/// The arguments of a call, as a text.
pub open spec fn call_arguments(call: Jv) -> Seq<char> {
    function_text(call, "arguments"@, "{}"@)
}

/// What a fetch is asked with, given what the arguments of its call stand for: these, and
/// nothing where they are no JSON text.
pub open spec fn arguments_in(arguments: Option<Jv>) -> Jv {
    match arguments {
        Some(v) => v,
        None => empty_object(),
    }
}

/// The fetch that a call asks for, given what its arguments stand for.
pub open spec fn asked_with(call: Jv, arguments: Option<Jv>) -> Asked {
    Asked { call, name: name_in(arguments), args: arguments_in(arguments) }
}

/// The fetch that a call asks for.
pub open spec fn asked_by(call: Jv) -> Asked {
    asked_with(call, parsed(call_arguments(call)))
}

/// The answer to a call.
pub open spec fn call_result(call: Jv, content: Seq<char>) -> Jv {
    tool_message(call.text_or("id"@, ""@), content)
}

/// Whether a message is an answer to a call.
pub open spec fn answers(message: Jv, call: Jv) -> bool {
    exists|content: Seq<char>| message == #[trigger] call_result(call, content)
}

impl Rounds {
    /// The request of this round.
    pub open spec fn request(self) -> Jv {
        self.base.put("messages"@, Jv::Array(self.messages)).put("stream"@, Jv::Bool(false))
    }

    /// The call that waits for an answer.
    pub open spec fn waiting(self) -> Asked {
        self.calls[self.results.len() as int]
    }

    /// Whether the loop is in order.
    pub open spec fn wf(self) -> bool {
        &&& self.base.is_settable()
        &&& self.round <= MAX_FETCH_LOOPS
        &&& self.results.len() <= self.calls.len()
        &&& self.fetching() ==> self.round < MAX_FETCH_LOOPS
        &&& forall|i: int|
            0 <= i < self.results.len() ==> answers(#[trigger] self.results[i], self.calls[i].call)
    }

    /// Whether a fetch is under way.
    pub open spec fn fetching(self) -> bool {
        self.results.len() < self.calls.len()
    }

    /// The state with the answer to the call that waits.
    pub open spec fn answered(self, content: Seq<char>) -> Rounds {
        Rounds { results: self.results.push(call_result(self.waiting().call, content)), ..self }
    }

    /// The state with every call answered that what has been fetched answers, up to the first
    /// that it does not.
    pub open spec fn answered_from_cache(self) -> Rounds
        decreases self.calls.len() - self.results.len(),
    {
        if self.fetching() {
            match cached(self.cache, self.waiting().name) {
                Some(content) => self.answered(content).answered_from_cache(),
                None => self,
            }
        } else {
            self
        }
    }

    /// The state once all calls of a round are answered: the conversation has the calls and
    /// their answers.
    pub open spec fn next_round(self) -> Rounds {
        Rounds {
            messages: self.messages.push(calling_message(calls_in(self.calls))) + self.results,
            round: self.round + 1,
            calls: Seq::empty(),
            results: Seq::empty(),
            ..self
        }
    }

    /// The state as far as it gets without a fetch.
    pub open spec fn advanced(self) -> Rounds {
        let s = self.answered_from_cache();
        if s.fetching() {
            s
        } else {
            s.next_round()
        }
    }

    /// What an advanced state asks for.
    pub open spec fn action(self) -> Action {
        if self.fetching() {
            Action::Fetch(self.waiting().args)
        } else {
            Action::Post(self.request())
        }
    }

    /// Whether the loop ends with a completion that asks for the given fetches: there are none, or
    /// the model has asked often enough, or asks for what it has just had.
    pub open spec fn ends_at(self, asked: Seq<Asked>, urls: Seq<char>) -> bool {
        asked.len() == 0 || self.round == MAX_FETCH_LOOPS || urls == self.previous_urls
    }

    /// The state in which the given fetches begin.
    pub open spec fn began_with(self, asked: Seq<Asked>, urls: Seq<char>) -> Rounds {
        Rounds { previous_urls: urls, calls: asked, results: Seq::empty(), ..self }
    }

    /// Whether the loop ends with a completion.
    pub open spec fn ends_with(self, cc: Jv) -> bool {
        self.ends_at(asked_in(cc), urls_key(call_urls(fetch_calls(cc))))
    }

    /// The state in which the fetches of a completion begin.
    pub open spec fn began(self, cc: Jv) -> Rounds {
        self.began_with(asked_in(cc), urls_key(call_urls(fetch_calls(cc))))
    }

    /// The completion that the loop ends with.
    pub open spec fn last_completion(self, cc: Jv) -> Jv {
        if fetch_calls(cc).len() > 0 {
            without_fetches(cc)
        } else {
            cc
        }
    }

    /// The state with what has been fetched for the call that waits.
    pub open spec fn fetched(self, content: Seq<char>) -> Rounds {
        Rounds { cache: self.cache.push((self.waiting().name, content)), ..self }.answered(
            content,
        )
    }
}

/// The fetches that a completion asks for.
pub open spec fn asked_in(cc: Jv) -> Seq<Asked> {
    fetch_calls(cc).map_values(|call: Jv| asked_by(call))
}

/// The loop in which the model asks for pages and gets them.
pub struct FetchLoop {
    base: Json,
    messages: Vec<Json>,
    round: usize,
    cache: Vec<(String, String)>,
    previous_urls: String,
    calls: Vec<FetchCall>,
    results: Vec<Json>,
}

pub open spec fn cache_view(cache: Seq<(String, String)>) -> Seq<(Seq<char>, Seq<char>)> {
    Seq::new(cache.len(), |i: int| (cache[i].0@, cache[i].1@))
}

impl View for FetchLoop {
    type V = Rounds;

    closed spec fn view(&self) -> Rounds {
        Rounds {
            base: self.base@,
            messages: views(self.messages@),
            round: self.round as nat,
            cache: cache_view(self.cache@),
            previous_urls: self.previous_urls@,
            calls: asked_views(self.calls@),
            results: views(self.results@),
        }
    }
}

fn find_cached(cache: &Vec<(String, String)>, name: &str) -> (r: Option<String>)
    ensures
        (match r {
            Some(content) => cached(cache_view(cache@), name@) == Some(content@),
            None => cached(cache_view(cache@), name@) is None,
        }),
{
    let ghost all = cache_view(cache@);
    let mut i: usize = cache.len();
    assert(all.take(i as int) =~= all);
    while i > 0
        invariant
            i <= cache@.len(),
            all == cache_view(cache@),
            cached(all, name@) == cached(all.take(i as int), name@),
        decreases i,
    {
        assert(all.take(i as int).drop_last() =~= all.take(i - 1));
        assert(all.take(i as int).last() == all[i - 1]);
        i = i - 1;
        if same(cache[i].0.as_str(), name) {
            return Some(cache[i].1.clone());
        }
    }
    None
}

impl FetchLoop {
    /// Whether the loop is in order.
    pub open spec fn wf(&self) -> bool {
        self@.wf()
    }

    /// Starts the loop, with a request and the conversation that it is about.
    pub fn start(base_req: Json, initial_messages: Vec<Json>) -> (r: FetchLoop)
        requires
            base_req@.is_settable(),
        ensures
            r.wf(),
            r@ == (Rounds {
                base: base_req@,
                messages: views(initial_messages@),
                round: 0,
                cache: Seq::empty(),
                previous_urls: Seq::empty(),
                calls: Seq::empty(),
                results: Seq::empty(),
            }),
    {
        let r = FetchLoop {
            base: base_req,
            messages: initial_messages,
            round: 0,
            cache: Vec::new(),
            previous_urls: String::new(),
            calls: Vec::new(),
            results: Vec::new(),
        };
        assert(r@ =~= (Rounds {
            base: base_req@,
            messages: views(initial_messages@),
            round: 0,
            cache: Seq::empty(),
            previous_urls: Seq::empty(),
            calls: Seq::empty(),
            results: Seq::empty(),
        }));
        r
    }

    /// The request of this round.
    pub fn request(&self) -> (r: Json)
        requires
            self.wf(),
        ensures
            r@ == self@.request(),
    {
        let mut r = self.base.clone();
        r.set("messages", Json::Array(copy_items(&self.messages)));
        r.set("stream", Json::Bool(false));
        r
    }

    /// Answers the call that waits.
    fn answer(&mut self, content: &str)
        requires
            old(self).wf(),
            old(self)@.fetching(),
        ensures
            final(self).wf(),
            final(self)@ == old(self)@.answered(content@),
    {
        let ghost before = self@;
        let call = &self.calls[self.results.len()].call;
        assert(call@ == before.waiting().call);
        let result = tool_result(call.text_or("id", ""), content);
        self.results.push(result);
        assert(self@ =~= before.answered(content@));
    }

    /// Gets as far as it goes without a fetch; says what is asked for then.
    fn advance(&mut self) -> (r: FetchAction)
        requires
            old(self).wf(),
            old(self)@.round < MAX_FETCH_LOOPS,
        ensures
            final(self).wf(),
            final(self)@ == old(self)@.advanced(),
            r@ == final(self)@.action(),
    {
        let ghost start = self@;
        while self.results.len() < self.calls.len()
            invariant
                self.wf(),
                start == old(self)@,
                self@.round == start.round,
                start.round < MAX_FETCH_LOOPS,
                start.answered_from_cache() == self@.answered_from_cache(),
            decreases self.calls@.len() - self.results@.len(),
        {
            let ghost here = self@;
            let asked = &self.calls[self.results.len()];
            assert(asked@ == here.waiting());
            match find_cached(&self.cache, asked.name.as_str()) {
                Some(content) => {
                    self.answer(content.as_str());
                },
                None => {
                    return FetchAction::Fetch(asked.args.clone());
                },
            }
        }
        let ghost done = self@;
        assert(done.answered_from_cache() == done);
        let mut calls: Vec<Json> = Vec::new();
        let mut i: usize = 0;
        while i < self.calls.len()
            invariant
                i <= self.calls@.len(),
                calls@.len() == i,
                forall|k: int| 0 <= k < i ==> (#[trigger] calls@[k])@ == self.calls@[k].call@,
            decreases self.calls@.len() - i,
        {
            calls.push(self.calls[i].call.clone());
            i = i + 1;
        }
        assert(views(calls@) =~= calls_in(done.calls));
        self.calls = Vec::new();
        self.messages.push(
            Json::object().with("role", Json::text("assistant")).with("content", Json::Null).with(
                "tool_calls",
                Json::Array(calls),
            ),
        );
        self.messages.append(&mut self.results);
        self.round = self.round + 1;
        assert(self@ =~= done.next_round());
        FetchAction::Post(self.request())
    }

    /// Takes in a completion, given the fetches that it asks for and what tells their addresses.
    pub fn completion_with(&mut self, cc: Json, asked: Vec<FetchCall>, urls: String) -> (r:
        FetchAction)
        requires
            old(self).wf(),
        ensures
            final(self).wf(),
            old(self)@.ends_at(asked_views(asked@), urls@) ==> r@ == Action::Done(
                if asked@.len() > 0 {
                    without_fetches(cc@)
                } else {
                    cc@
                },
            ) && final(self)@ == old(self)@,
            !old(self)@.ends_at(asked_views(asked@), urls@) ==> final(self)@
                == old(self)@.began_with(asked_views(asked@), urls@).advanced()
                && r@ == final(self)@.action(),
    {
        let ghost before = self@;
        let ghost fetches = asked_views(asked@);
        let stuck = asked.len() > 0 && same(urls.as_str(), self.previous_urls.as_str());
        if asked.len() == 0 || self.round == MAX_FETCH_LOOPS || stuck {
            let mut last = cc;
            if asked.len() > 0 {
                strip_web_fetch_calls(&mut last);
            }
            return FetchAction::Done(last);
        }
        self.previous_urls = urls;
        self.calls = asked;
        self.results = Vec::new();
        assert(self@ =~= before.began_with(fetches, urls@));
        self.advance()
    }

    /// Takes in the completion that was asked for.
    pub fn completion(&mut self, cc: Json) -> (r: FetchAction)
        requires
            old(self).wf(),
        ensures
            final(self).wf(),
            old(self)@.ends_with(cc@) ==> r@ == Action::Done(old(self)@.last_completion(cc@))
                && final(self)@ == old(self)@,
            !old(self)@.ends_with(cc@) ==> final(self)@ == old(self)@.began(cc@).advanced() && r@
                == final(self)@.action(),
    {
        let calls = extract_web_fetch_calls(&cc);
        let urls = web_fetch_urls_key(&calls);
        let asked = read_fetches(&calls);
        self.completion_with(cc, asked, urls)
    }

    /// Takes in what was fetched for the call that waits.
    pub fn fetched(&mut self, content: String) -> (r: FetchAction)
        requires
            old(self).wf(),
            old(self)@.fetching(),
        ensures
            final(self).wf(),
            final(self)@ == old(self)@.fetched(content@).advanced(),
            r@ == final(self)@.action(),
    {
        let ghost before = self@;
        let name = self.calls[self.results.len()].name.clone();
        let ghost pair = (name@, content@);
        assert(name@ == before.waiting().name);
        self.cache.push((name, content.clone()));
        assert(self@ =~= (Rounds { cache: before.cache.push(pair), ..before }));
        self.answer(content.as_str());
        self.advance()
    }
}

/// The fetch that a call asks for, given what its arguments stand for.
pub fn fetch_asked(call: Json, arguments: Option<Json>) -> (r: FetchCall)
    ensures
        r@ == asked_with(
            call@,
            (match arguments {
                Some(v) => Some(v@),
                None => None,
            }),
        ),
{
    match arguments {
        Some(v) => {
            let name = name_of_fetch(Some(&v));
            FetchCall { call, name, args: v }
        },
        None => FetchCall { call, name: name_of_fetch(None), args: Json::object() },
    }
}

fn read_fetches(calls: &Vec<Json>) -> (r: Vec<FetchCall>)
    ensures
        asked_views(r@) == views(calls@).map_values(|call: Jv| asked_by(call)),
{
    let ghost all = views(calls@);
    let mut r: Vec<FetchCall> = Vec::new();
    let mut i: usize = 0;
    while i < calls.len()
        invariant
            i <= calls@.len(),
            all == views(calls@),
            r@.len() == i,
            forall|k: int| 0 <= k < i ==> (#[trigger] r@[k])@ == asked_by(all[k]),
        decreases calls@.len() - i,
    {
        let arguments = Json::parse(function_text_of(&calls[i], "arguments", "{}"));
        r.push(fetch_asked(calls[i].clone(), arguments));
        i = i + 1;
    }
    assert(asked_views(r@) =~= all.map_values(|call: Jv| asked_by(call)));
    r
}

// ─── Laws ──────────────────────────────────────────────────────────────────

/// The completion that the loop ends with asks for no fetch.
pub proof fn law_last_completion_fetches_nothing(state: Rounds, cc: Jv)
    ensures
        fetch_calls(state.last_completion(cc)).len() == 0,
{
    law_strip_leaves_no_fetch(cc);
}

proof fn lemma_answered_from_cache(state: Rounds)
    requires
        state.wf(),
    ensures
        ({
            let s = state.answered_from_cache();
            &&& s.wf()
            &&& s.base == state.base
            &&& s.messages == state.messages
            &&& s.round == state.round
            &&& s.cache == state.cache
            &&& s.previous_urls == state.previous_urls
            &&& s.calls == state.calls
            &&& state.results.is_prefix_of(s.results)
            &&& s.fetching() ==> cached(s.cache, s.waiting().name) is None
        }),
    decreases state.calls.len() - state.results.len(),
{
    if state.fetching() {
        match cached(state.cache, state.waiting().name) {
            Some(content) => {
                let next = state.answered(content);
                lemma_answered_from_cache(next);
                let s = next.answered_from_cache();
                assert(next.results.subrange(0, state.results.len() as int) =~= state.results);
                assert(s.results.subrange(0, state.results.len() as int) =~= state.results) by {
                    assert forall|i: int| 0 <= i < state.results.len() implies s.results[i]
                        == state.results[i] by {
                        assert(s.results[i] == next.results[i]);
                    }
                }
            },
            None => {
                assert(state.results.subrange(0, state.results.len() as int) =~= state.results);
            },
        }
    } else {
        assert(state.results.subrange(0, state.results.len() as int) =~= state.results);
    }
}

/// The loop asks for a page only where nothing has been fetched from its address yet, and
/// remembers what it gets: so no address is fetched from twice.
pub proof fn law_no_address_is_fetched_twice(state: Rounds, content: Seq<char>)
    requires
        state.wf(),
    ensures
        state.advanced().fetching() ==> cached(
            state.advanced().cache,
            state.advanced().waiting().name,
        ) is None,
        state.advanced().cache == state.cache,
        state.fetching() ==> cached(
            state.fetched(content).cache,
            state.waiting().name,
        ) == Some(content),
        state.fetching() ==> forall|name: Seq<char>|
            name != state.waiting().name ==> #[trigger] cached(
                state.fetched(content).cache,
                name,
            ) == cached(state.cache, name),
{
    lemma_answered_from_cache(state);
    let s = state.answered_from_cache();
    if state.fetching() {
        let pair = (state.waiting().name, content);
        assert(state.fetched(content).cache == state.cache.push(pair));
        assert(state.cache.push(pair).drop_last() =~= state.cache);
    }
}

/// A round that is over adds to the conversation the calls of the model and one answer to each
/// of them, and nothing else.
pub proof fn law_round_adds_calls_and_answers(state: Rounds)
    requires
        state.wf(),
    ensures
        !state.advanced().fetching() && state.calls.len() > 0 ==> ({
            let after = state.advanced();
            &&& after.round == state.round + 1
            &&& after.messages.len() == state.messages.len() + 1 + state.calls.len()
            &&& state.messages.is_prefix_of(after.messages)
            &&& after.messages[state.messages.len() as int] == calling_message(
                calls_in(state.calls),
            )
            &&& forall|i: int|
                0 <= i < state.calls.len() ==> answers(
                    #[trigger] after.messages[state.messages.len() + 1 + i],
                    state.calls[i].call,
                )
            &&& after.calls.len() == 0
        }),
{
    lemma_answered_from_cache(state);
    let s = state.answered_from_cache();
    let after = state.advanced();
    if s.fetching() {
        assert(after == s);
    }
    assert(after.messages.subrange(0, state.messages.len() as int) =~= state.messages);
}

/// The loop goes to the upstream for no more than a fixed number of completions: it starts with
/// none of its rounds over, every further request comes with one more of them over, and once
/// all are over it ends with whatever completion comes.
pub proof fn law_loop_ends(state: Rounds, cc: Jv, content: Seq<char>)
    requires
        state.wf(),
    ensures
        state.round == MAX_FETCH_LOOPS ==> state.ends_with(cc),
        !state.ends_with(cc) ==> ({
            let next = state.began(cc).advanced();
            next.round == (if next.fetching() {
                state.round
            } else {
                state.round + 1
            }) && next.round <= MAX_FETCH_LOOPS
        }),
        state.fetching() ==> ({
            let next = state.fetched(content).advanced();
            next.round == (if next.fetching() {
                state.round
            } else {
                state.round + 1
            }) && next.round <= MAX_FETCH_LOOPS
        }),
{
    if !state.ends_with(cc) {
        lemma_answered_from_cache(state.began(cc));
    }
    if state.fetching() {
        lemma_answered_from_cache(state.fetched(content));
    }
}

/// A model that asks for the same addresses twice in a row gets no further fetch: the loop
/// remembers, through all fetches of a round, what the model asked for last.
pub proof fn law_repetition_ends_the_loop(
    state: Rounds,
    later: Rounds,
    cc: Jv,
    again: Jv,
    content: Seq<char>,
)
    requires
        state.wf(),
    ensures
        state.advanced().previous_urls == state.previous_urls,
        state.fetched(content).previous_urls == state.previous_urls,
        later.previous_urls == state.began(cc).previous_urls && urls_key(
            call_urls(fetch_calls(again)),
        ) == urls_key(call_urls(fetch_calls(cc))) ==> later.ends_with(again),
{
    lemma_answered_from_cache(state);
}

} // verus!
