//! The `web_fetch` calls of a chat completion.

use vstd::prelude::*;
use vstd::seq_lib::*;
use vstd::string::*;

use crate::json::{group_json, opt_view, views, Json, Jv};
use crate::response::{completion_calls, first_choice, first_message_of};
use crate::text::{chars_of, join, joined, texts};
use crate::wire::parsed;

verus! {

broadcast use group_json;

/// Whether a tool call is a call of `web_fetch`.
pub open spec fn is_fetch(call: Jv) -> bool {
    match call.get("function"@) {
        Some(function) => function.text_at("name"@) == Some("web_fetch"@),
        None => false,
    }
}

/// The `web_fetch` calls of a completion.
pub open spec fn fetch_calls(cc: Jv) -> Seq<Jv> {
    completion_calls(cc).filter(|c: Jv| is_fetch(c))
}

fn calls_fetch(call: &Json) -> (r: bool)
    ensures
        r == is_fetch(call@),
{
    match call.get("function") {
        Some(function) => function.text_is("name", "web_fetch"),
        None => false,
    }
}

/// The calls of `calls` that are, or are not, calls of `web_fetch`.
fn select_calls(calls: &Vec<Json>, fetches: bool) -> (r: Vec<Json>)
    ensures
        views(r@) == views(calls@).filter(|c: Jv| is_fetch(c) == fetches),
{
    let ghost all = views(calls@);
    let ghost wanted = |c: Jv| is_fetch(c) == fetches;
    let mut r: Vec<Json> = Vec::new();
    let mut i: usize = 0;
    proof {
        reveal(Seq::filter);
        assert(views(r@) =~= all.take(0).filter(wanted));
    }
    while i < calls.len()
        invariant
            i <= calls@.len(),
            all == views(calls@),
            wanted == (|c: Jv| is_fetch(c) == fetches),
            views(r@) == all.take(i as int).filter(wanted),
        decreases calls@.len() - i,
    {
        proof {
            assert(all.take(i + 1) =~= all.take(i as int).push(all[i as int]));
            all.take(i as int).lemma_filter_push(all[i as int], wanted);
        }
        if calls_fetch(&calls[i]) == fetches {
            r.push(calls[i].clone());
        }
        i = i + 1;
    }
    assert(all.take(i as int) =~= all);
    r
}

/// The `web_fetch` calls that the message of a completion makes.
pub fn extract_web_fetch_calls(cc: &Json) -> (r: Vec<Json>)
    ensures
        views(r@) == fetch_calls(cc@),
{
    let none: Vec<Json> = Vec::new();
    proof {
        reveal(Seq::filter);
        assert(Seq::<Jv>::empty().filter(|c: Jv| is_fetch(c)) =~= views(none@));
        assert((|c: Jv| is_fetch(c) == true) =~= (|c: Jv| is_fetch(c)));
    }
    match first_message_of(cc) {
        Some(message) => match message.items_at("tool_calls") {
            Some(calls) => select_calls(calls, true),
            None => none,
        },
        None => none,
    }
}

// ─── Taking the calls out ──────────────────────────────────────────────────

/// A message without its `web_fetch` calls; without the list of its calls, where none is left.
pub open spec fn message_without_fetches(message: Jv, calls: Seq<Jv>) -> Jv {
    let kept = calls.filter(|c: Jv| !is_fetch(c));
    if kept.len() > 0 {
        message.put("tool_calls"@, Jv::Array(kept))
    } else {
        message.without("tool_calls"@)
    }
}

/// A choice without the `web_fetch` calls of its message. Where it ended for its tool calls and
/// none is left, it has ended by itself.
pub open spec fn choice_without_fetches(choice: Jv) -> Jv {
    match choice.get("message"@) {
        Some(message) => match message.items_at("tool_calls"@) {
            Some(calls) => {
                let changed = choice.put("message"@, message_without_fetches(message, calls));
                if calls.filter(|c: Jv| !is_fetch(c)).len() == 0 && choice.text_at("finish_reason"@)
                    == Some("tool_calls"@) {
                    changed.put("finish_reason"@, Jv::Str("stop"@))
                } else {
                    changed
                }
            },
            None => choice,
        },
        None => choice,
    }
}

/// A completion without the `web_fetch` calls of its first choice.
pub open spec fn without_fetches(cc: Jv) -> Jv {
    match cc.items_at("choices"@) {
        Some(choices) => if choices.len() > 0 {
            cc.put(
                "choices"@,
                Jv::Array(choices.update(0, choice_without_fetches(choices[0]))),
            )
        } else {
            cc
        },
        None => cc,
    }
}

fn strip_choice(choice: &Json) -> (r: Json)
    ensures
        r@ == choice_without_fetches(choice@),
{
    let mut changed = choice.clone();
    match choice.get("message") {
        Some(message) => match message.items_at("tool_calls") {
            Some(calls) => {
                let kept = select_calls(calls, false);
                assert((|c: Jv| is_fetch(c) == false) =~= (|c: Jv| !is_fetch(c)));
                let mut rest = message.clone();
                if kept.len() > 0 {
                    rest.set("tool_calls", Json::Array(kept));
                    changed.set("message", rest);
                } else {
                    rest.remove("tool_calls");
                    changed.set("message", rest);
                    if choice.text_is("finish_reason", "tool_calls") {
                        changed.set("finish_reason", Json::text("stop"));
                    }
                }
            },
            None => {},
        },
        None => {},
    }
    changed
}

/// Takes the `web_fetch` calls out of a completion.
pub fn strip_web_fetch_calls(cc: &mut Json)
    ensures
        final(cc)@ == without_fetches(old(cc)@),
{
    let mut choices = match cc.items_at("choices") {
        Some(choices) => if choices.len() > 0 {
            crate::json_ops::copy_items(choices)
        } else {
            return;
        },
        None => {
            return;
        },
    };
    let ghost before = views(choices@);
    assert(before[0] == choices@[0]@);
    let first = strip_choice(&choices[0]);
    choices.set(0, first);
    assert(views(choices@) =~= before.update(0, choice_without_fetches(before[0])));
    cc.set("choices", Json::Array(choices));
}

/// Taking the `web_fetch` calls out leaves none of them, and leaves the other calls as they
/// were, in their order.
pub proof fn law_strip_leaves_no_fetch(cc: Jv)
    ensures
        fetch_calls(without_fetches(cc)) == Seq::<Jv>::empty(),
        completion_calls(without_fetches(cc)) == completion_calls(cc).filter(|c: Jv| !is_fetch(c)),
{
    reveal(Seq::filter);
    reveal_strlit("message");
    reveal_strlit("finish_reason");
    assert("message"@.len() == 7 && "finish_reason"@.len() == 13);
    let calls = completion_calls(cc);
    let kept = calls.filter(|c: Jv| !is_fetch(c));
    let left = completion_calls(without_fetches(cc));
    assert(Seq::<Jv>::empty().filter(|c: Jv| !is_fetch(c)) =~= Seq::empty());
    assert(left =~= kept) by {
        if let Some(choices) = cc.items_at("choices"@) {
            if choices.len() > 0 {
                let after = without_fetches(cc);
                assert(after.items_at("choices"@) == Some(
                    choices.update(0, choice_without_fetches(choices[0])),
                ));
                assert(first_choice(after) == Some(choice_without_fetches(choices[0])));
            }
        }
    }
    assert forall|i: int| 0 <= i < kept.len() implies !is_fetch(#[trigger] kept[i]) by {
        calls.lemma_filter_pred(|c: Jv| !is_fetch(c), i);
    }
    lemma_nothing_left(kept);
}

proof fn lemma_nothing_left(calls: Seq<Jv>)
    requires
        forall|i: int| 0 <= i < calls.len() ==> !is_fetch(#[trigger] calls[i]),
    ensures
        calls.filter(|c: Jv| is_fetch(c)) == Seq::<Jv>::empty(),
    decreases calls.len(),
{
    reveal(Seq::filter);
    if calls.len() > 0 {
        lemma_nothing_left(calls.drop_last());
        assert(!is_fetch(calls[calls.len() - 1]));
    } else {
        assert(calls.filter(|c: Jv| is_fetch(c)) =~= Seq::empty());
    }
}

/// Taking the `web_fetch` calls out of a completion changes nothing beside its choices.
pub proof fn law_strip_keeps_other_members(cc: Jv, key: Seq<char>)
    requires
        key != "choices"@,
    ensures
        without_fetches(cc).get(key) == cc.get(key),
{
}

// ─── Which addresses are asked for ─────────────────────────────────────────

/// Whether `a` comes before `b`, or is `b`, in the order of their characters.
pub open spec fn text_le(a: Seq<char>, b: Seq<char>) -> bool
    decreases a.len(),
{
    if a.len() == 0 {
        true
    } else if b.len() == 0 {
        false
    } else if a[0] != b[0] {
        a[0] < b[0]
    } else {
        text_le(a.skip(1), b.skip(1))
    }
}

/// `sorted` with `x` put in front of the first text that does not come before it.
pub open spec fn insert_text(sorted: Seq<Seq<char>>, x: Seq<char>) -> Seq<Seq<char>>
    decreases sorted.len(),
{
    if sorted.len() == 0 || text_le(sorted.last(), x) {
        sorted.push(x)
    } else {
        insert_text(sorted.drop_last(), x).push(sorted.last())
    }
}

/// The texts of a list in order.
pub open spec fn sorted_texts(list: Seq<Seq<char>>) -> Seq<Seq<char>>
    decreases list.len(),
{
    if list.len() == 0 {
        list
    } else {
        insert_text(sorted_texts(list.drop_last()), list.last())
    }
}

/// The address in the arguments of a `web_fetch` call.
pub open spec fn url_in(arguments: Seq<char>) -> Option<Seq<char>> {
    match parsed(arguments) {
        Some(v) => v.text_at("url"@),
        None => None,
    }
}

/// The address that a call asks for.
pub open spec fn call_url(call: Jv) -> Option<Seq<char>> {
    match call.get("function"@) {
        Some(function) => match function.text_at("arguments"@) {
            Some(arguments) => url_in(arguments),
            None => None,
        },
        None => None,
    }
}

/// The addresses that a list of calls asks for, in the order of the calls.
pub open spec fn call_urls(calls: Seq<Jv>) -> Seq<Seq<char>>
    decreases calls.len(),
{
    if calls.len() == 0 {
        Seq::empty()
    } else {
        let before = call_urls(calls.drop_last());
        match call_url(calls.last()) {
            Some(url) => before.push(url),
            None => before,
        }
    }
}

/// What tells one set of addresses from another: the addresses in order, with bars between.
pub open spec fn urls_key(urls: Seq<Seq<char>>) -> Seq<char> {
    joined(sorted_texts(urls), "|"@)
}

fn comes_first(a: &str, b: &str) -> (r: bool)
    ensures
        r == text_le(a@, b@),
{
    let x = chars_of(a);
    let y = chars_of(b);
    let mut i: usize = 0;
    assert(a@.skip(0) =~= a@);
    assert(b@.skip(0) =~= b@);
    while i < x.len() && i < y.len()
        invariant
            x@ == a@,
            y@ == b@,
            i <= x@.len(),
            i <= y@.len(),
            text_le(a@, b@) == text_le(a@.skip(i as int), b@.skip(i as int)),
        decreases x@.len() - i,
    {
        if x[i] != y[i] {
            return x[i] < y[i];
        }
        assert(a@.skip(i as int).skip(1) =~= a@.skip(i + 1));
        assert(b@.skip(i as int).skip(1) =~= b@.skip(i + 1));
        i = i + 1;
    }
    i == x.len()
}

fn insert_sorted(sorted: &mut Vec<String>, x: String)
    ensures
        texts(final(sorted)@) == insert_text(texts(old(sorted)@), x@),
{
    let ghost before = texts(sorted@);
    let mut at: usize = sorted.len();
    assert(before.take(before.len() as int) =~= before);
    assert(before.skip(before.len() as int) =~= Seq::empty());
    assert(insert_text(before, x@) =~= insert_text(before.take(at as int), x@) + before.skip(
        at as int,
    ));
    while at > 0 && !comes_first(sorted[at - 1].as_str(), x.as_str())
        invariant
            at <= sorted@.len(),
            before == texts(sorted@),
            insert_text(before, x@) == insert_text(before.take(at as int), x@) + before.skip(
                at as int,
            ),
        decreases at,
    {
        proof {
            let head = before.take(at as int);
            assert(head.last() == sorted@[at - 1]@);
            assert(head.drop_last() =~= before.take(at - 1));
            assert(insert_text(head, x@) + before.skip(at as int) =~= insert_text(
                before.take(at - 1),
                x@,
            ) + before.skip(at - 1));
        }
        at = at - 1;
    }
    let ghost y = x@;
    proof {
        let head = before.take(at as int);
        if at > 0 {
            assert(head.last() == sorted@[at - 1]@);
        }
    }
    sorted.insert(at, x);
    assert(texts(sorted@) =~= before.take(at as int).push(y) + before.skip(at as int));
}

/// What tells one list of addresses from another: the addresses in order, with bars between.
pub fn key_of_urls(urls: &Vec<String>) -> (r: String)
    ensures
        r@ == urls_key(texts(urls@)),
{
    let ghost all = texts(urls@);
    let mut sorted: Vec<String> = Vec::new();
    let mut i: usize = 0;
    assert(texts(sorted@) =~= sorted_texts(all.take(0)));
    while i < urls.len()
        invariant
            i <= urls@.len(),
            all == texts(urls@),
            texts(sorted@) == sorted_texts(all.take(i as int)),
        decreases urls@.len() - i,
    {
        assert(all.take(i + 1).drop_last() =~= all.take(i as int));
        assert(all.take(i + 1).last() == urls@[i as int]@);
        insert_sorted(&mut sorted, urls[i].clone());
        i = i + 1;
    }
    assert(all.take(i as int) =~= all);
    join(&sorted, "|")
}

/// What tells the addresses of one list of `web_fetch` calls from those of another.
pub fn web_fetch_urls_key(calls: &Vec<Json>) -> (r: String)
    ensures
        r@ == urls_key(call_urls(views(calls@))),
{
    let ghost all = views(calls@);
    let mut urls: Vec<String> = Vec::new();
    let mut i: usize = 0;
    assert(texts(urls@) =~= call_urls(all.take(0)));
    while i < calls.len()
        invariant
            i <= calls@.len(),
            all == views(calls@),
            texts(urls@) == call_urls(all.take(i as int)),
        decreases calls@.len() - i,
    {
        assert(all.take(i + 1).drop_last() =~= all.take(i as int));
        let ghost before = texts(urls@);
        match call_url_of(&calls[i]) {
            Some(url) => {
                let ghost u = url@;
                urls.push(url);
                assert(texts(urls@) =~= before.push(u));
            },
            None => {},
        }
        i = i + 1;
    }
    assert(all.take(i as int) =~= all);
    key_of_urls(&urls)
}

fn url_of(arguments: &str) -> (r: Option<String>)
    ensures
        (match r {
            Some(url) => url_in(arguments@) == Some(url@),
            None => url_in(arguments@) is None,
        }),
{
    match Json::parse(arguments) {
        Some(v) => match v.text_at("url") {
            Some(url) => Some(url.to_owned()),
            None => None,
        },
        None => None,
    }
}

fn call_url_of(call: &Json) -> (r: Option<String>)
    ensures
        (match r {
            Some(url) => call_url(call@) == Some(url@),
            None => call_url(call@) is None,
        }),
{
    match call.get("function") {
        Some(function) => match function.text_at("arguments") {
            Some(arguments) => url_of(arguments),
            None => None,
        },
        None => None,
    }
}

/// The address that a fetch is known by, given what its arguments stand for: `unknown`, where
/// they give none.
pub open spec fn name_in(arguments: Option<Jv>) -> Seq<char> {
    match arguments {
        Some(v) => v.text_or("url"@, "unknown"@),
        None => "unknown"@,
    }
}

/// The address that a fetch is known by: `unknown`, where its arguments give none.
pub open spec fn fetch_name(arguments: Seq<char>) -> Seq<char> {
    name_in(parsed(arguments))
}

/// The address that a fetch is known by, given what its arguments stand for.
pub fn name_of_fetch(arguments: Option<&Json>) -> (r: String)
    ensures
        r@ == name_in(opt_view(arguments)),
{
    match arguments {
        Some(v) => v.text_or("url", "unknown").to_owned(),
        None => "unknown".to_owned(),
    }
}

/// The address in the arguments of a `web_fetch` call, or `unknown`.
pub fn get_fetch_url(args_str: &str) -> (r: String)
    ensures
        r@ == fetch_name(args_str@),
{
    match Json::parse(args_str) {
        Some(v) => name_of_fetch(Some(&v)),
        None => name_of_fetch(None),
    }
}

// ─── The order of the addresses does not matter ────────────────────────────

proof fn lemma_text_le_total(a: Seq<char>, b: Seq<char>)
    ensures
        text_le(a, b) || text_le(b, a),
        text_le(a, b) && text_le(b, a) ==> a == b,
    decreases a.len(),
{
    if a.len() > 0 && b.len() > 0 && a[0] == b[0] {
        lemma_text_le_total(a.skip(1), b.skip(1));
        if text_le(a, b) && text_le(b, a) {
            assert(a =~= seq![a[0]] + a.skip(1));
            assert(b =~= seq![b[0]] + b.skip(1));
        }
    } else if a.len() == 0 && b.len() == 0 {
        assert(a =~= b);
    }
}

proof fn lemma_text_le_transitive(a: Seq<char>, b: Seq<char>, c: Seq<char>)
    requires
        text_le(a, b),
        text_le(b, c),
    ensures
        text_le(a, c),
    decreases a.len(),
{
    if a.len() > 0 && b.len() > 0 && c.len() > 0 && a[0] == b[0] && b[0] == c[0] {
        lemma_text_le_transitive(a.skip(1), b.skip(1), c.skip(1));
    }
}

/// Whether every text of a list comes before those behind it, or is one of them.
pub open spec fn in_order(list: Seq<Seq<char>>) -> bool {
    forall|i: int, j: int|
        0 <= i < j < list.len() ==> text_le(#[trigger] list[i], #[trigger] list[j])
}

proof fn lemma_insert_text(sorted: Seq<Seq<char>>, x: Seq<char>)
    requires
        in_order(sorted),
    ensures
        in_order(insert_text(sorted, x)),
        insert_text(sorted, x).to_multiset() == sorted.to_multiset().insert(x),
        insert_text(sorted, x).len() == sorted.len() + 1,
    decreases sorted.len(),
{
    broadcast use group_to_multiset_ensures;

    if sorted.len() == 0 || text_le(sorted.last(), x) {
        let out = sorted.push(x);
        assert forall|i: int, j: int| 0 <= i < j < out.len() implies text_le(
            #[trigger] out[i],
            #[trigger] out[j],
        ) by {
            if j == sorted.len() && i < sorted.len() - 1 {
                assert(text_le(sorted[i], sorted[sorted.len() - 1]));
                lemma_text_le_transitive(sorted[i], sorted.last(), x);
            }
        }
    } else {
        let head = sorted.drop_last();
        let last = sorted.last();
        lemma_insert_text(head, x);
        lemma_text_le_total(last, x);
        let mid = insert_text(head, x);
        let out = mid.push(last);
        assert(sorted =~= head.push(last));
        assert(out.to_multiset() =~= sorted.to_multiset().insert(x));
        assert forall|i: int, j: int| 0 <= i < j < out.len() implies text_le(
            #[trigger] out[i],
            #[trigger] out[j],
        ) by {
            if j == mid.len() {
                assert(mid.to_multiset().contains(mid[i])) by {
                    assert(mid.contains(mid[i]));
                }
                if mid[i] != x {
                    assert(head.to_multiset().contains(mid[i]));
                    assert(head.contains(mid[i]));
                    let k = choose|k: int| 0 <= k < head.len() && head[k] == mid[i];
                    assert(text_le(sorted[k], sorted[sorted.len() - 1]));
                }
            }
        }
    }
}

pub proof fn lemma_sorted_texts(list: Seq<Seq<char>>)
    ensures
        in_order(sorted_texts(list)),
        sorted_texts(list).to_multiset() == list.to_multiset(),
        sorted_texts(list).len() == list.len(),
    decreases list.len(),
{
    broadcast use group_to_multiset_ensures;

    if list.len() > 0 {
        lemma_sorted_texts(list.drop_last());
        lemma_insert_text(sorted_texts(list.drop_last()), list.last());
        assert(list =~= list.drop_last().push(list.last()));
    }
}

proof fn lemma_in_order_unique(a: Seq<Seq<char>>, b: Seq<Seq<char>>)
    requires
        in_order(a),
        in_order(b),
        a.to_multiset() == b.to_multiset(),
    ensures
        a == b,
    decreases a.len(),
{
    broadcast use group_to_multiset_ensures;

    assert(a.len() == a.to_multiset().len());
    assert(b.len() == b.to_multiset().len());
    if a.len() > 0 {
        let x = a.last();
        let y = b.last();
        assert(b.contains(x)) by {
            assert(a.contains(x));
            assert(b.to_multiset().contains(x));
        }
        assert(a.contains(y)) by {
            assert(b.contains(y));
            assert(a.to_multiset().contains(y));
        }
        let i = choose|i: int| 0 <= i < b.len() && b[i] == x;
        let j = choose|j: int| 0 <= j < a.len() && a[j] == y;
        lemma_text_le_total(x, y);
        lemma_text_le_total(x, x);
        assert(text_le(x, y)) by {
            if i < b.len() - 1 {
                assert(text_le(b[i], b[b.len() - 1]));
            }
        }
        assert(text_le(y, x)) by {
            if j < a.len() - 1 {
                assert(text_le(a[j], a[a.len() - 1]));
            }
        }
        assert(x == y);
        assert(a =~= a.drop_last().push(x));
        assert(b =~= b.drop_last().push(y));
        assert(a.drop_last().to_multiset() =~= a.to_multiset().remove(x));
        assert(b.drop_last().to_multiset() =~= b.to_multiset().remove(x));
        lemma_in_order_unique(a.drop_last(), b.drop_last());
    } else {
        assert(a =~= b);
    }
}

/// Two lists of calls that ask for the same addresses, each as often, have one key, whatever
/// the order of the calls.
pub proof fn law_urls_key_ignores_order(a: Seq<Seq<char>>, b: Seq<Seq<char>>)
    requires
        a.to_multiset() == b.to_multiset(),
    ensures
        urls_key(a) == urls_key(b),
{
    lemma_sorted_texts(a);
    lemma_sorted_texts(b);
    lemma_in_order_unique(sorted_texts(a), sorted_texts(b));
}

} // verus!
