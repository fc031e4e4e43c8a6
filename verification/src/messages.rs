//! The repair of a chat message list before it goes upstream: tool results go behind the
//! assistant message that asked for them, consecutive messages of one role are merged, old tool
//! outputs are cut short, long conversations are trimmed, and orphan tool results are dropped.

use vstd::prelude::*;
use vstd::string::*;
use vstd::utf8::*;

use crate::json::{empty_object, group_json, views, Json, Jv};
use crate::text::{decimal, decimal_text, first_chars};

verus! {

broadcast use group_json;

pub const TOOL_OUTPUT_MAX: usize = 2_000;

pub const KEEP_RECENT_FULL: usize = 10;

pub const MAX_MESSAGES: usize = 55;

// ─── What a message is ─────────────────────────────────────────────────────

/// A tool result.
pub open spec fn is_tool(m: Jv) -> bool {
    m.text_at("role"@) == Some("tool"@)
}

/// An assistant message that makes tool calls.
pub open spec fn is_caller(m: Jv) -> bool {
    m.text_at("role"@) == Some("assistant"@) && m.get("tool_calls"@) is Some
}

/// Whether one of the tool calls of `caller` has the id `id`.
pub open spec fn asks_for(caller: Jv, id: Seq<char>) -> bool {
    exists|k: int|
        0 <= k < caller.items_or_none("tool_calls"@).len() && (
        #[trigger] caller.items_or_none("tool_calls"@)[k]).text_at("id"@) == Some(id)
}

/// Whether `m` is the result of one of the tool calls of `caller`.
pub open spec fn answers(caller: Jv, m: Jv) -> bool {
    is_tool(m) && asks_for(caller, m.text_or("tool_call_id"@, ""@))
}

fn tool(m: &Json) -> (r: bool)
    ensures
        r == is_tool(m@),
{
    m.text_is("role", "tool")
}

fn makes_calls(m: &Json) -> (r: bool)
    ensures
        r == is_caller(m@),
{
    m.text_is("role", "assistant") && m.get("tool_calls").is_some()
}

fn answered_by(caller: &Json, m: &Json) -> (r: bool)
    ensures
        r == answers(caller@, m@),
{
    if !tool(m) {
        return false;
    }
    let id = m.text_or("tool_call_id", "");
    match caller.items_at("tool_calls") {
        Some(calls) => {
            let mut k: usize = 0;
            while k < calls.len()
                invariant
                    k <= calls@.len(),
                    is_tool(m@),
                    id@ == m@.text_or("tool_call_id"@, ""@),
                    caller@.items_or_none("tool_calls"@) == views(calls@),
                    forall|j: int| 0 <= j < k ==> (#[trigger] calls@[j])@.text_at("id"@) != Some(id@),
                decreases calls@.len() - k,
            {
                if calls[k].text_is("id", id) {
                    proof {
                        assert(caller@.items_or_none("tool_calls"@)[k as int].text_at("id"@) == Some(
                            id@,
                        ));
                    }
                    return true;
                }
                k = k + 1;
            }
            proof {
                assert forall|j: int|
                    0 <= j < caller@.items_or_none("tool_calls"@).len() implies (
                #[trigger] caller@.items_or_none("tool_calls"@)[j]).text_at("id"@) != Some(id@) by {
                    assert(calls@[j]@.text_at("id"@) != Some(id@));
                }
            }
            false
        },
        None => false,
    }
}

// ─── Repairing the order ───────────────────────────────────────────────────

/// The last position of an assistant message that makes tool calls.
pub open spec fn last_caller(ms: Seq<Jv>) -> Option<int>
    decreases ms.len(),
{
    if ms.len() == 0 {
        None
    } else if is_caller(ms.last()) {
        Some(ms.len() - 1)
    } else {
        last_caller(ms.drop_last())
    }
}

/// The first position from `i` on that holds no tool result.
pub open spec fn results_end(ms: Seq<Jv>, i: int) -> int
    decreases ms.len() - i,
{
    if 0 <= i < ms.len() && is_tool(ms[i]) {
        results_end(ms, i + 1)
    } else {
        i
    }
}

/// `done`, followed by the messages `rest` in repaired order.
///
/// An assistant message that makes tool calls is followed by all results in `rest` that answer
/// it. A tool result that nobody in `done` has claimed goes behind the results of the last
/// assistant message that made calls, and is dropped where there is none.
pub open spec fn repaired(done: Seq<Jv>, rest: Seq<Jv>) -> Seq<Jv>
    decreases rest.len(),
{
    if rest.len() == 0 {
        done
    } else {
        let m = rest[0];
        let tail = rest.skip(1);
        if is_caller(m) {
            proof {
                tail.lemma_filter_len(|x: Jv| !answers(m, x));
            }
            repaired(
                done.push(m) + tail.filter(|x: Jv| answers(m, x)),
                tail.filter(|x: Jv| !answers(m, x)),
            )
        } else if is_tool(m) {
            match last_caller(done) {
                Some(i) => repaired(done.insert(results_end(done, i + 1), m), tail),
                None => repaired(done, tail),
            }
        } else {
            repaired(done.push(m), tail)
        }
    }
}

/// Where a tool result that nobody claimed goes.
fn slot_for_orphan(ms: &Vec<Json>) -> (r: Option<usize>)
    ensures
        (match r {
            Some(k) => last_caller(views(ms@)) matches Some(i) && k == results_end(
                views(ms@),
                i + 1,
            ) && k <= ms@.len(),
            None => last_caller(views(ms@)) is None,
        }),
{
    let total = ms.len();
    let mut i: usize = total;
    let ghost all = views(ms@);
    assert(all.take(i as int) =~= all);
    while i > 0 && !makes_calls(&ms[i - 1])
        invariant
            i <= ms@.len(),
            all == views(ms@),
            last_caller(all) == last_caller(all.take(i as int)),
        decreases i,
    {
        assert(all.take(i as int).drop_last() =~= all.take(i - 1));
        i = i - 1;
    }
    if i == 0 {
        return None;
    }
    let ghost start = i as int;
    assert(last_caller(all) == Some(start - 1));
    while i < total && tool(&ms[i])
        invariant
            start <= i <= total,
            total == ms@.len(),
            all == views(ms@),
            last_caller(all) == Some(start - 1),
            results_end(all, start) == results_end(all, i as int),
        decreases total - i,
    {
        i = i + 1;
    }
    Some(i)
}

/// `list` back to front.
fn backward(list: Vec<Json>) -> (r: Vec<Json>)
    ensures
        r@ == list@.reverse(),
{
    let mut from = list;
    let mut r: Vec<Json> = Vec::new();
    let ghost all = from@;
    while from.len() > 0
        invariant
            from@.len() <= all.len(),
            from@ == all.take(from@.len() as int),
            r@ == all.skip(from@.len() as int).reverse(),
        decreases from@.len(),
    {
        let m = from.pop().unwrap();
        r.push(m);
        assert(r@ =~= all.skip(from@.len() as int).reverse());
    }
    assert(all.skip(0) =~= all);
    r
}

/// Repairs the order of tool results: they directly follow the assistant message that asked
/// for them.
pub fn repair_tool_order(messages: Vec<Json>) -> (r: Vec<Json>)
    ensures
        views(r@) == repaired(Seq::empty(), views(messages@)),
{
    let mut fixed: Vec<Json> = Vec::new();
    let ghost input = views(messages@);
    // The messages that are still to be placed, the next one last.
    let mut rest = backward(messages);
    assert(views(rest@.reverse()) =~= input);
    assert(views(fixed@) =~= Seq::empty());
    while rest.len() > 0
        invariant
            repaired(Seq::empty(), input) == repaired(views(fixed@), views(rest@.reverse())),
        decreases rest@.len(),
    {
        let ghost todo = views(rest@.reverse());
        let ghost done = views(fixed@);
        let msg = rest.pop().unwrap();
        let ghost tail = views(rest@.reverse());
        assert(todo[0] == msg@);
        assert(todo.skip(1) =~= tail);
        if makes_calls(&msg) {
            let ghost caller = msg@;
            let ghost pulled = |x: Jv| answers(caller, x);
            let ghost left = |x: Jv| !answers(caller, x);
            let mut results: Vec<Json> = Vec::new();
            let mut kept: Vec<Json> = Vec::new();
            let ghost total = rest@.len();
            proof {
                reveal(Seq::filter);
                assert(views(results@) =~= tail.take(0).filter(pulled));
                assert(views(kept@) =~= tail.take(0).filter(left));
            }
            while rest.len() > 0
                invariant
                    caller == msg@,
                    pulled == (|x: Jv| answers(caller, x)),
                    left == (|x: Jv| !answers(caller, x)),
                    tail.len() == total,
                    rest@.len() <= total,
                    views(rest@.reverse()) == tail.skip(total - rest@.len()),
                    kept@.len() + rest@.len() <= total,
                    views(results@) == tail.take(total - rest@.len()).filter(pulled),
                    views(kept@) == tail.take(total - rest@.len()).filter(left),
                decreases rest@.len(),
            {
                let ghost n = total - rest@.len();
                let ghost earlier = views(rest@.reverse());
                let m = rest.pop().unwrap();
                proof {
                    assert(earlier[0] == m@);
                    assert(tail[n] == m@);
                    assert(views(rest@.reverse()) =~= earlier.skip(1));
                    assert(earlier.skip(1) =~= tail.skip(n + 1));
                    assert(tail.take(n + 1) =~= tail.take(n).push(m@));
                    tail.take(n).lemma_filter_push(m@, pulled);
                    tail.take(n).lemma_filter_push(m@, left);
                }
                if answered_by(&msg, &m) {
                    results.push(m);
                } else {
                    kept.push(m);
                }
            }
            proof {
                assert(tail.take(total as int) =~= tail);
            }
            fixed.push(msg);
            fixed.append(&mut results);
            rest = backward(kept);
            proof {
                assert(views(fixed@) =~= done.push(caller) + tail.filter(pulled));
                assert(views(rest@.reverse()) =~= tail.filter(left));
            }
        } else if tool(&msg) {
            match slot_for_orphan(&fixed) {
                Some(k) => {
                    let ghost m = msg@;
                    fixed.insert(k, msg);
                    assert(views(fixed@) =~= done.insert(k as int, m));
                },
                None => {},
            }
        } else {
            fixed.push(msg);
        }
    }
    assert(views(rest@.reverse()) =~= Seq::empty());
    fixed
}

// ─── Merging consecutive messages ──────────────────────────────────────────

/// Whether both messages have the role `role`.
pub open spec fn both_are(a: Jv, b: Jv, role: Seq<char>) -> bool {
    a.text_at("role"@) == Some(role) && b.text_at("role"@) == Some(role)
}

/// Whether both messages have a text as content.
pub open spec fn both_text(a: Jv, b: Jv) -> bool {
    a.text_at("content"@) is Some && b.text_at("content"@) is Some
}

/// Whether `b` goes into the message `a` before it, as one more paragraph: both are user texts,
/// or both are assistant texts without tool calls.
pub open spec fn joins(a: Jv, b: Jv) -> bool {
    both_text(a, b) && (both_are(a, b, "user"@) || (both_are(a, b, "assistant"@) && a.get(
        "tool_calls"@,
    ) is None && b.get("tool_calls"@) is None))
}

/// Whether the assistant message `b` with tool calls takes the place of the one before it.
pub open spec fn supersedes(a: Jv, b: Jv) -> bool {
    both_are(a, b, "assistant"@) && a.get("tool_calls"@) is None && b.get("tool_calls"@) is Some
}

/// Whether the assistant message `b` is dropped, as it only adds text behind tool calls.
pub open spec fn is_afterthought(a: Jv, b: Jv) -> bool {
    both_are(a, b, "assistant"@) && a.get("tool_calls"@) is Some && b.get("tool_calls"@) is None
}

/// The message `a` with the text of `b` as one more paragraph.
pub open spec fn with_paragraph(a: Jv, b: Jv) -> Jv {
    a.put(
        "content"@,
        Jv::Str(a.text_or("content"@, ""@) + "\n\n"@ + b.text_or("content"@, ""@)),
    )
}

pub open spec fn merge_step(done: Seq<Jv>, m: Jv) -> Seq<Jv> {
    if done.len() > 0 && joins(done.last(), m) {
        done.drop_last().push(with_paragraph(done.last(), m))
    } else if done.len() > 0 && supersedes(done.last(), m) {
        done.drop_last().push(m)
    } else if done.len() > 0 && is_afterthought(done.last(), m) {
        done
    } else {
        done.push(m)
    }
}

/// The messages with consecutive ones of the same role merged.
pub open spec fn merged(ms: Seq<Jv>) -> Seq<Jv>
    decreases ms.len(),
{
    if ms.len() == 0 {
        Seq::empty()
    } else {
        merge_step(merged(ms.drop_last()), ms.last())
    }
}

fn joins_into(a: &Json, b: &Json) -> (r: bool)
    ensures
        r == joins(a@, b@),
{
    if a.text_at("content").is_none() || b.text_at("content").is_none() {
        return false;
    }
    if a.text_is("role", "user") && b.text_is("role", "user") {
        return true;
    }
    a.text_is("role", "assistant") && b.text_is("role", "assistant") && a.get(
        "tool_calls",
    ).is_none() && b.get("tool_calls").is_none()
}

/// Merges consecutive messages of the same role.
pub fn merge_consecutive(messages: Vec<Json>) -> (r: Vec<Json>)
    ensures
        views(r@) == merged(views(messages@)),
{
    let ghost input = views(messages@);
    let mut rest = backward(messages);
    let mut done: Vec<Json> = Vec::new();
    assert(views(rest@.reverse()) =~= input);
    assert(input.skip(0) =~= input);
    assert(views(done@) =~= merged(input.take(0)));
    while rest.len() > 0
        invariant
            rest@.len() <= input.len(),
            views(rest@.reverse()) == input.skip(input.len() - rest@.len()),
            views(done@) == merged(input.take(input.len() - rest@.len())),
        decreases rest@.len(),
    {
        let ghost n = input.len() - rest@.len();
        let ghost earlier = views(rest@.reverse());
        let ghost before = views(done@);
        let msg = rest.pop().unwrap();
        let ghost m = msg@;
        proof {
            assert(earlier[0] == m);
            assert(input[n] == m);
            assert(views(rest@.reverse()) =~= earlier.skip(1));
            assert(earlier.skip(1) =~= input.skip(n + 1));
            assert(input.take(n + 1).drop_last() =~= input.take(n));
        }
        match done.pop() {
            Some(prev) => {
                let mut prev = prev;
                let ghost p = prev@;
                assert(before.last() == p);
                assert(views(done@) =~= before.drop_last());
                let both_assistant = prev.text_is("role", "assistant") && msg.text_is(
                    "role",
                    "assistant",
                );
                if joins_into(&prev, &msg) {
                    let mut combined = prev.text_or("content", "").to_owned();
                    combined.append("\n\n");
                    combined.append(msg.text_or("content", ""));
                    prev.set("content", Json::Str(combined));
                    done.push(prev);
                } else if both_assistant && prev.get("tool_calls").is_none() && msg.get(
                    "tool_calls",
                ).is_some() {
                    done.push(msg);
                } else if both_assistant && prev.get("tool_calls").is_some() && msg.get(
                    "tool_calls",
                ).is_none() {
                    done.push(prev);
                    assert(views(done@) =~= before);
                } else {
                    done.push(prev);
                    done.push(msg);
                    assert(views(done@) =~= before.push(m));
                }
            },
            None => {
                done.push(msg);
            },
        }
    }
    assert(input.take(input.len() as int) =~= input);
    done
}

// ─── Cutting old tool outputs short ────────────────────────────────────────

/// What stands for a tool output that is cut short: its first characters, and a note that says
/// how many bytes are gone.
pub open spec fn cut_output(content: Seq<char>) -> Seq<char> {
    let kept = first_chars(content, TOOL_OUTPUT_MAX as int);
    kept + "\n...[output truncated, "@ + decimal(
        (encode_utf8(content).len() - encode_utf8(kept).len()) as nat,
    ) + " chars removed]"@
}

/// A tool result of more than `TOOL_OUTPUT_MAX` bytes, cut short; every other message as it is.
pub open spec fn cut_message(m: Jv) -> Jv {
    match m.text_at("content"@) {
        Some(content) => if is_tool(m) && encode_utf8(content).len() > TOOL_OUTPUT_MAX {
            m.put("content"@, Jv::Str(cut_output(content)))
        } else {
            m
        },
        None => m,
    }
}

/// The messages with all tool outputs cut short but those of the last `KEEP_RECENT_FULL`.
pub open spec fn truncated(ms: Seq<Jv>) -> Seq<Jv> {
    Seq::new(
        ms.len(),
        |i: int|
            if i + KEEP_RECENT_FULL < ms.len() {
                cut_message(ms[i])
            } else {
                ms[i]
            },
    )
}

fn shorten_output(content: &str) -> (r: String)
    ensures
        r@ == cut_output(content@),
{
    let chars = crate::text::chars_of(content);
    let kept = if chars.len() <= TOOL_OUTPUT_MAX {
        content.to_owned()
    } else {
        assert(content@.subrange(0, TOOL_OUTPUT_MAX as int) =~= content@.take(
            TOOL_OUTPUT_MAX as int,
        ));
        crate::text::text_of(&chars, 0, TOOL_OUTPUT_MAX)
    };
    proof {
        let dropped = content@.skip(kept@.len() as int);
        assert(content@ =~= kept@ + dropped);
        crate::text::lemma_encode_concat(kept@, dropped);
    }
    let removed: usize = content.as_bytes().len() - kept.as_str().as_bytes().len();
    let mut r = kept;
    r.append("\n...[output truncated, ");
    r.append(decimal_text(removed as u64).as_str());
    r.append(" chars removed]");
    r
}

/// Cuts the old tool outputs short, all but those of the last `KEEP_RECENT_FULL` messages.
pub fn truncate_old_tool_outputs(messages: Vec<Json>) -> (r: Vec<Json>)
    ensures
        views(r@) == truncated(views(messages@)),
{
    let mut messages = messages;
    let ghost input = views(messages@);
    let total = messages.len();
    let mut i: usize = 0;
    while i < total
        invariant
            total == messages@.len(),
            total == input.len(),
            i <= total,
            forall|k: int| 0 <= k < i ==> (#[trigger] messages@[k])@ == truncated(input)[k],
            forall|k: int| i <= k < total ==> (#[trigger] messages@[k])@ == input[k],
        decreases total - i,
    {
        if total - i > KEEP_RECENT_FULL {
            let long = match messages[i].text_at("content") {
                Some(content) => tool(&messages[i]) && content.as_bytes().len() > TOOL_OUTPUT_MAX,
                None => false,
            };
            if long {
                let short = shorten_output(messages[i].text_or("content", ""));
                let mut msg = messages[i].clone();
                msg.set("content", Json::Str(short));
                messages.set(i, msg);
            }
        }
        i = i + 1;
    }
    assert(views(messages@) =~= truncated(input));
    messages
}

// ─── Trimming long conversations ───────────────────────────────────────────

/// The text that stands for the part of a conversation that was trimmed.
pub open spec fn trim_notice_text() -> Seq<char> {
    "[Earlier conversation trimmed. Do not repeat previous statements or tool calls you already made. Continue with the current task. If you have enough information, respond to the user instead of making more tool calls.]"@
}

pub open spec fn user_message(text: Seq<char>) -> Jv {
    empty_object().put("role"@, Jv::Str("user"@)).put("content"@, Jv::Str(text))
}

/// A user message with a text as content.
pub fn user_text(text: &str) -> (r: Json)
    ensures
        r@ == user_message(text@),
{
    Json::object().with("role", Json::text("user")).with("content", Json::text(text))
}

/// `ms` without the tool results that it starts with.
pub open spec fn without_leading_tools(ms: Seq<Jv>) -> Seq<Jv>
    decreases ms.len(),
{
    if ms.len() > 0 && is_tool(ms[0]) {
        without_leading_tools(ms.skip(1))
    } else {
        ms
    }
}

/// A conversation of more than `MAX_MESSAGES` messages keeps its first two and its last ones,
/// with a notice between them; the kept tail does not start with a tool result.
pub open spec fn trimmed_messages(ms: Seq<Jv>) -> Seq<Jv> {
    if ms.len() <= MAX_MESSAGES {
        ms
    } else {
        ms.take(2) + seq![user_message(trim_notice_text())] + without_leading_tools(
            ms.skip(ms.len() - (MAX_MESSAGES - 3)),
        )
    }
}

/// Trims a conversation to `MAX_MESSAGES` messages, keeping its head and its tail.
pub fn trim_messages(messages: Vec<Json>) -> (r: Vec<Json>)
    ensures
        views(r@) == trimmed_messages(views(messages@)),
{
    let total = messages.len();
    if total <= MAX_MESSAGES {
        return messages;
    }
    let ghost input = views(messages@);
    let mut start: usize = total - (MAX_MESSAGES - 3);
    while start < total && tool(&messages[start])
        invariant
            2 < start <= total,
            total == messages@.len(),
            input == views(messages@),
            without_leading_tools(input.skip(total - (MAX_MESSAGES - 3))) == without_leading_tools(
                input.skip(start as int),
            ),
        decreases total - start,
    {
        assert(input.skip(start as int).skip(1) =~= input.skip(start + 1));
        start = start + 1;
    }
    let mut rest = messages;
    let mut tail = rest.split_off(start);
    rest.truncate(2);
    rest.push(
        user_text(
            "[Earlier conversation trimmed. Do not repeat previous statements or tool calls you already made. Continue with the current task. If you have enough information, respond to the user instead of making more tool calls.]",
        ),
    );
    let ghost behind = tail@;
    assert(views(behind) =~= input.skip(start as int));
    assert(views(rest@) =~= input.take(2) + seq![user_message(trim_notice_text())]);
    let ghost front = rest@;
    rest.append(&mut tail);
    assert(views(rest@) =~= views(front) + views(behind));
    rest
}

// ─── Dropping orphan tool results ──────────────────────────────────────────

/// Whether a tool result may directly follow `m`.
pub open spec fn admits_result(m: Jv) -> bool {
    is_tool(m) || m.text_at("role"@) == Some("assistant"@)
}

/// The messages without the tool results that follow neither an assistant message nor another
/// tool result that stays.
pub open spec fn validated(ms: Seq<Jv>) -> Seq<Jv>
    decreases ms.len(),
{
    if ms.len() == 0 {
        Seq::empty()
    } else {
        let done = validated(ms.drop_last());
        let m = ms.last();
        if is_tool(m) && !(done.len() > 0 && admits_result(done.last())) {
            done
        } else {
            done.push(m)
        }
    }
}

/// Drops orphan tool results: those that no assistant message and no other tool result precedes.
pub fn validate_tool_sequence(messages: Vec<Json>) -> (r: Vec<Json>)
    ensures
        views(r@) == validated(views(messages@)),
{
    let ghost input = views(messages@);
    let mut rest = backward(messages);
    let mut done: Vec<Json> = Vec::new();
    assert(views(rest@.reverse()) =~= input);
    assert(input.skip(0) =~= input);
    assert(views(done@) =~= validated(input.take(0)));
    while rest.len() > 0
        invariant
            rest@.len() <= input.len(),
            views(rest@.reverse()) == input.skip(input.len() - rest@.len()),
            views(done@) == validated(input.take(input.len() - rest@.len())),
        decreases rest@.len(),
    {
        let ghost n = input.len() - rest@.len();
        let ghost earlier = views(rest@.reverse());
        let msg = rest.pop().unwrap();
        proof {
            assert(earlier[0] == msg@);
            assert(input[n] == msg@);
            assert(views(rest@.reverse()) =~= earlier.skip(1));
            assert(earlier.skip(1) =~= input.skip(n + 1));
            assert(input.take(n + 1).drop_last() =~= input.take(n));
        }
        let keep = if tool(&msg) {
            let count = done.len();
            count > 0 && (tool(&done[count - 1]) || done[count - 1].text_is("role", "assistant"))
        } else {
            true
        };
        if keep {
            done.push(msg);
        }
    }
    assert(input.take(input.len() as int) =~= input);
    done
}

} // verus!
