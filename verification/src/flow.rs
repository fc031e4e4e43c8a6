//! How far a streamed response has come, and what every piece of the stream does to it.

use vstd::prelude::*;

use crate::events::{
    args_delta, args_done, completed, item_added, item_done, part_added, part_done, text_delta,
    text_done, Event,
};
use crate::json::Jv;
use crate::response::{
    are_ids, call_item, first_choice, function_text, incomplete_for, is_time, message_item,
    response_base, status_for, text_or_null, text_part, usage_of,
};
use crate::text::{has, replaced, split, trimmed};
use crate::util::is_id;
use crate::wire::parsed;

verus! {

// ─── Tool calls under way ──────────────────────────────────────────────────

/// A tool call under way as mathematics sees it.
pub struct Call {
    pub id: Seq<char>,
    pub call_id: Seq<char>,
    pub name: Seq<char>,
    pub arguments: Seq<char>,
    pub output_idx: usize,
}

impl Call {
    /// The call as a finished output item.
    pub open spec fn item(self) -> Jv {
        call_item(self.id, self.call_id, self.name, self.arguments, "completed"@)
    }
}

/// Whether the calls stand in the order of their indices, each index once.
pub open spec fn by_index(calls: Seq<(usize, Call)>) -> bool {
    forall|i: int, j: int|
        0 <= i < j < calls.len() ==> (#[trigger] calls[i]).0 < (#[trigger] calls[j]).0
}

/// The call with the given index.
pub open spec fn call_for(calls: Seq<(usize, Call)>, index: usize) -> Option<Call>
    decreases calls.len(),
{
    if calls.len() == 0 {
        None
    } else if calls.last().0 == index {
        Some(calls.last().1)
    } else {
        call_for(calls.drop_last(), index)
    }
}

/// The calls, with `call` as the one with the given index.
pub open spec fn with_call(calls: Seq<(usize, Call)>, index: usize, call: Call) -> Seq<
    (usize, Call),
>
    decreases calls.len(),
{
    if calls.len() == 0 || calls.last().0 < index {
        calls.push((index, call))
    } else if calls.last().0 == index {
        calls.drop_last().push((index, call))
    } else {
        with_call(calls.drop_last(), index, call).push(calls.last())
    }
}

pub proof fn lemma_with_call(calls: Seq<(usize, Call)>, index: usize, call: Call)
    requires
        by_index(calls),
    ensures
        by_index(with_call(calls, index, call)),
        call_for(with_call(calls, index, call), index) == Some(call),
        forall|i: int|
            0 <= i < with_call(calls, index, call).len() ==> (#[trigger] with_call(
                calls,
                index,
                call,
            )[i]).0 == index || exists|k: int|
                0 <= k < calls.len() && calls[k] == with_call(calls, index, call)[i],
        with_call(calls, index, call).len() <= calls.len() + 1,
    decreases calls.len(),
{
    let after = with_call(calls, index, call);
    if calls.len() == 0 || calls.last().0 < index {
        assert forall|i: int, j: int| 0 <= i < j < after.len() implies (#[trigger] after[i]).0 < (
        #[trigger] after[j]).0 by {
            if j == calls.len() && i < calls.len() - 1 {
                assert(calls[i].0 < calls[calls.len() - 1].0);
            }
        }
        assert forall|i: int| 0 <= i < after.len() implies (#[trigger] after[i]).0 == index
            || exists|k: int| 0 <= k < calls.len() && calls[k] == after[i] by {
            if i < calls.len() {
                assert(calls[i] == after[i]);
            }
        }
    } else if calls.last().0 == index {
        assert forall|i: int, j: int| 0 <= i < j < after.len() implies (#[trigger] after[i]).0 < (
        #[trigger] after[j]).0 by {
            assert(calls[i].0 < calls[j].0);
        }
        assert forall|i: int| 0 <= i < after.len() implies (#[trigger] after[i]).0 == index
            || exists|k: int| 0 <= k < calls.len() && calls[k] == after[i] by {
            if i < calls.len() - 1 {
                assert(calls[i] == after[i]);
            }
        }
    } else {
        let head = calls.drop_last();
        lemma_with_call(head, index, call);
        let mid = with_call(head, index, call);
        assert forall|i: int| 0 <= i < mid.len() implies (#[trigger] mid[i]).0 < calls.last().0 by {
            if mid[i].0 != index {
                let k = choose|k: int| 0 <= k < head.len() && head[k] == mid[i];
                assert(calls[k].0 < calls[calls.len() - 1].0);
            }
        }
        assert forall|i: int, j: int| 0 <= i < j < after.len() implies (#[trigger] after[i]).0 < (
        #[trigger] after[j]).0 by {
            assert(after[i] == mid[i]);
            if j < mid.len() {
                assert(after[j] == mid[j]);
            } else {
                assert(after[j] == calls.last());
            }
        }
        assert(after.drop_last() =~= mid);
        assert forall|i: int| 0 <= i < after.len() implies (#[trigger] after[i]).0 == index
            || exists|k: int| 0 <= k < calls.len() && calls[k] == after[i] by {
            if i < mid.len() {
                assert(after[i] == mid[i]);
                if mid[i].0 != index {
                    let k = choose|k: int| 0 <= k < head.len() && head[k] == mid[i];
                    assert(calls[k] == after[i]);
                }
            } else {
                assert(calls[calls.len() - 1] == after[i]);
            }
        }
    }
}

// ─── The state of a translation ────────────────────────────────────────────

/// How far a streamed response has come.
#[verifier::ext_equal]
pub struct Flow {
    pub response_id: Seq<char>,
    pub model: Seq<char>,
    pub previous: Option<Seq<char>>,
    pub metadata: Jv,
    /// The text so far.
    pub text: Seq<char>,
    /// Whether the model is reasoning.
    pub thinking: bool,
    /// The output index of the message, once it has begun.
    pub message_at: Option<usize>,
    /// The tool calls so far.
    pub calls: Seq<(usize, Call)>,
    /// Whether the response is complete, and the output it then had.
    pub completed: bool,
    pub output: Seq<Jv>,
    /// Whether nothing more is read.
    pub finished: bool,
    /// The last line that has come in, as long as it has no end.
    pub buffer: Seq<char>,
}

/// A state, and the events that lead to it.
pub struct Step {
    pub flow: Flow,
    pub events: Seq<Event>,
}

/// What is left to chance and to the clock while one piece of a stream is translated.
pub struct Choice {
    /// Two identifiers for every tool call delta: for the call, and for its item.
    pub call_ids: Seq<Seq<char>>,
    pub item_ids: Seq<Seq<char>>,
    /// An identifier each for the message that begins, for the message that ends, and for the
    /// message in the completed response.
    pub message_id: Seq<char>,
    pub done_id: Seq<char>,
    pub output_id: Seq<char>,
    pub now: i64,
}

/// Whether a choice is one that can be drawn, for the given number of tool call deltas.
pub open spec fn drawn_for(choice: Choice, deltas: nat) -> bool {
    &&& are_ids(choice.call_ids, deltas)
    &&& are_ids(choice.item_ids, deltas)
    &&& is_id(choice.message_id)
    &&& is_id(choice.done_id)
    &&& is_id(choice.output_id)
    &&& is_time(choice.now)
}

// ─── A tool call delta ─────────────────────────────────────────────────────

/// The index that a tool call delta is for, and zero where it gives none that fits.
pub open spec fn delta_index(delta: Jv) -> usize {
    let index = delta.unsigned_or("index"@, 0);
    if index <= usize::MAX {
        index as usize
    } else {
        0
    }
}

/// The output index of a call that begins. A message in front of all calls moves them by one;
/// the largest index there is wraps around.
pub open spec fn call_output_index(flow: Flow, index: usize) -> usize {
    if flow.message_at == Some(0usize) {
        if index == usize::MAX {
            0
        } else {
            (index + 1) as usize
        }
    } else {
        index
    }
}

/// The call that a delta begins.
pub open spec fn begun_call(
    flow: Flow,
    delta: Jv,
    call_id: Seq<char>,
    item_id: Seq<char>,
) -> Call {
    Call {
        id: "fc_"@ + item_id,
        call_id: match delta.text_at("id"@) {
            Some(id) => id,
            None => "call_"@ + call_id,
        },
        name: function_text(delta, "name"@, ""@),
        arguments: ""@,
        output_idx: call_output_index(flow, delta_index(delta)),
    }
}

/// The piece of arguments that a delta brings.
pub open spec fn delta_arguments(delta: Jv) -> Option<Seq<char>> {
    match delta.get("function"@) {
        Some(function) => function.text_at("arguments"@),
        None => None,
    }
}

/// The state once the call of a delta has begun.
pub open spec fn call_begun(
    flow: Flow,
    delta: Jv,
    call_id: Seq<char>,
    item_id: Seq<char>,
) -> Step {
    let index = delta_index(delta);
    if call_for(flow.calls, index) is Some {
        Step { flow, events: Seq::empty() }
    } else {
        let call = begun_call(flow, delta, call_id, item_id);
        Step {
            flow: Flow { calls: with_call(flow.calls, index, call), ..flow },
            events: seq![
                item_added(
                    call.output_idx as int,
                    call_item(call.id, call.call_id, call.name, ""@, "in_progress"@),
                ),
            ],
        }
    }
}

/// The state after the arguments of a delta.
pub open spec fn call_continued(step: Step, delta: Jv) -> Step {
    let index = delta_index(delta);
    match (delta_arguments(delta), call_for(step.flow.calls, index)) {
        (Some(arguments), Some(call)) => Step {
            flow: Flow {
                calls: with_call(
                    step.flow.calls,
                    index,
                    Call { arguments: call.arguments + arguments, ..call },
                ),
                ..step.flow
            },
            events: step.events.push(args_delta(call.output_idx as int, call.call_id, arguments)),
        },
        _ => step,
    }
}

/// The state after one tool call delta.
pub open spec fn after_delta(
    flow: Flow,
    delta: Jv,
    call_id: Seq<char>,
    item_id: Seq<char>,
) -> Step {
    call_continued(call_begun(flow, delta, call_id, item_id), delta)
}

/// The state after a list of tool call deltas.
pub open spec fn after_deltas(flow: Flow, deltas: Seq<Jv>, choice: Choice) -> Step
    decreases deltas.len(),
{
    if deltas.len() == 0 {
        Step { flow, events: Seq::empty() }
    } else {
        let before = after_deltas(flow, deltas.drop_last(), choice);
        let k = deltas.len() - 1;
        let last = after_delta(before.flow, deltas.last(), choice.call_ids[k], choice.item_ids[k]);
        Step { flow: last.flow, events: before.events + last.events }
    }
}

// ─── A piece of text ───────────────────────────────────────────────────────

/// A piece of content without the tags around the reasoning.
pub open spec fn untagged(content: Seq<char>) -> Seq<char> {
    replaced(replaced(content, "<think>"@, ""@), "</think>"@, ""@)
}

/// Whether the model is reasoning after a piece of content.
pub open spec fn thinking_after(thinking: bool, content: Seq<char>) -> bool {
    (thinking || has(content, "<think>"@)) && !(has(
        replaced(content, "<think>"@, ""@),
        "</think>"@,
    ))
}

/// The output index of a message that begins: behind the calls so far.
pub open spec fn message_index(flow: Flow) -> usize {
    if flow.calls.len() <= i64::MAX {
        flow.calls.len() as usize
    } else {
        0
    }
}

/// The state once the message has begun.
pub open spec fn message_begun(flow: Flow, message_id: Seq<char>) -> Step {
    match flow.message_at {
        Some(_) => Step { flow, events: Seq::empty() },
        None => {
            let at = message_index(flow);
            Step {
                flow: Flow { message_at: Some(at), ..flow },
                events: seq![
                    item_added(
                        at as int,
                        message_item("msg_"@ + message_id, "in_progress"@, Seq::empty()),
                    ),
                    part_added(at as int, 0, text_part(""@)),
                ],
            }
        },
    }
}

/// The state after a piece of content. What the model thinks is not passed on.
pub open spec fn after_content(flow: Flow, content: Seq<char>, message_id: Seq<char>) -> Step {
    let text = untagged(content);
    let heard = Flow { thinking: thinking_after(flow.thinking, content), ..flow };
    if heard.thinking || text.len() == 0 {
        Step { flow: heard, events: Seq::empty() }
    } else {
        let begun = message_begun(heard, message_id);
        Step {
            flow: Flow { text: heard.text + text, ..begun.flow },
            events: begun.events.push(
                text_delta(begun.flow.message_at->0 as int, 0, text),
            ),
        }
    }
}

// ─── The end of a response ─────────────────────────────────────────────────

/// The events that end a list of calls.
pub open spec fn calls_ended(calls: Seq<(usize, Call)>) -> Seq<Event>
    decreases calls.len(),
{
    if calls.len() == 0 {
        Seq::empty()
    } else {
        let call = calls.last().1;
        calls_ended(calls.drop_last()).push(
            args_done(call.output_idx as int, call.call_id, call.arguments),
        ).push(item_done(call.output_idx as int, call.item()))
    }
}

/// The output index of the message when the response ends.
pub open spec fn message_end_index(flow: Flow) -> usize {
    match flow.message_at {
        Some(at) => at,
        None => flow.calls.len() as usize,
    }
}

/// The events that end the message; none where it says nothing.
pub open spec fn message_ended(flow: Flow, id: Seq<char>) -> Seq<Event> {
    let text = trimmed(flow.text);
    let at = message_end_index(flow) as int;
    if text.len() > 0 {
        seq![
            text_done(at, 0, text),
            part_done(at, 0, text_part(text)),
            item_done(at, message_item("msg_"@ + id, "completed"@, seq![text_part(text)])),
        ]
    } else {
        Seq::empty()
    }
}

/// Output items in the order of their indices, with `item` behind those of its own index.
pub open spec fn placed(items: Seq<(usize, Jv)>, item: (usize, Jv)) -> Seq<(usize, Jv)>
    decreases items.len(),
{
    if items.len() == 0 || items.last().0 <= item.0 {
        items.push(item)
    } else {
        placed(items.drop_last(), item).push(items.last())
    }
}

/// Output items in the order of their indices; items of one index keep their order.
pub open spec fn by_output_index(items: Seq<(usize, Jv)>) -> Seq<(usize, Jv)>
    decreases items.len(),
{
    if items.len() == 0 {
        items
    } else {
        placed(by_output_index(items.drop_last()), items.last())
    }
}

/// The output items of a response that ends, with their indices: the calls, then the message.
pub open spec fn end_items(flow: Flow, id: Seq<char>) -> Seq<(usize, Jv)> {
    let text = trimmed(flow.text);
    flow.calls.map_values(|c: (usize, Call)| (c.1.output_idx, c.1.item())) + (if text.len() > 0 {
        seq![
            (
                message_end_index(flow),
                message_item("msg_"@ + id, "completed"@, seq![text_part(text)]),
            ),
        ]
    } else {
        Seq::empty()
    })
}

/// The output of a response that ends.
pub open spec fn end_output(flow: Flow, id: Seq<char>) -> Seq<Jv> {
    by_output_index(end_items(flow, id)).map_values(|item: (usize, Jv)| item.1)
}

/// The response that the stream made.
pub open spec fn final_response(
    flow: Flow,
    output: Seq<Jv>,
    finish_reason: Seq<char>,
    usage: Option<Jv>,
    now: i64,
) -> Jv {
    response_base(
        flow.response_id,
        now as int,
        status_for(finish_reason),
        flow.model,
        output,
    ).put("previous_response_id"@, text_or_null(flow.previous)).put("metadata"@, flow.metadata).put(
        "usage"@,
        usage_of(usage),
    ).put("incomplete_details"@, incomplete_for(finish_reason))
}

/// The state once the response is complete.
pub open spec fn completion(
    flow: Flow,
    finish_reason: Option<Seq<char>>,
    usage: Option<Jv>,
    choice: Choice,
) -> Step {
    let output = end_output(flow, choice.output_id);
    let reason = match finish_reason {
        Some(reason) => reason,
        None => "stop"@,
    };
    Step {
        flow: Flow { completed: true, output, ..flow },
        events: (calls_ended(flow.calls) + message_ended(flow, choice.done_id)).push(
            completed(final_response(flow, output, reason, usage, choice.now)),
        ),
    }
}

/// The state once the response is complete, where a reason to end has come and it was not.
pub open spec fn ended_for(
    step: Step,
    finish_reason: Option<Seq<char>>,
    usage: Option<Jv>,
    choice: Choice,
) -> Step {
    if finish_reason is Some && !step.flow.completed {
        let last = completion(step.flow, finish_reason, usage, choice);
        Step { flow: last.flow, events: step.events + last.events }
    } else {
        step
    }
}

// ─── A piece of the stream ─────────────────────────────────────────────────

/// The tool call deltas of a piece of the stream.
pub open spec fn tool_deltas(chunk: Jv) -> Option<Seq<Jv>> {
    match first_choice(chunk) {
        Some(choice) => match choice.get("delta"@) {
            Some(delta) => delta.items_at("tool_calls"@),
            None => None,
        },
        None => None,
    }
}

/// How many tool call deltas a piece of the stream holds.
pub open spec fn delta_count(chunk: Jv) -> nat {
    match tool_deltas(chunk) {
        Some(deltas) => deltas.len(),
        None => 0,
    }
}

/// The reason to end that a piece of the stream gives.
pub open spec fn finish_reason_in(chunk: Jv) -> Option<Seq<char>> {
    match first_choice(chunk) {
        Some(choice) => choice.text_at("finish_reason"@),
        None => None,
    }
}

/// The piece of content that a delta brings.
pub open spec fn delta_content(chunk: Jv) -> Option<Seq<char>> {
    match first_choice(chunk) {
        Some(choice) => match choice.get("delta"@) {
            Some(delta) => delta.text_at("content"@),
            None => None,
        },
        None => None,
    }
}

/// Whether a piece of the stream brings reasoning, which is not passed on.
pub open spec fn is_reasoning(chunk: Jv) -> bool {
    match first_choice(chunk) {
        Some(choice) => match choice.get("delta"@) {
            Some(delta) => delta.get("reasoning_content"@) is Some,
            None => false,
        },
        None => false,
    }
}

/// The state after one piece of the stream.
pub open spec fn after_chunk(flow: Flow, chunk: Jv, choice: Choice) -> Step {
    let reason = finish_reason_in(chunk);
    let usage = chunk.get("usage"@);
    let unchanged = Step { flow, events: Seq::empty() };
    match tool_deltas(chunk) {
        Some(deltas) => ended_for(after_deltas(flow, deltas, choice), reason, usage, choice),
        None => if is_reasoning(chunk) {
            unchanged
        } else {
            ended_for(
                match delta_content(chunk) {
                    Some(content) => after_content(flow, content, choice.message_id),
                    None => unchanged,
                },
                reason,
                usage,
                choice,
            )
        },
    }
}

// ─── Lines ─────────────────────────────────────────────────────────────────

/// A line without the carriage returns at its end.
pub open spec fn without_returns(line: Seq<char>) -> Seq<char>
    decreases line.len(),
{
    if line.len() > 0 && line.last() == '\r' {
        without_returns(line.drop_last())
    } else {
        line
    }
}

/// The data that a line of the stream carries.
pub open spec fn line_data(line: Seq<char>) -> Option<Seq<char>> {
    let bare = without_returns(line);
    if "data: "@.is_prefix_of(bare) {
        Some(trimmed(bare.skip("data: "@.len() as int)))
    } else {
        None
    }
}

/// The piece of the stream that a line carries: a JSON value that does not say that the stream
/// has ended.
pub open spec fn line_chunk(line: Seq<char>) -> Option<Jv> {
    match line_data(line) {
        Some(data) => if data == "[DONE]"@ {
            None
        } else {
            parsed(data)
        },
        None => None,
    }
}

/// How many tool call deltas a line carries.
pub open spec fn line_deltas(line: Seq<char>) -> nat {
    match line_chunk(line) {
        Some(chunk) => delta_count(chunk),
        None => 0,
    }
}

/// The state once the upstream says that it is done.
pub open spec fn after_done(flow: Flow, choice: Choice) -> Step {
    let step = if flow.completed {
        Step { flow, events: Seq::empty() }
    } else {
        completion(flow, None, None, choice)
    };
    Step { flow: Flow { finished: true, ..step.flow }, events: step.events }
}

/// The state after one line of the stream. A line that carries nothing changes nothing, and so
/// does every line once the upstream is done.
pub open spec fn after_line(flow: Flow, line: Seq<char>, choice: Choice) -> Step {
    if flow.finished {
        Step { flow, events: Seq::empty() }
    } else if line_data(line) == Some("[DONE]"@) {
        after_done(flow, choice)
    } else {
        match line_chunk(line) {
            Some(chunk) => after_chunk(flow, chunk, choice),
            None => Step { flow, events: Seq::empty() },
        }
    }
}

/// The state after a list of lines, with one choice for each.
pub open spec fn after_lines(flow: Flow, lines: Seq<Seq<char>>, choices: Seq<Choice>) -> Step
    decreases lines.len(),
{
    if lines.len() == 0 {
        Step { flow, events: Seq::empty() }
    } else {
        let before = after_lines(flow, lines.drop_last(), choices.drop_last());
        let last = after_line(before.flow, lines.last(), choices.last());
        Step { flow: last.flow, events: before.events + last.events }
    }
}

/// Whether there is one choice for each line, of those that can be drawn for it.
pub open spec fn drawn_for_lines(choices: Seq<Choice>, lines: Seq<Seq<char>>) -> bool {
    choices.len() == lines.len() && forall|i: int|
        0 <= i < lines.len() ==> drawn_for(#[trigger] choices[i], line_deltas(lines[i]))
}

/// The lines that are complete once `text` has come in behind `buffer`.
pub open spec fn complete_lines(buffer: Seq<char>, text: Seq<char>) -> Seq<Seq<char>> {
    split(buffer + text, "\n"@).drop_last()
}

/// What has no end yet once `text` has come in behind `buffer`.
pub open spec fn open_line(buffer: Seq<char>, text: Seq<char>) -> Seq<char> {
    split(buffer + text, "\n"@).last()
}

/// The reason a response ends for when the stream breaks off.
pub open spec fn fallback_reason(flow: Flow) -> Seq<char> {
    if flow.text.len() > 0 || flow.calls.len() > 0 {
        "length"@
    } else {
        "stop"@
    }
}

/// The state once the stream has ended.
pub open spec fn after_end(flow: Flow, choice: Choice) -> Step {
    if flow.completed {
        Step { flow, events: Seq::empty() }
    } else {
        completion(flow, Some(fallback_reason(flow)), None, choice)
    }
}

/// The state in which a translation starts.
pub open spec fn flow_start(
    response_id: Seq<char>,
    model: Seq<char>,
    previous: Option<Seq<char>>,
    metadata: Jv,
) -> Flow {
    Flow {
        response_id,
        model,
        previous,
        metadata,
        text: Seq::empty(),
        thinking: false,
        message_at: None,
        calls: Seq::empty(),
        completed: false,
        output: Seq::empty(),
        finished: false,
        buffer: Seq::empty(),
    }
}

} // verus!
