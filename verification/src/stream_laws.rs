//! What holds of every streamed response.

use vstd::prelude::*;
use vstd::seq_lib::*;
use vstd::utf8::{
    decode_utf8, decode_utf8_encode_utf8, encode_utf8_decode_utf8, is_leading_byte_width_1,
    pop_first_scalar, valid_first_scalar, valid_utf8, valid_utf8_concat,
};

use crate::events::{completed, created, in_progress, text_delta, Event};
use crate::json::Jv;
use crate::flow::{
    after_content, after_delta, after_deltas, after_end, after_line, after_lines, begun_call,
    by_output_index, call_begun, call_for, calls_ended, complete_lines, completion,
    delta_arguments, delta_content, delta_index, ended_for, fallback_reason, finish_reason_in,
    flow_start, is_reasoning, line_chunk, line_data, message_ended, open_line, placed, tool_deltas,
    untagged, with_call, Call, Choice, Flow, Step,
};
use crate::text::{
    first_at, lemma_encode_concat, lemma_first_at, lemma_split_ahead, lemma_split_not_empty, split,
};

verus! {

// ─── Text ──────────────────────────────────────────────────────────────────

/// The text that an event adds to the message.
pub open spec fn delta_text(event: Event) -> Seq<char> {
    if event.kind == "response.output_text.delta"@ {
        event.data.text_or("delta"@, ""@)
    } else {
        Seq::empty()
    }
}

/// The text that a list of events adds to the message.
pub open spec fn deltas_text(events: Seq<Event>) -> Seq<char>
    decreases events.len(),
{
    if events.len() == 0 {
        Seq::empty()
    } else {
        deltas_text(events.drop_last()) + delta_text(events.last())
    }
}

/// How many of a list of events say that the response is complete.
pub open spec fn completions(events: Seq<Event>) -> nat
    decreases events.len(),
{
    if events.len() == 0 {
        0
    } else {
        completions(events.drop_last()) + (if events.last().kind == "response.completed"@ {
            1nat
        } else {
            0nat
        })
    }
}

pub proof fn lemma_kinds()
    ensures
        "response.output_text.delta"@ != "response.output_item.added"@,
        "response.output_text.delta"@ != "response.output_item.done"@,
        "response.output_text.delta"@ != "response.output_text.done"@,
        "response.output_text.delta"@ != "response.content_part.added"@,
        "response.output_text.delta"@ != "response.content_part.done"@,
        "response.output_text.delta"@ != "response.function_call_arguments.delta"@,
        "response.output_text.delta"@ != "response.function_call_arguments.done"@,
        "response.output_text.delta"@ != "response.completed"@,
        "response.completed"@ != "response.output_item.added"@,
        "response.completed"@ != "response.output_item.done"@,
        "response.completed"@ != "response.output_text.done"@,
        "response.completed"@ != "response.content_part.added"@,
        "response.completed"@ != "response.content_part.done"@,
        "response.completed"@ != "response.function_call_arguments.delta"@,
        "response.completed"@ != "response.function_call_arguments.done"@,
{
    reveal_strlit("response.output_text.delta");
    reveal_strlit("response.output_item.added");
    reveal_strlit("response.output_item.done");
    reveal_strlit("response.output_text.done");
    reveal_strlit("response.content_part.added");
    reveal_strlit("response.content_part.done");
    reveal_strlit("response.function_call_arguments.delta");
    reveal_strlit("response.function_call_arguments.done");
    reveal_strlit("response.completed");
    assert("response.output_text.delta"@.len() == 26);
    assert("response.output_item.added"@.len() == 26);
    assert("response.output_item.done"@.len() == 25);
    assert("response.output_text.done"@.len() == 25);
    assert("response.content_part.added"@.len() == 27);
    assert("response.content_part.done"@.len() == 26);
    assert("response.function_call_arguments.delta"@.len() == 38);
    assert("response.function_call_arguments.done"@.len() == 37);
    assert("response.completed"@.len() == 18);
    assert("response.output_text.delta"@[16] == 't');
    assert("response.output_item.added"@[16] == 'i');
    assert("response.output_text.delta"@[9] == 'o');
    assert("response.content_part.done"@[9] == 'c');
}

/// Whether an event is neither a piece of text nor the end of the response.
pub open spec fn is_aside(event: Event) -> bool {
    event.kind != "response.output_text.delta"@ && event.kind != "response.completed"@
}

/// Whether no event of a list is a piece of text or the end of the response.
pub open spec fn all_aside(events: Seq<Event>) -> bool {
    forall|i: int| 0 <= i < events.len() ==> is_aside(#[trigger] events[i])
}

pub proof fn lemma_aside(events: Seq<Event>)
    requires
        all_aside(events),
    ensures
        deltas_text(events) == Seq::<char>::empty(),
        completions(events) == 0,
    decreases events.len(),
{
    if events.len() > 0 {
        lemma_aside(events.drop_last());
        assert(is_aside(events[events.len() - 1]));
        assert(Seq::<char>::empty() + Seq::<char>::empty() =~= Seq::<char>::empty());
    }
}

pub proof fn lemma_concat(a: Seq<Event>, b: Seq<Event>)
    ensures
        deltas_text(a + b) == deltas_text(a) + deltas_text(b),
        completions(a + b) == completions(a) + completions(b),
    decreases b.len(),
{
    if b.len() == 0 {
        assert(a + b =~= a);
        assert(deltas_text(a) + deltas_text(b) =~= deltas_text(a));
    } else {
        lemma_concat(a, b.drop_last());
        assert((a + b).drop_last() =~= a + b.drop_last());
        assert(deltas_text(a + b) =~= deltas_text(a) + deltas_text(b));
    }
}

proof fn lemma_delta(flow: Flow, delta: Jv, call_id: Seq<char>, item_id: Seq<char>)
    ensures
        ({
            let step = after_delta(flow, delta, call_id, item_id);
            &&& all_aside(step.events)
            &&& step.flow.text == flow.text
            &&& step.flow.completed == flow.completed
            &&& step.flow.finished == flow.finished
            &&& step.flow.response_id == flow.response_id
            &&& step.flow.output == flow.output
        }),
{
    lemma_kinds();
}

proof fn lemma_deltas(flow: Flow, deltas: Seq<Jv>, choice: Choice)
    ensures
        ({
            let step = after_deltas(flow, deltas, choice);
            &&& all_aside(step.events)
            &&& step.flow.text == flow.text
            &&& step.flow.completed == flow.completed
            &&& step.flow.finished == flow.finished
            &&& step.flow.response_id == flow.response_id
            &&& step.flow.output == flow.output
        }),
    decreases deltas.len(),
{
    if deltas.len() > 0 {
        lemma_deltas(flow, deltas.drop_last(), choice);
        let before = after_deltas(flow, deltas.drop_last(), choice);
        let k = deltas.len() - 1;
        lemma_delta(before.flow, deltas.last(), choice.call_ids[k], choice.item_ids[k]);
        let last = after_delta(before.flow, deltas.last(), choice.call_ids[k], choice.item_ids[k]);
        let all = before.events + last.events;
        assert forall|i: int| 0 <= i < all.len() implies is_aside(#[trigger] all[i]) by {
            if i < before.events.len() {
                assert(all[i] == before.events[i]);
            } else {
                assert(all[i] == last.events[i - before.events.len()]);
            }
        }
    }
}

pub proof fn lemma_delta_member(delta: Seq<char>, index: int, content_index: int)
    ensures
        delta_text(text_delta(index, content_index, delta)) == delta,
{
    reveal_strlit("delta");
    reveal_strlit("type");
    reveal_strlit("output_index");
    reveal_strlit("content_index");
}

proof fn lemma_content(flow: Flow, content: Seq<char>, id: Seq<char>)
    ensures
        ({
            let step = after_content(flow, content, id);
            &&& step.flow.text == flow.text + deltas_text(step.events)
            &&& completions(step.events) == 0
            &&& step.flow.completed == flow.completed
            &&& step.flow.finished == flow.finished
        }),
{
    lemma_kinds();
    let step = after_content(flow, content, id);
    if step.events.len() == 0 {
        assert(flow.text + deltas_text(step.events) =~= flow.text);
    } else {
        let asides = step.events.drop_last();
        assert(all_aside(asides));
        lemma_aside(asides);
        let last = step.events.last();
        lemma_delta_member(untagged(content), step.flow.message_at->0 as int, 0);
        assert(deltas_text(step.events) =~= delta_text(last));
    }
}

proof fn lemma_calls_ended(calls: Seq<(usize, Call)>)
    ensures
        all_aside(calls_ended(calls)),
    decreases calls.len(),
{
    lemma_kinds();
    if calls.len() > 0 {
        lemma_calls_ended(calls.drop_last());
    }
}

proof fn lemma_completion(
    flow: Flow,
    finish_reason: Option<Seq<char>>,
    usage: Option<Jv>,
    choice: Choice,
)
    ensures
        ({
            let step = completion(flow, finish_reason, usage, choice);
            &&& deltas_text(step.events) == Seq::<char>::empty()
            &&& completions(step.events) == 1
            &&& step.flow.completed
            &&& step.flow.text == flow.text
        }),
{
    lemma_kinds();
    lemma_calls_ended(flow.calls);
    let step = completion(flow, finish_reason, usage, choice);
    let one = calls_ended(flow.calls);
    let two = message_ended(flow, choice.done_id);
    let asides = one + two;
    assert forall|i: int| 0 <= i < asides.len() implies is_aside(#[trigger] asides[i]) by {
        if i < one.len() {
            assert(asides[i] == one[i]);
        } else {
            assert(asides[i] == two[i - one.len()]);
        }
    }
    lemma_aside(asides);
    assert(step.events.drop_last() =~= asides);
    assert(deltas_text(step.events) =~= Seq::<char>::empty());
}

/// What holds of a step: the text grows by the pieces that are sent, and the response is
/// completed once.
spec fn sound(flow: Flow, step: Step) -> bool {
    &&& step.flow.text == flow.text + deltas_text(step.events)
    &&& completions(step.events) == (if step.flow.completed && !flow.completed {
        1nat
    } else {
        0nat
    })
    &&& flow.completed ==> step.flow.completed
}

proof fn lemma_unchanged(flow: Flow)
    ensures
        sound(flow, (Step { flow, events: Seq::empty() })),
{
    assert(flow.text + deltas_text(Seq::<Event>::empty()) =~= flow.text);
}

proof fn lemma_ended_for(
    flow: Flow,
    step: Step,
    finish_reason: Option<Seq<char>>,
    usage: Option<Jv>,
    choice: Choice,
)
    requires
        sound(flow, step),
        step.flow.completed == flow.completed,
    ensures
        sound(flow, ended_for(step, finish_reason, usage, choice)),
{
    if finish_reason is Some && !step.flow.completed {
        lemma_completion(step.flow, finish_reason, usage, choice);
        let last = completion(step.flow, finish_reason, usage, choice);
        lemma_concat(step.events, last.events);
        assert(deltas_text(step.events) + deltas_text(last.events) =~= deltas_text(step.events));
    }
}

proof fn lemma_line(flow: Flow, line: Seq<char>, choice: Choice)
    ensures
        sound(flow, after_line(flow, line, choice)),
{
    lemma_unchanged(flow);
    if flow.finished {
    } else if line_data(line) == Some("[DONE]"@) {
        if !flow.completed {
            lemma_completion(flow, None, None, choice);
            let step = completion(flow, None, None, choice);
            assert(flow.text + deltas_text(step.events) =~= flow.text);
        }
    } else if let Some(chunk) = line_chunk(line) {
        let reason = finish_reason_in(chunk);
        let usage = chunk.get("usage"@);
        if let Some(deltas) = tool_deltas(chunk) {
            lemma_deltas(flow, deltas, choice);
            let step = after_deltas(flow, deltas, choice);
            lemma_aside(step.events);
            assert(flow.text + deltas_text(step.events) =~= flow.text);
            lemma_ended_for(flow, step, reason, usage, choice);
        } else if !is_reasoning(chunk) {
            if let Some(content) = delta_content(chunk) {
                lemma_content(flow, content, choice.message_id);
                lemma_ended_for(
                    flow,
                    after_content(flow, content, choice.message_id),
                    reason,
                    usage,
                    choice,
                );
            } else {
                lemma_ended_for(
                    flow,
                    Step { flow, events: Seq::empty() },
                    reason,
                    usage,
                    choice,
                );
            }
        }
    }
}

/// The text of a response is made of the pieces that were sent, in their order.
pub proof fn law_text_is_what_was_sent(flow: Flow, lines: Seq<Seq<char>>, choices: Seq<Choice>)
    ensures
        after_lines(flow, lines, choices).flow.text == flow.text + deltas_text(
            after_lines(flow, lines, choices).events,
        ),
    decreases lines.len(),
{
    if lines.len() == 0 {
        lemma_unchanged(flow);
    } else {
        law_text_is_what_was_sent(flow, lines.drop_last(), choices.drop_last());
        let before = after_lines(flow, lines.drop_last(), choices.drop_last());
        lemma_line(before.flow, lines.last(), choices.last());
        let last = after_line(before.flow, lines.last(), choices.last());
        lemma_concat(before.events, last.events);
        assert(flow.text + deltas_text(before.events) + deltas_text(last.events) =~= flow.text + (
        deltas_text(before.events) + deltas_text(last.events)));
    }
}

proof fn lemma_completed_once(flow: Flow, lines: Seq<Seq<char>>, choices: Seq<Choice>)
    ensures
        ({
            let step = after_lines(flow, lines, choices);
            &&& completions(step.events) == (if step.flow.completed && !flow.completed {
                1nat
            } else {
                0nat
            })
            &&& flow.completed ==> step.flow.completed
        }),
    decreases lines.len(),
{
    if lines.len() > 0 {
        lemma_completed_once(flow, lines.drop_last(), choices.drop_last());
        let before = after_lines(flow, lines.drop_last(), choices.drop_last());
        lemma_line(before.flow, lines.last(), choices.last());
        let last = after_line(before.flow, lines.last(), choices.last());
        lemma_concat(before.events, last.events);
    }
}

/// A streamed response is completed exactly once, whatever the upstream sends and wherever it
/// breaks off.
pub proof fn law_completed_exactly_once(
    response_id: Seq<char>,
    model: Seq<char>,
    previous: Option<Seq<char>>,
    metadata: Jv,
    lines: Seq<Seq<char>>,
    choices: Seq<Choice>,
    choice: Choice,
)
    ensures
        ({
            let start = flow_start(response_id, model, previous, metadata);
            let read = after_lines(start, lines, choices);
            let end = after_end(read.flow, choice);
            completions(read.events + end.events) == 1 && end.flow.completed
        }),
{
    let start = flow_start(response_id, model, previous, metadata);
    let read = after_lines(start, lines, choices);
    let end = after_end(read.flow, choice);
    lemma_completed_once(start, lines, choices);
    if !read.flow.completed {
        lemma_completion(
            read.flow,
            Some(fallback_reason(read.flow)),
            None,
            choice,
        );
    }
    lemma_concat(read.events, end.events);
}

/// What is kept of a streamed response is the output that its last event showed.
pub proof fn law_output_is_what_was_completed(
    flow: Flow,
    finish_reason: Option<Seq<char>>,
    usage: Option<Jv>,
    choice: Choice,
)
    ensures
        ({
            let step = completion(flow, finish_reason, usage, choice);
            let response = step.events.last().data.get("response"@);
            step.events.last().kind == "response.completed"@ && response is Some && response->0.items_at(
                "output"@,
            ) == Some(step.flow.output) && response->0.text_at("id"@) == Some(flow.response_id)
        }),
{
    reveal_strlit("output");
    reveal_strlit("id");
    reveal_strlit("object");
    reveal_strlit("created_at");
    reveal_strlit("status");
    reveal_strlit("model");
    reveal_strlit("previous_response_id");
    reveal_strlit("metadata");
    reveal_strlit("usage");
    reveal_strlit("incomplete_details");
    assert("id"@.len() == 2 && "object"@.len() == 6 && "created_at"@.len() == 10 && "status"@.len()
        == 6 && "model"@.len() == 5 && "output"@.len() == 6 && "previous_response_id"@.len() == 20
        && "metadata"@.len() == 8 && "usage"@.len() == 5 && "incomplete_details"@.len() == 18);
}

// ─── What a completed response carries ─────────────────────────────────────

/// Whether an event carries the identifier and the output of a response.
pub open spec fn carries(event: Event, response_id: Seq<char>, output: Seq<Jv>) -> bool {
    event.data.get("response"@) matches Some(response) && response.text_at("id"@) == Some(
        response_id,
    ) && response.items_at("output"@) == Some(output)
}

/// What holds of a step: the response keeps its identifier; once it is complete it keeps its
/// output, and is not completed again; and what completes it carries both.
spec fn faithful(flow: Flow, step: Step) -> bool {
    &&& step.flow.response_id == flow.response_id
    &&& flow.completed ==> step.flow.completed && step.flow.output == flow.output
    &&& forall|i: int|
        0 <= i < step.events.len() && (#[trigger] step.events[i]).kind == "response.completed"@
            ==> !flow.completed && step.flow.completed && carries(
            step.events[i],
            step.flow.response_id,
            step.flow.output,
        )
}

proof fn lemma_faithful_steps(flow: Flow, first: Step, second: Step)
    requires
        faithful(flow, first),
        faithful(first.flow, second),
    ensures
        faithful(flow, (Step { flow: second.flow, events: first.events + second.events })),
{
    let all = first.events + second.events;
    assert forall|i: int|
        0 <= i < all.len() && (#[trigger] all[i]).kind == "response.completed"@ implies !flow.completed
        && second.flow.completed && carries(
        all[i],
        second.flow.response_id,
        second.flow.output,
    ) by {
        if i < first.events.len() {
            assert(all[i] == first.events[i]);
        } else {
            assert(all[i] == second.events[i - first.events.len()]);
        }
    }
}

proof fn lemma_faithful_completion(
    flow: Flow,
    finish_reason: Option<Seq<char>>,
    usage: Option<Jv>,
    choice: Choice,
)
    requires
        !flow.completed,
    ensures
        faithful(flow, completion(flow, finish_reason, usage, choice)),
{
    lemma_kinds();
    lemma_calls_ended(flow.calls);
    law_output_is_what_was_completed(flow, finish_reason, usage, choice);
    let step = completion(flow, finish_reason, usage, choice);
    let one = calls_ended(flow.calls);
    let two = message_ended(flow, choice.done_id);
    assert forall|i: int|
        0 <= i < step.events.len() && (#[trigger] step.events[i]).kind
            == "response.completed"@ implies carries(
        step.events[i],
        step.flow.response_id,
        step.flow.output,
    ) by {
        if i < one.len() {
            assert(step.events[i] == one[i]);
            assert(is_aside(one[i]));
        } else if i < one.len() + two.len() {
            assert(step.events[i] == two[i - one.len()]);
        } else {
            assert(step.events[i] == step.events.last());
        }
    }
}

proof fn lemma_faithful_end(
    flow: Flow,
    step: Step,
    finish_reason: Option<Seq<char>>,
    usage: Option<Jv>,
    choice: Choice,
)
    requires
        faithful(flow, step),
    ensures
        faithful(flow, ended_for(step, finish_reason, usage, choice)),
{
    if finish_reason is Some && !step.flow.completed {
        lemma_faithful_completion(step.flow, finish_reason, usage, choice);
        lemma_faithful_steps(flow, step, completion(step.flow, finish_reason, usage, choice));
    }
}

proof fn lemma_faithful_line(flow: Flow, line: Seq<char>, choice: Choice)
    ensures
        faithful(flow, after_line(flow, line, choice)),
{
    lemma_kinds();
    if flow.finished {
    } else if line_data(line) == Some("[DONE]"@) {
        if !flow.completed {
            lemma_faithful_completion(flow, None, None, choice);
            let step = completion(flow, None, None, choice);
            assert(after_line(flow, line, choice).events == step.events);
        }
    } else if let Some(chunk) = line_chunk(line) {
        let reason = finish_reason_in(chunk);
        let usage = chunk.get("usage"@);
        if let Some(deltas) = tool_deltas(chunk) {
            lemma_deltas(flow, deltas, choice);
            let step = after_deltas(flow, deltas, choice);
            assert forall|i: int| 0 <= i < step.events.len() implies (
            #[trigger] step.events[i]).kind != "response.completed"@ by {
                assert(is_aside(step.events[i]));
            }
            lemma_faithful_end(flow, step, reason, usage, choice);
        } else if !is_reasoning(chunk) {
            if let Some(content) = delta_content(chunk) {
                let step = after_content(flow, content, choice.message_id);
                assert(faithful(flow, step));
                lemma_faithful_end(flow, step, reason, usage, choice);
            } else {
                lemma_faithful_end(
                    flow,
                    Step { flow, events: Seq::empty() },
                    reason,
                    usage,
                    choice,
                );
            }
        }
    }
}

proof fn lemma_faithful_lines(flow: Flow, lines: Seq<Seq<char>>, choices: Seq<Choice>)
    ensures
        faithful(flow, after_lines(flow, lines, choices)),
    decreases lines.len(),
{
    if lines.len() > 0 {
        lemma_faithful_lines(flow, lines.drop_last(), choices.drop_last());
        let before = after_lines(flow, lines.drop_last(), choices.drop_last());
        lemma_faithful_line(before.flow, lines.last(), choices.last());
        lemma_faithful_steps(
            flow,
            before,
            after_line(before.flow, lines.last(), choices.last()),
        );
    }
}

// ─── Arguments ─────────────────────────────────────────────────────────────

/// The arguments of the call with the given index, as far as they have come in.
pub open spec fn arguments_of(calls: Seq<(usize, Call)>, index: usize) -> Seq<char> {
    match call_for(calls, index) {
        Some(call) => call.arguments,
        None => Seq::empty(),
    }
}

/// The pieces of arguments that a list of deltas brings for the call with the given index.
pub open spec fn pieces_for(deltas: Seq<Jv>, index: usize) -> Seq<char>
    decreases deltas.len(),
{
    if deltas.len() == 0 {
        Seq::empty()
    } else {
        let before = pieces_for(deltas.drop_last(), index);
        if delta_index(deltas.last()) == index && delta_arguments(deltas.last()) is Some {
            before + delta_arguments(deltas.last())->0
        } else {
            before
        }
    }
}

proof fn lemma_call_for(calls: Seq<(usize, Call)>, index: usize, call: Call, other: usize)
    ensures
        call_for(with_call(calls, index, call), other) == (if other == index {
            Some(call)
        } else {
            call_for(calls, other)
        }),
    decreases calls.len(),
{
    let after = with_call(calls, index, call);
    if calls.len() == 0 || calls.last().0 < index {
        assert(after.drop_last() =~= calls);
    } else if calls.last().0 == index {
        assert(after.drop_last() =~= calls.drop_last());
    } else {
        lemma_call_for(calls.drop_last(), index, call, other);
        assert(after.drop_last() =~= with_call(calls.drop_last(), index, call));
    }
}

/// The arguments of a tool call are made of the pieces that came in for it, in their order,
/// whatever came in for other calls between them.
pub proof fn law_arguments_add_up(flow: Flow, deltas: Seq<Jv>, choice: Choice, index: usize)
    ensures
        arguments_of(after_deltas(flow, deltas, choice).flow.calls, index) == arguments_of(
            flow.calls,
            index,
        ) + pieces_for(deltas, index),
    decreases deltas.len(),
{
    reveal_strlit("");
    let first = arguments_of(flow.calls, index);
    if deltas.len() == 0 {
        assert(first + pieces_for(deltas, index) =~= first);
    } else {
        law_arguments_add_up(flow, deltas.drop_last(), choice, index);
        let before = after_deltas(flow, deltas.drop_last(), choice);
        let delta = deltas.last();
        let k = deltas.len() - 1;
        let at = delta_index(delta);
        let begun = call_begun(before.flow, delta, choice.call_ids[k], choice.item_ids[k]);
        let new = begun_call(before.flow, delta, choice.call_ids[k], choice.item_ids[k]);
        lemma_call_for(before.flow.calls, at, new, index);
        lemma_call_for(before.flow.calls, at, new, at);
        assert(arguments_of(begun.flow.calls, index) =~= arguments_of(before.flow.calls, index));
        if let Some(piece) = delta_arguments(delta) {
            let call = call_for(begun.flow.calls, at)->0;
            let longer = Call { arguments: call.arguments + piece, ..call };
            lemma_call_for(begun.flow.calls, at, longer, index);
            let so_far = pieces_for(deltas.drop_last(), index);
            assert(first + so_far + piece =~= first + (so_far + piece));
        }
    }
}

// ─── Order ─────────────────────────────────────────────────────────────────

/// Whether output items stand in the order of their indices.
pub open spec fn in_output_order(items: Seq<(usize, Jv)>) -> bool {
    forall|i: int, j: int|
        0 <= i < j < items.len() ==> (#[trigger] items[i]).0 <= (#[trigger] items[j]).0
}

proof fn lemma_placed(items: Seq<(usize, Jv)>, item: (usize, Jv))
    requires
        in_output_order(items),
    ensures
        in_output_order(placed(items, item)),
        placed(items, item).to_multiset() == items.to_multiset().insert(item),
    decreases items.len(),
{
    broadcast use group_to_multiset_ensures;

    if items.len() == 0 || items.last().0 <= item.0 {
        let out = items.push(item);
        assert forall|i: int, j: int| 0 <= i < j < out.len() implies (#[trigger] out[i]).0 <= (
        #[trigger] out[j]).0 by {
            if j == items.len() && i < items.len() - 1 {
                assert(items[i].0 <= items[items.len() - 1].0);
            }
        }
    } else {
        let head = items.drop_last();
        let last = items.last();
        lemma_placed(head, item);
        let mid = placed(head, item);
        let out = mid.push(last);
        assert(items =~= head.push(last));
        assert(out.to_multiset() =~= items.to_multiset().insert(item));
        assert forall|i: int, j: int| 0 <= i < j < out.len() implies (#[trigger] out[i]).0 <= (
        #[trigger] out[j]).0 by {
            if j == mid.len() {
                assert(mid.contains(mid[i]));
                assert(mid.to_multiset().contains(mid[i]));
                if mid[i] != item {
                    assert(head.to_multiset().contains(mid[i]));
                    assert(head.contains(mid[i]));
                    let k = choose|k: int| 0 <= k < head.len() && head[k] == mid[i];
                    assert(items[k].0 <= items[items.len() - 1].0);
                }
            }
        }
    }
}

/// The output of a streamed response holds the items that it is made of, no more and no less,
/// in the order of their indices.
pub proof fn law_output_in_order(items: Seq<(usize, Jv)>)
    ensures
        in_output_order(by_output_index(items)),
        by_output_index(items).to_multiset() == items.to_multiset(),
    decreases items.len(),
{
    broadcast use group_to_multiset_ensures;

    if items.len() > 0 {
        law_output_in_order(items.drop_last());
        lemma_placed(by_output_index(items.drop_last()), items.last());
        assert(items =~= items.drop_last().push(items.last()));
    }
}

// ─── Where the chunks of the stream end does not matter ────────────────────

/// The lines of a stream are the same, wherever the texts end in which they come in.
pub proof fn law_lines_ignore_chunks(buffer: Seq<char>, a: Seq<char>, b: Seq<char>)
    ensures
        complete_lines(buffer, a + b) == complete_lines(buffer, a) + complete_lines(
            open_line(buffer, a),
            b,
        ),
        open_line(buffer, a + b) == open_line(open_line(buffer, a), b),
{
    assert(buffer + (a + b) =~= (buffer + a) + b);
    reveal_strlit("\n");
    lemma_split_ahead(buffer + a, b, "\n"@);
    lemma_split_not_empty(open_line(buffer, a) + b, "\n"@);
    let head = split(buffer + a, "\n"@).drop_last();
    let tail = split(open_line(buffer, a) + b, "\n"@);
    assert((head + tail).drop_last() =~= head + tail.drop_last());
    assert((head + tail).last() == tail.last());
}

spec fn with_buffer(step: Step, buffer: Seq<char>) -> Step {
    Step { flow: Flow { buffer, ..step.flow }, events: step.events }
}

proof fn lemma_deltas_buffer(flow: Flow, deltas: Seq<Jv>, choice: Choice, buffer: Seq<char>)
    ensures
        after_deltas(Flow { buffer, ..flow }, deltas, choice) == with_buffer(
            after_deltas(flow, deltas, choice),
            buffer,
        ),
    decreases deltas.len(),
{
    if deltas.len() > 0 {
        lemma_deltas_buffer(flow, deltas.drop_last(), choice, buffer);
    }
}

proof fn lemma_line_buffer(flow: Flow, line: Seq<char>, choice: Choice, buffer: Seq<char>)
    ensures
        after_line(Flow { buffer, ..flow }, line, choice) == with_buffer(
            after_line(flow, line, choice),
            buffer,
        ),
{
    if let Some(chunk) = line_chunk(line) {
        if let Some(deltas) = tool_deltas(chunk) {
            lemma_deltas_buffer(flow, deltas, choice, buffer);
        }
    }
}

proof fn lemma_lines_buffer(
    flow: Flow,
    lines: Seq<Seq<char>>,
    choices: Seq<Choice>,
    buffer: Seq<char>,
)
    ensures
        after_lines(Flow { buffer, ..flow }, lines, choices) == with_buffer(
            after_lines(flow, lines, choices),
            buffer,
        ),
    decreases lines.len(),
{
    if lines.len() > 0 {
        lemma_lines_buffer(flow, lines.drop_last(), choices.drop_last(), buffer);
        lemma_line_buffer(
            after_lines(flow, lines.drop_last(), choices.drop_last()).flow,
            lines.last(),
            choices.last(),
            buffer,
        );
    }
}

proof fn lemma_lines_concat(
    flow: Flow,
    first: Seq<Seq<char>>,
    second: Seq<Seq<char>>,
    choices1: Seq<Choice>,
    choices2: Seq<Choice>,
)
    requires
        first.len() == choices1.len(),
        second.len() == choices2.len(),
    ensures
        ({
            let one = after_lines(flow, first, choices1);
            let two = after_lines(one.flow, second, choices2);
            after_lines(flow, first + second, choices1 + choices2) == (Step {
                flow: two.flow,
                events: one.events + two.events,
            })
        }),
    decreases second.len(),
{
    let one = after_lines(flow, first, choices1);
    if second.len() == 0 {
        assert(first + second =~= first);
        assert(choices1 + choices2 =~= choices1);
        assert(one.events + Seq::<Event>::empty() =~= one.events);
    } else {
        lemma_lines_concat(flow, first, second.drop_last(), choices1, choices2.drop_last());
        assert((first + second).drop_last() =~= first + second.drop_last());
        assert((choices1 + choices2).drop_last() =~= choices1 + choices2.drop_last());
        let mid = after_lines(one.flow, second.drop_last(), choices2.drop_last());
        let last = after_line(mid.flow, second.last(), choices2.last());
        assert(one.events + mid.events + last.events =~= one.events + (mid.events + last.events));
    }
}

/// A stream that comes in two texts is translated as one that comes in one: the same events in
/// the same order, and the same state after them.
pub proof fn law_translation_ignores_chunks(
    flow: Flow,
    a: Seq<char>,
    b: Seq<char>,
    choices1: Seq<Choice>,
    choices2: Seq<Choice>,
)
    requires
        choices1.len() == complete_lines(flow.buffer, a).len(),
        choices2.len() == complete_lines(open_line(flow.buffer, a), b).len(),
    ensures
        ({
            let one = after_lines(
                Flow { buffer: open_line(flow.buffer, a), ..flow },
                complete_lines(flow.buffer, a),
                choices1,
            );
            let two = after_lines(
                Flow { buffer: open_line(one.flow.buffer, b), ..one.flow },
                complete_lines(one.flow.buffer, b),
                choices2,
            );
            after_lines(
                Flow { buffer: open_line(flow.buffer, a + b), ..flow },
                complete_lines(flow.buffer, a + b),
                choices1 + choices2,
            ) == (Step { flow: two.flow, events: one.events + two.events })
        }),
{
    let rest = open_line(flow.buffer, a);
    let end = open_line(rest, b);
    let first = complete_lines(flow.buffer, a);
    let second = complete_lines(rest, b);
    law_lines_ignore_chunks(flow.buffer, a, b);
    lemma_lines_concat(Flow { buffer: end, ..flow }, first, second, choices1, choices2);
    lemma_lines_buffer(flow, first, choices1, rest);
    lemma_lines_buffer(flow, first, choices1, end);
}

/// The state after a text of the stream, with one choice for each line that it completes.
pub open spec fn after_text(flow: Flow, text: Seq<char>, choices: Seq<Choice>) -> Step {
    after_lines(
        Flow { buffer: open_line(flow.buffer, text), ..flow },
        complete_lines(flow.buffer, text),
        choices,
    )
}

/// The state after a list of texts of the stream, as they come.
pub open spec fn after_texts(flow: Flow, texts: Seq<Seq<char>>, choices: Seq<Seq<Choice>>) -> Step
    decreases texts.len(),
{
    if texts.len() == 0 {
        Step { flow, events: Seq::empty() }
    } else {
        let before = after_texts(flow, texts.drop_last(), choices.drop_last());
        let last = after_text(before.flow, texts.last(), choices.last());
        Step { flow: last.flow, events: before.events + last.events }
    }
}

/// The lists of a list, one behind the other.
pub open spec fn together<T>(lists: Seq<Seq<T>>) -> Seq<T>
    decreases lists.len(),
{
    if lists.len() == 0 {
        Seq::empty()
    } else {
        together(lists.drop_last()) + lists.last()
    }
}

/// Whether there is one choice for each line that a text of the list completes, where `buffer`
/// has come in before.
pub open spec fn fits(
    buffer: Seq<char>,
    texts: Seq<Seq<char>>,
    choices: Seq<Seq<Choice>>,
) -> bool
    decreases texts.len(),
{
    choices.len() == texts.len() && (texts.len() > 0 ==> fits(
        buffer,
        texts.drop_last(),
        choices.drop_last(),
    ) && choices.last().len() == complete_lines(
        open_line(buffer, together(texts.drop_last())),
        texts.last(),
    ).len())
}

proof fn lemma_no_line(buffer: Seq<char>)
    requires
        !buffer.contains('\n'),
    ensures
        complete_lines(buffer, Seq::empty()) == Seq::<Seq<char>>::empty(),
        open_line(buffer, Seq::empty()) == buffer,
{
    reveal_strlit("\n");
    let line_end = "\n"@;
    assert(line_end.len() == 1 && line_end[0] == '\n');
    assert(buffer + Seq::<char>::empty() =~= buffer);
    lemma_first_at(buffer, line_end, 0);
    if let Some(i) = first_at(buffer, line_end, 0) {
        assert(buffer.subrange(i, i + 1)[0] == buffer[i]);
        assert(buffer.contains(buffer[i]));
    }
    assert(split(buffer, line_end) =~= seq![buffer]);
    assert(seq![buffer].drop_last() =~= Seq::empty());
}

/// A stream is translated as if it came in one text, whatever texts it comes in, cut within a
/// line or not: the same events in the same order, and the same state after them.
pub proof fn law_any_cut_is_no_cut(
    flow: Flow,
    texts: Seq<Seq<char>>,
    choices: Seq<Seq<Choice>>,
)
    requires
        !flow.buffer.contains('\n'),
        fits(flow.buffer, texts, choices),
    ensures
        after_texts(flow, texts, choices) == after_text(flow, together(texts), together(choices)),
        together(choices).len() == complete_lines(flow.buffer, together(texts)).len(),
    decreases texts.len(),
{
    if texts.len() == 0 {
        lemma_no_line(flow.buffer);
        assert(together(texts) =~= Seq::empty());
    } else {
        let head = texts.drop_last();
        law_any_cut_is_no_cut(flow, head, choices.drop_last());
        law_lines_ignore_chunks(flow.buffer, together(head), texts.last());
        law_translation_ignores_chunks(
            flow,
            together(head),
            texts.last(),
            together(choices.drop_last()),
            choices.last(),
        );
    }
}

/// However one stream is cut into texts, the same identifiers and times give the same events in
/// the same order, and the same state after them.
pub proof fn law_any_two_cuts_agree(
    flow: Flow,
    texts1: Seq<Seq<char>>,
    choices1: Seq<Seq<Choice>>,
    texts2: Seq<Seq<char>>,
    choices2: Seq<Seq<Choice>>,
)
    requires
        !flow.buffer.contains('\n'),
        fits(flow.buffer, texts1, choices1),
        fits(flow.buffer, texts2, choices2),
        together(texts1) == together(texts2),
        together(choices1) == together(choices2),
    ensures
        after_texts(flow, texts1, choices1) == after_texts(flow, texts2, choices2),
{
    law_any_cut_is_no_cut(flow, texts1, choices1);
    law_any_cut_is_no_cut(flow, texts2, choices2);
}

/// ASCII bytes encode a text, wherever they are cut.
pub proof fn law_ascii_is_text(bytes: Seq<u8>)
    requires
        forall|i: int| 0 <= i < bytes.len() ==> #[trigger] bytes[i] < 128,
    ensures
        valid_utf8(bytes),
    decreases bytes.len(),
{
    if bytes.len() > 0 {
        let first = bytes[0];
        assert(is_leading_byte_width_1(first));
        assert(valid_first_scalar(bytes));
        let rest = pop_first_scalar(bytes);
        assert(rest =~= bytes.skip(1));
        law_ascii_is_text(rest);
    }
}

/// Bytes that come in chunks, cut between characters, make the text that they make in one piece.
pub proof fn law_bytes_make_the_text(chunks: Seq<Seq<u8>>)
    requires
        forall|i: int| 0 <= i < chunks.len() ==> valid_utf8(#[trigger] chunks[i]),
    ensures
        valid_utf8(together(chunks)),
        decode_utf8(together(chunks)) == together(
            chunks.map_values(|chunk: Seq<u8>| decode_utf8(chunk)),
        ),
    decreases chunks.len(),
{
    let texts = chunks.map_values(|chunk: Seq<u8>| decode_utf8(chunk));
    if chunks.len() > 0 {
        let head = chunks.drop_last();
        assert forall|i: int| 0 <= i < head.len() implies valid_utf8(#[trigger] head[i]) by {
            assert(valid_utf8(chunks[i]));
        }
        law_bytes_make_the_text(head);
        assert(texts.drop_last() =~= head.map_values(|chunk: Seq<u8>| decode_utf8(chunk)));
        let a = together(head);
        let b = chunks.last();
        assert(valid_utf8(chunks[chunks.len() - 1]));
        valid_utf8_concat(a, b);
        decode_utf8_encode_utf8(a);
        decode_utf8_encode_utf8(b);
        lemma_encode_concat(decode_utf8(a), decode_utf8(b));
        encode_utf8_decode_utf8(decode_utf8(a) + decode_utf8(b));
    } else {
        assert(together(chunks) =~= Seq::empty());
        assert(together(texts) =~= Seq::empty());
    }
}

// ─── A whole stream ────────────────────────────────────────────────────────

/// The state in which a stream ends that comes in the given texts, and all events that are sent
/// for it.
pub open spec fn whole_run(
    start: Flow,
    created_at: i64,
    progress_at: i64,
    texts: Seq<Seq<char>>,
    choices: Seq<Seq<Choice>>,
    last: Choice,
) -> Step {
    let read = after_texts(start, texts, choices);
    let end = after_end(read.flow, last);
    Step {
        flow: end.flow,
        events: seq![
            created(start.response_id, start.model, start.previous, start.metadata, created_at),
            in_progress(
                start.response_id,
                start.model,
                start.previous,
                start.metadata,
                progress_at,
            ),
        ] + read.events + end.events,
    }
}

/// The events of a whole stream carry one identifier, and say exactly once that the response is
/// complete, with the output that is kept of it.
pub proof fn law_whole_run(
    response_id: Seq<char>,
    model: Seq<char>,
    previous: Option<Seq<char>>,
    metadata: Jv,
    created_at: i64,
    progress_at: i64,
    texts: Seq<Seq<char>>,
    choices: Seq<Seq<Choice>>,
    last: Choice,
)
    requires
        fits(Seq::empty(), texts, choices),
    ensures
        ({
            let start = flow_start(response_id, model, previous, metadata);
            let run = whole_run(start, created_at, progress_at, texts, choices, last);
            &&& run.flow.response_id == response_id
            &&& run.events.len() >= 3
            &&& run.events[0].kind == "response.created"@ && carries(
                run.events[0],
                response_id,
                Seq::empty(),
            )
            &&& run.events[1].kind == "response.in_progress"@ && carries(
                run.events[1],
                response_id,
                Seq::empty(),
            )
            &&& completions(run.events) == 1
            &&& forall|i: int|
                0 <= i < run.events.len() && (#[trigger] run.events[i]).kind
                    == "response.completed"@ ==> carries(
                    run.events[i],
                    response_id,
                    run.flow.output,
                )
        }),
{
    let start = flow_start(response_id, model, previous, metadata);
    let run = whole_run(start, created_at, progress_at, texts, choices, last);
    let lines = complete_lines(start.buffer, together(texts));
    let from = Flow { buffer: open_line(start.buffer, together(texts)), ..start };
    assert(start.buffer == Seq::<char>::empty());
    law_any_cut_is_no_cut(start, texts, choices);
    let read = after_lines(from, lines, together(choices));
    assert(read == after_texts(start, texts, choices));
    let end = after_end(read.flow, last);
    lemma_faithful_lines(from, lines, together(choices));
    lemma_completed_once(from, lines, together(choices));
    if !read.flow.completed {
        let reason = Some(fallback_reason(read.flow));
        lemma_faithful_completion(read.flow, reason, None, last);
        lemma_completion(read.flow, reason, None, last);
    }
    lemma_faithful_steps(from, read, end);
    lemma_concat(read.events, end.events);
    let opening = run.events.take(2);
    let rest = read.events + end.events;
    assert(run.events =~= opening + rest);
    lemma_concat(opening, rest);
    lemma_opening(start, created_at, progress_at);
    assert(opening =~= seq![
        created(response_id, model, previous, metadata, created_at),
        in_progress(response_id, model, previous, metadata, progress_at),
    ]);
    if rest.len() == 0 {
        assert(completions(rest) == 0);
    }
    assert forall|i: int|
        0 <= i < run.events.len() && (#[trigger] run.events[i]).kind
            == "response.completed"@ implies carries(run.events[i], response_id, run.flow.output) by {
        if i >= 2 {
            assert(run.events[i] == rest[i - 2]);
        } else {
            assert(run.events[i] == opening[i]);
        }
    }
}

proof fn lemma_opening(start: Flow, created_at: i64, progress_at: i64)
    ensures
        ({
            let one = created(
                start.response_id,
                start.model,
                start.previous,
                start.metadata,
                created_at,
            );
            let two = in_progress(
                start.response_id,
                start.model,
                start.previous,
                start.metadata,
                progress_at,
            );
            &&& completions(seq![one, two]) == 0
            &&& one.kind != "response.completed"@ && two.kind != "response.completed"@
            &&& carries(one, start.response_id, Seq::empty())
            &&& carries(two, start.response_id, Seq::empty())
        }),
{
    reveal_strlit("response.created");
    reveal_strlit("response.in_progress");
    reveal_strlit("response.completed");
    assert("response.created"@.len() == 16 && "response.in_progress"@.len() == 20
        && "response.completed"@.len() == 18);
    let one = created(
        start.response_id,
        start.model,
        start.previous,
        start.metadata,
        created_at,
    );
    let two = in_progress(
        start.response_id,
        start.model,
        start.previous,
        start.metadata,
        progress_at,
    );
    assert(all_not_completed(seq![one, two]));
    lemma_not_completed(seq![one, two]);
    reveal_strlit("output");
    reveal_strlit("id");
    reveal_strlit("object");
    reveal_strlit("created_at");
    reveal_strlit("status");
    reveal_strlit("model");
    reveal_strlit("previous_response_id");
    reveal_strlit("metadata");
    reveal_strlit("usage");
    reveal_strlit("response");
    reveal_strlit("type");
    assert("id"@.len() == 2 && "object"@.len() == 6 && "created_at"@.len() == 10 && "status"@.len()
        == 6 && "model"@.len() == 5 && "output"@.len() == 6 && "previous_response_id"@.len() == 20
        && "metadata"@.len() == 8 && "usage"@.len() == 5);
    assert("output"@[1] == 'u' && "object"@[1] == 'b' && "status"@[1] == 't');
}

spec fn all_not_completed(events: Seq<Event>) -> bool {
    forall|i: int|
        0 <= i < events.len() ==> (#[trigger] events[i]).kind != "response.completed"@
}

proof fn lemma_not_completed(events: Seq<Event>)
    requires
        all_not_completed(events),
    ensures
        completions(events) == 0,
    decreases events.len(),
{
    if events.len() > 0 {
        lemma_not_completed(events.drop_last());
        assert(events[events.len() - 1].kind != "response.completed"@);
    }
}

} // verus!
