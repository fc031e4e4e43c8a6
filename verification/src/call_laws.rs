//! How tool calls are streamed, and how a streamed response ends.

use vstd::prelude::*;

use crate::answer_laws::{
    ends_for, lemma_call_shown, lemma_message_shown, lemma_text_said, says, shows_call,
    shows_message,
};
use crate::events::Event;
use crate::flow::{
    after_chunk, after_delta, after_deltas, after_end, after_line, after_lines, begun_call,
    by_index, by_output_index, call_begun, call_for, calls_ended, completion, drawn_for,
    drawn_for_lines, end_items, end_output, flow_start, line_deltas, message_ended, placed,
    with_call, Call, Choice, Flow, Step,
};
use crate::json::Jv;
use crate::piece_laws::{
    brings, is_untagged, law_data_of_a_line, law_line_is_taken, law_pieces_make_the_text,
    line_brings,
};
use crate::response::usage_of;
use crate::text::{joined, trimmed};
use crate::text_laws::law_nothing_to_trim;
use crate::util::is_id;
use crate::wire::parsed;
use crate::words::lemma_words_differ;

verus! {

// ─── The calls under way ───────────────────────────────────────────────────

proof fn lemma_calls(calls: Seq<(usize, Call)>, index: usize, call: Call)
    requires
        by_index(calls),
    ensures
        ({
            let after = with_call(calls, index, call);
            &&& after.contains((index, call))
            &&& forall|k: int|
                0 <= k < calls.len() && calls[k].0 != index ==> after.contains(#[trigger] calls[k])
            &&& (forall|k: int| 0 <= k < calls.len() ==> (#[trigger] calls[k]).0 != index)
                ==> after.len() == calls.len() + 1
            &&& (exists|k: int| 0 <= k < calls.len() && (#[trigger] calls[k]).0 == index)
                ==> after.len() == calls.len()
        }),
    decreases calls.len(),
{
    let after = with_call(calls, index, call);
    let n = calls.len() as int;
    if calls.len() == 0 || calls.last().0 < index {
        assert(after[n] == (index, call));
        assert forall|k: int| 0 <= k < calls.len() && calls[k].0 != index implies after.contains(
            #[trigger] calls[k],
        ) by {
            assert(after[k] == calls[k]);
        }
        assert forall|k: int| 0 <= k < calls.len() implies (#[trigger] calls[k]).0 != index by {
            if k < n - 1 {
                assert(calls[k].0 < calls[n - 1].0);
            }
        }
    } else if calls.last().0 == index {
        assert(after[n - 1] == (index, call));
        assert(calls[n - 1].0 == index);
        assert forall|k: int| 0 <= k < calls.len() && calls[k].0 != index implies after.contains(
            #[trigger] calls[k],
        ) by {
            assert(after[k] == calls[k]);
        }
    } else {
        let head = calls.drop_last();
        let mid = with_call(head, index, call);
        lemma_calls(head, index, call);
        let j = choose|j: int| 0 <= j < mid.len() && mid[j] == (index, call);
        assert(after[j] == (index, call));
        assert forall|k: int| 0 <= k < calls.len() && calls[k].0 != index implies after.contains(
            #[trigger] calls[k],
        ) by {
            if k < n - 1 {
                assert(mid.contains(head[k]));
                let i = choose|i: int| 0 <= i < mid.len() && mid[i] == head[k];
                assert(after[i] == calls[k]);
            } else {
                assert(after[mid.len() as int] == calls[k]);
            }
        }
        if exists|k: int| 0 <= k < calls.len() && (#[trigger] calls[k]).0 == index {
            let k = choose|k: int| 0 <= k < calls.len() && (#[trigger] calls[k]).0 == index;
            assert(head[k].0 == index);
        } else {
            assert forall|k: int| 0 <= k < head.len() implies (#[trigger] head[k]).0 != index by {
                assert(calls[k].0 != index);
            }
        }
    }
}

proof fn lemma_call_at(calls: Seq<(usize, Call)>, index: usize)
    requires
        by_index(calls),
    ensures
        call_for(calls, index) is Some <==> exists|k: int|
            0 <= k < calls.len() && (#[trigger] calls[k]).0 == index,
        forall|call: Call| #[trigger]
            calls.contains((index, call)) ==> call_for(calls, index) == Some(call),
    decreases calls.len(),
{
    if calls.len() > 0 {
        let head = calls.drop_last();
        lemma_call_at(head, index);
        let n = calls.len() - 1;
        if calls.last().0 == index {
            assert(calls[n].0 == index);
            assert forall|call: Call| #[trigger] calls.contains((index, call)) implies call_for(
                calls,
                index,
            ) == Some(call) by {
                let k = choose|k: int| 0 <= k < calls.len() && calls[k] == (index, call);
                if k < n {
                    assert(calls[k].0 < calls[n].0);
                }
            }
        } else {
            if exists|k: int| 0 <= k < calls.len() && (#[trigger] calls[k]).0 == index {
                let k = choose|k: int| 0 <= k < calls.len() && (#[trigger] calls[k]).0 == index;
                assert(head[k].0 == index);
            }
            if exists|k: int| 0 <= k < head.len() && (#[trigger] head[k]).0 == index {
                let k = choose|k: int| 0 <= k < head.len() && (#[trigger] head[k]).0 == index;
                assert(calls[k].0 == index);
            }
            assert forall|call: Call| #[trigger] calls.contains((index, call)) implies call_for(
                calls,
                index,
            ) == Some(call) by {
                let k = choose|k: int| 0 <= k < calls.len() && calls[k] == (index, call);
                assert(head[k] == (index, call));
                assert(head.contains((index, call)));
            }
        }
    }
}

// ─── A piece of a tool call ────────────────────────────────────────────────

/// The index of a piece of a tool call: the number it gives, and zero where it gives none.
pub open spec fn piece_index(delta: Jv) -> usize {
    match delta.get("index"@) {
        Some(Jv::Int(n)) => if 0 <= n <= u64::MAX && n <= usize::MAX {
            n as usize
        } else {
            0
        },
        _ => 0,
    }
}

/// The piece of the arguments that a piece of a tool call brings.
pub open spec fn piece_arguments(delta: Jv) -> Option<Seq<char>> {
    match delta.get("function"@) {
        Some(Jv::Object(function)) => if function.dom().contains("arguments"@) {
            match function["arguments"@] {
                Jv::Str(arguments) => Some(arguments),
                _ => None,
            }
        } else {
            None
        },
        _ => None,
    }
}

/// An event that adds an item to the output.
pub open spec fn adds_item(event: Event, index: int) -> bool {
    &&& event.kind == "response.output_item.added"@
    &&& event.data.text_at("type"@) == Some("response.output_item.added"@)
    &&& event.data.get("output_index"@) == Some(Jv::Int(index))
    &&& event.data.get("item"@) is Some
}

/// An event that sends a piece of the arguments of a call.
pub open spec fn sends_arguments(
    event: Event,
    index: int,
    call_id: Seq<char>,
    arguments: Seq<char>,
) -> bool {
    &&& event.kind == "response.function_call_arguments.delta"@
    &&& event.data.text_at("type"@) == Some("response.function_call_arguments.delta"@)
    &&& event.data.get("output_index"@) == Some(Jv::Int(index))
    &&& event.data.text_at("call_id"@) == Some(call_id)
    &&& event.data.text_at("delta"@) == Some(arguments)
}

/// A piece for a call that is under way adds its arguments to that call and sends them; without
/// arguments it does nothing. The other calls stay as they are.
pub proof fn law_piece_of_a_known_call(
    flow: Flow,
    delta: Jv,
    call_id: Seq<char>,
    item_id: Seq<char>,
    call: Call,
)
    requires
        by_index(flow.calls),
        flow.calls.contains((piece_index(delta), call)),
    ensures
        ({
            let step = after_delta(flow, delta, call_id, item_id);
            match piece_arguments(delta) {
                None => step.flow == flow && step.events.len() == 0,
                Some(arguments) => {
                    &&& step.flow == (Flow { calls: step.flow.calls, ..flow })
                    &&& step.flow.calls.len() == flow.calls.len()
                    &&& step.flow.calls.contains(
                        (
                            piece_index(delta),
                            (Call { arguments: call.arguments + arguments, ..call }),
                        ),
                    )
                    &&& forall|k: int|
                        0 <= k < flow.calls.len() && flow.calls[k].0 != piece_index(delta)
                            ==> step.flow.calls.contains(#[trigger] flow.calls[k])
                    &&& step.events.len() == 1
                    &&& sends_arguments(
                        step.events[0],
                        call.output_idx as int,
                        call.call_id,
                        arguments,
                    )
                },
            }
        }),
{
    lemma_words_differ();
    let index = piece_index(delta);
    lemma_call_at(flow.calls, index);
    let k = choose|k: int| 0 <= k < flow.calls.len() && flow.calls[k] == (index, call);
    assert(flow.calls[k].0 == index);
    if let Some(arguments) = piece_arguments(delta) {
        lemma_calls(
            flow.calls,
            index,
            Call { arguments: call.arguments + arguments, ..call },
        );
    }
}

/// A piece for an index without a call begins one: under a new item identifier, with the
/// identifier that the piece gives (a new one where it gives none), its name, and the arguments
/// that it brings. The call is added to the output at its index, one further behind a message
/// that stands first; then its arguments are sent. The other calls stay as they are.
pub proof fn law_piece_of_a_new_call(
    flow: Flow,
    delta: Jv,
    call_id: Seq<char>,
    item_id: Seq<char>,
)
    requires
        by_index(flow.calls),
        forall|k: int| 0 <= k < flow.calls.len() ==> (#[trigger] flow.calls[k]).0 != piece_index(delta),
    ensures
        ({
            let step = after_delta(flow, delta, call_id, item_id);
            let index = piece_index(delta);
            let name = match delta.get("function"@) {
                Some(function) => match function.text_at("name"@) {
                    Some(name) => name,
                    None => ""@,
                },
                None => ""@,
            };
            let known_as = match delta.text_at("id"@) {
                Some(id) => id,
                None => "call_"@ + call_id,
            };
            let at = if flow.message_at == Some(0usize) {
                if index == usize::MAX {
                    0usize
                } else {
                    (index + 1) as usize
                }
            } else {
                index
            };
            let call = Call {
                id: "fc_"@ + item_id,
                call_id: known_as,
                name,
                arguments: match piece_arguments(delta) {
                    Some(arguments) => arguments,
                    None => ""@,
                },
                output_idx: at,
            };
            &&& step.flow == (Flow { calls: step.flow.calls, ..flow })
            &&& step.flow.calls.len() == flow.calls.len() + 1
            &&& step.flow.calls.contains((index, call))
            &&& forall|k: int|
                0 <= k < flow.calls.len() ==> step.flow.calls.contains(#[trigger] flow.calls[k])
            &&& step.events.len() > 0 && adds_item(step.events[0], at as int)
            &&& shows_call(
                step.events[0].data.get("item"@)->0,
                "fc_"@ + item_id,
                known_as,
                name,
                ""@,
                "in_progress"@,
            )
            &&& match piece_arguments(delta) {
                None => step.events.len() == 1,
                Some(arguments) => step.events.len() == 2 && sends_arguments(
                    step.events[1],
                    at as int,
                    known_as,
                    arguments,
                ),
            }
        }),
{
    lemma_words_differ();
    reveal_strlit("");
    let index = piece_index(delta);
    lemma_call_at(flow.calls, index);
    let new = begun_call(flow, delta, call_id, item_id);
    lemma_calls(flow.calls, index, new);
    lemma_call_shown(new.id, new.call_id, new.name, ""@, "in_progress"@);
    let begun = call_begun(flow, delta, call_id, item_id);
    let calls = begun.flow.calls;
    assert(calls == with_call(flow.calls, index, new));
    crate::flow::lemma_with_call(flow.calls, index, new);
    if let Some(arguments) = piece_arguments(delta) {
        assert(""@ + arguments =~= arguments);
        let full = Call { arguments: new.arguments + arguments, ..new };
        lemma_calls(calls, index, full);
        let step = after_delta(flow, delta, call_id, item_id);
        assert(step.flow.calls == with_call(calls, index, full));
        let j = choose|j: int| 0 <= j < calls.len() && calls[j] == (index, new);
        assert(calls[j].0 == index);
        assert forall|k: int| 0 <= k < flow.calls.len() implies step.flow.calls.contains(
            #[trigger] flow.calls[k],
        ) by {
            assert(calls.contains(flow.calls[k]));
            let i = choose|i: int| 0 <= i < calls.len() && calls[i] == flow.calls[k];
            assert(calls[i].0 != index);
        }
    }
}

/// The pieces of a chunk are taken one after the other, each with its own new identifiers, and the
/// events are sent in that order; a content beside them is not looked at.
pub proof fn law_pieces_of_calls(
    flow: Flow,
    chunk: Jv,
    delta: Jv,
    deltas: Seq<Jv>,
    piece: Jv,
    choice: Choice,
)
    ensures
        after_deltas(flow, Seq::empty(), choice).flow == flow,
        after_deltas(flow, Seq::empty(), choice).events.len() == 0,
        ({
            let before = after_deltas(flow, deltas, choice);
            let last = after_delta(
                before.flow,
                piece,
                choice.call_ids[deltas.len() as int],
                choice.item_ids[deltas.len() as int],
            );
            let all = after_deltas(flow, deltas.push(piece), choice);
            all.flow == last.flow && all.events == before.events + last.events
        }),
        brings(chunk, delta) && delta.get("tool_calls"@) == Some(Jv::Array(deltas))
            && chunk.items_at("choices"@)->0[0].text_at("finish_reason"@) is None ==> after_chunk(
            flow,
            chunk,
            choice,
        ) == after_deltas(flow, deltas, choice),
{
    assert(deltas.push(piece).drop_last() =~= deltas);
}

/// As many identifiers are drawn for a line as its chunk has pieces of calls, and none for any other
/// line.
pub proof fn law_identifiers_for_a_line(data: Seq<char>, choice: Choice)
    ensures
        (match parsed(trimmed(data)) {
            Some(chunk) => {
                let delta = chunk.items_at("choices"@)->0[0].get("delta"@)->0;
                let pieces = trimmed(data) != "[DONE]"@ && brings(chunk, delta) && delta.items_at(
                    "tool_calls"@,
                ) is Some;
                &&& pieces ==> line_deltas("data: "@ + data) == delta.items_at("tool_calls"@)->0.len()
                &&& !pieces ==> line_deltas("data: "@ + data) == 0
            },
            None => line_deltas("data: "@ + data) == 0,
        }),
        forall|n: nat| #[trigger]
            drawn_for(choice, n) ==> choice.call_ids.len() == n && choice.item_ids.len() == n
                && is_id(choice.message_id) && is_id(choice.done_id) && is_id(choice.output_id)
                && forall|i: int|
                0 <= i < n ==> is_id(#[trigger] choice.call_ids[i]) && is_id(choice.item_ids[i]),
{
    law_data_of_a_line(data, data);
    assert forall|n: nat| #[trigger] drawn_for(choice, n) implies choice.call_ids.len() == n
        && choice.item_ids.len() == n && is_id(choice.message_id) && is_id(choice.done_id) && is_id(
        choice.output_id,
    ) && forall|i: int|
        0 <= i < n ==> is_id(#[trigger] choice.call_ids[i]) && is_id(choice.item_ids[i]) by {
        assert forall|i: int| 0 <= i < n implies is_id(#[trigger] choice.call_ids[i]) && is_id(
            choice.item_ids[i],
        ) by {
            assert(is_id(choice.item_ids[i]));
        }
    }
}

/// For many lines they are drawn line by line.
pub proof fn law_identifiers_for_many_lines(choices: Seq<Choice>, lines: Seq<Seq<char>>)
    ensures
        drawn_for_lines(choices, lines) ==> choices.len() == lines.len(),
        drawn_for_lines(choices, lines) ==> forall|i: int|
            0 <= i < lines.len() ==> drawn_for(#[trigger] choices[i], line_deltas(lines[i])),
{
}

// ─── The order of the output ───────────────────────────────────────────────

proof fn lemma_placed_at(items: Seq<(usize, Jv)>, item: (usize, Jv)) -> (p: int)
    requires
        forall|i: int, j: int|
            0 <= i < j < items.len() ==> (#[trigger] items[i]).0 <= (#[trigger] items[j]).0,
    ensures
        0 <= p <= items.len(),
        placed(items, item) == items.insert(p, item),
        forall|i: int| 0 <= i < p ==> (#[trigger] items[i]).0 <= item.0,
        forall|i: int| p <= i < items.len() ==> (#[trigger] items[i]).0 > item.0,
    decreases items.len(),
{
    if items.len() == 0 || items.last().0 <= item.0 {
        assert(items.insert(items.len() as int, item) =~= items.push(item));
        assert forall|i: int| 0 <= i < items.len() implies (#[trigger] items[i]).0 <= item.0 by {
            if i < items.len() - 1 {
                assert(items[i].0 <= items[items.len() - 1].0);
            }
        }
        items.len() as int
    } else {
        let head = items.drop_last();
        let p = lemma_placed_at(head, item);
        assert(head.insert(p, item).push(items.last()) =~= items.insert(p, item));
        assert forall|i: int| 0 <= i < p implies (#[trigger] items[i]).0 <= item.0 by {
            assert(items[i] == head[i]);
        }
        assert forall|i: int| p <= i < items.len() implies (#[trigger] items[i]).0 > item.0 by {
            if i < head.len() {
                assert(items[i] == head[i]);
            }
        }
        p
    }
}

/// One more item goes in front of the first one with a greater index and behind all others: items
/// of one index stay in the order in which they came.
pub proof fn law_place_in_the_output(items: Seq<(usize, Jv)>, item: (usize, Jv)) -> (p: int)
    ensures
        by_output_index(Seq::empty()).len() == 0,
        ({
            let before = by_output_index(items);
            &&& 0 <= p <= before.len()
            &&& by_output_index(items.push(item)) == before.insert(p, item)
            &&& forall|i: int| 0 <= i < p ==> (#[trigger] before[i]).0 <= item.0
            &&& forall|i: int| p <= i < before.len() ==> (#[trigger] before[i]).0 > item.0
        }),
{
    assert(items.push(item).drop_last() =~= items);
    crate::stream_laws::law_output_in_order(items);
    lemma_placed_at(by_output_index(items), item)
}

/// A streamed response is made of its calls, in the order of their indices, each with its
/// identifiers, its name and all its arguments; and, where more than white space was sent, of one
/// message with the text, without the white space around it.
pub proof fn law_items_of_a_streamed_response(flow: Flow, id: Seq<char>)
    requires
        flow.calls.len() <= usize::MAX,
    ensures
        ({
            let items = end_items(flow, id);
            let text = trimmed(flow.text);
            &&& items.len() == flow.calls.len() + if text.len() > 0 {
                1int
            } else {
                0
            }
            &&& forall|k: int|
                0 <= k < flow.calls.len() ==> {
                    let call = (#[trigger] flow.calls[k]).1;
                    items[k].0 == call.output_idx && shows_call(
                        items[k].1,
                        call.id,
                        call.call_id,
                        call.name,
                        call.arguments,
                        "completed"@,
                    )
                }
            &&& text.len() > 0 ==> {
                let parts = items.last().1.items_at("content"@)->0;
                &&& items.last().0 == (match flow.message_at {
                    Some(at) => at,
                    None => flow.calls.len() as usize,
                })
                &&& shows_message(items.last().1, "msg_"@ + id, "completed"@, parts)
                &&& parts.len() == 1 && says(parts[0], text)
            }
            &&& end_output(flow, id).len() == by_output_index(items).len()
            &&& forall|k: int|
                0 <= k < end_output(flow, id).len() ==> #[trigger] end_output(flow, id)[k]
                    == by_output_index(items)[k].1
        }),
{
    lemma_words_differ();
    let items = end_items(flow, id);
    let text = trimmed(flow.text);
    assert forall|k: int| 0 <= k < flow.calls.len() implies ({
        let call = (#[trigger] flow.calls[k]).1;
        items[k].0 == call.output_idx && shows_call(
            items[k].1,
            call.id,
            call.call_id,
            call.name,
            call.arguments,
            "completed"@,
        )
    }) by {
        let call = flow.calls[k].1;
        lemma_call_shown(call.id, call.call_id, call.name, call.arguments, "completed"@);
        assert(items[k] == (call.output_idx, call.item()));
    }
    if text.len() > 0 {
        let parts = seq![crate::response::text_part(text)];
        lemma_message_shown("msg_"@ + id, "completed"@, parts);
        lemma_text_said(text);
    }
}

// ─── The end ───────────────────────────────────────────────────────────────

/// The two events that end a call: its whole arguments, and its item.
pub open spec fn ends_call(events: Seq<Event>, at: int, call: Call) -> bool {
    &&& events[at].kind == "response.function_call_arguments.done"@
    &&& events[at].data.text_at("type"@) == Some("response.function_call_arguments.done"@)
    &&& events[at].data.get("output_index"@) == Some(Jv::Int(call.output_idx as int))
    &&& events[at].data.text_at("call_id"@) == Some(call.call_id)
    &&& events[at].data.text_at("arguments"@) == Some(call.arguments)
    &&& events[at + 1].kind == "response.output_item.done"@
    &&& events[at + 1].data.text_at("type"@) == Some("response.output_item.done"@)
    &&& events[at + 1].data.get("output_index"@) == Some(Jv::Int(call.output_idx as int))
    &&& events[at + 1].data.get("item"@) is Some
    &&& shows_call(
        events[at + 1].data.get("item"@)->0,
        call.id,
        call.call_id,
        call.name,
        call.arguments,
        "completed"@,
    )
}

proof fn lemma_calls_ended(calls: Seq<(usize, Call)>)
    ensures
        calls_ended(calls).len() == 2 * calls.len(),
        forall|k: int|
            0 <= k < calls.len() ==> ends_call(
                calls_ended(calls),
                2 * k,
                (#[trigger] calls[k]).1,
            ),
    decreases calls.len(),
{
    lemma_words_differ();
    if calls.len() > 0 {
        let head = calls.drop_last();
        lemma_calls_ended(head);
        let n = calls.len() - 1;
        let call = calls[n].1;
        lemma_call_shown(call.id, call.call_id, call.name, call.arguments, "completed"@);
        assert forall|k: int| 0 <= k < calls.len() implies ends_call(
            calls_ended(calls),
            2 * k,
            (#[trigger] calls[k]).1,
        ) by {
            if k < n {
                assert(head[k] == calls[k]);
                assert(calls_ended(calls)[2 * k] == calls_ended(head)[2 * k]);
                assert(calls_ended(calls)[2 * k + 1] == calls_ended(head)[2 * k + 1]);
            }
        }
    }
}

/// The three events that end a message: its whole text, the part with it, and the item.
pub open spec fn ends_message(
    events: Seq<Event>,
    at: int,
    index: int,
    id: Seq<char>,
    text: Seq<char>,
) -> bool {
    &&& events[at].kind == "response.output_text.done"@
    &&& events[at].data.text_at("type"@) == Some("response.output_text.done"@)
    &&& events[at].data.get("output_index"@) == Some(Jv::Int(index))
    &&& events[at].data.get("content_index"@) == Some(Jv::Int(0))
    &&& events[at].data.text_at("text"@) == Some(text)
    &&& events[at + 1].kind == "response.content_part.done"@
    &&& events[at + 1].data.text_at("type"@) == Some("response.content_part.done"@)
    &&& events[at + 1].data.get("output_index"@) == Some(Jv::Int(index))
    &&& events[at + 1].data.get("content_index"@) == Some(Jv::Int(0))
    &&& events[at + 1].data.get("part"@) is Some
    &&& says(events[at + 1].data.get("part"@)->0, text)
    &&& events[at + 2].kind == "response.output_item.done"@
    &&& events[at + 2].data.text_at("type"@) == Some("response.output_item.done"@)
    &&& events[at + 2].data.get("output_index"@) == Some(Jv::Int(index))
    &&& events[at + 2].data.get("item"@) is Some
    &&& ({
        let item = events[at + 2].data.get("item"@)->0;
        let parts = item.items_at("content"@)->0;
        shows_message(item, id, "completed"@, parts) && parts.len() == 1 && says(parts[0], text)
    })
}

/// The events at the end of a streamed response: every call is ended, in the order of the indices;
/// then the message, where more than white space was sent; and last the response is completed.
pub proof fn law_events_at_the_end(
    flow: Flow,
    reason: Option<Seq<char>>,
    usage: Option<Jv>,
    choice: Choice,
)
    requires
        flow.calls.len() <= usize::MAX,
    ensures
        ({
            let step = completion(flow, reason, usage, choice);
            let text = trimmed(flow.text);
            let n = 2 * flow.calls.len() as int;
            &&& step.events.len() == n + (if text.len() > 0 {
                3int
            } else {
                0
            }) + 1
            &&& forall|k: int|
                0 <= k < flow.calls.len() ==> ends_call(
                    step.events,
                    2 * k,
                    (#[trigger] flow.calls[k]).1,
                )
            &&& text.len() > 0 ==> ends_message(
                step.events,
                n,
                match flow.message_at {
                    Some(at) => at as int,
                    None => flow.calls.len() as int,
                },
                "msg_"@ + choice.done_id,
                text,
            )
            &&& step.events.last().kind == "response.completed"@
            &&& step.events.last().data.text_at("type"@) == Some("response.completed"@)
            &&& step.events.last().data.get("response"@) is Some
        }),
{
    lemma_words_differ();
    let step = completion(flow, reason, usage, choice);
    let ended = calls_ended(flow.calls);
    lemma_calls_ended(flow.calls);
    assert forall|k: int| 0 <= k < flow.calls.len() implies ends_call(
        step.events,
        2 * k,
        (#[trigger] flow.calls[k]).1,
    ) by {
        assert(ends_call(ended, 2 * k, flow.calls[k].1));
        assert(step.events[2 * k] == ended[2 * k]);
        assert(step.events[2 * k + 1] == ended[2 * k + 1]);
    }
    let text = trimmed(flow.text);
    if text.len() > 0 {
        let parts = seq![crate::response::text_part(text)];
        lemma_message_shown("msg_"@ + choice.done_id, "completed"@, parts);
        lemma_text_said(text);
        let said = message_ended(flow, choice.done_id);
        let n = 2 * flow.calls.len() as int;
        assert(step.events[n] == said[0]);
        assert(step.events[n + 1] == said[1]);
        assert(step.events[n + 2] == said[2]);
    }
}

/// The response that a stream is completed with: its identifier, the present time, the model, the
/// output, the response it follows, the metadata, the usage, and how it ended; without a reason it
/// stopped. The same output is kept.
pub proof fn law_response_at_the_end(
    flow: Flow,
    reason: Option<Seq<char>>,
    usage: Option<Jv>,
    choice: Choice,
)
    ensures
        ({
            let step = completion(flow, reason, usage, choice);
            let response = step.events.last().data.get("response"@)->0;
            let output = end_output(flow, choice.output_id);
            &&& step.flow == (Flow { completed: true, output, ..flow })
            &&& response.text_at("id"@) == Some(flow.response_id)
            &&& response.text_at("object"@) == Some("response"@)
            &&& response.get("created_at"@) == Some(Jv::Int(choice.now as int))
            &&& response.text_at("model"@) == Some(flow.model)
            &&& response.items_at("output"@) == Some(output)
            &&& response.get("previous_response_id"@) == Some(
                match flow.previous {
                    Some(id) => Jv::Str(id),
                    None => Jv::Null,
                },
            )
            &&& response.get("metadata"@) == Some(flow.metadata)
            &&& response.get("usage"@) == Some(usage_of(usage))
            &&& ends_for(
                response,
                match reason {
                    Some(reason) => reason,
                    None => "stop"@,
                },
            )
            &&& forall|key: Seq<char>|
                key != "id"@ && key != "object"@ && key != "created_at"@ && key != "status"@ && key
                    != "model"@ && key != "output"@ && key != "previous_response_id"@ && key
                    != "metadata"@ && key != "usage"@ && key != "incomplete_details"@
                    ==> #[trigger] response.get(key) is None
        }),
{
    lemma_words_differ();
}

/// A chunk that gives a reason to finish completes the response for that reason, with the usage
/// that it tells, after what it brings has been added; a response is not completed twice, and a
/// chunk without a reason does not complete it.
pub proof fn law_reason_to_finish(flow: Flow, chunk: Jv, bare: Jv, delta: Jv, choice: Choice)
    requires
        brings(chunk, delta),
        brings(bare, delta),
        delta.get("reasoning_content"@) is None || delta.items_at("tool_calls"@) is Some,
        bare.items_at("choices"@)->0[0].text_at("finish_reason"@) is None,
    ensures
        ({
            let added = after_chunk(flow, bare, choice);
            let step = after_chunk(flow, chunk, choice);
            let reason = chunk.items_at("choices"@)->0[0].text_at("finish_reason"@);
            &&& added.flow.completed == flow.completed
            &&& reason is None || flow.completed ==> step == added
            &&& reason is Some && !flow.completed ==> {
                let end = completion(added.flow, reason, chunk.get("usage"@), choice);
                step.flow == end.flow && step.events == added.events + end.events
            }
        }),
{
    if let Some(deltas) = delta.items_at("tool_calls"@) {
        lemma_deltas_complete_nothing(flow, deltas, choice);
    }
}

/// A choice without a delta brings nothing but its reason to finish.
pub proof fn law_reason_without_a_delta(flow: Flow, chunk: Jv, choices: Seq<Jv>, choice: Choice)
    requires
        chunk.get("choices"@) == Some(Jv::Array(choices)),
        choices.len() > 0,
        choices[0].get("delta"@) is None,
    ensures
        ({
            let step = after_chunk(flow, chunk, choice);
            let reason = choices[0].text_at("finish_reason"@);
            &&& reason is None || flow.completed ==> step == (Step { flow, events: Seq::empty() })
            &&& reason is Some && !flow.completed ==> {
                let end = completion(flow, reason, chunk.get("usage"@), choice);
                step.flow == end.flow && step.events == end.events
            }
        }),
{
    let end = completion(flow, choices[0].text_at("finish_reason"@), chunk.get("usage"@), choice);
    assert(Seq::<Event>::empty() + end.events =~= end.events);
}

proof fn lemma_deltas_complete_nothing(flow: Flow, deltas: Seq<Jv>, choice: Choice)
    ensures
        after_deltas(flow, deltas, choice).flow.completed == flow.completed,
    decreases deltas.len(),
{
    if deltas.len() > 0 {
        lemma_deltas_complete_nothing(flow, deltas.drop_last(), choice);
    }
}

/// A streamed answer in its own words: lines that bring the pieces of text `contents`, without tags,
/// and then `[DONE]`, complete the response with one message, whose text is all the pieces, one after
/// the other, without the white space around them.
pub proof fn law_streamed_answer_in_its_words(
    response_id: Seq<char>,
    model: Seq<char>,
    previous: Option<Seq<char>>,
    metadata: Jv,
    lines: Seq<Seq<char>>,
    contents: Seq<Seq<char>>,
    choices: Seq<Choice>,
    choice: Choice,
)
    requires
        contents.len() == lines.len(),
        forall|i: int|
            0 <= i < lines.len() ==> line_brings(#[trigger] lines[i], contents[i]) && is_untagged(
                contents[i],
            ),
        trimmed(joined(contents, ""@)).len() > 0,
    ensures
        ({
            let start = flow_start(response_id, model, previous, metadata);
            let read = after_lines(start, lines, choices);
            let end = after_line(read.flow, "data: [DONE]"@, choice);
            let response = end.events.last().data.get("response"@)->0;
            let output = response.items_at("output"@)->0;
            let parts = output[0].items_at("content"@)->0;
            &&& end.flow.finished && end.flow.completed
            &&& end.events.len() > 0 && end.events.last().kind == "response.completed"@
            &&& response.text_at("status"@) == Some("completed"@)
            &&& response.text_at("id"@) == Some(response_id)
            &&& response.text_at("model"@) == Some(model)
            &&& response.items_at("output"@) is Some && output.len() == 1
            &&& shows_message(output[0], "msg_"@ + choice.output_id, "completed"@, parts)
            &&& parts.len() == 1 && says(parts[0], trimmed(joined(contents, ""@)))
        }),
{
    lemma_words_differ();
    let start = flow_start(response_id, model, previous, metadata);
    law_pieces_make_the_text(start, lines, contents, choices);
    let read = after_lines(start, lines, choices).flow;
    assert(Seq::<char>::empty() + joined(contents, ""@) =~= joined(contents, ""@));
    reveal_strlit("data: [DONE]");
    reveal_strlit("data: ");
    reveal_strlit("[DONE]");
    assert("data: "@ + "[DONE]"@ =~= "data: [DONE]"@);
    law_nothing_to_trim("[DONE]"@);
    law_line_is_taken(read, "data: [DONE]"@, "[DONE]"@, choice);
    law_events_at_the_end(read, Some("stop"@), None, choice);
    law_response_at_the_end(read, Some("stop"@), None, choice);
    law_items_of_a_streamed_response(read, choice.output_id);
    let items = end_items(read, choice.output_id);
    assert(items =~= Seq::empty().push(items[0]));
    let p = law_place_in_the_output(Seq::empty(), items[0]);
    assert(by_output_index(items) =~= seq![items[0]]);
}

/// A stream that breaks off without an end completes the response: as cut short where anything was
/// sent, and as stopped where nothing was. A response that is completed is left alone.
pub proof fn law_stream_breaks_off(flow: Flow, choice: Choice)
    ensures
        flow.completed ==> after_end(flow, choice) == (Step { flow, events: Seq::empty() }),
        !flow.completed ==> after_end(flow, choice) == completion(
            flow,
            if flow.text.len() == 0 && flow.calls.len() == 0 {
                Some("stop"@)
            } else {
                Some("length"@)
            },
            None,
            choice,
        ),
{
}

} // verus!
