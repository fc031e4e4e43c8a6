//! The events that tell a finished response, one by one.

use vstd::prelude::*;

use crate::answer_laws::{lemma_text_said, says};
use crate::call_laws::{adds_item, sends_arguments};
use crate::events::{created, framed, frames, in_progress, Event};
use crate::json::Jv;
use crate::replay::{
    content_events, item_events, output_events, part_events, piece_events, pieces, response_events,
};
use crate::wire::rendered;
use crate::words::lemma_words_differ;

verus! {

// ─── Frames ────────────────────────────────────────────────────────────────

/// An event goes over the wire as a line with its kind, a line with its data, and a blank line.
pub proof fn law_frame(kind: Seq<char>, line: Seq<char>)
    ensures
        framed(kind, line) == "event: "@ + kind + "\ndata: "@ + line + "\n\n"@,
{
}

/// The frames of a list of events are those of its events, in their order, each with its kind and
/// the JSON text of its data.
pub proof fn law_frames(events: Seq<Event>)
    ensures
        frames(events).len() == events.len(),
        forall|i: int|
            0 <= i < events.len() ==> #[trigger] frames(events)[i] == "event: "@ + events[i].kind
                + "\ndata: "@ + rendered(events[i].data) + "\n\n"@,
{
}

/// The response that the first two events show: in progress, without output, with nothing counted.
pub open spec fn shows_beginning(
    event: Event,
    kind: Seq<char>,
    id: Seq<char>,
    model: Seq<char>,
    previous: Option<Seq<char>>,
    metadata: Jv,
    now: int,
) -> bool {
    let response = event.data.get("response"@)->0;
    let usage = response.get("usage"@)->0;
    &&& event.kind == kind
    &&& event.data.text_at("type"@) == Some(kind)
    &&& event.data.get("response"@) is Some
    &&& response.text_at("id"@) == Some(id)
    &&& response.text_at("object"@) == Some("response"@)
    &&& response.get("created_at"@) == Some(Jv::Int(now))
    &&& response.text_at("status"@) == Some("in_progress"@)
    &&& response.text_at("model"@) == Some(model)
    &&& response.items_at("output"@) == Some(Seq::<Jv>::empty())
    &&& response.get("previous_response_id"@) == Some(
        match previous {
            Some(id) => Jv::Str(id),
            None => Jv::Null,
        },
    )
    &&& response.get("metadata"@) == Some(metadata)
    &&& response.get("usage"@) is Some
    &&& usage.get("input_tokens"@) == Some(Jv::Int(0))
    &&& usage.get("output_tokens"@) == Some(Jv::Int(0))
    &&& usage.get("total_tokens"@) == Some(Jv::Int(0))
}

/// The two events that a stream begins with show the response in progress.
pub proof fn law_beginning(
    id: Seq<char>,
    model: Seq<char>,
    previous: Option<Seq<char>>,
    metadata: Jv,
    now: i64,
)
    ensures
        shows_beginning(
            created(id, model, previous, metadata, now),
            "response.created"@,
            id,
            model,
            previous,
            metadata,
            now as int,
        ),
        shows_beginning(
            in_progress(id, model, previous, metadata, now),
            "response.in_progress"@,
            id,
            model,
            previous,
            metadata,
            now as int,
        ),
{
    lemma_words_differ();
}

// ─── The response ──────────────────────────────────────────────────────────

/// A finished response is told from its beginning, then item by item, and last whole.
pub proof fn law_response_is_told(response: Jv, created_at: i64, progress_at: i64)
    ensures
        ({
            let events = response_events(response, created_at, progress_at);
            let id = match response.text_at("id"@) {
                Some(id) => id,
                None => ""@,
            };
            let model = match response.text_at("model"@) {
                Some(model) => model,
                None => ""@,
            };
            let previous = response.text_at("previous_response_id"@);
            let metadata = match response.get("metadata"@) {
                Some(metadata) => metadata,
                None => Jv::Object(Map::<Seq<char>, Jv>::empty()),
            };
            let output = match response.items_at("output"@) {
                Some(output) => output,
                None => Seq::empty(),
            };
            &&& events.len() == output_events(output).len() + 3
            &&& shows_beginning(
                events[0],
                "response.created"@,
                id,
                model,
                previous,
                metadata,
                created_at as int,
            )
            &&& shows_beginning(
                events[1],
                "response.in_progress"@,
                id,
                model,
                previous,
                metadata,
                progress_at as int,
            )
            &&& events.subrange(2, events.len() - 1) == output_events(output)
            &&& events.last().kind == "response.completed"@
            &&& events.last().data.text_at("type"@) == Some("response.completed"@)
            &&& events.last().data.get("response"@) == Some(response)
        }),
{
    lemma_words_differ();
    let events = response_events(response, created_at, progress_at);
    let id = response.text_or("id"@, ""@);
    let model = response.text_or("model"@, ""@);
    let previous = response.text_at("previous_response_id"@);
    let metadata = response.get_or("metadata"@, crate::json::empty_object());
    law_beginning(id, model, previous, metadata, created_at);
    law_beginning(id, model, previous, metadata, progress_at);
    assert(events.subrange(2, events.len() - 1) =~= output_events(
        response.items_or_none("output"@),
    ));
}

/// The items of the output are told one after the other, each at its place.
pub proof fn law_items_are_told(output: Seq<Jv>, item: Jv)
    ensures
        output_events(Seq::empty()).len() == 0,
        output_events(output.push(item)) == output_events(output) + item_events(
            output.len() as int,
            item,
        ),
{
    assert(output.push(item).drop_last() =~= output);
}

/// An event that says that an item is done.
pub open spec fn ends_item(event: Event, index: int, item: Jv) -> bool {
    &&& event.kind == "response.output_item.done"@
    &&& event.data.text_at("type"@) == Some("response.output_item.done"@)
    &&& event.data.get("output_index"@) == Some(Jv::Int(index))
    &&& event.data.get("item"@) == Some(item)
}

/// A function call is told in four events: the item in progress without arguments, all the
/// arguments as one piece, all the arguments as done, and the item. A message is told by the item in
/// progress without content, then its content, then the item. No other item is told.
pub proof fn law_item_is_told(index: int, item: Jv)
    ensures
        item.text_at("type"@) == Some("function_call"@) ==> {
            let events = item_events(index, item);
            let begun = events[0].data.get("item"@)->0;
            let call_id = match item.text_at("call_id"@) {
                Some(id) => id,
                None => ""@,
            };
            let arguments = match item.text_at("arguments"@) {
                Some(arguments) => arguments,
                None => ""@,
            };
            &&& events.len() == 4
            &&& adds_item(events[0], index)
            &&& begun.text_at("status"@) == Some("in_progress"@)
            &&& begun.text_at("arguments"@) == Some(""@)
            &&& forall|key: Seq<char>|
                key != "status"@ && key != "arguments"@ ==> #[trigger] begun.get(key) == item.get(
                    key,
                )
            &&& sends_arguments(events[1], index, call_id, arguments)
            &&& events[2].kind == "response.function_call_arguments.done"@
            &&& events[2].data.text_at("type"@) == Some("response.function_call_arguments.done"@)
            &&& events[2].data.get("output_index"@) == Some(Jv::Int(index))
            &&& events[2].data.text_at("call_id"@) == Some(call_id)
            &&& events[2].data.text_at("arguments"@) == Some(arguments)
            &&& ends_item(events[3], index, item)
        },
        item.text_at("type"@) == Some("message"@) ==> {
            let events = item_events(index, item);
            let begun = events[0].data.get("item"@)->0;
            let content = match item.items_at("content"@) {
                Some(content) => content,
                None => Seq::empty(),
            };
            &&& events.len() == content_events(index, content).len() + 2
            &&& adds_item(events[0], index)
            &&& begun.text_at("status"@) == Some("in_progress"@)
            &&& begun.items_at("content"@) == Some(Seq::<Jv>::empty())
            &&& forall|key: Seq<char>|
                key != "status"@ && key != "content"@ ==> #[trigger] begun.get(key) == item.get(key)
            &&& events.subrange(1, events.len() - 1) == content_events(index, content)
            &&& ends_item(events.last(), index, item)
        },
        item.text_at("type"@) != Some("function_call"@) && item.text_at("type"@) != Some(
            "message"@,
        ) ==> item_events(index, item).len() == 0,
{
    lemma_words_differ();
    reveal_strlit("");
    if item.text_at("type"@) == Some("message"@) {
        let events = item_events(index, item);
        let content = item.items_or_none("content"@);
        assert(events.subrange(1, events.len() - 1) =~= content_events(index, content));
    }
}

// ─── The content of a message ──────────────────────────────────────────────

/// A text is cut into pieces of eighty characters, and a last one with the rest.
pub proof fn law_pieces_of_a_text(text: Seq<char>)
    ensures
        pieces(text).len() == (text.len() + 79) / 80,
        forall|k: int|
            0 <= k < pieces(text).len() ==> #[trigger] pieces(text)[k] == text.subrange(
                80 * k,
                if 80 * k + 80 <= text.len() {
                    80 * k + 80
                } else {
                    text.len() as int
                },
            ),
    decreases text.len(),
{
    if text.len() > 80 {
        let rest = text.skip(80);
        law_pieces_of_a_text(rest);
        assert forall|k: int| 0 <= k < pieces(text).len() implies #[trigger] pieces(text)[k]
            == text.subrange(
            80 * k,
            if 80 * k + 80 <= text.len() {
                80 * k + 80
            } else {
                text.len() as int
            },
        ) by {
            if k == 0 {
                assert(text.take(80) =~= text.subrange(0, 80));
            } else {
                assert(pieces(text)[k] == pieces(rest)[k - 1]);
                let to = if 80 * k + 80 <= text.len() {
                    80 * k + 80
                } else {
                    text.len() as int
                };
                assert(rest.subrange(80 * (k - 1), to - 80) =~= text.subrange(80 * k, to));
            }
        }
    } else if text.len() > 0 {
        assert(text.subrange(0, text.len() as int) =~= text);
    }
}

/// The parts of a message are told one after the other, each at its place.
pub proof fn law_parts_are_told(index: int, content: Seq<Jv>, part: Jv)
    ensures
        content_events(index, Seq::empty()).len() == 0,
        content_events(index, content.push(part)) == content_events(index, content) + part_events(
            index,
            content.len() as int,
            part,
        ),
{
    assert(content.push(part).drop_last() =~= content);
}

/// A text is told by an empty part, then piece by piece, then whole, then by the part itself. No
/// other part is told.
pub proof fn law_part_is_told(index: int, content_index: int, part: Jv)
    ensures
        part.text_at("type"@) != Some("output_text"@) ==> part_events(
            index,
            content_index,
            part,
        ).len() == 0,
        part.text_at("type"@) == Some("output_text"@) ==> {
            let events = part_events(index, content_index, part);
            let text = match part.text_at("text"@) {
                Some(text) => text,
                None => ""@,
            };
            let n = pieces(text).len();
            &&& events.len() == n + 3
            &&& forall|k: int|
                0 <= k < events.len() ==> (#[trigger] events[k]).data.get("output_index"@) == Some(
                    Jv::Int(index),
                ) && events[k].data.get("content_index"@) == Some(Jv::Int(content_index))
                    && events[k].data.text_at("type"@) == Some(events[k].kind)
            &&& events[0].kind == "response.content_part.added"@
            &&& events[0].data.get("part"@) is Some && says(events[0].data.get("part"@)->0, ""@)
            &&& forall|k: int|
                0 <= k < n ==> (#[trigger] events[k + 1]).kind == "response.output_text.delta"@
                    && events[k + 1].data.text_at("delta"@) == Some(pieces(text)[k])
            &&& events[n as int + 1].kind == "response.output_text.done"@
            &&& events[n as int + 1].data.text_at("text"@) == Some(text)
            &&& events[n as int + 2].kind == "response.content_part.done"@
            &&& events[n as int + 2].data.get("part"@) == Some(part)
        },
{
    lemma_words_differ();
    lemma_text_said(""@);
    if part.text_at("type"@) == Some("output_text"@) {
        let events = part_events(index, content_index, part);
        let text = part.text_or("text"@, ""@);
        let told = piece_events(index, content_index, pieces(text));
        let n = pieces(text).len() as int;
        assert(told.len() == n);
        assert forall|k: int| 0 <= k < n implies (#[trigger] events[k + 1]) == told[k] by {}
        assert forall|k: int| 0 <= k < events.len() implies (#[trigger] events[k]).data.get(
            "output_index"@,
        ) == Some(Jv::Int(index)) && events[k].data.get("content_index"@) == Some(
            Jv::Int(content_index),
        ) && events[k].data.text_at("type"@) == Some(events[k].kind) by {
            if 1 <= k <= n {
                assert(events[(k - 1) + 1] == told[k - 1]);
            }
        }
    }
}

} // verus!
