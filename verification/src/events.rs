//! The server-sent events of a streamed response.

use vstd::prelude::*;
use vstd::string::*;

use crate::capture::{complete_blocks, completed_in, completed_in_all, law_event_is_one_block};
use crate::json::{empty_object, group_json, opt_text, views, Json, Jv};
use crate::response::{base_object, is_time, nullable_text, response_base, text_or_null};
use crate::text::texts;
use crate::util::now_unix;
use crate::wire::{one_line, parsed, plain, rendered};

verus! {

broadcast use group_json;

/// An event: what kind it is of, and what it carries.
#[verifier::ext_equal]
pub struct Event {
    pub kind: Seq<char>,
    pub data: Jv,
}

/// The text on the wire of an event of a kind, with its data in one line.
pub open spec fn framed(kind: Seq<char>, line: Seq<char>) -> Seq<char> {
    "event: "@ + kind + "\ndata: "@ + line + "\n\n"@
}

impl Event {
    /// The text of the event on the wire.
    pub open spec fn frame(self) -> Seq<char> {
        framed(self.kind, rendered(self.data))
    }
}

/// The texts of a list of events.
pub open spec fn frames(events: Seq<Event>) -> Seq<Seq<char>> {
    events.map_values(|e: Event| e.frame())
}

/// The text on the wire of an event of a kind, with its data in one line.
pub fn sse_frame(event_type: &str, line: &str) -> (r: String)
    ensures
        r@ == framed(event_type@, line@),
{
    let mut r = "event: ".to_owned();
    r.append(event_type);
    r.append("\ndata: ");
    r.append(line);
    r.append("\n\n");
    r
}

/// The text of an event on the wire: its kind, its data in one line, and an empty line. Data
/// that is sure to read back does so from its line.
pub fn sse(event_type: &str, data: &Json) -> (r: String)
    ensures
        r@ == (Event { kind: event_type@, data: data@ }).frame(),
        one_line(rendered(data@)),
        data@ is Object ==> rendered(data@)[0] == '{',
        plain(data@, 127) ==> parsed(rendered(data@)) == Some(data@),
{
    sse_frame(event_type, data.render().as_str())
}

// ─── The events ────────────────────────────────────────────────────────────

/// An event whose data repeats its kind.
pub open spec fn typed(kind: Seq<char>) -> Jv {
    empty_object().put("type"@, Jv::Str(kind))
}

/// A response that has only just begun.
pub open spec fn begun(
    id: Seq<char>,
    model: Seq<char>,
    previous: Option<Seq<char>>,
    metadata: Jv,
    status: Seq<char>,
    now: i64,
) -> Jv {
    response_base(id, now as int, status, model, Seq::empty()).put(
        "previous_response_id"@,
        text_or_null(previous),
    ).put("metadata"@, metadata).put(
        "usage"@,
        empty_object().put("input_tokens"@, Jv::Int(0)).put("output_tokens"@, Jv::Int(0)).put(
            "total_tokens"@,
            Jv::Int(0),
        ),
    )
}

pub open spec fn created(
    id: Seq<char>,
    model: Seq<char>,
    previous: Option<Seq<char>>,
    metadata: Jv,
    now: i64,
) -> Event {
    Event {
        kind: "response.created"@,
        data: typed("response.created"@).put(
            "response"@,
            begun(id, model, previous, metadata, "in_progress"@, now),
        ),
    }
}

pub open spec fn in_progress(
    id: Seq<char>,
    model: Seq<char>,
    previous: Option<Seq<char>>,
    metadata: Jv,
    now: i64,
) -> Event {
    Event {
        kind: "response.in_progress"@,
        data: typed("response.in_progress"@).put(
            "response"@,
            begun(id, model, previous, metadata, "in_progress"@, now),
        ),
    }
}

pub open spec fn item_added(index: int, item: Jv) -> Event {
    Event {
        kind: "response.output_item.added"@,
        data: typed("response.output_item.added"@).put("output_index"@, Jv::Int(index)).put(
            "item"@,
            item,
        ),
    }
}

pub open spec fn item_done(index: int, item: Jv) -> Event {
    Event {
        kind: "response.output_item.done"@,
        data: typed("response.output_item.done"@).put("output_index"@, Jv::Int(index)).put(
            "item"@,
            item,
        ),
    }
}

pub open spec fn part_added(index: int, content_index: int, part: Jv) -> Event {
    Event {
        kind: "response.content_part.added"@,
        data: typed("response.content_part.added"@).put("output_index"@, Jv::Int(index)).put(
            "content_index"@,
            Jv::Int(content_index),
        ).put("part"@, part),
    }
}

pub open spec fn part_done(index: int, content_index: int, part: Jv) -> Event {
    Event {
        kind: "response.content_part.done"@,
        data: typed("response.content_part.done"@).put("output_index"@, Jv::Int(index)).put(
            "content_index"@,
            Jv::Int(content_index),
        ).put("part"@, part),
    }
}

pub open spec fn text_delta(index: int, content_index: int, delta: Seq<char>) -> Event {
    Event {
        kind: "response.output_text.delta"@,
        data: typed("response.output_text.delta"@).put("output_index"@, Jv::Int(index)).put(
            "content_index"@,
            Jv::Int(content_index),
        ).put("delta"@, Jv::Str(delta)),
    }
}

pub open spec fn text_done(index: int, content_index: int, text: Seq<char>) -> Event {
    Event {
        kind: "response.output_text.done"@,
        data: typed("response.output_text.done"@).put("output_index"@, Jv::Int(index)).put(
            "content_index"@,
            Jv::Int(content_index),
        ).put("text"@, Jv::Str(text)),
    }
}

pub open spec fn args_delta(index: int, call_id: Seq<char>, delta: Seq<char>) -> Event {
    Event {
        kind: "response.function_call_arguments.delta"@,
        data: typed("response.function_call_arguments.delta"@).put(
            "output_index"@,
            Jv::Int(index),
        ).put("call_id"@, Jv::Str(call_id)).put("delta"@, Jv::Str(delta)),
    }
}

pub open spec fn args_done(index: int, call_id: Seq<char>, arguments: Seq<char>) -> Event {
    Event {
        kind: "response.function_call_arguments.done"@,
        data: typed("response.function_call_arguments.done"@).put(
            "output_index"@,
            Jv::Int(index),
        ).put("call_id"@, Jv::Str(call_id)).put("arguments"@, Jv::Str(arguments)),
    }
}

pub open spec fn completed(response: Jv) -> Event {
    Event {
        kind: "response.completed"@,
        data: typed("response.completed"@).put("response"@, response),
    }
}

// ─── Their texts ───────────────────────────────────────────────────────────

fn typed_object(kind: &str) -> (r: Json)
    ensures
        r@ == typed(kind@),
{
    Json::object().with("type", Json::text(kind))
}

fn base_response(
    id: &str,
    model: &str,
    prev_id: Option<&str>,
    meta: &Json,
    status: &str,
    now: i64,
) -> (r: Json)
    ensures
        r@ == begun(id@, model@, opt_text(prev_id), meta@, status@, now),
{
    let none: Vec<Json> = Vec::new();
    assert(views(none@) =~= Seq::empty());
    let usage = Json::object().with("input_tokens", Json::Unsigned(0)).with(
        "output_tokens",
        Json::Unsigned(0),
    ).with("total_tokens", Json::Unsigned(0));
    base_object(id, now, status, model, none).with(
        "previous_response_id",
        nullable_text(prev_id),
    ).with("metadata", meta.clone()).with("usage", usage)
}

/// The first event of a stream, at a given time.
pub fn event_created_at(
    response_id: &str,
    model: &str,
    prev_id: Option<&str>,
    meta: &Json,
    now: i64,
) -> (r: String)
    ensures
        r@ == created(response_id@, model@, opt_text(prev_id), meta@, now).frame(),
{
    let base = base_response(response_id, model, prev_id, meta, "in_progress", now);
    sse("response.created", &typed_object("response.created").with("response", base))
}

/// The second event of a stream, at a given time.
pub fn event_in_progress_at(
    response_id: &str,
    model: &str,
    prev_id: Option<&str>,
    meta: &Json,
    now: i64,
) -> (r: String)
    ensures
        r@ == in_progress(response_id@, model@, opt_text(prev_id), meta@, now).frame(),
{
    let base = base_response(response_id, model, prev_id, meta, "in_progress", now);
    sse("response.in_progress", &typed_object("response.in_progress").with("response", base))
}

/// The first event of a stream; what time it is is left to the clock.
pub fn event_created(response_id: &str, model: &str, prev_id: Option<&str>, meta: &Json) -> (r:
    String)
    ensures
        exists|now: i64| #[trigger]
            is_time(now) && r@ == created(
                response_id@,
                model@,
                opt_text(prev_id),
                meta@,
                now,
            ).frame(),
{
    let now = now_unix();
    assert(is_time(now));
    event_created_at(response_id, model, prev_id, meta, now)
}

/// The second event of a stream; what time it is is left to the clock.
pub fn event_in_progress(response_id: &str, model: &str, prev_id: Option<&str>, meta: &Json) -> (r:
    String)
    ensures
        exists|now: i64| #[trigger]
            is_time(now) && r@ == in_progress(
                response_id@,
                model@,
                opt_text(prev_id),
                meta@,
                now,
            ).frame(),
{
    let now = now_unix();
    assert(is_time(now));
    event_in_progress_at(response_id, model, prev_id, meta, now)
}

pub fn event_output_item_added(out_idx: usize, item: Json) -> (r: String)
    ensures
        r@ == item_added(out_idx as int, item@).frame(),
{
    sse(
        "response.output_item.added",
        &typed_object("response.output_item.added").with("output_index", Json::count(out_idx)).with(
            "item",
            item,
        ),
    )
}

pub fn event_content_part_added(out_idx: usize, content_idx: usize, part: Json) -> (r: String)
    ensures
        r@ == part_added(out_idx as int, content_idx as int, part@).frame(),
{
    sse(
        "response.content_part.added",
        &typed_object("response.content_part.added").with(
            "output_index",
            Json::count(out_idx),
        ).with("content_index", Json::count(content_idx)).with("part", part),
    )
}

pub fn event_text_delta(out_idx: usize, content_idx: usize, delta: &str) -> (r: String)
    ensures
        r@ == text_delta(out_idx as int, content_idx as int, delta@).frame(),
{
    sse(
        "response.output_text.delta",
        &typed_object("response.output_text.delta").with("output_index", Json::count(out_idx)).with(
            "content_index",
            Json::count(content_idx),
        ).with("delta", Json::text(delta)),
    )
}

pub fn event_text_done(out_idx: usize, content_idx: usize, text: &str) -> (r: String)
    ensures
        r@ == text_done(out_idx as int, content_idx as int, text@).frame(),
{
    sse(
        "response.output_text.done",
        &typed_object("response.output_text.done").with("output_index", Json::count(out_idx)).with(
            "content_index",
            Json::count(content_idx),
        ).with("text", Json::text(text)),
    )
}

pub fn event_content_part_done(out_idx: usize, content_idx: usize, part: Json) -> (r: String)
    ensures
        r@ == part_done(out_idx as int, content_idx as int, part@).frame(),
{
    sse(
        "response.content_part.done",
        &typed_object("response.content_part.done").with("output_index", Json::count(out_idx)).with(
            "content_index",
            Json::count(content_idx),
        ).with("part", part),
    )
}

pub fn event_output_item_done(out_idx: usize, item: Json) -> (r: String)
    ensures
        r@ == item_done(out_idx as int, item@).frame(),
{
    sse(
        "response.output_item.done",
        &typed_object("response.output_item.done").with("output_index", Json::count(out_idx)).with(
            "item",
            item,
        ),
    )
}

pub fn event_fn_args_delta(out_idx: usize, call_id: &str, delta: &str) -> (r: String)
    ensures
        r@ == args_delta(out_idx as int, call_id@, delta@).frame(),
{
    sse(
        "response.function_call_arguments.delta",
        &typed_object("response.function_call_arguments.delta").with(
            "output_index",
            Json::count(out_idx),
        ).with("call_id", Json::text(call_id)).with("delta", Json::text(delta)),
    )
}

pub fn event_fn_args_done(out_idx: usize, call_id: &str, arguments: &str) -> (r: String)
    ensures
        r@ == args_done(out_idx as int, call_id@, arguments@).frame(),
{
    sse(
        "response.function_call_arguments.done",
        &typed_object("response.function_call_arguments.done").with(
            "output_index",
            Json::count(out_idx),
        ).with("call_id", Json::text(call_id)).with("arguments", Json::text(arguments)),
    )
}

/// The last event of a stream. A response that is sure to read back is captured from it again.
pub fn event_completed(response: Json) -> (r: String)
    ensures
        r@ == completed(response@).frame(),
        plain(completed(response@).data, 127) ==> completed_in_all(
            complete_blocks(Seq::empty(), r@),
        ) == seq![response@],
{
    let data = typed_object("response.completed").with("response", response);
    let r = sse("response.completed", &data);
    proof {
        reveal_strlit("response.completed");
        reveal_strlit("[DONE]");
        let kind = "response.completed"@;
        let line = rendered(data@);
        let block = "event: "@ + kind + "\ndata: "@ + line;
        law_event_is_one_block(kind, line);
        assert(r@ =~= block + "\n\n"@);
        if plain(data@, 127) {
            assert(data@.get("response"@) == Some(response@));
            assert(completed_in(block) == Some(response@));
            let blocks = seq![block];
            assert(blocks.drop_last() =~= Seq::empty());
            assert(completed_in_all(blocks.drop_last()) =~= Seq::empty());
            assert(completed_in_all(blocks) =~= seq![response@]);
        }
    }
    r
}

/// One more event behind a list of them.
pub broadcast proof fn lemma_frames_push(events: Seq<Event>, event: Event)
    ensures
        #[trigger] frames(events.push(event)) == frames(events).push(event.frame()),
{
    assert(frames(events.push(event)) =~= frames(events).push(event.frame()));
}

pub broadcast proof fn lemma_texts_push(list: Seq<String>, text: String)
    ensures
        #[trigger] texts(list.push(text)) == texts(list).push(text@),
{
    assert(texts(list.push(text)) =~= texts(list).push(text@));
}

} // verus!
