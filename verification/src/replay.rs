//! A response that is already complete, as the events of a stream.

use vstd::prelude::*;
use vstd::string::*;

use crate::events::{
    args_delta, args_done, completed, created, event_completed, event_content_part_added,
    event_content_part_done, event_created_at, event_fn_args_delta, event_fn_args_done,
    event_in_progress_at, event_output_item_added, event_output_item_done, event_text_delta,
    event_text_done, frames, in_progress, item_added, item_done, lemma_frames_push,
    lemma_texts_push, part_added, part_done, text_delta, text_done, Event,
};
use crate::json::{empty_object, group_json, opt_text, views, Json, Jv};
use crate::response::{is_time, output_text, text_part};
use crate::stream_laws::{
    all_aside, deltas_text, lemma_aside, lemma_concat, lemma_delta_member, lemma_kinds,
};
use crate::text::{chars_of, same, text_of, texts};
use crate::util::now_unix;

verus! {

broadcast use {group_json, lemma_frames_push, lemma_texts_push};

/// How many characters one piece of text holds at most.
pub const PIECE: usize = 80;

/// A text in pieces, each as long as it can be.
pub open spec fn pieces(text: Seq<char>) -> Seq<Seq<char>>
    decreases text.len(),
{
    if text.len() == 0 {
        Seq::empty()
    } else if text.len() <= PIECE {
        seq![text]
    } else {
        seq![text.take(PIECE as int)] + pieces(text.skip(PIECE as int))
    }
}

/// The events for a text in pieces.
pub open spec fn piece_events(index: int, content_index: int, list: Seq<Seq<char>>) -> Seq<Event> {
    list.map_values(|piece: Seq<char>| text_delta(index, content_index, piece))
}

/// The events for one part of a message. Parts that are no text have none.
pub open spec fn part_events(index: int, content_index: int, part: Jv) -> Seq<Event> {
    if part.text_at("type"@) == Some("output_text"@) {
        let text = part.text_or("text"@, ""@);
        seq![part_added(index, content_index, text_part(""@))] + piece_events(
            index,
            content_index,
            pieces(text),
        ) + seq![text_done(index, content_index, text), part_done(index, content_index, part)]
    } else {
        Seq::empty()
    }
}

/// The events for the parts of a message.
pub open spec fn content_events(index: int, content: Seq<Jv>) -> Seq<Event>
    decreases content.len(),
{
    if content.len() == 0 {
        Seq::empty()
    } else {
        content_events(index, content.drop_last()) + part_events(
            index,
            content.len() - 1,
            content.last(),
        )
    }
}

/// The events for one output item. Items that are neither a call nor a message have none.
pub open spec fn item_events(index: int, item: Jv) -> Seq<Event> {
    let kind = item.text_or("type"@, ""@);
    if kind == "function_call"@ {
        let call_id = item.text_or("call_id"@, ""@);
        let arguments = item.text_or("arguments"@, ""@);
        seq![
            item_added(
                index,
                item.put("status"@, Jv::Str("in_progress"@)).put("arguments"@, Jv::Str(""@)),
            ),
            args_delta(index, call_id, arguments),
            args_done(index, call_id, arguments),
            item_done(index, item),
        ]
    } else if kind == "message"@ {
        seq![
            item_added(
                index,
                item.put("status"@, Jv::Str("in_progress"@)).put(
                    "content"@,
                    Jv::Array(Seq::empty()),
                ),
            ),
        ] + content_events(index, item.items_or_none("content"@)) + seq![item_done(index, item)]
    } else {
        Seq::empty()
    }
}

/// The events for the output of a response.
pub open spec fn output_events(output: Seq<Jv>) -> Seq<Event>
    decreases output.len(),
{
    if output.len() == 0 {
        Seq::empty()
    } else {
        output_events(output.drop_last()) + item_events(output.len() - 1, output.last())
    }
}

/// The events for a response, the two first of them at the given times.
pub open spec fn response_events(response: Jv, created_at: i64, progress_at: i64) -> Seq<Event> {
    let id = response.text_or("id"@, ""@);
    let model = response.text_or("model"@, ""@);
    let previous = response.text_at("previous_response_id"@);
    let metadata = response.get_or("metadata"@, empty_object());
    (seq![
        created(id, model, previous, metadata, created_at),
        in_progress(id, model, previous, metadata, progress_at),
    ] + output_events(response.items_or_none("output"@))).push(completed(response))
}

fn replay_text(index: usize, content_index: usize, text: &str, out: &mut Vec<String>)
    ensures
        texts(final(out)@) == texts(old(out)@) + frames(
            piece_events(index as int, content_index as int, pieces(text@)),
        ),
{
    let chars = chars_of(text);
    let total = chars.len();
    let ghost goal = pieces(text@);
    let ghost mut done: Seq<Seq<char>> = Seq::empty();
    let mut at: usize = 0;
    assert(text@.skip(0) =~= text@);
    assert(done + pieces(text@) =~= pieces(text@));
    assert(texts(out@) =~= texts(old(out)@) + frames(
        piece_events(index as int, content_index as int, done),
    ));
    while at < total
        invariant
            at <= total,
            total == chars@.len(),
            chars@ == text@,
            goal == pieces(text@),
            done + pieces(text@.skip(at as int)) == goal,
            texts(out@) == texts(old(out)@) + frames(
                piece_events(index as int, content_index as int, done),
            ),
        decreases total - at,
    {
        let end: usize = if total - at <= PIECE {
            total
        } else {
            at + PIECE
        };
        let piece = text_of(&chars, at, end);
        out.push(event_text_delta(index, content_index, piece.as_str()));
        proof {
            let rest = text@.skip(at as int);
            if total - at <= PIECE {
                assert(piece@ =~= rest);
                assert(text@.skip(end as int) =~= Seq::empty());
                assert(done + seq![rest] =~= done.push(piece@) + pieces(text@.skip(end as int)));
            } else {
                assert(piece@ =~= rest.take(PIECE as int));
                assert(rest.skip(PIECE as int) =~= text@.skip(end as int));
                assert(done + (seq![piece@] + pieces(text@.skip(end as int))) =~= done.push(piece@)
                    + pieces(text@.skip(end as int)));
            }
            let before = piece_events(index as int, content_index as int, done);
            assert(piece_events(index as int, content_index as int, done.push(piece@))
                =~= before.push(text_delta(index as int, content_index as int, piece@)));
            assert(texts(out@) =~= texts(old(out)@) + frames(
                before.push(text_delta(index as int, content_index as int, piece@)),
            ));
            done = done.push(piece@);
        }
        at = end;
    }
    assert(text@.skip(at as int) =~= Seq::empty());
    assert(done + pieces(text@.skip(at as int)) =~= done);
}

fn replay_part(index: usize, content_index: usize, part: &Json, out: &mut Vec<String>)
    ensures
        texts(final(out)@) == texts(old(out)@) + frames(
            part_events(index as int, content_index as int, part@),
        ),
{
    if part.text_is("type", "output_text") {
        let text = part.text_or("text", "");
        let ghost i = index as int;
        let ghost c = content_index as int;
        let ghost head = seq![part_added(i, c, text_part(""@))];
        let ghost mid = piece_events(i, c, pieces(text@));
        out.push(event_content_part_added(index, content_index, output_text("")));
        assert(texts(out@) =~= texts(old(out)@) + frames(head));
        replay_text(index, content_index, text, out);
        assert(texts(out@) =~= texts(old(out)@) + frames(head + mid));
        out.push(event_text_done(index, content_index, text));
        out.push(event_content_part_done(index, content_index, part.clone()));
        assert(texts(out@) =~= texts(old(out)@) + frames(
            head + mid + seq![text_done(i, c, text@), part_done(i, c, part@)],
        ));
    } else {
        assert(texts(out@) =~= texts(old(out)@) + frames(Seq::empty()));
    }
}

fn replay_content(index: usize, content: &Vec<Json>, out: &mut Vec<String>)
    ensures
        texts(final(out)@) == texts(old(out)@) + frames(
            content_events(index as int, views(content@)),
        ),
{
    let ghost all = views(content@);
    let mut i: usize = 0;
    assert(texts(out@) =~= texts(old(out)@) + frames(content_events(index as int, all.take(0))));
    while i < content.len()
        invariant
            i <= content@.len(),
            all == views(content@),
            texts(out@) == texts(old(out)@) + frames(
                content_events(index as int, all.take(i as int)),
            ),
        decreases content@.len() - i,
    {
        let ghost before = content_events(index as int, all.take(i as int));
        replay_part(index, i, &content[i], out);
        proof {
            let now = all.take(i + 1);
            assert(now.drop_last() =~= all.take(i as int));
            assert(now.last() == all[i as int]);
            let more = part_events(index as int, i as int, all[i as int]);
            assert(content_events(index as int, now) == before + more);
            assert(texts(out@) =~= texts(old(out)@) + frames(before + more));
        }
        i = i + 1;
    }
    assert(all.take(i as int) =~= all);
}

fn replay_item(index: usize, item: &Json, out: &mut Vec<String>)
    ensures
        texts(final(out)@) == texts(old(out)@) + frames(item_events(index as int, item@)),
{
    proof {
        reveal_strlit("");
        reveal_strlit("function_call");
        reveal_strlit("message");
        assert("function_call"@.len() == 13 && "message"@.len() == 7);
    }
    let ghost i = index as int;
    let kind = item.text_or("type", "");
    if same(kind, "function_call") {
        let call_id = item.text_or("call_id", "");
        let arguments = item.text_or("arguments", "");
        let mut begun = item.clone();
        begun.set("status", Json::text("in_progress"));
        begun.set("arguments", Json::text(""));
        let ghost events = seq![
            item_added(i, begun@),
            args_delta(i, call_id@, arguments@),
            args_done(i, call_id@, arguments@),
            item_done(i, item@),
        ];
        out.push(event_output_item_added(index, begun));
        out.push(event_fn_args_delta(index, call_id, arguments));
        out.push(event_fn_args_done(index, call_id, arguments));
        out.push(event_output_item_done(index, item.clone()));
        assert(texts(out@) =~= texts(old(out)@) + frames(events));
    } else if same(kind, "message") {
        let mut begun = item.clone();
        let none: Vec<Json> = Vec::new();
        assert(views(none@) =~= Seq::empty());
        begun.set("status", Json::text("in_progress"));
        begun.set("content", Json::Array(none));
        let ghost head = seq![item_added(i, begun@)];
        out.push(event_output_item_added(index, begun));
        assert(texts(out@) =~= texts(old(out)@) + frames(head));
        let content = item.items_or_none("content");
        replay_content(index, &content, out);
        let ghost mid = content_events(i, item@.items_or_none("content"@));
        assert(texts(out@) =~= texts(old(out)@) + frames(head + mid));
        out.push(event_output_item_done(index, item.clone()));
        assert(texts(out@) =~= texts(old(out)@) + frames(head + mid + seq![item_done(i, item@)]));
    } else {
        assert(texts(out@) =~= texts(old(out)@) + frames(Seq::empty()));
    }
}

/// The events for a response, the two first of them at the given times.
pub fn stream_response(response: &Json, created_at: i64, progress_at: i64) -> (r: Vec<String>)
    ensures
        texts(r@) == frames(response_events(response@, created_at, progress_at)),
{
    let id = response.text_or("id", "");
    let model = response.text_or("model", "");
    let previous = response.text_at("previous_response_id");
    let metadata = response.get_or("metadata", Json::object());
    let mut out: Vec<String> = Vec::new();
    out.push(event_created_at(id, model, previous, &metadata, created_at));
    out.push(event_in_progress_at(id, model, previous, &metadata, progress_at));
    let ghost head = seq![
        created(id@, model@, opt_text(previous), metadata@, created_at),
        in_progress(id@, model@, opt_text(previous), metadata@, progress_at),
    ];
    assert(texts(out@) =~= frames(head));
    let output = response.items_or_none("output");
    let ghost all = views(output@);
    let mut i: usize = 0;
    assert(texts(out@) =~= frames(head + output_events(all.take(0))));
    while i < output.len()
        invariant
            i <= output@.len(),
            all == views(output@),
            texts(out@) == frames(head + output_events(all.take(i as int))),
        decreases output@.len() - i,
    {
        let ghost before = output_events(all.take(i as int));
        replay_item(i, &output[i], &mut out);
        proof {
            let now = all.take(i + 1);
            assert(now.drop_last() =~= all.take(i as int));
            assert(now.last() == all[i as int]);
            let more = item_events(i as int, all[i as int]);
            assert(output_events(now) == before + more);
            assert(texts(out@) =~= frames(head + (before + more)));
        }
        i = i + 1;
    }
    assert(all.take(i as int) =~= all);
    out.push(event_completed(response.clone()));
    out
}

/// The events for a response. What the time is is left to the clock.
pub fn send_response_as_stream_bytes(response: &Json) -> (r: Vec<String>)
    ensures
        exists|created_at: i64, progress_at: i64| #[trigger]
            is_time(created_at) && #[trigger] is_time(progress_at) && texts(r@) == frames(
                response_events(response@, created_at, progress_at),
            ),
{
    let created_at = now_unix();
    let progress_at = now_unix();
    assert(is_time(created_at) && is_time(progress_at));
    stream_response(response, created_at, progress_at)
}

// ─── Laws ──────────────────────────────────────────────────────────────────

/// The texts of a list, one behind the other.
pub open spec fn concatenated(list: Seq<Seq<char>>) -> Seq<char>
    decreases list.len(),
{
    if list.len() == 0 {
        Seq::empty()
    } else {
        list[0] + concatenated(list.skip(1))
    }
}

/// The pieces of a text make the text again; none is empty, and none is longer than a piece may
/// be.
pub proof fn law_pieces_make_the_text(text: Seq<char>)
    ensures
        concatenated(pieces(text)) == text,
        forall|i: int|
            0 <= i < pieces(text).len() ==> 0 < (#[trigger] pieces(text)[i]).len() <= PIECE,
    decreases text.len(),
{
    if text.len() > PIECE {
        let head = text.take(PIECE as int);
        let rest = text.skip(PIECE as int);
        law_pieces_make_the_text(rest);
        assert(pieces(text).skip(1) =~= pieces(rest));
        assert(head + rest =~= text);
        assert forall|i: int| 0 <= i < pieces(text).len() implies 0 < (#[trigger] pieces(
            text,
        )[i]).len() <= PIECE by {
            if i > 0 {
                assert(pieces(text)[i] == pieces(rest)[i - 1]);
            }
        }
    } else if text.len() > 0 {
        assert(pieces(text).skip(1) =~= Seq::empty());
        assert(concatenated(pieces(text).skip(1)) =~= Seq::empty());
        assert(text + Seq::<char>::empty() =~= text);
    } else {
        assert(text =~= Seq::empty());
    }
}

proof fn lemma_pieces_sent(index: int, content_index: int, list: Seq<Seq<char>>)
    ensures
        deltas_text(piece_events(index, content_index, list)) == concatenated(list),
    decreases list.len(),
{
    let events = piece_events(index, content_index, list);
    if list.len() > 0 {
        let rest = list.skip(1);
        lemma_pieces_sent(index, content_index, rest);
        let first = seq![text_delta(index, content_index, list[0])];
        assert(events =~= first + piece_events(index, content_index, rest));
        lemma_concat(first, piece_events(index, content_index, rest));
        lemma_delta_member(list[0], index, content_index);
        assert(first.drop_last() =~= Seq::empty());
        assert(deltas_text(first.drop_last()) =~= Seq::empty());
        assert(deltas_text(first) =~= list[0]);
    }
}

/// The pieces of text that are sent for a part of a message make the text of that part.
pub proof fn law_replay_sends_the_text(index: int, content_index: int, part: Jv)
    requires
        part.text_at("type"@) == Some("output_text"@),
    ensures
        deltas_text(part_events(index, content_index, part)) == part.text_or("text"@, ""@),
{
    lemma_kinds();
    let text = part.text_or("text"@, ""@);
    let head = seq![part_added(index, content_index, text_part(""@))];
    let mid = piece_events(index, content_index, pieces(text));
    let tail = seq![
        text_done(index, content_index, text),
        part_done(index, content_index, part),
    ];
    assert(all_aside(head));
    assert(all_aside(tail));
    lemma_aside(head);
    lemma_aside(tail);
    lemma_concat(head, mid);
    lemma_concat(head + mid, tail);
    lemma_pieces_sent(index, content_index, pieces(text));
    law_pieces_make_the_text(text);
    assert(Seq::<char>::empty() + text + Seq::<char>::empty() =~= text);
}

/// A stream made from a response ends with the event that carries the response itself.
pub proof fn law_replay_ends_with_the_response(response: Jv, created_at: i64, progress_at: i64)
    ensures
        response_events(response, created_at, progress_at).last() == completed(response),
        response_events(response, created_at, progress_at).len() >= 3,
{
}

} // verus!
