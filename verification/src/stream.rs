//! The translation of a streamed chat completion into the events of a streamed response.

use vstd::prelude::*;
use vstd::string::*;
use vstd::utf8::{decode_utf8, valid_utf8};

use crate::events::{
    args_delta, args_done, completed, created, event_completed, event_content_part_added,
    event_content_part_done, event_created_at, event_fn_args_delta, event_fn_args_done,
    event_in_progress_at, event_output_item_added, event_output_item_done, event_text_delta,
    event_text_done, frames, in_progress, item_done, lemma_frames_push, lemma_texts_push,
    text_delta, Event,
};
use crate::flow::{
    after_chunk, after_content, after_delta, after_deltas, after_done, after_end, after_line,
    after_lines, begun_call, by_index, by_output_index, call_begun, call_continued, call_for,
    calls_ended, complete_lines, completion, delta_count, drawn_for, drawn_for_lines, end_items,
    end_output, flow_start, lemma_with_call, line_data, line_deltas, message_begun,
    message_end_index, message_ended, open_line, placed, thinking_after, with_call,
    without_returns, Call, Choice, Flow, Step,
};
use crate::json::{group_json, opt_text, opt_view, views, Json, Jv};
use crate::json_ops::copy_items;
use crate::response::{
    assistant_item, base_object, draw_ids, finish_reason_to_status, first_choice_of,
    function_call_item, function_text_of, is_time, nullable_text, output_text, text_part,
    translate_usage,
};
use crate::text::{
    chars_of, contains, decimal, decimal_text, has, lemma_split_not_empty, lossy_text, opt_str,
    opt_string, replace, same, split_on, starts_with, text_of, text_of_bytes, texts, trim, trimmed,
};
use crate::util::{is_id, now_unix, tagged, uid};

verus! {

broadcast use {group_json, lemma_frames_push, lemma_texts_push};

// ─── The context of a request ──────────────────────────────────────────────

/// What a request is known by in the log.
pub struct RequestContext {
    pub request_id: String,
    pub model: String,
    pub provider: String,
    pub stream: bool,
    pub message_count: usize,
    pub upstream_url: String,
}

impl Clone for RequestContext {
    fn clone(&self) -> (r: RequestContext)
        ensures
            r.request_id@ == self.request_id@,
            r.model@ == self.model@,
            r.provider@ == self.provider@,
            r.stream == self.stream,
            r.message_count == self.message_count,
            r.upstream_url@ == self.upstream_url@,
    {
        RequestContext {
            request_id: self.request_id.clone(),
            model: self.model.clone(),
            provider: self.provider.clone(),
            stream: self.stream,
            message_count: self.message_count,
            upstream_url: self.upstream_url.clone(),
        }
    }
}

impl RequestContext {
    /// The line of text that stands for the request in the log.
    pub fn line(&self) -> (r: String)
        ensures
            r@ == "req_id="@ + self.request_id@ + " provider="@ + self.provider@ + " model="@
                + self.model@ + " stream="@ + (if self.stream {
                "true"@
            } else {
                "false"@
            }) + " msgs="@ + decimal(self.message_count as nat) + " url="@ + self.upstream_url@,
    {
        let mut r = "req_id=".to_owned();
        r.append(self.request_id.as_str());
        r.append(" provider=");
        r.append(self.provider.as_str());
        r.append(" model=");
        r.append(self.model.as_str());
        r.append(" stream=");
        r.append(
            if self.stream {
                "true"
            } else {
                "false"
            },
        );
        r.append(" msgs=");
        r.append(decimal_text(self.message_count as u64).as_str());
        r.append(" url=");
        r.append(self.upstream_url.as_str());
        r
    }
}

// ─── Tool calls under way ──────────────────────────────────────────────────

/// A tool call, as far as it has come in.
#[derive(Debug)]
pub struct StreamToolCall {
    /// The identifier of the output item.
    pub id: String,
    /// The identifier that the result of the call refers to.
    pub call_id: String,
    pub name: String,
    pub arguments: String,
    pub output_idx: usize,
}

impl View for StreamToolCall {
    type V = Call;

    open spec fn view(&self) -> Call {
        Call {
            id: self.id@,
            call_id: self.call_id@,
            name: self.name@,
            arguments: self.arguments@,
            output_idx: self.output_idx,
        }
    }
}

impl Clone for StreamToolCall {
    fn clone(&self) -> (r: StreamToolCall)
        ensures
            r@ == self@,
    {
        StreamToolCall {
            id: self.id.clone(),
            call_id: self.call_id.clone(),
            name: self.name.clone(),
            arguments: self.arguments.clone(),
            output_idx: self.output_idx,
        }
    }
}

/// The calls under way, by their indices.
pub open spec fn calls_view(calls: Seq<(usize, StreamToolCall)>) -> Seq<(usize, Call)> {
    Seq::new(calls.len(), |i: int| (calls[i].0, calls[i].1@))
}

// ─── What is left to chance and to the clock ───────────────────────────────

/// Identifiers and the time, for the translation of one piece of a stream.
pub struct Fresh {
    pub call_ids: Vec<String>,
    pub item_ids: Vec<String>,
    pub message_id: String,
    pub done_id: String,
    pub output_id: String,
    pub now: i64,
}

impl View for Fresh {
    type V = Choice;

    open spec fn view(&self) -> Choice {
        Choice {
            call_ids: texts(self.call_ids@),
            item_ids: texts(self.item_ids@),
            message_id: self.message_id@,
            done_id: self.done_id@,
            output_id: self.output_id@,
            now: self.now,
        }
    }
}

/// Draws identifiers, and reads the clock.
pub fn draw(deltas: usize) -> (r: Fresh)
    ensures
        drawn_for(r@, deltas as nat),
{
    let r = Fresh {
        call_ids: draw_ids(deltas),
        item_ids: draw_ids(deltas),
        message_id: uid(),
        done_id: uid(),
        output_id: uid(),
        now: now_unix(),
    };
    assert(is_time(r.now));
    r
}

// ─── The translator ────────────────────────────────────────────────────────

/// What came of a streamed response.
pub struct StreamResult {
    pub response_id: String,
    pub output: Vec<Json>,
}

/// Translates a streamed chat completion.
pub struct StreamTranslator {
    response_id: String,
    model: String,
    previous: Option<String>,
    metadata: Json,
    text: String,
    thinking: bool,
    message_at: Option<usize>,
    calls: Vec<(usize, StreamToolCall)>,
    completed: bool,
    output: Vec<Json>,
    finished: bool,
    buffer: String,
}

impl View for StreamTranslator {
    type V = Flow;

    closed spec fn view(&self) -> Flow {
        Flow {
            response_id: self.response_id@,
            model: self.model@,
            previous: opt_string(self.previous),
            metadata: self.metadata@,
            text: self.text@,
            thinking: self.thinking,
            message_at: self.message_at,
            calls: calls_view(self.calls@),
            completed: self.completed,
            output: views(self.output@),
            finished: self.finished,
            buffer: self.buffer@,
        }
    }
}

/// Whether `out` has become `before` with the texts of `events` behind it.
pub open spec fn sent(before: Seq<String>, out: Seq<String>, events: Seq<Event>) -> bool {
    texts(out) == texts(before) + frames(events)
}

/// Puts a call in its place.
fn set_call(calls: &mut Vec<(usize, StreamToolCall)>, index: usize, call: StreamToolCall)
    ensures
        calls_view(final(calls)@) == with_call(calls_view(old(calls)@), index, call@),
{
    let ghost before = calls_view(calls@);
    let mut at: usize = calls.len();
    assert(before.take(before.len() as int) =~= before);
    assert(with_call(before, index, call@) =~= with_call(before.take(at as int), index, call@)
        + before.skip(at as int));
    while at > 0 && calls[at - 1].0 > index
        invariant
            at <= calls@.len(),
            before == calls_view(calls@),
            with_call(before, index, call@) == with_call(before.take(at as int), index, call@)
                + before.skip(at as int),
        decreases at,
    {
        proof {
            let head = before.take(at as int);
            assert(head.last() == before[at - 1]);
            assert(head.drop_last() =~= before.take(at - 1));
            assert(with_call(head, index, call@) + before.skip(at as int) =~= with_call(
                before.take(at - 1),
                index,
                call@,
            ) + before.skip(at - 1));
        }
        at = at - 1;
    }
    let ghost c = call@;
    proof {
        let head = before.take(at as int);
        if at > 0 {
            assert(head.last() == before[at - 1]);
            assert(head.drop_last() =~= before.take(at - 1));
        }
    }
    if at > 0 && calls[at - 1].0 == index {
        calls.set(at - 1, (index, call));
        assert(calls_view(calls@) =~= before.take(at - 1).push((index, c)) + before.skip(
            at as int,
        ));
    } else {
        calls.insert(at, (index, call));
        assert(calls_view(calls@) =~= before.take(at as int).push((index, c)) + before.skip(
            at as int,
        ));
    }
}

/// The position of the call with the given index.
fn find_call(calls: &Vec<(usize, StreamToolCall)>, index: usize) -> (r: Option<usize>)
    ensures
        (match r {
            Some(k) => k < calls@.len() && call_for(calls_view(calls@), index) == Some(
                calls@[k as int].1@,
            ),
            None => call_for(calls_view(calls@), index) is None,
        }),
{
    let ghost all = calls_view(calls@);
    let mut i: usize = calls.len();
    assert(all.take(i as int) =~= all);
    while i > 0
        invariant
            i <= calls@.len(),
            all == calls_view(calls@),
            call_for(all, index) == call_for(all.take(i as int), index),
        decreases i,
    {
        assert(all.take(i as int).drop_last() =~= all.take(i - 1));
        assert(all.take(i as int).last() == all[i - 1]);
        i = i - 1;
        if calls[i].0 == index {
            return Some(i);
        }
    }
    None
}

fn place_item(items: &mut Vec<(usize, Json)>, item: (usize, Json))
    ensures
        items_view(final(items)@) == placed(items_view(old(items)@), (item.0, item.1@)),
{
    let ghost before = items_view(items@);
    let ghost x = (item.0, item.1@);
    let mut at: usize = items.len();
    assert(before.take(before.len() as int) =~= before);
    assert(placed(before, x) =~= placed(before.take(at as int), x) + before.skip(at as int));
    while at > 0 && items[at - 1].0 > item.0
        invariant
            at <= items@.len(),
            before == items_view(items@),
            x == (item.0, item.1@),
            placed(before, x) == placed(before.take(at as int), x) + before.skip(at as int),
        decreases at,
    {
        proof {
            let head = before.take(at as int);
            assert(head.last() == before[at - 1]);
            assert(head.drop_last() =~= before.take(at - 1));
            assert(placed(head, x) + before.skip(at as int) =~= placed(before.take(at - 1), x)
                + before.skip(at - 1));
        }
        at = at - 1;
    }
    proof {
        if at > 0 {
            assert(before.take(at as int).last() == before[at - 1]);
        }
    }
    items.insert(at, item);
    assert(items_view(items@) =~= before.take(at as int).push(x) + before.skip(at as int));
}

/// Output items with their indices.
pub open spec fn items_view(items: Seq<(usize, Json)>) -> Seq<(usize, Jv)> {
    Seq::new(items.len(), |i: int| (items[i].0, items[i].1@))
}

fn trim_returns(line: &str) -> (r: String)
    ensures
        r@ == without_returns(line@),
{
    let chars = chars_of(line);
    let mut to: usize = chars.len();
    assert(line@.take(to as int) =~= line@);
    while to > 0 && chars[to - 1] == '\r'
        invariant
            to <= chars@.len(),
            chars@ == line@,
            without_returns(line@) == without_returns(line@.take(to as int)),
        decreases to,
    {
        assert(line@.take(to as int).drop_last() =~= line@.take(to - 1));
        to = to - 1;
    }
    assert(line@.take(to as int) =~= chars@.subrange(0, to as int));
    text_of(&chars, 0, to)
}

/// The data that a line of the stream carries.
fn data_of_line(line: &str) -> (r: Option<String>)
    ensures
        opt_string(r) == line_data(line@),
{
    proof {
        reveal_strlit("data: ");
        assert("data: "@.len() == 6);
    }
    let bare = trim_returns(line);
    if !starts_with(bare.as_str(), "data: ") {
        return None;
    }
    let chars = chars_of(bare.as_str());
    let rest = text_of(&chars, 6, chars.len());
    assert(rest@ =~= bare@.skip(6));
    Some(trim(rest.as_str()))
}

impl StreamTranslator {
    /// Whether the state is in order: the calls stand in the order of their indices.
    pub closed spec fn wf(&self) -> bool {
        by_index(calls_view(self.calls@))
    }

    /// Starts a translation, with a given identifier of the response, at given times of its two
    /// first events.
    pub fn start_with(
        response_id: String,
        model: String,
        previous_response_id: Option<String>,
        metadata: Json,
        created_at: i64,
        progress_at: i64,
        out: &mut Vec<String>,
    ) -> (r: StreamTranslator)
        ensures
            r.wf(),
            r@ == flow_start(
                response_id@,
                model@,
                opt_string(previous_response_id),
                metadata@,
            ),
            sent(
                old(out)@,
                final(out)@,
                seq![
                    created(
                        response_id@,
                        model@,
                        opt_string(previous_response_id),
                        metadata@,
                        created_at,
                    ),
                    in_progress(
                        response_id@,
                        model@,
                        opt_string(previous_response_id),
                        metadata@,
                        progress_at,
                    ),
                ],
            ),
    {
        let previous = opt_str(&previous_response_id);
        let ghost before = texts(out@);
        let ghost one = created(response_id@, model@, opt_text(previous), metadata@, created_at);
        let ghost two = in_progress(
            response_id@,
            model@,
            opt_text(previous),
            metadata@,
            progress_at,
        );
        out.push(
            event_created_at(response_id.as_str(), model.as_str(), previous, &metadata, created_at),
        );
        out.push(
            event_in_progress_at(
                response_id.as_str(),
                model.as_str(),
                previous,
                &metadata,
                progress_at,
            ),
        );
        assert(texts(out@) =~= before + frames(seq![one, two]));
        let r = StreamTranslator {
            response_id,
            model,
            previous: previous_response_id,
            metadata,
            text: String::new(),
            thinking: false,
            message_at: None,
            calls: Vec::new(),
            completed: false,
            output: Vec::new(),
            finished: false,
            buffer: String::new(),
        };
        assert(r@ =~= flow_start(
            response_id@,
            model@,
            opt_string(previous_response_id),
            metadata@,
        ));
        r
    }

    /// Starts a translation. Which identifier the response gets, and what the time is, is left
    /// to chance and to the clock.
    pub fn start(
        model: String,
        previous_response_id: Option<String>,
        metadata: Json,
        out: &mut Vec<String>,
    ) -> (r: StreamTranslator)
        ensures
            r.wf(),
            exists|id: Seq<char>, created_at: i64, progress_at: i64|
                #![trigger is_id(id), is_time(created_at), is_time(progress_at)]
                is_id(id) && is_time(created_at) && is_time(progress_at) && r@ == flow_start(
                    "resp_"@ + id,
                    model@,
                    opt_string(previous_response_id),
                    metadata@,
                ) && sent(
                    old(out)@,
                    final(out)@,
                    seq![
                        created(
                            "resp_"@ + id,
                            model@,
                            opt_string(previous_response_id),
                            metadata@,
                            created_at,
                        ),
                        in_progress(
                            "resp_"@ + id,
                            model@,
                            opt_string(previous_response_id),
                            metadata@,
                            progress_at,
                        ),
                    ],
                ),
    {
        let id = uid();
        let created_at = now_unix();
        let progress_at = now_unix();
        assert(is_id(id@) && is_time(created_at) && is_time(progress_at));
        StreamTranslator::start_with(
            tagged("resp_", id.as_str()),
            model,
            previous_response_id,
            metadata,
            created_at,
            progress_at,
            out,
        )
    }

    /// Takes in one tool call delta.
    fn add_delta(&mut self, delta: &Json, call_id: &str, item_id: &str, out: &mut Vec<String>)
        requires
            old(self).wf(),
        ensures
            final(self).wf(),
            final(self)@ == after_delta(old(self)@, delta@, call_id@, item_id@).flow,
            sent(
                old(out)@,
                final(out)@,
                after_delta(old(self)@, delta@, call_id@, item_id@).events,
            ),
    {
        let raw = delta.unsigned_or("index", 0);
        let index: usize = if raw <= usize::MAX as u64 {
            raw as usize
        } else {
            0
        };
        let ghost start = self@;
        let ghost begun = call_begun(start, delta@, call_id@, item_id@);
        if find_call(&self.calls, index).is_none() {
            let output_idx: usize = match self.message_at {
                Some(at) => if at == 0 {
                    index.wrapping_add(1)
                } else {
                    index
                },
                None => index,
            };
            let known = match delta.text_at("id") {
                Some(id) => id.to_owned(),
                None => tagged("call_", call_id),
            };
            let call = StreamToolCall {
                id: tagged("fc_", item_id),
                call_id: known,
                name: function_text_of(delta, "name", "").to_owned(),
                arguments: "".to_owned(),
                output_idx,
            };
            assert(call@ == begun_call(start, delta@, call_id@, item_id@));
            out.push(
                event_output_item_added(
                    output_idx,
                    function_call_item(
                        call.id.as_str(),
                        call.call_id.as_str(),
                        call.name.as_str(),
                        "",
                        "in_progress",
                    ),
                ),
            );
            proof {
                lemma_with_call(calls_view(self.calls@), index, call@);
            }
            set_call(&mut self.calls, index, call);
            assert(self@ =~= begun.flow);
        }
        assert(self@ == begun.flow);
        assert(texts(out@) =~= texts(old(out)@) + frames(begun.events));
        let piece = match delta.get("function") {
            Some(function) => function.text_at("arguments"),
            None => None,
        };
        match (piece, find_call(&self.calls, index)) {
            (Some(piece), Some(k)) => {
                let call = &self.calls[k].1;
                let ghost c = call@;
                out.push(event_fn_args_delta(call.output_idx, call.call_id.as_str(), piece));
                let mut longer = call.clone();
                longer.arguments = longer.arguments.concat(piece);
                assert(longer@ == (Call { arguments: c.arguments + piece@, ..c }));
                proof {
                    lemma_with_call(calls_view(self.calls@), index, longer@);
                }
                set_call(&mut self.calls, index, longer);
                assert(self@ =~= call_continued(begun, delta@).flow);
                assert(texts(old(out)@) + frames(begun.events).push(
                    args_delta(c.output_idx as int, c.call_id, piece@).frame(),
                ) =~= (texts(old(out)@) + frames(begun.events)).push(
                    args_delta(c.output_idx as int, c.call_id, piece@).frame(),
                ));
            },
            _ => {},
        }
    }

    /// Takes in a piece of content.
    fn add_content(&mut self, content: &str, message_id: &str, out: &mut Vec<String>)
        requires
            old(self).wf(),
        ensures
            final(self).wf(),
            final(self)@ == after_content(old(self)@, content@, message_id@).flow,
            sent(
                old(out)@,
                final(out)@,
                after_content(old(self)@, content@, message_id@).events,
            ),
    {
        proof {
            reveal_strlit("<think>");
            reveal_strlit("</think>");
        }
        let ghost start = self@;
        if contains(content, "<think>") {
            self.thinking = true;
        }
        let opened = replace(content, "<think>", "");
        if contains(opened.as_str(), "</think>") {
            self.thinking = false;
        }
        let text = replace(opened.as_str(), "</think>", "");
        let ghost heard = Flow {
            thinking: thinking_after(start.thinking, content@),
            ..start
        };
        assert(self@ =~= heard);
        if self.thinking || text.as_str().is_empty() {
            assert(texts(out@) + frames(Seq::empty()) =~= texts(out@));
            return;
        }
        let at: usize = match self.message_at {
            Some(at) => at,
            None => {
                let count = self.calls.len();
                let at: usize = if count as u64 <= 0x7fff_ffff_ffff_ffff {
                    count
                } else {
                    0
                };
                self.message_at = Some(at);
                let id = tagged("msg_", message_id);
                let none: Vec<Json> = Vec::new();
                assert(views(none@) =~= Seq::empty());
                out.push(
                    event_output_item_added(at, assistant_item(id.as_str(), "in_progress", none)),
                );
                out.push(event_content_part_added(at, 0, output_text("")));
                at
            },
        };
        let ghost begun = message_begun(heard, message_id@);
        assert(self@ =~= begun.flow);
        assert(texts(out@) =~= texts(old(out)@) + frames(begun.events));
        self.text.append(text.as_str());
        assert(self@ =~= after_content(start, content@, message_id@).flow);
        out.push(event_text_delta(at, 0, text.as_str()));
        assert(texts(out@) =~= texts(old(out)@) + frames(
            begun.events.push(text_delta(at as int, 0, text@)),
        ));
    }

    /// The events that end the calls.
    fn end_calls(&self, out: &mut Vec<String>)
        ensures
            sent(old(out)@, final(out)@, calls_ended(self@.calls)),
    {
        let ghost all = self@.calls;
        let mut i: usize = 0;
        assert(texts(out@) =~= texts(old(out)@) + frames(calls_ended(all.take(0))));
        while i < self.calls.len()
            invariant
                i <= self.calls@.len(),
                all == calls_view(self.calls@),
                texts(out@) == texts(old(out)@) + frames(calls_ended(all.take(i as int))),
            decreases self.calls@.len() - i,
        {
            let call = &self.calls[i].1;
            let ghost before = calls_ended(all.take(i as int));
            assert(all.take(i + 1).drop_last() =~= all.take(i as int));
            assert(all.take(i + 1).last() == all[i as int]);
            out.push(
                event_fn_args_done(
                    call.output_idx,
                    call.call_id.as_str(),
                    call.arguments.as_str(),
                ),
            );
            out.push(event_output_item_done(call.output_idx, finished_item(call)));
            proof {
                let c = call@;
                let one = args_done(c.output_idx as int, c.call_id, c.arguments);
                let two = item_done(c.output_idx as int, c.item());
                assert(calls_ended(all.take(i + 1)) == before.push(one).push(two));
                assert(texts(out@) =~= texts(old(out)@) + frames(before.push(one).push(two)));
            }
            i = i + 1;
        }
        assert(all.take(i as int) =~= all);
    }

    /// The output of the response, as it ends.
    fn end_output_items(&self, text: &str, at: usize, id: &str) -> (r: Vec<Json>)
        requires
            text@ == trimmed(self@.text),
            at == message_end_index(self@),
        ensures
            views(r@) == end_output(self@, id@),
    {
        let ghost all = self@.calls;
        let ghost listed = all.map_values(|c: (usize, Call)| (c.1.output_idx, c.1.item()));
        let mut items: Vec<(usize, Json)> = Vec::new();
        let mut i: usize = 0;
        assert(items_view(items@) =~= by_output_index(listed.take(0)));
        while i < self.calls.len()
            invariant
                i <= self.calls@.len(),
                all == calls_view(self.calls@),
                listed == all.map_values(|c: (usize, Call)| (c.1.output_idx, c.1.item())),
                items_view(items@) == by_output_index(listed.take(i as int)),
            decreases self.calls@.len() - i,
        {
            let call = &self.calls[i].1;
            assert(listed.take(i + 1).drop_last() =~= listed.take(i as int));
            assert(listed.take(i + 1).last() == (call.output_idx, call@.item()));
            place_item(&mut items, (call.output_idx, finished_item(call)));
            i = i + 1;
        }
        assert(listed.take(i as int) =~= listed);
        if !text.is_empty() {
            let mut content: Vec<Json> = Vec::new();
            content.push(output_text(text));
            assert(views(content@) =~= seq![text_part(text@)]);
            let item = assistant_item(tagged("msg_", id).as_str(), "completed", content);
            proof {
                let whole = end_items(self@, id@);
                assert(whole =~= listed.push((at, item@)));
                assert(whole.drop_last() =~= listed);
            }
            place_item(&mut items, (at, item));
        } else {
            assert(end_items(self@, id@) =~= listed);
        }
        let ghost sorted = items_view(items@);
        assert(sorted == by_output_index(end_items(self@, id@)));
        let mut r: Vec<Json> = Vec::new();
        let mut k: usize = 0;
        while k < items.len()
            invariant
                k <= items@.len(),
                sorted == items_view(items@),
                r@.len() == k,
                forall|j: int| 0 <= j < k ==> (#[trigger] r@[j])@ == sorted[j].1,
            decreases items@.len() - k,
        {
            r.push(items[k].1.clone());
            k = k + 1;
        }
        assert(views(r@) =~= sorted.map_values(|item: (usize, Jv)| item.1));
        r
    }

    /// Completes the response.
    fn complete(
        &mut self,
        finish_reason: Option<&str>,
        usage: Option<&Json>,
        fresh: &Fresh,
        out: &mut Vec<String>,
    )
        requires
            old(self).wf(),
        ensures
            final(self).wf(),
            final(self)@ == completion(
                old(self)@,
                opt_text(finish_reason),
                opt_view(usage),
                fresh@,
            ).flow,
            sent(
                old(out)@,
                final(out)@,
                completion(old(self)@, opt_text(finish_reason), opt_view(usage), fresh@).events,
            ),
    {
        let ghost flow = self@;
        self.end_calls(out);
        let ghost one = calls_ended(flow.calls);
        let at: usize = match self.message_at {
            Some(at) => at,
            None => self.calls.len(),
        };
        let text = trim(self.text.as_str());
        if !text.as_str().is_empty() {
            out.push(event_text_done(at, 0, text.as_str()));
            out.push(event_content_part_done(at, 0, output_text(text.as_str())));
            let mut content: Vec<Json> = Vec::new();
            content.push(output_text(text.as_str()));
            assert(views(content@) =~= seq![text_part(text@)]);
            let id = tagged("msg_", fresh.done_id.as_str());
            out.push(event_output_item_done(at, assistant_item(id.as_str(), "completed", content)));
        }
        let ghost two = message_ended(flow, fresh.done_id@);
        assert(texts(out@) =~= texts(old(out)@) + frames(one + two));
        let output = self.end_output_items(text.as_str(), at, fresh.output_id.as_str());
        let reason = match finish_reason {
            Some(reason) => reason,
            None => "stop",
        };
        let (status, incomplete) = finish_reason_to_status(reason);
        let response = base_object(
            self.response_id.as_str(),
            fresh.now,
            status,
            self.model.as_str(),
            copy_items(&output),
        ).with("previous_response_id", nullable_text(opt_str(&self.previous))).with(
            "metadata",
            self.metadata.clone(),
        ).with("usage", translate_usage(usage)).with("incomplete_details", incomplete);
        out.push(event_completed(response));
        self.completed = true;
        self.output = output;
        proof {
            let step = completion(flow, opt_text(finish_reason), opt_view(usage), fresh@);
            assert(self@ =~= step.flow);
            assert(texts(out@) =~= texts(old(out)@) + frames(step.events));
        }
    }

    /// Takes in one piece of the stream.
    pub fn receive(&mut self, chunk: &Json, fresh: &Fresh, out: &mut Vec<String>)
        requires
            old(self).wf(),
            fresh.call_ids@.len() >= delta_count(chunk@),
            fresh.item_ids@.len() >= delta_count(chunk@),
        ensures
            final(self).wf(),
            final(self)@ == after_chunk(old(self)@, chunk@, fresh@).flow,
            sent(old(out)@, final(out)@, after_chunk(old(self)@, chunk@, fresh@).events),
    {
        let ghost start = self@;
        assert(texts(out@) + frames(Seq::empty()) =~= texts(out@));
        let choice = match first_choice_of(chunk) {
            Some(choice) => choice,
            None => {
                return;
            },
        };
        let reason = choice.text_at("finish_reason");
        let mut reasoning = false;
        let ghost mut step = Step { flow: start, events: Seq::empty() };
        match choice.get("delta") {
            Some(delta) => match delta.items_at("tool_calls") {
                Some(deltas) => {
                    let ghost all = views(deltas@);
                    let mut i: usize = 0;
                    assert(all.take(0) =~= Seq::empty());
                    while i < deltas.len()
                        invariant
                            i <= deltas@.len(),
                            all == views(deltas@),
                            self.wf(),
                            fresh.call_ids@.len() >= deltas@.len(),
                            fresh.item_ids@.len() >= deltas@.len(),
                            self@ == after_deltas(start, all.take(i as int), fresh@).flow,
                            texts(out@) == texts(old(out)@) + frames(
                                after_deltas(start, all.take(i as int), fresh@).events,
                            ),
                        decreases deltas@.len() - i,
                    {
                        let ghost before = after_deltas(start, all.take(i as int), fresh@);
                        let ghost out_before = out@;
                        self.add_delta(
                            &deltas[i],
                            fresh.call_ids[i].as_str(),
                            fresh.item_ids[i].as_str(),
                            out,
                        );
                        proof {
                            let now = all.take(i + 1);
                            assert(now.drop_last() =~= all.take(i as int));
                            assert(now.last() == all[i as int]);
                            let last = after_delta(
                                before.flow,
                                all[i as int],
                                fresh@.call_ids[i as int],
                                fresh@.item_ids[i as int],
                            );
                            assert(after_deltas(start, now, fresh@).events == before.events
                                + last.events);
                            assert(texts(out@) =~= texts(old(out)@) + frames(
                                before.events + last.events,
                            ));
                        }
                        i = i + 1;
                    }
                    assert(all.take(i as int) =~= all);
                    proof {
                        step = after_deltas(start, all, fresh@);
                    }
                },
                None => {
                    if delta.get("reasoning_content").is_some() {
                        reasoning = true;
                    } else {
                        match delta.text_at("content") {
                            Some(content) => {
                                self.add_content(content, fresh.message_id.as_str(), out);
                                proof {
                                    step = after_content(start, content@, fresh@.message_id);
                                }
                            },
                            None => {},
                        }
                    }
                },
            },
            None => {},
        }
        if reasoning {
            return;
        }
        assert(self@ == step.flow);
        assert(texts(out@) == texts(old(out)@) + frames(step.events));
        match reason {
            Some(reason) => {
                if !self.completed {
                    self.complete(Some(reason), chunk.get("usage"), fresh, out);
                    proof {
                        let last = completion(
                            step.flow,
                            Some(reason@),
                            chunk@.get("usage"@),
                            fresh@,
                        );
                        assert(texts(out@) =~= texts(old(out)@) + frames(
                            step.events + last.events,
                        ));
                    }
                }
            },
            None => {},
        }
    }

    /// Takes in one line of the stream.
    ///
    /// Which identifiers are drawn, and what the time is, is left to chance and to the clock.
    pub fn push_line(&mut self, line: &str, out: &mut Vec<String>)
        requires
            old(self).wf(),
        ensures
            final(self).wf(),
            exists|choice: Choice| #[trigger]
                drawn_for(choice, line_deltas(line@)) && final(self)@ == after_line(
                    old(self)@,
                    line@,
                    choice,
                ).flow && sent(
                    old(out)@,
                    final(out)@,
                    after_line(old(self)@, line@, choice).events,
                ),
    {
        let ghost start = self@;
        assert(texts(out@) + frames(Seq::empty()) =~= texts(out@));
        match data_of_line(line) {
            Some(data) => {
                if same(data.as_str(), "[DONE]") {
                    let fresh = draw(0);
                    assert(drawn_for(fresh@, line_deltas(line@)));
                    if !self.finished {
                        if !self.completed {
                            self.complete(None, None, &fresh, out);
                        }
                        self.finished = true;
                        assert(self@ =~= after_done(start, fresh@).flow);
                    }
                    return;
                }
                match Json::parse(data.as_str()) {
                    Some(chunk) => {
                        let fresh = draw(count_deltas(&chunk));
                        assert(drawn_for(fresh@, line_deltas(line@)));
                        if !self.finished {
                            self.receive(&chunk, &fresh, out);
                        }
                        return;
                    },
                    None => {},
                }
            },
            None => {},
        }
        let fresh = draw(0);
        assert(drawn_for(fresh@, line_deltas(line@)));
    }

    /// Takes in text of the stream, as it comes.
    ///
    /// Which identifiers are drawn, and what the time is, is left to chance and to the clock.
    pub fn push_text(&mut self, text: &str, out: &mut Vec<String>)
        requires
            old(self).wf(),
        ensures
            final(self).wf(),
            ({
                let lines = complete_lines(old(self)@.buffer, text@);
                let rest = open_line(old(self)@.buffer, text@);
                exists|choices: Seq<Choice>| #[trigger]
                    drawn_for_lines(choices, lines) && final(self)@ == after_lines(
                        (Flow { buffer: rest, ..old(self)@ }),
                        lines,
                        choices,
                    ).flow && sent(
                        old(out)@,
                        final(out)@,
                        after_lines((Flow { buffer: rest, ..old(self)@ }), lines, choices).events,
                    )
            }),
    {
        proof {
            reveal_strlit("\n");
        }
        let ghost start = self@;
        let whole = self.buffer.clone().concat(text);
        let mut pieces = split_on(whole.as_str(), "\n");
        let ghost all = texts(pieces@);
        proof {
            lemma_split_not_empty(whole@, "\n"@);
        }
        let rest = pieces.pop().unwrap();
        let ghost lines = texts(pieces@);
        assert(lines =~= all.drop_last());
        self.buffer = rest;
        let ghost from = Flow { buffer: rest@, ..start };
        assert(self@ =~= from);
        assert(lines == complete_lines(start.buffer, text@));
        assert(rest@ == open_line(start.buffer, text@));
        let ghost mut choices: Seq<Choice> = Seq::empty();
        let mut i: usize = 0;
        assert(lines.take(0) =~= Seq::empty());
        assert(texts(out@) + frames(Seq::empty()) =~= texts(out@));
        while i < pieces.len()
            invariant
                i <= pieces@.len(),
                lines == texts(pieces@),
                self.wf(),
                drawn_for_lines(choices, lines.take(i as int)),
                self@ == after_lines(from, lines.take(i as int), choices).flow,
                texts(out@) == texts(old(out)@) + frames(
                    after_lines(from, lines.take(i as int), choices).events,
                ),
            decreases pieces@.len() - i,
        {
            let ghost before = after_lines(from, lines.take(i as int), choices);
            let ghost out_before = out@;
            let line = pieces[i].as_str();
            self.push_line(line, out);
            proof {
                let choice = choose|choice: Choice| #[trigger]
                    drawn_for(choice, line_deltas(line@)) && self@ == after_line(
                        before.flow,
                        line@,
                        choice,
                    ).flow && sent(
                        out_before,
                        out@,
                        after_line(before.flow, line@, choice).events,
                    );
                let now = lines.take(i + 1);
                let more = choices.push(choice);
                assert(now.drop_last() =~= lines.take(i as int));
                assert(now.last() == line@);
                assert(more.drop_last() =~= choices);
                let last = after_line(before.flow, line@, choice);
                assert(after_lines(from, now, more).events == before.events + last.events);
                assert(texts(out@) =~= texts(old(out)@) + frames(before.events + last.events));
                assert forall|k: int| 0 <= k < now.len() implies drawn_for(
                    #[trigger] more[k],
                    line_deltas(now[k]),
                ) by {
                    if k < i {
                        assert(more[k] == choices[k]);
                        assert(now[k] == lines.take(i as int)[k]);
                    }
                }
                choices = more;
            }
            i = i + 1;
        }
        assert(lines.take(i as int) =~= lines);
        assert(drawn_for_lines(choices, lines));
    }

    /// Takes in bytes of the stream, as they come.
    ///
    /// Which identifiers are drawn, and what the time is, is left to chance and to the clock.
    pub fn push_bytes(&mut self, bytes: &[u8], out: &mut Vec<String>)
        requires
            old(self).wf(),
        ensures
            final(self).wf(),
            valid_utf8(bytes@) ==> lossy_text(bytes@) == decode_utf8(bytes@),
            ({
                let lines = complete_lines(old(self)@.buffer, lossy_text(bytes@));
                let rest = open_line(old(self)@.buffer, lossy_text(bytes@));
                exists|choices: Seq<Choice>| #[trigger]
                    drawn_for_lines(choices, lines) && final(self)@ == after_lines(
                        (Flow { buffer: rest, ..old(self)@ }),
                        lines,
                        choices,
                    ).flow && sent(
                        old(out)@,
                        final(out)@,
                        after_lines((Flow { buffer: rest, ..old(self)@ }), lines, choices).events,
                    )
            }),
    {
        let text = text_of_bytes(bytes);
        self.push_text(text.as_str(), out);
    }

    /// Whether nothing more has to be read.
    pub fn is_finished(&self) -> (r: bool)
        ensures
            r == self@.finished,
    {
        self.finished
    }

    /// Ends the translation, with given identifiers and time: a response that is not complete
    /// is completed.
    pub fn finish_with(&mut self, fresh: &Fresh, out: &mut Vec<String>)
        requires
            old(self).wf(),
        ensures
            final(self).wf(),
            final(self)@ == after_end(old(self)@, fresh@).flow,
            sent(old(out)@, final(out)@, after_end(old(self)@, fresh@).events),
    {
        assert(texts(out@) + frames(Seq::empty()) =~= texts(out@));
        if !self.completed {
            let reason = if self.text.as_str().is_empty() && self.calls.len() == 0 {
                "stop"
            } else {
                "length"
            };
            self.complete(Some(reason), None, fresh, out);
        }
    }

    /// Ends the translation: a response that is not complete is completed.
    ///
    /// Which identifiers are drawn, and what the time is, is left to chance and to the clock.
    pub fn finish(self, out: &mut Vec<String>) -> (r: StreamResult)
        requires
            self.wf(),
        ensures
            exists|choice: Choice| #[trigger]
                drawn_for(choice, 0) && sent(
                    old(out)@,
                    final(out)@,
                    after_end(self@, choice).events,
                ) && views(r.output@) == after_end(self@, choice).flow.output,
            r.response_id@ == self@.response_id,
    {
        let mut last = self;
        let fresh = draw(0);
        assert(drawn_for(fresh@, 0));
        last.finish_with(&fresh, out);
        StreamResult { response_id: last.response_id, output: last.output }
    }
}

fn finished_item(call: &StreamToolCall) -> (r: Json)
    ensures
        r@ == call@.item(),
{
    function_call_item(
        call.id.as_str(),
        call.call_id.as_str(),
        call.name.as_str(),
        call.arguments.as_str(),
        "completed",
    )
}

fn count_deltas(chunk: &Json) -> (r: usize)
    ensures
        r == delta_count(chunk@),
{
    match first_choice_of(chunk) {
        Some(choice) => match choice.get("delta") {
            Some(delta) => match delta.items_at("tool_calls") {
                Some(deltas) => deltas.len(),
                None => 0,
            },
            None => 0,
        },
        None => 0,
    }
}

} // verus!
