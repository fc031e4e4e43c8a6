//! What each piece of an upstream stream adds to the text of a response, told from what the
//! upstream sent.

use vstd::prelude::*;

use crate::answer_laws::{lacks, lemma_message_shown, lemma_text_said, says, shows_message};
use crate::events::Event;
use crate::flow::{
    after_chunk, after_content, after_line, after_lines, complete_lines, completion, line_data,
    open_line, untagged, without_returns, Choice, Flow, Step,
};
use crate::json::Jv;
use crate::text::{has, is_white, joined, lemma_first_at, occurs_at, replaced, split, trimmed};
use crate::text_laws::{law_joined, law_split, law_trimmed};
use crate::wire::parsed;
use crate::words::lemma_words_differ;

verus! {

// ─── Lines ─────────────────────────────────────────────────────────────────

proof fn lemma_without_returns(line: Seq<char>) -> (n: int)
    ensures
        0 <= n <= line.len(),
        without_returns(line) == line.take(n),
        forall|i: int| n <= i < line.len() ==> #[trigger] line[i] == '\r',
        n > 0 ==> line[n - 1] != '\r',
    decreases line.len(),
{
    if line.len() > 0 && line.last() == '\r' {
        let n = lemma_without_returns(line.drop_last());
        assert(line.drop_last().take(n) =~= line.take(n));
        assert forall|i: int| n <= i < line.len() implies #[trigger] line[i] == '\r' by {
            if i < line.len() - 1 {
                assert(line.drop_last()[i] == line[i]);
            }
        }
        n
    } else {
        assert(line.take(line.len() as int) =~= line);
        line.len() as int
    }
}

proof fn lemma_same_trimmed(a: Seq<char>, b: Seq<char>)
    requires
        a.is_prefix_of(b),
        forall|i: int| a.len() <= i < b.len() ==> is_white(#[trigger] b[i]),
    ensures
        trimmed(b) == trimmed(a),
{
    let x = law_trimmed(a);
    let y = law_trimmed(b);
    assert forall|i: int| 0 <= i < a.len() implies a[i] == b[i] by {}
    if x.0 < x.1 {
        if y.0 < x.0 {
            assert(y.0 < y.1 ==> is_white(b[y.0]));
            if y.0 == y.1 {
                assert(is_white(b[x.0]));
            }
        } else if x.0 < y.0 {
            assert(is_white(b[x.0]));
        }
        if y.1 < x.1 {
            assert(is_white(b[x.1 - 1]));
        } else if x.1 < y.1 {
            assert(is_white(b[y.1 - 1]));
        }
        assert(a.subrange(x.0, x.1) =~= b.subrange(y.0, y.1));
    } else {
        if y.0 < y.1 {
            if y.0 < a.len() {
                assert(y.0 < x.0 || x.1 <= y.0);
                assert(is_white(a[y.0]));
            } else {
                assert(is_white(b[y.0]));
            }
        }
        assert(trimmed(a) =~= trimmed(b));
    }
}

/// A line that starts with `data: ` carries what follows, without the white space around it; no
/// other line carries anything.
pub proof fn law_data_of_a_line(line: Seq<char>, data: Seq<char>)
    ensures
        line_data("data: "@ + data) == Some(trimmed(data)),
        !"data: "@.is_prefix_of(line) ==> line_data(line) is None,
{
    reveal_strlit("data: ");
    let start = "data: "@;
    assert(start.len() == 6 && start[5] == ' ');
    let full = start + data;
    let n = lemma_without_returns(full);
    if n < 6 {
        assert(full[5] == '\r');
    }
    let bare = full.take(n);
    assert(bare.take(6) =~= start);
    assert(start.is_prefix_of(bare));
    let kept = bare.skip(6);
    assert(data.take(n - 6) =~= kept);
    assert(kept.is_prefix_of(data));
    assert forall|i: int| kept.len() <= i < data.len() implies is_white(
        #[trigger] data[i],
    ) by {
        assert(full[i + 6] == data[i]);
    }
    lemma_same_trimmed(kept, data);
    let m = lemma_without_returns(line);
    if start.is_prefix_of(line.take(m)) {
        assert(line.take(6) =~= line.take(m).take(6));
        assert(start.is_prefix_of(line));
    }
}

/// What a line of the upstream does. Once the stream is finished, nothing. `[DONE]` finishes it, and
/// completes the response where that has not happened. A JSON value is taken as a chunk. Every
/// other line does nothing.
pub proof fn law_line_is_taken(flow: Flow, line: Seq<char>, data: Seq<char>, choice: Choice)
    ensures
        flow.finished ==> after_line(flow, line, choice).flow == flow && after_line(
            flow,
            line,
            choice,
        ).events.len() == 0,
        !flow.finished && !"data: "@.is_prefix_of(line) ==> after_line(flow, line, choice).flow
            == flow && after_line(flow, line, choice).events.len() == 0,
        !flow.finished ==> ({
            let step = after_line(flow, "data: "@ + data, choice);
            if trimmed(data) == "[DONE]"@ {
                &&& step.flow.finished && step.flow.completed
                &&& flow.completed ==> step.flow == (Flow { finished: true, ..flow })
                    && step.events.len() == 0
                &&& !flow.completed ==> step.events == completion(
                    flow,
                    Some("stop"@),
                    None,
                    choice,
                ).events && step.flow == (Flow {
                    finished: true,
                    ..completion(flow, Some("stop"@), None, choice).flow
                })
            } else {
                match parsed(trimmed(data)) {
                    Some(chunk) => step == after_chunk(flow, chunk, choice),
                    None => step.flow == flow && step.events.len() == 0,
                }
            }
        }),
{
    law_data_of_a_line(line, data);
}

/// What has been read of the stream is cut into lines at every line feed, and nothing of it is
/// lost: the complete lines and the open one, joined by line feeds, are all of it, and no line
/// holds a line feed.
pub proof fn law_lines_of_the_stream(buffer: Seq<char>, text: Seq<char>)
    ensures
        ({
            let lines = complete_lines(buffer, text).push(open_line(buffer, text));
            &&& joined(lines, "\n"@) == buffer + text
            &&& forall|i: int, k: int|
                0 <= i < lines.len() && 0 <= k < lines[i].len() ==> #[trigger] lines[i][k] != '\n'
        }),
{
    reveal_strlit("\n");
    let all = buffer + text;
    let feed = "\n"@;
    law_split(all, feed);
    let pieces = split(all, feed);
    let lines = complete_lines(buffer, text).push(open_line(buffer, text));
    assert(lines =~= pieces);
    assert forall|i: int, k: int| 0 <= i < lines.len() && 0 <= k < lines[i].len() implies
    #[trigger] lines[i][k] != '\n' by {
        if lines[i][k] == '\n' {
            if i < pieces.len() - 1 {
                assert((pieces[i] + feed).subrange(k, k + feed.len()) =~= feed);
            } else {
                assert(pieces.last().subrange(k, k + feed.len()) =~= feed);
            }
        }
    }
}

// ─── Text ──────────────────────────────────────────────────────────────────

/// A chunk whose first choice has this delta.
pub open spec fn brings(chunk: Jv, delta: Jv) -> bool {
    chunk.get("choices"@) matches Some(Jv::Array(choices)) && choices.len() > 0 && choices[0].get(
        "delta"@,
    ) == Some(delta)
}

/// A chunk that brings a piece of text: its delta has the text as its content, and neither a list
/// of tool calls nor a reasoning text.
pub open spec fn brings_text(chunk: Jv, content: Seq<char>) -> bool {
    exists|delta: Jv| #[trigger]
        brings(chunk, delta) && delta.get("content"@) == Some(Jv::Str(content)) && delta.items_at(
            "tool_calls"@,
        ) is None && delta.get("reasoning_content"@) is None
}

/// Neither of the tags around a reasoning text stands in a text.
pub open spec fn is_untagged(content: Seq<char>) -> bool {
    lacks(content, "<think>"@) && lacks(content, "</think>"@)
}

proof fn lemma_lacks(s: Seq<char>, pattern: Seq<char>)
    requires
        lacks(s, pattern),
        pattern.len() > 0,
    ensures
        replaced(s, pattern, ""@) == s,
        !(has(s, pattern)),
{
    lemma_first_at(s, pattern, 0);
    assert forall|k: int| !occurs_at(s, pattern, k) by {}
}

proof fn lemma_untagged(content: Seq<char>)
    requires
        is_untagged(content),
    ensures
        untagged(content) == content,
        !(has(content, "<think>"@)),
        !(has(replaced(content, "<think>"@, ""@), "</think>"@)),
{
    reveal_strlit("<think>");
    reveal_strlit("</think>");
    lemma_lacks(content, "<think>"@);
    lemma_lacks(content, "</think>"@);
}

/// An event that sends a piece of text, for the message that stands at `index` in the output.
pub open spec fn sends_text(event: Event, index: int, text: Seq<char>) -> bool {
    &&& event.kind == "response.output_text.delta"@
    &&& event.data.text_at("type"@) == Some("response.output_text.delta"@)
    &&& event.data.get("output_index"@) == Some(Jv::Int(index))
    &&& event.data.get("content_index"@) == Some(Jv::Int(0))
    &&& event.data.text_at("delta"@) == Some(text)
}

/// The two events that begin a message: it is added to the output, without content, and then an
/// empty text is added to it.
pub open spec fn begins_message(events: Seq<Event>, index: int, id: Seq<char>) -> bool {
    &&& events[0].kind == "response.output_item.added"@
    &&& events[0].data.text_at("type"@) == Some("response.output_item.added"@)
    &&& events[0].data.get("output_index"@) == Some(Jv::Int(index))
    &&& events[0].data.get("item"@) is Some
    &&& shows_message(events[0].data.get("item"@)->0, id, "in_progress"@, Seq::empty())
    &&& events[1].kind == "response.content_part.added"@
    &&& events[1].data.text_at("type"@) == Some("response.content_part.added"@)
    &&& events[1].data.get("output_index"@) == Some(Jv::Int(index))
    &&& events[1].data.get("content_index"@) == Some(Jv::Int(0))
    &&& events[1].data.get("part"@) is Some
    &&& says(events[1].data.get("part"@)->0, ""@)
}

/// Outside of reasoning a piece of text without tags is added to the text as it is, white space
/// included, and sent as one text delta with just that text, unless it is empty. The first piece
/// begins the message, which goes behind the calls that are there; a later one does not.
pub proof fn law_text_is_sent(flow: Flow, chunk: Jv, content: Seq<char>, choice: Choice)
    requires
        brings_text(chunk, content),
        is_untagged(content),
        !flow.thinking,
        flow.calls.len() <= i64::MAX,
        flow.calls.len() <= usize::MAX,
    ensures
        ({
            let step = after_chunk(flow, chunk, choice);
            &&& step.flow.text == flow.text + content
            &&& !step.flow.thinking
            &&& step.flow.calls == flow.calls
            &&& content.len() == 0 ==> step.flow.message_at == flow.message_at
            &&& content.len() > 0 ==> match flow.message_at {
                Some(at) => {
                    &&& step.flow.message_at == Some(at)
                    &&& step.events.len() > 0
                    &&& sends_text(step.events[0], at as int, content)
                },
                None => {
                    &&& step.flow.message_at == Some(flow.calls.len() as usize)
                    &&& step.events.len() > 2
                    &&& begins_message(
                        step.events,
                        flow.calls.len() as int,
                        "msg_"@ + choice.message_id,
                    )
                    &&& sends_text(step.events[2], flow.calls.len() as int, content)
                },
            }
        }),
{
    lemma_words_differ();
    lemma_untagged(content);
    if content.len() == 0 {
        assert(flow.text + content =~= flow.text);
    } else {
        lemma_content(flow, content, choice);
    }
}

proof fn lemma_content(flow: Flow, content: Seq<char>, choice: Choice)
    requires
        is_untagged(content),
        content.len() > 0,
        !flow.thinking,
        flow.calls.len() <= i64::MAX,
        flow.calls.len() <= usize::MAX,
    ensures
        ({
            let step = after_content(flow, content, choice.message_id);
            let at = match flow.message_at {
                Some(at) => at,
                None => flow.calls.len() as usize,
            };
            &&& step.flow == (Flow { text: flow.text + content, message_at: Some(at), ..flow })
            &&& step.events.len() == (if flow.message_at is Some {
                1int
            } else {
                3
            })
            &&& sends_text(step.events.last(), at as int, content)
            &&& flow.message_at is None ==> begins_message(
                step.events,
                at as int,
                "msg_"@ + choice.message_id,
            )
        }),
{
    lemma_words_differ();
    lemma_untagged(content);
    lemma_message_shown("msg_"@ + choice.message_id, "in_progress"@, Seq::empty());
    lemma_text_said(""@);
}

/// What thinking hides. A `<think>` tag begins it and a `</think>` tag ends it; where both stand in
/// one piece the end prevails. While it lasts nothing is sent, and otherwise the piece is, without
/// its tags.
pub proof fn law_thinking_is_hidden(flow: Flow, chunk: Jv, content: Seq<char>, choice: Choice)
    requires
        brings_text(chunk, content),
    ensures
        ({
            let step = after_chunk(flow, chunk, choice);
            let bare = replaced(content, "<think>"@, ""@);
            let begins = has(content, "<think>"@);
            let ends = has(bare, "</think>"@);
            &&& ends ==> !step.flow.thinking && step.flow.text == flow.text + replaced(
                bare,
                "</think>"@,
                ""@,
            )
            &&& !ends && (begins || flow.thinking) ==> step.flow.thinking && step.flow.text
                == flow.text && step.flow.message_at == flow.message_at
            &&& !ends && !begins && !flow.thinking ==> !step.flow.thinking && step.flow.text
                == flow.text + content
        }),
{
    lemma_words_differ();
    reveal_strlit("<think>");
    reveal_strlit("</think>");
    let bare = replaced(content, "<think>"@, ""@);
    lemma_first_at(content, "<think>"@, 0);
    lemma_first_at(bare, "</think>"@, 0);
    let text = replaced(bare, "</think>"@, ""@);
    if text.len() == 0 {
        assert(flow.text + text =~= flow.text);
    }
    if !(has(content, "<think>"@)) {
        assert(bare == content);
    }
    if !(has(bare, "</think>"@)) {
        assert(text == bare);
    }
}

/// A chunk with a reasoning text and no list of tool calls does nothing, whatever else it holds,
/// and neither does one without a choice.
pub proof fn law_reasoning_does_nothing(flow: Flow, chunk: Jv, delta: Jv, choice: Choice)
    ensures
        brings(chunk, delta) && delta.get("reasoning_content"@) is Some && delta.items_at(
            "tool_calls"@,
        ) is None ==> after_chunk(flow, chunk, choice) == (Step { flow, events: Seq::empty() }),
        (match chunk.items_at("choices"@) {
            Some(choices) => choices.len() == 0,
            None => true,
        }) ==> after_chunk(flow, chunk, choice) == (Step { flow, events: Seq::empty() }),
{
}

// ─── The text of many lines ────────────────────────────────────────────────

/// The texts that a list of events sends, one for each text delta.
pub open spec fn texts_sent(events: Seq<Event>) -> Seq<Seq<char>>
    decreases events.len(),
{
    if events.len() == 0 {
        Seq::empty()
    } else {
        let before = texts_sent(events.drop_last());
        if events.last().kind == "response.output_text.delta"@ {
            before.push(events.last().data.text_at("delta"@)->0)
        } else {
            before
        }
    }
}

/// The texts of a list that are not empty.
pub open spec fn not_empty(texts: Seq<Seq<char>>) -> Seq<Seq<char>>
    decreases texts.len(),
{
    if texts.len() == 0 {
        Seq::empty()
    } else if texts.last().len() > 0 {
        not_empty(texts.drop_last()).push(texts.last())
    } else {
        not_empty(texts.drop_last())
    }
}

/// A line with a chunk that brings a piece of text and does not end the response.
pub open spec fn line_brings(line: Seq<char>, content: Seq<char>) -> bool {
    exists|data: Seq<char>, chunk: Jv|
        line == "data: "@ + data && trimmed(data) != "[DONE]"@ && #[trigger] parsed(trimmed(data))
            == Some(chunk) && #[trigger] brings_text(chunk, content) && chunk.items_at(
            "choices"@,
        )->0[0].text_at("finish_reason"@) is None
}

proof fn lemma_texts_sent(a: Seq<Event>, b: Seq<Event>)
    ensures
        texts_sent(a + b) == texts_sent(a) + texts_sent(b),
    decreases b.len(),
{
    if b.len() == 0 {
        assert(a + b =~= a);
        assert(texts_sent(a) + texts_sent(b) =~= texts_sent(a));
    } else {
        lemma_texts_sent(a, b.drop_last());
        assert((a + b).drop_last() =~= a + b.drop_last());
        assert(texts_sent(a + b) =~= texts_sent(a) + texts_sent(b));
    }
}

proof fn lemma_line_brings(flow: Flow, line: Seq<char>, content: Seq<char>, choice: Choice)
    requires
        !flow.thinking,
        !flow.finished,
        flow.calls.len() <= i64::MAX,
        flow.calls.len() <= usize::MAX,
        line_brings(line, content),
        is_untagged(content),
    ensures
        ({
            let step = after_line(flow, line, choice);
            &&& step.flow.text == flow.text + content
            &&& step.flow == (Flow {
                text: step.flow.text,
                message_at: step.flow.message_at,
                ..flow
            })
            &&& texts_sent(step.events) == (if content.len() > 0 {
                seq![content]
            } else {
                Seq::empty()
            })
        }),
{
    lemma_words_differ();
    let (data, chunk) = choose|data: Seq<char>, chunk: Jv|
        line == "data: "@ + data && trimmed(data) != "[DONE]"@ && #[trigger] parsed(trimmed(data))
            == Some(chunk) && #[trigger] brings_text(chunk, content) && chunk.items_at(
            "choices"@,
        )->0[0].text_at("finish_reason"@) is None;
    law_line_is_taken(flow, line, data, choice);
    law_text_is_sent(flow, chunk, content, choice);
    lemma_untagged(content);
    let step = after_line(flow, line, choice);
    assert(step == after_content(flow, content, choice.message_id));
    reveal_with_fuel(texts_sent, 4);
    if content.len() > 0 {
        lemma_content(flow, content, choice);
        let events = step.events;
        if events.len() == 1 {
            assert(events.drop_last() =~= Seq::empty());
        } else {
            assert(events.drop_last().drop_last().drop_last() =~= Seq::empty());
            assert(events.drop_last().last() == events[1]);
            assert(events.drop_last().drop_last().last() == events[0]);
        }
        assert(texts_sent(events) =~= seq![content]);
    }
}

/// Outside of reasoning, lines whose chunks bring the pieces of text `contents`, without tags, add
/// just these pieces to the text, one after the other, and send every piece that is not empty,
/// white space included, as one text delta. Nothing else changes but the place of the message.
pub proof fn law_pieces_make_the_text(
    flow: Flow,
    lines: Seq<Seq<char>>,
    contents: Seq<Seq<char>>,
    choices: Seq<Choice>,
)
    requires
        !flow.thinking,
        !flow.finished,
        flow.calls.len() <= i64::MAX,
        flow.calls.len() <= usize::MAX,
        contents.len() == lines.len(),
        forall|i: int|
            0 <= i < lines.len() ==> line_brings(#[trigger] lines[i], contents[i]) && is_untagged(
                contents[i],
            ),
    ensures
        ({
            let step = after_lines(flow, lines, choices);
            &&& step.flow.text == flow.text + joined(contents, ""@)
            &&& texts_sent(step.events) == not_empty(contents)
            &&& step.flow == (Flow {
                text: step.flow.text,
                message_at: step.flow.message_at,
                ..flow
            })
        }),
    decreases lines.len(),
{
    reveal_strlit("");
    if lines.len() == 0 {
        assert(flow.text + joined(contents, ""@) =~= flow.text);
    } else {
        let head = lines.drop_last();
        let said = contents.drop_last();
        assert forall|i: int| 0 <= i < head.len() implies line_brings(#[trigger] head[i], said[i])
            && is_untagged(said[i]) by {
            assert(head[i] == lines[i]);
        }
        law_pieces_make_the_text(flow, head, said, choices.drop_last());
        let before = after_lines(flow, head, choices.drop_last());
        let n = lines.len() - 1;
        assert(line_brings(lines[n], contents[n]) && is_untagged(contents[n]));
        lemma_line_brings(before.flow, lines[n], contents[n], choices.last());
        let last = after_line(before.flow, lines[n], choices.last());
        lemma_texts_sent(before.events, last.events);
        assert(flow.text + joined(said, ""@) + contents[n] =~= flow.text + joined(contents, ""@)) by {
            if said.len() > 0 {
                assert(said + seq![contents[n]] =~= contents);
                law_joined(said, seq![contents[n]], ""@);
                assert(joined(said, ""@) + ""@ =~= joined(said, ""@));
            } else {
                assert(seq![contents[0]] =~= contents);
                law_joined(contents, contents, ""@);
                assert(joined(said, ""@) =~= Seq::empty());
                assert(joined(said, ""@) + contents[n] =~= contents[n]);
            }
        }
        assert(texts_sent(last.events) + Seq::empty() =~= texts_sent(last.events));
        assert(not_empty(said) + texts_sent(last.events) =~= not_empty(contents));
    }
}

} // verus!
