//! How finished responses are found in a stream of events.

use vstd::prelude::*;

use crate::capture::{
    block_lines, chunk_text, complete_blocks, completed_in, completed_in_all, fields_of, open_block,
    with_line_feeds,
};
use crate::text::{joined, lossy_text, split, trimmed, trimmed_start};
use crate::text_laws::{law_replaced, law_split};
use crate::wire::parsed;

verus! {

/// What has been read is cut into blocks at every blank line, and nothing of it is lost.
pub proof fn law_blocks_of_the_stream(buffer: Seq<char>, text: Seq<char>)
    ensures
        joined(complete_blocks(buffer, text).push(open_block(buffer, text)), "\n\n"@) == buffer
            + text,
        forall|k: int|
            0 <= k && k + 2 <= open_block(buffer, text).len() ==> #[trigger] open_block(
                buffer,
                text,
            ).subrange(k, k + 2) != "\n\n"@,
        forall|i: int, k: int|
            0 <= i < complete_blocks(buffer, text).len() && 0 <= k < complete_blocks(
                buffer,
                text,
            )[i].len() ==> #[trigger] (complete_blocks(buffer, text)[i] + "\n\n"@).subrange(
                k,
                k + 2,
            ) != "\n\n"@,
{
    reveal_strlit("\n\n");
    assert("\n\n"@.len() == 2);
    let all = buffer + text;
    law_split(all, "\n\n"@);
    let pieces = split(all, "\n\n"@);
    assert(complete_blocks(buffer, text).push(open_block(buffer, text)) =~= pieces);
    assert forall|i: int, k: int|
        0 <= i < complete_blocks(buffer, text).len() && 0 <= k < complete_blocks(
            buffer,
            text,
        )[i].len() implies #[trigger] (complete_blocks(buffer, text)[i] + "\n\n"@).subrange(
        k,
        k + 2,
    ) != "\n\n"@ by {
        assert(complete_blocks(buffer, text)[i] == pieces[i]);
        assert((pieces[i] + "\n\n"@).subrange(k, k + 2) != "\n\n"@);
    }
}

/// Line ends of two characters become line feeds, and nothing else changes.
pub proof fn law_line_ends(text: Seq<char>)
    ensures
        with_line_feeds(text) == joined(split(text, "\r\n"@), "\n"@),
{
    reveal_strlit("\r\n");
    law_replaced(text, "\r\n"@, "\n"@);
}

/// Bytes are read as text before their line ends are.
pub proof fn law_text_of_a_chunk(bytes: Seq<u8>)
    ensures
        chunk_text(bytes) == joined(split(lossy_text(bytes), "\r\n"@), "\n"@),
{
    law_line_ends(lossy_text(bytes));
}

/// The lines of a block are what stands between its line feeds: a line that a line feed ends loses
/// one carriage return at its end, and nothing behind the last line feed is no line.
pub proof fn law_lines_of_a_block(block: Seq<char>)
    ensures
        ({
            let pieces = split(block, "\n"@);
            let lines = block_lines(block);
            &&& pieces.len() > 0
            &&& lines.len() == pieces.len() - if pieces.last().len() == 0 {
                1int
            } else {
                0
            }
            &&& pieces.last().len() > 0 ==> lines.last() == pieces.last()
            &&& forall|i: int|
                0 <= i < pieces.len() - 1 ==> #[trigger] lines[i] == if pieces[i].len() > 0
                    && pieces[i].last() == '\r' {
                    pieces[i].drop_last()
                } else {
                    pieces[i]
                }
        }),
{
}

/// What one more line tells of an event: behind `event:` its kind, in place of an earlier one;
/// behind `data:` one more line of its data; every other line tells nothing.
pub proof fn law_line_of_an_event(lines: Seq<Seq<char>>, line: Seq<char>)
    ensures
        fields_of(Seq::empty()).event.len() == 0,
        fields_of(Seq::empty()).data.len() == 0,
        ({
            let before = fields_of(lines);
            let after = fields_of(lines.push(line));
            if line.len() >= 6 && line.take(6) == "event:"@ {
                after.event == trimmed(line.skip(6)) && after.data == before.data
            } else if line.len() >= 5 && line.take(5) == "data:"@ {
                after.event == before.event && after.data == before.data.push(
                    trimmed_start(line.skip(5)),
                )
            } else {
                after == before
            }
        }),
{
    reveal_strlit("event:");
    reveal_strlit("data:");
    reveal_strlit("");
    assert("event:"@.len() == 6 && "data:"@.len() == 5);
    assert(lines.push(line).drop_last() =~= lines);
    if line.len() >= 6 && line.take(6) == "event:"@ {
        assert("event:"@.is_prefix_of(line));
    }
    if line.len() >= 5 && line.take(5) == "data:"@ {
        assert("data:"@.is_prefix_of(line));
    }
}

/// A block tells of a finished response where its data, line by line, is a JSON value and the kind
/// of the event, or the type that the value names, is `response.completed`. The response is the
/// `response` member of the value, and the value itself where it has none. No other block tells of
/// one.
pub proof fn law_block_with_a_response(block: Seq<char>)
    ensures
        ({
            let fields = fields_of(block_lines(block));
            let data = joined(fields.data, "\n"@);
            match parsed(data) {
                None => completed_in(block) is None,
                Some(value) => {
                    let named = fields.event == "response.completed"@ || value.text_at("type"@)
                        == Some("response.completed"@);
                    &&& data.len() == 0 || data == "[DONE]"@ || !named ==> completed_in(block) is None
                    &&& data.len() > 0 && data != "[DONE]"@ && named ==> completed_in(block) == (
                    match value.get("response"@) {
                        Some(response) => Some(response),
                        None => Some(value),
                    })
                },
            }
        }),
{
}

/// The responses of a list of blocks are those of its blocks, in their order.
pub proof fn law_responses_in_order(blocks: Seq<Seq<char>>, block: Seq<char>)
    ensures
        completed_in_all(Seq::empty()).len() == 0,
        completed_in(block) is None ==> completed_in_all(blocks.push(block)) == completed_in_all(
            blocks,
        ),
        completed_in(block) matches Some(response) ==> completed_in_all(blocks.push(block))
            == completed_in_all(blocks).push(response),
{
    assert(blocks.push(block).drop_last() =~= blocks);
}

} // verus!
