//! A stream of responses that passes through, and the response that it completes.

use vstd::prelude::*;
use vstd::string::*;
use vstd::utf8::{decode_utf8, valid_utf8};

use crate::json::{group_json, views, Json, Jv};
use crate::text::{
    chars_of, first_at, is_white, join, joined, lemma_first_at, lemma_split_not_empty, lossy_text,
    occurs_at, opt_string, replace, replaced, same, split, split_on, starts_with, text_of,
    text_of_bytes, texts, trim, trim_start, trimmed, trimmed_end, trimmed_start,
};
use crate::wire::{one_line, parsed};

verus! {

broadcast use group_json;

// ─── One block of the stream ───────────────────────────────────────────────

/// A line without one carriage return at its end.
pub open spec fn without_return(line: Seq<char>) -> Seq<char> {
    if line.len() > 0 && line.last() == '\r' {
        line.drop_last()
    } else {
        line
    }
}

/// The lines of a block. A line ends with a line feed, or with a carriage return and a line
/// feed; what stands behind the last line feed is a line where it is not empty.
pub open spec fn block_lines(block: Seq<char>) -> Seq<Seq<char>> {
    let pieces = split(block, "\n"@);
    let ended = pieces.drop_last().map_values(|line: Seq<char>| without_return(line));
    if pieces.last().len() == 0 {
        ended
    } else {
        ended.push(pieces.last())
    }
}

/// What the lines of a block say: of which kind its event is, and its lines of data.
#[verifier::ext_equal]
pub struct Fields {
    pub event: Seq<char>,
    pub data: Seq<Seq<char>>,
}

/// The fields of a block with one more line.
pub open spec fn with_line(fields: Fields, line: Seq<char>) -> Fields {
    if "event:"@.is_prefix_of(line) {
        Fields { event: trimmed(line.skip("event:"@.len() as int)), ..fields }
    } else if "data:"@.is_prefix_of(line) {
        Fields { data: fields.data.push(trimmed_start(line.skip("data:"@.len() as int))), ..fields }
    } else {
        fields
    }
}

/// The fields that a list of lines gives.
pub open spec fn fields_of(lines: Seq<Seq<char>>) -> Fields
    decreases lines.len(),
{
    if lines.len() == 0 {
        Fields { event: ""@, data: Seq::empty() }
    } else {
        with_line(fields_of(lines.drop_last()), lines.last())
    }
}

/// The data of a block, as one text.
pub open spec fn block_data(block: Seq<char>) -> Seq<char> {
    joined(fields_of(block_lines(block)).data, "\n"@)
}

/// The response that an event completes, given its kind and its data.
pub open spec fn completed_by(event: Seq<char>, data: Jv) -> Option<Jv> {
    if event == "response.completed"@ || data.text_at("type"@) == Some("response.completed"@) {
        Some(data.get_or("response"@, data))
    } else {
        None
    }
}

/// The response that a block completes.
pub open spec fn completed_in(block: Seq<char>) -> Option<Jv> {
    let data = block_data(block);
    if data.len() == 0 || data == "[DONE]"@ {
        None
    } else {
        match parsed(data) {
            Some(v) => completed_by(fields_of(block_lines(block)).event, v),
            None => None,
        }
    }
}

fn lines_of_block(block: &str) -> (r: Vec<String>)
    ensures
        texts(r@) == block_lines(block@),
{
    proof {
        reveal_strlit("\n");
        lemma_split_not_empty(block@, "\n"@);
    }
    let mut pieces = split_on(block, "\n");
    let ghost all = texts(pieces@);
    let last = pieces.pop().unwrap();
    let ghost ended = all.drop_last();
    assert(texts(pieces@) =~= ended);
    assert(last@ == all.last());
    let mut r: Vec<String> = Vec::new();
    let mut i: usize = 0;
    while i < pieces.len()
        invariant
            i <= pieces@.len(),
            ended == texts(pieces@),
            r@.len() == i,
            forall|k: int| 0 <= k < i ==> (#[trigger] r@[k])@ == without_return(ended[k]),
        decreases pieces@.len() - i,
    {
        let chars = chars_of(pieces[i].as_str());
        let n = chars.len();
        assert(ended[i as int] == chars@);
        if n > 0 && chars[n - 1] == '\r' {
            r.push(text_of(&chars, 0, n - 1));
            assert(chars@.subrange(0, n - 1) =~= chars@.drop_last());
        } else {
            r.push(pieces[i].clone());
        }
        i = i + 1;
    }
    assert(texts(r@) =~= ended.map_values(|line: Seq<char>| without_return(line)));
    let ghost before = texts(r@);
    if !last.as_str().is_empty() {
        let ghost l = last@;
        r.push(last);
        assert(texts(r@) =~= before.push(l));
    }
    r
}

/// The text behind a prefix.
fn behind(line: &str, prefix: &str) -> (r: Option<String>)
    ensures
        opt_string(r) == (if prefix@.is_prefix_of(line@) {
            Some(line@.skip(prefix@.len() as int))
        } else {
            None
        }),
{
    if !starts_with(line, prefix) {
        return None;
    }
    let chars = chars_of(line);
    let skipped = chars_of(prefix).len();
    let rest = text_of(&chars, skipped, chars.len());
    assert(rest@ =~= line@.skip(prefix@.len() as int));
    Some(rest)
}

/// The kind of the event of a block, and its data.
pub fn read_block(block: &str) -> (r: (String, String))
    ensures
        r.0@ == fields_of(block_lines(block@)).event,
        r.1@ == block_data(block@),
{
    let lines = lines_of_block(block);
    let ghost all = texts(lines@);
    let mut event = "".to_owned();
    let mut data: Vec<String> = Vec::new();
    let mut i: usize = 0;
    assert(texts(data@) =~= fields_of(all.take(0)).data);
    while i < lines.len()
        invariant
            i <= lines@.len(),
            all == texts(lines@),
            event@ == fields_of(all.take(i as int)).event,
            texts(data@) == fields_of(all.take(i as int)).data,
        decreases lines@.len() - i,
    {
        let line = lines[i].as_str();
        let ghost before = texts(data@);
        assert(all.take(i + 1).drop_last() =~= all.take(i as int));
        assert(all.take(i + 1).last() == line@);
        match behind(line, "event:") {
            Some(rest) => {
                event = trim(rest.as_str());
            },
            None => match behind(line, "data:") {
                Some(rest) => {
                    let piece = trim_start(rest.as_str());
                    let ghost p = piece@;
                    data.push(piece);
                    assert(texts(data@) =~= before.push(p));
                },
                None => {},
            },
        }
        i = i + 1;
    }
    assert(all.take(i as int) =~= all);
    let whole = join(&data, "\n");
    (event, whole)
}

/// The response that an event completes, given its kind and its data.
pub fn completed_response(event: &str, data: &Json) -> (r: Option<Json>)
    ensures
        (match r {
            Some(response) => completed_by(event@, data@) == Some(response@),
            None => completed_by(event@, data@) is None,
        }),
{
    if same(event, "response.completed") || data.text_is("type", "response.completed") {
        Some(data.get_or("response", data.clone()))
    } else {
        None
    }
}

/// The response that a block of the stream completes.
pub fn handle_sse_block(block: &str) -> (r: Option<Json>)
    ensures
        (match r {
            Some(response) => completed_in(block@) == Some(response@),
            None => completed_in(block@) is None,
        }),
{
    let (event, data) = read_block(block);
    if data.as_str().is_empty() || same(data.as_str(), "[DONE]") {
        return None;
    }
    match Json::parse(data.as_str()) {
        Some(v) => completed_response(event.as_str(), &v),
        None => None,
    }
}

// ─── The stream ────────────────────────────────────────────────────────────

/// The responses that a list of blocks completes, in their order.
pub open spec fn completed_in_all(blocks: Seq<Seq<char>>) -> Seq<Jv>
    decreases blocks.len(),
{
    if blocks.len() == 0 {
        Seq::empty()
    } else {
        let before = completed_in_all(blocks.drop_last());
        match completed_in(blocks.last()) {
            Some(response) => before.push(response),
            None => before,
        }
    }
}

/// A text with line feeds for its line ends.
pub open spec fn with_line_feeds(text: Seq<char>) -> Seq<char> {
    replaced(text, "\r\n"@, "\n"@)
}

/// The text that a chunk of the stream adds, with line feeds for its line ends.
pub open spec fn chunk_text(bytes: Seq<u8>) -> Seq<char> {
    with_line_feeds(lossy_text(bytes))
}

/// The blocks that are complete once `text` has come in behind `buffer`: those that an empty
/// line ends.
pub open spec fn complete_blocks(buffer: Seq<char>, text: Seq<char>) -> Seq<Seq<char>> {
    split(buffer + text, "\n\n"@).drop_last()
}

/// What has no end yet once `text` has come in behind `buffer`.
pub open spec fn open_block(buffer: Seq<char>, text: Seq<char>) -> Seq<char> {
    split(buffer + text, "\n\n"@).last()
}

/// Reads along with a stream.
pub struct ResponseCapture {
    buffer: String,
}

impl View for ResponseCapture {
    type V = Seq<char>;

    /// The block that has no end yet.
    closed spec fn view(&self) -> Seq<char> {
        self.buffer@
    }
}

impl ResponseCapture {
    pub fn new() -> (r: ResponseCapture)
        ensures
            r@ == Seq::<char>::empty(),
    {
        ResponseCapture { buffer: String::new() }
    }

    /// Takes in text of the stream, as it comes; gives the responses that it completes.
    pub fn push_text(&mut self, text: &str) -> (r: Vec<Json>)
        ensures
            final(self)@ == open_block(old(self)@, with_line_feeds(text@)),
            views(r@) == completed_in_all(complete_blocks(old(self)@, with_line_feeds(text@))),
    {
        proof {
            reveal_strlit("\r\n");
            reveal_strlit("\n\n");
        }
        let read = replace(text, "\r\n", "\n");
        let whole = self.buffer.clone().concat(read.as_str());
        let mut pieces = split_on(whole.as_str(), "\n\n");
        let ghost all = texts(pieces@);
        proof {
            lemma_split_not_empty(whole@, "\n\n"@);
        }
        let rest = pieces.pop().unwrap();
        let ghost blocks = texts(pieces@);
        assert(blocks =~= all.drop_last());
        self.buffer = rest;
        let mut r: Vec<Json> = Vec::new();
        let mut i: usize = 0;
        assert(views(r@) =~= completed_in_all(blocks.take(0)));
        while i < pieces.len()
            invariant
                i <= pieces@.len(),
                blocks == texts(pieces@),
                views(r@) == completed_in_all(blocks.take(i as int)),
            decreases pieces@.len() - i,
        {
            assert(blocks.take(i + 1).drop_last() =~= blocks.take(i as int));
            assert(blocks.take(i + 1).last() == pieces@[i as int]@);
            match handle_sse_block(pieces[i].as_str()) {
                Some(response) => {
                    r.push(response);
                },
                None => {},
            }
            i = i + 1;
        }
        assert(blocks.take(i as int) =~= blocks);
        r
    }

    /// Takes in bytes of the stream, as they come; gives the responses that they complete.
    pub fn push_bytes(&mut self, bytes: &[u8]) -> (r: Vec<Json>)
        ensures
            valid_utf8(bytes@) ==> lossy_text(bytes@) == decode_utf8(bytes@),
            final(self)@ == open_block(old(self)@, chunk_text(bytes@)),
            views(r@) == completed_in_all(complete_blocks(old(self)@, chunk_text(bytes@))),
    {
        let text = text_of_bytes(bytes);
        self.push_text(text.as_str())
    }

    /// Ends the stream; gives the response that its last block completes, where that has no end.
    pub fn finish(self) -> (r: Option<Json>)
        ensures
            (match r {
                Some(response) => trimmed(self@).len() > 0 && completed_in(self@) == Some(
                    response@,
                ),
                None => trimmed(self@).len() == 0 || completed_in(self@) is None,
            }),
    {
        if trim(self.buffer.as_str()).as_str().is_empty() {
            return None;
        }
        handle_sse_block(self.buffer.as_str())
    }
}

// ─── An event reads back ───────────────────────────────────────────────────

spec fn no_break(s: Seq<char>) -> bool {
    forall|i: int| 0 <= i < s.len() ==> #[trigger] s[i] != '\n'
}

proof fn lemma_no_occurrence(s: Seq<char>, pattern: Seq<char>)
    requires
        no_break(s),
        pattern.len() > 0,
        pattern[0] == '\n',
    ensures
        split(s, pattern) == seq![s],
{
    lemma_first_at(s, pattern, 0);
    if let Some(i) = first_at(s, pattern, 0) {
        assert(s.subrange(i, i + pattern.len())[0] == s[i]);
    }
}

proof fn lemma_split_first(s: Seq<char>, pattern: Seq<char>, at: int)
    requires
        occurs_at(s, pattern, at),
        pattern.len() > 0,
        forall|k: int| 0 <= k < at ==> !occurs_at(s, pattern, k),
    ensures
        split(s, pattern) == seq![s.take(at)] + split(s.skip(at + pattern.len()), pattern),
{
    lemma_first_at(s, pattern, 0);
    let i = first_at(s, pattern, 0)->0;
    assert(first_at(s, pattern, 0) is Some);
    assert(i == at);
}

proof fn lemma_trimmed_end_stays(s: Seq<char>)
    requires
        s.len() > 0,
        !is_white(s.last()),
    ensures
        trimmed_end(s) == s,
{
}

/// The fields of a block of two lines, one of them an event and the other its data.
proof fn lemma_block_of_event(kind: Seq<char>, line: Seq<char>)
    requires
        one_line(kind),
        one_line(line),
    ensures
        fields_of(block_lines("event: "@ + kind + "\ndata: "@ + line)) == (Fields {
            event: kind,
            data: seq![line],
        }),
        block_data("event: "@ + kind + "\ndata: "@ + line) == line,
{
    reveal_strlit("event: ");
    reveal_strlit("event:");
    reveal_strlit("\ndata: ");
    reveal_strlit("data:");
    reveal_strlit("\n");
    reveal_strlit("");
    assert("event: "@.len() == 7 && "event:"@.len() == 6 && "\ndata: "@.len() == 7 && "data:"@.len()
        == 5);
    let block = "event: "@ + kind + "\ndata: "@ + line;
    let first = "event: "@ + kind;
    let second = seq!['d', 'a', 't', 'a', ':', ' '] + line;
    let at = first.len() as int;
    assert(no_break(first)) by {
        assert forall|i: int| 0 <= i < first.len() implies #[trigger] first[i] != '\n' by {
            if i >= 7 {
                assert(first[i] == kind[i - 7]);
            }
        }
    }
    assert(no_break(second)) by {
        assert forall|i: int| 0 <= i < second.len() implies #[trigger] second[i] != '\n' by {
            if i >= 6 {
                assert(second[i] == line[i - 6]);
            }
        }
    }
    assert(block[at] == '\n');
    assert(block.subrange(at, at + 1) =~= "\n"@);
    assert forall|k: int| 0 <= k < at implies !occurs_at(block, "\n"@, k) by {
        if occurs_at(block, "\n"@, k) {
            assert(block.subrange(k, k + 1)[0] == first[k]);
        }
    }
    lemma_split_first(block, "\n"@, at);
    assert(block.take(at) =~= first);
    assert(block.skip(at + 1) =~= second);
    lemma_no_occurrence(second, "\n"@);
    let pieces = split(block, "\n"@);
    assert(pieces =~= seq![first, second]);
    assert(without_return(first) == first) by {
        assert(first.last() == kind.last());
    }
    let lines = block_lines(block);
    assert(pieces.drop_last() =~= seq![first]);
    assert(seq![first].map_values(|l: Seq<char>| without_return(l)) =~= seq![first]);
    assert(lines =~= seq![first, second]);
    assert(lines.drop_last() =~= seq![first]);
    assert(lines.drop_last().drop_last() =~= Seq::empty());
    assert(first.subrange(0, 6) =~= "event:"@);
    assert("event:"@.is_prefix_of(first));
    assert(second[0] == 'd' && "event:"@[0] == 'e');
    assert(!"event:"@.is_prefix_of(second));
    assert(second.subrange(0, 5) =~= "data:"@);
    assert("data:"@.is_prefix_of(second));
    let after_event = first.skip(6);
    assert(after_event =~= seq![' '] + kind);
    assert(after_event.skip(1) =~= kind);
    assert(trimmed_start(after_event) == kind) by {
        reveal_with_fuel(trimmed_start, 3);
    }
    lemma_trimmed_end_stays(kind);
    assert(trimmed(after_event) == kind) by {
        lemma_trimmed_end_stays(after_event);
    }
    let after_data = second.skip(5);
    assert(after_data =~= seq![' '] + line);
    assert(after_data.skip(1) =~= line);
    assert(trimmed_start(after_data) == line) by {
        reveal_with_fuel(trimmed_start, 3);
    }
    reveal_with_fuel(fields_of, 3);
    assert(Seq::<Seq<char>>::empty().push(line) =~= seq![line]);
}

/// An event on the wire is one block of the stream, and its data stands in it as it was
/// written.
pub proof fn law_event_is_one_block(kind: Seq<char>, line: Seq<char>)
    requires
        one_line(kind),
        one_line(line),
    ensures
        ({
            let block = "event: "@ + kind + "\ndata: "@ + line;
            &&& complete_blocks(Seq::empty(), block + "\n\n"@) == seq![block]
            &&& open_block(Seq::empty(), block + "\n\n"@) == Seq::<char>::empty()
            &&& fields_of(block_lines(block)).event == kind
            &&& block_data(block) == line
        }),
{
    lemma_block_of_event(kind, line);
    reveal_strlit("event: ");
    reveal_strlit("\ndata: ");
    reveal_strlit("\n\n");
    let block = "event: "@ + kind + "\ndata: "@ + line;
    let end = "\n\n"@;
    let whole = Seq::<char>::empty() + (block + end);
    let at = block.len() as int;
    assert(whole.subrange(at, at + 2) =~= end);
    let mid = 7 + kind.len();
    assert forall|k: int| 0 <= k < at implies !occurs_at(whole, end, k) by {
        if occurs_at(whole, end, k) {
            assert(whole.subrange(k, k + 2)[0] == block[k]);
            assert(whole.subrange(k, k + 2)[1] == whole[k + 1]);
            if k < 7 {
            } else if k < mid {
                assert(block[k] == kind[k - 7]);
            } else if k == mid {
                assert(whole[k + 1] == 'd');
            } else if k < mid + 7 {
            } else {
                assert(block[k] == line[k - mid - 7]);
            }
        }
    }
    lemma_split_first(whole, end, at);
    assert(whole.take(at) =~= block);
    assert(whole.skip(at + 2) =~= Seq::empty());
    lemma_no_occurrence(Seq::empty(), end);
    let pieces = split(whole, end);
    assert(pieces =~= seq![block, Seq::empty()]);
    assert(pieces.drop_last() =~= seq![block]);
}

} // verus!
