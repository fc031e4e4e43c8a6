//! Where the texts end in which a stream passes through does not matter to what is read of it.

use vstd::prelude::*;

use crate::capture::{complete_blocks, completed_in_all, open_block, with_line_feeds};
use crate::json::Jv;
use crate::stream_laws::together;
use crate::text::{
    first_at, has, lemma_first_at, lemma_split_ahead, lemma_split_not_empty, occurs_at, split,
};

verus! {

/// Whether a line end of two characters is cut apart between two texts.
pub open spec fn cuts_line_end(a: Seq<char>, b: Seq<char>) -> bool {
    a.len() > 0 && b.len() > 0 && a.last() == '\r' && b[0] == '\n'
}

/// Whether no line end of two characters is cut apart between the texts of a list.
pub open spec fn keeps_line_ends(texts: Seq<Seq<char>>) -> bool
    decreases texts.len(),
{
    texts.len() > 0 ==> keeps_line_ends(texts.drop_last()) && !cuts_line_end(
        together(texts.drop_last()),
        texts.last(),
    )
}

/// The block that has no end yet, once a list of texts has come in behind `buffer`.
pub open spec fn block_left(buffer: Seq<char>, texts: Seq<Seq<char>>) -> Seq<char>
    decreases texts.len(),
{
    if texts.len() == 0 {
        buffer
    } else {
        open_block(block_left(buffer, texts.drop_last()), with_line_feeds(texts.last()))
    }
}

/// The responses that a list of texts completes, as they come in behind `buffer`.
pub open spec fn responses_read(buffer: Seq<char>, texts: Seq<Seq<char>>) -> Seq<Jv>
    decreases texts.len(),
{
    if texts.len() == 0 {
        Seq::empty()
    } else {
        responses_read(buffer, texts.drop_last()) + completed_in_all(
            complete_blocks(
                block_left(buffer, texts.drop_last()),
                with_line_feeds(texts.last()),
            ),
        )
    }
}

proof fn lemma_no_split(s: Seq<char>, separator: Seq<char>)
    requires
        !(has(s, separator)),
    ensures
        split(s, separator) == seq![s],
{
    lemma_first_at(s, separator, 0);
    if let Some(i) = first_at(s, separator, 0) {
        assert(occurs_at(s, separator, i));
    }
}

/// Line feeds take the place of line ends in each of two texts as in both together, where no
/// line end is cut apart.
pub proof fn law_line_ends_in_parts(a: Seq<char>, b: Seq<char>)
    requires
        !cuts_line_end(a, b),
    ensures
        with_line_feeds(a + b) == with_line_feeds(a) + with_line_feeds(b),
    decreases a.len(),
{
    reveal_strlit("\r\n");
    let line_end = "\r\n"@;
    assert(line_end.len() == 2 && line_end[0] == '\r' && line_end[1] == '\n');
    let whole = a + b;
    lemma_first_at(a, line_end, 0);
    lemma_first_at(b, line_end, 0);
    lemma_first_at(whole, line_end, 0);
    match first_at(a, line_end, 0) {
        Some(i) => {
            assert(whole.subrange(i, i + 2) =~= a.subrange(i, i + 2));
            assert(occurs_at(whole, line_end, i));
            let k = first_at(whole, line_end, 0)->0;
            if k < i {
                assert(whole.subrange(k, k + 2) =~= a.subrange(k, k + 2));
                assert(occurs_at(a, line_end, k));
            }
            let rest = a.skip(i + 2);
            law_line_ends_in_parts(rest, b);
            assert(whole.skip(i + 2) =~= rest + b);
            assert(whole.take(i) =~= a.take(i));
            assert(with_line_feeds(whole) =~= with_line_feeds(a) + with_line_feeds(b));
        },
        None => {
            assert forall|k: int| 0 <= k < a.len() implies !(#[trigger] occurs_at(
                whole,
                line_end,
                k,
            )) by {
                if occurs_at(whole, line_end, k) {
                    assert(whole.subrange(k, k + 2)[0] == whole[k]);
                    assert(whole.subrange(k, k + 2)[1] == whole[k + 1]);
                    if k + 2 <= a.len() {
                        assert(whole.subrange(k, k + 2) =~= a.subrange(k, k + 2));
                        assert(occurs_at(a, line_end, k));
                    }
                }
            }
            match first_at(b, line_end, 0) {
                Some(j) => {
                    let n = a.len() as int;
                    assert(whole.subrange(n + j, n + j + 2) =~= b.subrange(j, j + 2));
                    assert(occurs_at(whole, line_end, n + j));
                    let k = first_at(whole, line_end, 0)->0;
                    if k < n + j {
                        assert(whole.subrange(k, k + 2) =~= b.subrange(k - n, k - n + 2));
                        assert(occurs_at(b, line_end, k - n));
                    }
                    assert(whole.skip(k + 2) =~= b.skip(j + 2));
                    assert(whole.take(k) =~= a + b.take(j));
                    assert(with_line_feeds(whole) =~= a + with_line_feeds(b));
                },
                None => {
                    if let Some(k) = first_at(whole, line_end, 0) {
                        let n = a.len() as int;
                        assert(whole.subrange(k, k + 2) =~= b.subrange(k - n, k - n + 2));
                        assert(occurs_at(b, line_end, k - n));
                    }
                },
            }
        },
    }
}

/// The blocks of a stream are the same, whether it comes in two texts or in one.
pub proof fn law_blocks_ignore_chunks(buffer: Seq<char>, a: Seq<char>, b: Seq<char>)
    ensures
        complete_blocks(buffer, a + b) == complete_blocks(buffer, a) + complete_blocks(
            open_block(buffer, a),
            b,
        ),
        open_block(buffer, a + b) == open_block(open_block(buffer, a), b),
{
    reveal_strlit("\n\n");
    assert(buffer + (a + b) =~= (buffer + a) + b);
    lemma_split_ahead(buffer + a, b, "\n\n"@);
    lemma_split_not_empty(open_block(buffer, a) + b, "\n\n"@);
    let head = split(buffer + a, "\n\n"@).drop_last();
    let tail = split(open_block(buffer, a) + b, "\n\n"@);
    assert((head + tail).drop_last() =~= head + tail.drop_last());
    assert((head + tail).last() == tail.last());
}

proof fn lemma_completed_in_parts(a: Seq<Seq<char>>, b: Seq<Seq<char>>)
    ensures
        completed_in_all(a + b) == completed_in_all(a) + completed_in_all(b),
    decreases b.len(),
{
    if b.len() == 0 {
        assert(a + b =~= a);
        assert(completed_in_all(a) + completed_in_all(b) =~= completed_in_all(a));
    } else {
        lemma_completed_in_parts(a, b.drop_last());
        assert((a + b).drop_last() =~= a + b.drop_last());
        assert(completed_in_all(a + b) =~= completed_in_all(a) + completed_in_all(b));
    }
}

/// What is read of a stream does not depend on where the texts end in which it comes in, as long
/// as no line end of two characters is cut apart: the same responses in the same order, and the
/// same block left without an end.
pub proof fn law_capture_ignores_chunks(buffer: Seq<char>, texts: Seq<Seq<char>>)
    requires
        !(has(buffer, "\n\n"@)),
        keeps_line_ends(texts),
    ensures
        responses_read(buffer, texts) == completed_in_all(
            complete_blocks(buffer, with_line_feeds(together(texts))),
        ),
        block_left(buffer, texts) == open_block(buffer, with_line_feeds(together(texts))),
    decreases texts.len(),
{
    if texts.len() == 0 {
        reveal_strlit("\r\n");
        assert(together(texts) =~= Seq::empty());
        lemma_first_at(Seq::<char>::empty(), "\r\n"@, 0);
        assert(with_line_feeds(Seq::empty()) =~= Seq::empty());
        assert(buffer + Seq::<char>::empty() =~= buffer);
        lemma_no_split(buffer, "\n\n"@);
        assert(seq![buffer].drop_last() =~= Seq::empty());
    } else {
        let head = texts.drop_last();
        let last = texts.last();
        law_capture_ignores_chunks(buffer, head);
        law_line_ends_in_parts(together(head), last);
        law_blocks_ignore_chunks(buffer, with_line_feeds(together(head)), with_line_feeds(last));
        lemma_completed_in_parts(
            complete_blocks(buffer, with_line_feeds(together(head))),
            complete_blocks(
                open_block(buffer, with_line_feeds(together(head))),
                with_line_feeds(last),
            ),
        );
    }
}

} // verus!
