//! What trimming, searching, splitting, joining, replacing and counting do to a text.

use vstd::prelude::*;

use crate::config::{digits_value, port_in};
use crate::pattern::{has_url, without_think_tags};
use crate::text::{
    ascii_lower, ascii_upper, decimal, first_at, first_chars, has, is_white, joined, lemma_first_at,
    occurs_at, replaced, split, trimmed, trimmed_end, trimmed_start,
};
use crate::util::{csv_entries, csv_step};

verus! {

// ─── White space ───────────────────────────────────────────────────────────

/// White space is the twenty-five characters that Unicode calls so, and no other character.
pub proof fn law_white_space(c: char)
    ensures
        is_white(c) <==> (c == '\t' || c == '\n' || c == '\u{b}' || c == '\u{c}' || c
            == '\r' || c == ' ' || c == '\u{85}' || c == '\u{a0}' || c == '\u{1680}' || c
            == '\u{2000}' || c == '\u{2001}' || c == '\u{2002}' || c == '\u{2003}' || c
            == '\u{2004}' || c == '\u{2005}' || c == '\u{2006}' || c == '\u{2007}' || c
            == '\u{2008}' || c == '\u{2009}' || c == '\u{200a}' || c == '\u{2028}' || c
            == '\u{2029}' || c == '\u{202f}' || c == '\u{205f}' || c == '\u{3000}'),
{
}

/// Trimming the start of a text takes off white space and stops at the first other character:
/// the text is the white space taken off, then what is left.
pub proof fn law_trimmed_start(s: Seq<char>) -> (n: int)
    ensures
        0 <= n <= s.len(),
        trimmed_start(s) == s.skip(n),
        forall|i: int| 0 <= i < n ==> is_white(#[trigger] s[i]),
        n < s.len() ==> !is_white(s[n]),
    decreases s.len(),
{
    if s.len() > 0 && is_white(s[0]) {
        let n = law_trimmed_start(s.skip(1));
        assert(s.skip(1).skip(n) =~= s.skip(n + 1));
        assert forall|i: int| 0 <= i < n + 1 implies is_white(#[trigger] s[i]) by {
            if i > 0 {
                assert(s.skip(1)[i - 1] == s[i]);
            }
        }
        if n + 1 < s.len() {
            assert(s.skip(1)[n] == s[n + 1]);
        }
        n + 1
    } else {
        assert(s.skip(0) =~= s);
        0
    }
}

proof fn lemma_trimmed_end(s: Seq<char>) -> (n: int)
    ensures
        0 <= n <= s.len(),
        trimmed_end(s) == s.take(n),
        forall|i: int| n <= i < s.len() ==> is_white(#[trigger] s[i]),
        n > 0 ==> !is_white(s[n - 1]),
    decreases s.len(),
{
    if s.len() > 0 && is_white(s.last()) {
        let n = lemma_trimmed_end(s.drop_last());
        assert(s.drop_last().take(n) =~= s.take(n));
        assert forall|i: int| n <= i < s.len() implies is_white(#[trigger] s[i]) by {
            if i < s.len() - 1 {
                assert(s.drop_last()[i] == s[i]);
            }
        }
        n
    } else {
        assert(s.take(s.len() as int) =~= s);
        s.len() as int
    }
}

/// Trimming a text takes white space off both ends and nothing else: what is left is one stretch
/// of the text, only white space stands around it, and it neither starts nor ends with any.
pub proof fn law_trimmed(s: Seq<char>) -> (ends: (int, int))
    ensures
        0 <= ends.0 <= ends.1 <= s.len(),
        trimmed(s) == s.subrange(ends.0, ends.1),
        forall|i: int| 0 <= i < ends.0 ==> is_white(#[trigger] s[i]),
        forall|i: int| ends.1 <= i < s.len() ==> is_white(#[trigger] s[i]),
        ends.0 < ends.1 ==> !is_white(s[ends.0]) && !is_white(
            s[ends.1 - 1],
        ),
{
    let a = law_trimmed_start(s);
    let rest = s.skip(a);
    let n = lemma_trimmed_end(rest);
    assert(rest.take(n) =~= s.subrange(a, a + n));
    assert forall|i: int| a + n <= i < s.len() implies is_white(#[trigger] s[i]) by {
        assert(rest[i - a] == s[i]);
    }
    if n > 0 {
        assert(rest[n - 1] == s[a + n - 1]);
    }
    (a, a + n)
}

/// A text that neither starts nor ends with white space is trimmed already.
pub proof fn law_nothing_to_trim(s: Seq<char>)
    requires
        s.len() > 0 ==> !is_white(s[0]) && !is_white(s.last()),
    ensures
        trimmed(s) == s,
        trimmed_start(s) == s,
{
}

/// A text of white space alone is trimmed to nothing, and only such a text is.
pub proof fn law_blank_text(s: Seq<char>)
    ensures
        trimmed(s).len() == 0 <==> forall|i: int|
            0 <= i < s.len() ==> is_white(#[trigger] s[i]),
{
    let ends = law_trimmed(s);
    if trimmed(s).len() > 0 {
        assert(!is_white(s[ends.0]));
    } else {
        assert forall|i: int| 0 <= i < s.len() implies is_white(#[trigger] s[i]) by {
            assert(i < ends.0 || ends.1 <= i);
        }
    }
}

// ─── Letters ───────────────────────────────────────────────────────────────

/// Of the twenty-six letters each capital has its small letter, and back; no other character of
/// ASCII changes.
pub proof fn law_letters(c: char)
    ensures
        'A' <= c <= 'Z' ==> 'a' <= ascii_lower(c) <= 'z' && ascii_lower(c) as int - 'a' as int
            == c as int - 'A' as int && ascii_upper(ascii_lower(c)) == c,
        !('A' <= c <= 'Z') ==> ascii_lower(c) == c,
        'a' <= c <= 'z' ==> 'A' <= ascii_upper(c) <= 'Z' && ascii_upper(c) as int - 'A' as int
            == c as int - 'a' as int && ascii_lower(ascii_upper(c)) == c,
        !('a' <= c <= 'z') ==> ascii_upper(c) == c,
{
}

// ─── Searching ─────────────────────────────────────────────────────────────

/// A text has a pattern where it is something, the pattern and something.
pub proof fn law_has(s: Seq<char>, pattern: Seq<char>)
    ensures
        has(s, pattern) <==> exists|a: Seq<char>, b: Seq<char>| s == #[trigger] (a + pattern + b),
{
    if has(s, pattern) {
        let i = choose|i: int| occurs_at(s, pattern, i);
        assert(s =~= s.take(i) + pattern + s.skip(i + pattern.len()));
    }
    if exists|a: Seq<char>, b: Seq<char>| s == #[trigger] (a + pattern + b) {
        let (a, b) = choose|a: Seq<char>, b: Seq<char>| s == #[trigger] (a + pattern + b);
        assert(s.subrange(a.len() as int, a.len() as int + pattern.len()) =~= pattern);
        assert(occurs_at(s, pattern, a.len() as int));
    }
}

/// A text has a URL where `http://` or `https://` stands in it, whatever stands around.
pub proof fn law_has_url(s: Seq<char>)
    ensures
        has_url(s) <==> ((exists|a: Seq<char>, b: Seq<char>|
            s == #[trigger] (a + "http://"@ + b)) || (exists|a: Seq<char>, b: Seq<char>|
            s == #[trigger] (a + "https://"@ + b))),
{
    law_has(s, "http://"@);
    law_has(s, "https://"@);
}

// ─── Splitting, joining and replacing ──────────────────────────────────────

/// Joining a list of one text gives that text, and joining two lists that are not empty one after
/// the other puts one separator between what each gives.
pub proof fn law_joined(a: Seq<Seq<char>>, b: Seq<Seq<char>>, separator: Seq<char>)
    requires
        a.len() > 0,
        b.len() > 0,
    ensures
        joined(a + b, separator) == joined(a, separator) + separator + joined(b, separator),
        joined(seq![a[0]], separator) == a[0],
        joined(Seq::empty(), separator) == Seq::<char>::empty(),
    decreases b.len(),
{
    assert((a + b).drop_last() =~= a + b.drop_last());
    if b.len() == 1 {
        assert(a + b.drop_last() =~= a);
    } else {
        law_joined(a, b.drop_last(), separator);
    }
}

/// A text is split at every separator, from the left: joined again with the separator, the pieces
/// are the text, and no separator begins inside a piece, not even one that runs on into the
/// separator behind it.
pub proof fn law_split(s: Seq<char>, separator: Seq<char>)
    requires
        separator.len() > 0,
    ensures
        split(s, separator).len() > 0,
        joined(split(s, separator), separator) == s,
        forall|i: int, k: int|
            0 <= i < split(s, separator).len() - 1 && 0 <= k < split(s, separator)[i].len()
                ==> #[trigger] (split(s, separator)[i] + separator).subrange(
                k,
                k + separator.len(),
            ) != separator,
        forall|k: int|
            0 <= k && k + separator.len() <= split(s, separator).last().len()
                ==> #[trigger] split(s, separator).last().subrange(k, k + separator.len())
                != separator,
    decreases s.len(),
{
    let n = separator.len() as int;
    let pieces = split(s, separator);
    lemma_first_at(s, separator, 0);
    match first_at(s, separator, 0) {
        Some(i) => {
            let head = s.take(i);
            let rest = s.skip(i + n);
            let tail = split(rest, separator);
            law_split(rest, separator);
            assert(pieces =~= seq![head] + tail);
            law_joined(seq![head], tail, separator);
            assert(s =~= head + separator + rest);
            assert forall|j: int, k: int|
                0 <= j < pieces.len() - 1 && 0 <= k < pieces[j].len() implies #[trigger] (pieces[j]
                + separator).subrange(k, k + n) != separator by {
                if j == 0 {
                    assert((head + separator).subrange(k, k + n) =~= s.subrange(k, k + n));
                    assert(!occurs_at(s, separator, k));
                } else {
                    assert(pieces[j] == tail[j - 1]);
                    assert((tail[j - 1] + separator).subrange(k, k + n) != separator);
                }
            }
            assert(pieces.last() == tail.last());
        },
        None => {
            assert forall|k: int| 0 <= k && k + n <= pieces.last().len() implies #[trigger]
            pieces.last().subrange(k, k + n) != separator by {
                assert(!occurs_at(s, separator, k));
            }
        },
    }
}

/// Replacing a pattern is splitting at it and joining with what stands in its place, and a text
/// without the pattern stays as it is.
pub proof fn law_replaced(s: Seq<char>, pattern: Seq<char>, by: Seq<char>)
    requires
        pattern.len() > 0,
    ensures
        replaced(s, pattern, by) == joined(split(s, pattern), by),
        (forall|a: Seq<char>, b: Seq<char>| s != #[trigger] (a + pattern + b)) ==> replaced(
            s,
            pattern,
            by,
        ) == s,
    decreases s.len(),
{
    let n = pattern.len() as int;
    lemma_first_at(s, pattern, 0);
    match first_at(s, pattern, 0) {
        Some(i) => {
            let rest = s.skip(i + n);
            law_replaced(rest, pattern, by);
            law_split(rest, pattern);
            law_joined(seq![s.take(i)], split(rest, pattern), by);
            assert(s =~= s.take(i) + pattern + rest);
        },
        None => {},
    }
}

/// The text in front of a `<think>` tag stays, the tag goes with the white space behind it, and
/// what follows is treated alike; a text without the tag stays as it is.
pub proof fn law_think_tags(a: Seq<char>, b: Seq<char>)
    requires
        forall|k: int| 0 <= k < a.len() ==> #[trigger] (a + "<think>"@).subrange(k, k + 7) != "<think>"@,
    ensures
        without_think_tags(a) == a,
        without_think_tags(a + "<think>"@ + b) == a + without_think_tags(trimmed_start(b)),
{
    reveal_strlit("<think>");
    let tag = "<think>"@;
    assert(tag.len() == 7);
    lemma_first_at(a, tag, 0);
    assert forall|k: int| 0 <= k implies !occurs_at(a, tag, k) by {
        if k + 7 <= a.len() {
            assert((a + tag).subrange(k, k + 7) =~= a.subrange(k, k + 7));
        }
    }
    let s = a + tag + b;
    lemma_first_at(s, tag, 0);
    assert(s.subrange(a.len() as int, a.len() as int + 7) =~= tag);
    assert(occurs_at(s, tag, a.len() as int));
    assert forall|k: int| 0 <= k < a.len() implies !occurs_at(s, tag, k) by {
        assert((a + tag).subrange(k, k + 7) =~= s.subrange(k, k + 7));
    }
    assert(first_at(s, tag, 0) == Some(a.len() as int));
    assert(s.skip(a.len() as int + 7) =~= b);
    assert(s.take(a.len() as int) =~= a);
    let n = law_trimmed_start(b);
}

/// The first characters of a text are as many of its characters as were asked for, or all.
pub proof fn law_first_chars(s: Seq<char>, n: int)
    requires
        n >= 0,
    ensures
        first_chars(s, n).is_prefix_of(s),
        first_chars(s, n).len() == if s.len() < n {
            s.len() as int
        } else {
            n
        },
{
}

// ─── Numbers ───────────────────────────────────────────────────────────────

/// The decimal text of a number is read as that number, and starts with a zero only where it is
/// the zero.
pub proof fn law_decimal(n: nat)
    ensures
        digits_value(decimal(n)) == Some(n),
        decimal(n).len() > 0,
        decimal(n)[0] == '0' <==> n == 0,
        forall|i: int| 0 <= i < decimal(n).len() ==> '0' <= (#[trigger] decimal(n)[i]) <= '9',
    decreases n,
{
    if n >= 10 {
        law_decimal(n / 10);
        assert(decimal(n).drop_last() =~= decimal(n / 10));
    } else {
        assert(decimal(n).drop_last() =~= Seq::<char>::empty());
        assert(digits_value(Seq::<char>::empty()) == Some(0nat));
    }
}

/// A port is read from its decimal text, with or without a plus sign in front; a greater number is
/// no port, and neither is the empty text.
pub proof fn law_port(n: nat)
    ensures
        n <= 65535 ==> port_in(decimal(n)) == Some(n as u16) && port_in("+"@ + decimal(n)) == Some(
            n as u16,
        ),
        n > 65535 ==> port_in(decimal(n)) is None && port_in("+"@ + decimal(n)) is None,
        port_in(""@) is None,
{
    law_decimal(n);
    reveal_strlit("+");
    reveal_strlit("");
    assert(("+"@ + decimal(n)).skip(1) =~= decimal(n));
}

// ─── Lists in one text ─────────────────────────────────────────────────────

/// Another piece of a comma-separated list adds its trimmed text at the end, unless it is blank or
/// the list holds that text already; the empty list has no entries.
pub proof fn law_list_entries(pieces: Seq<Seq<char>>, piece: Seq<char>)
    ensures
        csv_entries(Seq::empty()).len() == 0,
        trimmed(piece).len() == 0 || csv_entries(pieces).contains(trimmed(piece)) ==> csv_entries(
            pieces.push(piece),
        ) == csv_entries(pieces),
        trimmed(piece).len() > 0 && !csv_entries(pieces).contains(trimmed(piece)) ==> csv_entries(
            pieces.push(piece),
        ) == csv_entries(pieces).push(trimmed(piece)),
{
    assert(pieces.push(piece).drop_last() =~= pieces);
    assert(csv_entries(pieces.push(piece)) == csv_step(csv_entries(pieces), piece));
}

} // verus!
