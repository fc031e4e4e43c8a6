//! Texts as sequences of characters: searching, splitting, trimming and number formatting.

use vstd::prelude::*;
use vstd::string::*;
use vstd::utf8::*;

verus! {

/// `String::push`: appends one character and changes nothing else.
pub assume_specification[ String::push ](text: &mut String, c: char)
    ensures
        final(text)@ == old(text)@.push(c),
;

/// The characters of `text`, in order.
pub fn chars_of(text: &str) -> (chars: Vec<char>)
    ensures
        chars@ == text@,
{
    let mut chars: Vec<char> = Vec::new();
    for c in it: text.chars()
        invariant
            it.seq() == text@,
            chars@ == text@.take(it.index() as int),
    {
        chars.push(c);
    }
    chars
}

/// The text made of `chars[from..to]`.
pub fn text_of(chars: &Vec<char>, from: usize, to: usize) -> (text: String)
    requires
        from <= to <= chars@.len(),
    ensures
        text@ == chars@.subrange(from as int, to as int),
{
    let mut text = String::new();
    let mut i: usize = from;
    while i < to
        invariant
            from <= i <= to <= chars@.len(),
            text@ == chars@.subrange(from as int, i as int),
        decreases to - i,
    {
        text.push(chars[i]);
        i = i + 1;
    }
    text
}

/// Whether two texts hold the same characters.
pub fn same(a: &str, b: &str) -> (r: bool)
    ensures
        r == (a@ == b@),
{
    let x = a.as_bytes();
    let y = b.as_bytes();
    proof {
        encode_utf8_decode_utf8(a@);
        encode_utf8_decode_utf8(b@);
    }
    if x.len() != y.len() {
        return false;
    }
    let mut i: usize = 0;
    while i < x.len()
        invariant
            x@ == encode_utf8(a@),
            y@ == encode_utf8(b@),
            x@.len() == y@.len(),
            i <= x@.len(),
            forall|k: int| 0 <= k < i ==> x@[k] == y@[k],
        decreases x@.len() - i,
    {
        if x[i] != y[i] {
            return false;
        }
        i = i + 1;
    }
    assert(x@ == y@);
    true
}

/// The characters with the Unicode property `White_Space`.
pub open spec fn is_white(c: char) -> bool {
    let n = c as u32;
    ||| 0x09 <= n <= 0x0d
    ||| n == 0x20
    ||| n == 0x85
    ||| n == 0xa0
    ||| n == 0x1680
    ||| 0x2000 <= n <= 0x200a
    ||| n == 0x2028
    ||| n == 0x2029
    ||| n == 0x202f
    ||| n == 0x205f
    ||| n == 0x3000
}

fn white(c: char) -> (r: bool)
    ensures
        r == is_white(c),
{
    let n: u32 = c as u32;
    (0x09 <= n && n <= 0x0d) || n == 0x20 || n == 0x85 || n == 0xa0 || n == 0x1680 || (0x2000 <= n
        && n <= 0x200a) || n == 0x2028 || n == 0x2029 || n == 0x202f || n == 0x205f || n == 0x3000
}

/// `s` without the white space that it starts with.
pub open spec fn trimmed_start(s: Seq<char>) -> Seq<char>
    decreases s.len(),
{
    if s.len() > 0 && is_white(s[0]) {
        trimmed_start(s.skip(1))
    } else {
        s
    }
}

/// `s` without the white space that it ends with.
pub open spec fn trimmed_end(s: Seq<char>) -> Seq<char>
    decreases s.len(),
{
    if s.len() > 0 && is_white(s.last()) {
        trimmed_end(s.drop_last())
    } else {
        s
    }
}

/// `s` without the white space around it.
pub open spec fn trimmed(s: Seq<char>) -> Seq<char> {
    trimmed_end(trimmed_start(s))
}

/// How many white characters `chars` starts with.
fn leading_white(chars: &Vec<char>) -> (n: usize)
    ensures
        n <= chars@.len(),
        trimmed_start(chars@) == chars@.skip(n as int),
{
    let mut i: usize = 0;
    assert(chars@.skip(0) =~= chars@);
    while i < chars.len() && white(chars[i])
        invariant
            i <= chars@.len(),
            trimmed_start(chars@) == trimmed_start(chars@.skip(i as int)),
        decreases chars@.len() - i,
    {
        assert(chars@.skip(i as int).skip(1) =~= chars@.skip(i + 1));
        i = i + 1;
    }
    i
}

pub fn trim_start(text: &str) -> (r: String)
    ensures
        r@ == trimmed_start(text@),
{
    let chars = chars_of(text);
    let n = leading_white(&chars);
    assert(chars@.subrange(n as int, chars@.len() as int) =~= chars@.skip(n as int));
    text_of(&chars, n, chars.len())
}

pub fn trim(text: &str) -> (r: String)
    ensures
        r@ == trimmed(text@),
{
    let chars = chars_of(text);
    let n = leading_white(&chars);
    let mut to: usize = chars.len();
    assert(chars@.subrange(n as int, chars@.len() as int) =~= chars@.skip(n as int));
    while n < to && white(chars[to - 1])
        invariant
            n <= to <= chars@.len(),
            trimmed_end(chars@.skip(n as int)) == trimmed_end(chars@.subrange(n as int, to as int)),
        decreases to - n,
    {
        assert(chars@.subrange(n as int, to as int).drop_last() =~= chars@.subrange(
            n as int,
            to - 1,
        ));
        to = to - 1;
    }
    text_of(&chars, n, to)
}

/// Whether `pattern` stands in `s` at position `i`.
pub open spec fn occurs_at(s: Seq<char>, pattern: Seq<char>, i: int) -> bool {
    0 <= i && i + pattern.len() <= s.len() && s.subrange(i, i + pattern.len()) == pattern
}

/// The first position of `pattern` in `s`, from `from` on.
pub open spec fn first_at(s: Seq<char>, pattern: Seq<char>, from: int) -> Option<int>
    decreases s.len() + 1 - from,
{
    if from < 0 || from + pattern.len() > s.len() {
        None
    } else if occurs_at(s, pattern, from) {
        Some(from)
    } else {
        first_at(s, pattern, from + 1)
    }
}

/// Whether `pattern` stands anywhere in `s`.
pub open spec fn has(s: Seq<char>, pattern: Seq<char>) -> bool {
    exists|i: int| occurs_at(s, pattern, i)
}

/// `s` with every occurrence of `pattern`, from the left, replaced by `by`.
pub open spec fn replaced(s: Seq<char>, pattern: Seq<char>, by: Seq<char>) -> Seq<char>
    decreases s.len(),
{
    match first_at(s, pattern, 0) {
        Some(i) => if pattern.len() > 0 && 0 <= i && i + pattern.len() <= s.len() {
            s.take(i) + by + replaced(s.skip(i + pattern.len()), pattern, by)
        } else {
            s
        },
        None => s,
    }
}

/// The pieces of `s` between the occurrences of `separator`.
pub open spec fn split(s: Seq<char>, separator: Seq<char>) -> Seq<Seq<char>>
    decreases s.len(),
{
    match first_at(s, separator, 0) {
        Some(i) => if separator.len() > 0 && 0 <= i && i + separator.len() <= s.len() {
            seq![s.take(i)] + split(s.skip(i + separator.len()), separator)
        } else {
            seq![s]
        },
        None => seq![s],
    }
}

/// `parts`, one after the other, with `separator` between them.
pub open spec fn joined(parts: Seq<Seq<char>>, separator: Seq<char>) -> Seq<char>
    decreases parts.len(),
{
    if parts.len() == 0 {
        Seq::empty()
    } else if parts.len() == 1 {
        parts[0]
    } else {
        joined(parts.drop_last(), separator) + separator + parts.last()
    }
}

/// The texts of a list of strings.
pub open spec fn texts(list: Seq<String>) -> Seq<Seq<char>> {
    list.map_values(|s: String| s@)
}

/// The text of a string, where there is one.
pub open spec fn opt_string(s: Option<String>) -> Option<Seq<char>> {
    match s {
        Some(x) => Some(x@),
        None => None,
    }
}

pub fn copy_opt(s: &Option<String>) -> (r: Option<String>)
    ensures
        opt_string(r) == opt_string(*s),
{
    match s {
        Some(x) => Some(x.clone()),
        None => None,
    }
}

pub fn opt_str(s: &Option<String>) -> (r: Option<&str>)
    ensures
        (match r {
            Some(x) => opt_string(*s) == Some(x@),
            None => opt_string(*s) is None,
        }),
{
    match s {
        Some(x) => Some(x.as_str()),
        None => None,
    }
}

pub proof fn lemma_first_at(s: Seq<char>, pattern: Seq<char>, from: int)
    requires
        0 <= from,
    ensures
        (match first_at(s, pattern, from) {
            Some(i) => from <= i && occurs_at(s, pattern, i) && forall|k: int|
                from <= k < i ==> !occurs_at(s, pattern, k),
            None => forall|k: int| from <= k ==> !occurs_at(s, pattern, k),
        }),
    decreases s.len() + 1 - from,
{
    if from + pattern.len() <= s.len() && !occurs_at(s, pattern, from) {
        lemma_first_at(s, pattern, from + 1);
    }
}

proof fn lemma_first_at_skip(s: Seq<char>, pattern: Seq<char>, n: int, from: int)
    requires
        0 <= n <= s.len(),
        0 <= from,
    ensures
        first_at(s.skip(n), pattern, from) == (match first_at(s, pattern, n + from) {
            Some(i) => Some(i - n),
            None => None,
        }),
    decreases s.len() + 1 - n - from,
{
    if n + from + pattern.len() <= s.len() {
        assert(s.skip(n).subrange(from, from + pattern.len()) =~= s.subrange(
            n + from,
            n + from + pattern.len(),
        ));
        if !occurs_at(s, pattern, n + from) {
            lemma_first_at_skip(s, pattern, n, from + 1);
        }
    }
}

/// The first position of `pattern` in `chars`, from `from` on.
pub fn find_from(chars: &Vec<char>, pattern: &Vec<char>, from: usize) -> (r: Option<usize>)
    ensures
        (match r {
            Some(i) => first_at(chars@, pattern@, from as int) == Some(i as int),
            None => first_at(chars@, pattern@, from as int) is None,
        }),
{
    let mut i: usize = from;
    let total = chars.len();
    while i <= total && pattern.len() <= total - i
        invariant
            total == chars@.len(),
            from <= i,
            i <= chars@.len() || i == from,
            first_at(chars@, pattern@, from as int) == first_at(chars@, pattern@, i as int),
        decreases chars@.len() + 1 - i,
    {
        let mut k: usize = 0;
        while k < pattern.len() && chars[i + k] == pattern[k]
            invariant
                k <= pattern@.len(),
                i + pattern@.len() <= total,
                total == chars@.len(),
                forall|j: int| 0 <= j < k ==> chars@[i + j] == pattern@[j],
            decreases pattern@.len() - k,
        {
            k = k + 1;
        }
        if k == pattern.len() {
            assert(chars@.subrange(i as int, i + pattern@.len()) =~= pattern@);
            return Some(i);
        }
        assert(chars@.subrange(i as int, i + pattern@.len())[k as int] != pattern@[k as int]);
        if i == total {
            return None;
        }
        i = i + 1;
    }
    None
}

pub fn contains(text: &str, pattern: &str) -> (r: bool)
    ensures
        r == has(text@, pattern@),
{
    let found = find_from(&chars_of(text), &chars_of(pattern), 0);
    proof {
        lemma_first_at(text@, pattern@, 0);
    }
    found.is_some()
}

pub fn starts_with(text: &str, prefix: &str) -> (r: bool)
    ensures
        r == prefix@.is_prefix_of(text@),
{
    let chars = chars_of(text);
    let start = chars_of(prefix);
    if start.len() > chars.len() {
        return false;
    }
    let mut i: usize = 0;
    while i < start.len()
        invariant
            i <= start@.len() <= chars@.len(),
            chars@ == text@,
            start@ == prefix@,
            forall|k: int| 0 <= k < i ==> chars@[k] == start@[k],
        decreases start@.len() - i,
    {
        if chars[i] != start[i] {
            assert(text@.subrange(0, prefix@.len() as int)[i as int] != prefix@[i as int]);
            return false;
        }
        i = i + 1;
    }
    assert(prefix@ =~= text@.subrange(0, prefix@.len() as int));
    true
}

pub fn replace(text: &str, pattern: &str, by: &str) -> (r: String)
    requires
        pattern@.len() > 0,
    ensures
        r@ == replaced(text@, pattern@, by@),
{
    let chars = chars_of(text);
    let wanted = chars_of(pattern);
    let total = chars.len();
    let mut out = String::new();
    let mut at: usize = 0;
    assert(chars@.skip(0) =~= chars@);
    loop
        invariant
            chars@ == text@,
            wanted@ == pattern@,
            wanted@.len() > 0,
            at <= total,
            total == chars@.len(),
            replaced(text@, pattern@, by@) == out@ + replaced(
                chars@.skip(at as int),
                pattern@,
                by@,
            ),
        decreases chars@.len() - at,
    {
        proof {
            lemma_first_at_skip(chars@, wanted@, at as int, 0);
            lemma_first_at(chars@, wanted@, at as int);
        }
        match find_from(&chars, &wanted, at) {
            Some(i) => {
                let ghost before = out@;
                out.append(text_of(&chars, at, i).as_str());
                out.append(by);
                proof {
                    assert(chars@.skip(at as int).take(i - at) =~= chars@.subrange(
                        at as int,
                        i as int,
                    ));
                    assert(chars@.skip(at as int).skip(i - at + wanted@.len()) =~= chars@.skip(
                        i + wanted@.len(),
                    ));
                    assert(out@ + replaced(chars@.skip(i + wanted@.len()), pattern@, by@)
                        =~= before + replaced(chars@.skip(at as int), pattern@, by@));
                }
                at = i + wanted.len();
            },
            None => {
                out.append(text_of(&chars, at, total).as_str());
                assert(chars@.subrange(at as int, chars@.len() as int) =~= chars@.skip(at as int));
                return out;
            },
        }
    }
}

/// The pieces of `text` between the occurrences of `separator`.
pub fn split_on(text: &str, separator: &str) -> (parts: Vec<String>)
    requires
        separator@.len() > 0,
    ensures
        texts(parts@) == split(text@, separator@),
{
    let chars = chars_of(text);
    let wanted = chars_of(separator);
    let total = chars.len();
    let mut parts: Vec<String> = Vec::new();
    let mut at: usize = 0;
    assert(chars@.skip(0) =~= chars@);
    assert(texts(parts@) + split(text@, separator@) =~= split(text@, separator@));
    loop
        invariant
            chars@ == text@,
            wanted@ == separator@,
            wanted@.len() > 0,
            at <= total,
            total == chars@.len(),
            split(text@, separator@) == texts(parts@) + split(chars@.skip(at as int), separator@),
        decreases chars@.len() - at,
    {
        proof {
            lemma_first_at_skip(chars@, wanted@, at as int, 0);
            lemma_first_at(chars@, wanted@, at as int);
        }
        let ghost before = texts(parts@);
        match find_from(&chars, &wanted, at) {
            Some(i) => {
                parts.push(text_of(&chars, at, i));
                proof {
                    let rest = chars@.skip(at as int);
                    assert(rest.take(i - at) =~= chars@.subrange(at as int, i as int));
                    assert(rest.skip(i - at + wanted@.len()) =~= chars@.skip(i + wanted@.len()));
                    assert(texts(parts@) =~= before.push(rest.take(i - at)));
                    assert(texts(parts@) + split(chars@.skip(i + wanted@.len()), separator@)
                        =~= before + split(rest, separator@));
                }
                at = i + wanted.len();
            },
            None => {
                parts.push(text_of(&chars, at, total));
                proof {
                    assert(chars@.subrange(at as int, chars@.len() as int) =~= chars@.skip(
                        at as int,
                    ));
                    assert(texts(parts@) =~= before + seq![chars@.skip(at as int)]);
                }
                return parts;
            },
        }
    }
}

pub fn join(parts: &Vec<String>, separator: &str) -> (r: String)
    ensures
        r@ == joined(texts(parts@), separator@),
{
    let mut r = String::new();
    let mut i: usize = 0;
    assert(texts(parts@).take(0) =~= Seq::empty());
    while i < parts.len()
        invariant
            i <= parts@.len(),
            r@ == joined(texts(parts@).take(i as int), separator@),
        decreases parts@.len() - i,
    {
        if i > 0 {
            r.append(separator);
        }
        r.append(parts[i].as_str());
        proof {
            let now = texts(parts@).take(i + 1);
            assert(now.drop_last() =~= texts(parts@).take(i as int));
            assert(now.last() == parts@[i as int]@);
            if i == 0 {
                assert(r@ =~= now[0]);
            }
        }
        i = i + 1;
    }
    assert(texts(parts@).take(i as int) =~= texts(parts@));
    r
}

/// The decimal digits of a number.
pub open spec fn decimal(n: nat) -> Seq<char>
    decreases n,
{
    if n < 10 {
        seq![(48 + n) as char]
    } else {
        decimal(n / 10).push((48 + n % 10) as char)
    }
}

pub fn decimal_text(n: u64) -> (r: String)
    ensures
        r@ == decimal(n as nat),
    decreases n,
{
    let last: char = (48u8 + (n % 10) as u8) as char;
    let mut r = if n < 10 {
        String::new()
    } else {
        decimal_text(n / 10)
    };
    r.push(last);
    assert(r@ =~= decimal(n as nat));
    r
}

pub proof fn lemma_encode_concat(a: Seq<char>, b: Seq<char>)
    ensures
        encode_utf8(a + b) == encode_utf8(a) + encode_utf8(b),
    decreases a.len(),
{
    if a.len() == 0 {
        assert(a + b =~= b);
        assert(encode_utf8(a) + encode_utf8(b) =~= encode_utf8(b));
    } else {
        lemma_encode_concat(a.drop_first(), b);
        assert((a + b).drop_first() =~= a.drop_first() + b);
        assert(encode_utf8(a + b) =~= encode_utf8(a) + encode_utf8(b));
    }
}

/// The first `n` characters of `text`, or all of it where it has fewer.
pub open spec fn first_chars(s: Seq<char>, n: int) -> Seq<char> {
    if s.len() <= n {
        s
    } else {
        s.take(n)
    }
}

/// The lowercase equivalent of a text.
pub uninterp spec fn lowercase(s: Seq<char>) -> Seq<char>;

/// The uppercase equivalent of a text.
pub uninterp spec fn uppercase(s: Seq<char>) -> Seq<char>;

pub open spec fn ascii_lower(c: char) -> char {
    if 'A' <= c <= 'Z' {
        (c as u32 + 32) as char
    } else {
        c
    }
}

pub open spec fn ascii_upper(c: char) -> char {
    if 'a' <= c <= 'z' {
        (c as u32 - 32) as char
    } else {
        c
    }
}

/// `str::to_lowercase`: the lowercase equivalent. In an ASCII text the letters `A` to `Z`
/// become `a` to `z`, and nothing else changes.
#[verifier::external_body]
pub(crate) fn to_lower(text: &str) -> (r: String)
    ensures
        r@ == lowercase(text@),
        is_ascii_chars(text@) ==> r@ == text@.map_values(|c: char| ascii_lower(c)),
{
    text.to_lowercase()
}

/// `str::to_uppercase`: the uppercase equivalent. In an ASCII text the letters `a` to `z`
/// become `A` to `Z`, and nothing else changes.
#[verifier::external_body]
pub(crate) fn to_upper(text: &str) -> (r: String)
    ensures
        r@ == uppercase(text@),
        is_ascii_chars(text@) ==> r@ == text@.map_values(|c: char| ascii_upper(c)),
{
    text.to_uppercase()
}

/// The text that `String::from_utf8_lossy` makes of bytes.
pub uninterp spec fn lossy_text(bytes: Seq<u8>) -> Seq<char>;

/// `String::from_utf8_lossy`: the text that the bytes encode; where they encode none, a text
/// with replacement characters.
#[verifier::external_body]
pub(crate) fn text_of_bytes(bytes: &[u8]) -> (r: String)
    ensures
        r@ == lossy_text(bytes@),
        valid_utf8(bytes@) ==> r@ == decode_utf8(bytes@),
{
    String::from_utf8_lossy(bytes).into_owned()
}

/// What is behind the last separator of `s` is split anew once `t` has come in behind it; the
/// pieces in front stay.
pub proof fn lemma_split_ahead(s: Seq<char>, t: Seq<char>, separator: Seq<char>)
    requires
        separator.len() > 0,
    ensures
        split(s + t, separator) == split(s, separator).drop_last() + split(
            split(s, separator).last() + t,
            separator,
        ),
    decreases s.len(),
{
    let n = separator.len() as int;
    lemma_first_at(s, separator, 0);
    lemma_first_at(s + t, separator, 0);
    match first_at(s, separator, 0) {
        Some(i) => {
            assert((s + t).subrange(i, i + n) =~= s.subrange(i, i + n));
            assert(occurs_at(s + t, separator, i));
            let k = first_at(s + t, separator, 0)->0;
            if k < i {
                assert((s + t).subrange(k, k + n) =~= s.subrange(k, k + n));
                assert(occurs_at(s, separator, k));
            }
            assert(k == i);
            let rest = s.skip(i + n);
            lemma_split_ahead(rest, t, separator);
            assert((s + t).skip(i + n) =~= rest + t);
            assert((s + t).take(i) =~= s.take(i));
            let tail = split(rest, separator);
            assert(split(s, separator) =~= seq![s.take(i)] + tail);
            assert(split(s, separator).last() == tail.last());
            assert(split(s, separator).drop_last() =~= seq![s.take(i)] + tail.drop_last());
            assert(seq![s.take(i)] + (tail.drop_last() + split(tail.last() + t, separator)) =~= (seq![
                s.take(i),
            ] + tail.drop_last()) + split(tail.last() + t, separator));
        },
        None => {
            assert(split(s, separator) =~= seq![s]);
            assert(split(s, separator).drop_last() =~= Seq::empty());
            assert(Seq::<Seq<char>>::empty() + split(s + t, separator) =~= split(s + t, separator));
        },
    }
}

pub proof fn lemma_split_not_empty(s: Seq<char>, separator: Seq<char>)
    ensures
        split(s, separator).len() > 0,
{
}

} // verus!
