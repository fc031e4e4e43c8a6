//! The two regular expressions of the proxy, and what they match.

use vstd::prelude::*;

use crate::text::{first_at, has, trimmed_start};

verus! {

/// `regex::Regex`; the pattern it was made from is [`regex_source`].
#[verifier::external_type_specification]
#[verifier::external_body]
pub struct ExRegex(regex::Regex);

/// `regex::Error`, carried through as it is.
#[verifier::external_type_specification]
#[verifier::external_body]
pub struct ExRegexError(regex::Error);

/// The pattern that a compiled regular expression was made from.
pub uninterp spec fn regex_source(re: regex::Regex) -> Seq<char>;

/// Matches the start of a web address.
pub open spec fn url_pattern() -> Seq<char> {
    "https?://"@
}

/// Matches the tag that opens a reasoning section, with the white space behind it.
pub open spec fn think_pattern() -> Seq<char> {
    "(?s)<think>.*?\\s*"@
}

/// Whether `s` holds the start of a web address.
pub open spec fn has_url(s: Seq<char>) -> bool {
    has(s, "http://"@) || has(s, "https://"@)
}

/// `s` without its `<think>` tags and the white space behind each of them.
pub open spec fn without_think_tags(s: Seq<char>) -> Seq<char>
    decreases s.len(),
{
    match first_at(s, "<think>"@, 0) {
        Some(i) => if 0 <= i && i + "<think>"@.len() <= s.len() {
            let behind = trimmed_start(s.skip(i + "<think>"@.len()));
            if behind.len() < s.len() {
                s.take(i) + without_think_tags(behind)
            } else {
                s
            }
        } else {
            s
        },
        None => s,
    }
}

/// `regex::Regex::new`: an expression that remembers its pattern. The two patterns of this
/// module are valid; of other patterns nothing is said about when they are.
pub assume_specification[ regex::Regex::new ](re: &str) -> (r: Result<regex::Regex, regex::Error>)
    ensures
        r matches Ok(compiled) ==> regex_source(compiled) == re@,
        re@ == "https?://"@ || re@ == "(?s)<think>.*?\\s*"@ ==> r is Ok,
;

/// `regex::Regex::is_match`, of the first pattern: whether the text holds `http://` or
/// `https://`.
#[verifier::external_body]
fn is_match(re: &regex::Regex, text: &str) -> (r: bool)
    requires
        regex_source(*re) == url_pattern(),
    ensures
        r == has_url(text@),
{
    re.is_match(text)
}

/// `regex::Regex::replace_all`, of the second pattern, with nothing in place of its matches. A
/// match is the tag `<think>` with all white space behind it, as the lazy middle part matches
/// nothing.
#[verifier::external_body]
fn replace_all(re: &regex::Regex, text: &str, replacement: &str) -> (r: String)
    requires
        regex_source(*re) == think_pattern(),
        replacement@.len() == 0,
    ensures
        r@ == without_think_tags(text@),
{
    re.replace_all(text, replacement).into_owned()
}

/// Whether a text holds a web address.
pub fn str_has_url(s: &str) -> (r: bool)
    ensures
        r == has_url(s@),
{
    match regex::Regex::new("https?://") {
        Ok(re) => is_match(&re, s),
        Err(_) => false,
    }
}

/// A text without its `<think>` tags and the white space behind each of them.
pub fn strip_think_tags(text: &str) -> (r: String)
    ensures
        r@ == without_think_tags(text@),
{
    proof {
        reveal_strlit("");
    }
    match regex::Regex::new("(?s)<think>.*?\\s*") {
        Ok(re) => replace_all(&re, text, ""),
        Err(_) => text.to_owned(),
    }
}

} // verus!
