//! When a fetch is offered, how it is asked for, and what is told of what came back.

use vstd::prelude::*;
use vstd::utf8::*;

use crate::json::Jv;
use crate::pattern::has_url;
use crate::text::{decimal, has, joined, lowercase, opt_string, uppercase};
use crate::web_fetch::{
    agent_of, any_url, as_map, carries_body, cuttable, fetch_tool, head_text, header_pairs,
    holds_url, is_binary, is_hint, is_success, is_token_byte, kept_headers, lowered_names,
    message_has_url, offers_fetch, page_cuttable, page_text, part_has_url, phrase_of, plans,
    plans_with, raw_text, reason_phrase, request_headers, requests, shortened, status_line_of,
    string_members, takes_token, with_fetch_tool, with_hint, FetchPlan, RawRequest,
};
use crate::words::lemma_words_differ;

verus! {

// ─── Addresses in a conversation ───────────────────────────────────────────

/// A part of a content with an address: in its text, as its `url`, or as its image.
pub open spec fn part_names_url(part: Jv) -> bool {
    ||| (part.text_at("text"@) matches Some(s) && has_url(s))
    ||| (part.text_at("url"@) matches Some(s) && has_url(s))
    ||| (part.text_at("image_url"@) matches Some(s) && has_url(s))
    ||| (part.get("image_url"@) matches Some(image) && (image.text_at("url"@) matches Some(s)
        && has_url(s)))
}

/// A conversation has an address where the content of one of its messages has one, whoever said it:
/// in its text, or in one of its parts.
pub proof fn law_address_in_a_conversation(messages: Seq<Jv>, i: int)
    ensures
        0 <= i < messages.len() && (messages[i].get("content"@) matches Some(Jv::Str(s)) && has_url(
            s,
        )) ==> any_url(messages),
        0 <= i < messages.len() && (messages[i].get("content"@) matches Some(Jv::Array(parts))
            && exists|k: int| 0 <= k < parts.len() && part_names_url(#[trigger] parts[k]))
            ==> any_url(messages),
        any_url(messages) ==> exists|j: int|
            0 <= j < messages.len() && (match (#[trigger] messages[j]).get("content"@) {
                Some(Jv::Str(s)) => has_url(s),
                Some(Jv::Array(parts)) => exists|k: int|
                    0 <= k < parts.len() && part_names_url(#[trigger] parts[k]),
                _ => false,
            }),
{
    if 0 <= i < messages.len() {
        if let Some(Jv::Array(parts)) = messages[i].get("content"@) {
            if exists|k: int| 0 <= k < parts.len() && part_names_url(#[trigger] parts[k]) {
                let k = choose|k: int| 0 <= k < parts.len() && part_names_url(#[trigger] parts[k]);
                assert(part_has_url(parts[k]));
                assert(message_has_url(messages[i]));
            }
        }
        if let Some(Jv::Str(s)) = messages[i].get("content"@) {
            if has_url(s) {
                assert(message_has_url(messages[i]));
            }
        }
    }
    if any_url(messages) {
        let j = choose|j: int| 0 <= j < messages.len() && message_has_url(#[trigger] messages[j]);
        let content = messages[j].get("content"@)->0;
        assert(holds_url(content));
        if let Jv::Array(parts) = content {
            let k = choose|k: int| 0 <= k < parts.len() && part_has_url(#[trigger] parts[k]);
            assert(part_names_url(parts[k]));
        }
    }
}

// ─── The offer ─────────────────────────────────────────────────────────────

/// The tool is offered behind the others, unless a tool of its name is among them, under `function`
/// or by itself.
pub proof fn law_fetch_is_offered(tools: Option<Jv>, list: Seq<Jv>)
    requires
        tools == Some(Jv::Array(list)) || (list.len() == 0 && (tools matches Some(v) ==> !(v is Array))),
    ensures
        (exists|i: int|
            0 <= i < list.len() && ((#[trigger] list[i]).text_at("name"@) == Some("web_fetch"@) || (
            list[i].get("function"@) matches Some(function) && function.text_at("name"@) == Some(
                "web_fetch"@,
            )))) ==> with_fetch_tool(tools) == list,
        (forall|i: int|
            0 <= i < list.len() ==> (#[trigger] list[i]).text_at("name"@) != Some("web_fetch"@)
                && !(list[i].get("function"@) matches Some(function) && function.text_at("name"@)
                == Some("web_fetch"@))) ==> with_fetch_tool(tools) == list.push(fetch_tool()),
        fetch_tool().text_at("type"@) == Some("function"@),
        fetch_tool().get("function"@) is Some,
        fetch_tool().get("function"@)->0.text_at("name"@) == Some("web_fetch"@),
{
    lemma_words_differ();
    assert(crate::web_fetch::tool_list(tools) =~= list);
    if exists|i: int|
        0 <= i < list.len() && ((#[trigger] list[i]).text_at("name"@) == Some("web_fetch"@) || (
        list[i].get("function"@) matches Some(function) && function.text_at("name"@) == Some(
            "web_fetch"@,
        ))) {
        let i = choose|i: int|
            0 <= i < list.len() && ((#[trigger] list[i]).text_at("name"@) == Some("web_fetch"@) || (
            list[i].get("function"@) matches Some(function) && function.text_at("name"@) == Some(
                "web_fetch"@,
            )));
        assert(crate::web_fetch::is_fetch_tool(list[i]));
    }
    if offers_fetch(list) {
        let i = choose|i: int|
            0 <= i < list.len() && crate::web_fetch::is_fetch_tool(#[trigger] list[i]);
        assert(list[i].text_at("name"@) == Some("web_fetch"@) || list[i].get("function"@) is Some);
    }
}

/// What the word on the tool says.
pub proof fn law_words_of_the_hint()
    ensures
        crate::web_fetch::hint()
            == "[System: You have a `web_fetch` tool available for making HTTP requests. Use it instead of curl, wget, or other shell-based HTTP tools. Call web_fetch with {\"url\": \"...\"} to fetch any URL. It supports GET, HEAD, POST, PUT, DELETE, PATCH, and OPTIONS methods.]"@,
{
}

/// The word on the tool is a user message behind all others, unless a user message says just that
/// already.
pub proof fn law_word_on_fetching(messages: Seq<Jv>)
    ensures
        (exists|i: int|
            0 <= i < messages.len() && (#[trigger] messages[i]).text_at("role"@) == Some("user"@)
                && messages[i].text_at("content"@) == Some(crate::web_fetch::hint())) ==> with_hint(
            messages,
        ) == messages,
        (forall|i: int|
            0 <= i < messages.len() ==> !((#[trigger] messages[i]).text_at("role"@) == Some(
                "user"@,
            ) && messages[i].text_at("content"@) == Some(crate::web_fetch::hint()))) ==> {
            let all = with_hint(messages);
            &&& all.len() == messages.len() + 1 && all.drop_last() == messages
            &&& all.last().text_at("role"@) == Some("user"@)
            &&& all.last().text_at("content"@) == Some(crate::web_fetch::hint())
        },
{
    lemma_words_differ();
    if exists|i: int|
        0 <= i < messages.len() && (#[trigger] messages[i]).text_at("role"@) == Some("user"@)
            && messages[i].text_at("content"@) == Some(crate::web_fetch::hint()) {
        let i = choose|i: int|
            0 <= i < messages.len() && (#[trigger] messages[i]).text_at("role"@) == Some("user"@)
                && messages[i].text_at("content"@) == Some(crate::web_fetch::hint());
        assert(is_hint(messages[i]));
    } else {
        if crate::web_fetch::hinted(messages) {
            let i = choose|i: int| 0 <= i < messages.len() && is_hint(#[trigger] messages[i]);
            assert(messages[i].text_at("role"@) == Some("user"@));
        }
        assert(with_hint(messages).drop_last() =~= messages);
    }
}

// ─── The request ───────────────────────────────────────────────────────────

/// Of two headers of one name the later one counts, and the headers of a request are the members of
/// an object that are texts.
pub proof fn law_headers_as_map(
    list: Seq<(Seq<char>, Seq<char>)>,
    header: (Seq<char>, Seq<char>),
    name: Seq<char>,
    given: Jv,
)
    ensures
        as_map(Seq::empty()) == Map::<Seq<char>, Seq<char>>::empty(),
        as_map(list.push(header)).dom().contains(header.0) && as_map(list.push(header))[header.0]
            == header.1,
        name != header.0 ==> as_map(list.push(header)).dom().contains(name) == as_map(
            list,
        ).dom().contains(name) && (as_map(list).dom().contains(name) ==> as_map(
            list.push(header),
        )[name] == as_map(list)[name]),
        string_members(Some(given)).dom().contains(name) <==> given.text_at(name) is Some,
        given.text_at(name) matches Some(value) ==> string_members(Some(given))[name] == value,
        string_members(None) == Map::<Seq<char>, Seq<char>>::empty(),
{
    assert(list.push(header).drop_last() =~= list);
}

/// A method is made of the characters of a token: letters, digits and fifteen signs.
pub proof fn law_token_characters(b: u8)
    ensures
        is_token_byte(b) <==> (('a' as u8) <= b <= ('z' as u8) || ('A' as u8) <= b <= ('Z' as u8) || (
        '0' as u8) <= b <= ('9' as u8) || b == ('!' as u8) || b == ('#' as u8) || b == ('$' as u8)
            || b == ('%' as u8) || b == ('&' as u8) || b == ('\'' as u8) || b == ('*' as u8) || b
            == ('+' as u8) || b == ('-' as u8) || b == ('.' as u8) || b == ('^' as u8) || b == (
        '_' as u8) || b == ('`' as u8) || b == ('|' as u8) || b == ('~' as u8)),
{
}

/// The headers that a request is sent with: first who asks, by the agent that was given, in either
/// spelling, or as this proxy; then the token, for GitHub's API alone and only where none was given;
/// then the given headers, in their order, but for the agent.
pub proof fn law_headers_of_a_request(
    token: Seq<char>,
    url: Seq<char>,
    headers: Seq<(Seq<char>, Seq<char>)>,
    lowered: Seq<Seq<char>>,
)
    ensures
        ({
            let sent = request_headers(token, url, headers, lowered);
            let given = as_map(headers);
            let authorized = token.len() > 0 && has(url, "api.github.com"@)
                && !given.dom().contains("Authorization"@) && !given.dom().contains(
                "authorization"@,
            );
            &&& sent.len() > 0 && sent[0].0 == "User-Agent"@
            &&& given.dom().contains("User-Agent"@) ==> sent[0].1 == given["User-Agent"@]
            &&& !given.dom().contains("User-Agent"@) && given.dom().contains("user-agent"@)
                ==> sent[0].1 == given["user-agent"@]
            &&& !given.dom().contains("User-Agent"@) && !given.dom().contains("user-agent"@)
                ==> sent[0].1 == "Mozilla/5.0 (compatible; CodexProxy/1.0)"@
            &&& authorized ==> sent.len() > 1 && sent[1] == ("Authorization"@, "Bearer "@ + token)
                && sent.skip(2) == kept_headers(headers, lowered)
            &&& !authorized ==> sent.skip(1) == kept_headers(headers, lowered)
        }),
{
    let sent = request_headers(token, url, headers, lowered);
    let rest = kept_headers(headers, lowered);
    assert(agent_of(as_map(headers)) == sent[0].1);
    if takes_token(token, url, as_map(headers)) {
        assert(sent.skip(2) =~= rest);
    } else {
        assert(sent.skip(1) =~= rest);
    }
}

/// A given header is kept unless it names the agent, in any spelling.
pub proof fn law_given_headers(
    headers: Seq<(Seq<char>, Seq<char>)>,
    lowered: Seq<Seq<char>>,
    header: (Seq<char>, Seq<char>),
    low: Seq<char>,
)
    ensures
        kept_headers(Seq::empty(), Seq::empty()).len() == 0,
        low == "user-agent"@ ==> kept_headers(headers.push(header), lowered.push(low))
            == kept_headers(headers, lowered),
        low != "user-agent"@ ==> kept_headers(headers.push(header), lowered.push(low))
            == kept_headers(headers, lowered).push(header),
{
    assert(headers.push(header).drop_last() =~= headers);
    assert(lowered.push(low).drop_last() =~= lowered);
}

/// A body is sent with POST, PUT and PATCH, and with no other method.
pub proof fn law_methods_with_a_body(method: Seq<char>)
    ensures
        carries_body(method) <==> (method == "POST"@ || method == "PUT"@ || method == "PATCH"@),
{
}

/// What a fetch is planned as: nothing without an address; a page where the method, in capitals, is
/// GET, as it is without one; and otherwise a request with the method as it was given, the headers
/// that are texts, and the body where it is a text.
pub proof fn law_plan(args: Jv, upper: Seq<char>, plan: FetchPlan)
    requires
        plans_with(args, upper, plan),
    ensures
        args.text_at("url"@) is None ==> plan is NoUrl,
        args.text_at("url"@) matches Some(address) ==> {
            &&& upper == "GET"@ ==> (plan matches FetchPlan::Page { url } && url@ == address)
            &&& upper != "GET"@ ==> (plan matches FetchPlan::Raw { url, method, headers, body }
                && url@ == address && method@ == (match args.text_at("method"@) {
                Some(given) => given,
                None => "GET"@,
            }) && (forall|i: int, j: int|
                0 <= i < j < headers@.len() ==> (#[trigger] headers@[i]).0@ != (
                #[trigger] headers@[j]).0@) && as_map(header_pairs(headers@)) == string_members(
                args.get("headers"@),
            ) && (
            match body {
                Some(text) => args.text_at("body"@) == Some(text@),
                None => args.text_at("body"@) is None,
            }))
        },
{
}

/// The method that a plan goes by is the given one in capitals, and GET where none is given.
pub proof fn law_plan_by_method(args: Jv, plan: FetchPlan)
    requires
        plans(args, plan),
    ensures
        args.text_at("method"@) matches Some(method) ==> plans_with(args, uppercase(method), plan),
        args.text_at("method"@) is None ==> plans_with(args, uppercase("GET"@), plan),
{
}

/// A request is made where the method, in capitals, is a token; it keeps the address, and has a
/// body only where its method carries one. Another method is refused by its name.
pub proof fn law_request_for_a_page(
    token: Seq<char>,
    url: Seq<char>,
    method: Seq<char>,
    upper: Seq<char>,
    headers: Seq<(Seq<char>, Seq<char>)>,
    lowered: Seq<Seq<char>>,
    body: Option<Seq<char>>,
    r: Result<RawRequest, String>,
)
    requires
        requests(token, url, method, upper, headers, lowered, body, r),
    ensures
        ({
            let bytes = encode_utf8(upper);
            let token_like = bytes.len() > 0 && forall|i: int|
                0 <= i < bytes.len() ==> is_token_byte(#[trigger] bytes[i]);
            &&& r is Ok <==> token_like
            &&& r matches Ok(request) ==> {
                &&& request.method@ == upper
                &&& request.url@ == url
                &&& header_pairs(request.headers@) == request_headers(token, url, headers, lowered)
                &&& upper == "POST"@ || upper == "PUT"@ || upper == "PATCH"@ ==> opt_string(
                    request.body,
                ) == body
                &&& upper != "POST"@ && upper != "PUT"@ && upper != "PATCH"@ ==> request.body is None
            }
            &&& r matches Err(message) ==> message@ == "Fetch error: invalid method '"@ + method + "'"@
        }),
{
}

/// Headers are told apart by their names in small letters.
pub proof fn law_names_of_headers(headers: Seq<(Seq<char>, Seq<char>)>)
    ensures
        lowered_names(headers).len() == headers.len(),
        forall|i: int|
            0 <= i < headers.len() ==> #[trigger] lowered_names(headers)[i] == lowercase(
                headers[i].0,
            ),
{
}

// ─── What came back ────────────────────────────────────────────────────────

/// The phrase of a status is the one that it is known by, and empty where it has none.
pub proof fn law_phrase(status: u16)
    ensures
        100 <= status <= 999 && reason_phrase(status) is Some ==> Some(phrase_of(status))
            == reason_phrase(status),
        !(100 <= status <= 999) || reason_phrase(status) is None ==> phrase_of(status).len() == 0,
{
    reveal_strlit("");
}

/// A text of up to fifty thousand bytes stays whole; of a longer one the first fifty thousand bytes
/// stay, and a note says how many are left out.
pub proof fn law_long_pages_are_cut(s: Seq<char>, mark: Seq<char>)
    ensures
        encode_utf8(s).len() <= 50_000 ==> shortened(s, mark) == s,
        encode_utf8(s).len() > 50_000 ==> shortened(s, mark) == decode_utf8(
            encode_utf8(s).subrange(0, 50_000),
        ) + mark + decimal((encode_utf8(s).len() - 50_000) as nat) + " chars omitted]"@,
{
}

/// A text can be cut where it is short enough, or a character ends after fifty thousand bytes; of a
/// page that went wrong that is asked of the status and the text together.
pub proof fn law_what_can_be_cut(
    s: Seq<char>,
    status: u16,
    phrase: Seq<char>,
    body: Result<Seq<char>, Seq<char>>,
)
    ensures
        encode_utf8(s).len() <= 50_000 ==> cuttable(s),
        encode_utf8(s).len() > 50_000 ==> cuttable(s) == is_char_boundary(encode_utf8(s), 50_000),
        200 <= status <= 299 && body is Err ==> page_cuttable(status, phrase, body),
        200 <= status <= 299 && body is Ok ==> page_cuttable(status, phrase, body) == cuttable(
            body->Ok_0,
        ),
        !(200 <= status <= 299) && body is Ok ==> page_cuttable(status, phrase, body) == cuttable(
            "HTTP "@ + decimal(status as nat) + " "@ + phrase + "\n"@ + body->Ok_0,
        ),
        !(200 <= status <= 299) && body is Err ==> page_cuttable(status, phrase, body) == cuttable(
            "HTTP "@ + decimal(status as nat) + " "@ + phrase + "\n"@ + ""@,
        ),
{
}

/// A page: its text where the status is one of success, cut where it is long; otherwise the status
/// and the text, cut where they are long, and the status alone where the text could not be read.
pub proof fn law_page(status: u16, phrase: Seq<char>, body: Result<Seq<char>, Seq<char>>)
    ensures
        200 <= status <= 299 ==> (match body {
            Ok(s) => page_text(status, phrase, body) == shortened(s, "\n...[content truncated, "@),
            Err(e) => page_text(status, phrase, body) == "Read error: "@ + e,
        }),
        !(200 <= status <= 299) ==> ({
            let full = "HTTP "@ + decimal(status as nat) + " "@ + phrase + "\n"@ + (match body {
                Ok(s) => s,
                Err(_) => ""@,
            });
            page_text(status, phrase, body) == if encode_utf8(full).len() <= 50_000 {
                full
            } else {
                decode_utf8(encode_utf8(full).subrange(0, 50_000))
            }
        }),
        is_success(status) <==> 200 <= status <= 299,
        status_line_of(status, phrase) == "HTTP "@ + decimal(status as nat) + " "@ + phrase,
{
}

/// What is told of another request: for HEAD and OPTIONS the status and the headers, a line for
/// each; of an image, a sound, a film or a stream of bytes only the type; otherwise the status, a
/// blank line and the text, cut where it is long, or what went wrong with it.
pub proof fn law_raw_answer(
    method: Seq<char>,
    line: Seq<char>,
    content_type: Seq<char>,
    headers: Seq<(Seq<char>, Seq<char>)>,
    body: Result<Seq<char>, Seq<char>>,
    lines: Seq<Seq<char>>,
)
    requires
        lines.len() == headers.len(),
        forall|i: int|
            0 <= i < headers.len() ==> #[trigger] lines[i] == headers[i].0 + ": "@ + headers[i].1,
    ensures
        ({
            let told = head_text(method, line, content_type, headers);
            let binary = has(content_type, "image"@) || has(content_type, "audio"@) || has(
                content_type,
                "video"@,
            ) || has(content_type, "octet-stream"@);
            &&& method == "HEAD"@ || method == "OPTIONS"@ ==> told == Some(
                line + "\n"@ + joined(lines, "\n"@),
            )
            &&& method != "HEAD"@ && method != "OPTIONS"@ && binary ==> told == Some(
                line + "\nContent-Type: "@ + content_type + "\n(binary content, not shown)"@,
            )
            &&& method != "HEAD"@ && method != "OPTIONS"@ && !binary ==> told is None
            &&& is_binary(content_type) == binary
        }),
        (match body {
            Ok(s) => raw_text(line, body) == line + "\n\n"@ + shortened(s, "\n...[truncated, "@),
            Err(e) => raw_text(line, body) == line + "\n\nRead error: "@ + e,
        }),
{
    assert(headers.map_values(|h: (Seq<char>, Seq<char>)| crate::web_fetch::header_line(h))
        =~= lines);
}

} // verus!
