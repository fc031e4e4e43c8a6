//! The `web_fetch` tool: when it is offered, and what a fetch asks for and brings back.

use vstd::prelude::*;
use vstd::string::*;
use vstd::utf8::{decode_utf8, encode_utf8, encode_utf8_decode_utf8, is_char_boundary};

use crate::json::{empty_object, group_json, views, Json, Jv};
use crate::messages::{user_message, user_text};
use crate::pattern::{has_url, str_has_url};
use crate::text::{
    contains, decimal, decimal_text, has, join, joined, lowercase, opt_string, same, texts,
    to_lower, to_upper, uppercase,
};

verus! {

broadcast use group_json;

/// How often the model may ask for fetches before the rest are left out.
pub const MAX_FETCH_LOOPS: usize = 5;

/// How many bytes of a page are passed on.
pub const FETCH_MAX_BODY: usize = 50_000;

/// How long a fetch may take.
pub const FETCH_TIMEOUT_SECS: u64 = 15;

// ─── Addresses in a conversation ───────────────────────────────────────────

/// Whether the string `key` of a value holds an address.
pub open spec fn text_has_url(v: Jv, key: Seq<char>) -> bool {
    v.text_at(key) is Some && has_url(v.text_at(key)->0)
}

/// Whether a part of a message holds an address.
pub open spec fn part_has_url(part: Jv) -> bool {
    ||| text_has_url(part, "text"@)
    ||| text_has_url(part, "url"@)
    ||| text_has_url(part, "image_url"@)
    ||| part.get("image_url"@) is Some && text_has_url(part.get("image_url"@)->0, "url"@)
}

/// Whether any part of a message holds an address.
pub open spec fn any_part_has_url(parts: Seq<Jv>) -> bool {
    exists|i: int| 0 <= i < parts.len() && part_has_url(#[trigger] parts[i])
}

/// Whether the content of a message holds an address.
pub open spec fn holds_url(content: Jv) -> bool {
    match content {
        Jv::Str(s) => has_url(s),
        Jv::Array(parts) => any_part_has_url(parts),
        _ => false,
    }
}

/// Whether a message holds an address.
pub open spec fn message_has_url(message: Jv) -> bool {
    message.get("content"@) is Some && holds_url(message.get("content"@)->0)
}

/// Whether any message of a conversation holds an address.
pub open spec fn any_url(messages: Seq<Jv>) -> bool {
    exists|i: int| 0 <= i < messages.len() && message_has_url(#[trigger] messages[i])
}

fn url_at(v: &Json, key: &str) -> (r: bool)
    ensures
        r == text_has_url(v@, key@),
{
    match v.text_at(key) {
        Some(s) => str_has_url(s),
        None => false,
    }
}

fn url_in_part(part: &Json) -> (r: bool)
    ensures
        r == part_has_url(part@),
{
    if url_at(part, "text") || url_at(part, "url") || url_at(part, "image_url") {
        return true;
    }
    match part.get("image_url") {
        Some(image) => url_at(image, "url"),
        None => false,
    }
}

/// Whether the content of a message holds an address.
pub fn content_has_url(content: &Json) -> (r: bool)
    ensures
        r == holds_url(content@),
{
    match content {
        Json::Str(s) => str_has_url(s.as_str()),
        Json::Array(parts) => {
            let ghost all = views(parts@);
            assert(content@ == Jv::Array(all));
            let mut i: usize = 0;
            while i < parts.len()
                invariant
                    i <= parts@.len(),
                    all == views(parts@),
                    content@ == Jv::Array(all),
                    forall|k: int| 0 <= k < i ==> !part_has_url(#[trigger] all[k]),
                decreases parts@.len() - i,
            {
                if url_in_part(&parts[i]) {
                    assert(part_has_url(all[i as int]));
                    assert(any_part_has_url(all));
                    return true;
                }
                i = i + 1;
            }
            false
        },
        _ => false,
    }
}

/// Whether any message of a conversation holds an address.
pub fn conversation_has_urls(messages: &Vec<Json>) -> (r: bool)
    ensures
        r == any_url(views(messages@)),
{
    let ghost all = views(messages@);
    let mut i: usize = 0;
    while i < messages.len()
        invariant
            i <= messages@.len(),
            all == views(messages@),
            forall|k: int| 0 <= k < i ==> !message_has_url(#[trigger] all[k]),
        decreases messages@.len() - i,
    {
        match messages[i].get("content") {
            Some(content) => {
                if content_has_url(content) {
                    assert(message_has_url(all[i as int]));
                    return true;
                }
            },
            None => {},
        }
        i = i + 1;
    }
    false
}

// ─── Offering the tool ─────────────────────────────────────────────────────

/// The description of a string parameter.
pub open spec fn parameter(kind: Seq<char>, description: Seq<char>) -> Jv {
    empty_object().put("type"@, Jv::Str(kind)).put("description"@, Jv::Str(description))
}

/// The methods that the tool names.
pub open spec fn tool_methods() -> Seq<Jv> {
    seq![
        Jv::Str("GET"@),
        Jv::Str("HEAD"@),
        Jv::Str("POST"@),
        Jv::Str("PUT"@),
        Jv::Str("DELETE"@),
        Jv::Str("PATCH"@),
        Jv::Str("OPTIONS"@),
    ]
}

/// The definition of the `web_fetch` tool.
pub open spec fn fetch_tool() -> Jv {
    empty_object().put("type"@, Jv::Str("function"@)).put(
        "function"@,
        empty_object().put("name"@, Jv::Str("web_fetch"@)).put(
            "description"@,
            Jv::Str(
                "Fetch content from a URL over HTTP/HTTPS. Use this when you need to retrieve content from a web URL. Returns HTTP status and response body as clean markdown. Supports all HTTP methods."@,
            ),
        ).put(
            "parameters"@,
            empty_object().put("type"@, Jv::Str("object"@)).put(
                "properties"@,
                empty_object().put(
                    "url"@,
                    parameter("string"@, "The URL to fetch (http:// or https://)"@),
                ).put(
                    "method"@,
                    parameter("string"@, "HTTP method (default: GET)"@).put(
                        "enum"@,
                        Jv::Array(tool_methods()),
                    ),
                ).put(
                    "headers"@,
                    parameter("object"@, "Optional HTTP headers as key-value pairs"@),
                ).put(
                    "body"@,
                    parameter("string"@, "Request body for POST/PUT/PATCH requests"@),
                ),
            ).put("required"@, Jv::Array(seq![Jv::Str("url"@)])),
        ),
    )
}

fn describe_parameter(kind: &str, description: &str) -> (r: Json)
    ensures
        r@ == parameter(kind@, description@),
{
    Json::object().with("type", Json::text(kind)).with("description", Json::text(description))
}

/// The definition of the `web_fetch` tool.
pub fn web_fetch_tool_def() -> (r: Json)
    ensures
        r@ == fetch_tool(),
{
    let mut methods: Vec<Json> = Vec::new();
    methods.push(Json::text("GET"));
    methods.push(Json::text("HEAD"));
    methods.push(Json::text("POST"));
    methods.push(Json::text("PUT"));
    methods.push(Json::text("DELETE"));
    methods.push(Json::text("PATCH"));
    methods.push(Json::text("OPTIONS"));
    assert(views(methods@) =~= tool_methods());
    let mut required: Vec<Json> = Vec::new();
    required.push(Json::text("url"));
    assert(views(required@) =~= seq![Jv::Str("url"@)]);
    let properties = Json::object().with(
        "url",
        describe_parameter("string", "The URL to fetch (http:// or https://)"),
    ).with(
        "method",
        describe_parameter("string", "HTTP method (default: GET)").with(
            "enum",
            Json::Array(methods),
        ),
    ).with(
        "headers",
        describe_parameter("object", "Optional HTTP headers as key-value pairs"),
    ).with("body", describe_parameter("string", "Request body for POST/PUT/PATCH requests"));
    let parameters = Json::object().with("type", Json::text("object")).with(
        "properties",
        properties,
    ).with("required", Json::Array(required));
    let function = Json::object().with("name", Json::text("web_fetch")).with(
        "description",
        Json::text(
            "Fetch content from a URL over HTTP/HTTPS. Use this when you need to retrieve content from a web URL. Returns HTTP status and response body as clean markdown. Supports all HTTP methods.",
        ),
    ).with("parameters", parameters);
    Json::object().with("type", Json::text("function")).with("function", function)
}

/// Whether a tool is the `web_fetch` tool.
pub open spec fn is_fetch_tool(tool: Jv) -> bool {
    ||| tool.get("function"@) is Some && tool.get("function"@)->0.text_at("name"@) == Some(
        "web_fetch"@,
    )
    ||| tool.text_at("name"@) == Some("web_fetch"@)
}

/// Whether a list of tools holds the `web_fetch` tool.
pub open spec fn offers_fetch(tools: Seq<Jv>) -> bool {
    exists|i: int| 0 <= i < tools.len() && is_fetch_tool(#[trigger] tools[i])
}

/// The tools of a request: none, where it has no list of them.
pub open spec fn tool_list(tools: Option<Jv>) -> Seq<Jv> {
    match tools {
        Some(Jv::Array(list)) => list,
        _ => Seq::empty(),
    }
}

/// The tools of a request, with the `web_fetch` tool among them.
pub open spec fn with_fetch_tool(tools: Option<Jv>) -> Seq<Jv> {
    let list = tool_list(tools);
    if offers_fetch(list) {
        list
    } else {
        list.push(fetch_tool())
    }
}

fn fetch_among(tools: &Vec<Json>) -> (r: bool)
    ensures
        r == offers_fetch(views(tools@)),
{
    let ghost all = views(tools@);
    let mut i: usize = 0;
    while i < tools.len()
        invariant
            i <= tools@.len(),
            all == views(tools@),
            forall|k: int| 0 <= k < i ==> !is_fetch_tool(#[trigger] all[k]),
        decreases tools@.len() - i,
    {
        let named = match tools[i].get("function") {
            Some(function) => function.text_is("name", "web_fetch"),
            None => false,
        };
        if named || tools[i].text_is("name", "web_fetch") {
            assert(is_fetch_tool(all[i as int]));
            return true;
        }
        i = i + 1;
    }
    false
}

/// The tools of a request, with the `web_fetch` tool among them.
pub fn ensure_web_fetch_tool(tools: Option<&Json>) -> (r: Json)
    ensures
        r@ == Jv::Array(with_fetch_tool(crate::json::opt_view(tools))),
{
    let mut list: Vec<Json> = match tools {
        Some(tools) => match tools.as_array() {
            Some(list) => crate::json_ops::copy_items(list),
            None => Vec::new(),
        },
        None => Vec::new(),
    };
    assert(views(list@) =~= tool_list(crate::json::opt_view(tools)));
    if !fetch_among(&list) {
        list.push(web_fetch_tool_def());
    }
    Json::Array(list)
}

/// What the model is told about the tool.
pub open spec fn hint() -> Seq<char> {
    "[System: You have a `web_fetch` tool available for making HTTP requests. Use it instead of curl, wget, or other shell-based HTTP tools. Call web_fetch with {\"url\": \"...\"} to fetch any URL. It supports GET, HEAD, POST, PUT, DELETE, PATCH, and OPTIONS methods.]"@
}

/// Whether a message is the one that tells the model about the tool.
pub open spec fn is_hint(message: Jv) -> bool {
    message.text_at("role"@) == Some("user"@) && message.text_at("content"@) == Some(hint())
}

/// Whether the model has been told about the tool.
pub open spec fn hinted(messages: Seq<Jv>) -> bool {
    exists|i: int| 0 <= i < messages.len() && is_hint(#[trigger] messages[i])
}

/// A conversation in which the model is told about the tool.
pub open spec fn with_hint(messages: Seq<Jv>) -> Seq<Jv> {
    if hinted(messages) {
        messages
    } else {
        messages.push(user_message(hint()))
    }
}

/// Tells the model about the tool, where that has not happened yet.
pub fn ensure_web_fetch_hint(messages: Vec<Json>) -> (r: Vec<Json>)
    ensures
        views(r@) == with_hint(views(messages@)),
{
    let text = "[System: You have a `web_fetch` tool available for making HTTP requests. Use it instead of curl, wget, or other shell-based HTTP tools. Call web_fetch with {\"url\": \"...\"} to fetch any URL. It supports GET, HEAD, POST, PUT, DELETE, PATCH, and OPTIONS methods.]";
    let ghost all = views(messages@);
    let mut i: usize = 0;
    while i < messages.len()
        invariant
            i <= messages@.len(),
            all == views(messages@),
            text@ == hint(),
            forall|k: int| 0 <= k < i ==> !is_hint(#[trigger] all[k]),
        decreases messages@.len() - i,
    {
        if messages[i].text_is("role", "user") && messages[i].text_is("content", text) {
            assert(is_hint(all[i as int]));
            return messages;
        }
        i = i + 1;
    }
    let mut r = messages;
    r.push(user_text(text));
    r
}

proof fn lemma_fetch_tool()
    ensures
        is_fetch_tool(fetch_tool()),
{
    reveal_strlit("name");
    reveal_strlit("description");
    reveal_strlit("parameters");
    assert("name"@.len() == 4 && "description"@.len() == 11 && "parameters"@.len() == 10);
    let function = fetch_tool().get("function"@)->0;
    assert(function.text_at("name"@) == Some("web_fetch"@));
}

/// Offering the tool leaves the other tools in their places, offers it, and offers it once: a
/// second time changes nothing.
pub proof fn law_fetch_tool_is_offered_once(tools: Option<Jv>)
    ensures
        offers_fetch(with_fetch_tool(tools)),
        tool_list(tools).is_prefix_of(with_fetch_tool(tools)),
        with_fetch_tool(Some(Jv::Array(with_fetch_tool(tools)))) == with_fetch_tool(tools),
{
    lemma_fetch_tool();
    let list = tool_list(tools);
    let all = with_fetch_tool(tools);
    if !offers_fetch(list) {
        assert(is_fetch_tool(all[list.len() as int]));
    }
    assert(all.subrange(0, list.len() as int) =~= list);
}

/// Telling the model about the tool leaves what was said before, tells it, and tells it once.
pub proof fn law_hint_is_given_once(messages: Seq<Jv>)
    ensures
        hinted(with_hint(messages)),
        messages.is_prefix_of(with_hint(messages)),
        with_hint(with_hint(messages)) == with_hint(messages),
{
    let all = with_hint(messages);
    if !hinted(messages) {
        reveal_strlit("role");
        reveal_strlit("content");
        assert("role"@.len() == 4 && "content"@.len() == 7);
        assert(is_hint(all[messages.len() as int]));
    }
    assert(all.subrange(0, messages.len() as int) =~= messages);
}

// ─── What a fetch asks for ─────────────────────────────────────────────────

/// Names and values, as a map; of two values for one name the later counts.
pub open spec fn as_map(list: Seq<(Seq<char>, Seq<char>)>) -> Map<Seq<char>, Seq<char>>
    decreases list.len(),
{
    if list.len() == 0 {
        Map::empty()
    } else {
        as_map(list.drop_last()).insert(list.last().0, list.last().1)
    }
}

/// The members of an object that are strings.
pub open spec fn string_members(v: Option<Jv>) -> Map<Seq<char>, Seq<char>> {
    match v {
        Some(Jv::Object(members)) => Map::new(
            |key: Seq<char>| members.dom().contains(key) && members[key] is Str,
            |key: Seq<char>| members[key]->Str_0,
        ),
        _ => Map::empty(),
    }
}

pub open spec fn header_pairs(list: Seq<(String, String)>) -> Seq<(Seq<char>, Seq<char>)> {
    Seq::new(list.len(), |i: int| (list[i].0@, list[i].1@))
}

/// Whether no name occurs twice.
pub open spec fn distinct_names(list: Seq<(String, String)>) -> bool {
    forall|i: int, j: int|
        0 <= i < j < list.len() ==> (#[trigger] list[i]).0@ != (#[trigger] list[j]).0@
}

/// What a call of `web_fetch` asks for.
pub enum FetchPlan {
    /// Nothing: it gives no address.
    NoUrl,
    /// A page, to be read as text.
    Page { url: String },
    /// A request of another method.
    Raw {
        url: String,
        method: String,
        /// The headers that the call gives, each name once.
        headers: Vec<(String, String)>,
        body: Option<String>,
    },
}

/// What the arguments of a call of `web_fetch` ask for, given their method in capitals.
pub open spec fn plans_with(args: Jv, upper: Seq<char>, plan: FetchPlan) -> bool {
    let method = args.text_or("method"@, "GET"@);
    match args.text_at("url"@) {
        None => plan is NoUrl,
        Some(address) => if upper == "GET"@ {
            plan matches FetchPlan::Page { url } && url@ == address
        } else {
            plan matches FetchPlan::Raw { url, method: m, headers, body } && url@ == address && m@
                == method && distinct_names(headers@) && as_map(header_pairs(headers@))
                == string_members(args.get("headers"@)) && opt_string(body) == args.text_at(
                "body"@,
            )
        },
    }
}

/// What the arguments of a call of `web_fetch` ask for.
pub open spec fn plans(args: Jv, plan: FetchPlan) -> bool {
    plans_with(args, uppercase(args.text_or("method"@, "GET"@)), plan)
}

proof fn lemma_as_map(list: Seq<(Seq<char>, Seq<char>)>)
    ensures
        forall|key: Seq<char>| #[trigger]
            as_map(list).dom().contains(key) <==> exists|i: int|
                0 <= i < list.len() && #[trigger] list[i].0 == key,
    decreases list.len(),
{
    if list.len() > 0 {
        let head = list.drop_last();
        lemma_as_map(head);
        assert forall|key: Seq<char>| #[trigger]
            as_map(list).dom().contains(key) <==> exists|i: int|
                0 <= i < list.len() && #[trigger] list[i].0 == key by {
            if as_map(list).dom().contains(key) {
                if key != list.last().0 {
                    assert(as_map(head).dom().contains(key));
                    let i = choose|i: int| 0 <= i < head.len() && #[trigger] head[i].0 == key;
                    assert(list[i].0 == key);
                } else {
                    assert(list[list.len() - 1].0 == key);
                }
            }
            if exists|i: int| 0 <= i < list.len() && #[trigger] list[i].0 == key {
                let i = choose|i: int| 0 <= i < list.len() && #[trigger] list[i].0 == key;
                if i < head.len() {
                    assert(head[i].0 == key);
                    assert(as_map(head).dom().contains(key));
                }
            }
        }
    }
}

/// The position of a header.
fn find_header(list: &Vec<(String, String)>, name: &str) -> (r: Option<usize>)
    ensures
        (match r {
            Some(i) => i < list@.len() && list@[i as int].0@ == name@ && as_map(
                header_pairs(list@),
            ).dom().contains(name@),
            None => !as_map(header_pairs(list@)).dom().contains(name@) && forall|k: int|
                0 <= k < list@.len() ==> (#[trigger] list@[k]).0@ != name@,
        }),
{
    let ghost all = header_pairs(list@);
    proof {
        lemma_as_map(all);
    }
    let mut i: usize = 0;
    while i < list.len()
        invariant
            i <= list@.len(),
            all == header_pairs(list@),
            forall|key: Seq<char>| #[trigger]
                as_map(all).dom().contains(key) <==> exists|i: int|
                    0 <= i < all.len() && #[trigger] all[i].0 == key,
            forall|k: int| 0 <= k < i ==> (#[trigger] list@[k]).0@ != name@,
        decreases list@.len() - i,
    {
        if same(list[i].0.as_str(), name) {
            assert(all[i as int].0 == name@);
            assert(as_map(all).dom().contains(name@));
            return Some(i);
        }
        i = i + 1;
    }
    assert forall|k: int| 0 <= k < all.len() implies (#[trigger] all[k]).0 != name@ by {
        assert(list@[k].0@ != name@);
    }
    None
}

proof fn lemma_as_map_at(list: Seq<(String, String)>, k: int)
    requires
        distinct_names(list),
        0 <= k < list.len(),
    ensures
        as_map(header_pairs(list)).dom().contains(list[k].0@),
        as_map(header_pairs(list))[list[k].0@] == list[k].1@,
    decreases list.len(),
{
    let head = list.drop_last();
    assert(header_pairs(list).drop_last() =~= header_pairs(head));
    if k < head.len() {
        lemma_as_map_at(head, k);
        assert(list[k].0@ != list[list.len() - 1].0@);
    }
}

/// The members of an object that are strings, each name once.
fn headers_of(v: Option<&Json>) -> (r: Vec<(String, String)>)
    ensures
        distinct_names(r@),
        as_map(header_pairs(r@)) == string_members(crate::json::opt_view(v)),
{
    let mut r: Vec<(String, String)> = Vec::new();
    assert(as_map(header_pairs(r@)) =~= Map::empty());
    match v {
        Some(object) => match object {
            Json::Object(members) => {
                let ghost all = crate::json::members_view(members@);
                let mut i: usize = members.len();
                proof {
                    lemma_as_map(header_pairs(r@));
                }
                while i > 0
                    invariant
                        i <= members@.len(),
                        *object == Json::Object(*members),
                        all == crate::json::members_view(members@),
                        object@ == Jv::Object(all),
                        distinct_names(r@),
                        forall|key: Seq<char>| #[trigger]
                            as_map(header_pairs(r@)).dom().contains(key) ==> all.dom().contains(
                                key,
                            ) && all[key] == Jv::Str(as_map(header_pairs(r@))[key]),
                        forall|k: int|
                            i <= k < members@.len() && all[(#[trigger] members@[k]).0@] is Str
                                ==> as_map(header_pairs(r@)).dom().contains(members@[k].0@),
                    decreases i,
                {
                    i = i - 1;
                    let name = members[i].0.as_str();
                    let ghost before = r@;
                    if find_header(&r, name).is_none() {
                        proof {
                            lemma_member_present(members@, i as int);
                        }
                        match object.text_at(name) {
                            Some(value) => {
                                r.push((name.to_owned(), value.to_owned()));
                                proof {
                                    assert(header_pairs(r@).drop_last() =~= header_pairs(before));
                                    assert(distinct_names(r@));
                                }
                            },
                            None => {},
                        }
                    }
                }
                proof {
                    let want = string_members(Some(object@));
                    assert forall|key: Seq<char>| #[trigger] want.dom().contains(key) implies as_map(
                        header_pairs(r@),
                    ).dom().contains(key) by {
                        lemma_members_domain(members@);
                        let k = choose|k: int|
                            0 <= k < members@.len() && #[trigger] members@[k].0@ == key;
                        assert(all[members@[k].0@] is Str);
                    }
                    assert(as_map(header_pairs(r@)) =~= want);
                }
            },
            _ => {},
        },
        None => {},
    }
    r
}

proof fn lemma_members_domain(members: Seq<(String, Json)>)
    ensures
        forall|key: Seq<char>| #[trigger]
            crate::json::members_view(members).dom().contains(key) <==> exists|k: int|
                0 <= k < members.len() && #[trigger] members[k].0@ == key,
    decreases members.len(),
{
    if members.len() > 0 {
        let head = members.subrange(0, members.len() - 1);
        lemma_members_domain(head);
        assert forall|key: Seq<char>| #[trigger]
            crate::json::members_view(members).dom().contains(key) <==> exists|k: int|
                0 <= k < members.len() && #[trigger] members[k].0@ == key by {
            if crate::json::members_view(members).dom().contains(key) {
                if key != members[members.len() - 1].0@ {
                    assert(crate::json::members_view(head).dom().contains(key));
                    let k = choose|k: int| 0 <= k < head.len() && #[trigger] head[k].0@ == key;
                    assert(members[k].0@ == key);
                }
            }
            if exists|k: int| 0 <= k < members.len() && #[trigger] members[k].0@ == key {
                let k = choose|k: int| 0 <= k < members.len() && #[trigger] members[k].0@ == key;
                if k < head.len() {
                    assert(head[k].0@ == key);
                    assert(crate::json::members_view(head).dom().contains(key));
                }
            }
        }
    }
}

proof fn lemma_member_present(members: Seq<(String, Json)>, k: int)
    requires
        0 <= k < members.len(),
    ensures
        crate::json::members_view(members).dom().contains(members[k].0@),
{
    lemma_members_domain(members);
    assert(members[k].0@ == members[k].0@);
}

/// What the arguments of a call of `web_fetch` ask for, given their method in capitals.
pub fn plan_fetch_with(args: &Json, upper: &str) -> (r: FetchPlan)
    ensures
        plans_with(args@, upper@, r),
{
    let url = match args.text_at("url") {
        Some(url) => url.to_owned(),
        None => {
            return FetchPlan::NoUrl;
        },
    };
    let method = args.text_or("method", "GET");
    if same(upper, "GET") {
        return FetchPlan::Page { url };
    }
    let headers = headers_of(args.get("headers"));
    let body = match args.text_at("body") {
        Some(body) => Some(body.to_owned()),
        None => None,
    };
    FetchPlan::Raw { url, method: method.to_owned(), headers, body }
}

/// What the arguments of a call of `web_fetch` ask for.
pub fn plan_fetch(args: &Json) -> (r: FetchPlan)
    ensures
        plans(args@, r),
{
    let upper = to_upper(args.text_or("method", "GET"));
    plan_fetch_with(args, upper.as_str())
}

/// `http::Method`, carried through as it is.
#[verifier::external_type_specification]
#[verifier::external_body]
pub struct ExMethod(http::Method);

/// `http::method::InvalidMethod`, carried through as it is.
#[verifier::external_type_specification]
#[verifier::external_body]
pub struct ExInvalidMethod(http::method::InvalidMethod);

/// Whether a byte may stand in the name of a method.
pub open spec fn is_token_byte(b: u8) -> bool {
    ||| 48 <= b <= 57
    ||| 65 <= b <= 90
    ||| 97 <= b <= 122
    ||| b == 33
    ||| 35 <= b <= 39
    ||| b == 42
    ||| b == 43
    ||| b == 45
    ||| b == 46
    ||| 94 <= b <= 96
    ||| b == 124
    ||| b == 126
}

/// Whether bytes are the name of a method: letters, digits and some signs, and not none.
pub open spec fn is_method(bytes: Seq<u8>) -> bool {
    bytes.len() > 0 && forall|i: int| 0 <= i < bytes.len() ==> is_token_byte(#[trigger] bytes[i])
}

/// `http::Method::from_bytes`: succeeds exactly on the names of methods.
pub assume_specification[ http::Method::from_bytes ](src: &[u8]) -> (r: Result<
    http::Method,
    http::method::InvalidMethod,
>)
    ensures
        r is Ok == is_method(src@),
;

/// A request of another method than the reading of a page.
pub struct RawRequest {
    pub method: String,
    pub url: String,
    /// The headers, in the order in which they are set.
    pub headers: Vec<(String, String)>,
    pub body: Option<String>,
}

/// The name under which the proxy makes requests.
pub open spec fn own_agent() -> Seq<char> {
    "Mozilla/5.0 (compatible; CodexProxy/1.0)"@
}

/// The name under which the proxy makes requests.
pub fn agent() -> (r: &'static str)
    ensures
        r@ == own_agent(),
{
    "Mozilla/5.0 (compatible; CodexProxy/1.0)"
}

/// The user agent of a request: that of its headers, or else the one of the proxy.
pub open spec fn agent_of(headers: Map<Seq<char>, Seq<char>>) -> Seq<char> {
    if headers.dom().contains("User-Agent"@) {
        headers["User-Agent"@]
    } else if headers.dom().contains("user-agent"@) {
        headers["user-agent"@]
    } else {
        own_agent()
    }
}

/// Whether a request gets the token for the GitHub API.
pub open spec fn takes_token(
    token: Seq<char>,
    url: Seq<char>,
    headers: Map<Seq<char>, Seq<char>>,
) -> bool {
    token.len() > 0 && has(url, "api.github.com"@) && !headers.dom().contains("Authorization"@)
        && !headers.dom().contains("authorization"@)
}

/// The headers that a request keeps, given their names in small letters: all but the user agent.
pub open spec fn kept_headers(headers: Seq<(Seq<char>, Seq<char>)>, lowered: Seq<Seq<char>>) -> Seq<
    (Seq<char>, Seq<char>),
>
    decreases headers.len(),
{
    if headers.len() == 0 {
        Seq::empty()
    } else {
        let before = kept_headers(headers.drop_last(), lowered.drop_last());
        if lowered.last() == "user-agent"@ {
            before
        } else {
            before.push(headers.last())
        }
    }
}

/// The names of headers in small letters.
pub open spec fn lowered_names(headers: Seq<(Seq<char>, Seq<char>)>) -> Seq<Seq<char>> {
    headers.map_values(|h: (Seq<char>, Seq<char>)| lowercase(h.0))
}

/// The headers of a request, in the order in which they are set, given the names of those that
/// the call gives in small letters.
pub open spec fn request_headers(
    token: Seq<char>,
    url: Seq<char>,
    headers: Seq<(Seq<char>, Seq<char>)>,
    lowered: Seq<Seq<char>>,
) -> Seq<(Seq<char>, Seq<char>)> {
    seq![("User-Agent"@, agent_of(as_map(headers)))] + (if takes_token(
        token,
        url,
        as_map(headers),
    ) {
        seq![("Authorization"@, "Bearer "@ + token)]
    } else {
        Seq::empty()
    }) + kept_headers(headers, lowered)
}

/// Whether a request of a method carries a body.
pub open spec fn carries_body(method: Seq<char>) -> bool {
    method == "POST"@ || method == "PUT"@ || method == "PATCH"@
}

/// Whether `r` is the request that a plan makes, given the method in capitals and the names of
/// the headers in small letters.
pub open spec fn requests(
    token: Seq<char>,
    url: Seq<char>,
    method: Seq<char>,
    upper: Seq<char>,
    headers: Seq<(Seq<char>, Seq<char>)>,
    lowered: Seq<Seq<char>>,
    body: Option<Seq<char>>,
    r: Result<RawRequest, String>,
) -> bool {
    match r {
        Ok(request) => {
            &&& is_method(encode_utf8(upper))
            &&& request.method@ == upper
            &&& request.url@ == url
            &&& header_pairs(request.headers@) == request_headers(token, url, headers, lowered)
            &&& opt_string(request.body) == (if carries_body(upper) {
                body
            } else {
                None
            })
        },
        Err(message) => !is_method(encode_utf8(upper)) && message@
            == "Fetch error: invalid method '"@ + method + "'"@,
    }
}

fn keep_headers(headers: &Vec<(String, String)>, lowered: &Vec<String>) -> (r: Vec<
    (String, String),
>)
    requires
        lowered@.len() == headers@.len(),
    ensures
        header_pairs(r@) == kept_headers(header_pairs(headers@), texts(lowered@)),
{
    let ghost all = header_pairs(headers@);
    let ghost names = texts(lowered@);
    let mut r: Vec<(String, String)> = Vec::new();
    let mut i: usize = 0;
    assert(header_pairs(r@) =~= kept_headers(all.take(0), names.take(0)));
    while i < headers.len()
        invariant
            i <= headers@.len(),
            lowered@.len() == headers@.len(),
            all == header_pairs(headers@),
            names == texts(lowered@),
            header_pairs(r@) == kept_headers(all.take(i as int), names.take(i as int)),
        decreases headers@.len() - i,
    {
        let ghost before = header_pairs(r@);
        assert(all.take(i + 1).drop_last() =~= all.take(i as int));
        assert(names.take(i + 1).drop_last() =~= names.take(i as int));
        if !same(lowered[i].as_str(), "user-agent") {
            r.push((headers[i].0.clone(), headers[i].1.clone()));
            assert(header_pairs(r@) =~= before.push(all[i as int]));
        }
        i = i + 1;
    }
    assert(all.take(i as int) =~= all);
    assert(names.take(i as int) =~= names);
    r
}

fn lower_names(headers: &Vec<(String, String)>) -> (r: Vec<String>)
    ensures
        texts(r@) == lowered_names(header_pairs(headers@)),
{
    let mut r: Vec<String> = Vec::new();
    let mut i: usize = 0;
    while i < headers.len()
        invariant
            i <= headers@.len(),
            r@.len() == i,
            forall|k: int| 0 <= k < i ==> (#[trigger] r@[k])@ == lowercase(headers@[k].0@),
        decreases headers@.len() - i,
    {
        r.push(to_lower(headers[i].0.as_str()));
        i = i + 1;
    }
    assert(texts(r@) =~= lowered_names(header_pairs(headers@)));
    r
}

/// The request that a plan of another method makes, given the method in capitals and the names
/// of the headers in small letters; what went wrong, where the method has no valid name.
pub fn raw_request_with(
    github_token: &str,
    url: &str,
    method: &str,
    upper: &str,
    headers: &Vec<(String, String)>,
    lowered: &Vec<String>,
    body: Option<&str>,
) -> (r: Result<RawRequest, String>)
    requires
        distinct_names(headers@),
        lowered@.len() == headers@.len(),
    ensures
        requests(
            github_token@,
            url@,
            method@,
            upper@,
            header_pairs(headers@),
            texts(lowered@),
            crate::json::opt_text(body),
            r,
        ),
{
    if http::Method::from_bytes(upper.as_bytes()).is_err() {
        let mut message = "Fetch error: invalid method '".to_owned();
        message.append(method);
        message.append("'");
        return Err(message);
    }
    let ghost all = header_pairs(headers@);
    let mut set: Vec<(String, String)> = Vec::new();
    let agent = match find_header(headers, "User-Agent") {
        Some(i) => {
            proof {
                lemma_as_map_at(headers@, i as int);
            }
            headers[i].1.clone()
        },
        None => match find_header(headers, "user-agent") {
            Some(i) => {
                proof {
                    lemma_as_map_at(headers@, i as int);
                }
                headers[i].1.clone()
            },
            None => agent().to_owned(),
        },
    };
    set.push(("User-Agent".to_owned(), agent));
    if !github_token.is_empty() && contains(url, "api.github.com") && find_header(
        headers,
        "Authorization",
    ).is_none() && find_header(headers, "authorization").is_none() {
        set.push(("Authorization".to_owned(), "Bearer ".to_owned().concat(github_token)));
    }
    let ghost first = header_pairs(set@);
    let mut kept = keep_headers(headers, lowered);
    let ghost rest = header_pairs(kept@);
    set.append(&mut kept);
    assert(header_pairs(set@) =~= first + rest);
    assert(header_pairs(set@) =~= request_headers(github_token@, url@, all, texts(lowered@)));
    let sends = same(upper, "POST") || same(upper, "PUT") || same(upper, "PATCH");
    let sent = if sends {
        match body {
            Some(body) => Some(body.to_owned()),
            None => None,
        }
    } else {
        None
    };
    Ok(RawRequest { method: upper.to_owned(), url: url.to_owned(), headers: set, body: sent })
}

/// The request that a plan of another method makes; what went wrong, where the method has no
/// valid name.
pub fn raw_request(
    github_token: &str,
    url: &str,
    method: &str,
    headers: &Vec<(String, String)>,
    body: Option<&str>,
) -> (r: Result<RawRequest, String>)
    requires
        distinct_names(headers@),
    ensures
        requests(
            github_token@,
            url@,
            method@,
            uppercase(method@),
            header_pairs(headers@),
            lowered_names(header_pairs(headers@)),
            crate::json::opt_text(body),
            r,
        ),
{
    let upper = to_upper(method);
    let lowered = lower_names(headers);
    assert(texts(lowered@).len() == header_pairs(headers@).len());
    raw_request_with(github_token, url, method, upper.as_str(), headers, &lowered, body)
}

// ─── What a fetch brings back ──────────────────────────────────────────────

/// `http::StatusCode`; its number is [`status_number`].
#[verifier::external_type_specification]
#[verifier::external_body]
pub struct ExStatusCode(http::StatusCode);

/// `http::status::InvalidStatusCode`, carried through as it is.
#[verifier::external_type_specification]
#[verifier::external_body]
pub struct ExInvalidStatusCode(http::status::InvalidStatusCode);

/// The number of a status code.
pub uninterp spec fn status_number(status: http::StatusCode) -> u16;

/// The canonical phrase for the number of a status code.
pub uninterp spec fn reason_phrase(number: u16) -> Option<Seq<char>>;

/// `http::StatusCode::from_u16`: succeeds exactly on the numbers of three digits.
pub assume_specification[ http::StatusCode::from_u16 ](src: u16) -> (r: Result<
    http::StatusCode,
    http::status::InvalidStatusCode,
>)
    ensures
        r is Ok == (100 <= src <= 999),
        r matches Ok(status) ==> status_number(status) == src,
;

/// `http::StatusCode::canonical_reason`: the phrase for the number, where it has one.
#[verifier::external_body]
fn canonical_reason(status: &http::StatusCode) -> (r: Option<&'static str>)
    ensures
        (match r {
            Some(phrase) => reason_phrase(status_number(*status)) == Some(phrase@),
            None => reason_phrase(status_number(*status)) is None,
        }),
{
    status.canonical_reason()
}

/// The phrase for a status, and no text where there is none.
pub open spec fn phrase_of(status: u16) -> Seq<char> {
    if 100 <= status <= 999 && reason_phrase(status) is Some {
        reason_phrase(status)->0
    } else {
        ""@
    }
}

/// The line that says how a request went, given the phrase for its status.
pub open spec fn status_line_of(status: u16, phrase: Seq<char>) -> Seq<char> {
    "HTTP "@ + decimal(status as nat) + " "@ + phrase
}

/// The phrase for a status, and no text where there is none.
pub fn status_phrase(status: u16) -> (r: &'static str)
    ensures
        r@ == phrase_of(status),
{
    match http::StatusCode::from_u16(status) {
        Ok(code) => match canonical_reason(&code) {
            Some(phrase) => phrase,
            None => "",
        },
        Err(_) => "",
    }
}

fn status_line(status: u16, phrase: &str) -> (r: String)
    ensures
        r@ == status_line_of(status, phrase@),
{
    let mut r = "HTTP ".to_owned();
    r.append(decimal_text(status as u64).as_str());
    r.append(" ");
    r.append(phrase);
    r
}

/// How many bytes a text has.
pub open spec fn byte_len(s: Seq<char>) -> nat {
    encode_utf8(s).len()
}

/// The text of the first bytes of a text.
pub open spec fn byte_prefix(s: Seq<char>, n: int) -> Seq<char> {
    decode_utf8(encode_utf8(s).subrange(0, n))
}

/// Whether a text is short enough to be passed on whole, or can be cut off where it has to be:
/// not in the middle of a character.
pub open spec fn cuttable(s: Seq<char>) -> bool {
    byte_len(s) <= FETCH_MAX_BODY || is_char_boundary(encode_utf8(s), FETCH_MAX_BODY as int)
}

/// Whether a text is short enough to be passed on whole, or can be cut off where it has to be.
pub fn can_cut(text: &str) -> (r: bool)
    ensures
        r == cuttable(text@),
{
    text.as_bytes().len() <= FETCH_MAX_BODY || text.is_char_boundary(FETCH_MAX_BODY)
}

fn cut(text: &str) -> (r: &str)
    requires
        byte_len(text@) > FETCH_MAX_BODY,
        cuttable(text@),
    ensures
        r@ == byte_prefix(text@, FETCH_MAX_BODY as int),
{
    let (head, _tail) = text.split_at(FETCH_MAX_BODY);
    proof {
        encode_utf8_decode_utf8(head@);
    }
    head
}

/// A text with what is left out of it in numbers, where it is too long: `mark` and the number of
/// bytes.
pub open spec fn shortened(s: Seq<char>, mark: Seq<char>) -> Seq<char> {
    if byte_len(s) > FETCH_MAX_BODY {
        byte_prefix(s, FETCH_MAX_BODY as int) + mark + decimal(
            (byte_len(s) - FETCH_MAX_BODY) as nat,
        ) + " chars omitted]"@
    } else {
        s
    }
}

fn shorten(text: &str, mark: &str) -> (r: String)
    requires
        cuttable(text@),
    ensures
        r@ == shortened(text@, mark@),
{
    let total = text.as_bytes().len();
    if total > FETCH_MAX_BODY {
        let mut r = cut(text).to_owned();
        r.append(mark);
        r.append(decimal_text((total - FETCH_MAX_BODY) as u64).as_str());
        r.append(" chars omitted]");
        r
    } else {
        text.to_owned()
    }
}

/// Whether a status says that a request went well.
pub open spec fn is_success(status: u16) -> bool {
    200 <= status < 300
}

/// The text for a page that was not found well, before it is cut off.
pub open spec fn failed_page(status: u16, phrase: Seq<char>, body: Seq<char>) -> Seq<char> {
    status_line_of(status, phrase) + "\n"@ + body
}

/// The text that a page brings back, given the phrase for its status: its body, shortened; the
/// status and the body, cut off, where the request did not go well; or why it could not be read.
pub open spec fn page_text(status: u16, phrase: Seq<char>, body: Result<Seq<char>, Seq<char>>) -> Seq<
    char,
> {
    if !is_success(status) {
        let text = failed_page(
            status,
            phrase,
            match body {
                Ok(s) => s,
                Err(_) => ""@,
            },
        );
        if byte_len(text) > FETCH_MAX_BODY {
            byte_prefix(text, FETCH_MAX_BODY as int)
        } else {
            text
        }
    } else {
        match body {
            Ok(s) => shortened(s, "\n...[content truncated, "@),
            Err(e) => "Read error: "@ + e,
        }
    }
}

/// Whether what a page brings back can be cut off where it has to be.
pub open spec fn page_cuttable(
    status: u16,
    phrase: Seq<char>,
    body: Result<Seq<char>, Seq<char>>,
) -> bool {
    if !is_success(status) {
        cuttable(
            failed_page(
                status,
                phrase,
                match body {
                    Ok(s) => s,
                    Err(_) => ""@,
                },
            ),
        )
    } else {
        body matches Ok(s) ==> cuttable(s)
    }
}

pub open spec fn text_result(r: Result<String, String>) -> Result<Seq<char>, Seq<char>> {
    match r {
        Ok(s) => Ok(s@),
        Err(e) => Err(e@),
    }
}

/// The text that a page brings back, given the phrase for its status; nothing, where it would
/// have to be cut off in the middle of a character.
pub fn describe_page(status: u16, phrase: &str, body: Result<String, String>) -> (r: Option<String>)
    ensures
        (match r {
            Some(text) => page_cuttable(status, phrase@, text_result(body)) && text@ == page_text(
                status,
                phrase@,
                text_result(body),
            ),
            None => !page_cuttable(status, phrase@, text_result(body)),
        }),
{
    if !(200 <= status && status < 300) {
        let mut text = status_line(status, phrase);
        text.append("\n");
        match &body {
            Ok(s) => {
                text.append(s.as_str());
            },
            Err(_) => {
                text.append("");
            },
        }
        if !can_cut(text.as_str()) {
            return None;
        }
        if text.as_str().as_bytes().len() > FETCH_MAX_BODY {
            return Some(cut(text.as_str()).to_owned());
        }
        return Some(text);
    }
    match body {
        Ok(s) => {
            if !can_cut(s.as_str()) {
                return None;
            }
            Some(shorten(s.as_str(), "\n...[content truncated, "))
        },
        Err(e) => Some("Read error: ".to_owned().concat(e.as_str())),
    }
}

/// Whether a content type is that of bytes that are not shown.
pub open spec fn is_binary(content_type: Seq<char>) -> bool {
    has(content_type, "image"@) || has(content_type, "audio"@) || has(content_type, "video"@)
        || has(content_type, "octet-stream"@)
}

/// A header in words.
pub open spec fn header_line(h: (Seq<char>, Seq<char>)) -> Seq<char> {
    h.0 + ": "@ + h.1
}

/// The text that the answer to a request brings back without its body being read: its headers,
/// where they were asked for, or a note, where the body is not shown.
pub open spec fn head_text(
    method: Seq<char>,
    line: Seq<char>,
    content_type: Seq<char>,
    headers: Seq<(Seq<char>, Seq<char>)>,
) -> Option<Seq<char>> {
    if method == "HEAD"@ || method == "OPTIONS"@ {
        Some(
            line + "\n"@ + joined(
                headers.map_values(|h: (Seq<char>, Seq<char>)| header_line(h)),
                "\n"@,
            ),
        )
    } else if is_binary(content_type) {
        Some(line + "\nContent-Type: "@ + content_type + "\n(binary content, not shown)"@)
    } else {
        None
    }
}

/// The text that the answer to a request brings back without its body being read, given the
/// phrase for its status.
pub fn describe_head(
    method: &str,
    status: u16,
    phrase: &str,
    content_type: &str,
    headers: &Vec<(String, String)>,
) -> (r: Option<String>)
    ensures
        opt_string(r) == head_text(
            method@,
            status_line_of(status, phrase@),
            content_type@,
            header_pairs(headers@),
        ),
{
    let line = status_line(status, phrase);
    if same(method, "HEAD") || same(method, "OPTIONS") {
        let ghost all = header_pairs(headers@);
        let mut lines: Vec<String> = Vec::new();
        let mut i: usize = 0;
        while i < headers.len()
            invariant
                i <= headers@.len(),
                all == header_pairs(headers@),
                lines@.len() == i,
                forall|k: int| 0 <= k < i ==> (#[trigger] lines@[k])@ == header_line(all[k]),
            decreases headers@.len() - i,
        {
            lines.push(headers[i].0.clone().concat(": ").concat(headers[i].1.as_str()));
            i = i + 1;
        }
        assert(texts(lines@) =~= all.map_values(|h: (Seq<char>, Seq<char>)| header_line(h)));
        return Some(line.concat("\n").concat(join(&lines, "\n").as_str()));
    }
    if contains(content_type, "image") || contains(content_type, "audio") || contains(
        content_type,
        "video",
    ) || contains(content_type, "octet-stream") {
        return Some(
            line.concat("\nContent-Type: ").concat(content_type).concat(
                "\n(binary content, not shown)",
            ),
        );
    }
    None
}

/// The text that the answer to a request brings back with its body.
pub open spec fn raw_text(line: Seq<char>, body: Result<Seq<char>, Seq<char>>) -> Seq<char> {
    match body {
        Ok(s) => line + "\n\n"@ + shortened(s, "\n...[truncated, "@),
        Err(e) => line + "\n\nRead error: "@ + e,
    }
}

/// The text that the answer to a request brings back with its body, given the phrase for its
/// status; nothing, where the body would have to be cut off in the middle of a character.
pub fn describe_body(status: u16, phrase: &str, body: Result<String, String>) -> (r: Option<String>)
    ensures
        (match r {
            Some(text) => (text_result(body) matches Ok(s) ==> cuttable(s)) && text@ == raw_text(
                status_line_of(status, phrase@),
                text_result(body),
            ),
            None => text_result(body) is Ok && !cuttable(text_result(body)->Ok_0),
        }),
{
    let line = status_line(status, phrase);
    match body {
        Ok(s) => {
            if !can_cut(s.as_str()) {
                return None;
            }
            Some(line.concat("\n\n").concat(shorten(s.as_str(), "\n...[truncated, ").as_str()))
        },
        Err(e) => Some(line.concat("\n\nRead error: ").concat(e.as_str())),
    }
}

/// The type that a page is asked for first.
pub fn page_accept() -> (r: &'static str)
    ensures
        r@ == "text/markdown"@,
{
    "text/markdown"
}

/// The type that a page is asked for next: plain text, where the server has not served markdown.
pub fn next_accept(accept: &str, status: u16) -> (r: Option<&'static str>)
    ensures
        (match r {
            Some(next) => accept@ == "text/markdown"@ && !is_success(status) && next@
                == "text/plain"@,
            None => accept@ != "text/markdown"@ || is_success(status),
        }),
{
    if same(accept, "text/markdown") && !(200 <= status && status < 300) {
        Some("text/plain")
    } else {
        None
    }
}

/// The text for a fetch that failed.
pub fn fetch_failed(reason: &str) -> (r: String)
    ensures
        r@ == "Fetch error: "@ + reason@,
{
    "Fetch error: ".to_owned().concat(reason)
}

/// The text for a call that gives no address.
pub fn no_url_provided() -> (r: String)
    ensures
        r@ == "Error: no URL provided"@,
{
    "Error: no URL provided".to_owned()
}

} // verus!
