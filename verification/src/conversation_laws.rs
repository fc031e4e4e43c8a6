//! What of a conversation reaches the upstream, and in which roles.

use vstd::prelude::*;

use crate::config::Config;
use crate::handler_laws::{law_request_conversation, lemma_minimax_messages};
use crate::handlers::{count_before, minimax_body, minimax_chat, nudge_text, with_fetch, with_history};
use crate::json::Jv;
use crate::message_laws::{
    law_trimmed_fits, lemma_prepared_is_trimmed, lemma_roles_differ, prepared,
};
use crate::messages::{
    answers, is_caller, is_tool, joins, last_caller, merged, repaired, results_end,
    trim_notice_text, trimmed_messages, truncated, user_message, with_paragraph,
    without_leading_tools, MAX_MESSAGES,
};
use crate::order_laws::{lemma_merged_hold, lemma_repaired_hold};
use crate::request::{
    chat_block, chat_content, chat_request, input_items, instructions_message, raw_messages,
    text_item, Draft,
};
use crate::store::{Entry, MAX_CONSECUTIVE_TOOL_CALLS};
use crate::web_fetch::{hint, hinted, with_hint};

verus! {

// ─── Roles ─────────────────────────────────────────────────────────────────

/// Whether a message has a role that Chat Completions of MiniMax knows: neither `system` nor
/// `developer`.
pub open spec fn has_known_role(m: Jv) -> bool {
    m.text_at("role"@) != Some("system"@) && m.text_at("role"@) != Some("developer"@)
}

/// Whether every message has a role that is known.
pub open spec fn roles_known(ms: Seq<Jv>) -> bool {
    forall|i: int| 0 <= i < ms.len() ==> has_known_role(#[trigger] ms[i])
}

proof fn lemma_unknown_roles()
    ensures
        "user"@ != "system"@,
        "user"@ != "developer"@,
        "assistant"@ != "system"@,
        "assistant"@ != "developer"@,
        "tool"@ != "system"@,
        "tool"@ != "developer"@,
{
    reveal_strlit("user");
    reveal_strlit("assistant");
    reveal_strlit("tool");
    reveal_strlit("system");
    reveal_strlit("developer");
    assert("user"@.len() == 4 && "assistant"@.len() == 9 && "tool"@.len() == 4 && "system"@.len()
        == 6 && "developer"@.len() == 9);
    assert("assistant"@[0] == 'a');
    assert("developer"@[0] == 'd');
}

proof fn lemma_draft_roles(draft: Draft, items: Seq<Jv>)
    requires
        roles_known(draft.messages),
    ensures
        roles_known(draft.items(items).messages),
        roles_known(draft.items(items).flushed()),
    decreases items.len(),
{
    lemma_unknown_roles();
    lemma_roles_differ();
    reveal_strlit("role");
    reveal_strlit("content");
    reveal_strlit("tool_calls");
    reveal_strlit("tool_call_id");
    assert("role"@.len() == 4 && "content"@.len() == 7 && "tool_calls"@.len() == 10
        && "tool_call_id"@.len() == 12);
    if items.len() > 0 {
        lemma_draft_roles(draft, items.drop_last());
    }
}

proof fn lemma_raw_roles(body: Jv)
    ensures
        roles_known(raw_messages(body)),
{
    lemma_unknown_roles();
    lemma_roles_differ();
    let opening = match body.text_at("instructions"@) {
        Some(instructions) => seq![instructions_message(instructions)],
        None => Seq::empty(),
    };
    assert(roles_known(opening));
    if let Some(Jv::Array(items)) = body.get("input"@) {
        lemma_draft_roles(Draft { messages: opening, calls: Seq::empty() }, items);
    }
}

proof fn lemma_prepared_roles(ms: Seq<Jv>)
    requires
        roles_known(ms),
    ensures
        roles_known(prepared(ms)),
{
    lemma_unknown_roles();
    lemma_roles_differ();
    lemma_prepared_is_trimmed(ms);
    let p = |m: Jv| has_known_role(m);
    assert forall|a: Jv, b: Jv| p(a) && p(b) && joins(a, b) implies p(
        #[trigger] with_paragraph(a, b),
    ) by {
        assert(with_paragraph(a, b).text_at("role"@) == a.text_at("role"@));
    }
    lemma_repaired_hold(ms, p);
    lemma_merged_hold(repaired(Seq::empty(), ms), p);
    let joined = merged(repaired(Seq::empty(), ms));
    let cut = truncated(joined);
    assert forall|i: int| 0 <= i < cut.len() implies has_known_role(#[trigger] cut[i]) by {
        assert(p(joined[i]));
        assert(cut[i].text_at("role"@) == joined[i].text_at("role"@));
    }
    law_trimmed_fits(cut);
    let r = trimmed_messages(cut);
    if r != cut {
        let back = cut.len() - r.len();
        assert(r[2] == user_message(trim_notice_text()));
        assert forall|i: int| 0 <= i < r.len() implies has_known_role(#[trigger] r[i]) by {
            if i < 2 {
                assert(r.take(2)[i] == cut.take(2)[i]);
                assert(has_known_role(cut[i]));
            } else if i > 2 {
                assert(r.skip(3)[i - 3] == cut.skip(back + 3)[i - 3]);
                assert(has_known_role(cut[back + i]));
            }
        }
    }
}

proof fn lemma_hint_roles(messages: Seq<Jv>)
    requires
        roles_known(messages),
    ensures
        roles_known(with_hint(messages)),
{
    lemma_unknown_roles();
    lemma_roles_differ();
    if !hinted(messages) {
        let all = with_hint(messages);
        assert forall|i: int| 0 <= i < all.len() implies has_known_role(#[trigger] all[i]) by {
            if i < messages.len() {
                assert(has_known_role(messages[i]));
            } else {
                assert(all[i] == user_message(hint()));
            }
        }
    }
}

/// No message of a translated request has the role `system` or `developer`, whatever roles the
/// input has, and none of those that go to MiniMax.
pub proof fn law_roles_are_known(config: Config, body: Jv, list: Seq<(Seq<char>, Entry)>)
    ensures
        roles_known(chat_request(body).items_or_none("messages"@)),
        roles_known(with_fetch(minimax_chat(config, body, list)).items_or_none("messages"@)),
{
    lemma_raw_roles(body);
    lemma_prepared_roles(raw_messages(body));
    law_request_conversation(body);
    let ready = minimax_body(body, list);
    lemma_raw_roles(ready);
    lemma_prepared_roles(raw_messages(ready));
    lemma_minimax_messages(config, body, list);
    lemma_hint_roles(prepared(raw_messages(ready)));
}

// ─── The last word ─────────────────────────────────────────────────────────

/// Whether a message says a text as the user, at the end of what it says.
pub open spec fn ends_with_text(m: Jv, text: Seq<char>) -> bool {
    m.text_at("role"@) == Some("user"@) && (m.text_at("content"@) matches Some(content)
        && text.is_suffix_of(content))
}

proof fn lemma_filter_last(s: Seq<Jv>, p: spec_fn(Jv) -> bool)
    requires
        s.len() > 0,
        p(s.last()),
    ensures
        s.filter(p).len() > 0,
        s.filter(p).last() == s.last(),
{
    reveal(Seq::filter);
}

proof fn lemma_repaired_last(done: Seq<Jv>, rest: Seq<Jv>)
    requires
        rest.len() > 0,
        !is_tool(rest.last()),
        !is_caller(rest.last()),
    ensures
        repaired(done, rest).len() > 0,
        repaired(done, rest).last() == rest.last(),
    decreases rest.len(),
{
    let m = rest[0];
    let tail = rest.skip(1);
    if rest.len() == 1 {
        assert(m == rest.last());
        assert(repaired(done.push(m), tail) == done.push(m));
    } else if is_caller(m) {
        let p = |x: Jv| !answers(m, x);
        tail.lemma_filter_len(p);
        lemma_filter_last(tail, p);
        lemma_repaired_last(
            done.push(m) + tail.filter(|x: Jv| answers(m, x)),
            tail.filter(p),
        );
    } else if is_tool(m) {
        match last_caller(done) {
            Some(i) => lemma_repaired_last(done.insert(results_end(done, i + 1), m), tail),
            None => lemma_repaired_last(done, tail),
        }
    } else {
        lemma_repaired_last(done.push(m), tail);
    }
}

proof fn lemma_prepared_last(ms: Seq<Jv>, text: Seq<char>)
    requires
        ms.len() > 0,
        ms.last() == user_message(text),
    ensures
        prepared(ms).len() > 0,
        ends_with_text(prepared(ms).last(), text),
{
    lemma_roles_differ();
    let said = user_message(text);
    assert(said.text_at("role"@) == Some("user"@) && said.text_at("content"@) == Some(text));
    lemma_repaired_last(Seq::empty(), ms);
    let fixed = repaired(Seq::empty(), ms);
    let before = merged(fixed.drop_last());
    let joined = merged(fixed);
    assert(text.is_suffix_of(text)) by {
        assert(text.skip(0) =~= text);
    }
    if before.len() > 0 && joins(before.last(), said) {
        let p = with_paragraph(before.last(), said);
        let old_text = before.last().text_or("content"@, ""@);
        let content = old_text + "\n\n"@ + text;
        assert(p.text_at("role"@) == Some("user"@));
        assert(p.text_at("content"@) == Some(content));
        assert(content.subrange(content.len() - text.len(), content.len() as int) =~= text);
    }
    assert(ends_with_text(joined.last(), text));
    assert(!is_tool(joined.last()));
    let cut = truncated(joined);
    assert(cut.last() == joined.last());
    law_trimmed_fits(cut);
    lemma_prepared_is_trimmed(ms);
    let r = trimmed_messages(cut);
    if r != cut {
        lemma_trimmed_last(cut);
    }
}

proof fn lemma_trimmed_last(ms: Seq<Jv>)
    requires
        ms.len() > MAX_MESSAGES,
        !is_tool(ms.last()),
    ensures
        trimmed_messages(ms).last() == ms.last(),
{
    let from = ms.len() - (MAX_MESSAGES - 3);
    lemma_leading_last(ms.skip(from));
}

proof fn lemma_leading_last(ms: Seq<Jv>)
    requires
        ms.len() > 0,
        !is_tool(ms.last()),
    ensures
        without_leading_tools(ms).len() > 0,
        without_leading_tools(ms).last() == ms.last(),
    decreases ms.len(),
{
    if is_tool(ms[0]) {
        lemma_leading_last(ms.skip(1));
    }
}

/// The message that a text item makes.
proof fn lemma_text_item(draft: Draft, text: Seq<char>)
    ensures
        draft.item(text_item(text)).messages.last() == user_message(text),
        draft.item(text_item(text)).messages.len() > 0,
        draft.item(text_item(text)).calls.len() == 0,
{
    reveal_strlit("type");
    reveal_strlit("role");
    reveal_strlit("content");
    reveal_strlit("text");
    reveal_strlit("user");
    reveal_strlit("system");
    reveal_strlit("developer");
    assert("type"@.len() == 4 && "role"@.len() == 4 && "content"@.len() == 7 && "text"@.len() == 4
        && "user"@.len() == 4 && "system"@.len() == 6 && "developer"@.len() == 9);
    assert("type"@[1] == 'y' && "role"@[1] == 'o' && "text"@[1] == 'e');
    let item = text_item(text);
    assert(item.text_or("type"@, ""@) == "message"@);
    assert(item.text_or("role"@, "user"@) == "user"@);
    let blocks = item.get("content"@)->0->Array_0;
    let mapped = blocks.map_values(|b: Jv| chat_block(b));
    assert(mapped.len() == 1);
    assert(mapped[0].text_at("type"@) == Some("text"@));
    assert(mapped[0].text_at("text"@) == Some(text));
    assert(chat_content(item.get("content"@)) == Jv::Str(text));
}

/// A model that has only made tool calls for too long is told to stop in what goes to MiniMax: a
/// user message says so at its end, and nothing comes behind it but the word on `web_fetch`.
pub proof fn law_nudge_reaches_the_model(config: Config, body: Jv, list: Seq<(Seq<char>, Entry)>)
    requires
        count_before(list, body.text_at("previous_response_id"@)) >= MAX_CONSECUTIVE_TOOL_CALLS,
    ensures
        ({
            let said = minimax_chat(config, body, list).items_or_none("messages"@);
            let sent = with_fetch(minimax_chat(config, body, list)).items_or_none("messages"@);
            let count = count_before(list, body.text_at("previous_response_id"@));
            &&& said.len() > 0
            &&& ends_with_text(said.last(), nudge_text(count))
            &&& sent == said || sent == said.push(user_message(hint()))
        }),
{
    let count = count_before(list, body.text_at("previous_response_id"@));
    let text = nudge_text(count);
    let told = with_history(body, list, "minimax"@);
    let ready = minimax_body(body, list);
    reveal_strlit("input");
    reveal_strlit("instructions");
    reveal_strlit("previous_response_id");
    assert("input"@.len() == 5 && "instructions"@.len() == 12 && "previous_response_id"@.len() == 20);
    assert(body is Object);
    assert(told is Object);
    let items = input_items(told.get_or("input"@, Jv::Null)).push(text_item(text));
    assert(ready.get("input"@) == Some(Jv::Array(items)));
    let opening = match ready.text_at("instructions"@) {
        Some(instructions) => seq![instructions_message(instructions)],
        None => Seq::empty(),
    };
    let draft = Draft { messages: opening, calls: Seq::empty() };
    assert(items.drop_last() =~= input_items(told.get_or("input"@, Jv::Null)));
    lemma_text_item(draft.items(items.drop_last()), text);
    lemma_prepared_last(raw_messages(ready), text);
    lemma_minimax_messages(config, body, list);
}

} // verus!
