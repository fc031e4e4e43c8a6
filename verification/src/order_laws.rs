//! A conversation that is in order stays as it is.

use vstd::prelude::*;
use vstd::seq_lib::group_to_multiset_ensures;

use crate::json::Jv;
use crate::message_laws::{
    heard, is_exchange, law_merging_keeps_order, law_repair_keeps_every_result,
    law_repaired_is_well_ordered, lemma_last_caller,
    lemma_results_end, lemma_results_end_is, lemma_roles_differ, well_ordered,
};
use crate::messages::{
    answers, is_afterthought, is_caller, is_tool, joins, last_caller, merge_step, merged, repaired,
    results_end, supersedes, with_paragraph,
};

verus! {

// ─── What holds of every message ───────────────────────────────────────────

/// Whether something holds of every message.
pub open spec fn all_hold(ms: Seq<Jv>, p: spec_fn(Jv) -> bool) -> bool {
    forall|i: int| 0 <= i < ms.len() ==> p(#[trigger] ms[i])
}

proof fn lemma_heard_hold(ms: Seq<Jv>, p: spec_fn(Jv) -> bool)
    requires
        all_hold(ms, p),
    ensures
        all_hold(heard(ms), p),
    decreases ms.len(),
{
    if ms.len() > 0 && !is_caller(ms[0]) {
        assert(p(ms[0]));
        let tail = ms.skip(1);
        assert forall|i: int| 0 <= i < tail.len() implies p(#[trigger] tail[i]) by {
            assert(p(ms[i + 1]));
        }
        lemma_heard_hold(tail, p);
        if !is_tool(ms[0]) {
            let all = seq![ms[0]] + heard(tail);
            assert forall|i: int| 0 <= i < all.len() implies p(#[trigger] all[i]) by {
                if i > 0 {
                    assert(all[i] == heard(tail)[i - 1]);
                }
            }
        }
    }
}

/// What holds of every message holds of every message after the repair.
pub proof fn lemma_repaired_hold(ms: Seq<Jv>, p: spec_fn(Jv) -> bool)
    requires
        all_hold(ms, p),
    ensures
        all_hold(repaired(Seq::empty(), ms), p),
{
    broadcast use group_to_multiset_ensures;

    lemma_heard_hold(ms, p);
    law_repair_keeps_every_result(ms);
    let r = repaired(Seq::empty(), ms);
    assert forall|i: int| 0 <= i < r.len() implies p(#[trigger] r[i]) by {
        assert(r.contains(r[i]));
        assert(r.to_multiset().count(r[i]) > 0);
        assert(heard(ms).contains(r[i]));
    }
}

/// What holds of every message, and of two that are joined, holds of every message after merging.
pub proof fn lemma_merged_hold(ms: Seq<Jv>, p: spec_fn(Jv) -> bool)
    requires
        all_hold(ms, p),
        forall|a: Jv, b: Jv|
            p(a) && p(b) && joins(a, b) ==> p(#[trigger] with_paragraph(a, b)),
    ensures
        all_hold(merged(ms), p),
    decreases ms.len(),
{
    if ms.len() > 0 {
        let head = ms.drop_last();
        assert forall|i: int| 0 <= i < head.len() implies p(#[trigger] head[i]) by {
            assert(p(ms[i]));
        }
        lemma_merged_hold(head, p);
        assert(p(ms[ms.len() - 1]));
        let done = merged(head);
        let next = merge_step(done, ms.last());
        assert forall|i: int| 0 <= i < next.len() implies p(#[trigger] next[i]) by {
            if i < done.len() {
                assert(p(done[i]));
            }
        }
    }
}

// ─── Who claims a tool result ──────────────────────────────────────────────

/// Whether a message makes the call that `x` answers.
pub open spec fn claims(m: Jv, x: Jv) -> bool {
    is_caller(m) && answers(m, x)
}

/// Whether one of the messages makes the call that `x` answers.
pub open spec fn any_claims(ms: Seq<Jv>, x: Jv) -> bool
    decreases ms.len(),
{
    ms.len() > 0 && (claims(ms.last(), x) || any_claims(ms.drop_last(), x))
}

/// Whether one of the messages before the last that makes calls makes the call that `x` answers.
pub open spec fn early_claims(ms: Seq<Jv>, x: Jv) -> bool
    decreases ms.len(),
{
    ms.len() > 0 && (if is_caller(ms.last()) {
        any_claims(ms.drop_last(), x)
    } else {
        early_claims(ms.drop_last(), x)
    })
}

/// Whether a message may stand behind others: a tool result answers at most the last that makes
/// calls, and where it does nothing but other answers to it stands between them.
pub open spec fn fits_behind(before: Seq<Jv>, m: Jv) -> bool {
    is_tool(m) ==> !early_claims(before, m) && (any_claims(before, m) ==> is_caller(before.last())
        || (is_tool(before.last()) && any_claims(before.drop_last(), before.last())))
}

/// Whether every tool result that answers a call stands directly behind it, with nothing but
/// other answers to it between them.
pub open spec fn tidy(ms: Seq<Jv>) -> bool
    decreases ms.len(),
{
    ms.len() > 0 ==> tidy(ms.drop_last()) && fits_behind(ms.drop_last(), ms.last())
}

proof fn lemma_claim(ms: Seq<Jv>, x: Jv, i: int)
    requires
        0 <= i < ms.len(),
        claims(ms[i], x),
    ensures
        any_claims(ms, x),
    decreases ms.len(),
{
    if i < ms.len() - 1 {
        lemma_claim(ms.drop_last(), x, i);
    }
}

proof fn lemma_early_claim(ms: Seq<Jv>, x: Jv, i: int, j: int)
    requires
        0 <= i < j < ms.len(),
        claims(ms[i], x),
        is_caller(ms[j]),
    ensures
        early_claims(ms, x),
    decreases ms.len(),
{
    if is_caller(ms.last()) {
        lemma_claim(ms.drop_last(), x, i);
    } else {
        lemma_early_claim(ms.drop_last(), x, i, j);
    }
}

proof fn lemma_only_claim(ms: Seq<Jv>, x: Jv, i: int)
    requires
        0 <= i < ms.len(),
        is_caller(ms[i]),
        forall|k: int| i < k < ms.len() ==> !is_caller(#[trigger] ms[k]),
        any_claims(ms, x),
        !early_claims(ms, x),
    ensures
        claims(ms[i], x),
    decreases ms.len(),
{
    if i < ms.len() - 1 {
        assert(!is_caller(ms[ms.len() - 1]));
        let head = ms.drop_last();
        assert forall|k: int| i < k < head.len() implies !is_caller(#[trigger] head[k]) by {
            assert(!is_caller(ms[k]));
        }
        lemma_only_claim(head, x, i);
    }
}

/// Messages that make no calls claim nothing, wherever they stand.
proof fn lemma_claims_behind(a: Seq<Jv>, b: Seq<Jv>, x: Jv)
    requires
        forall|k: int| 0 <= k < b.len() ==> !is_caller(#[trigger] b[k]),
    ensures
        any_claims(a + b, x) == any_claims(a, x),
        early_claims(a + b, x) == early_claims(a, x),
    decreases b.len(),
{
    if b.len() == 0 {
        assert(a + b =~= a);
    } else {
        assert(!is_caller(b[b.len() - 1]));
        let head = b.drop_last();
        assert forall|k: int| 0 <= k < head.len() implies !is_caller(#[trigger] head[k]) by {
            assert(!is_caller(b[k]));
        }
        lemma_claims_behind(a, head, x);
        assert((a + b).drop_last() =~= a + head);
    }
}

/// A message that makes no calls claims nothing, wherever it is put.
proof fn lemma_claims_around(ms: Seq<Jv>, e: int, m: Jv, x: Jv)
    requires
        0 <= e <= ms.len(),
        !is_caller(m),
    ensures
        any_claims(ms.insert(e, m), x) == any_claims(ms, x),
        early_claims(ms.insert(e, m), x) == early_claims(ms, x),
    decreases ms.len(),
{
    let all = ms.insert(e, m);
    if e == ms.len() {
        assert(all.drop_last() =~= ms);
    } else {
        lemma_claims_around(ms.drop_last(), e, m, x);
        assert(all.drop_last() =~= ms.drop_last().insert(e, m));
        assert(all.last() == ms.last());
    }
}

proof fn lemma_tidy_at(ms: Seq<Jv>, n: int)
    requires
        tidy(ms),
        0 <= n <= ms.len(),
    ensures
        tidy(ms.take(n)),
        n < ms.len() ==> fits_behind(ms.take(n), ms[n]),
    decreases ms.len(),
{
    if n == ms.len() {
        assert(ms.take(n) =~= ms);
    } else {
        assert(ms.drop_last().take(n) =~= ms.take(n));
        if n == ms.len() - 1 {
            assert(ms.take(n) =~= ms.drop_last());
        } else {
            lemma_tidy_at(ms.drop_last(), n);
        }
    }
}

// ─── The repair makes a conversation tidy ──────────────────────────────────

proof fn lemma_results_tidy(done: Seq<Jv>, caller: Jv, results: Seq<Jv>)
    requires
        tidy(done),
        is_caller(caller),
        forall|i: int|
            0 <= i < results.len() ==> answers(caller, #[trigger] results[i]) && !any_claims(
                done,
                results[i],
            ),
    ensures
        tidy(done.push(caller) + results),
    decreases results.len(),
{
    lemma_roles_differ();
    let placed = done.push(caller);
    if results.len() == 0 {
        assert(placed + results =~= placed);
        assert(placed.drop_last() =~= done);
    } else {
        let head = results.drop_last();
        let x = results.last();
        assert(answers(caller, results[results.len() - 1]));
        assert forall|i: int| 0 <= i < head.len() implies answers(caller, #[trigger] head[i])
            && !any_claims(done, head[i]) by {
            assert(answers(caller, results[i]));
        }
        lemma_results_tidy(done, caller, head);
        let before = placed + head;
        assert((placed + results).drop_last() =~= before);
        assert forall|k: int| 0 <= k < head.len() implies !is_caller(#[trigger] head[k]) by {
            assert(answers(caller, head[k]));
        }
        lemma_claims_behind(placed, head, x);
        assert(placed.drop_last() =~= done);
        assert(!early_claims(before, x));
        if head.len() > 0 {
            let y = head.last();
            assert(answers(caller, head[head.len() - 1]));
            assert(before.last() == y);
            assert(before.drop_last() =~= placed + head.drop_last());
            lemma_claim(before.drop_last(), y, done.len() as int);
        }
    }
}

proof fn lemma_orphan_tidy(done: Seq<Jv>, e: int, m: Jv)
    requires
        tidy(done),
        0 <= e <= done.len(),
        is_tool(m),
        !any_claims(done, m),
        e < done.len() ==> !is_tool(done[e]),
    ensures
        tidy(done.insert(e, m)),
    decreases done.len(),
{
    lemma_roles_differ();
    let all = done.insert(e, m);
    if e == done.len() {
        assert(all.drop_last() =~= done);
        lemma_no_early(done, m);
    } else {
        let head = done.drop_last();
        let y = done.last();
        assert(!any_claims(head, m));
        assert(e < head.len() ==> head[e] == done[e]);
        lemma_orphan_tidy(head, e, m);
        assert(all.drop_last() =~= head.insert(e, m));
        assert(all.last() == y);
        lemma_claims_around(head, e, m, y);
        if is_tool(y) && any_claims(head, y) {
            assert(e < head.len());
            let before = head.insert(e, m);
            assert(before.last() == head.last());
            lemma_claims_around(head.drop_last(), e, m, head.last());
            assert(before.drop_last() =~= head.drop_last().insert(e, m));
        }
    }
}

proof fn lemma_no_early(ms: Seq<Jv>, x: Jv)
    requires
        !any_claims(ms, x),
    ensures
        !early_claims(ms, x),
    decreases ms.len(),
{
    if ms.len() > 0 {
        lemma_no_early(ms.drop_last(), x);
    }
}

spec fn unclaimed(done: Seq<Jv>, rest: Seq<Jv>) -> bool {
    forall|i: int| 0 <= i < rest.len() ==> !any_claims(done, #[trigger] rest[i])
}

proof fn lemma_filter_in(s: Seq<Jv>, p: spec_fn(Jv) -> bool, i: int)
    requires
        0 <= i < s.filter(p).len(),
    ensures
        p(s.filter(p)[i]),
        exists|k: int| 0 <= k < s.len() && #[trigger] s[k] == s.filter(p)[i],
    decreases s.len(),
{
    reveal(Seq::filter);
    if s.len() > 0 {
        let head = s.drop_last();
        if i < head.filter(p).len() {
            lemma_filter_in(head, p, i);
            let k = choose|k: int| 0 <= k < head.len() && #[trigger] head[k] == head.filter(p)[i];
            assert(s[k] == s.filter(p)[i]);
        } else {
            assert(s[s.len() - 1] == s.filter(p)[i]);
        }
    }
}

proof fn lemma_repaired_tidy(done: Seq<Jv>, rest: Seq<Jv>)
    requires
        tidy(done),
        unclaimed(done, rest),
    ensures
        tidy(repaired(done, rest)),
    decreases rest.len(),
{
    if rest.len() > 0 {
        lemma_roles_differ();
        let m = rest[0];
        let tail = rest.skip(1);
        assert(!any_claims(done, rest[0]));
        assert forall|i: int| 0 <= i < tail.len() implies !any_claims(done, #[trigger] tail[i]) by {
            assert(!any_claims(done, rest[i + 1]));
        }
        if is_caller(m) {
            let p = |x: Jv| answers(m, x);
            let q = |x: Jv| !answers(m, x);
            let pulled = tail.filter(p);
            let left = tail.filter(q);
            tail.lemma_filter_len(q);
            let placed = done.push(m);
            let next = placed + pulled;
            assert forall|i: int| 0 <= i < pulled.len() implies answers(m, #[trigger] pulled[i])
                && !any_claims(done, pulled[i]) by {
                lemma_filter_in(tail, p, i);
                let k = choose|k: int| 0 <= k < tail.len() && #[trigger] tail[k] == pulled[i];
                assert(!any_claims(done, tail[k]));
            }
            lemma_results_tidy(done, m, pulled);
            assert forall|i: int| 0 <= i < left.len() implies !any_claims(
                next,
                #[trigger] left[i],
            ) by {
                lemma_filter_in(tail, q, i);
                let k = choose|k: int| 0 <= k < tail.len() && #[trigger] tail[k] == left[i];
                assert(!any_claims(done, tail[k]));
                assert forall|j: int| 0 <= j < pulled.len() implies !is_caller(
                    #[trigger] pulled[j],
                ) by {
                    assert(answers(m, pulled[j]));
                }
                lemma_claims_behind(placed, pulled, left[i]);
                assert(placed.drop_last() =~= done);
            }
            lemma_repaired_tidy(next, left);
        } else if is_tool(m) {
            match last_caller(done) {
                Some(c) => {
                    lemma_last_caller(done);
                    lemma_results_end(done, c + 1);
                    let e = results_end(done, c + 1);
                    lemma_orphan_tidy(done, e, m);
                    let next = done.insert(e, m);
                    assert forall|i: int| 0 <= i < tail.len() implies !any_claims(
                        next,
                        #[trigger] tail[i],
                    ) by {
                        lemma_claims_around(done, e, m, tail[i]);
                    }
                    lemma_repaired_tidy(next, tail);
                },
                None => lemma_repaired_tidy(done, tail),
            }
        } else {
            let next = done.push(m);
            assert(next.drop_last() =~= done);
            lemma_repaired_tidy(next, tail);
        }
    }
}

// ─── The repair leaves a tidy conversation as it is ────────────────────────

/// The answers to a call that stand behind it in a tidy conversation come before everything else.
proof fn lemma_answers_first(done: Seq<Jv>, caller: Jv, tail: Seq<Jv>, j: int)
    requires
        tidy(done.push(caller) + tail),
        is_caller(caller),
        0 <= j < tail.len(),
        answers(caller, tail[j]),
    ensures
        forall|k: int| 0 <= k <= j ==> answers(caller, #[trigger] tail[k]),
    decreases j,
{
    lemma_roles_differ();
    let all = done.push(caller) + tail;
    let d = done.len() as int;
    let n = d + 1 + j;
    let before = all.take(n);
    let x = tail[j];
    lemma_tidy_at(all, n);
    assert(all[n] == x);
    assert(before[d] == caller);
    assert forall|k: int| d < k < before.len() implies !is_caller(#[trigger] before[k]) by {
        if is_caller(before[k]) {
            lemma_early_claim(before, x, d, k);
        }
    }
    lemma_claim(before, x, d);
    if j > 0 {
        let y = tail[j - 1];
        assert(before.last() == y);
        assert(!is_caller(before[n - 1]));
        let shorter = before.drop_last();
        assert(shorter =~= all.take(n - 1));
        lemma_tidy_at(all, n - 1);
        assert(all[n - 1] == y);
        assert(shorter[d] == caller);
        assert forall|k: int| d < k < shorter.len() implies !is_caller(#[trigger] shorter[k]) by {
            assert(!is_caller(before[k]));
        }
        lemma_only_claim(shorter, y, d);
        lemma_answers_first(done, caller, tail, j - 1);
    }
}

/// How many answers to a call a list starts with.
spec fn leading(s: Seq<Jv>, caller: Jv) -> int
    decreases s.len(),
{
    if s.len() > 0 && answers(caller, s[0]) {
        1 + leading(s.skip(1), caller)
    } else {
        0
    }
}

proof fn lemma_leading(s: Seq<Jv>, caller: Jv)
    ensures
        0 <= leading(s, caller) <= s.len(),
        forall|i: int| 0 <= i < leading(s, caller) ==> answers(caller, #[trigger] s[i]),
        leading(s, caller) < s.len() ==> !answers(caller, s[leading(s, caller)]),
    decreases s.len(),
{
    if s.len() > 0 && answers(caller, s[0]) {
        lemma_leading(s.skip(1), caller);
        assert forall|i: int| 0 <= i < leading(s, caller) implies answers(caller, #[trigger] s[i]) by {
            if i > 0 {
                assert(s.skip(1)[i - 1] == s[i]);
            }
        }
    }
}

/// Filtering takes a list apart where what holds of its start holds of nothing behind it.
proof fn lemma_filter_parts(s: Seq<Jv>, n: int, p: spec_fn(Jv) -> bool, q: spec_fn(Jv) -> bool)
    requires
        0 <= n <= s.len(),
        forall|i: int| 0 <= i < n ==> p(#[trigger] s[i]) && !q(s[i]),
        forall|i: int| n <= i < s.len() ==> !p(#[trigger] s[i]) && q(s[i]),
    ensures
        s.filter(p) == s.take(n),
        s.filter(q) == s.skip(n),
{
    let a = s.take(n);
    let b = s.skip(n);
    assert(s =~= a + b);
    Seq::filter_distributes_over_add(a, b, p);
    Seq::filter_distributes_over_add(a, b, q);
    lemma_filter_all(a, p);
    lemma_filter_none(a, q);
    lemma_filter_none(b, p);
    lemma_filter_all(b, q);
    assert(a + Seq::<Jv>::empty() =~= a);
    assert(Seq::<Jv>::empty() + b =~= b);
}

proof fn lemma_filter_all(s: Seq<Jv>, p: spec_fn(Jv) -> bool)
    requires
        forall|i: int| 0 <= i < s.len() ==> p(#[trigger] s[i]),
    ensures
        s.filter(p) == s,
    decreases s.len(),
{
    reveal(Seq::filter);
    if s.len() > 0 {
        assert(p(s[s.len() - 1]));
        let head = s.drop_last();
        assert forall|i: int| 0 <= i < head.len() implies p(#[trigger] head[i]) by {
            assert(p(s[i]));
        }
        lemma_filter_all(head, p);
        assert(head.push(s.last()) =~= s);
    } else {
        assert(s.filter(p) =~= s);
    }
}

proof fn lemma_filter_none(s: Seq<Jv>, q: spec_fn(Jv) -> bool)
    requires
        forall|i: int| 0 <= i < s.len() ==> !q(#[trigger] s[i]),
    ensures
        s.filter(q) == Seq::<Jv>::empty(),
    decreases s.len(),
{
    reveal(Seq::filter);
    if s.len() > 0 {
        assert(!q(s[s.len() - 1]));
        let head = s.drop_last();
        assert forall|i: int| 0 <= i < head.len() implies !q(#[trigger] head[i]) by {
            assert(!q(s[i]));
        }
        lemma_filter_none(head, q);
    } else {
        assert(s.filter(q) =~= Seq::empty());
    }
}

/// In an ordered list that ends with a call or a result, the results of the last caller reach to
/// the end.
proof fn lemma_results_reach_end(ms: Seq<Jv>)
    requires
        well_ordered(ms),
        ms.len() > 0,
        is_exchange(ms.last()),
    ensures
        last_caller(ms) is Some,
        results_end(ms, last_caller(ms)->0 + 1) == ms.len(),
    decreases ms.len(),
{
    lemma_roles_differ();
    if is_caller(ms.last()) {
        lemma_results_end_is(ms, ms.len() as int, ms.len() as int);
    } else {
        let head = ms.drop_last();
        assert(is_tool(ms[ms.len() - 1]));
        assert(is_exchange(ms[ms.len() - 2]));
        assert forall|i: int| 0 <= i < head.len() && is_tool(#[trigger] head[i]) implies i > 0
            && is_exchange(head[i - 1]) by {
            assert(is_tool(ms[i]));
        }
        lemma_results_reach_end(head);
        lemma_last_caller(head);
        let c = last_caller(head)->0;
        lemma_results_end(head, c + 1);
        assert forall|k: int| c + 1 <= k < ms.len() implies is_tool(#[trigger] ms[k]) by {
            if k < head.len() {
                assert(is_tool(head[k]));
            }
        }
        lemma_results_end_is(ms, c + 1, ms.len() as int);
    }
}

/// In a tidy conversation the answers to a call are those that stand directly behind it.
proof fn lemma_pulled(done: Seq<Jv>, caller: Jv, tail: Seq<Jv>) -> (n: int)
    requires
        in_place(done.push(caller) + tail),
        is_caller(caller),
    ensures
        0 <= n <= tail.len(),
        tail.filter(|x: Jv| answers(caller, x)) == tail.take(n),
        tail.filter(|x: Jv| !answers(caller, x)) == tail.skip(n),
{
    reveal(in_place);
    let n = leading(tail, caller);
    lemma_leading(tail, caller);
    assert forall|i: int| n <= i < tail.len() implies !answers(caller, #[trigger] tail[i]) by {
        if answers(caller, tail[i]) {
            lemma_answers_first(done, caller, tail, i);
            assert(answers(caller, tail[n]));
        }
    }
    lemma_filter_parts(tail, n, |x: Jv| answers(caller, x), |x: Jv| !answers(caller, x));
    n
}

/// A tool result of an ordered list stands where the results before it end.
proof fn lemma_place_of_result(done: Seq<Jv>, m: Jv, tail: Seq<Jv>)
    requires
        in_place(done.push(m) + tail),
        is_tool(m),
    ensures
        last_caller(done) matches Some(c) && done.insert(results_end(done, c + 1), m) == done.push(
            m,
        ),
{
    reveal(in_place);
    let all = done.push(m) + tail;
    let n = done.len() as int;
    assert(is_tool(all[n]));
    assert(is_exchange(all[n - 1]));
    assert forall|i: int| 0 <= i < done.len() && is_tool(#[trigger] done[i]) implies i > 0
        && is_exchange(done[i - 1]) by {
        assert(is_tool(all[i]));
        assert(is_exchange(all[i - 1]));
    }
    lemma_results_reach_end(done);
    assert(done.insert(n, m) =~= done.push(m));
}

/// Whether a conversation is in order, with every answer behind its call.
#[verifier::opaque]
spec fn in_place(ms: Seq<Jv>) -> bool {
    well_ordered(ms) && tidy(ms)
}

proof fn lemma_step_of_result(done: Seq<Jv>, rest: Seq<Jv>)
    requires
        in_place(done + rest),
        rest.len() > 0,
        is_tool(rest[0]),
    ensures
        repaired(done, rest) == repaired(done.push(rest[0]), rest.skip(1)),
{
    lemma_roles_differ();
    assert(done + rest =~= done.push(rest[0]) + rest.skip(1));
    lemma_place_of_result(done, rest[0], rest.skip(1));
}

proof fn lemma_step_of_caller(done: Seq<Jv>, rest: Seq<Jv>) -> (next: (Seq<Jv>, Seq<Jv>))
    requires
        in_place(done + rest),
        rest.len() > 0,
        is_caller(rest[0]),
    ensures
        next.1.len() < rest.len(),
        next.0 + next.1 == done + rest,
        repaired(done, rest) == repaired(next.0, next.1),
{
    let m = rest[0];
    let tail = rest.skip(1);
    let placed = done.push(m);
    assert(done + rest =~= placed + tail);
    let n = lemma_pulled(done, m, tail);
    let next = placed + tail.take(n);
    let left = tail.skip(n);
    assert(repaired(done, rest) == repaired(next, left));
    assert(next + left =~= done + rest);
    (next, left)
}

proof fn lemma_repair_leaves(all: Seq<Jv>, done: Seq<Jv>, rest: Seq<Jv>)
    requires
        all == done + rest,
        in_place(all),
    ensures
        repaired(done, rest) == all,
    decreases rest.len(),
{
    if rest.len() == 0 {
        assert(all =~= done);
    } else {
        let placed = done.push(rest[0]);
        let tail = rest.skip(1);
        assert(all =~= placed + tail);
        if is_caller(rest[0]) {
            let (next, left) = lemma_step_of_caller(done, rest);
            lemma_repair_leaves(all, next, left);
        } else {
            lemma_repair_leaves(all, placed, tail);
            if is_tool(rest[0]) {
                lemma_step_of_result(done, rest);
            }
        }
    }
}

/// A conversation in order, with every answer behind its call, is left as it is by the repair.
pub proof fn law_repair_leaves_order(ms: Seq<Jv>)
    requires
        well_ordered(ms),
        tidy(ms),
    ensures
        repaired(Seq::empty(), ms) == ms,
{
    assert(Seq::<Jv>::empty() + ms =~= ms);
    reveal(in_place);
    lemma_repair_leaves(ms, Seq::empty(), ms);
}

/// Repairing twice is repairing once.
pub proof fn law_repair_is_idempotent(ms: Seq<Jv>)
    ensures
        tidy(repaired(Seq::empty(), ms)),
        repaired(Seq::empty(), repaired(Seq::empty(), ms)) == repaired(Seq::empty(), ms),
{
    lemma_repaired_tidy(Seq::empty(), ms);
    law_repaired_is_well_ordered(ms);
    law_repair_leaves_order(repaired(Seq::empty(), ms));
}

// ─── Merging ───────────────────────────────────────────────────────────────

proof fn lemma_merged_claims(ms: Seq<Jv>, x: Jv)
    ensures
        any_claims(merged(ms), x) == any_claims(ms, x),
        early_claims(merged(ms), x) == early_claims(ms, x),
        ms.len() > 0 && is_exchange(ms.last()) ==> merged(ms).len() > 0 && merged(ms).last()
            == ms.last(),
    decreases ms.len(),
{
    if ms.len() > 0 {
        lemma_roles_differ();
        let head = ms.drop_last();
        lemma_merged_claims(head, x);
        let done = merged(head);
        let m = ms.last();
        let next = merged(ms);
        if done.len() > 0 && joins(done.last(), m) {
            let p = with_paragraph(done.last(), m);
            assert(p.get("tool_calls"@) == done.last().get("tool_calls"@));
            assert(p.text_at("role"@) == done.last().text_at("role"@));
            assert(next.drop_last() =~= done.drop_last());
        } else if done.len() > 0 && supersedes(done.last(), m) {
            assert(next.drop_last() =~= done.drop_last());
        } else if done.len() > 0 && is_afterthought(done.last(), m) {
        } else {
            assert(next.drop_last() =~= done);
        }
    }
}

/// Merging keeps a conversation tidy.
pub proof fn law_merging_keeps_tidy(ms: Seq<Jv>)
    requires
        tidy(ms),
        well_ordered(ms),
    ensures
        tidy(merged(ms)),
    decreases ms.len(),
{
    if ms.len() > 0 {
        lemma_roles_differ();
        let head = ms.drop_last();
        assert forall|i: int| 0 <= i < head.len() && is_tool(#[trigger] head[i]) implies i > 0
            && is_exchange(head[i - 1]) by {
            assert(is_tool(ms[i]));
            assert(is_exchange(ms[i - 1]));
        }
        law_merging_keeps_tidy(head);
        let done = merged(head);
        let m = ms.last();
        let next = merged(ms);
        if done.len() > 0 && joins(done.last(), m) {
            let p = with_paragraph(done.last(), m);
            assert(p.text_at("role"@) == done.last().text_at("role"@));
            assert(next.drop_last() =~= done.drop_last());
        } else if done.len() > 0 && supersedes(done.last(), m) {
            assert(next.drop_last() =~= done.drop_last());
        } else if done.len() > 0 && is_afterthought(done.last(), m) {
        } else {
            assert(next.drop_last() =~= done);
            if is_tool(m) {
                assert(is_tool(ms[ms.len() - 1]));
                assert(is_exchange(head.last()));
                lemma_merged_claims(head, m);
                if any_claims(head, m) && !is_caller(head.last()) {
                    let y = head.last();
                    lemma_merged_claims(head.drop_last(), y);
                    assert(done.drop_last() =~= merged(head.drop_last()));
                }
            }
        }
    }
}

/// Whether an assistant message that makes no calls says a text.
pub open spec fn is_spoken(m: Jv) -> bool {
    m.text_at("role"@) == Some("assistant"@) && m.get("tool_calls"@) is None ==> m.text_at(
        "content"@,
    ) is Some
}

/// Whether merging leaves two neighbours side by side.
pub open spec fn stay_apart(a: Jv, b: Jv) -> bool {
    !joins(a, b) && !supersedes(a, b) && !is_afterthought(a, b)
}

/// Whether merging leaves all neighbours side by side.
pub open spec fn all_apart(ms: Seq<Jv>) -> bool {
    forall|i: int| 0 < i < ms.len() ==> stay_apart(ms[i - 1], #[trigger] ms[i])
}

/// After merging a conversation whose assistant messages make calls or say texts, merging has
/// nothing left to do.
pub proof fn law_merged_stays_apart(ms: Seq<Jv>)
    requires
        all_hold(ms, |m: Jv| is_spoken(m)),
    ensures
        all_apart(merged(ms)),
    decreases ms.len(),
{
    if ms.len() > 0 {
        lemma_roles_differ();
        let p = |m: Jv| is_spoken(m);
        let head = ms.drop_last();
        assert forall|i: int| 0 <= i < head.len() implies p(#[trigger] head[i]) by {
            assert(p(ms[i]));
        }
        law_merged_stays_apart(head);
        lemma_spoken_joins();
        lemma_merged_hold(head, p);
        let done = merged(head);
        let m = ms.last();
        assert(p(ms[ms.len() - 1]));
        let next = merge_step(done, m);
        assert forall|i: int| 0 < i < next.len() implies stay_apart(next[i - 1], #[trigger] next[i]) by {
            if i < done.len() - 1 {
                assert(stay_apart(done[i - 1], done[i]));
            } else if i == done.len() - 1 {
                assert(stay_apart(done[i - 1], done[i]));
                assert(p(done[i - 1]));
                assert(p(done[i]));
                if joins(done.last(), m) {
                    let w = with_paragraph(done.last(), m);
                    assert(w.text_at("role"@) == done.last().text_at("role"@));
                    assert(w.get("tool_calls"@) == done.last().get("tool_calls"@));
                    assert(w.text_at("content"@) is Some);
                }
            }
        }
    }
}

proof fn lemma_spoken_joins()
    ensures
        forall|a: Jv, b: Jv|
            is_spoken(a) && is_spoken(b) && joins(a, b) ==> is_spoken(
                #[trigger] with_paragraph(a, b),
            ),
{
    lemma_roles_differ();
    assert forall|a: Jv, b: Jv| is_spoken(a) && is_spoken(b) && joins(a, b) implies is_spoken(
        #[trigger] with_paragraph(a, b),
    ) by {
        let w = with_paragraph(a, b);
        assert(w.text_at("content"@) is Some);
    }
}

/// Merging leaves a conversation as it is whose neighbours stay apart.
pub proof fn law_merging_leaves_apart(ms: Seq<Jv>)
    requires
        all_apart(ms),
    ensures
        merged(ms) == ms,
    decreases ms.len(),
{
    if ms.len() > 0 {
        let head = ms.drop_last();
        assert forall|i: int| 0 < i < head.len() implies stay_apart(head[i - 1], #[trigger] head[i]) by {
            assert(stay_apart(ms[i - 1], ms[i]));
        }
        law_merging_leaves_apart(head);
        if head.len() > 0 {
            assert(stay_apart(ms[ms.len() - 2], ms[ms.len() - 1]));
        }
        assert(head.push(ms.last()) =~= ms);
    } else {
        assert(merged(ms) =~= ms);
    }
}

/// Bringing the messages of a conversation in order twice is doing it once, where every
/// assistant message makes calls or says a text.
pub proof fn law_ordering_is_settled(ms: Seq<Jv>)
    requires
        all_hold(ms, |m: Jv| is_spoken(m)),
    ensures
        ({
            let ordered = merged(repaired(Seq::empty(), ms));
            well_ordered(ordered) && tidy(ordered) && all_apart(ordered)
        }),
{
    let fixed = repaired(Seq::empty(), ms);
    law_repair_is_idempotent(ms);
    law_repaired_is_well_ordered(ms);
    law_merging_keeps_order(fixed);
    law_merging_keeps_tidy(fixed);
    lemma_repaired_hold(ms, |m: Jv| is_spoken(m));
    law_merged_stays_apart(fixed);
}

} // verus!
