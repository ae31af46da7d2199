//! What every normalized transcript satisfies: no failed assistant turn is
//! left in it, and every tool call of an assistant turn is answered by a
//! tool result before the next user or assistant turn.

use vstd::prelude::*;
use crate::messages::{MessageView, ModelView};
use crate::transform::{
    close_pending, downgrade_message, downgrade_spec, failed_turn, first_pass_spec, first_pass_upto, missing_result,
    missing_results_upto, repair_spec, repair_step, repair_upto, replace_images_spec, replace_images_upto,
    tool_calls_upto, transform_spec, RepairState,
};
use crate::types::{UserContentView, UserMessageContentView};

verus! {

/// User and assistant messages open a turn; tool results and system
/// messages do not.
pub open spec fn is_turn<U>(m: MessageView<U>) -> bool {
    m is User || m is Assistant
}

/// `(id, name)` of the tool calls of an assistant message.
pub open spec fn calls_of<U>(m: MessageView<U>) -> Seq<(Seq<char>, Seq<char>)> {
    match m {
        MessageView::Assistant(a) => tool_calls_upto(a.content, a.content.len() as int),
        _ => Seq::empty(),
    }
}

pub open spec fn result_for<U>(m: MessageView<U>, id: Seq<char>) -> bool {
    m matches MessageView::ToolResult(t) && t.tool_call_id == id
}

/// A result for `id` follows position `p` before any other turn starts.
pub open spec fn answered_after<U>(ms: Seq<MessageView<U>>, p: int, id: Seq<char>) -> bool {
    exists|q: int|
        #![trigger result_for(ms[q], id)]
        p < q < ms.len() && result_for(ms[q], id) && forall|r: int| p < r < q ==> !is_turn(#[trigger] ms[r])
}

/// Every call of the message at `p` is answered in its turn.
pub open spec fn calls_answered<U>(ms: Seq<MessageView<U>>, p: int) -> bool {
    forall|k: int| 0 <= k < calls_of(ms[p]).len() ==> #[trigger] answered_after(ms, p, calls_of(ms[p])[k].0)
}

pub open spec fn no_failed_turns<U>(ms: Seq<MessageView<U>>) -> bool {
    forall|p: int| 0 <= p < ms.len() ==> !(#[trigger] ms[p] matches MessageView::Assistant(a) && failed_turn(a.stop_reason))
}

pub open spec fn all_calls_answered<U>(ms: Seq<MessageView<U>>) -> bool {
    forall|p: int| 0 <= p < ms.len() ==> #[trigger] calls_answered(ms, p)
}

/// The assistant turn at `p0` is the one whose calls are pending.
pub open spec fn is_open<U>(st: RepairState<U>, p0: int) -> bool {
    &&& 0 <= p0 < st.result.len()
    &&& st.result[p0] is Assistant
    &&& calls_of(st.result[p0]) == st.pending
    &&& forall|r: int| p0 < r < st.result.len() ==> !is_turn(#[trigger] st.result[r])
    &&& forall|id: Seq<char>|
        #[trigger] st.answered.contains(id) ==> exists|q: int|
            p0 < q < st.result.len() && #[trigger] result_for(st.result[q], id)
}

pub open spec fn repair_inv<U>(st: RepairState<U>) -> bool {
    &&& no_failed_turns(st.result)
    &&& forall|m: int| 0 <= m < st.held.len() ==> (#[trigger] st.held[m]) is System
    &&& st.held.len() > 0 ==> st.pending.len() > 0
    &&& forall|p: int|
        0 <= p < st.result.len() ==> #[trigger] calls_answered(st.result, p) || (st.pending.len() > 0 && is_open(st, p))
    &&& st.pending.len() > 0 ==> exists|p0: int| is_open(st, p0)
}

proof fn lemma_answered_extend<U>(ms: Seq<MessageView<U>>, extra: Seq<MessageView<U>>, p: int, id: Seq<char>)
    requires
        0 <= p,
        answered_after(ms, p, id),
    ensures
        answered_after(ms + extra, p, id),
{
    let q = choose|q: int|
        #![trigger result_for(ms[q], id)]
        p < q < ms.len() && result_for(ms[q], id) && forall|r: int| p < r < q ==> !is_turn(#[trigger] ms[r]);
    assert(p < q < ms.len());
    let all = ms + extra;
    assert(all[q] == ms[q]);
    assert forall|r: int| p < r < q implies !is_turn(#[trigger] all[r]) by {
        assert(all[r] == ms[r]);
    }
    assert(result_for(all[q], id));
}

proof fn lemma_closed_extend<U>(ms: Seq<MessageView<U>>, extra: Seq<MessageView<U>>, p: int)
    requires
        0 <= p < ms.len(),
        calls_answered(ms, p),
    ensures
        calls_answered(ms + extra, p),
{
    let all = ms + extra;
    assert(all[p] == ms[p]);
    assert forall|k: int| 0 <= k < calls_of(all[p]).len() implies #[trigger] answered_after(all, p, calls_of(all[p])[k].0) by {
        assert(answered_after(ms, p, calls_of(ms[p])[k].0));
        lemma_answered_extend(ms, extra, p, calls_of(ms[p])[k].0);
    }
}

/// The stand-ins are tool results, one for each pending call not answered.
proof fn lemma_missing<U>(
    pending: Seq<(Seq<char>, Seq<char>)>,
    answered: Set<Seq<char>>,
    now: i64,
    k: int,
)
    requires
        0 <= k <= pending.len(),
    ensures
        forall|j: int| 0 <= j < missing_results_upto::<U>(pending, answered, now, k).len() ==> (#[trigger] missing_results_upto::<U>(pending, answered, now, k)[j]) is ToolResult,
        forall|j: int| 0 <= j < k && !answered.contains(#[trigger] pending[j].0) ==> exists|q: int|
            0 <= q < missing_results_upto::<U>(pending, answered, now, k).len() && #[trigger] result_for(
                missing_results_upto::<U>(pending, answered, now, k)[q],
                pending[j].0,
            ),
    decreases k,
{
    if k > 0 {
        lemma_missing::<U>(pending, answered, now, k - 1);
        let prev = missing_results_upto::<U>(pending, answered, now, k - 1);
        let cur = missing_results_upto::<U>(pending, answered, now, k);
        if !answered.contains(pending[k - 1].0) {
            assert(cur == prev.push(missing_result::<U>(pending[k - 1].0, pending[k - 1].1, now)));
            assert forall|j: int| 0 <= j < k && !answered.contains(#[trigger] pending[j].0) implies exists|q: int|
                0 <= q < cur.len() && #[trigger] result_for(cur[q], pending[j].0) by {
                if j < k - 1 {
                    let q = choose|q: int| 0 <= q < prev.len() && #[trigger] result_for(prev[q], pending[j].0);
                    assert(cur[q] == prev[q]);
                    assert(result_for(cur[q], pending[j].0));
                } else {
                    assert(result_for(cur[prev.len() as int], pending[j].0));
                }
            }
        }
    }
}

proof fn lemma_close<U>(st: RepairState<U>, now: i64)
    requires
        repair_inv(st),
    ensures
        repair_inv(close_pending(st, now)),
        close_pending(st, now).pending.len() == 0,
        close_pending(st, now).held.len() == 0,
        close_pending(st, now).result.len() >= st.result.len(),
        forall|p: int| 0 <= p < st.result.len() ==> close_pending(st, now).result[p] == st.result[p],
{
    let c = close_pending(st, now);
    if st.pending.len() > 0 {
        let p0 = choose|p0: int| is_open(st, p0);
        let missing = missing_results_upto::<U>(st.pending, st.answered, now, st.pending.len() as int);
        lemma_missing::<U>(st.pending, st.answered, now, st.pending.len() as int);
        let mid = st.result + missing;
        assert(c.result == mid + st.held);
        // Every position of the old result: closed, or the open turn, which closes now.
        assert forall|p: int| 0 <= p < mid.len() implies #[trigger] calls_answered(mid, p) by {
            if p < st.result.len() {
                if calls_answered(st.result, p) {
                    lemma_closed_extend(st.result, missing, p);
                } else {
                    assert(is_open(st, p));
                    assert(p == p0) by {
                        if p < p0 {
                            assert(!is_turn(st.result[p0]));
                        } else if p > p0 {
                            assert(!is_turn(st.result[p]));
                        }
                    }
                    assert forall|k: int| 0 <= k < calls_of(mid[p]).len() implies #[trigger] answered_after(
                        mid,
                        p,
                        calls_of(mid[p])[k].0,
                    ) by {
                        assert(mid[p] == st.result[p]);
                        let id = st.pending[k].0;
                        assert(calls_of(mid[p])[k].0 == id);
                        if st.answered.contains(id) {
                            let q = choose|q: int| p0 < q < st.result.len() && #[trigger] result_for(st.result[q], id);
                            assert(mid[q] == st.result[q]);
                            assert(result_for(mid[q], id));
                            assert forall|r: int| p < r < q implies !is_turn(#[trigger] mid[r]) by {
                                assert(mid[r] == st.result[r]);
                            }
                        } else {
                            let q = choose|q: int| 0 <= q < missing.len() && #[trigger] result_for(missing[q], st.pending[k].0);
                            let qq = st.result.len() + q;
                            assert(mid[qq] == missing[q]);
                            assert(result_for(mid[qq], id));
                            assert forall|r: int| p < r < qq implies !is_turn(#[trigger] mid[r]) by {
                                if r < st.result.len() {
                                    assert(mid[r] == st.result[r]);
                                } else {
                                    assert(mid[r] == missing[r - st.result.len()]);
                                }
                            }
                        }
                    }
                }
            } else {
                assert(mid[p] == missing[p - st.result.len()]);
                assert(calls_of(mid[p]).len() == 0);
            }
        }
        assert forall|p: int| 0 <= p < c.result.len() implies #[trigger] calls_answered(c.result, p) by {
            if p < mid.len() {
                lemma_closed_extend(mid, st.held, p);
            } else {
                assert(c.result[p] == st.held[p - mid.len()]);
                assert(calls_of(c.result[p]).len() == 0);
            }
        }
        assert forall|p: int| 0 <= p < c.result.len() implies !(#[trigger] c.result[p] matches MessageView::Assistant(
            a,
        ) && failed_turn(a.stop_reason)) by {
            if p < st.result.len() {
                assert(c.result[p] == st.result[p]);
            } else if p < mid.len() {
                assert(c.result[p] == missing[p - st.result.len()]);
            } else {
                assert(c.result[p] == st.held[p - mid.len()]);
            }
        }
        assert forall|p: int| 0 <= p < st.result.len() implies c.result[p] == st.result[p] by {
            assert(c.result[p] == mid[p]);
        }
    } else {
        assert(st.held.len() == 0);
        assert(c.result =~= st.result);
    }
}

proof fn lemma_step<U>(st: RepairState<U>, m: MessageView<U>, now: i64)
    requires
        repair_inv(st),
    ensures
        repair_inv(repair_step(st, m, now)),
{
    let n = repair_step(st, m, now);
    match m {
        MessageView::Assistant(a) => {
            lemma_close(st, now);
            let c = close_pending(st, now);
            if !failed_turn(a.stop_reason) {
                let calls = tool_calls_upto(a.content, a.content.len() as int);
                let r = c.result.push(m);
                assert(n.result == r);
                assert forall|p: int| 0 <= p < c.result.len() implies #[trigger] calls_answered(r, p) by {
                    assert(calls_answered(c.result, p));
                    lemma_closed_extend(c.result, seq![m], p);
                    assert(c.result + seq![m] == r);
                }
                let p0 = c.result.len() as int;
                if calls.len() > 0 {
                    assert(is_open(n, p0)) by {
                        assert(r[p0] == m);
                    }
                } else {
                    assert(calls_answered(r, p0)) by {
                        assert(r[p0] == m);
                    }
                }
                assert forall|p: int| 0 <= p < r.len() implies !(#[trigger] r[p] matches MessageView::Assistant(
                    b,
                ) && failed_turn(b.stop_reason)) by {
                    if p < c.result.len() {
                        assert(r[p] == c.result[p]);
                    }
                }
            }
        },
        MessageView::ToolResult(t) => {
            let r = st.result.push(m);
            assert forall|p: int| 0 <= p < r.len() implies #[trigger] calls_answered(r, p) || (st.pending.len() > 0
                && is_open(n, p)) by {
                if p < st.result.len() {
                    assert(r[p] == st.result[p]);
                    if calls_answered(st.result, p) {
                        lemma_closed_extend(st.result, seq![m], p);
                        assert(st.result + seq![m] == r);
                    } else {
                        assert(is_open(st, p));
                        assert forall|id: Seq<char>| #[trigger] n.answered.contains(id) implies exists|q: int|
                            p < q < r.len() && #[trigger] result_for(r[q], id) by {
                            if id == t.tool_call_id {
                                assert(result_for(r[st.result.len() as int], id));
                            } else {
                                let q = choose|q: int| p < q < st.result.len() && #[trigger] result_for(st.result[q], id);
                                assert(r[q] == st.result[q]);
                                assert(result_for(r[q], id));
                            }
                        }
                        assert forall|x: int| p < x < r.len() implies !is_turn(#[trigger] r[x]) by {
                            if x < st.result.len() {
                                assert(r[x] == st.result[x]);
                            }
                        }
                    }
                } else {
                    assert(calls_of(r[p]).len() == 0);
                }
            }
            if st.pending.len() > 0 {
                let p0 = choose|p0: int| is_open(st, p0);
                assert(!calls_answered(st.result, p0) || calls_answered(st.result, p0));
                assert(is_open(n, p0)) by {
                    assert(r[p0] == st.result[p0]);
                    assert forall|id: Seq<char>| #[trigger] n.answered.contains(id) implies exists|q: int|
                        p0 < q < r.len() && #[trigger] result_for(r[q], id) by {
                        if id == t.tool_call_id {
                            assert(result_for(r[st.result.len() as int], id));
                        } else {
                            let q = choose|q: int| p0 < q < st.result.len() && #[trigger] result_for(st.result[q], id);
                            assert(r[q] == st.result[q]);
                            assert(result_for(r[q], id));
                        }
                    }
                    assert forall|x: int| p0 < x < r.len() implies !is_turn(#[trigger] r[x]) by {
                        if x < st.result.len() {
                            assert(r[x] == st.result[x]);
                        }
                    }
                }
            }
            assert forall|p: int| 0 <= p < r.len() implies !(#[trigger] r[p] matches MessageView::Assistant(
                b,
            ) && failed_turn(b.stop_reason)) by {
                if p < st.result.len() {
                    assert(r[p] == st.result[p]);
                }
            }
        },
        MessageView::System(_) => {
            if st.pending.len() > 0 {
                let p0 = choose|p0: int| is_open(st, p0);
                assert(is_open(n, p0));
                assert forall|x: int| 0 <= x < n.held.len() implies (#[trigger] n.held[x]) is System by {
                    if x < st.held.len() {
                        assert(n.held[x] == st.held[x]);
                    }
                }
            } else {
                let r = st.result.push(m);
                assert forall|p: int| 0 <= p < r.len() implies #[trigger] calls_answered(r, p) by {
                    if p < st.result.len() {
                        assert(calls_answered(st.result, p));
                        lemma_closed_extend(st.result, seq![m], p);
                        assert(st.result + seq![m] == r);
                    } else {
                        assert(calls_of(r[p]).len() == 0);
                    }
                }
                assert forall|p: int| 0 <= p < r.len() implies !(#[trigger] r[p] matches MessageView::Assistant(
                    b,
                ) && failed_turn(b.stop_reason)) by {
                    if p < st.result.len() {
                        assert(r[p] == st.result[p]);
                    }
                }
            }
        },
        MessageView::User(_) => {
            lemma_close(st, now);
            let c = close_pending(st, now);
            let r = c.result.push(m);
            assert forall|p: int| 0 <= p < r.len() implies #[trigger] calls_answered(r, p) by {
                if p < c.result.len() {
                    assert(calls_answered(c.result, p));
                    lemma_closed_extend(c.result, seq![m], p);
                    assert(c.result + seq![m] == r);
                } else {
                    assert(calls_of(r[p]).len() == 0);
                }
            }
            assert forall|p: int| 0 <= p < r.len() implies !(#[trigger] r[p] matches MessageView::Assistant(
                b,
            ) && failed_turn(b.stop_reason)) by {
                if p < c.result.len() {
                    assert(r[p] == c.result[p]);
                }
            }
        },
    }
}

proof fn lemma_repair_inv<U>(ms: Seq<MessageView<U>>, now: i64, i: int)
    requires
        0 <= i <= ms.len(),
    ensures
        repair_inv(repair_upto(ms, now, i)),
    decreases i,
{
    if i > 0 {
        lemma_repair_inv(ms, now, i - 1);
        lemma_step(repair_upto(ms, now, i - 1), ms[i - 1], now);
    }
}

/// Repairing a transcript leaves no errored or aborted assistant turn, and
/// answers every tool call of a kept turn before the next user or assistant
/// turn.
pub proof fn lemma_repair_answers_every_call<U>(ms: Seq<MessageView<U>>, now: i64)
    ensures
        no_failed_turns(repair_spec(ms, now)),
        all_calls_answered(repair_spec(ms, now)),
{
    lemma_repair_inv(ms, now, ms.len() as int);
    let st = repair_upto(ms, now, ms.len() as int);
    lemma_close(st, now);
    let out = close_pending(st, now).result;
    assert forall|p: int| 0 <= p < out.len() implies #[trigger] calls_answered(out, p) by {
        assert(calls_answered(out, p) || (close_pending(st, now).pending.len() > 0 && is_open(close_pending(st, now), p)));
    }
}

/// A transcript normalized for any model, with any normalizer answers and
/// stand-in time, has no failed assistant turn, and every tool call is
/// answered before the next user or assistant turn.
pub proof fn lemma_transform_answers_every_call<U>(
    ms: Seq<MessageView<U>>,
    model: ModelView,
    answers: Option<Seq<Seq<char>>>,
    now: i64,
)
    ensures
        no_failed_turns(transform_spec(ms, model, answers, now)),
        all_calls_answered(transform_spec(ms, model, answers, now)),
{
    lemma_repair_answers_every_call(
        crate::transform::first_pass_spec(crate::transform::downgrade_spec(ms, model.supports_images()), model, answers),
        now,
    );
}

// ---------------------------------------------------------------------------
// Images
// ---------------------------------------------------------------------------

pub open spec fn has_image(c: Seq<UserContentView>) -> bool {
    exists|i: int| 0 <= i < c.len() && (#[trigger] c[i]) is Image
}

/// The message carries no image a user or a tool sent.
pub open spec fn image_free<U>(m: MessageView<U>) -> bool {
    match m {
        MessageView::User(u) => match u.content {
            UserMessageContentView::Blocks(b) => !has_image(b),
            UserMessageContentView::Text(_) => true,
        },
        MessageView::ToolResult(t) => !has_image(t.content),
        _ => true,
    }
}

pub open spec fn all_image_free<U>(ms: Seq<MessageView<U>>) -> bool {
    forall|i: int| 0 <= i < ms.len() ==> #[trigger] image_free(ms[i])
}

proof fn lemma_replace_has_no_image(c: Seq<UserContentView>, ph: Seq<char>, k: int)
    requires
        0 <= k <= c.len(),
    ensures
        !has_image(replace_images_upto(c, ph, k).0),
    decreases k,
{
    if k > 0 {
        lemma_replace_has_no_image(c, ph, k - 1);
        let prev = replace_images_upto(c, ph, k - 1).0;
        let cur = replace_images_upto(c, ph, k).0;
        assert forall|i: int| 0 <= i < cur.len() implies !((#[trigger] cur[i]) is Image) by {
            if i < prev.len() {
                assert(cur[i] == prev[i]);
            }
        }
    }
}

proof fn lemma_downgrade_image_free<U>(ms: Seq<MessageView<U>>)
    ensures
        all_image_free(downgrade_spec(ms, false)),
{
    let d = downgrade_spec(ms, false);
    assert forall|i: int| 0 <= i < d.len() implies #[trigger] image_free(d[i]) by {
        assert(d[i] == downgrade_message(ms[i]));
        match ms[i] {
            MessageView::User(u) => match u.content {
                UserMessageContentView::Blocks(b) => {
                    lemma_replace_has_no_image(b, crate::transform::NON_VISION_USER_IMAGE_PLACEHOLDER@, b.len() as int);
                },
                _ => {},
            },
            MessageView::ToolResult(t) => {
                lemma_replace_has_no_image(
                    t.content,
                    crate::transform::NON_VISION_TOOL_IMAGE_PLACEHOLDER@,
                    t.content.len() as int,
                );
            },
            _ => {},
        }
    }
}

proof fn lemma_first_pass_image_free<U>(
    ms: Seq<MessageView<U>>,
    model: ModelView,
    answers: Option<Seq<Seq<char>>>,
    i: int,
)
    requires
        0 <= i <= ms.len(),
        all_image_free(ms),
    ensures
        all_image_free(first_pass_upto(ms, model, answers, i).0),
        first_pass_upto(ms, model, answers, i).0.len() == i,
    decreases i,
{
    if i > 0 {
        lemma_first_pass_image_free(ms, model, answers, i - 1);
        let prev = first_pass_upto(ms, model, answers, i - 1).0;
        let cur = first_pass_upto(ms, model, answers, i).0;
        assert(image_free(ms[i - 1]));
        assert forall|j: int| 0 <= j < cur.len() implies #[trigger] image_free(cur[j]) by {
            if j < prev.len() {
                assert(cur[j] == prev[j]);
            }
        }
    }
}

pub open spec fn repair_image_inv<U>(st: RepairState<U>) -> bool {
    &&& all_image_free(st.result)
    &&& all_image_free(st.held)
}

proof fn lemma_repair_image_free<U>(ms: Seq<MessageView<U>>, now: i64, i: int)
    requires
        0 <= i <= ms.len(),
        all_image_free(ms),
    ensures
        repair_image_inv(repair_upto(ms, now, i)),
        repair_image_inv(close_pending(repair_upto(ms, now, i), now)),
    decreases i,
{
    if i > 0 {
        lemma_repair_image_free(ms, now, i - 1);
        let st = repair_upto(ms, now, i - 1);
        let c = close_pending(st, now);
        assert(image_free(ms[i - 1]));
        let n = repair_upto(ms, now, i);
        assert forall|j: int| 0 <= j < n.result.len() implies #[trigger] image_free(n.result[j]) by {
            if j < st.result.len() && n.result[j] == st.result[j] {
            } else if j < c.result.len() && n.result[j] == c.result[j] {
            } else {
            }
        }
        assert forall|j: int| 0 <= j < n.held.len() implies #[trigger] image_free(n.held[j]) by {
            if j < st.held.len() {
            }
        }
    }
    let st = repair_upto(ms, now, i);
    let c = close_pending(st, now);
    if st.pending.len() > 0 {
        let missing = missing_results_upto::<U>(st.pending, st.answered, now, st.pending.len() as int);
        lemma_missing_image_free::<U>(st.pending, st.answered, now, st.pending.len() as int);
        assert forall|j: int| 0 <= j < c.result.len() implies #[trigger] image_free(c.result[j]) by {
            if j < st.result.len() {
                assert(c.result[j] == st.result[j]);
            } else if j < st.result.len() + missing.len() {
                assert(c.result[j] == missing[j - st.result.len()]);
            } else {
                assert(c.result[j] == st.held[j - st.result.len() - missing.len()]);
            }
        }
    } else {
        assert forall|j: int| 0 <= j < c.result.len() implies #[trigger] image_free(c.result[j]) by {
            if j < st.result.len() {
                assert(c.result[j] == st.result[j]);
            } else {
                assert(c.result[j] == st.held[j - st.result.len()]);
            }
        }
    }
}

proof fn lemma_missing_image_free<U>(
    pending: Seq<(Seq<char>, Seq<char>)>,
    answered: Set<Seq<char>>,
    now: i64,
    k: int,
)
    requires
        0 <= k <= pending.len(),
    ensures
        all_image_free(missing_results_upto::<U>(pending, answered, now, k)),
    decreases k,
{
    if k > 0 {
        lemma_missing_image_free::<U>(pending, answered, now, k - 1);
        let prev = missing_results_upto::<U>(pending, answered, now, k - 1);
        let cur = missing_results_upto::<U>(pending, answered, now, k);
        assert forall|j: int| 0 <= j < cur.len() implies #[trigger] image_free(cur[j]) by {
            if j < prev.len() {
                assert(cur[j] == prev[j]);
            } else {
                let m = missing_result::<U>(pending[k - 1].0, pending[k - 1].1, now);
                assert(cur[j] == m);
                assert(!has_image(seq![crate::transform::text_block(crate::transform::MISSING_TOOL_RESULT_TEXT@)]));
            }
        }
    }
}

/// A model without vision receives no image: every image a user or a tool
/// sent is replaced by a text placeholder.
pub proof fn lemma_text_models_get_no_images<U>(
    ms: Seq<MessageView<U>>,
    model: ModelView,
    answers: Option<Seq<Seq<char>>>,
    now: i64,
)
    requires
        !model.supports_images(),
    ensures
        all_image_free(transform_spec(ms, model, answers, now)),
{
    let d = downgrade_spec(ms, false);
    lemma_downgrade_image_free(ms);
    lemma_first_pass_image_free(d, model, answers, d.len() as int);
    let f = first_pass_spec(d, model, answers);
    lemma_repair_image_free(f, now, f.len() as int);
}

} // verus!
