//! What holds of the broker, the sessions and the feeds across operations.
use vstd::prelude::*;

use crate::client::{departure, timed_out, ChatClient, SessionState};
use crate::exchange::{usd_value, USD};
use crate::feed::{forwarded, mark_after, PollError};
use crate::media::{lemma_angle_safe_no_script, lemma_inline_media_angle_safe};
use crate::message::{is_paid, Message, MessageView};
use crate::server::{
    accepted, by_time, disconnected, finished, id_index, ids_unique, is_repeat, lemma_id_index,
    lemma_upsert, paid_ids, paid_only, recent, submitted, upsert, view_wf, ServerView,
};
use crate::text::{contains_text, lemma_escape_html_no_angle};

verus! {

/// The paid messages of a sequence are among its messages, are paid, and keep
/// its order by reception time.
pub proof fn lemma_paid_only(s: Seq<MessageView>)
    ensures
        forall|x: MessageView| #[trigger] paid_only(s).contains(x) ==> s.contains(x) && is_paid(x),
        by_time(s) ==> by_time(paid_only(s)),
    decreases s.len(),
{
    if s.len() > 0 {
        let init = s.drop_last();
        lemma_paid_only(init);
        assert forall|x: MessageView| #[trigger] paid_only(s).contains(x) implies s.contains(x)
            && is_paid(x) by {
            if paid_only(init).contains(x) {
                let j = choose|j: int| 0 <= j < init.len() && init[j] == x;
                assert(s[j] == x);
            } else {
                assert(x == s.last());
                assert(s[s.len() - 1] == x);
            }
        }
        if by_time(s) {
            assert(by_time(init)) by {
                assert forall|a: int, b: int| 0 <= a <= b < init.len() implies init[a].received_at
                    <= init[b].received_at by {
                    assert(init[a] == s[a]);
                    assert(init[b] == s[b]);
                }
            }
            let p = paid_only(s);
            let q = paid_only(init);
            if is_paid(s.last()) {
                assert forall|a: int, b: int| 0 <= a <= b < p.len() implies p[a].received_at
                    <= p[b].received_at by {
                    if b == p.len() - 1 && a < b {
                        assert(q.contains(p[a]));
                        let j = choose|j: int| 0 <= j < init.len() && init[j] == p[a];
                        assert(s[j] == p[a]);
                        assert(p[b] == s[s.len() - 1]);
                    } else if b < p.len() - 1 {
                        assert(p[a] == q[a]);
                        assert(p[b] == q[b]);
                    }
                }
            }
        }
    }
}

/// Submitting keeps the broker's state well formed.
pub proof fn lemma_submitted_wf(v: ServerView, m: MessageView)
    requires
        view_wf(v),
    ensures
        view_wf(submitted(v, m)),
{
    if !is_repeat(v, m) {
        lemma_upsert(v.messages, finished(m, v.rates));
    }
}

/// A message submitted with no amount is not paid once finished, and, when it
/// is taken in, no paid message carries its identifier afterwards; when it is
/// dropped as a repeat, nothing changes.
pub proof fn lemma_zero_amount_never_paid(v: ServerView, m: MessageView)
    requires
        view_wf(v),
        m.amount == 0,
    ensures
        !is_paid(finished(m, v.rates)),
        !is_repeat(v, m) ==> forall|x: MessageView| #[trigger]
            paid_only(submitted(v, m).messages).contains(x) ==> x.id != finished(m, v.rates).id,
        is_repeat(v, m) ==> submitted(v, m) == v,
{
    let f = finished(m, v.rates);
    assert(f.amount == 0) by {
        assert(0 * (usd_value(v.rates, USD@, 0) as int) == 0);
    }
    if !is_repeat(v, m) {
        let s = upsert(v.messages, f);
        lemma_upsert(v.messages, f);
        lemma_paid_only(s);
        assert forall|x: MessageView| #[trigger] paid_only(s).contains(x) implies x.id != f.id by {
            if x.id == f.id {
                let a = choose|a: int| 0 <= a < s.len() && s[a] == x;
                let b = choose|b: int| 0 <= b < s.len() && s[b] == f;
                if a < b {
                    assert(s[a].id != s[b].id);
                } else if b < a {
                    assert(s[b].id != s[a].id);
                }
            }
        }
    }
}

/// A message that is taken in is stored in dollars: its amount is the converted
/// amount and its currency is the dollar.
pub proof fn lemma_stored_in_dollars(v: ServerView, m: MessageView)
    requires
        view_wf(v),
        !is_repeat(v, m),
    ensures
        submitted(v, m).messages.contains(finished(m, v.rates)),
        finished(m, v.rates).amount == usd_value(v.rates, m.currency, m.amount),
        finished(m, v.rates).currency == USD@,
{
    lemma_upsert(v.messages, finished(m, v.rates));
}

/// Submitting the same message again leaves one stored copy: the store keeps its
/// size and its identifiers stay unique.
pub proof fn lemma_resubmit_keeps_one(v: ServerView, m: MessageView)
    requires
        view_wf(v),
    ensures
        submitted(submitted(v, m), m).messages.len() == submitted(v, m).messages.len(),
        ids_unique(submitted(submitted(v, m), m).messages),
{
    let v1 = submitted(v, m);
    lemma_submitted_wf(v, m);
    lemma_submitted_wf(v1, m);
    if !is_repeat(v1, m) && !is_repeat(v, m) {
        let f = finished(m, v.rates);
        lemma_upsert(v.messages, f);
        lemma_upsert(v1.messages, f);
        lemma_id_index(v1.messages, f.id);
        let j = choose|j: int| 0 <= j < v1.messages.len() && v1.messages[j] == f;
        assert(v1.messages[j].id == f.id);
    } else if !is_repeat(v1, m) {
        assert(v1 == v);
    }
}

/// The lists a listener gets are ordered by reception time.
pub proof fn lemma_lists_by_time(v: ServerView)
    requires
        view_wf(v),
    ensures
        by_time(recent(v.messages)),
        by_time(paid_only(v.messages)),
{
    lemma_paid_only(v.messages);
    let s = v.messages;
    if s.len() > crate::server::MAX_RECENT {
        let r = recent(s);
        let d = s.len() - crate::server::MAX_RECENT;
        assert forall|a: int, b: int| 0 <= a <= b < r.len() implies r[a].received_at
            <= r[b].received_at by {
            assert(r[a] == s[a + d]);
            assert(r[b] == s[b + d]);
        }
    }
}

/// After an unpaid message, an unpaid message with the same username and body is
/// dropped: it is neither stored nor broadcast.
pub proof fn lemma_unpaid_repeat_dropped(v: ServerView, m1: MessageView, m2: MessageView)
    requires
        usd_value(v.rates, m1.currency, m1.amount) == 0,
        usd_value(v.rates, m2.currency, m2.amount) == 0,
        m1.username == m2.username,
        m1.message == m2.message,
    ensures
        is_repeat(submitted(v, m1), m2),
        submitted(submitted(v, m1), m2) == submitted(v, m1),
{
    if !is_repeat(v, m1) {
        let f = finished(m1, v.rates);
        assert(!is_paid(f));
    }
}

/// Two paid messages in a row are both stored, whatever their content, unless
/// they share an identifier.
pub proof fn lemma_paid_repeat_kept(v: ServerView, m1: MessageView, m2: MessageView)
    requires
        view_wf(v),
        usd_value(v.rates, m1.currency, m1.amount) > 0,
        usd_value(v.rates, m2.currency, m2.amount) > 0,
        finished(m1, v.rates).id != finished(m2, v.rates).id,
    ensures
        submitted(submitted(v, m1), m2).messages.contains(finished(m1, v.rates)),
        submitted(submitted(v, m1), m2).messages.contains(finished(m2, v.rates)),
{
    let v1 = submitted(v, m1);
    let f1 = finished(m1, v.rates);
    let f2 = finished(m2, v.rates);
    lemma_upsert(v.messages, f1);
    lemma_submitted_wf(v, m1);
    lemma_upsert(v1.messages, f2);
    let j = choose|j: int| 0 <= j < v1.messages.len() && v1.messages[j] == f1;
    assert(v1.messages[j].id != f2.id);
}

/// No body that the broker finishes, and so no broadcast chat message, holds
/// `<script>`: the body is escaped before its media are substituted, and the
/// substituted markup opens nothing but an image.
pub proof fn lemma_no_script_in_finished_body(m: MessageView, rates: Seq<(Seq<char>, u64)>)
    ensures
        !contains_text(finished(m, rates).message, "<script>"@),
{
    lemma_escape_html_no_angle(m.message);
    lemma_inline_media_angle_safe(crate::text::escape_html(m.message), m.emojis);
    lemma_angle_safe_no_script(finished(m, rates).message);
}

/// An active session that the broker holds, silent for longer than the timeout,
/// announces its departure; once the broker takes the notice, the session is no longer
/// registered, and no later chat message is broadcast to it.
pub proof fn lemma_silent_session_dropped(c: ChatClient, now: u64, v: ServerView, m: MessageView)
    requires
        view_wf(v),
        c.state == SessionState::Active,
        c.registered,
        timed_out(c.last_heartbeat_at, now),
    ensures
        departure(c, now) == Some(c.id),
        !disconnected(v, c.id).clients.contains(c.id),
        submitted(disconnected(v, c.id), m).clients == disconnected(v, c.id).clients,
{
    crate::lookup::lemma_key_index(v.clients, |x: usize| x, c.id);
    let i = crate::server::client_index(v.clients, c.id);
    if i >= 0 {
        let w = v.clients.remove(i);
        if w.contains(c.id) {
            let k = choose|k: int| 0 <= k < w.len() && w[k] == c.id;
            if k < i {
                assert(v.clients[k] == c.id);
            } else {
                assert(v.clients[k + 1] == c.id);
            }
        }
    }
}

/// A feed whose poll failed keeps its mark, and its failure takes nothing from
/// what the other feeds hand on: the cycle forwards what it would forward
/// without that feed.
pub proof fn lemma_failed_feed_isolated(
    outcomes: Seq<Result<Vec<Message>, PollError>>,
    i: int,
    mark: i64,
)
    requires
        0 <= i < outcomes.len(),
        outcomes[i] is Err,
    ensures
        mark_after(mark, outcomes[i]) == mark,
        forwarded(outcomes) == forwarded(outcomes.remove(i)),
    decreases outcomes.len(),
{
    let last = outcomes.len() - 1;
    if i == last {
        assert(outcomes.remove(i) =~= outcomes.drop_last());
        assert(forwarded(outcomes) =~= forwarded(outcomes.drop_last()));
    } else {
        lemma_failed_feed_isolated(outcomes.drop_last(), i, mark);
        let r = outcomes.remove(i);
        assert(r.drop_last() =~= outcomes.drop_last().remove(i));
        assert(r.last() == outcomes.last());
    }
}

} // verus!
