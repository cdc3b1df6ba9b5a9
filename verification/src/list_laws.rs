//! What the lists, the clocks and the strips of tabs show and keep.
use vstd::prelude::*;
use vstd::string::*;

use crate::agent_frame::frame_settles;
use crate::app::{uid_pos, App};
use crate::events::{backoff_secs, disconnects, EventEnv};
use crate::file_ops::{
    bury_all, due_ops, live_ops, op_resolves, ops_time_out, refusals, PendingAiFileOp,
};
use crate::image_view::{image_frame_ok, ImageClicks, ImageTab, ImageView};
use crate::notices::{notice_frame_ok, AiNotice, NoticeClicks};
use crate::paths::duration_text;
use crate::protocol::{reply_views, Reply, ReplyView, Waiter};
use crate::request_laws::{lemma_stands, stands_at};
use crate::session::Session;
use crate::tab_strip::{activates, closes, last_where, TabInput};
use crate::text::decimal;
use crate::transfer_list::{
    count_all, count_in, row_removed, server_cleared, server_rows, session_rows, XferFilter,
};
use crate::transfers::Transfer;

verus! {

/// The refusals of operations go to those who wait for them, each under their own number.
proof fn lemma_refusals(ops: Seq<PendingAiFileOp>, msg: Seq<char>, i: int)
    requires
        0 <= i < ops.len(),
        ops[i].waiter is Some,
    ensures
        exists|k: int|
            {
                &&& 0 <= k < refusals(ops, msg).len()
                &&& (#[trigger] refusals(ops, msg)[k]).chan == ops[i].waiter->0.chan
                &&& refusals(ops, msg)[k].id == ops[i].req_id
                &&& refusals(ops, msg)[k].result is Err
            },
    decreases ops.len(),
{
    let rest = refusals(ops.drop_last(), msg);
    let all = refusals(ops, msg);
    if i == ops.len() - 1 {
        assert(all[all.len() - 1].chan == ops[i].waiter->0.chan);
    } else {
        assert(ops.drop_last()[i] == ops[i]);
        lemma_refusals(ops.drop_last(), msg, i);
        let k = choose|k: int|
            {
                &&& 0 <= k < rest.len()
                &&& (#[trigger] rest[k]).chan == ops[i].waiter->0.chan
                &&& rest[k].id == ops[i].req_id
                &&& rest[k].result is Err
            };
        assert(all[k] == rest[k]);
    }
}

proof fn lemma_refusals_only(ops: Seq<PendingAiFileOp>, msg: Seq<char>, k: int)
    requires
        0 <= k < refusals(ops, msg).len(),
    ensures
        refusals(ops, msg)[k].result is Err,
        exists|i: int|
            {
                &&& 0 <= i < ops.len()
                &&& (#[trigger] ops[i]).waiter is Some
                &&& refusals(ops, msg)[k].chan == ops[i].waiter->0.chan
                &&& refusals(ops, msg)[k].id == ops[i].req_id
            },
    decreases ops.len(),
{
    let rest = refusals(ops.drop_last(), msg);
    if k < rest.len() {
        lemma_refusals_only(ops.drop_last(), msg, k);
        assert(refusals(ops, msg)[k] == rest[k]);
        let i = choose|i: int|
            {
                &&& 0 <= i < ops.drop_last().len()
                &&& (#[trigger] ops.drop_last()[i]).waiter is Some
                &&& rest[k].chan == ops.drop_last()[i].waiter->0.chan
                &&& rest[k].id == ops.drop_last()[i].req_id
            };
        assert(ops[i].waiter is Some);
    } else {
        assert(ops[ops.len() - 1].waiter is Some);
    }
}

proof fn lemma_live(ops: Seq<PendingAiFileOp>, now: u64, i: int)
    requires
        0 <= i < ops.len(),
    ensures
        now < ops[i].deadline ==> live_ops(ops, now).contains(ops[i]),
        now >= ops[i].deadline ==> due_ops(ops, now).contains(ops[i]),
    decreases ops.len(),
{
    let live = live_ops(ops, now);
    let due = due_ops(ops, now);
    if i == ops.len() - 1 {
        if now < ops[i].deadline {
            assert(live[live.len() - 1] == ops[i]);
        } else {
            assert(due[due.len() - 1] == ops[i]);
        }
    } else {
        let front = ops.drop_last();
        lemma_live(front, now, i);
        assert(front[i] == ops[i]);
        if now < ops[i].deadline {
            let k = choose|k: int|
                0 <= k < live_ops(front, now).len() && live_ops(front, now)[k] == ops[i];
            assert(live[k] == ops[i]);
        } else {
            let k = choose|k: int|
                0 <= k < due_ops(front, now).len() && due_ops(front, now)[k] == ops[i];
            assert(due[k] == ops[i]);
        }
    }
}

proof fn lemma_live_only(ops: Seq<PendingAiFileOp>, now: u64, k: int)
    requires
        0 <= k < live_ops(ops, now).len(),
    ensures
        now < live_ops(ops, now)[k].deadline,
        ops.contains(live_ops(ops, now)[k]),
    decreases ops.len(),
{
    let rest = live_ops(ops.drop_last(), now);
    if k < rest.len() {
        lemma_live_only(ops.drop_last(), now, k);
        assert(live_ops(ops, now)[k] == rest[k]);
        let i = choose|i: int| 0 <= i < ops.drop_last().len() && ops.drop_last()[i] == rest[k];
        assert(ops[i] == rest[k]);
    } else {
        assert(ops[ops.len() - 1] == live_ops(ops, now)[k]);
    }
}

/// An operation whose time is up is given up: it is gone from the list, and the one who waits for it
/// is refused. One whose time is not up stays.
pub proof fn an_overdue_operation_is_given_up(
    before: Session,
    after: Session,
    replies: Seq<Reply>,
    now: u64,
    i: int,
)
    requires
        ops_time_out(before, after, replies, now),
        0 <= i < before.pending_file_ops@.len(),
    ensures
        now < before.pending_file_ops@[i].deadline ==> after.pending_file_ops@.contains(
            before.pending_file_ops@[i],
        ),
        now >= before.pending_file_ops@[i].deadline ==> !after.pending_file_ops@.contains(
            before.pending_file_ops@[i],
        ),
        now >= before.pending_file_ops@[i].deadline && before.pending_file_ops@[i].waiter is Some
            ==> exists|k: int|
            {
                &&& 0 <= k < replies.len()
                &&& (#[trigger] replies[k]).chan == before.pending_file_ops@[i].waiter->0.chan
                &&& replies[k].id == before.pending_file_ops@[i].req_id
                &&& replies[k].result is Err
            },
{
    let ops = before.pending_file_ops@;
    let op = ops[i];
    lemma_live(ops, now, i);
    if now >= op.deadline {
        if after.pending_file_ops@.contains(op) {
            let k = choose|k: int|
                0 <= k < after.pending_file_ops@.len() && after.pending_file_ops@[k] == op;
            lemma_live_only(ops, now, k);
        }
        if op.waiter is Some {
            let due = due_ops(ops, now);
            let d = choose|d: int| 0 <= d < due.len() && due[d] == op;
            let msg = crate::file_ops::OP_TIMED_OUT@;
            lemma_refusals(due, msg, d);
            let k = choose|k: int|
                {
                    &&& 0 <= k < refusals(due, msg).len()
                    &&& (#[trigger] refusals(due, msg)[k]).chan == due[d].waiter->0.chan
                    &&& refusals(due, msg)[k].id == due[d].req_id
                    &&& refusals(due, msg)[k].result is Err
                };
            assert(reply_views(replies).len() == replies.len());
            assert(reply_views(replies)[k] == replies[k]@);
        }
    }
}

/// Whoever waits for a file operation of a session that loses its connection is refused, and no
/// operation is left.
pub proof fn a_lost_connection_ends_every_operation(
    before: Session,
    after: Session,
    replies: Seq<Reply>,
    reason: Seq<char>,
    env: EventEnv,
    i: int,
)
    requires
        disconnects(before, after, reply_views(replies), reason, env),
        0 <= i < before.pending_file_ops@.len(),
        before.pending_file_ops@[i].waiter is Some,
    ensures
        after.pending_file_ops@.len() == 0,
        exists|k: int|
            {
                &&& 0 <= k < replies.len()
                &&& (#[trigger] replies[k]).chan == before.pending_file_ops@[i].waiter->0.chan
                &&& replies[k].id == before.pending_file_ops@[i].req_id
                &&& replies[k].result is Err
            },
        !after.connected,
{
    let ops = before.pending_file_ops@;
    let msg = crate::file_ops::OP_DISCONNECTED@;
    lemma_refusals(ops, msg, i);
    let k = choose|k: int|
        {
            &&& 0 <= k < refusals(ops, msg).len()
            &&& (#[trigger] refusals(ops, msg)[k]).chan == ops[i].waiter->0.chan
            &&& refusals(ops, msg)[k].id == ops[i].req_id
            &&& refusals(ops, msg)[k].result is Err
        };
    let n = reply_views(replies).len() - refusals(ops, msg).len();
    assert(reply_views(replies)[n + k] == refusals(ops, msg)[k]);
    assert(reply_views(replies).len() == replies.len());
    assert(reply_views(replies)[n + k] == replies[n + k]@);
}

/// A question that the user did not answer in time is withdrawn, and the one who asked is refused; one
/// whose time is not up stays.
pub proof fn a_question_is_withdrawn_in_time(
    before: App,
    after: App,
    replies: Seq<Reply>,
    now: u64,
)
    requires
        frame_settles(before, after, reply_views(replies), now),
        before.pending_open_consent is Some,
        before.pending_open_consent->0.waiter is Some,
    ensures
        now < before.pending_open_consent->0.deadline ==> after.pending_open_consent
            == before.pending_open_consent,
        now >= before.pending_open_consent->0.deadline ==> {
            &&& after.pending_open_consent is None
            &&& exists|k: int|
                {
                    &&& 0 <= k < replies.len()
                    &&& (#[trigger] replies[k]).chan
                        == before.pending_open_consent->0.waiter->0.chan
                    &&& replies[k].id == before.pending_open_consent->0.req_id
                    &&& replies[k].result is Err
                }
        },
        after.next_uid == before.next_uid,
        after.sessions@.len() == before.sessions@.len(),
{
    let rs = choose|rs: Seq<Option<Reply>>| #[trigger]
        crate::agent_frame::runs_settle(before.sessions@, after.sessions@, rs, now) && reply_views(
            replies,
        ) == crate::agent_frame::given(rs) + crate::agent_frame::open_expiry(before, now)
            + crate::agent_frame::bind_expiry(before, now);
    if now >= before.pending_open_consent->0.deadline {
        let k = crate::agent_frame::given(rs).len() as int;
        assert(reply_views(replies).len() == replies.len());
        assert(reply_views(replies)[k] == crate::agent_frame::open_expiry(before, now)[0]);
        assert(reply_views(replies)[k] == replies[k]@);
    }
}

/// Whether a filter shows a transfer that ended like this.
pub open spec fn shows(f: XferFilter, ok: Option<bool>) -> bool {
    match f {
        XferFilter::All => true,
        XferFilter::Active => ok is None,
        XferFilter::Done => ok is Some && ok->0,
        XferFilter::Failed => ok is Some && !ok->0,
    }
}

proof fn lemma_session_rows(ss: Seq<Session>, s: int, n: int, f: XferFilter)
    requires
        0 <= n <= ss[s].transfers@.len(),
    ensures
        forall|k: int|
            0 <= k < session_rows(ss, s, n, f).len() ==> {
                let r = #[trigger] session_rows(ss, s, n, f)[k];
                r.0 == s && 0 <= r.1 < n && shows(f, ss[s].transfers@[r.1].ok)
            },
        forall|t: int|
            0 <= t < n && shows(f, #[trigger] ss[s].transfers@[t].ok) ==> session_rows(
                ss,
                s,
                n,
                f,
            ).contains((s, t)),
        forall|j: int, k: int|
            0 <= j < k < session_rows(ss, s, n, f).len() ==> (#[trigger] session_rows(ss, s, n, f)[j]).1
                > (#[trigger] session_rows(ss, s, n, f)[k]).1,
    decreases n,
{
    if n > 0 {
        lemma_session_rows(ss, s, n - 1, f);
        let rest = session_rows(ss, s, n - 1, f);
        let all = session_rows(ss, s, n, f);
        if shows(f, ss[s].transfers@[n - 1].ok) {
            assert(all == seq![(s, n - 1)] + rest);
            assert(all[0] == (s, n - 1));
            assert forall|k: int| 0 <= k < all.len() implies {
                let r = #[trigger] all[k];
                r.0 == s && 0 <= r.1 < n && shows(f, ss[s].transfers@[r.1].ok)
            } by {
                if k > 0 {
                    assert(all[k] == rest[k - 1]);
                }
            }
            assert forall|t: int| 0 <= t < n && shows(f, #[trigger] ss[s].transfers@[t].ok) implies
                all.contains((s, t)) by {
                if t < n - 1 {
                    let k = choose|k: int| 0 <= k < rest.len() && rest[k] == (s, t);
                    assert(all[k + 1] == (s, t));
                }
            }
            assert forall|j: int, k: int| 0 <= j < k < all.len() implies (#[trigger] all[j]).1 > (
            #[trigger] all[k]).1 by {
                assert(all[k] == rest[k - 1]);
                if j > 0 {
                    assert(all[j] == rest[j - 1]);
                }
            }
        }
    }
}

/// The list of a session shows exactly the transfers that the filter is for, the newest first.
pub proof fn the_list_shows_what_the_filter_is_for(ss: Seq<Session>, s: int, f: XferFilter, t: int)
    requires
        0 <= s < ss.len(),
        0 <= t < ss[s].transfers@.len(),
    ensures
        ({
            let rows = session_rows(ss, s, ss[s].transfers@.len() as int, f);
            &&& rows.contains((s, t)) <==> shows(f, ss[s].transfers@[t].ok)
            &&& forall|j: int, k: int|
                0 <= j < k < rows.len() ==> (#[trigger] rows[j]).1 > (#[trigger] rows[k]).1
        }),
{
    let n = ss[s].transfers@.len() as int;
    lemma_session_rows(ss, s, n, f);
    let rows = session_rows(ss, s, n, f);
    if rows.contains((s, t)) {
        let k = choose|k: int| 0 <= k < rows.len() && rows[k] == (s, t);
        assert(shows(f, ss[s].transfers@[rows[k].1].ok));
    }
    if shows(f, ss[s].transfers@[t].ok) {
        assert(rows.contains((s, t)));
    }
}

proof fn lemma_count(ts: Seq<Transfer>)
    ensures
        count_in(ts, XferFilter::All) == ts.len(),
        count_in(ts, XferFilter::Active) + count_in(ts, XferFilter::Done) + count_in(
            ts,
            XferFilter::Failed,
        ) == ts.len(),
        count_in(ts, XferFilter::Active) > 0 <==> exists|i: int|
            0 <= i < ts.len() && (#[trigger] ts[i]).ok is None,
        count_in(ts, XferFilter::Failed) > 0 <==> exists|i: int|
            0 <= i < ts.len() && (#[trigger] ts[i]).ok == Some(false),
    decreases ts.len(),
{
    if ts.len() > 0 {
        let front = ts.drop_last();
        lemma_count(front);
        assert(ts[ts.len() - 1] == ts.last());
        match ts.last().ok {
            Some(b) => {
                assert(ts.last().ok == Some(b));
                assert(b || !b);
                if b {
                    assert(XferFilter::Done.lets(ts.last().ok));
                    assert(!XferFilter::Failed.lets(ts.last().ok));
                } else {
                    assert(!XferFilter::Done.lets(ts.last().ok));
                    assert(XferFilter::Failed.lets(ts.last().ok));
                }
                assert(!XferFilter::Active.lets(ts.last().ok));
            },
            None => {
                assert(XferFilter::Active.lets(ts.last().ok));
                assert(!XferFilter::Done.lets(ts.last().ok));
                assert(!XferFilter::Failed.lets(ts.last().ok));
            },
        }
        if exists|i: int| 0 <= i < front.len() && (#[trigger] front[i]).ok is None {
            let i = choose|i: int| 0 <= i < front.len() && (#[trigger] front[i]).ok is None;
            assert(ts[i].ok is None);
        }
        if exists|i: int| 0 <= i < ts.len() && (#[trigger] ts[i]).ok is None {
            let i = choose|i: int| 0 <= i < ts.len() && (#[trigger] ts[i]).ok is None;
            if i < front.len() {
                assert(front[i].ok is None);
            }
        }
        if exists|i: int| 0 <= i < front.len() && (#[trigger] front[i]).ok == Some(false) {
            let i = choose|i: int| 0 <= i < front.len() && (#[trigger] front[i]).ok == Some(false);
            assert(ts[i].ok == Some(false));
        }
        if exists|i: int| 0 <= i < ts.len() && (#[trigger] ts[i]).ok == Some(false) {
            let i = choose|i: int| 0 <= i < ts.len() && (#[trigger] ts[i]).ok == Some(false);
            if i < front.len() {
                assert(front[i].ok == Some(false));
            }
        }
    }
}

/// Every transfer is counted once: as running, done or failed; a count is not zero exactly where there
/// is such a transfer.
pub proof fn every_transfer_is_counted_once(ts: Seq<Transfer>)
    ensures
        count_in(ts, XferFilter::All) == ts.len(),
        count_in(ts, XferFilter::Active) + count_in(ts, XferFilter::Done) + count_in(
            ts,
            XferFilter::Failed,
        ) == count_in(ts, XferFilter::All),
        count_in(ts, XferFilter::Active) > 0 <==> exists|i: int|
            0 <= i < ts.len() && (#[trigger] ts[i]).ok is None,
        count_in(ts, XferFilter::Failed) > 0 <==> exists|i: int|
            0 <= i < ts.len() && (#[trigger] ts[i]).ok == Some(false),
{
    lemma_count(ts);
}

proof fn lemma_filter_member(ts: Seq<Transfer>, f: spec_fn(Transfer) -> bool, t: Transfer)
    ensures
        ts.filter(f).contains(t) <==> ts.contains(t) && f(t),
    decreases ts.len(),
{
    reveal(Seq::filter);
    if ts.len() > 0 {
        let front = ts.drop_last();
        lemma_filter_member(front, f, t);
        let all = ts.filter(f);
        let rest = front.filter(f);
        if rest.contains(t) {
            let k = choose|k: int| 0 <= k < rest.len() && rest[k] == t;
            assert(all[k] == t);
        }
        if front.contains(t) {
            let k = choose|k: int| 0 <= k < front.len() && front[k] == t;
            assert(ts[k] == t);
        }
        if ts.last() == t {
            assert(ts[ts.len() - 1] == t);
            if f(t) {
                assert(all[all.len() - 1] == t);
            }
        }
        if all.contains(t) && !rest.contains(t) {
            let k = choose|k: int| 0 <= k < all.len() && all[k] == t;
            if k < rest.len() {
                assert(rest[k] == t);
            }
        }
        if ts.contains(t) && !front.contains(t) {
            let k = choose|k: int| 0 <= k < ts.len() && ts[k] == t;
            if k < front.len() {
                assert(front[k] == t);
            }
        }
    }
}

/// Clearing the list of a server takes off exactly the transfers that ended, on that server alone.
pub proof fn only_ended_transfers_are_cleared(
    before: App,
    after: App,
    idx: int,
    i: int,
    t: Transfer,
)
    requires
        server_cleared(before, after, idx),
        0 <= idx < before.sessions@.len(),
        0 <= i < before.sessions@.len(),
    ensures
        ({
            let a = before.sessions@[i];
            let b = after.sessions@[i];
            let same = i == idx || (a.cfg.host@ == before.sessions@[idx].cfg.host@ && a.cfg.port
                == before.sessions@[idx].cfg.port);
            &&& same ==> (b.transfers@.contains(t) <==> a.transfers@.contains(t) && t.ok is None)
            &&& !same ==> b == a
            &&& b.link == a.link
        }),
{
    lemma_filter_member(before.sessions@[i].transfers@, |x: Transfer| x.ok is None, t);
    assert(after.sessions@[i] == after.sessions@[i]);
}

/// Taking a transfer off the list takes off that one alone.
pub proof fn only_the_removed_row_is_gone(before: App, after: App, uid: u64, id: u64, i: int, t: Transfer)
    requires
        row_removed(before, after, uid, id),
        stands_at(before, uid, i),
    ensures
        after.sessions@[i].transfers@.contains(t) <==> before.sessions@[i].transfers@.contains(t)
            && t.id != id,
        after.sessions@[i].link == before.sessions@[i].link,
        forall|j: int|
            0 <= j < before.sessions@.len() && j != i ==> #[trigger] after.sessions@[j]
                == before.sessions@[j],
{
    lemma_stands(before, uid, i);
    lemma_filter_member(before.sessions@[i].transfers@, |x: Transfer| x.id != id, t);
}

/// A duration in words tells hours and minutes, minutes and seconds, or seconds, and what it tells
/// is that duration, but for the seconds of one of an hour or more.
pub proof fn a_duration_is_told_truly(secs: nat, h: nat, m: nat, s: nat)
    requires
        secs == 3600 * h + 60 * m + s,
        m < 60,
        s < 60,
    ensures
        h > 0 ==> duration_text(secs) == decimal(h) + "h"@ + decimal(m) + "m"@,
        h == 0 && m > 0 ==> duration_text(secs) == decimal(m) + "m"@ + decimal(s) + "s"@,
        h == 0 && m == 0 ==> duration_text(secs) == decimal(s) + "s"@,
{
    assert(secs / 3600 == h && (secs % 3600) / 60 == m && secs / 60 == 60 * h + m && secs % 60 == s)
        by (nonlinear_arith)
        requires
            secs == 3600 * h + 60 * m + s,
            m < 60,
            s < 60,
    ;
}

/// The wait before the next try doubles from two seconds on, and never passes half a minute.
pub proof fn the_wait_doubles_up_to_half_a_minute(tries: u32)
    ensures
        backoff_secs(0) == 2,
        tries < 3 ==> backoff_secs((tries + 1) as u32) == 2 * backoff_secs(tries),
        tries >= 4 ==> backoff_secs(tries) == 30,
        2 <= backoff_secs(tries) <= 30,
{
}

/// Nothing was clicked or pressed in the viewer.
pub open spec fn is_still(c: ImageClicks) -> bool {
    &&& !c.tab_next && !c.tab_prev && c.reorder is None && c.activate is None
    &&& !c.right && !c.left && c.close_tab is None && !c.close_all
}

/// Position `b` comes next after `a` of `n`, the first one after the last.
pub open spec fn goes_round(a: int, b: int, n: int) -> bool {
    if a == n - 1 {
        b == 0
    } else {
        b == a + 1
    }
}

/// The viewer of images goes where it is told: the arrows and the keys go on by one and round at the
/// ends, a click shows the image that was clicked, a cross closes that one image, and whatever is
/// not closed stays.
pub proof fn the_viewer_goes_where_it_is_told(
    before: ImageView,
    after: ImageView,
    c: ImageClicks,
    trim: bool,
    i: usize,
)
    requires
        image_frame_ok(before, after, c, trim),
        before.active < before.tabs@.len(),
        i < before.tabs@.len(),
    ensures
        is_still(c) ==> after.tabs@ == before.tabs@ && after.active == before.active,
        is_still(ImageClicks { right: false, ..c }) && c.right ==> after.tabs@ == before.tabs@
            && goes_round(before.active as int, after.active as int, before.tabs@.len() as int),
        is_still(ImageClicks { left: false, ..c }) && c.left ==> after.tabs@ == before.tabs@
            && goes_round(after.active as int, before.active as int, before.tabs@.len() as int),
        is_still(ImageClicks { tab_next: false, ..c }) && c.tab_next ==> after.tabs@ == before.tabs@
            && goes_round(before.active as int, after.active as int, before.tabs@.len() as int),
        is_still(ImageClicks { tab_prev: false, ..c }) && c.tab_prev ==> after.tabs@ == before.tabs@
            && goes_round(after.active as int, before.active as int, before.tabs@.len() as int),
        is_still(ImageClicks { activate: None, ..c }) && c.activate == Some(i) ==> after.tabs@
            == before.tabs@ && after.active == i,
        is_still(ImageClicks { close_tab: None, ..c }) && c.close_tab == Some(i) ==> {
            &&& after.tabs@ == before.tabs@.remove(i as int)
            &&& after.tabs@.len() > 0 ==> after.active < after.tabs@.len()
            &&& i > before.active ==> after.active == before.active
            &&& trim
        },
        c.close_all ==> after.tabs@.len() == 0 && trim,
{
    assert(before.tabs.len() == before.tabs@.len());
}

/// A notice that is dismissed is the only one that goes, and one that is followed leads to its own
/// session.
pub proof fn a_notice_leads_to_its_session(
    before: App,
    after: App,
    c: NoticeClicks,
    focus: Option<usize>,
    uid: u64,
    i: int,
)
    requires
        notice_frame_ok(before, after, c, focus),
        before.ai_notices@.len() > 0,
        stands_at(before, uid, i),
    ensures
        c.jump_to == Some(uid) ==> focus is Some && focus->0 == i && after.active == focus,
        c.jump_to is None ==> after.active == before.active && focus is None,
        !c.clear_all && c.dismiss is None ==> after.ai_notices@ == before.ai_notices@,
        !c.clear_all && c.dismiss is Some && c.dismiss->0 < before.ai_notices@.len()
            ==> after.ai_notices@ == before.ai_notices@.remove(c.dismiss->0 as int),
        c.clear_all ==> after.ai_notices@.len() == 0,
        after.sessions == before.sessions,
{
    lemma_stands(before, uid, i);
}

proof fn lemma_last_where(tabs: Seq<TabInput>, f: spec_fn(TabInput) -> bool, i: int)
    requires
        0 <= i < tabs.len(),
        f(tabs[i]),
        forall|j: int| i < j < tabs.len() ==> !f(#[trigger] tabs[j]),
    ensures
        last_where(tabs, f) == Some(i),
    decreases tabs.len(),
{
    if i < tabs.len() - 1 {
        assert(!f(tabs[tabs.len() - 1]));
        assert(tabs.drop_last()[i] == tabs[i]);
        assert forall|j: int| i < j < tabs.drop_last().len() implies !f(#[trigger] tabs.drop_last()[j])
            by {
            assert(!f(tabs[j]));
        }
        lemma_last_where(tabs.drop_last(), f, i);
    }
}

/// A strip of tabs shows the tab that was clicked, and closes the one whose cross was clicked or which
/// the middle button hit; a click on a cross shows nothing.
pub proof fn the_clicked_tab_is_shown(tabs: Seq<TabInput>, i: int)
    requires
        0 <= i < tabs.len(),
        forall|j: int|
            0 <= j < tabs.len() && j != i ==> !(#[trigger] tabs[j]).click && !tabs[j].cross
                && !tabs[j].middle,
    ensures
        tabs[i].click && !tabs[i].cross ==> last_where(tabs, |t: TabInput| activates(t)) == Some(i),
        tabs[i].cross || (tabs[i].middle && !tabs[i].click) ==> last_where(
            tabs,
            |t: TabInput| closes(t),
        ) == Some(i),
        tabs[i].cross ==> !activates(tabs[i]),
        tabs[i].click && !tabs[i].cross ==> !closes(tabs[i]),
{
    if tabs[i].click && !tabs[i].cross {
        lemma_last_where(tabs, |t: TabInput| activates(t), i);
    }
    if tabs[i].cross || (tabs[i].middle && !tabs[i].click) {
        lemma_last_where(tabs, |t: TabInput| closes(t), i);
    }
}

proof fn lemma_due_len(ops: Seq<PendingAiFileOp>, now: u64)
    ensures
        due_ops(ops, now).len() <= ops.len(),
    decreases ops.len(),
{
    if ops.len() > 0 {
        lemma_due_len(ops.drop_last(), now);
    }
}

proof fn lemma_buried(tombs: Seq<u64>, ops: Seq<PendingAiFileOp>, k: int)
    requires
        0 <= k < ops.len(),
        ops.len() - k <= 64,
    ensures
        ({
            let t = bury_all(tombs, ops);
            &&& t.len() >= 64 || t.len() >= ops.len()
            &&& 0 <= t.len() - (ops.len() - k) < t.len()
            &&& t[t.len() - (ops.len() - k)] == ops[k].kind.op_id()
        }),
    decreases ops.len(),
{
    let d = ops.drop_last();
    let t = bury_all(tombs, d);
    let u = bury_all(tombs, ops);
    if d.len() > 0 {
        lemma_buried(tombs, d, if k < d.len() {
            k
        } else {
            d.len() - 1
        });
    }
    if k < d.len() {
        assert(d[k] == ops[k]);
        assert(u[u.len() - (ops.len() - k)] == t[t.len() - (d.len() - k)]);
    }
}

/// What comes late for an operation that was given up reaches nobody: neither the agent, which was
/// refused by then, nor the window; and nothing changes.
pub proof fn a_late_result_reaches_nobody(
    before: Session,
    after: Session,
    replies: Seq<Reply>,
    now: u64,
    i: int,
    later: Session,
    claimed: bool,
    reply: Option<Reply>,
    reply_to: spec_fn(PendingAiFileOp, Waiter) -> ReplyView,
)
    requires
        ops_time_out(before, after, replies, now),
        0 <= i < before.pending_file_ops@.len() <= 64,
        now >= before.pending_file_ops@[i].deadline,
        op_resolves(after, later, before.pending_file_ops@[i].kind, claimed, reply, reply_to),
    ensures
        claimed && reply is None,
        later == after,
{
    let ops = before.pending_file_ops@;
    let due = due_ops(ops, now);
    lemma_live(ops, now, i);
    lemma_due_len(ops, now);
    let k = choose|k: int| 0 <= k < due.len() && due[k] == ops[i];
    lemma_buried(before.file_op_tombstones@, due, k);
    let t = after.file_op_tombstones@;
    assert(t[t.len() - (due.len() - k)] == ops[i].kind.op_id());
}

} // verus!
