//! What holds from frame to frame: what is woken up for, taken in, shown and given up.
use vstd::prelude::*;
use vstd::string::*;

use crate::agent_frame::is_deadline;
use crate::app::App;
use crate::events::{
    disconnects, drains, event_ok, frame_takes, lemma_forward_pos, term_bytes_all, within_budget,
    EventEnv, WorkerEvent,
};
use crate::forwards::open_bind_answered;
use crate::notices::{notice_frame_ok, NoticeClicks};
use crate::proto::{CommandView, ConflictPolicy, TransferDir};
use crate::protocol::ReplyView;
use crate::request_laws::{lemma_stands, stands_at};
use crate::runs::clamped;
use crate::session::{cwd_stepped, Session};
use crate::tickets::{oldest, with_room, Entry};
use crate::transfer_list::{
    error_toggled, next_policy, row_state_of, running_all, running_rows, server_retried, RowState,
};
use crate::transfers::{lemma_transfer_pos, Transfer};

verus! {

/// Whatever waits for its time is woken up for: both questions to the user, a run and the moment at
/// which it is given up, ten minutes after anyone asked for it, every file operation, the wish to
/// return to a directory, and both deadlines of every copy.
pub proof fn nothing_that_waits_is_slept_through(app: App, i: int, k: int, c: int)
    requires
        0 <= i < app.sessions@.len(),
    ensures
        app.pending_open_consent is Some ==> is_deadline(
            app,
            app.pending_open_consent->0.deadline as int,
        ),
        app.pending_bind_consent is Some ==> is_deadline(
            app,
            app.pending_bind_consent->0.deadline as int,
        ),
        app.sessions@[i].pending_ai_run is Some ==> is_deadline(
            app,
            app.sessions@[i].pending_ai_run->0.deadline as int,
        ) && is_deadline(app, app.sessions@[i].pending_ai_run->0.last_poll_at + 600_000),
        0 <= k < app.sessions@[i].pending_file_ops@.len() ==> is_deadline(
            app,
            app.sessions@[i].pending_file_ops@[k].deadline as int,
        ),
        app.sessions@[i].restore_cwd_until is Some ==> is_deadline(
            app,
            app.sessions@[i].restore_cwd_until->0 as int,
        ),
        0 <= c < app.cross_copy_jobs@.len() ==> is_deadline(
            app,
            app.cross_copy_jobs@[c].deadline as int,
        ) && is_deadline(app, app.cross_copy_jobs@[c].phase_deadline as int),
{
    let s = app.sessions@[i];
    if 0 <= k < s.pending_file_ops@.len() {
        assert(crate::agent_frame::session_deadline(s, s.pending_file_ops@[k].deadline as int));
    }
    if 0 <= c < app.cross_copy_jobs@.len() {
        let j = app.cross_copy_jobs@[c];
        assert(j.deadline == j.deadline as int);
    }
}

proof fn lemma_no_bytes(evs: Seq<WorkerEvent>)
    requires
        forall|k: int| 0 <= k < evs.len() ==> !((#[trigger] evs[k]) is TerminalData),
    ensures
        term_bytes_all(evs) == 0,
    decreases evs.len(),
{
    if evs.len() > 0 {
        assert forall|k: int| 0 <= k < evs.drop_last().len() implies !((
        #[trigger] evs.drop_last()[k]) is TerminalData) by {
            assert(evs[k] == evs.drop_last()[k]);
        }
        lemma_no_bytes(evs.drop_last());
        assert(!(evs[evs.len() - 1] is TerminalData));
    }
}

/// A frame takes in reports from the front, at most 512 of them and at least one where any waits, and
/// leaves the rest in order. Up to 511 reports without terminal output are all taken in.
pub proof fn reports_are_taken_in_order(
    before: Session,
    after: Session,
    evs: Seq<WorkerEvent>,
    left: Seq<WorkerEvent>,
    backlog: bool,
    replies: Seq<ReplyView>,
    env: EventEnv,
)
    requires
        drains(before, after, evs, left, backlog, replies, env),
    ensures
        left.is_suffix_of(evs),
        evs.len() - left.len() <= 512,
        evs.len() > 0 ==> left.len() < evs.len(),
        left.len() > 0 ==> backlog,
        evs.len() < 512 && (forall|k: int|
            0 <= k < evs.len() ==> !((#[trigger] evs[k]) is TerminalData)) ==> left.len() == 0
            && !backlog,
{
    let (n, states, rs) = choose|n: int, states: Seq<Session>, rs: Seq<Seq<ReplyView>>|
        {
            &&& #[trigger] frame_takes(evs, n, backlog)
            &&& left == evs.skip(n)
            &&& #[trigger] crate::events::events_ok(states, rs, evs.take(n), env)
            &&& states[0] == before
            &&& states[n] == after
            &&& replies == crate::events::flat(rs)
        };
    assert(evs.skip(evs.len() - left.len()) =~= left);
    if n > 512 {
        assert(within_budget(evs, n - 1));
    }
    if n == 0 {
        assert(evs.take(0).len() == 0);
        assert(within_budget(evs, 0));
    }
    if evs.len() < 512 && (forall|k: int|
        0 <= k < evs.len() ==> !((#[trigger] evs[k]) is TerminalData)) {
        assert forall|k: int| 0 <= k < evs.take(n).len() implies !((
        #[trigger] evs.take(n)[k]) is TerminalData) by {
            assert(evs[k] == evs.take(n)[k]);
        }
        lemma_no_bytes(evs.take(n));
    }
}

/// A forward shows the state that is reported of it, and no other one changes.
pub proof fn a_forward_shows_what_is_reported(
    before: Session,
    after: Session,
    replies: Seq<ReplyView>,
    id: u64,
    ok: bool,
    message: String,
    env: EventEnv,
    i: int,
    k: int,
)
    requires
        event_ok(before, after, replies, WorkerEvent::ForwardStatus { id, ok, message }, env),
        0 <= i < before.forwards@.len(),
        before.forwards@[i].id == id,
        forall|j: int| 0 <= j < i ==> (#[trigger] before.forwards@[j]).id != id,
        0 <= k < before.forwards@.len(),
    ensures
        after.forwards@.len() == before.forwards@.len(),
        after.forwards@[i].ok == ok && after.forwards@[i].status@ == message@,
        after.forwards@[i].id == id,
        after.forwards@[i].bind_host == before.forwards@[i].bind_host,
        after.forwards@[i].bind_port == before.forwards@[i].bind_port,
        after.forwards@[i].kind == before.forwards@[i].kind,
        k != i ==> after.forwards@[k] == before.forwards@[k],
        after.link == before.link && after.transfers == before.transfers,
{
    lemma_forward_pos(before.forwards@, id);
}

/// A transfer that is reported to start shows its name, its size and its direction, and waits no
/// longer; it keeps its number and how to ask for it again.
pub proof fn a_started_transfer_shows_what_it_is(
    before: Session,
    after: Session,
    replies: Seq<ReplyView>,
    id: u64,
    name: String,
    total: u64,
    dir: TransferDir,
    local: Option<String>,
    env: EventEnv,
    i: int,
    k: int,
)
    requires
        event_ok(
            before,
            after,
            replies,
            WorkerEvent::TransferStart { id, name, total, dir, local },
            env,
        ),
        0 <= i < before.transfers@.len(),
        before.transfers@[i].id == id,
        forall|j: int| 0 <= j < i ==> (#[trigger] before.transfers@[j]).id != id,
        0 <= k < before.transfers@.len(),
    ensures
        after.transfers@.len() == before.transfers@.len(),
        after.transfers@[i].name@ == name@ && after.transfers@[i].total == total,
        after.transfers@[i].dir == dir && !after.transfers@[i].queued,
        after.transfers@[i].id == id && after.transfers@[i].spec == before.transfers@[i].spec,
        after.transfers@[i].ok == before.transfers@[i].ok,
        local is Some ==> after.transfers@[i].local == local,
        local is None ==> after.transfers@[i].local == before.transfers@[i].local,
        k != i ==> after.transfers@[k] == before.transfers@[k],
        after.link == before.link,
{
    lemma_transfer_pos(before.transfers@, id);
}

/// A run whose connection is lost is given up, and the agent that waits for it is told so; the result
/// of one that had finished is kept.
pub proof fn a_lost_run_is_reported(
    before: Session,
    after: Session,
    replies: Seq<ReplyView>,
    reason: Seq<char>,
    env: EventEnv,
)
    requires
        disconnects(before, after, replies, reason, env),
        before.pending_ai_run is Some,
    ensures
        before.pending_ai_run->0.finished_result is Some ==> after.pending_ai_run
            == before.pending_ai_run,
        before.pending_ai_run->0.finished_result is None ==> after.pending_ai_run is None,
        before.pending_ai_run->0.finished_result is None && before.pending_ai_run->0.waiter is Some
            ==> {
            &&& replies.len() > 0
            &&& replies[0].chan == before.pending_ai_run->0.waiter->0.chan
            &&& replies[0].id == before.pending_ai_run->0.req_id
            &&& replies[0].result is Err
        },
        before.pending_ai_run->0.waiter is None && before.pending_file_ops@.len() == 0
            ==> replies.len() == 0,
{
}

/// A command is waited for as long as the agent asked, from a tenth of a second to a day.
pub proof fn a_run_is_waited_for_as_asked(t: u64)
    ensures
        100 <= t <= 86_400_000 ==> clamped(t) == t,
        t < 100 ==> clamped(t) == 100,
        t > 86_400_000 ==> clamped(t) == 86_400_000,
{
}

/// A reconnected terminal goes back to its directory once it is quiet, unless the user typed; while
/// it is not quiet it waits, until the time for that is over.
pub proof fn a_quiet_terminal_goes_back_to_its_directory(
    before: Session,
    after: Session,
    never_typed: bool,
    now: u64,
)
    requires
        cwd_stepped(before, after, never_typed, now),
        before.restore_cwd_until is Some,
    ensures
        !never_typed ==> after.restore_cwd_until is None && after.link == before.link,
        never_typed && before.connected && !before.ai_owned && before.pending_ai_run is None
            && !before.terminal.capturing && !before.terminal.busy
            && before.terminal.output_idle_ms >= 2_000 && before.terminal.input_idle_ms >= 2_000
            && before.link.takes > 0 ==> {
            &&& after.restore_cwd_until is None
            &&& after.link.sent@.len() == before.link.sent@.len() + 1
            &&& after.link.sent@.last() is TerminalInput
            &&& after.link.sent@.last()->TerminalInput_0@ == vstd::utf8::encode_utf8(
                "cd "@ + crate::quoting::in_single_quotes(before.last_cwd@) + "\r"@,
            )
        },
        never_typed && before.terminal.busy && now < before.restore_cwd_until->0 ==> after == before,
        never_typed && before.terminal.busy && now >= before.restore_cwd_until->0
            ==> after.restore_cwd_until is None && after.link == before.link,
{
    if after.link.sends(
        before.link,
        CommandView::TerminalInput(
            vstd::utf8::encode_utf8(
                "cd "@ + crate::quoting::in_single_quotes(before.last_cwd@) + "\r"@,
            ),
        ),
    ) && before.link.takes > 0 {
        crate::request_laws::lemma_sent_one(
            before.link,
            after.link,
            CommandView::TerminalInput(
                vstd::utf8::encode_utf8(
                    "cd "@ + crate::quoting::in_single_quotes(before.last_cwd@) + "\r"@,
                ),
            ),
        );
    }
}

/// A row offers to try again what failed and can be asked for again, to show a file that is here, to
/// resume what was interrupted, and to cancel what runs.
pub proof fn a_row_offers_what_can_be_done(t: Transfer)
    ensures
        row_state_of(t) == (RowState::Failed { retry: true }) <==> t.ok == Some(false)
            && t.spec is Some,
        row_state_of(t) == (RowState::Done { reveal: true }) <==> t.ok == Some(true)
            && t.local is Some,
        row_state_of(t) is Done <==> t.ok == Some(true),
        row_state_of(t) is Failed <==> t.ok == Some(false),
        row_state_of(t) == RowState::Running <==> t.ok is None && !t.paused && !t.queued,
        row_state_of(t) == RowState::Paused <==> t.ok is None && t.paused,
{
}

/// The button goes from overwriting to skipping, to renaming, and back to overwriting.
pub proof fn the_button_goes_from_overwriting_to_skipping(p: ConflictPolicy)
    ensures
        next_policy(p) == ConflictPolicy::Skip <==> p == ConflictPolicy::Overwrite,
        next_policy(p) == ConflictPolicy::Rename <==> p == ConflictPolicy::Skip,
        next_policy(p) == ConflictPolicy::Overwrite <==> p == ConflictPolicy::Rename,
{
}

proof fn lemma_running(ts: Seq<Transfer>, uid: u64, row: (u64, u64))
    ensures
        running_rows(ts, uid).contains(row) <==> row.0 == uid && exists|i: int|
            0 <= i < ts.len() && (#[trigger] ts[i]).id == row.1 && ts[i].ok is None && !ts[i].queued,
    decreases ts.len(),
{
    let all = running_rows(ts, uid);
    if ts.len() > 0 {
        let d = ts.drop_last();
        let rest = running_rows(d, uid);
        lemma_running(d, uid, row);
        let last = ts.last();
        let runs = last.ok is None && !last.queued;
        if rest.contains(row) {
            let k = choose|k: int| 0 <= k < rest.len() && rest[k] == row;
            assert(all[k] == row);
            let i = choose|i: int|
                0 <= i < d.len() && (#[trigger] d[i]).id == row.1 && d[i].ok is None && !d[i].queued;
            assert(ts[i] == d[i]);
        }
        if runs && row == (uid, last.id) {
            assert(all[all.len() - 1] == row);
            assert(ts[ts.len() - 1].id == row.1);
        }
        if all.contains(row) && !rest.contains(row) {
            let k = choose|k: int| 0 <= k < all.len() && all[k] == row;
            if k < rest.len() {
                assert(rest[k] == row);
            }
            assert(ts[ts.len() - 1].id == row.1);
        }
        if exists|i: int|
            0 <= i < ts.len() && (#[trigger] ts[i]).id == row.1 && ts[i].ok is None && !ts[i].queued {
            let i = choose|i: int|
                0 <= i < ts.len() && (#[trigger] ts[i]).id == row.1 && ts[i].ok is None
                    && !ts[i].queued;
            if i < d.len() {
                assert(d[i] == ts[i]);
            }
        }
    }
}

/// To cancel everything in some sessions is to cancel each of their transfers that runs, and nothing
/// else.
pub proof fn everything_that_runs_is_cancelled(ss: Seq<Session>, idxs: Seq<usize>, row: (u64, u64))
    ensures
        running_all(ss, idxs).contains(row) <==> exists|k: int, i: int|
            {
                &&& 0 <= k < idxs.len()
                &&& 0 <= i < ss[#[trigger] idxs[k] as int].transfers@.len()
                &&& ss[idxs[k] as int].uid == row.0
                &&& (#[trigger] ss[idxs[k] as int].transfers@[i]).id == row.1
                &&& ss[idxs[k] as int].transfers@[i].ok is None
                &&& !ss[idxs[k] as int].transfers@[i].queued
            },
    decreases idxs.len(),
{
    let all = running_all(ss, idxs);
    if idxs.len() > 0 {
        let d = idxs.drop_last();
        let rest = running_all(ss, d);
        let s = ss[idxs.last() as int];
        let rows = running_rows(s.transfers@, s.uid);
        everything_that_runs_is_cancelled(ss, d, row);
        lemma_running(s.transfers@, s.uid, row);
        assert(idxs[idxs.len() - 1] == idxs.last());
        assert(forall|k: int| 0 <= k < d.len() ==> d[k] == idxs[k]);
        if rest.contains(row) {
            let n = choose|n: int| 0 <= n < rest.len() && rest[n] == row;
            assert(all[n] == row);
            let (k, i) = choose|k: int, i: int|
                {
                    &&& 0 <= k < d.len()
                    &&& 0 <= i < ss[#[trigger] d[k] as int].transfers@.len()
                    &&& ss[d[k] as int].uid == row.0
                    &&& (#[trigger] ss[d[k] as int].transfers@[i]).id == row.1
                    &&& ss[d[k] as int].transfers@[i].ok is None
                    &&& !ss[d[k] as int].transfers@[i].queued
                };
            assert(ss[idxs[k] as int].transfers@[i].id == row.1);
        }
        if rows.contains(row) {
            let n = choose|n: int| 0 <= n < rows.len() && rows[n] == row;
            assert(all[rest.len() + n] == row);
            let i = choose|i: int|
                0 <= i < s.transfers@.len() && (#[trigger] s.transfers@[i]).id == row.1
                    && s.transfers@[i].ok is None && !s.transfers@[i].queued;
            assert(ss[idxs[idxs.len() - 1] as int].transfers@[i].id == row.1);
        }
        if all.contains(row) && !rest.contains(row) {
            let n = choose|n: int| 0 <= n < all.len() && all[n] == row;
            if n < rest.len() {
                assert(rest[n] == row);
            } else {
                assert(rows[n - rest.len()] == row);
            }
        }
        if exists|k: int, i: int|
            {
                &&& 0 <= k < idxs.len()
                &&& 0 <= i < ss[#[trigger] idxs[k] as int].transfers@.len()
                &&& ss[idxs[k] as int].uid == row.0
                &&& (#[trigger] ss[idxs[k] as int].transfers@[i]).id == row.1
                &&& ss[idxs[k] as int].transfers@[i].ok is None
                &&& !ss[idxs[k] as int].transfers@[i].queued
            } {
            let (k, i) = choose|k: int, i: int|
                {
                    &&& 0 <= k < idxs.len()
                    &&& 0 <= i < ss[#[trigger] idxs[k] as int].transfers@.len()
                    &&& ss[idxs[k] as int].uid == row.0
                    &&& (#[trigger] ss[idxs[k] as int].transfers@[i]).id == row.1
                    &&& ss[idxs[k] as int].transfers@[i].ok is None
                    &&& !ss[idxs[k] as int].transfers@[i].queued
                };
            if k < d.len() {
                assert(ss[d[k] as int].transfers@[i].id == row.1);
            } else {
                assert(s.transfers@[i].id == row.1);
            }
        }
    } else {
        assert(!all.contains(row));
    }
}

/// Trying again on one server leaves every other server alone.
pub proof fn other_servers_are_left_alone(before: App, after: App, idx: int, i: int)
    requires
        server_retried(before, after, idx),
        0 <= idx < before.sessions@.len(),
        0 <= i < before.sessions@.len(),
        i != idx,
        before.sessions@[i].cfg.host@ != before.sessions@[idx].cfg.host@
            || before.sessions@[i].cfg.port != before.sessions@[idx].cfg.port,
    ensures
        after.sessions@[i] == before.sessions@[i],
        after.xfer == before.xfer,
{
}

/// A click on a failure shows its message, a second one hides it, and the transfer stays what it is.
pub proof fn a_message_is_shown_and_hidden(
    before: App,
    mid: App,
    after: App,
    uid: u64,
    id: u64,
    s: int,
    t: int,
)
    requires
        error_toggled(before, mid, uid, id),
        error_toggled(mid, after, uid, id),
        stands_at(before, uid, s),
        0 <= t < before.sessions@[s].transfers@.len(),
        before.sessions@[s].transfers@[t].id == id,
        forall|k: int| 0 <= k < t ==> (#[trigger] before.sessions@[s].transfers@[k]).id != id,
    ensures
        mid.sessions@[s].transfers@[t].show_err == !before.sessions@[s].transfers@[t].show_err,
        mid.sessions@[s].transfers@[t].ok == before.sessions@[s].transfers@[t].ok,
        mid.sessions@[s].transfers@[t].id == id,
        mid.sessions@[s].link == before.sessions@[s].link,
{
    lemma_stands(before, uid, s);
    lemma_transfer_pos(before.sessions@[s].transfers@, id);
}

proof fn lemma_oldest(es: Seq<Entry>)
    requires
        es.len() > 0,
    ensures
        0 <= oldest(es) < es.len(),
        forall|j: int| 0 <= j < es.len() ==> es[oldest(es)].last_used <= (#[trigger] es[j]).last_used,
    decreases es.len(),
{
    if es.len() > 1 {
        lemma_oldest(es.drop_last());
        assert(forall|j: int| 0 <= j < es.len() - 1 ==> es.drop_last()[j] == es[j]);
    }
}

/// A store of tickets that is full loses one entry, none of whose fellows was used longer ago, and one
/// that is not full loses none.
pub proof fn only_the_ticket_unused_longest_makes_room(es: Seq<Entry>, i: int)
    requires
        0 <= i < es.len(),
    ensures
        es.len() < 4096 ==> with_room(es) == es,
        es.len() >= 4096 ==> with_room(es).len() == es.len() - 1,
        !with_room(es).contains(es[i]) ==> forall|j: int|
            0 <= j < es.len() ==> es[i].last_used <= (#[trigger] es[j]).last_used,
{
    if es.len() >= 4096 {
        lemma_oldest(es);
        let o = oldest(es);
        let left = es.remove(o);
        if i < o {
            assert(left[i] == es[i]);
        } else if i > o {
            assert(left[i - 1] == es[i]);
        }
    } else {
        assert(es.contains(es[i]));
    }
}

/// A notice that is dismissed is gone and the others stay in order; all are gone once all are cleared.
pub proof fn only_the_dismissed_notice_is_gone(
    before: App,
    after: App,
    c: NoticeClicks,
    focus: Option<usize>,
)
    requires
        notice_frame_ok(before, after, c, focus),
    ensures
        c.clear_all ==> after.ai_notices@.len() == 0,
        !c.clear_all && c.dismiss is None ==> after.ai_notices@ == before.ai_notices@,
        !c.clear_all && c.dismiss is Some && c.dismiss->0 < before.ai_notices@.len()
            ==> after.ai_notices@ == before.ai_notices@.take(c.dismiss->0 as int)
            + before.ai_notices@.skip(c.dismiss->0 + 1),
{
    if !c.clear_all && c.dismiss is Some && c.dismiss->0 < before.ai_notices@.len() {
        let i = c.dismiss->0 as int;
        assert(before.ai_notices@.remove(i) =~= before.ai_notices@.take(i)
            + before.ai_notices@.skip(i + 1));
    }
}

/// A forward to an address that others could reach is set up only once the user accepts it: rejected
/// it is forgotten and nothing is sent, and left unanswered the question stays.
pub proof fn an_open_address_waits_for_its_answer(
    before: App,
    after: App,
    idx: int,
    accept: bool,
    reject: bool,
)
    requires
        open_bind_answered(before, after, idx, accept, reject),
        0 <= idx < before.sessions@.len(),
    ensures
        !accept ==> after.sessions == before.sessions,
        !accept && reject ==> after.fwd.pending_open_bind is None,
        !accept && !reject ==> after == before,
        before.fwd.pending_open_bind is None ==> after == before,
        accept && before.fwd.pending_open_bind is Some && before.fwd.editing is None
            && before.sessions@[idx].link.takes > 0 ==> {
            let asked = before.fwd.pending_open_bind->0;
            let now = after.sessions@[idx];
            &&& after.fwd.pending_open_bind is None
            &&& now.forwards@.len() == before.sessions@[idx].forwards@.len() + 1
            &&& now.forwards@.last().bind_host@ == asked.bind_host@
            &&& now.forwards@.last().bind_port == asked.bind_port
            &&& now.forwards@.last().kind@ == asked.kind@
            &&& crate::window_laws::sets_up(now.link.sent@.last(), now.forwards@.last())
        },
{
    if accept && before.fwd.pending_open_bind is Some && before.fwd.editing is None
        && before.sessions@[idx].link.takes > 0 {
        crate::window_laws::an_added_forward_is_set_up(
            before.sessions@[idx],
            after.sessions@[idx],
            before.fwd.pending_open_bind->0@,
            before.lang,
        );
    }
}

} // verus!
