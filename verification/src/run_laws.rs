//! What holds of the commands that agents run, from the request to the last reply.
use vstd::prelude::*;

use crate::agent_calls::Moment;
use crate::agent_runs::poll_run_ok;
use crate::app::{uid_pos, App};
use crate::events::{disconnects, EventEnv};
use crate::protocol::{reply_view, Reply, ReplyView};
use crate::runs::{run_abandoned, run_outcome, run_report, run_settles, RECLAIM_IDLE};
use crate::session::Session;

verus! {

/// The result of a run that ends while nobody waits is not lost: the next one who asks for the run
/// gets it, with its exit code, and the session is free again.
pub proof fn a_finished_run_is_not_lost(
    running: Session,
    ended: Session,
    first: Option<Reply>,
    then: u64,
    before: App,
    after: App,
    replies: Seq<Reply>,
    chan: u64,
    id: u64,
    uid: u64,
    run_id: Option<u64>,
    timeout_ms: u64,
    actor: Option<String>,
    m: Moment,
    last: Session,
    second: Option<Reply>,
    now: u64,
    i: int,
)
    requires
        running.pending_ai_run is Some,
        running.pending_ai_run->0.waiter is None,
        run_outcome(running.pending_ai_run->0, running.terminal.done) is Some,
        !run_abandoned(running, then),
        run_settles(running, ended, first, then),
        uid_pos(before.sessions@, uid) == Some(i),
        0 <= i < before.sessions@.len(),
        before.sessions@[i] == ended,
        run_id is None || run_id == Some(running.pending_ai_run->0.run_id),
        poll_run_ok(before, after, replies, chan, id, uid, run_id, timeout_ms, actor, m),
        run_settles(after.sessions@[i], last, second, now),
    ensures
        first is None,
        replies.len() == 0,
        ({
            let p = running.pending_ai_run->0;
            let r = run_outcome(p, running.terminal.done)->0;
            reply_view(second) == Some(run_report(chan, id, p.run_id, r.1, Some(r.0)))
        }),
        last.pending_ai_run is None,
{
}

/// A run that is done before its connection is lost keeps its result.
pub proof fn a_lost_connection_keeps_a_finished_result(
    before: Session,
    after: Session,
    replies: Seq<ReplyView>,
    reason: Seq<char>,
    env: EventEnv,
)
    requires
        disconnects(before, after, replies, reason, env),
        before.pending_ai_run is Some,
        before.pending_ai_run->0.finished_result is Some,
    ensures
        after.pending_ai_run == before.pending_ai_run,
{
}

/// A run that somebody waits for, that still prints, or that somebody asked for not long ago is
/// never reclaimed: it stays, or it is reported finished to the one who waits.
pub proof fn a_watched_run_is_never_reclaimed(
    before: Session,
    after: Session,
    reply: Option<Reply>,
    now: u64,
)
    requires
        run_settles(before, after, reply, now),
        before.pending_ai_run is Some,
        ({
            let p = before.pending_ai_run->0;
            ||| p.waiter is Some && !p.waiter->0.closed
            ||| before.terminal.output_idle_ms < RECLAIM_IDLE
            ||| now - p.last_poll_at < RECLAIM_IDLE
        }),
    ensures
        after.pending_ai_run is None ==> {
            let p = before.pending_ai_run->0;
            let r = run_outcome(p, before.terminal.done);
            &&& p.waiter is Some
            &&& r is Some
            &&& reply_view(reply) == Some(
                run_report(p.waiter->0.chan, p.req_id, p.run_id, (r->0).1, Some((r->0).0)),
            )
        },
        after.pending_ai_run is Some ==> after.pending_ai_run->0.run_id
            == before.pending_ai_run->0.run_id,
{
}

/// Nobody is answered twice: whoever gets a reply is the one who waited, and waits no longer.
pub proof fn a_waiting_agent_is_answered_once(
    before: Session,
    after: Session,
    reply: Option<Reply>,
    now: u64,
)
    requires
        run_settles(before, after, reply, now),
        reply is Some,
    ensures
        before.pending_ai_run is Some,
        before.pending_ai_run->0.waiter is Some,
        reply->0.chan == before.pending_ai_run->0.waiter->0.chan,
        reply->0.id == before.pending_ai_run->0.req_id,
        after.pending_ai_run is None || after.pending_ai_run->0.waiter is None,
{
    assert(reply_view(reply) == Some(reply->0@));
}

} // verus!
