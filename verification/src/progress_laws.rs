//! How a copy between two sessions gets on: each report brings it to its next step, and its end to the
//! agent that asked for it.
use vstd::prelude::*;
use vstd::string::*;

use crate::app::App;
use crate::cross_copy::{
    advanced, after_copy_done, after_direct_done, after_events, after_relay_source, after_trusted,
    after_untrusted, all_clocks_checked, all_sides_checked, checked_clock, checked_sides, job_pos,
    lemma_side_pos, on_copy_done, on_direct_done, on_relay_source, on_trusted, on_untrusted, side_pos,
    world, CopyEvents, CrossCopyPhase, JobView, Outbox, World,
};
use crate::cross_copy_laws::lemma_side_pos_kept;
use crate::proto::CommandView;
use crate::request_laws::{lemma_stands, stands_at};

verus! {

/// One copy is under way, with time left, and both of its sessions are there and take commands.
spec fn alone(w: World, s: int, d: int, now: u64) -> bool {
    &&& w.jobs.len() == 1
    &&& now < w.jobs[0].deadline
    &&& now <= 0x4000_0000_0000_0000
    &&& 0 <= s < w.sides.len() && 0 <= d < w.sides.len() && s != d
    &&& side_pos(w.sides, w.jobs[0].src_uid) == Some(s)
    &&& side_pos(w.sides, w.jobs[0].dest_uid) == Some(d)
    &&& w.sides[s].connected && w.sides[d].connected
    &&& w.sides[s].takes > 0 && w.sides[d].takes > 0
}

/// Nothing is left to do for the clock and for lost sessions.
spec fn calm(w: World, s: int, d: int, now: u64) -> bool {
    w.jobs.len() == 0 || {
        &&& w.jobs.len() == 1
        &&& now < w.jobs[0].deadline
        &&& now < w.jobs[0].phase_deadline || (w.jobs[0].phase != (CrossCopyPhase::DirectCopying {
            started: false,
        }) && w.jobs[0].phase != CrossCopyPhase::UntrustingAfterDirect)
        &&& 0 <= s < w.sides.len() && 0 <= d < w.sides.len()
        &&& side_pos(w.sides, w.jobs[0].src_uid) == Some(s)
        &&& side_pos(w.sides, w.jobs[0].dest_uid) == Some(d)
        &&& w.sides[s].connected && w.sides[d].connected
    }
}

proof fn lemma_calm(w: World, s: int, d: int, now: u64)
    requires
        calm(w, s, d, now),
    ensures
        all_clocks_checked(
            all_sides_checked(w, w.jobs.len() as int),
            all_sides_checked(w, w.jobs.len() as int).jobs.len() as int,
            now,
        ) == w,
{
    if w.jobs.len() == 1 {
        assert(checked_sides(w, 0) == w);
        assert(all_sides_checked(w, 0) == w);
        assert(all_sides_checked(w, 1) == all_sides_checked(checked_sides(w, 0), 0));
        assert(checked_clock(w, 0, now) == w);
        assert(all_clocks_checked(w, 0, now) == w);
        assert(all_clocks_checked(w, 1, now) == all_clocks_checked(checked_clock(w, 0, now), 0, now));
    }
}

/// These are all the reports of a frame.
pub open spec fn reports(
    ev: CopyEvents,
    trusted: Seq<(u64, bool, String)>,
    done: Seq<(u64, bool, String)>,
    untrusted: Seq<(u64, bool, String)>,
    source: Seq<(u64, Result<u64, String>)>,
    written: Seq<(u64, u64, bool, String)>,
) -> bool {
    &&& ev.temp_key_trusted@ == trusted
    &&& ev.direct_relay_started@.len() == 0
    &&& ev.direct_relay_done@ == done
    &&& ev.temp_key_untrusted@ == untrusted
    &&& ev.relay_source@ == source
    &&& ev.copy_done@ == written
}

proof fn lemma_found(jobs: Seq<JobView>, op: u64)
    requires
        jobs.len() == 1,
        jobs[0].op_id == op,
    ensures
        job_pos(jobs, op) == Some(0int),
{
    reveal_with_fuel(job_pos, 2);
    assert(jobs.drop_last() =~= Seq::empty());
}

proof fn lemma_one_trusted(w: World, ev: CopyEvents, op: u64, ok: bool, msg: String, now: u64)
    requires
        reports(ev, seq![(op, ok, msg)], seq![], seq![], seq![], seq![]),
    ensures
        after_events(w, ev, now) == on_trusted(w, op, ok, now),
{
    let e = seq![(op, ok, msg)];
    assert(e.drop_last() =~= Seq::empty());
    assert(after_trusted(w, Seq::empty(), now) == w);
    assert(after_trusted(w, e, now) == on_trusted(w, op, ok, now));
}

proof fn lemma_one_done(w: World, ev: CopyEvents, op: u64, ok: bool, msg: String, now: u64)
    requires
        reports(ev, seq![], seq![(op, ok, msg)], seq![], seq![], seq![]),
    ensures
        after_events(w, ev, now) == on_direct_done(w, op, ok, msg@, now),
{
    let e = seq![(op, ok, msg)];
    assert(e.drop_last() =~= Seq::empty());
    assert(after_direct_done(w, Seq::empty(), now) == w);
    assert(after_direct_done(w, e, now) == on_direct_done(w, op, ok, msg@, now));
}

proof fn lemma_one_untrusted(w: World, ev: CopyEvents, op: u64, ok: bool, msg: String, now: u64)
    requires
        reports(ev, seq![], seq![], seq![(op, ok, msg)], seq![], seq![]),
    ensures
        after_events(w, ev, now) == on_untrusted(w, op, ok, msg@),
{
    let e = seq![(op, ok, msg)];
    assert(e.drop_last() =~= Seq::empty());
    assert(after_untrusted(w, Seq::empty()) == w);
    assert(after_untrusted(w, e) == on_untrusted(w, op, ok, msg@));
}

proof fn lemma_one_source(w: World, ev: CopyEvents, op: u64, r: Result<u64, String>, now: u64)
    requires
        reports(ev, seq![], seq![], seq![], seq![(op, r)], seq![]),
    ensures
        after_events(w, ev, now) == on_relay_source(w, op, r),
{
    let e = seq![(op, r)];
    assert(e.drop_last() =~= Seq::empty());
    assert(after_relay_source(w, Seq::empty()) == w);
    assert(after_relay_source(w, e) == on_relay_source(w, op, r));
}

proof fn lemma_one_written(w: World, ev: CopyEvents, uid: u64, op: u64, ok: bool, msg: String, now: u64)
    requires
        reports(ev, seq![], seq![], seq![], seq![], seq![(uid, op, ok, msg)]),
    ensures
        after_events(w, ev, now) == on_copy_done(w, uid, op, ok, msg@),
{
    let e = seq![(uid, op, ok, msg)];
    assert(e.drop_last() =~= Seq::empty());
    assert(after_copy_done(w, Seq::empty()) == w);
    assert(after_copy_done(w, e) == on_copy_done(w, uid, op, ok, msg@));
}

proof fn lemma_positions(w: World, v: World, s: int, d: int)
    requires
        w.jobs.len() == 1,
        side_pos(w.sides, w.jobs[0].src_uid) == Some(s),
        side_pos(w.sides, w.jobs[0].dest_uid) == Some(d),
        v.sides.len() == w.sides.len(),
        forall|i: int| 0 <= i < w.sides.len() ==> (#[trigger] v.sides[i]).uid == w.sides[i].uid,
    ensures
        side_pos(v.sides, w.jobs[0].src_uid) == Some(s),
        side_pos(v.sides, w.jobs[0].dest_uid) == Some(d),
{
    lemma_side_pos_kept(w.sides, v.sides, w.jobs[0].src_uid);
    lemma_side_pos_kept(w.sides, v.sides, w.jobs[0].dest_uid);
}

/// One copy is under way, with time left, and both of its sessions are there, are connected and take
/// commands.
pub open spec fn under_way(app: App, s: int, d: int, now: u64) -> bool {
    &&& app.cross_copy_jobs@.len() == 1
    &&& now < app.cross_copy_jobs@[0].deadline
    &&& now <= 0x4000_0000_0000_0000
    &&& s != d
    &&& stands_at(app, app.cross_copy_jobs@[0].src_uid, s)
    &&& stands_at(app, app.cross_copy_jobs@[0].dest_uid, d)
    &&& app.sessions@[s].connected && app.sessions@[d].connected
    &&& app.sessions@[s].link.takes > 0 && app.sessions@[d].link.takes > 0
}

proof fn lemma_alone(app: App, out: Outbox, s: int, d: int, now: u64)
    requires
        under_way(app, s, d, now),
    ensures
        alone(world(app, out), s, d, now),
        world(app, out).jobs[0] == app.cross_copy_jobs@[0]@,
        world(app, out).sides[s] == crate::cross_copy::side(app.sessions@[s]),
        world(app, out).sides[d] == crate::cross_copy::side(app.sessions@[d]),
        world(app, out).sides.len() == app.sessions@.len(),
{
    let j = app.cross_copy_jobs@[0];
    lemma_stands(app, j.src_uid, s);
    lemma_stands(app, j.dest_uid, d);
    lemma_side_pos(app.sessions@, j.src_uid);
    lemma_side_pos(app.sessions@, j.dest_uid);
}

/// One more command was sent to the session at `k`.
spec fn one_more(w: World, v: World, k: int, cmd: CommandView) -> bool {
    &&& v.sides.len() == w.sides.len()
    &&& v.sides[k].log == w.sides[k].log.push(cmd)
}

proof fn lemma_one_more(before: App, out: Outbox, after: App, out2: Outbox, k: int, cmd: CommandView)
    requires
        one_more(world(before, out), world(after, out2), k, cmd),
        0 <= k < before.sessions@.len(),
    ensures
        after.sessions@.len() == before.sessions@.len(),
        after.sessions@[k].link.sent@.len() == before.sessions@[k].link.sent@.len() + 1,
        after.sessions@[k].link.sent@.last()@ == cmd,
{
    let w = world(before, out);
    let v = world(after, out2);
    assert(v.sides.len() == after.sessions@.len());
    assert(w.sides.len() == before.sessions@.len());
    assert(v.sides[k].log == after.sessions@[k].link.log());
    assert(w.sides[k].log == before.sessions@[k].link.log());
    assert(after.sessions@[k].link.log().last() == after.sessions@[k].link.sent@.last()@);
}

proof fn lemma_trusted(w: World, ev: CopyEvents, s: int, d: int, now: u64, ok: bool, msg: String)
    requires
        alone(w, s, d, now),
        w.jobs[0].phase == CrossCopyPhase::TrustingB,
        w.jobs[0].key is Some && w.jobs[0].pipe_writer,
        reports(ev, seq![(w.jobs[0].op_id, ok, msg)], seq![], seq![], seq![], seq![]),
    ensures
        ({
            let v = advanced(w, ev, now);
            let job = w.jobs[0];
            &&& v.jobs.len() == 1
            &&& v.replies == w.replies
            &&& ok ==> v.jobs[0].phase == (CrossCopyPhase::DirectCopying { started: false })
                && v.jobs[0].phase_deadline == now + 20_000 && v.jobs[0].trusted
            &&& ok ==> one_more(
                w,
                v,
                s,
                CommandView::DirectRelayCopy {
                    op_id: job.op_id,
                    src_path: job.src_path,
                    dest_user: w.sides[d].user,
                    dest_host: w.sides[d].host,
                    dest_port: w.sides[d].port,
                    dest_path: job.dest_path,
                    priv_key_pem: job.key->0,
                },
            )
            &&& !ok ==> v.jobs[0].phase == CrossCopyPhase::RelayReading
            &&& !ok ==> one_more(
                w,
                v,
                s,
                CommandView::RelayReadFile { id: job.op_id, remote_path: job.src_path },
            )
        }),
{
    lemma_one_trusted(w, ev, w.jobs[0].op_id, ok, msg, now);
    lemma_found(w.jobs, w.jobs[0].op_id);
    let v = on_trusted(w, w.jobs[0].op_id, ok, now);
    lemma_positions(w, v, s, d);
    lemma_calm(v, s, d, now);
}

/// Once the target trusts the key, the source is told to copy straight to it, with that key, from the
/// path and to the path that the agent named, and has twenty seconds to begin; where the target does
/// not, the source is told to read the file for a copy through this machine.
pub proof fn a_trusted_key_starts_the_direct_copy(
    before: App,
    out: Outbox,
    after: App,
    out2: Outbox,
    ev: CopyEvents,
    now: u64,
    s: int,
    d: int,
    ok: bool,
    msg: String,
)
    requires
        world(after, out2) == advanced(world(before, out), ev, now),
        under_way(before, s, d, now),
        before.cross_copy_jobs@[0].phase == CrossCopyPhase::TrustingB,
        before.cross_copy_jobs@[0].priv_key_pem is Some,
        before.cross_copy_jobs@[0].pipe_writer,
        reports(
            ev,
            seq![(before.cross_copy_jobs@[0].op_id, ok, msg)],
            seq![],
            seq![],
            seq![],
            seq![],
        ),
    ensures
        after.cross_copy_jobs@.len() == 1,
        out2.replies@.len() == out.replies@.len(),
        after.sessions@[s].link.sent@.len() == before.sessions@[s].link.sent@.len() + 1,
        ok ==> {
            let job = before.cross_copy_jobs@[0];
            let cmd = after.sessions@[s].link.sent@.last();
            &&& after.cross_copy_jobs@[0].phase == (CrossCopyPhase::DirectCopying {
                started: false,
            })
            &&& after.cross_copy_jobs@[0].phase_deadline == now + 20_000
            &&& after.cross_copy_jobs@[0].trust_established
            &&& cmd is DirectRelayCopy
            &&& cmd->DirectRelayCopy_op_id == job.op_id
            &&& cmd->DirectRelayCopy_src_path@ == job.src_remote_path@
            &&& cmd->DirectRelayCopy_dest_path@ == job.dest_remote_path@
            &&& cmd->DirectRelayCopy_dest_user@ == before.sessions@[d].cfg.username@
            &&& cmd->DirectRelayCopy_dest_host@ == before.sessions@[d].cfg.host@
            &&& cmd->DirectRelayCopy_dest_port == before.sessions@[d].cfg.port
            &&& cmd->DirectRelayCopy_priv_key_pem@ == job.priv_key_pem->0@
        },
        !ok ==> {
            let job = before.cross_copy_jobs@[0];
            let cmd = after.sessions@[s].link.sent@.last();
            &&& after.cross_copy_jobs@[0].phase == CrossCopyPhase::RelayReading
            &&& cmd is RelayReadFile
            &&& cmd->RelayReadFile_id == job.op_id
            &&& cmd->RelayReadFile_remote_path@ == job.src_remote_path@
        },
{
    let w = world(before, out);
    let v = world(after, out2);
    lemma_alone(before, out, s, d, now);
    lemma_trusted(w, ev, s, d, now, ok, msg);
    let job = w.jobs[0];
    assert(v.jobs.len() == after.cross_copy_jobs@.len());
    assert(v.jobs[0] == after.cross_copy_jobs@[0]@);
    assert(v.replies.len() == out2.replies@.len());
    assert(w.replies.len() == out.replies@.len());
    if ok {
        lemma_one_more(
            before,
            out,
            after,
            out2,
            s,
            CommandView::DirectRelayCopy {
                op_id: job.op_id,
                src_path: job.src_path,
                dest_user: w.sides[d].user,
                dest_host: w.sides[d].host,
                dest_port: w.sides[d].port,
                dest_path: job.dest_path,
                priv_key_pem: job.key->0,
            },
        );
    } else {
        lemma_one_more(
            before,
            out,
            after,
            out2,
            s,
            CommandView::RelayReadFile { id: job.op_id, remote_path: job.src_path },
        );
    }
}

proof fn lemma_done(w: World, ev: CopyEvents, s: int, d: int, now: u64, ok: bool, msg: String)
    requires
        alone(w, s, d, now),
        w.jobs[0].phase is DirectCopying,
        reports(ev, seq![], seq![(w.jobs[0].op_id, ok, msg)], seq![], seq![], seq![]),
    ensures
        ({
            let v = advanced(w, ev, now);
            let job = w.jobs[0];
            &&& v.jobs.len() == 1
            &&& v.replies == w.replies
            &&& v.jobs[0].phase == CrossCopyPhase::UntrustingAfterDirect
            &&& v.jobs[0].phase_deadline == now + 10_000
            &&& v.jobs[0].direct_result is Some
            &&& v.jobs[0].direct_result->0 is Ok <==> ok
            &&& one_more(
                w,
                v,
                d,
                CommandView::UntrustTempKey { op_id: job.op_id, marker: job.marker },
            )
        }),
{
    lemma_one_done(w, ev, w.jobs[0].op_id, ok, msg, now);
    lemma_found(w.jobs, w.jobs[0].op_id);
    let v = on_direct_done(w, w.jobs[0].op_id, ok, msg@, now);
    lemma_positions(w, v, s, d);
    lemma_calm(v, s, d, now);
}

/// Once the direct copy ended, however it did, the target is told to revoke the copy's own key and has
/// ten seconds to confirm that; nothing is answered yet.
pub proof fn the_key_is_revoked_after_the_direct_copy(
    before: App,
    out: Outbox,
    after: App,
    out2: Outbox,
    ev: CopyEvents,
    now: u64,
    s: int,
    d: int,
    ok: bool,
    msg: String,
)
    requires
        world(after, out2) == advanced(world(before, out), ev, now),
        under_way(before, s, d, now),
        before.cross_copy_jobs@[0].phase is DirectCopying,
        reports(
            ev,
            seq![],
            seq![(before.cross_copy_jobs@[0].op_id, ok, msg)],
            seq![],
            seq![],
            seq![],
        ),
    ensures
        after.cross_copy_jobs@.len() == 1,
        after.cross_copy_jobs@[0].phase == CrossCopyPhase::UntrustingAfterDirect,
        after.cross_copy_jobs@[0].phase_deadline == now + 10_000,
        after.cross_copy_jobs@[0].direct_result is Some,
        after.cross_copy_jobs@[0].direct_result->0 is Ok <==> ok,
        out2.replies@.len() == out.replies@.len(),
        after.sessions@[d].link.sent@.len() == before.sessions@[d].link.sent@.len() + 1,
        ({
            let cmd = after.sessions@[d].link.sent@.last();
            &&& cmd is UntrustTempKey
            &&& cmd->UntrustTempKey_op_id == before.cross_copy_jobs@[0].op_id
            &&& cmd->UntrustTempKey_marker@ == before.cross_copy_jobs@[0].marker@
        }),
{
    let w = world(before, out);
    let v = world(after, out2);
    lemma_alone(before, out, s, d, now);
    lemma_done(w, ev, s, d, now, ok, msg);
    let job = w.jobs[0];
    assert(v.jobs.len() == after.cross_copy_jobs@.len());
    assert(v.jobs[0] == after.cross_copy_jobs@[0]@);
    assert(v.replies.len() == out2.replies@.len());
    assert(w.replies.len() == out.replies@.len());
    lemma_one_more(
        before,
        out,
        after,
        out2,
        d,
        CommandView::UntrustTempKey { op_id: job.op_id, marker: job.marker },
    );
}

/// The copy is over, and the agent that waits for it is told that it succeeded, where the file is and
/// how it got there, or that it failed.
pub open spec fn is_over(
    before: App,
    out: Outbox,
    after: App,
    out2: Outbox,
    ok: bool,
    method: Seq<char>,
) -> bool {
    let job = before.cross_copy_jobs@[0];
    let r = out2.replies@.last();
    &&& after.cross_copy_jobs@.len() == 0
    &&& job.waiter is None ==> out2.replies@.len() == out.replies@.len()
    &&& job.waiter is Some ==> {
        &&& out2.replies@.len() == out.replies@.len() + 1
        &&& r.chan == job.waiter->0.chan && r.id == job.req_id
        &&& ok ==> {
            &&& r.result is Ok && r.result->Ok_0 is CopiedBetweenSessions
            &&& r.result->Ok_0->CopiedBetweenSessions_path@ == job.dest_remote_path@
            &&& r.result->Ok_0->CopiedBetweenSessions_method@ == method
        }
        &&& !ok ==> r.result is Err
    }
}

proof fn lemma_over(
    before: App,
    out: Outbox,
    after: App,
    out2: Outbox,
    res: Result<(), Seq<char>>,
    method: Seq<char>,
)
    requires
        before.cross_copy_jobs@.len() == 1,
        world(after, out2).jobs.len() == 0,
        ({
            let job = before.cross_copy_jobs@[0]@;
            world(after, out2).replies == match job.waiter {
                None => world(before, out).replies,
                Some(wt) => world(before, out).replies.push(
                    match res {
                        Ok(()) => crate::protocol::answer(
                            wt.chan,
                            job.req_id,
                            crate::protocol::ResultView::CopiedBetweenSessions {
                                path: job.dest_path,
                                method,
                            },
                        ),
                        Err(m) => crate::protocol::refusal(wt.chan, job.req_id, m),
                    },
                ),
            }
        }),
    ensures
        is_over(before, out, after, out2, res is Ok, method),
        before.cross_copy_jobs@[0].waiter is Some && res is Err
            ==> out2.replies@.last().result->Err_0@ == res->Err_0,
{
    let v = world(after, out2);
    let w = world(before, out);
    assert(v.jobs.len() == after.cross_copy_jobs@.len());
    assert(v.replies.len() == out2.replies@.len());
    assert(w.replies.len() == out.replies@.len());
    if before.cross_copy_jobs@[0].waiter is Some {
        assert(v.replies.last() == out2.replies@.last()@);
    }
}

proof fn lemma_empty(w: World, now: u64)
    requires
        w.jobs.len() == 0,
    ensures
        all_clocks_checked(
            all_sides_checked(w, w.jobs.len() as int),
            all_sides_checked(w, w.jobs.len() as int).jobs.len() as int,
            now,
        ) == w,
{
}

/// Once the key is revoked, a direct copy that succeeded is reported to its agent as one; one that
/// failed goes on through this machine.
pub proof fn a_direct_copy_is_reported_once_its_key_is_gone(
    before: App,
    out: Outbox,
    after: App,
    out2: Outbox,
    ev: CopyEvents,
    now: u64,
    s: int,
    d: int,
    msg: String,
)
    requires
        world(after, out2) == advanced(world(before, out), ev, now),
        under_way(before, s, d, now),
        before.cross_copy_jobs@[0].phase == CrossCopyPhase::UntrustingAfterDirect,
        before.cross_copy_jobs@[0].direct_result is Some,
        before.cross_copy_jobs@[0].pipe_writer,
        reports(
            ev,
            seq![],
            seq![],
            seq![(before.cross_copy_jobs@[0].op_id, true, msg)],
            seq![],
            seq![],
        ),
    ensures
        before.cross_copy_jobs@[0].direct_result->0 is Ok ==> is_over(
            before,
            out,
            after,
            out2,
            true,
            "direct"@,
        ),
        before.cross_copy_jobs@[0].direct_result->0 is Err ==> {
            let cmd = after.sessions@[s].link.sent@.last();
            &&& after.cross_copy_jobs@.len() == 1
            &&& after.cross_copy_jobs@[0].phase == CrossCopyPhase::RelayReading
            &&& !after.cross_copy_jobs@[0].trust_established
            &&& after.sessions@[s].link.sent@.len() == before.sessions@[s].link.sent@.len() + 1
            &&& cmd is RelayReadFile
            &&& cmd->RelayReadFile_id == before.cross_copy_jobs@[0].op_id
            &&& cmd->RelayReadFile_remote_path@ == before.cross_copy_jobs@[0].src_remote_path@
        },
{
    let w = world(before, out);
    lemma_alone(before, out, s, d, now);
    let job = w.jobs[0];
    lemma_one_untrusted(w, ev, job.op_id, true, msg, now);
    lemma_found(w.jobs, job.op_id);
    let v = on_untrusted(w, job.op_id, true, msg@);
    if before.cross_copy_jobs@[0].direct_result->0 is Ok {
        assert(v.jobs.len() == 0);
        lemma_empty(v, now);
        lemma_over(before, out, after, out2, Ok(()), "direct"@);
    } else {
        lemma_positions(w, v, s, d);
        lemma_calm(v, s, d, now);
        assert(v.jobs.len() == after.cross_copy_jobs@.len());
        assert(v.jobs[0] == after.cross_copy_jobs@[0]@);
        lemma_one_more(
            before,
            out,
            after,
            out2,
            s,
            CommandView::RelayReadFile { id: job.op_id, remote_path: job.src_path },
        );
    }
}

/// Once the source says how large the file is, the target is told to write it, of that size, at the
/// path that the agent named; where the source cannot read it, the agent is told why.
pub proof fn what_is_read_is_written(
    before: App,
    out: Outbox,
    after: App,
    out2: Outbox,
    ev: CopyEvents,
    now: u64,
    s: int,
    d: int,
    r: Result<u64, String>,
)
    requires
        world(after, out2) == advanced(world(before, out), ev, now),
        under_way(before, s, d, now),
        before.cross_copy_jobs@[0].phase == CrossCopyPhase::RelayReading,
        before.cross_copy_jobs@[0].pipe_reader,
        reports(
            ev,
            seq![],
            seq![],
            seq![],
            seq![(before.cross_copy_jobs@[0].op_id, r)],
            seq![],
        ),
    ensures
        r is Ok ==> {
            let cmd = after.sessions@[d].link.sent@.last();
            &&& after.cross_copy_jobs@.len() == 1
            &&& after.cross_copy_jobs@[0].phase == CrossCopyPhase::RelayWriting
            &&& out2.replies@.len() == out.replies@.len()
            &&& after.sessions@[d].link.sent@.len() == before.sessions@[d].link.sent@.len() + 1
            &&& cmd is RelayWriteFile
            &&& cmd->RelayWriteFile_id == before.cross_copy_jobs@[0].op_id
            &&& cmd->RelayWriteFile_remote_path@ == before.cross_copy_jobs@[0].dest_remote_path@
            &&& cmd->RelayWriteFile_size == r->Ok_0
        },
        r is Err ==> is_over(before, out, after, out2, false, ""@),
        r is Err && before.cross_copy_jobs@[0].waiter is Some
            ==> out2.replies@.last().result->Err_0@ == r->Err_0@,
{
    let w = world(before, out);
    lemma_alone(before, out, s, d, now);
    let job = w.jobs[0];
    lemma_one_source(w, ev, job.op_id, r, now);
    lemma_found(w.jobs, job.op_id);
    let v = on_relay_source(w, job.op_id, r);
    match r {
        Err(e) => {
            assert(v.jobs.len() == 0);
            lemma_empty(v, now);
            lemma_over(before, out, after, out2, Err(e@), ""@);
        },
        Ok(size) => {
            lemma_positions(w, v, s, d);
            lemma_calm(v, s, d, now);
            assert(v.jobs.len() == after.cross_copy_jobs@.len());
            assert(v.jobs[0] == after.cross_copy_jobs@[0]@);
            assert(v.replies.len() == out2.replies@.len());
            assert(w.replies.len() == out.replies@.len());
            lemma_one_more(
                before,
                out,
                after,
                out2,
                d,
                CommandView::RelayWriteFile { id: job.op_id, remote_path: job.dest_path, size },
            );
        },
    }
}

/// A copy through this machine ends when its target says so, well or not; what its source says of it
/// ends nothing.
pub proof fn the_target_ends_the_copy(
    before: App,
    out: Outbox,
    after: App,
    out2: Outbox,
    ev: CopyEvents,
    now: u64,
    s: int,
    d: int,
    uid: u64,
    ok: bool,
    msg: String,
)
    requires
        world(after, out2) == advanced(world(before, out), ev, now),
        under_way(before, s, d, now),
        before.cross_copy_jobs@[0].phase == CrossCopyPhase::RelayWriting,
        reports(
            ev,
            seq![],
            seq![],
            seq![],
            seq![],
            seq![(uid, before.cross_copy_jobs@[0].op_id, ok, msg)],
        ),
    ensures
        uid == before.cross_copy_jobs@[0].dest_uid ==> is_over(
            before,
            out,
            after,
            out2,
            ok,
            "relay"@,
        ),
        uid == before.cross_copy_jobs@[0].dest_uid && !ok && before.cross_copy_jobs@[0].waiter is Some
            ==> out2.replies@.last().result->Err_0@ == msg@,
        uid != before.cross_copy_jobs@[0].dest_uid ==> after.cross_copy_jobs@.len() == 1
            && after.cross_copy_jobs@[0].phase == CrossCopyPhase::RelayWriting
            && out2.replies@.len() == out.replies@.len(),
{
    let w = world(before, out);
    lemma_alone(before, out, s, d, now);
    let job = w.jobs[0];
    lemma_one_written(w, ev, uid, job.op_id, ok, msg, now);
    lemma_found(w.jobs, job.op_id);
    let v = on_copy_done(w, uid, job.op_id, ok, msg@);
    if uid == job.dest_uid {
        assert(v.jobs.len() == 0);
        lemma_empty(v, now);
        if ok {
            lemma_over(before, out, after, out2, Ok(()), "relay"@);
        } else {
            lemma_over(before, out, after, out2, Err(msg@), ""@);
        }
    } else {
        lemma_calm(v, s, d, now);
        assert(v.jobs.len() == after.cross_copy_jobs@.len());
        assert(v.jobs[0] == after.cross_copy_jobs@[0]@);
        assert(v.replies.len() == out2.replies@.len());
        assert(w.replies.len() == out.replies@.len());
    }
}

/// A copy of which nothing is reported, with both sessions there, waits: past its deadline it is given
/// up and its agent is told so; a direct copy that did not begin in time has its key revoked, and goes
/// on through this machine from there; a direct copy that began is left alone.
pub proof fn a_silent_copy_is_given_up_in_time(
    before: App,
    out: Outbox,
    after: App,
    out2: Outbox,
    ev: CopyEvents,
    now: u64,
    s: int,
    d: int,
)
    requires
        world(after, out2) == advanced(world(before, out), ev, now),
        before.cross_copy_jobs@.len() == 1,
        s != d,
        now <= 0x4000_0000_0000_0000,
        stands_at(before, before.cross_copy_jobs@[0].src_uid, s),
        stands_at(before, before.cross_copy_jobs@[0].dest_uid, d),
        before.sessions@[s].connected && before.sessions@[d].connected,
        before.sessions@[s].link.takes > 0 && before.sessions@[d].link.takes > 0,
        before.cross_copy_jobs@[0].phase != CrossCopyPhase::UntrustingAfterDirect,
        reports(ev, seq![], seq![], seq![], seq![], seq![]),
    ensures
        now >= before.cross_copy_jobs@[0].deadline ==> is_over(before, out, after, out2, false, ""@),
        now < before.cross_copy_jobs@[0].deadline && before.cross_copy_jobs@[0].phase == (
        CrossCopyPhase::DirectCopying { started: false }) && now
            >= before.cross_copy_jobs@[0].phase_deadline ==> {
            let cmd = after.sessions@[d].link.sent@.last();
            &&& after.cross_copy_jobs@.len() == 1
            &&& after.cross_copy_jobs@[0].phase == CrossCopyPhase::UntrustingAfterDirect
            &&& after.cross_copy_jobs@[0].direct_result is Some
            &&& after.cross_copy_jobs@[0].direct_result->0 is Err
            &&& after.cancelled_ops@ == before.cancelled_ops@.push(
                before.cross_copy_jobs@[0].op_id,
            )
            &&& cmd is UntrustTempKey
            &&& cmd->UntrustTempKey_marker@ == before.cross_copy_jobs@[0].marker@
        },
        now < before.cross_copy_jobs@[0].deadline && (before.cross_copy_jobs@[0].phase != (
        CrossCopyPhase::DirectCopying { started: false }) || now
            < before.cross_copy_jobs@[0].phase_deadline) ==> world(after, out2) == world(
            before,
            out,
        ),
{
    let w = world(before, out);
    let j = before.cross_copy_jobs@[0];
    lemma_stands(before, j.src_uid, s);
    lemma_stands(before, j.dest_uid, d);
    lemma_side_pos(before.sessions@, j.src_uid);
    lemma_side_pos(before.sessions@, j.dest_uid);
    assert(w.jobs[0] == j@);
    assert(w.sides[s] == crate::cross_copy::side(before.sessions@[s]));
    assert(w.sides[d] == crate::cross_copy::side(before.sessions@[d]));
    assert(after_events(w, ev, now) == w);
    assert(checked_sides(w, 0) == w);
    assert(all_sides_checked(w, 0) == w);
    assert(all_sides_checked(w, 1) == w);
    let v = checked_clock(w, 0, now);
    assert(all_clocks_checked(v, 0, now) == v);
    assert(all_clocks_checked(w, 1, now) == v);
    assert(world(after, out2) == v);
    if now >= j.deadline {
        assert(v.jobs.len() == 0);
        lemma_over(before, out, after, out2, Err(crate::cross_copy::COPY_TIMED_OUT@), ""@);
    } else if j.phase == (CrossCopyPhase::DirectCopying { started: false }) && now
        >= j.phase_deadline {
        let cmd = CommandView::UntrustTempKey { op_id: j.op_id, marker: j.marker@ };
        assert(v.jobs.len() == after.cross_copy_jobs@.len());
        assert(v.jobs[0] == after.cross_copy_jobs@[0]@);
        assert(one_more(w, v, d, cmd));
        lemma_one_more(before, out, after, out2, d, cmd);
    }
}

/// A copy that lost one of its sessions is over, and its agent is told so; where the target is still
/// there and may trust the key, it is told to revoke it.
pub proof fn a_copy_without_its_session_is_over(
    before: App,
    out: Outbox,
    after: App,
    out2: Outbox,
    ev: CopyEvents,
    now: u64,
    s: int,
    d: int,
)
    requires
        world(after, out2) == advanced(world(before, out), ev, now),
        before.cross_copy_jobs@.len() == 1,
        s != d,
        stands_at(before, before.cross_copy_jobs@[0].src_uid, s),
        stands_at(before, before.cross_copy_jobs@[0].dest_uid, d),
        !before.sessions@[s].connected || !before.sessions@[d].connected,
        before.cross_copy_jobs@[0].phase != CrossCopyPhase::UntrustingAfterDirect,
        reports(ev, seq![], seq![], seq![], seq![], seq![]),
    ensures
        is_over(before, out, after, out2, false, ""@),
        (before.cross_copy_jobs@[0].trust_established || before.cross_copy_jobs@[0].phase
            == CrossCopyPhase::TrustingB) && before.sessions@[d].connected
            && before.sessions@[d].link.takes > 0 ==> {
            let n = before.sessions@[d].link.sent@.len() as int;
            let cmd = after.sessions@[d].link.sent@[n];
            &&& after.sessions@[d].link.sent@.len() > n
            &&& cmd is UntrustTempKey
            &&& cmd->UntrustTempKey_op_id == before.cross_copy_jobs@[0].op_id
            &&& cmd->UntrustTempKey_marker@ == before.cross_copy_jobs@[0].marker@
        },
{
    let w = world(before, out);
    let j = before.cross_copy_jobs@[0];
    lemma_stands(before, j.src_uid, s);
    lemma_stands(before, j.dest_uid, d);
    lemma_side_pos(before.sessions@, j.src_uid);
    lemma_side_pos(before.sessions@, j.dest_uid);
    assert(w.jobs[0] == j@);
    assert(w.sides[s] == crate::cross_copy::side(before.sessions@[s]));
    assert(w.sides[d] == crate::cross_copy::side(before.sessions@[d]));
    assert(after_events(w, ev, now) == w);
    let v = checked_sides(w, 0);
    let msg = crate::cross_copy::trouble(w, j@)->0;
    assert(crate::cross_copy::trouble(w, j@) is Some);
    assert(v == crate::cross_copy::given_up(w, 0, msg));
    assert(v.jobs.len() == 0);
    assert(all_sides_checked(v, 0) == v);
    assert(all_sides_checked(w, 1) == v);
    assert(all_clocks_checked(v, 0, now) == v);
    assert(world(after, out2) == v);
    lemma_over(before, out, after, out2, Err(msg), ""@);
    if (j.trust_established || j.phase == CrossCopyPhase::TrustingB) && before.sessions@[d].connected
        && before.sessions@[d].link.takes > 0 {
        let n = before.sessions@[d].link.sent@.len() as int;
        let cmd = CommandView::UntrustTempKey { op_id: j.op_id, marker: j.marker@ };
        let a = crate::cross_copy::stopped(w, 0);
        let b = crate::cross_copy::untrusted(a, j.dest_uid, j.op_id, j.marker@);
        assert(b.sides[d].log == w.sides[d].log.push(cmd));
        let gone = World { jobs: b.jobs.remove(0), ..b };
        let c = crate::cross_copy::released(gone, j.src_uid, j.op_id, true);
        lemma_side_pos_kept(w.sides, b.sides, j.src_uid);
        lemma_side_pos_kept(w.sides, b.sides, j.dest_uid);
        assert(c.sides[d].log == b.sides[d].log);
        lemma_side_pos_kept(b.sides, c.sides, j.dest_uid);
        assert(b.sides[d].log.is_prefix_of(v.sides[d].log));
        assert(v.sides[d].log[n] == cmd);
        assert(v.sides[d].log == after.sessions@[d].link.log());
        assert(after.sessions@[d].link.log()[n] == after.sessions@[d].link.sent@[n]@);
    }
}

} // verus!
