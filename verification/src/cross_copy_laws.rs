//! What holds of every copy between two sessions, whatever is reported and whenever.
use vstd::prelude::*;
use vstd::string::*;

use crate::cross_copy::{
    advanced, after_copy_done, after_direct_done, after_events, after_relay_source, after_started,
    after_trusted, after_untrust, after_untrusted, all_clocks_checked, all_sides_checked,
    checked_clock, checked_sides, direct_finished, direct_started, given_up, job_pos, lemma_job_pos,
    maybe_trusted, on_copy_done, on_direct_done, on_relay_source, on_started, on_trusted,
    on_untrusted, relayed, released, residue_line, resolved, sent, side_pos, stopped, trouble,
    untrusted, untrusted_then_relayed, warned, with_job, CopyEvents, CrossCopyPhase, JobView, Side,
    World, COPY_TIMED_OUT, DEST_DOWN, DEST_GONE, DEST_SEND_FAILED, DIRECT_TIMED_OUT, NO_TIME_1,
    NO_TIME_2, PIPE_READER_LOST, PIPE_WRITER_LOST, RECEIPT_MISSING, RESULT_LOST, SRC_GONE,
    SRC_SEND_FAILED, UNTRUST_WAIT,
};
use crate::file_ops::{without_copy, FileOpKind, PendingAiFileOp};
use crate::proto::CommandView;
use crate::protocol::{answer, refusal, ResultView};

verus! {

/// Nothing that was sent or logged is taken back.
pub open spec fn grows(w: World, v: World) -> bool {
    &&& v.sides.len() == w.sides.len()
    &&& forall|k: int|
        0 <= k < w.sides.len() ==> #[trigger] w.sides[k].log.is_prefix_of(v.sides[k].log)
            && v.sides[k].uid == w.sides[k].uid
    &&& w.lines.is_prefix_of(v.lines)
}

proof fn lemma_grows_trans(a: World, b: World, c: World)
    requires
        grows(a, b),
        grows(b, c),
    ensures
        grows(a, c),
{
    assert forall|k: int| 0 <= k < a.sides.len() implies #[trigger] a.sides[k].log.is_prefix_of(
        c.sides[k].log,
    ) && c.sides[k].uid == a.sides[k].uid by {
        assert(a.sides[k].log.is_prefix_of(b.sides[k].log));
        assert(b.sides[k].log.is_prefix_of(c.sides[k].log));
    }
}

proof fn lemma_grows_from(w: World, same: World, v: World)
    requires
        same.sides == w.sides,
        same.lines == w.lines,
        grows(same, v),
    ensures
        grows(w, v),
{
    assert forall|k: int| 0 <= k < w.sides.len() implies #[trigger] w.sides[k].log.is_prefix_of(
        v.sides[k].log,
    ) && v.sides[k].uid == w.sides[k].uid by {
        assert(same.sides[k].log.is_prefix_of(v.sides[k].log));
    }
}

/// The revocation of a key was sent.
pub open spec fn revocation_sent(w: World, j: JobView) -> bool {
    exists|k: int|
        0 <= k < w.sides.len() && (#[trigger] w.sides[k]).log.contains(
            CommandView::UntrustTempKey { op_id: j.op_id, marker: j.marker },
        )
}

/// The log says that a key may be left behind, and on which line to find it.
pub open spec fn residue_reported(w: World, j: JobView) -> bool {
    exists|reason: Seq<char>|
        w.lines.contains(#[trigger] residue_line(j.dest_uid, j.marker, reason))
}

/// A key is accounted for: its revocation was sent, or the user was warned.
pub open spec fn handled(w: World, j: JobView) -> bool {
    revocation_sent(w, j) || residue_reported(w, j)
}

proof fn lemma_handled_grows(w: World, v: World, j: JobView)
    requires
        grows(w, v),
        handled(w, j),
    ensures
        handled(v, j),
{
    if revocation_sent(w, j) {
        let cmd = CommandView::UntrustTempKey { op_id: j.op_id, marker: j.marker };
        let k = choose|k: int| 0 <= k < w.sides.len() && (#[trigger] w.sides[k]).log.contains(cmd);
        let n = choose|n: int| 0 <= n < w.sides[k].log.len() && w.sides[k].log[n] == cmd;
        assert(w.sides[k].log.is_prefix_of(v.sides[k].log));
        assert(v.sides[k].log[n] == cmd);
        assert(v.sides[k].log.contains(cmd));
    } else {
        let reason = choose|reason: Seq<char>|
            w.lines.contains(#[trigger] residue_line(j.dest_uid, j.marker, reason));
        let line = residue_line(j.dest_uid, j.marker, reason);
        let n = choose|n: int| 0 <= n < w.lines.len() && w.lines[n] == line;
        assert(v.lines[n] == line);
        assert(v.lines.contains(line));
    }
}

proof fn lemma_side_bound(sides: Seq<Side>, uid: u64)
    ensures
        side_pos(sides, uid) is Some ==> 0 <= side_pos(sides, uid)->0 < sides.len(),
    decreases sides.len(),
{
    if sides.len() > 0 {
        lemma_side_bound(sides.drop_last(), uid);
    }
}

proof fn lemma_sent_grows(w: World, i: int, cmd: CommandView)
    requires
        0 <= i < w.sides.len(),
    ensures
        grows(w, sent(w, i, cmd)),
        sent(w, i, cmd).jobs == w.jobs,
{
}

proof fn lemma_warned_grows(w: World, dest_uid: u64, marker: Seq<char>, reason: Seq<char>)
    ensures
        grows(w, warned(w, dest_uid, marker, reason)),
        warned(w, dest_uid, marker, reason).jobs == w.jobs,
        warned(w, dest_uid, marker, reason).lines.contains(residue_line(dest_uid, marker, reason)),
{
    lemma_side_bound(w.sides, dest_uid);
    let line = residue_line(dest_uid, marker, reason);
    assert(w.lines.push(line)[w.lines.len() as int] == line);
}

/// Revoking a key is never silent: the command is sent, or the user is warned.
pub proof fn untrust_is_never_silent(w: World, j: JobView)
    ensures
        handled(untrusted(w, j.dest_uid, j.op_id, j.marker), j),
        grows(w, untrusted(w, j.dest_uid, j.op_id, j.marker)),
        untrusted(w, j.dest_uid, j.op_id, j.marker).jobs == w.jobs,
{
    lemma_side_bound(w.sides, j.dest_uid);
    let v = untrusted(w, j.dest_uid, j.op_id, j.marker);
    lemma_warned_grows(w, j.dest_uid, j.marker, crate::cross_copy::DEST_GONE_UNTRUST@);
    lemma_warned_grows(w, j.dest_uid, j.marker, crate::cross_copy::DEST_DOWN_UNTRUST@);
    lemma_warned_grows(w, j.dest_uid, j.marker, crate::cross_copy::UNTRUST_NOT_SENT@);
    match side_pos(w.sides, j.dest_uid) {
        Some(i) => {
            if w.sides[i].connected && w.sides[i].takes > 0 {
                let cmd = CommandView::UntrustTempKey { op_id: j.op_id, marker: j.marker };
                lemma_sent_grows(w, i, cmd);
                assert(v.sides[i].log[w.sides[i].log.len() as int] == cmd);
                assert(v.sides[i].log.contains(cmd));
            }
        },
        None => {},
    }
}

proof fn lemma_released_grows(w: World, uid: u64, op_id: u64, cancel: bool)
    ensures
        grows(w, released(w, uid, op_id, cancel)),
        released(w, uid, op_id, cancel).jobs == w.jobs,
{
    lemma_side_bound(w.sides, uid);
    match side_pos(w.sides, uid) {
        Some(i) => {
            lemma_sent_grows(w, i, CommandView::CancelTransfer(op_id));
        },
        None => {},
    }
}

proof fn lemma_resolved_grows(w: World, idx: int, result: Result<(), Seq<char>>, method: Seq<char>)
    requires
        0 <= idx < w.jobs.len(),
    ensures
        grows(w, resolved(w, idx, result, method)),
        resolved(w, idx, result, method).jobs == w.jobs.remove(idx),
{
    let job = w.jobs[idx];
    let cancel = result is Err;
    let gone = World { jobs: w.jobs.remove(idx), ..w };
    lemma_released_grows(gone, job.src_uid, job.op_id, cancel);
    let half = released(gone, job.src_uid, job.op_id, cancel);
    lemma_released_grows(half, job.dest_uid, job.op_id, cancel);
    let freed = released(half, job.dest_uid, job.op_id, cancel);
    lemma_grows_trans(gone, half, freed);
    let v = resolved(w, idx, result, method);
    assert(v.sides == freed.sides && v.lines == freed.lines);
    assert forall|k: int| 0 <= k < w.sides.len() implies #[trigger] w.sides[k].log.is_prefix_of(
        v.sides[k].log,
    ) && v.sides[k].uid == w.sides[k].uid by {
        assert(gone.sides[k].log.is_prefix_of(freed.sides[k].log));
    }
}

/// Only the copy at `i` changed, or it is gone.
spec fn jobs_except(w: World, v: World, i: int) -> bool {
    ||| v.jobs == w.jobs.remove(i)
    ||| v.jobs.len() == w.jobs.len() && forall|k: int|
        0 <= k < w.jobs.len() && k != i ==> #[trigger] v.jobs[k] == w.jobs[k]
}

proof fn lemma_relayed_grows(w: World, idx: int)
    requires
        0 <= idx < w.jobs.len(),
    ensures
        grows(w, relayed(w, idx)),
        jobs_except(w, relayed(w, idx), idx),
{
    let job = w.jobs[idx];
    let used = with_job(w, idx, JobView { pipe_writer: false, ..job });
    assert(used.jobs.remove(idx) =~= w.jobs.remove(idx));
    lemma_resolved_grows(w, idx, Err(PIPE_WRITER_LOST@), ""@);
    lemma_resolved_grows(used, idx, Err(SRC_GONE@), ""@);
    lemma_resolved_grows(used, idx, Err(SRC_SEND_FAILED@), ""@);
    lemma_side_bound(w.sides, job.src_uid);
    match side_pos(w.sides, job.src_uid) {
        Some(i) => {
            lemma_sent_grows(
                used,
                i,
                CommandView::RelayReadFile { id: job.op_id, remote_path: job.src_path },
            );
        },
        None => {},
    }
}

proof fn lemma_untrusted_then_relayed(w: World, idx: int)
    requires
        0 <= idx < w.jobs.len(),
    ensures
        grows(w, untrusted_then_relayed(w, idx)),
        jobs_except(w, untrusted_then_relayed(w, idx), idx),
        handled(untrusted_then_relayed(w, idx), w.jobs[idx]),
{
    let job = w.jobs[idx];
    let u = untrusted(w, job.dest_uid, job.op_id, job.marker);
    untrust_is_never_silent(w, job);
    lemma_relayed_grows(u, idx);
    lemma_grows_trans(w, u, relayed(u, idx));
    lemma_handled_grows(u, relayed(u, idx), job);
}

/// The key of this copy may be in use by it: it waits for the target's trust, or it is copying
/// directly.
pub open spec fn holds_key(job: JobView, j: JobView) -> bool {
    &&& job.op_id == j.op_id
    &&& job.dest_uid == j.dest_uid
    &&& job.marker == j.marker
    &&& job.phase == CrossCopyPhase::TrustingB || (job.phase is DirectCopying && job.trusted)
}

/// The key of copy `j` is in use by a copy that is under way.
pub open spec fn in_use(w: World, j: JobView) -> bool {
    exists|i: int| 0 <= i < w.jobs.len() && holds_key(#[trigger] w.jobs[i], j)
}

/// The key of copy `j` is in use or accounted for.
pub open spec fn looked_after(w: World, j: JobView) -> bool {
    in_use(w, j) || handled(w, j)
}

proof fn lemma_same_key(w: World, a: JobView, j: JobView)
    requires
        a.op_id == j.op_id,
        a.dest_uid == j.dest_uid,
        a.marker == j.marker,
        handled(w, a),
    ensures
        handled(w, j),
{
    if residue_reported(w, a) {
        let reason = choose|reason: Seq<char>|
            w.lines.contains(#[trigger] residue_line(a.dest_uid, a.marker, reason));
        assert(w.lines.contains(residue_line(j.dest_uid, j.marker, reason)));
    }
}

proof fn lemma_others(w: World, v: World, i: int, j: JobView)
    requires
        grows(w, v),
        0 <= i < w.jobs.len(),
        jobs_except(w, v, i),
        looked_after(w, j),
        holds_key(w.jobs[i], j) ==> looked_after(v, j),
    ensures
        looked_after(v, j),
{
    if handled(w, j) {
        lemma_handled_grows(w, v, j);
    } else {
        let k = choose|k: int| 0 <= k < w.jobs.len() && holds_key(#[trigger] w.jobs[k], j);
        if k != i {
            if v.jobs == w.jobs.remove(i) {
                if k < i {
                    assert(v.jobs[k] == w.jobs[k]);
                } else {
                    assert(v.jobs[k - 1] == w.jobs[k]);
                }
            } else {
                assert(v.jobs[k] == w.jobs[k]);
            }
        }
    }
}

proof fn lemma_direct_started(w: World, i: int, now: u64, j: JobView)
    requires
        0 <= i < w.jobs.len(),
        looked_after(w, j),
        w.jobs[i].trusted,
    ensures
        looked_after(direct_started(w, i, now), j),
        grows(w, direct_started(w, i, now)),
{
    let job = w.jobs[i];
    let v = direct_started(w, i, now);
    let spent = with_job(w, i, JobView { key: None, ..job });
    lemma_untrusted_then_relayed(w, i);
    lemma_untrusted_then_relayed(spent, i);
    lemma_grows_from(w, spent, untrusted_then_relayed(spent, i));
    lemma_side_bound(w.sides, job.src_uid);
    lemma_side_bound(w.sides, job.dest_uid);
    assert(spent.jobs.remove(i) =~= w.jobs.remove(i));
    assert(jobs_except(w, untrusted_then_relayed(spent, i), i)) by {
        let u = untrusted_then_relayed(spent, i);
        if u.jobs != spent.jobs.remove(i) {
            assert forall|k: int| 0 <= k < w.jobs.len() && k != i implies #[trigger] u.jobs[k]
                == w.jobs[k] by {
                assert(spent.jobs[k] == w.jobs[k]);
            }
        }
    }
    match side_pos(w.sides, job.src_uid) {
        Some(s) => match side_pos(w.sides, job.dest_uid) {
            Some(d) => match job.key {
                Some(key) => {
                    let cmd = CommandView::DirectRelayCopy {
                        op_id: job.op_id,
                        src_path: job.src_path,
                        dest_user: w.sides[d].user,
                        dest_host: w.sides[d].host,
                        dest_port: w.sides[d].port,
                        dest_path: job.dest_path,
                        priv_key_pem: key,
                    };
                    lemma_sent_grows(spent, s, cmd);
                    if w.sides[s].connected && w.sides[s].takes > 0 {
                        assert(v.sides == sent(spent, s, cmd).sides);
                        assert(v.lines == sent(spent, s, cmd).lines);
                        assert(grows(spent, v));
                        lemma_grows_from(w, spent, v);
                    }
                },
                None => {},
            },
            None => {},
        },
        None => {},
    }
    assert(grows(w, v));
    assert(jobs_except(w, v, i));
    if holds_key(job, j) {
        if v.jobs.len() == w.jobs.len() && v.jobs[i].phase is DirectCopying {
            assert(holds_key(v.jobs[i], j));
        } else {
            lemma_same_key(v, job, j);
        }
    }
    lemma_others(w, v, i, j);
}

proof fn lemma_direct_finished(
    w: World,
    i: int,
    result: Result<(), Seq<char>>,
    now: u64,
    j: JobView,
)
    requires
        0 <= i < w.jobs.len(),
        looked_after(w, j),
    ensures
        looked_after(direct_finished(w, i, result, now), j),
        grows(w, direct_finished(w, i, result, now)),
{
    let job = w.jobs[i];
    let mid = with_job(
        w,
        i,
        JobView {
            direct_result: Some(result),
            phase: CrossCopyPhase::UntrustingAfterDirect,
            phase_deadline: (now + UNTRUST_WAIT) as u64,
            ..job
        },
    );
    let v = direct_finished(w, i, result, now);
    untrust_is_never_silent(mid, job);
    assert(grows(w, v));
    if holds_key(job, j) {
        lemma_same_key(v, job, j);
    }
    lemma_others(w, v, i, j);
}

proof fn lemma_after_untrust(w: World, i: int, allow: bool, j: JobView)
    requires
        0 <= i < w.jobs.len(),
        looked_after(w, j),
        w.jobs[i].phase == CrossCopyPhase::UntrustingAfterDirect,
    ensures
        looked_after(after_untrust(w, i, allow), j),
        grows(w, after_untrust(w, i, allow)),
{
    let job = w.jobs[i];
    let taken = with_job(w, i, JobView { direct_result: None, ..job });
    let v = after_untrust(w, i, allow);
    assert(taken.jobs.remove(i) =~= w.jobs.remove(i));
    assert(grows(taken, v) ==> grows(w, v)) by {
        if grows(taken, v) {
            lemma_grows_from(w, taken, v);
        }
    }
    match job.direct_result {
        Some(Ok(())) => {
            lemma_resolved_grows(taken, i, Ok(()), "direct"@);
        },
        Some(Err(e)) => {
            lemma_relayed_grows(taken, i);
            lemma_resolved_grows(taken, i, Err(NO_TIME_1@ + e + NO_TIME_2@), ""@);
            if allow && v.jobs != taken.jobs.remove(i) {
                assert forall|k: int| 0 <= k < w.jobs.len() && k != i implies #[trigger] v.jobs[k]
                    == w.jobs[k] by {
                    assert(taken.jobs[k] == w.jobs[k]);
                }
            }
        },
        None => {
            lemma_resolved_grows(taken, i, Err(RESULT_LOST@), ""@);
        },
    }
    assert(grows(w, v));
    assert(jobs_except(w, v, i));
    lemma_others(w, v, i, j);
}

proof fn lemma_given_up(w: World, i: int, msg: Seq<char>, j: JobView)
    requires
        0 <= i < w.jobs.len(),
        looked_after(w, j),
    ensures
        looked_after(given_up(w, i, msg), j),
        grows(w, given_up(w, i, msg)),
{
    let job = w.jobs[i];
    let a = stopped(w, i);
    let b = if maybe_trusted(job) {
        untrusted(a, job.dest_uid, job.op_id, job.marker)
    } else {
        a
    };
    let v = given_up(w, i, msg);
    untrust_is_never_silent(a, job);
    lemma_resolved_grows(b, i, Err(msg), ""@);
    assert(grows(w, a));
    assert(grows(w, b)) by {
        if maybe_trusted(job) {
            lemma_grows_trans(w, a, b);
        }
    }
    lemma_grows_trans(w, b, v);
    if holds_key(job, j) {
        lemma_handled_grows(b, v, job);
        lemma_same_key(v, job, j);
    }
    lemma_others(w, v, i, j);
}

proof fn lemma_checked_sides(w: World, i: int, j: JobView)
    requires
        0 <= i < w.jobs.len(),
        looked_after(w, j),
    ensures
        looked_after(checked_sides(w, i), j),
{
    let job = w.jobs[i];
    if job.phase == CrossCopyPhase::UntrustingAfterDirect {
        lemma_warned_grows(w, job.dest_uid, job.marker, RECEIPT_MISSING@);
        let v = checked_sides(w, i);
        assert(grows(w, v));
        lemma_others(w, v, i, j);
    } else {
        match trouble(w, job) {
            Some(msg) => {
                lemma_given_up(w, i, msg, j);
            },
            None => {},
        }
    }
}

proof fn lemma_checked_clock(w: World, i: int, now: u64, j: JobView)
    requires
        0 <= i < w.jobs.len(),
        looked_after(w, j),
    ensures
        looked_after(checked_clock(w, i, now), j),
{
    let job = w.jobs[i];
    if now >= job.deadline {
        if job.phase == CrossCopyPhase::UntrustingAfterDirect {
            lemma_after_untrust(w, i, false, j);
        } else {
            lemma_given_up(w, i, COPY_TIMED_OUT@, j);
        }
    } else if job.phase == (CrossCopyPhase::DirectCopying { started: false }) && now
        >= job.phase_deadline {
        let a = stopped(w, i);
        assert(a.jobs == w.jobs);
        assert(grows(w, a));
        assert(looked_after(a, j)) by {
            if handled(w, j) {
                lemma_handled_grows(w, a, j);
            } else {
                let k = choose|k: int| 0 <= k < w.jobs.len() && holds_key(#[trigger] w.jobs[k], j);
                assert(holds_key(a.jobs[k], j));
            }
        }
        lemma_direct_finished(a, i, Err(DIRECT_TIMED_OUT@), now, j);
    } else if job.phase == CrossCopyPhase::UntrustingAfterDirect && now >= job.phase_deadline {
        lemma_after_untrust(w, i, true, j);
    }
}

proof fn lemma_on_trusted(w: World, op_id: u64, ok: bool, now: u64, j: JobView)
    requires
        looked_after(w, j),
        ok || op_id != j.op_id,
    ensures
        looked_after(on_trusted(w, op_id, ok, now), j),
{
    lemma_job_pos(w.jobs, op_id);
    match job_pos(w.jobs, op_id) {
        None => {},
        Some(i) => {
            if w.jobs[i].phase == CrossCopyPhase::TrustingB {
                if !ok {
                    lemma_relayed_grows(w, i);
                    lemma_others(w, relayed(w, i), i, j);
                } else {
                    let mid = with_job(w, i, JobView { trusted: true, ..w.jobs[i] });
                    assert(grows(w, mid));
                    if holds_key(w.jobs[i], j) {
                        assert(holds_key(mid.jobs[i], j));
                    }
                    lemma_others(w, mid, i, j);
                    lemma_direct_started(mid, i, now, j);
                }
            }
        },
    }
}

proof fn lemma_on_started(w: World, op_id: u64, j: JobView)
    requires
        looked_after(w, j),
    ensures
        looked_after(on_started(w, op_id), j),
{
    lemma_job_pos(w.jobs, op_id);
    match job_pos(w.jobs, op_id) {
        None => {},
        Some(i) => {
            let v = on_started(w, op_id);
            assert(grows(w, v));
            if holds_key(w.jobs[i], j) {
                assert(holds_key(v.jobs[i], j));
            }
            lemma_others(w, v, i, j);
        },
    }
}

proof fn lemma_on_direct_done(w: World, op_id: u64, ok: bool, msg: Seq<char>, now: u64, j: JobView)
    requires
        looked_after(w, j),
    ensures
        looked_after(on_direct_done(w, op_id, ok, msg, now), j),
{
    lemma_job_pos(w.jobs, op_id);
    match job_pos(w.jobs, op_id) {
        None => {},
        Some(i) => {
            if w.jobs[i].phase is DirectCopying {
                let result: Result<(), Seq<char>> = if ok {
                    Ok(())
                } else {
                    Err(msg)
                };
                lemma_direct_finished(w, i, result, now, j);
            }
        },
    }
}

proof fn lemma_on_untrusted(w: World, op_id: u64, ok: bool, msg: Seq<char>, j: JobView)
    requires
        looked_after(w, j),
        !ok || op_id != j.op_id,
    ensures
        looked_after(on_untrusted(w, op_id, ok, msg), j),
{
    lemma_job_pos(w.jobs, op_id);
    match job_pos(w.jobs, op_id) {
        None => {},
        Some(i) => {
            let job = w.jobs[i];
            let reason = crate::cross_copy::untrust_failure(msg);
            let told = if ok {
                with_job(w, i, JobView { trusted: false, ..job })
            } else {
                warned(w, job.dest_uid, job.marker, reason)
            };
            lemma_warned_grows(w, job.dest_uid, job.marker, reason);
            assert(grows(w, told));
            if holds_key(job, j) {
                assert(!ok);
                assert(holds_key(told.jobs[i], j));
            }
            lemma_others(w, told, i, j);
            if job.phase == CrossCopyPhase::UntrustingAfterDirect {
                lemma_after_untrust(told, i, true, j);
            }
        },
    }
}

proof fn lemma_on_relay_source(w: World, op_id: u64, result: Result<u64, String>, j: JobView)
    requires
        looked_after(w, j),
    ensures
        looked_after(on_relay_source(w, op_id, result), j),
{
    lemma_job_pos(w.jobs, op_id);
    match job_pos(w.jobs, op_id) {
        None => {},
        Some(i) => {
            if w.jobs[i].phase == CrossCopyPhase::RelayReading {
                let job = w.jobs[i];
                let used = with_job(w, i, JobView { pipe_reader: false, ..job });
                assert(used.jobs.remove(i) =~= w.jobs.remove(i));
                let v = on_relay_source(w, op_id, result);
                lemma_side_bound(w.sides, job.dest_uid);
                lemma_resolved_grows(w, i, Err(PIPE_READER_LOST@), ""@);
                lemma_resolved_grows(used, i, Err(DEST_GONE@), ""@);
                lemma_resolved_grows(used, i, Err(DEST_DOWN@), ""@);
                lemma_resolved_grows(used, i, Err(DEST_SEND_FAILED@), ""@);
                match result {
                    Err(msg) => {
                        lemma_resolved_grows(w, i, Err(msg@), ""@);
                    },
                    Ok(size) => {
                        match side_pos(w.sides, job.dest_uid) {
                            Some(d) => {
                                lemma_sent_grows(
                                    used,
                                    d,
                                    CommandView::RelayWriteFile {
                                        id: op_id,
                                        remote_path: job.dest_path,
                                        size,
                                    },
                                );
                            },
                            None => {},
                        }
                    },
                }
                assert(grows(w, v));
                assert(jobs_except(w, v, i));
                lemma_others(w, v, i, j);
            }
        },
    }
}

proof fn lemma_on_copy_done(w: World, uid: u64, op_id: u64, ok: bool, msg: Seq<char>, j: JobView)
    requires
        looked_after(w, j),
    ensures
        looked_after(on_copy_done(w, uid, op_id, ok, msg), j),
{
    lemma_job_pos(w.jobs, op_id);
    match job_pos(w.jobs, op_id) {
        None => {},
        Some(i) => {
            if uid == w.jobs[i].dest_uid && w.jobs[i].phase == CrossCopyPhase::RelayWriting {
                lemma_resolved_grows(w, i, Ok(()), "relay"@);
                lemma_resolved_grows(w, i, Err(msg), ""@);
                lemma_others(w, on_copy_done(w, uid, op_id, ok, msg), i, j);
            }
        },
    }
}

/// The target said that it does not trust the key of copy `op_id`.
pub open spec fn trust_refused(ev: Seq<(u64, bool, String)>, op_id: u64) -> bool {
    exists|k: int| 0 <= k < ev.len() && (#[trigger] ev[k]).0 == op_id && !ev[k].1
}

/// The target said that it revoked the key of copy `op_id`.
pub open spec fn revocation_confirmed(ev: Seq<(u64, bool, String)>, op_id: u64) -> bool {
    exists|k: int| 0 <= k < ev.len() && (#[trigger] ev[k]).0 == op_id && ev[k].1
}

proof fn lemma_after_trusted(w: World, ev: Seq<(u64, bool, String)>, now: u64, j: JobView)
    requires
        looked_after(w, j),
        !trust_refused(ev, j.op_id),
    ensures
        looked_after(after_trusted(w, ev, now), j),
    decreases ev.len(),
{
    if ev.len() > 0 {
        let front = ev.drop_last();
        assert(!trust_refused(front, j.op_id)) by {
            if trust_refused(front, j.op_id) {
                let k = choose|k: int|
                    0 <= k < front.len() && (#[trigger] front[k]).0 == j.op_id && !front[k].1;
                assert(ev[k] == front[k]);
            }
        }
        lemma_after_trusted(w, front, now, j);
        assert(ev[ev.len() - 1] == ev.last());
        lemma_on_trusted(after_trusted(w, front, now), ev.last().0, ev.last().1, now, j);
    }
}

proof fn lemma_after_started(w: World, ev: Seq<u64>, j: JobView)
    requires
        looked_after(w, j),
    ensures
        looked_after(after_started(w, ev), j),
    decreases ev.len(),
{
    if ev.len() > 0 {
        lemma_after_started(w, ev.drop_last(), j);
        lemma_on_started(after_started(w, ev.drop_last()), ev.last(), j);
    }
}

proof fn lemma_after_direct_done(w: World, ev: Seq<(u64, bool, String)>, now: u64, j: JobView)
    requires
        looked_after(w, j),
    ensures
        looked_after(after_direct_done(w, ev, now), j),
    decreases ev.len(),
{
    if ev.len() > 0 {
        lemma_after_direct_done(w, ev.drop_last(), now, j);
        lemma_on_direct_done(
            after_direct_done(w, ev.drop_last(), now),
            ev.last().0,
            ev.last().1,
            ev.last().2@,
            now,
            j,
        );
    }
}

proof fn lemma_after_untrusted(w: World, ev: Seq<(u64, bool, String)>, j: JobView)
    requires
        looked_after(w, j),
        !revocation_confirmed(ev, j.op_id),
    ensures
        looked_after(after_untrusted(w, ev), j),
    decreases ev.len(),
{
    if ev.len() > 0 {
        let front = ev.drop_last();
        assert(!revocation_confirmed(front, j.op_id)) by {
            if revocation_confirmed(front, j.op_id) {
                let k = choose|k: int|
                    0 <= k < front.len() && (#[trigger] front[k]).0 == j.op_id && front[k].1;
                assert(ev[k] == front[k]);
            }
        }
        lemma_after_untrusted(w, front, j);
        assert(ev[ev.len() - 1] == ev.last());
        lemma_on_untrusted(
            after_untrusted(w, front),
            ev.last().0,
            ev.last().1,
            ev.last().2@,
            j,
        );
    }
}

proof fn lemma_after_relay_source(w: World, ev: Seq<(u64, Result<u64, String>)>, j: JobView)
    requires
        looked_after(w, j),
    ensures
        looked_after(after_relay_source(w, ev), j),
    decreases ev.len(),
{
    if ev.len() > 0 {
        lemma_after_relay_source(w, ev.drop_last(), j);
        lemma_on_relay_source(
            after_relay_source(w, ev.drop_last()),
            ev.last().0,
            ev.last().1,
            j,
        );
    }
}

proof fn lemma_after_copy_done(w: World, ev: Seq<(u64, u64, bool, String)>, j: JobView)
    requires
        looked_after(w, j),
    ensures
        looked_after(after_copy_done(w, ev), j),
    decreases ev.len(),
{
    if ev.len() > 0 {
        lemma_after_copy_done(w, ev.drop_last(), j);
        lemma_on_copy_done(
            after_copy_done(w, ev.drop_last()),
            ev.last().0,
            ev.last().1,
            ev.last().2,
            ev.last().3@,
            j,
        );
    }
}

proof fn lemma_all_sides_checked(w: World, n: int, j: JobView)
    requires
        looked_after(w, j),
        n <= w.jobs.len(),
    ensures
        looked_after(all_sides_checked(w, n), j),
    decreases n,
{
    if n > 0 {
        lemma_checked_sides(w, n - 1, j);
        crate::cross_copy::lemma_checked_sides_len(w, n - 1);
        lemma_all_sides_checked(checked_sides(w, n - 1), n - 1, j);
    }
}

proof fn lemma_all_clocks_checked(w: World, n: int, now: u64, j: JobView)
    requires
        looked_after(w, j),
        n <= w.jobs.len(),
    ensures
        looked_after(all_clocks_checked(w, n, now), j),
    decreases n,
{
    if n > 0 {
        lemma_checked_clock(w, n - 1, now, j);
        crate::cross_copy::lemma_checked_clock_len(w, n - 1, now);
        lemma_all_clocks_checked(checked_clock(w, n - 1, now), n - 1, now, j);
    }
}

/// No key is left behind silently: after any frame, whatever was reported in it, the key of a copy
/// is still in use by that copy, or its revocation was sent, or the user was warned, or the target
/// itself said that it does not trust the key.
pub proof fn no_key_is_left_silently(w: World, ev: CopyEvents, now: u64, j: JobView)
    requires
        in_use(w, j),
    ensures
        ({
            let v = advanced(w, ev, now);
            ||| in_use(v, j)
            ||| revocation_sent(v, j)
            ||| residue_reported(v, j)
            ||| trust_refused(ev.temp_key_trusted@, j.op_id)
            ||| revocation_confirmed(ev.temp_key_untrusted@, j.op_id)
        }),
{
    if !trust_refused(ev.temp_key_trusted@, j.op_id) && !revocation_confirmed(
        ev.temp_key_untrusted@,
        j.op_id,
    ) {
        let w1 = after_trusted(w, ev.temp_key_trusted@, now);
        lemma_after_trusted(w, ev.temp_key_trusted@, now, j);
        let w2 = after_started(w1, ev.direct_relay_started@);
        lemma_after_started(w1, ev.direct_relay_started@, j);
        let w3 = after_direct_done(w2, ev.direct_relay_done@, now);
        lemma_after_direct_done(w2, ev.direct_relay_done@, now, j);
        let w4 = after_untrusted(w3, ev.temp_key_untrusted@);
        lemma_after_untrusted(w3, ev.temp_key_untrusted@, j);
        let w5 = after_relay_source(w4, ev.relay_source@);
        lemma_after_relay_source(w4, ev.relay_source@, j);
        let w6 = after_copy_done(w5, ev.copy_done@);
        lemma_after_copy_done(w5, ev.copy_done@, j);
        assert(w6 == after_events(w, ev, now));
        let w7 = all_sides_checked(w6, w6.jobs.len() as int);
        lemma_all_sides_checked(w6, w6.jobs.len() as int, j);
        lemma_all_clocks_checked(w7, w7.jobs.len() as int, now, j);
    }
}

/// Whether the place for copy `op_id` is taken.
pub open spec fn holds_copy(ops: Seq<PendingAiFileOp>, op_id: u64) -> bool {
    exists|k: int| 0 <= k < ops.len() && (#[trigger] ops[k]).kind == (FileOpKind::Copy { op_id })
}

proof fn lemma_without_copy(ops: Seq<PendingAiFileOp>, op_id: u64)
    ensures
        !holds_copy(without_copy(ops, op_id), op_id),
        without_copy(without_copy(ops, op_id), op_id) == without_copy(ops, op_id),
    decreases ops.len(),
{
    if ops.len() > 0 {
        lemma_without_copy(ops.drop_last(), op_id);
        let rest = without_copy(ops.drop_last(), op_id);
        if ops.last().kind != (FileOpKind::Copy { op_id }) {
            let all = rest.push(ops.last());
            assert(all.drop_last() =~= rest);
            assert forall|k: int| 0 <= k < all.len() implies (#[trigger] all[k]).kind != (
            FileOpKind::Copy { op_id }) by {
                if k < rest.len() {
                    assert(all[k] == rest[k]);
                }
            }
        }
    }
}

pub(crate) proof fn lemma_side_pos_kept(a: Seq<Side>, b: Seq<Side>, uid: u64)
    requires
        a.len() == b.len(),
        forall|i: int| 0 <= i < a.len() ==> (#[trigger] b[i]).uid == a[i].uid,
    ensures
        side_pos(a, uid) == side_pos(b, uid),
    decreases a.len(),
{
    if a.len() > 0 {
        assert forall|i: int| 0 <= i < a.len() - 1 implies (#[trigger] b.drop_last()[i]).uid
            == a.drop_last()[i].uid by {
            assert(b[i].uid == a[i].uid);
        }
        lemma_side_pos_kept(a.drop_last(), b.drop_last(), uid);
        assert(b[a.len() - 1].uid == a[a.len() - 1].uid);
    }
}

/// What a session that gives up its place keeps of its operations, and that the others keep theirs.
proof fn lemma_released_ops(w: World, uid: u64, op_id: u64, cancel: bool)
    ensures
        released(w, uid, op_id, cancel).sides.len() == w.sides.len(),
        forall|i: int|
            0 <= i < w.sides.len() ==> {
                let s = #[trigger] released(w, uid, op_id, cancel).sides[i];
                &&& s.uid == w.sides[i].uid
                &&& s.ops == if side_pos(w.sides, uid) == Some(i) {
                    without_copy(w.sides[i].ops, op_id)
                } else {
                    w.sides[i].ops
                }
            },
{
    lemma_side_bound(w.sides, uid);
}

/// A copy that ends is answered: the one who waits gets exactly one reply, and the place that both
/// sessions held for it is free. No other place is given up.
pub proof fn ended_copy_is_answered(
    w: World,
    idx: int,
    result: Result<(), Seq<char>>,
    method: Seq<char>,
)
    requires
        0 <= idx < w.jobs.len(),
    ensures
        ({
            let job = w.jobs[idx];
            let v = resolved(w, idx, result, method);
            &&& v.jobs == w.jobs.remove(idx)
            &&& v.replies == match job.waiter {
                Some(wt) => w.replies.push(
                    match result {
                        Ok(()) => answer(
                            wt.chan,
                            job.req_id,
                            ResultView::CopiedBetweenSessions { path: job.dest_path, method },
                        ),
                        Err(msg) => refusal(wt.chan, job.req_id, msg),
                    },
                ),
                None => w.replies,
            }
            &&& v.sides.len() == w.sides.len()
            &&& forall|i: int|
                0 <= i < w.sides.len() ==> {
                    let ops = (#[trigger] v.sides[i]).ops;
                    if side_pos(w.sides, job.src_uid) == Some(i) || side_pos(
                        w.sides,
                        job.dest_uid,
                    ) == Some(i) {
                        ops == without_copy(w.sides[i].ops, job.op_id) && !holds_copy(ops, job.op_id)
                    } else {
                        ops == w.sides[i].ops
                    }
                }
        }),
{
    let job = w.jobs[idx];
    let cancel = result is Err;
    let gone = World { jobs: w.jobs.remove(idx), ..w };
    let mid = released(gone, job.src_uid, job.op_id, cancel);
    lemma_released_ops(gone, job.src_uid, job.op_id, cancel);
    lemma_released_ops(mid, job.dest_uid, job.op_id, cancel);
    lemma_side_pos_kept(w.sides, mid.sides, job.dest_uid);
    let v = resolved(w, idx, result, method);
    assert forall|i: int| 0 <= i < w.sides.len() implies {
        let ops = (#[trigger] v.sides[i]).ops;
        if side_pos(w.sides, job.src_uid) == Some(i) || side_pos(w.sides, job.dest_uid) == Some(i) {
            ops == without_copy(w.sides[i].ops, job.op_id) && !holds_copy(ops, job.op_id)
        } else {
            ops == w.sides[i].ops
        }
    } by {
        lemma_without_copy(w.sides[i].ops, job.op_id);
        assert(v.sides[i] == released(mid, job.dest_uid, job.op_id, cancel).sides[i]);
        assert(mid.sides[i].uid == w.sides[i].uid);
    }
}

/// A direct copy that succeeded is reported as a success even where the confirmation of the
/// revocation comes after the deadline of the whole copy, or never.
pub proof fn late_receipt_does_not_undo_success(w: World, idx: int, now: u64)
    requires
        0 <= idx < w.jobs.len(),
        w.jobs[idx].phase == CrossCopyPhase::UntrustingAfterDirect,
        w.jobs[idx].direct_result == Some(Ok::<(), Seq<char>>(())),
        now >= w.jobs[idx].deadline,
        w.jobs[idx].waiter is Some,
    ensures
        checked_clock(w, idx, now).replies == w.replies.push(
            answer(
                w.jobs[idx].waiter->0.chan,
                w.jobs[idx].req_id,
                ResultView::CopiedBetweenSessions {
                    path: w.jobs[idx].dest_path,
                    method: "direct"@,
                },
            ),
        ),
{
    let taken = with_job(w, idx, JobView { direct_result: None, ..w.jobs[idx] });
    ended_copy_is_answered(taken, idx, Ok(()), "direct"@);
}

} // verus!
