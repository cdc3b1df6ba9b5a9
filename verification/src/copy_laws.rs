//! What a copy between two sessions orders and reports, whatever is reported and whenever: every
//! command and every reply belongs to a copy that was asked for, and says what was asked for.
use vstd::prelude::*;
use vstd::string::*;

use crate::app::App;
use crate::cross_copy::{
    advanced, after_copy_done, after_direct_done, after_events, after_relay_source, after_started,
    after_trusted, after_untrust, after_untrusted, all_clocks_checked, all_sides_checked,
    checked_clock, checked_sides, direct_finished, direct_started, failed, given_up, job_pos,
    lemma_job_pos, on_copy_done, on_direct_done, on_relay_source, on_started, on_trusted,
    on_untrusted, relayed, released, resolved, sent, side_pos, stopped, untrusted,
    untrusted_then_relayed, warned, with_job, world, CopyEvents, CrossCopyJob, CrossCopyPhase,
    JobView, Outbox, Side, World,
};
use crate::proto::{CommandView, UiCommand};
use crate::protocol::{Reply, ReplyView, ResultView};
use crate::session::Session;

verus! {

/// The target of copy `op` was reported to trust its key.
pub open spec fn trust_reported(ev: CopyEvents, op: u64) -> bool {
    exists|k: int|
        0 <= k < ev.temp_key_trusted@.len() && (#[trigger] ev.temp_key_trusted@[k]).0 == op
            && ev.temp_key_trusted@[k].1
}

/// The direct attempt of copy `op` was reported to have succeeded.
pub open spec fn direct_reported(ev: CopyEvents, op: u64) -> bool {
    exists|k: int|
        0 <= k < ev.direct_relay_done@.len() && (#[trigger] ev.direct_relay_done@[k]).0 == op
            && ev.direct_relay_done@[k].1
}

/// The source of copy `op` was reported to hold so many bytes.
pub open spec fn size_reported(ev: CopyEvents, op: u64, size: u64) -> bool {
    exists|k: int|
        0 <= k < ev.relay_source@.len() && (#[trigger] ev.relay_source@[k]).0 == op
            && ev.relay_source@[k].1 == Ok::<u64, String>(size)
}

/// Session `uid` reported that it wrote the file of copy `op`.
pub open spec fn write_reported(ev: CopyEvents, uid: u64, op: u64) -> bool {
    exists|k: int|
        0 <= k < ev.copy_done@.len() && (#[trigger] ev.copy_done@[k]).0 == uid
            && ev.copy_done@[k].1 == op && ev.copy_done@[k].2
}

/// A direct attempt that ended well.
pub open spec fn succeeded(r: Option<Result<(), Seq<char>>>) -> bool {
    r is Some && r->0 is Ok
}

/// A session with this login.
pub open spec fn is_login(d: Side, uid: u64, user: Seq<char>, host: Seq<char>, port: u16) -> bool {
    d.uid == uid && d.user == user && d.host == host && d.port == port
}

/// One of the sessions has this number and this login.
pub open spec fn has_login(
    sides: Seq<Side>,
    uid: u64,
    user: Seq<char>,
    host: Seq<char>,
    port: u16,
) -> bool {
    exists|d: int| 0 <= d < sides.len() && is_login(#[trigger] sides[d], uid, user, host, port)
}

/// A command to a session serves copy `j`: the source is told to copy or to read the file at the
/// copy's own source path, straight to the target's own login and path where the target trusts the
/// key; the target is told to write the file at the copy's own target path, with the size that was
/// reported, or to revoke the copy's own key; either is told to stop that copy. Nothing else is sent.
pub open spec fn serves_copy(sides: Seq<Side>, k: int, j: JobView, cmd: CommandView, ev: CopyEvents)
    -> bool {
    match cmd {
        CommandView::DirectRelayCopy {
            op_id,
            src_path,
            dest_user,
            dest_host,
            dest_port,
            dest_path,
            priv_key_pem,
        } => {
            &&& sides[k].uid == j.src_uid
            &&& op_id == j.op_id
            &&& src_path == j.src_path
            &&& dest_path == j.dest_path
            &&& has_login(sides, j.dest_uid, dest_user, dest_host, dest_port)
            &&& j.key == Some(priv_key_pem)
            &&& trust_reported(ev, j.op_id)
        },
        CommandView::RelayReadFile { id, remote_path } => {
            &&& sides[k].uid == j.src_uid
            &&& id == j.op_id
            &&& remote_path == j.src_path
        },
        CommandView::RelayWriteFile { id, remote_path, size } => {
            &&& sides[k].uid == j.dest_uid
            &&& id == j.op_id
            &&& remote_path == j.dest_path
            &&& size_reported(ev, j.op_id, size)
        },
        CommandView::UntrustTempKey { op_id, marker } => {
            &&& sides[k].uid == j.dest_uid
            &&& op_id == j.op_id
            &&& marker == j.marker
        },
        CommandView::CancelTransfer(id) => {
            &&& id == j.op_id
            &&& sides[k].uid == j.src_uid || sides[k].uid == j.dest_uid
        },
        _ => false,
    }
}

/// A command serves one of the copies.
pub open spec fn serves_some(
    sides: Seq<Side>,
    k: int,
    jobs: Seq<JobView>,
    cmd: CommandView,
    ev: CopyEvents,
) -> bool {
    exists|j: int| 0 <= j < jobs.len() && #[trigger] serves_copy(sides, k, jobs[j], cmd, ev)
}

/// The order to copy directly.
pub open spec fn is_direct_order(cmd: CommandView, op: u64) -> bool {
    cmd is DirectRelayCopy && cmd->DirectRelayCopy_op_id == op
}

/// A new command of session `k`.
spec fn is_new(w: World, v: World, k: int, n: int) -> bool {
    0 <= k < v.sides.len() && w.sides[k].log.len() <= n < v.sides[k].log.len()
}

/// The direct copy of copy `op` was ordered between two moments.
pub closed spec fn ordered_between(w: World, v: World, op: u64) -> bool {
    exists|k: int, n: int| #[trigger]
        is_new(w, v, k, n) && is_direct_order(v.sides[k].log[n], op)
}

/// The copy that goes on is the one that was asked for.
pub open spec fn same_copy(a: JobView, b: JobView) -> bool {
    &&& b.op_id == a.op_id
    &&& b.req_id == a.req_id
    &&& b.waiter == a.waiter
    &&& b.src_uid == a.src_uid
    &&& b.dest_uid == a.dest_uid
    &&& b.src_path == a.src_path
    &&& b.dest_path == a.dest_path
    &&& b.marker == a.marker
    &&& b.deadline == a.deadline
    &&& b.key is None || b.key == a.key
}

/// A copy counts as copying directly, or as copied directly, only after the order for that.
pub open spec fn goes_on(w: World, v: World, a: JobView, b: JobView, ev: CopyEvents) -> bool {
    &&& same_copy(a, b)
    &&& b.phase is DirectCopying ==> a.phase is DirectCopying || ordered_between(w, v, a.op_id)
    &&& succeeded(b.direct_result) ==> succeeded(a.direct_result) || (direct_reported(ev, a.op_id) && (a.phase is DirectCopying || ordered_between(
        w,
        v,
        a.op_id,
    )))
}

spec fn goes_on_from(w: World, v: World, b: JobView, ev: CopyEvents) -> bool {
    exists|j: int| 0 <= j < w.jobs.len() && #[trigger] goes_on(w, v, w.jobs[j], b, ev)
}

/// A reply answers copy `j`: the one who waits for it, under their own number; a success names the
/// copy's own target path, and how it was reached, which was reported.
pub open spec fn answers_copy(w: World, v: World, j: JobView, r: ReplyView, ev: CopyEvents) -> bool {
    &&& j.waiter is Some
    &&& r.chan == j.waiter->0.chan
    &&& r.id == j.req_id
    &&& match r.result {
        Ok(ResultView::CopiedBetweenSessions { path, method }) => {
            &&& path == j.dest_path
            &&& {
                ||| method == "direct"@ && (succeeded(j.direct_result) || (
                direct_reported(ev, j.op_id) && (j.phase is DirectCopying || ordered_between(
                    w,
                    v,
                    j.op_id,
                ))))
                ||| method == "relay"@ && write_reported(ev, j.dest_uid, j.op_id)
            }
        },
        Ok(_) => false,
        Err(_) => true,
    }
}

spec fn answers_some(w: World, v: World, r: ReplyView, ev: CopyEvents) -> bool {
    exists|j: int| 0 <= j < w.jobs.len() && #[trigger] answers_copy(w, v, w.jobs[j], r, ev)
}

spec fn same_side(a: Side, b: Side) -> bool {
    &&& b.uid == a.uid
    &&& b.host == a.host
    &&& b.port == a.port
    &&& b.user == a.user
    &&& a.log.len() <= b.log.len()
    &&& forall|n: int| 0 <= n < a.log.len() ==> #[trigger] b.log[n] == a.log[n]
}

spec fn same_sides(a: Seq<Side>, b: Seq<Side>) -> bool {
    &&& a.len() == b.len()
    &&& forall|k: int| 0 <= k < a.len() ==> same_side(a[k], #[trigger] b[k])
}

/// Everything that happened between two moments belongs to the copies of the first.
#[verifier::opaque]
spec fn lawful(w: World, v: World, ev: CopyEvents) -> bool {
    &&& same_sides(w.sides, v.sides)
    &&& forall|k: int, n: int| #[trigger]
        is_new(w, v, k, n) ==> serves_some(w.sides, k, w.jobs, v.sides[k].log[n], ev)
    &&& forall|i: int| 0 <= i < v.jobs.len() ==> goes_on_from(w, v, #[trigger] v.jobs[i], ev)
    &&& w.replies.len() <= v.replies.len()
    &&& forall|i: int| 0 <= i < w.replies.len() ==> #[trigger] v.replies[i] == w.replies[i]
    &&& forall|i: int|
        w.replies.len() <= i < v.replies.len() ==> answers_some(w, v, #[trigger] v.replies[i], ev)
}

proof fn lemma_login_kept(a: Seq<Side>, b: Seq<Side>, uid: u64, user: Seq<char>, host: Seq<char>, port: u16)
    requires
        same_sides(a, b),
        has_login(b, uid, user, host, port),
    ensures
        has_login(a, uid, user, host, port),
{
    let d = choose|d: int| 0 <= d < b.len() && is_login(#[trigger] b[d], uid, user, host, port);
    assert(same_side(a[d], b[d]));
    assert(is_login(a[d], uid, user, host, port));
}

proof fn lemma_serves_back(
    a: Seq<Side>,
    b: Seq<Side>,
    k: int,
    x: JobView,
    y: JobView,
    cmd: CommandView,
    ev: CopyEvents,
)
    requires
        same_sides(a, b),
        0 <= k < a.len(),
        same_copy(x, y),
        serves_copy(b, k, y, cmd, ev),
    ensures
        serves_copy(a, k, x, cmd, ev),
{
    assert(same_side(a[k], b[k]));
    match cmd {
        CommandView::DirectRelayCopy { dest_user, dest_host, dest_port, .. } => {
            lemma_login_kept(a, b, y.dest_uid, dest_user, dest_host, dest_port);
        },
        _ => {},
    }
}

proof fn lemma_ordered_wider(a: World, b: World, c: World, op: u64)
    requires
        same_sides(a.sides, b.sides),
        same_sides(b.sides, c.sides),
        ordered_between(a, b, op) || ordered_between(b, c, op),
    ensures
        ordered_between(a, c, op),
{
    if ordered_between(a, b, op) {
        let (k, n) = choose|k: int, n: int| #[trigger]
            is_new(a, b, k, n) && is_direct_order(b.sides[k].log[n], op);
        assert(same_side(a.sides[k], b.sides[k]) && same_side(b.sides[k], c.sides[k]));
        assert(c.sides[k].log[n] == b.sides[k].log[n]);
        assert(is_new(a, c, k, n));
    } else {
        let (k, n) = choose|k: int, n: int| #[trigger]
            is_new(b, c, k, n) && is_direct_order(c.sides[k].log[n], op);
        assert(same_side(b.sides[k], c.sides[k]));
        assert(same_side(a.sides[k], b.sides[k]));
        assert(is_new(a, c, k, n));
    }
}

proof fn lemma_goes_on_trans(
    a: World,
    b: World,
    c: World,
    x: JobView,
    y: JobView,
    z: JobView,
    ev: CopyEvents,
)
    requires
        same_sides(a.sides, b.sides),
        same_sides(b.sides, c.sides),
        goes_on(a, b, x, y, ev),
        goes_on(b, c, y, z, ev),
    ensures
        goes_on(a, c, x, z, ev),
{
    if ordered_between(a, b, x.op_id) || ordered_between(b, c, x.op_id) {
        lemma_ordered_wider(a, b, c, x.op_id);
    }
}

proof fn lemma_answers_back(
    a: World,
    b: World,
    c: World,
    x: JobView,
    y: JobView,
    r: ReplyView,
    ev: CopyEvents,
)
    requires
        same_sides(a.sides, b.sides),
        same_sides(b.sides, c.sides),
        goes_on(a, b, x, y, ev),
        answers_copy(b, c, y, r, ev),
    ensures
        answers_copy(a, c, x, r, ev),
{
    if ordered_between(a, b, x.op_id) || ordered_between(b, c, x.op_id) {
        lemma_ordered_wider(a, b, c, x.op_id);
    }
}

proof fn lemma_trans(a: World, b: World, c: World, ev: CopyEvents)
    requires
        lawful(a, b, ev),
        lawful(b, c, ev),
    ensures
        lawful(a, c, ev),
{
    reveal(lawful);
    assert(same_sides(a.sides, c.sides)) by {
        assert forall|k: int| 0 <= k < a.sides.len() implies same_side(
            a.sides[k],
            #[trigger] c.sides[k],
        ) by {
            assert(same_side(a.sides[k], b.sides[k]));
            assert(same_side(b.sides[k], c.sides[k]));
            assert forall|n: int| 0 <= n < a.sides[k].log.len() implies #[trigger] c.sides[k].log[n]
                == a.sides[k].log[n] by {
                assert(b.sides[k].log[n] == a.sides[k].log[n]);
            }
        }
    }
    assert forall|k: int, n: int| #[trigger] is_new(a, c, k, n) implies serves_some(
        a.sides,
        k,
        a.jobs,
        c.sides[k].log[n],
        ev,
    ) by {
        assert(same_side(a.sides[k], b.sides[k]));
        assert(same_side(b.sides[k], c.sides[k]));
        let cmd = c.sides[k].log[n];
        if n < b.sides[k].log.len() {
            assert(b.sides[k].log[n] == cmd);
            assert(is_new(a, b, k, n));
        } else {
            assert(is_new(b, c, k, n));
            let j = choose|j: int|
                0 <= j < b.jobs.len() && #[trigger] serves_copy(b.sides, k, b.jobs[j], cmd, ev);
            assert(goes_on_from(a, b, b.jobs[j], ev));
            let i = choose|i: int|
                0 <= i < a.jobs.len() && #[trigger] goes_on(a, b, a.jobs[i], b.jobs[j], ev);
            lemma_serves_back(a.sides, b.sides, k, a.jobs[i], b.jobs[j], cmd, ev);
        }
    }
    assert forall|i: int| 0 <= i < c.jobs.len() implies goes_on_from(a, c, #[trigger] c.jobs[i], ev)
        by {
        assert(goes_on_from(b, c, c.jobs[i], ev));
        let j = choose|j: int|
            0 <= j < b.jobs.len() && #[trigger] goes_on(b, c, b.jobs[j], c.jobs[i], ev);
        assert(goes_on_from(a, b, b.jobs[j], ev));
        let h = choose|h: int|
            0 <= h < a.jobs.len() && #[trigger] goes_on(a, b, a.jobs[h], b.jobs[j], ev);
        lemma_goes_on_trans(a, b, c, a.jobs[h], b.jobs[j], c.jobs[i], ev);
    }
    assert forall|i: int| 0 <= i < a.replies.len() implies #[trigger] c.replies[i] == a.replies[i] by {
        assert(b.replies[i] == a.replies[i]);
    }
    assert forall|i: int| a.replies.len() <= i < c.replies.len() implies answers_some(
        a,
        c,
        #[trigger] c.replies[i],
        ev,
    ) by {
        let r = c.replies[i];
        if i < b.replies.len() {
            assert(b.replies[i] == r);
            assert(answers_some(a, b, b.replies[i], ev));
            let j = choose|j: int|
                0 <= j < a.jobs.len() && #[trigger] answers_copy(a, b, a.jobs[j], r, ev);
            if ordered_between(a, b, a.jobs[j].op_id) {
                lemma_ordered_wider(a, b, c, a.jobs[j].op_id);
            }
            assert(answers_copy(a, c, a.jobs[j], r, ev));
        } else {
            assert(answers_some(b, c, r, ev));
            let j = choose|j: int|
                0 <= j < b.jobs.len() && #[trigger] answers_copy(b, c, b.jobs[j], r, ev);
            assert(goes_on_from(a, b, b.jobs[j], ev));
            let h = choose|h: int|
                0 <= h < a.jobs.len() && #[trigger] goes_on(a, b, a.jobs[h], b.jobs[j], ev);
            lemma_answers_back(a, b, c, a.jobs[h], b.jobs[j], r, ev);
        }
    }
}

/// Nothing of a world changed that the copies answer for, but for the copies that are left.
proof fn lemma_quiet(w: World, v: World, ev: CopyEvents)
    requires
        same_sides(w.sides, v.sides),
        forall|k: int| 0 <= k < w.sides.len() ==> (#[trigger] v.sides[k]).log == w.sides[k].log,
        forall|i: int| 0 <= i < v.jobs.len() ==> goes_on_from(w, v, #[trigger] v.jobs[i], ev),
        v.replies == w.replies,
    ensures
        lawful(w, v, ev),
{
    reveal(lawful);
    assert forall|k: int, n: int| #[trigger] is_new(w, v, k, n) implies serves_some(
        w.sides,
        k,
        w.jobs,
        v.sides[k].log[n],
        ev,
    ) by {
        assert(v.sides[k].log == w.sides[k].log);
    }
}

proof fn lemma_same_jobs(w: World, v: World, ev: CopyEvents)
    requires
        v.jobs == w.jobs,
    ensures
        forall|i: int| 0 <= i < v.jobs.len() ==> goes_on_from(w, v, #[trigger] v.jobs[i], ev),
{
    assert forall|i: int| 0 <= i < v.jobs.len() implies goes_on_from(w, v, #[trigger] v.jobs[i], ev)
        by {
        assert(goes_on(w, v, w.jobs[i], v.jobs[i], ev));
    }
}

proof fn lemma_refl(w: World, ev: CopyEvents)
    ensures
        lawful(w, w, ev),
{
    lemma_same_jobs(w, w, ev);
    lemma_quiet(w, w, ev);
}

proof fn lemma_bound(sides: Seq<Side>, uid: u64)
    ensures
        side_pos(sides, uid) is Some ==> 0 <= side_pos(sides, uid)->0 < sides.len() && sides[side_pos(
            sides,
            uid,
        )->0].uid == uid,
    decreases sides.len(),
{
    if sides.len() > 0 {
        lemma_bound(sides.drop_last(), uid);
    }
}

proof fn lemma_warned(w: World, uid: u64, marker: Seq<char>, reason: Seq<char>, ev: CopyEvents)
    ensures
        lawful(w, warned(w, uid, marker, reason), ev),
        warned(w, uid, marker, reason).jobs == w.jobs,
        same_sides(w.sides, warned(w, uid, marker, reason).sides),
{
    lemma_bound(w.sides, uid);
    let v = warned(w, uid, marker, reason);
    lemma_same_jobs(w, v, ev);
    lemma_quiet(w, v, ev);
}

proof fn lemma_sent(w: World, k: int, cmd: CommandView, j: int, ev: CopyEvents)
    requires
        0 <= k < w.sides.len(),
        0 <= j < w.jobs.len(),
        serves_copy(w.sides, k, w.jobs[j], cmd, ev),
    ensures
        lawful(w, sent(w, k, cmd), ev),
{
    reveal(lawful);
    let v = sent(w, k, cmd);
    lemma_same_jobs(w, v, ev);
    assert(same_sides(w.sides, v.sides));
    assert forall|i: int, n: int| #[trigger] is_new(w, v, i, n) implies serves_some(
        w.sides,
        i,
        w.jobs,
        v.sides[i].log[n],
        ev,
    ) by {
        assert(i == k);
        assert(v.sides[i].log[n] == cmd);
    }
}

proof fn lemma_with_job(w: World, idx: int, job: JobView, ev: CopyEvents)
    requires
        0 <= idx < w.jobs.len(),
        goes_on(w, with_job(w, idx, job), w.jobs[idx], job, ev),
    ensures
        lawful(w, with_job(w, idx, job), ev),
{
    let v = with_job(w, idx, job);
    assert forall|i: int| 0 <= i < v.jobs.len() implies goes_on_from(w, v, #[trigger] v.jobs[i], ev)
        by {
        if i == idx {
            assert(v.jobs[i] == job);
            assert(goes_on(w, v, w.jobs[idx], v.jobs[i], ev));
        } else {
            assert(v.jobs[i] == w.jobs[i]);
            assert(goes_on(w, v, w.jobs[i], v.jobs[i], ev));
        }
    }
    lemma_quiet(w, v, ev);
}

proof fn lemma_untrusted(w: World, idx: int, ev: CopyEvents)
    requires
        0 <= idx < w.jobs.len(),
    ensures
        ({
            let j = w.jobs[idx];
            let v = untrusted(w, j.dest_uid, j.op_id, j.marker);
            lawful(w, v, ev) && v.jobs == w.jobs
        }),
{
    let j = w.jobs[idx];
    lemma_bound(w.sides, j.dest_uid);
    lemma_warned(w, j.dest_uid, j.marker, crate::cross_copy::DEST_GONE_UNTRUST@, ev);
    lemma_warned(w, j.dest_uid, j.marker, crate::cross_copy::DEST_DOWN_UNTRUST@, ev);
    lemma_warned(w, j.dest_uid, j.marker, crate::cross_copy::UNTRUST_NOT_SENT@, ev);
    match side_pos(w.sides, j.dest_uid) {
        Some(i) => {
            if w.sides[i].connected && w.sides[i].takes > 0 {
                lemma_sent(
                    w,
                    i,
                    CommandView::UntrustTempKey { op_id: j.op_id, marker: j.marker },
                    idx,
                    ev,
                );
            }
        },
        None => {},
    }
}

proof fn lemma_released(w: World, uid: u64, idx: int, cancel: bool, ev: CopyEvents)
    requires
        0 <= idx < w.jobs.len(),
        uid == w.jobs[idx].src_uid || uid == w.jobs[idx].dest_uid,
    ensures
        ({
            let v = released(w, uid, w.jobs[idx].op_id, cancel);
            lawful(w, v, ev) && v.jobs == w.jobs && v.replies == w.replies
        }),
{
    let op = w.jobs[idx].op_id;
    lemma_bound(w.sides, uid);
    let v = released(w, uid, op, cancel);
    match side_pos(w.sides, uid) {
        None => {
            lemma_refl(w, ev);
        },
        Some(i) => {
            let told = if cancel {
                sent(w, i, CommandView::CancelTransfer(op))
            } else {
                w
            };
            if cancel {
                lemma_sent(w, i, CommandView::CancelTransfer(op), idx, ev);
            } else {
                lemma_refl(w, ev);
            }
            lemma_same_jobs(told, v, ev);
            lemma_quiet(told, v, ev);
            lemma_trans(w, told, v, ev);
        },
    }
}

proof fn lemma_released_jobs(w: World, jobs: Seq<JobView>, uid: u64, op: u64, cancel: bool)
    ensures
        released(World { jobs, ..w }, uid, op, cancel) == (World {
            jobs,
            ..released(w, uid, op, cancel)
        }),
{
}

/// A copy is gone, and the one who waits for it is answered.
proof fn lemma_ended(w: World, v: World, idx: int, ev: CopyEvents)
    requires
        0 <= idx < w.jobs.len(),
        v.sides == w.sides,
        v.jobs == w.jobs.remove(idx),
        v.replies == w.replies || v.replies == w.replies.push(v.replies.last()) && answers_copy(
            w,
            v,
            w.jobs[idx],
            v.replies.last(),
            ev,
        ),
    ensures
        lawful(w, v, ev),
{
    reveal(lawful);
    assert(same_sides(w.sides, v.sides));
    assert forall|i: int| 0 <= i < v.jobs.len() implies goes_on_from(w, v, #[trigger] v.jobs[i], ev)
        by {
        let h = if i < idx {
            i
        } else {
            i + 1
        };
        assert(v.jobs[i] == w.jobs[h]);
        assert(goes_on(w, v, w.jobs[h], v.jobs[i], ev));
    }
    assert forall|i: int| w.replies.len() <= i < v.replies.len() implies answers_some(
        w,
        v,
        #[trigger] v.replies[i],
        ev,
    ) by {
        assert(v.replies[i] == v.replies.last());
        assert(answers_copy(w, v, w.jobs[idx], v.replies[i], ev));
    }
}

/// The end of a copy.
proof fn lemma_resolved(
    w: World,
    idx: int,
    result: Result<(), Seq<char>>,
    method: Seq<char>,
    ev: CopyEvents,
)
    requires
        0 <= idx < w.jobs.len(),
        result is Ok ==> {
            ||| method == "direct"@ && succeeded(w.jobs[idx].direct_result)
            ||| method == "relay"@ && write_reported(ev, w.jobs[idx].dest_uid, w.jobs[idx].op_id)
        },
    ensures
        lawful(w, resolved(w, idx, result, method), ev),
{
    let job = w.jobs[idx];
    let cancel = result is Err;
    let gone_jobs = w.jobs.remove(idx);
    let w1 = released(w, job.src_uid, job.op_id, cancel);
    lemma_released(w, job.src_uid, idx, cancel, ev);
    let w2 = released(w1, job.dest_uid, job.op_id, cancel);
    lemma_released(w1, job.dest_uid, idx, cancel, ev);
    lemma_released_jobs(w, gone_jobs, job.src_uid, job.op_id, cancel);
    lemma_released_jobs(w1, gone_jobs, job.dest_uid, job.op_id, cancel);
    let v = resolved(w, idx, result, method);
    lemma_trans(w, w1, w2, ev);
    lemma_ended(w2, v, idx, ev);
    lemma_trans(w, w2, v, ev);
}

proof fn lemma_failed(w: World, idx: int, msg: Seq<char>, ev: CopyEvents)
    requires
        0 <= idx < w.jobs.len(),
    ensures
        lawful(w, failed(w, idx, msg), ev),
{
    lemma_resolved(w, idx, Err(msg), ""@, ev);
}

proof fn lemma_relayed(w: World, idx: int, ev: CopyEvents)
    requires
        0 <= idx < w.jobs.len(),
    ensures
        lawful(w, relayed(w, idx), ev),
{
    let job = w.jobs[idx];
    lemma_bound(w.sides, job.src_uid);
    lemma_failed(w, idx, crate::cross_copy::PIPE_WRITER_LOST@, ev);
    let less = JobView { pipe_writer: false, ..job };
    let used = with_job(w, idx, less);
    lemma_with_job(w, idx, less, ev);
    lemma_failed(used, idx, crate::cross_copy::SRC_GONE@, ev);
    lemma_trans(w, used, failed(used, idx, crate::cross_copy::SRC_GONE@), ev);
    lemma_failed(used, idx, crate::cross_copy::SRC_SEND_FAILED@, ev);
    lemma_trans(w, used, failed(used, idx, crate::cross_copy::SRC_SEND_FAILED@), ev);
    match side_pos(w.sides, job.src_uid) {
        Some(i) => {
            let cmd = CommandView::RelayReadFile { id: job.op_id, remote_path: job.src_path };
            lemma_sent(used, i, cmd, idx, ev);
            let told = sent(used, i, cmd);
            lemma_trans(w, used, told, ev);
            let last = JobView {
                pipe_writer: false,
                phase: CrossCopyPhase::RelayReading,
                ..job
            };
            lemma_with_job(told, idx, last, ev);
            lemma_trans(w, told, with_job(told, idx, last), ev);
        },
        None => {},
    }
}

proof fn lemma_untrusted_then_relayed(w: World, idx: int, ev: CopyEvents)
    requires
        0 <= idx < w.jobs.len(),
    ensures
        lawful(w, untrusted_then_relayed(w, idx), ev),
{
    let job = w.jobs[idx];
    let u = untrusted(w, job.dest_uid, job.op_id, job.marker);
    lemma_untrusted(w, idx, ev);
    lemma_relayed(u, idx, ev);
    lemma_trans(w, u, relayed(u, idx), ev);
}

proof fn lemma_ordered_now(w: World, v: World, k: int, cmd: CommandView, op: u64)
    requires
        0 <= k < w.sides.len(),
        v.sides.len() == w.sides.len(),
        v.sides[k].log == w.sides[k].log.push(cmd),
        is_direct_order(cmd, op),
    ensures
        ordered_between(w, v, op),
{
    let n = w.sides[k].log.len() as int;
    assert(is_new(w, v, k, n));
    assert(v.sides[k].log[n] == cmd);
}

proof fn lemma_direct_started(w: World, idx: int, now: u64, ev: CopyEvents)
    requires
        0 <= idx < w.jobs.len(),
        trust_reported(ev, w.jobs[idx].op_id),
    ensures
        lawful(w, direct_started(w, idx, now), ev),
{
    let job = w.jobs[idx];
    lemma_bound(w.sides, job.src_uid);
    lemma_bound(w.sides, job.dest_uid);
    lemma_untrusted_then_relayed(w, idx, ev);
    let s = side_pos(w.sides, job.src_uid);
    let d = side_pos(w.sides, job.dest_uid);
    if s is Some && d is Some && w.sides[s->0].connected && job.key is Some {
        let si = s->0;
        let di = d->0;
        let less = JobView { key: None, ..job };
        let spent = with_job(w, idx, less);
        lemma_with_job(w, idx, less, ev);
        if w.sides[si].takes == 0 {
            lemma_untrusted_then_relayed(spent, idx, ev);
            lemma_trans(w, spent, untrusted_then_relayed(spent, idx), ev);
        } else {
            let cmd = CommandView::DirectRelayCopy {
                op_id: job.op_id,
                src_path: job.src_path,
                dest_user: w.sides[di].user,
                dest_host: w.sides[di].host,
                dest_port: w.sides[di].port,
                dest_path: job.dest_path,
                priv_key_pem: job.key->0,
            };
            assert(is_login(
                w.sides[di],
                job.dest_uid,
                w.sides[di].user,
                w.sides[di].host,
                w.sides[di].port,
            ));
            assert(has_login(
                w.sides,
                job.dest_uid,
                w.sides[di].user,
                w.sides[di].host,
                w.sides[di].port,
            ));
            lemma_sent(w, si, cmd, idx, ev);
            let told = sent(w, si, cmd);
            let last = JobView {
                key: None,
                phase: CrossCopyPhase::DirectCopying { started: false },
                phase_deadline: (now + crate::cross_copy::DIRECT_ATTEMPT_TIMEOUT) as u64,
                ..job
            };
            let v = direct_started(w, idx, now);
            assert(v == with_job(told, idx, last)) by {
                assert(w.jobs.update(idx, less).update(idx, last) =~= w.jobs.update(idx, last));
            }
            lemma_ordered_now(w, v, si, cmd, job.op_id);
            lemma_lawful_and_job(w, told, idx, last, ev);
        }
    }
}

/// A lawful step that leaves the copies as they were, and then a change of one copy that follows
/// from the whole.
proof fn lemma_lawful_and_job(w: World, u: World, idx: int, job: JobView, ev: CopyEvents)
    requires
        lawful(w, u, ev),
        u.jobs == w.jobs,
        0 <= idx < w.jobs.len(),
        goes_on(w, with_job(u, idx, job), w.jobs[idx], job, ev),
    ensures
        lawful(w, with_job(u, idx, job), ev),
{
    reveal(lawful);
    let v = with_job(u, idx, job);
    assert forall|k: int, n: int| #[trigger] is_new(w, v, k, n) implies serves_some(
        w.sides,
        k,
        w.jobs,
        v.sides[k].log[n],
        ev,
    ) by {
        assert(is_new(w, u, k, n));
    }
    assert forall|i: int| 0 <= i < v.jobs.len() implies goes_on_from(w, v, #[trigger] v.jobs[i], ev)
        by {
        if i == idx {
            assert(v.jobs[i] == job);
            assert(goes_on(w, v, w.jobs[idx], v.jobs[i], ev));
        } else {
            assert(v.jobs[i] == w.jobs[i]);
            assert(goes_on(w, v, w.jobs[i], v.jobs[i], ev));
        }
    }
    assert forall|i: int| w.replies.len() <= i < v.replies.len() implies answers_some(
        w,
        v,
        #[trigger] v.replies[i],
        ev,
    ) by {
        assert(answers_some(w, u, u.replies[i], ev));
        let j = choose|j: int|
            0 <= j < w.jobs.len() && #[trigger] answers_copy(w, u, w.jobs[j], u.replies[i], ev);
        if ordered_between(w, u, w.jobs[j].op_id) {
            let (k, n) = choose|k: int, n: int| #[trigger]
                is_new(w, u, k, n) && is_direct_order(u.sides[k].log[n], w.jobs[j].op_id);
            assert(is_new(w, v, k, n));
        }
        assert(answers_copy(w, v, w.jobs[j], v.replies[i], ev));
    }
}

proof fn lemma_direct_finished(
    w: World,
    idx: int,
    result: Result<(), Seq<char>>,
    now: u64,
    ev: CopyEvents,
)
    requires
        0 <= idx < w.jobs.len(),
        w.jobs[idx].phase is DirectCopying,
        result is Ok ==> direct_reported(ev, w.jobs[idx].op_id),
    ensures
        lawful(w, direct_finished(w, idx, result, now), ev),
{
    let job = JobView {
        direct_result: Some(result),
        phase: CrossCopyPhase::UntrustingAfterDirect,
        phase_deadline: (now + crate::cross_copy::UNTRUST_WAIT) as u64,
        ..w.jobs[idx]
    };
    let u = with_job(w, idx, job);
    lemma_with_job(w, idx, job, ev);
    lemma_untrusted(u, idx, ev);
    lemma_trans(w, u, untrusted(u, job.dest_uid, job.op_id, job.marker), ev);
}

proof fn lemma_after_untrust(w: World, idx: int, allow: bool, ev: CopyEvents)
    requires
        0 <= idx < w.jobs.len(),
    ensures
        lawful(w, after_untrust(w, idx, allow), ev),
{
    let job = w.jobs[idx];
    let less = JobView { direct_result: None, ..job };
    let taken = with_job(w, idx, less);
    lemma_with_job(w, idx, less, ev);
    match job.direct_result {
        Some(Ok(())) => {
            lemma_resolved(w, idx, Ok(()), "direct"@, ev);
            lemma_resolved_same(w, taken, idx, Ok(()), "direct"@);
        },
        Some(Err(e)) => {
            lemma_relayed(taken, idx, ev);
            lemma_trans(w, taken, relayed(taken, idx), ev);
            let msg = crate::cross_copy::NO_TIME_1@ + e + crate::cross_copy::NO_TIME_2@;
            lemma_failed(taken, idx, msg, ev);
            lemma_trans(w, taken, failed(taken, idx, msg), ev);
        },
        None => {
            lemma_failed(taken, idx, crate::cross_copy::RESULT_LOST@, ev);
            lemma_trans(w, taken, failed(taken, idx, crate::cross_copy::RESULT_LOST@), ev);
        },
    }
}

/// The end of a copy does not depend on what it remembers of its direct attempt.
proof fn lemma_resolved_same(
    w: World,
    taken: World,
    idx: int,
    result: Result<(), Seq<char>>,
    method: Seq<char>,
)
    requires
        0 <= idx < w.jobs.len(),
        taken == with_job(w, idx, JobView { direct_result: None, ..w.jobs[idx] }),
    ensures
        resolved(taken, idx, result, method) == resolved(w, idx, result, method),
{
    assert(taken.jobs.remove(idx) =~= w.jobs.remove(idx));
}

proof fn lemma_given_up(w: World, idx: int, msg: Seq<char>, ev: CopyEvents)
    requires
        0 <= idx < w.jobs.len(),
    ensures
        lawful(w, given_up(w, idx, msg), ev),
{
    let job = w.jobs[idx];
    let a = stopped(w, idx);
    lemma_same_jobs(w, a, ev);
    lemma_quiet(w, a, ev);
    lemma_untrusted(a, idx, ev);
    let u = untrusted(a, job.dest_uid, job.op_id, job.marker);
    lemma_trans(w, a, u, ev);
    lemma_failed(u, idx, msg, ev);
    lemma_trans(w, u, failed(u, idx, msg), ev);
    lemma_failed(a, idx, msg, ev);
    lemma_trans(w, a, failed(a, idx, msg), ev);
}

proof fn lemma_checked_sides(w: World, idx: int, ev: CopyEvents)
    requires
        0 <= idx < w.jobs.len(),
    ensures
        lawful(w, checked_sides(w, idx), ev),
{
    let job = w.jobs[idx];
    lemma_refl(w, ev);
    if job.phase == CrossCopyPhase::UntrustingAfterDirect {
        let told = warned(w, job.dest_uid, job.marker, crate::cross_copy::RECEIPT_MISSING@);
        lemma_warned(w, job.dest_uid, job.marker, crate::cross_copy::RECEIPT_MISSING@, ev);
        let less = JobView { trusted: false, ..job };
        lemma_with_job(told, idx, less, ev);
        lemma_trans(w, told, with_job(told, idx, less), ev);
    } else {
        match crate::cross_copy::trouble(w, job) {
            Some(msg) => {
                lemma_given_up(w, idx, msg, ev);
            },
            None => {},
        }
    }
}

proof fn lemma_checked_clock(w: World, idx: int, now: u64, ev: CopyEvents)
    requires
        0 <= idx < w.jobs.len(),
    ensures
        lawful(w, checked_clock(w, idx, now), ev),
{
    let job = w.jobs[idx];
    lemma_refl(w, ev);
    lemma_after_untrust(w, idx, false, ev);
    lemma_after_untrust(w, idx, true, ev);
    lemma_given_up(w, idx, crate::cross_copy::COPY_TIMED_OUT@, ev);
    if job.phase is DirectCopying {
        let a = stopped(w, idx);
        lemma_same_jobs(w, a, ev);
        lemma_quiet(w, a, ev);
        lemma_direct_finished(a, idx, Err(crate::cross_copy::DIRECT_TIMED_OUT@), now, ev);
        lemma_trans(
            w,
            a,
            direct_finished(a, idx, Err(crate::cross_copy::DIRECT_TIMED_OUT@), now),
            ev,
        );
    }
}

proof fn lemma_all_sides(w: World, n: int, ev: CopyEvents)
    requires
        n <= w.jobs.len(),
    ensures
        lawful(w, all_sides_checked(w, n), ev),
    decreases n,
{
    if n <= 0 {
        lemma_refl(w, ev);
    } else {
        let u = checked_sides(w, n - 1);
        lemma_checked_sides(w, n - 1, ev);
        crate::cross_copy::lemma_checked_sides_len(w, n - 1);
        lemma_all_sides(u, n - 1, ev);
        lemma_trans(w, u, all_sides_checked(u, n - 1), ev);
    }
}

proof fn lemma_all_clocks(w: World, n: int, now: u64, ev: CopyEvents)
    requires
        n <= w.jobs.len(),
    ensures
        lawful(w, all_clocks_checked(w, n, now), ev),
    decreases n,
{
    if n <= 0 {
        lemma_refl(w, ev);
    } else {
        let u = checked_clock(w, n - 1, now);
        lemma_checked_clock(w, n - 1, now, ev);
        crate::cross_copy::lemma_checked_clock_len(w, n - 1, now);
        lemma_all_clocks(u, n - 1, now, ev);
        lemma_trans(w, u, all_clocks_checked(u, n - 1, now), ev);
    }
}

proof fn lemma_on_trusted(w: World, ev: CopyEvents, k: int, now: u64)
    requires
        0 <= k < ev.temp_key_trusted@.len(),
    ensures
        lawful(w, on_trusted(w, ev.temp_key_trusted@[k].0, ev.temp_key_trusted@[k].1, now), ev),
{
    let (op, ok, _) = ev.temp_key_trusted@[k];
    lemma_refl(w, ev);
    lemma_job_pos(w.jobs, op);
    match job_pos(w.jobs, op) {
        Some(i) => {
            lemma_relayed(w, i, ev);
            if ok {
                let more = JobView { trusted: true, ..w.jobs[i] };
                let u = with_job(w, i, more);
                lemma_with_job(w, i, more, ev);
                assert(trust_reported(ev, op));
                lemma_direct_started(u, i, now, ev);
                lemma_trans(w, u, direct_started(u, i, now), ev);
            }
        },
        None => {},
    }
}

proof fn lemma_on_started(w: World, op: u64, ev: CopyEvents)
    ensures
        lawful(w, on_started(w, op), ev),
{
    lemma_refl(w, ev);
    lemma_job_pos(w.jobs, op);
    match job_pos(w.jobs, op) {
        Some(i) => {
            if w.jobs[i].phase is DirectCopying {
                let more = JobView {
                    phase: CrossCopyPhase::DirectCopying { started: true },
                    ..w.jobs[i]
                };
                lemma_with_job(w, i, more, ev);
            }
        },
        None => {},
    }
}

proof fn lemma_on_direct_done(w: World, ev: CopyEvents, k: int, now: u64)
    requires
        0 <= k < ev.direct_relay_done@.len(),
    ensures
        lawful(
            w,
            on_direct_done(
                w,
                ev.direct_relay_done@[k].0,
                ev.direct_relay_done@[k].1,
                ev.direct_relay_done@[k].2@,
                now,
            ),
            ev,
        ),
{
    let (op, ok, msg) = ev.direct_relay_done@[k];
    lemma_refl(w, ev);
    lemma_job_pos(w.jobs, op);
    match job_pos(w.jobs, op) {
        Some(i) => {
            if w.jobs[i].phase is DirectCopying {
                if ok {
                    assert(direct_reported(ev, op));
                    lemma_direct_finished(w, i, Ok(()), now, ev);
                } else {
                    lemma_direct_finished(w, i, Err(msg@), now, ev);
                }
            }
        },
        None => {},
    }
}

proof fn lemma_on_untrusted(w: World, op: u64, ok: bool, msg: Seq<char>, ev: CopyEvents)
    ensures
        lawful(w, on_untrusted(w, op, ok, msg), ev),
{
    lemma_refl(w, ev);
    lemma_job_pos(w.jobs, op);
    match job_pos(w.jobs, op) {
        Some(i) => {
            let job = w.jobs[i];
            let less = JobView { trusted: false, ..job };
            let reason = crate::cross_copy::untrust_failure(msg);
            lemma_with_job(w, i, less, ev);
            lemma_warned(w, job.dest_uid, job.marker, reason, ev);
            let told = if ok {
                with_job(w, i, less)
            } else {
                warned(w, job.dest_uid, job.marker, reason)
            };
            lemma_after_untrust(told, i, true, ev);
            lemma_trans(w, told, after_untrust(told, i, true), ev);
        },
        None => {},
    }
}

proof fn lemma_on_relay_source(w: World, ev: CopyEvents, k: int)
    requires
        0 <= k < ev.relay_source@.len(),
    ensures
        lawful(w, on_relay_source(w, ev.relay_source@[k].0, ev.relay_source@[k].1), ev),
{
    let (op, result) = ev.relay_source@[k];
    lemma_refl(w, ev);
    lemma_job_pos(w.jobs, op);
    match job_pos(w.jobs, op) {
        Some(i) => {
            let job = w.jobs[i];
            match result {
                Err(msg) => {
                    lemma_failed(w, i, msg@, ev);
                },
                Ok(size) => {
                    assert(size_reported(ev, op, size));
                    lemma_failed(w, i, crate::cross_copy::PIPE_READER_LOST@, ev);
                    let less = JobView { pipe_reader: false, ..job };
                    let used = with_job(w, i, less);
                    lemma_with_job(w, i, less, ev);
                    lemma_failed(used, i, crate::cross_copy::DEST_GONE@, ev);
                    lemma_trans(w, used, failed(used, i, crate::cross_copy::DEST_GONE@), ev);
                    lemma_failed(used, i, crate::cross_copy::DEST_DOWN@, ev);
                    lemma_trans(w, used, failed(used, i, crate::cross_copy::DEST_DOWN@), ev);
                    lemma_failed(used, i, crate::cross_copy::DEST_SEND_FAILED@, ev);
                    lemma_trans(w, used, failed(used, i, crate::cross_copy::DEST_SEND_FAILED@), ev);
                    lemma_bound(w.sides, job.dest_uid);
                    match side_pos(w.sides, job.dest_uid) {
                        Some(d) => {
                            let cmd = CommandView::RelayWriteFile {
                                id: op,
                                remote_path: job.dest_path,
                                size,
                            };
                            lemma_sent(used, d, cmd, i, ev);
                            let told = sent(used, d, cmd);
                            lemma_trans(w, used, told, ev);
                            let last = JobView {
                                pipe_reader: false,
                                phase: CrossCopyPhase::RelayWriting,
                                ..job
                            };
                            lemma_with_job(told, i, last, ev);
                            lemma_trans(w, told, with_job(told, i, last), ev);
                        },
                        None => {},
                    }
                },
            }
        },
        None => {},
    }
}

proof fn lemma_on_copy_done(w: World, ev: CopyEvents, k: int)
    requires
        0 <= k < ev.copy_done@.len(),
    ensures
        lawful(
            w,
            on_copy_done(
                w,
                ev.copy_done@[k].0,
                ev.copy_done@[k].1,
                ev.copy_done@[k].2,
                ev.copy_done@[k].3@,
            ),
            ev,
        ),
{
    let (uid, op, ok, msg) = ev.copy_done@[k];
    lemma_refl(w, ev);
    lemma_job_pos(w.jobs, op);
    match job_pos(w.jobs, op) {
        Some(i) => {
            if uid == w.jobs[i].dest_uid {
                if ok {
                    assert(write_reported(ev, uid, op));
                    lemma_resolved(w, i, Ok(()), "relay"@, ev);
                } else {
                    lemma_failed(w, i, msg@, ev);
                }
            }
        },
        None => {},
    }
}

proof fn lemma_after_trusted(w: World, ev: CopyEvents, n: int, now: u64)
    requires
        0 <= n <= ev.temp_key_trusted@.len(),
    ensures
        lawful(w, after_trusted(w, ev.temp_key_trusted@.take(n), now), ev),
    decreases n,
{
    let all = ev.temp_key_trusted@;
    if n == 0 {
        lemma_refl(w, ev);
    } else {
        lemma_after_trusted(w, ev, n - 1, now);
        assert(all.take(n).drop_last() =~= all.take(n - 1));
        let u = after_trusted(w, all.take(n - 1), now);
        lemma_on_trusted(u, ev, n - 1, now);
        lemma_trans(w, u, on_trusted(u, all[n - 1].0, all[n - 1].1, now), ev);
    }
}

proof fn lemma_after_started(w: World, ev: CopyEvents, n: int)
    requires
        0 <= n <= ev.direct_relay_started@.len(),
    ensures
        lawful(w, after_started(w, ev.direct_relay_started@.take(n)), ev),
    decreases n,
{
    let all = ev.direct_relay_started@;
    if n == 0 {
        lemma_refl(w, ev);
    } else {
        lemma_after_started(w, ev, n - 1);
        assert(all.take(n).drop_last() =~= all.take(n - 1));
        let u = after_started(w, all.take(n - 1));
        lemma_on_started(u, all[n - 1], ev);
        lemma_trans(w, u, on_started(u, all[n - 1]), ev);
    }
}

proof fn lemma_after_direct_done(w: World, ev: CopyEvents, n: int, now: u64)
    requires
        0 <= n <= ev.direct_relay_done@.len(),
    ensures
        lawful(w, after_direct_done(w, ev.direct_relay_done@.take(n), now), ev),
    decreases n,
{
    let all = ev.direct_relay_done@;
    if n == 0 {
        lemma_refl(w, ev);
    } else {
        lemma_after_direct_done(w, ev, n - 1, now);
        assert(all.take(n).drop_last() =~= all.take(n - 1));
        let u = after_direct_done(w, all.take(n - 1), now);
        lemma_on_direct_done(u, ev, n - 1, now);
        lemma_trans(
            w,
            u,
            on_direct_done(u, all[n - 1].0, all[n - 1].1, all[n - 1].2@, now),
            ev,
        );
    }
}

proof fn lemma_after_untrusted(w: World, ev: CopyEvents, n: int)
    requires
        0 <= n <= ev.temp_key_untrusted@.len(),
    ensures
        lawful(w, after_untrusted(w, ev.temp_key_untrusted@.take(n)), ev),
    decreases n,
{
    let all = ev.temp_key_untrusted@;
    if n == 0 {
        lemma_refl(w, ev);
    } else {
        lemma_after_untrusted(w, ev, n - 1);
        assert(all.take(n).drop_last() =~= all.take(n - 1));
        let u = after_untrusted(w, all.take(n - 1));
        lemma_on_untrusted(u, all[n - 1].0, all[n - 1].1, all[n - 1].2@, ev);
        lemma_trans(w, u, on_untrusted(u, all[n - 1].0, all[n - 1].1, all[n - 1].2@), ev);
    }
}

proof fn lemma_after_relay_source(w: World, ev: CopyEvents, n: int)
    requires
        0 <= n <= ev.relay_source@.len(),
    ensures
        lawful(w, after_relay_source(w, ev.relay_source@.take(n)), ev),
    decreases n,
{
    let all = ev.relay_source@;
    if n == 0 {
        lemma_refl(w, ev);
    } else {
        lemma_after_relay_source(w, ev, n - 1);
        assert(all.take(n).drop_last() =~= all.take(n - 1));
        let u = after_relay_source(w, all.take(n - 1));
        lemma_on_relay_source(u, ev, n - 1);
        lemma_trans(w, u, on_relay_source(u, all[n - 1].0, all[n - 1].1), ev);
    }
}

proof fn lemma_after_copy_done(w: World, ev: CopyEvents, n: int)
    requires
        0 <= n <= ev.copy_done@.len(),
    ensures
        lawful(w, after_copy_done(w, ev.copy_done@.take(n)), ev),
    decreases n,
{
    let all = ev.copy_done@;
    if n == 0 {
        lemma_refl(w, ev);
    } else {
        lemma_after_copy_done(w, ev, n - 1);
        assert(all.take(n).drop_last() =~= all.take(n - 1));
        let u = after_copy_done(w, all.take(n - 1));
        lemma_on_copy_done(u, ev, n - 1);
        lemma_trans(
            w,
            u,
            on_copy_done(u, all[n - 1].0, all[n - 1].1, all[n - 1].2, all[n - 1].3@),
            ev,
        );
    }
}

proof fn lemma_whole_events(ev: CopyEvents)
    ensures
        ev.temp_key_trusted@.take(ev.temp_key_trusted@.len() as int) == ev.temp_key_trusted@,
        ev.direct_relay_started@.take(ev.direct_relay_started@.len() as int)
            == ev.direct_relay_started@,
        ev.direct_relay_done@.take(ev.direct_relay_done@.len() as int) == ev.direct_relay_done@,
        ev.temp_key_untrusted@.take(ev.temp_key_untrusted@.len() as int) == ev.temp_key_untrusted@,
        ev.relay_source@.take(ev.relay_source@.len() as int) == ev.relay_source@,
        ev.copy_done@.take(ev.copy_done@.len() as int) == ev.copy_done@,
{
    assert(ev.temp_key_trusted@.take(ev.temp_key_trusted@.len() as int) =~= ev.temp_key_trusted@);
    assert(ev.direct_relay_started@.take(ev.direct_relay_started@.len() as int)
        =~= ev.direct_relay_started@);
    assert(ev.direct_relay_done@.take(ev.direct_relay_done@.len() as int) =~= ev.direct_relay_done@);
    assert(ev.temp_key_untrusted@.take(ev.temp_key_untrusted@.len() as int)
        =~= ev.temp_key_untrusted@);
    assert(ev.relay_source@.take(ev.relay_source@.len() as int) =~= ev.relay_source@);
    assert(ev.copy_done@.take(ev.copy_done@.len() as int) =~= ev.copy_done@);
}

proof fn lemma_first_events(w: World, ev: CopyEvents, now: u64) -> (v: World)
    ensures
        lawful(w, v, ev),
        v == after_direct_done(
            after_started(
                after_trusted(w, ev.temp_key_trusted@, now),
                ev.direct_relay_started@,
            ),
            ev.direct_relay_done@,
            now,
        ),
{
    lemma_whole_events(ev);
    let w1 = after_trusted(w, ev.temp_key_trusted@, now);
    lemma_after_trusted(w, ev, ev.temp_key_trusted@.len() as int, now);
    let w2 = after_started(w1, ev.direct_relay_started@);
    lemma_after_started(w1, ev, ev.direct_relay_started@.len() as int);
    lemma_trans(w, w1, w2, ev);
    let w3 = after_direct_done(w2, ev.direct_relay_done@, now);
    lemma_after_direct_done(w2, ev, ev.direct_relay_done@.len() as int, now);
    lemma_trans(w, w2, w3, ev);
    w3
}

proof fn lemma_last_events(w: World, ev: CopyEvents) -> (v: World)
    ensures
        lawful(w, v, ev),
        v == after_copy_done(
            after_relay_source(after_untrusted(w, ev.temp_key_untrusted@), ev.relay_source@),
            ev.copy_done@,
        ),
{
    lemma_whole_events(ev);
    let w1 = after_untrusted(w, ev.temp_key_untrusted@);
    lemma_after_untrusted(w, ev, ev.temp_key_untrusted@.len() as int);
    let w2 = after_relay_source(w1, ev.relay_source@);
    lemma_after_relay_source(w1, ev, ev.relay_source@.len() as int);
    lemma_trans(w, w1, w2, ev);
    let w3 = after_copy_done(w2, ev.copy_done@);
    lemma_after_copy_done(w2, ev, ev.copy_done@.len() as int);
    lemma_trans(w, w2, w3, ev);
    w3
}

proof fn lemma_checks(w: World, ev: CopyEvents, now: u64) -> (v: World)
    ensures
        lawful(w, v, ev),
        ({
            let present = all_sides_checked(w, w.jobs.len() as int);
            v == all_clocks_checked(present, present.jobs.len() as int, now)
        }),
{
    let u = all_sides_checked(w, w.jobs.len() as int);
    lemma_all_sides(w, w.jobs.len() as int, ev);
    let v = all_clocks_checked(u, u.jobs.len() as int, now);
    lemma_all_clocks(u, u.jobs.len() as int, now, ev);
    lemma_trans(w, u, v, ev);
    v
}

proof fn lemma_advanced(w: World, ev: CopyEvents, now: u64)
    ensures
        lawful(w, advanced(w, ev, now), ev),
{
    let a = lemma_first_events(w, ev, now);
    let b = lemma_last_events(a, ev);
    lemma_trans(w, a, b, ev);
    let c = lemma_checks(b, ev, now);
    lemma_trans(w, b, c, ev);
    assert(b == after_events(w, ev, now));
}

/// A session that a copy goes to, with the login that its worker was given.
pub open spec fn is_target(s: Session, j: CrossCopyJob, user: Seq<char>, host: Seq<char>, port: u16)
    -> bool {
    &&& s.uid == j.dest_uid
    &&& s.cfg.username@ == user
    &&& s.cfg.host@ == host
    &&& s.cfg.port == port
}

/// One of the sessions is the one that a copy goes to, with this login.
pub open spec fn has_target(
    ss: Seq<Session>,
    j: CrossCopyJob,
    user: Seq<char>,
    host: Seq<char>,
    port: u16,
) -> bool {
    exists|d: int| 0 <= d < ss.len() && is_target(#[trigger] ss[d], j, user, host, port)
}

/// A command to session `s` is one that copy `j` needs: the source copies or reads the very file that
/// was asked for, straight to the login of the very session and to the very path that were asked
/// for, once the target trusts the key, with the key that was made for the copy; the target writes
/// that path, as many bytes as were reported, or revokes that key; either end stops that copy.
pub open spec fn is_needed(
    ss: Seq<Session>,
    s: Session,
    j: CrossCopyJob,
    cmd: UiCommand,
    ev: CopyEvents,
) -> bool {
    match cmd {
        UiCommand::DirectRelayCopy {
            op_id,
            src_path,
            dest_user,
            dest_host,
            dest_port,
            dest_path,
            priv_key_pem,
        } => {
            &&& s.uid == j.src_uid
            &&& op_id == j.op_id
            &&& src_path@ == j.src_remote_path@
            &&& dest_path@ == j.dest_remote_path@
            &&& has_target(ss, j, dest_user@, dest_host@, dest_port)
            &&& j.priv_key_pem is Some && j.priv_key_pem->0@ == priv_key_pem@
            &&& trust_reported(ev, j.op_id)
        },
        UiCommand::RelayReadFile { id, remote_path } => {
            &&& s.uid == j.src_uid
            &&& id == j.op_id
            &&& remote_path@ == j.src_remote_path@
        },
        UiCommand::RelayWriteFile { id, remote_path, size } => {
            &&& s.uid == j.dest_uid
            &&& id == j.op_id
            &&& remote_path@ == j.dest_remote_path@
            &&& size_reported(ev, j.op_id, size)
        },
        UiCommand::UntrustTempKey { op_id, marker } => {
            &&& s.uid == j.dest_uid
            &&& op_id == j.op_id
            &&& marker@ == j.marker@
        },
        UiCommand::CancelTransfer(id) => {
            &&& id == j.op_id
            &&& s.uid == j.src_uid || s.uid == j.dest_uid
        },
        _ => false,
    }
}

/// Every command that a frame of the copies sends is one that a copy which was under way needs.
pub proof fn every_command_of_a_copy_is_needed(
    before: App,
    out: Outbox,
    after: App,
    out2: Outbox,
    ev: CopyEvents,
    now: u64,
    k: int,
    n: int,
)
    requires
        world(after, out2) == advanced(world(before, out), ev, now),
        0 <= k < before.sessions@.len(),
        before.sessions@[k].link.sent@.len() <= n < after.sessions@[k].link.sent@.len(),
    ensures
        exists|j: int|
            0 <= j < before.cross_copy_jobs@.len() && #[trigger] is_needed(
                before.sessions@,
                before.sessions@[k],
                before.cross_copy_jobs@[j],
                after.sessions@[k].link.sent@[n],
                ev,
            ),
{
    let w = world(before, out);
    let v = world(after, out2);
    lemma_advanced(w, ev, now);
    reveal(lawful);
    let cmd = after.sessions@[k].link.sent@[n];
    assert(v.sides.len() == w.sides.len());
    assert(after.sessions@.len() == v.sides.len());
    assert(v.sides[k].log[n] == cmd@);
    assert(is_new(w, v, k, n));
    let j = choose|j: int|
        0 <= j < w.jobs.len() && #[trigger] serves_copy(w.sides, k, w.jobs[j], cmd@, ev);
    let job = before.cross_copy_jobs@[j];
    assert(w.jobs[j] == job@);
    match cmd {
        UiCommand::DirectRelayCopy { dest_user, dest_host, dest_port, .. } => {
            let d = choose|d: int|
                0 <= d < w.sides.len() && is_login(
                    #[trigger] w.sides[d],
                    job.dest_uid,
                    dest_user@,
                    dest_host@,
                    dest_port,
                );
            assert(is_target(before.sessions@[d], job, dest_user@, dest_host@, dest_port));
        },
        _ => {},
    }
    assert(is_needed(before.sessions@, before.sessions@[k], job, cmd, ev));
}

/// A session was told to copy directly for copy `op` in this frame.
pub open spec fn told_to_copy(before: App, after: App, op: u64) -> bool {
    exists|k: int, n: int|
        {
            &&& 0 <= k < after.sessions@.len()
            &&& before.sessions@[k].link.sent@.len() <= n < after.sessions@[k].link.sent@.len()
            &&& (#[trigger] after.sessions@[k].link.sent@[n]) is DirectRelayCopy
            &&& after.sessions@[k].link.sent@[n]->DirectRelayCopy_op_id == op
        }
}

proof fn lemma_told(before: App, out: Outbox, after: App, out2: Outbox, op: u64)
    requires
        ordered_between(world(before, out), world(after, out2), op),
        before.sessions@.len() == after.sessions@.len(),
    ensures
        told_to_copy(before, after, op),
{
    let w = world(before, out);
    let v = world(after, out2);
    let (k, n) = choose|k: int, n: int| #[trigger]
        is_new(w, v, k, n) && is_direct_order(v.sides[k].log[n], op);
    assert(v.sides[k].log[n] == after.sessions@[k].link.sent@[n]@);
    assert(w.sides[k].log.len() == before.sessions@[k].link.sent@.len());
    assert(v.sides[k].log.len() == after.sessions@[k].link.sent@.len());
    assert(after.sessions@[k].link.sent@[n] is DirectRelayCopy);
}

/// A reply is the answer to copy `j`: it goes to the one who waits for it, and a success names the
/// path that was asked for. It is called direct only where the direct copy, which was ordered in
/// this frame or under way before it, was reported to have succeeded, and relayed only where the
/// target itself reported that it wrote the file.
pub open spec fn is_answer(before: App, after: App, j: CrossCopyJob, r: Reply, ev: CopyEvents) -> bool {
    &&& j.waiter is Some
    &&& r.chan == j.waiter->0.chan
    &&& r.id == j.req_id
    &&& r.result is Ok ==> {
        let res = r.result->Ok_0;
        &&& res is CopiedBetweenSessions
        &&& res->CopiedBetweenSessions_path@ == j.dest_remote_path@
        &&& {
            ||| {
                &&& res->CopiedBetweenSessions_method@ == "direct"@
                &&& {
                    ||| j.direct_result is Some && j.direct_result->0 is Ok
                    ||| direct_reported(ev, j.op_id) && (j.phase is DirectCopying || told_to_copy(
                        before,
                        after,
                        j.op_id,
                    ))
                }
            }
            ||| {
                &&& res->CopiedBetweenSessions_method@ == "relay"@
                &&& write_reported(ev, j.dest_uid, j.op_id)
            }
        }
    }
}

/// Every reply that a frame of the copies gives is the answer to a copy that was under way.
pub proof fn every_answer_of_a_copy_is_its_own(
    before: App,
    out: Outbox,
    after: App,
    out2: Outbox,
    ev: CopyEvents,
    now: u64,
    n: int,
)
    requires
        world(after, out2) == advanced(world(before, out), ev, now),
        out.replies@.len() <= n < out2.replies@.len(),
    ensures
        exists|j: int|
            0 <= j < before.cross_copy_jobs@.len() && #[trigger] is_answer(
                before,
                after,
                before.cross_copy_jobs@[j],
                out2.replies@[n],
                ev,
            ),
{
    let w = world(before, out);
    let v = world(after, out2);
    lemma_advanced(w, ev, now);
    reveal(lawful);
    let r = out2.replies@[n];
    assert(v.sides.len() == w.sides.len());
    assert(v.replies[n] == r@);
    assert(answers_some(w, v, v.replies[n], ev));
    let j = choose|j: int|
        0 <= j < w.jobs.len() && #[trigger] answers_copy(w, v, w.jobs[j], r@, ev);
    let job = before.cross_copy_jobs@[j];
    assert(w.jobs[j] == job@);
    if ordered_between(w, v, job.op_id) {
        lemma_told(before, out, after, out2, job.op_id);
    }
    assert(is_answer(before, after, job, r, ev));
}

/// A copy that is under way is the one that was asked for: the same two sessions and paths, the
/// same one who waits, and the same deadline. It counts as copying directly only once its source was
/// told to, and as copied directly only once that was reported.
pub open spec fn is_same_copy(
    before: App,
    after: App,
    a: CrossCopyJob,
    b: CrossCopyJob,
    ev: CopyEvents,
) -> bool {
    &&& b.op_id == a.op_id && b.req_id == a.req_id && b.waiter == a.waiter
    &&& b.src_uid == a.src_uid && b.src_remote_path@ == a.src_remote_path@
    &&& b.dest_uid == a.dest_uid && b.dest_remote_path@ == a.dest_remote_path@
    &&& b.marker@ == a.marker@ && b.deadline == a.deadline
    &&& b.phase is DirectCopying ==> a.phase is DirectCopying || told_to_copy(before, after, a.op_id)
    &&& b.direct_result is Some && b.direct_result->0 is Ok ==> {
        ||| a.direct_result is Some && a.direct_result->0 is Ok
        ||| direct_reported(ev, a.op_id)
    }
}

/// No frame changes what a copy was asked to do.
pub proof fn a_copy_stays_what_was_asked_for(
    before: App,
    out: Outbox,
    after: App,
    out2: Outbox,
    ev: CopyEvents,
    now: u64,
    i: int,
)
    requires
        world(after, out2) == advanced(world(before, out), ev, now),
        0 <= i < after.cross_copy_jobs@.len(),
    ensures
        exists|j: int|
            0 <= j < before.cross_copy_jobs@.len() && #[trigger] is_same_copy(
                before,
                after,
                before.cross_copy_jobs@[j],
                after.cross_copy_jobs@[i],
                ev,
            ),
{
    let w = world(before, out);
    let v = world(after, out2);
    lemma_advanced(w, ev, now);
    reveal(lawful);
    let b = after.cross_copy_jobs@[i];
    assert(v.jobs[i] == b@);
    assert(v.sides.len() == w.sides.len());
    assert(goes_on_from(w, v, v.jobs[i], ev));
    let j = choose|j: int| 0 <= j < w.jobs.len() && #[trigger] goes_on(w, v, w.jobs[j], b@, ev);
    let a = before.cross_copy_jobs@[j];
    assert(w.jobs[j] == a@);
    if ordered_between(w, v, a.op_id) {
        lemma_told(before, out, after, out2, a.op_id);
    }
    assert(is_same_copy(before, after, a, b, ev));
}

} // verus!
