//! Copying a file from one session to another on behalf of an agent: directly between the two
//! servers with a one-time key, else through this machine.
//!
//! The machine is stated over a [`World`]: what it reads and writes of the program, with strings as
//! characters. Each function below has a spec function of the same shape on worlds.
use vstd::prelude::*;
use vstd::string::*;

use crate::app::{uid_pos, App};
use crate::file_ops::{drop_copy, without_copy, PendingAiFileOp};
use crate::proto::{CommandView, Lang, UiCommand};
use crate::protocol::{answer, refusal, reply_views, Reply, ReplyView, ReqResult, ResultView, Waiter};
use crate::runs::CLOCK_LIMIT_MS;
use crate::session::Session;
use crate::text::{decimal, push_decimal, views};

verus! {

/// How long a direct copy may take to start, in milliseconds.
pub const DIRECT_ATTEMPT_TIMEOUT: u64 = 20_000;

/// How long the revocation of a key is waited for, in milliseconds.
pub const UNTRUST_WAIT: u64 = 10_000;

/// How far a copy between two sessions is.
#[derive(Clone, Copy, PartialEq, Eq, Structural)]
pub enum CrossCopyPhase {
    /// The target was told to trust the one-time key.
    TrustingB,
    /// The source was told to copy directly.
    DirectCopying { started: bool },
    /// The target was told to revoke the key.
    UntrustingAfterDirect,
    /// The source was told to read the file into the pipe.
    RelayReading,
    /// The target was told to write the file from the pipe.
    RelayWriting,
}

/// A copy between two sessions.
pub struct CrossCopyJob {
    pub op_id: u64,
    pub req_id: u64,
    pub waiter: Option<Waiter>,
    pub src_uid: u64,
    pub dest_uid: u64,
    pub src_remote_path: String,
    pub dest_remote_path: String,
    /// Whether the end of the pipe that is written to is still unused.
    pub pipe_writer: bool,
    /// Whether the end of the pipe that is read from is still unused.
    pub pipe_reader: bool,
    /// The comment of the one-time key.
    pub marker: String,
    /// Whether the target confirmed that it trusts the key, and not yet that it does so no more.
    pub trust_established: bool,
    /// The private key, until it is handed to the source.
    pub priv_key_pem: Option<Vec<u8>>,
    /// How the direct copy ended.
    pub direct_result: Option<Result<(), String>>,
    pub phase: CrossCopyPhase,
    /// When the whole copy is given up, in milliseconds.
    pub deadline: u64,
    /// When the current phase is given up, in milliseconds.
    pub phase_deadline: u64,
}

/// A [`CrossCopyJob`] with its strings as characters.
pub struct JobView {
    pub op_id: u64,
    pub req_id: u64,
    pub waiter: Option<Waiter>,
    pub src_uid: u64,
    pub dest_uid: u64,
    pub src_path: Seq<char>,
    pub dest_path: Seq<char>,
    pub pipe_writer: bool,
    pub pipe_reader: bool,
    pub marker: Seq<char>,
    pub trusted: bool,
    pub key: Option<Seq<u8>>,
    pub direct_result: Option<Result<(), Seq<char>>>,
    pub phase: CrossCopyPhase,
    pub deadline: u64,
    pub phase_deadline: u64,
}

/// A result with its message as characters.
pub open spec fn res_view(r: Result<(), String>) -> Result<(), Seq<char>> {
    match r {
        Ok(()) => Ok(()),
        Err(e) => Err(e@),
    }
}

/// An optional result with its message as characters.
pub open spec fn outcome(r: Option<Result<(), String>>) -> Option<Result<(), Seq<char>>> {
    match r {
        None => None,
        Some(x) => Some(res_view(x)),
    }
}

impl View for CrossCopyJob {
    type V = JobView;

    open spec fn view(&self) -> JobView {
        JobView {
            op_id: self.op_id,
            req_id: self.req_id,
            waiter: self.waiter,
            src_uid: self.src_uid,
            dest_uid: self.dest_uid,
            src_path: self.src_remote_path@,
            dest_path: self.dest_remote_path@,
            pipe_writer: self.pipe_writer,
            pipe_reader: self.pipe_reader,
            marker: self.marker@,
            trusted: self.trust_established,
            key: match self.priv_key_pem {
                Some(k) => Some(k@),
                None => None,
            },
            direct_result: outcome(self.direct_result),
            phase: self.phase,
            deadline: self.deadline,
            phase_deadline: self.phase_deadline,
        }
    }
}

/// One session as the copies see it.
pub struct Side {
    pub uid: u64,
    pub connected: bool,
    /// The commands that were sent.
    pub log: Seq<CommandView>,
    pub takes: u64,
    pub status: Seq<char>,
    pub ops: Seq<PendingAiFileOp>,
    pub host: Seq<char>,
    pub port: u16,
    pub user: Seq<char>,
}

/// A session as the copies see it.
pub open spec fn side(s: Session) -> Side {
    Side {
        uid: s.uid,
        connected: s.connected,
        log: s.link.log(),
        takes: s.link.takes,
        status: s.status@,
        ops: s.pending_file_ops@,
        host: s.cfg.host@,
        port: s.cfg.port,
        user: s.cfg.username@,
    }
}

/// What comes out of a frame: replies, and lines for the log.
pub struct Outbox {
    pub replies: Vec<Reply>,
    pub log: Vec<String>,
}

/// What the copies read and write.
#[verifier::ext_equal]
pub struct World {
    pub lang: Lang,
    pub sides: Seq<Side>,
    pub jobs: Seq<JobView>,
    /// The direct copies that were told to stop.
    pub cancelled: Seq<u64>,
    pub toast: Option<Seq<char>>,
    pub replies: Seq<ReplyView>,
    /// The lines for the log.
    pub lines: Seq<Seq<char>>,
}

/// The sessions as the copies see them.
pub open spec fn sides_of(ss: Seq<Session>) -> Seq<Side> {
    Seq::new(ss.len(), |i: int| side(ss[i]))
}

/// The copies with their strings as characters.
pub open spec fn jobs_of(js: Seq<CrossCopyJob>) -> Seq<JobView> {
    Seq::new(js.len(), |i: int| js[i]@)
}

/// What the copies read and write of the program.
pub open spec fn world(app: App, out: Outbox) -> World {
    World {
        lang: app.lang,
        sides: sides_of(app.sessions@),
        jobs: jobs_of(app.cross_copy_jobs@),
        cancelled: app.cancelled_ops@,
        toast: match app.toast {
            Some(t) => Some(t@),
            None => None,
        },
        replies: reply_views(out.replies@),
        lines: views(out.log@),
    }
}

/// What the copies leave alone.
pub open spec fn frame(before: App, after: App) -> bool {
    &&& after == (App {
        sessions: after.sessions,
        cross_copy_jobs: after.cross_copy_jobs,
        cancelled_ops: after.cancelled_ops,
        toast: after.toast,
        ..before
    })
    &&& after.sessions@.len() == before.sessions@.len()
    &&& forall|i: int|
        0 <= i < before.sessions@.len() ==> #[trigger] after.sessions@[i] == (Session {
            link: after.sessions@[i].link,
            status: after.sessions@[i].status,
            pending_file_ops: after.sessions@[i].pending_file_ops,
            ..before.sessions@[i]
        })
}

/// The position of a session.
pub open spec fn side_pos(sides: Seq<Side>, uid: u64) -> Option<int>
    decreases sides.len(),
{
    if sides.len() == 0 {
        None
    } else {
        match side_pos(sides.drop_last(), uid) {
            Some(i) => Some(i),
            None => if sides.last().uid == uid {
                Some(sides.len() - 1)
            } else {
                None
            },
        }
    }
}

pub(crate) proof fn lemma_side_pos(ss: Seq<Session>, uid: u64)
    ensures
        side_pos(sides_of(ss), uid) == uid_pos(ss, uid),
    decreases ss.len(),
{
    if ss.len() > 0 {
        lemma_side_pos(ss.drop_last(), uid);
        assert(sides_of(ss).drop_last() =~= sides_of(ss.drop_last()));
    }
}

/// The position of a copy.
pub open spec fn job_pos(jobs: Seq<JobView>, op_id: u64) -> Option<int>
    decreases jobs.len(),
{
    if jobs.len() == 0 {
        None
    } else {
        match job_pos(jobs.drop_last(), op_id) {
            Some(i) => Some(i),
            None => if jobs.last().op_id == op_id {
                Some(jobs.len() - 1)
            } else {
                None
            },
        }
    }
}

/// What [`job_pos`] finds.
pub proof fn lemma_job_pos(jobs: Seq<JobView>, op_id: u64)
    ensures
        match job_pos(jobs, op_id) {
            Some(i) => 0 <= i < jobs.len() && jobs[i].op_id == op_id && forall|j: int|
                0 <= j < i ==> (#[trigger] jobs[j]).op_id != op_id,
            None => forall|j: int| 0 <= j < jobs.len() ==> (#[trigger] jobs[j]).op_id != op_id,
        },
    decreases jobs.len(),
{
    if jobs.len() > 0 {
        lemma_job_pos(jobs.drop_last(), op_id);
        assert(forall|j: int| 0 <= j < jobs.len() - 1 ==> jobs.drop_last()[j] == jobs[j]);
    }
}

pub const DEST_GONE_UNTRUST: &'static str = "目标会话已不存在，无法自动撤销";

pub const DEST_DOWN_UNTRUST: &'static str = "目标会话已断线，撤销无法送达";

pub const UNTRUST_NOT_SENT: &'static str = "撤销消息发送失败（目标会话后台连接已断开）";

/// Why the revocation of a key does not reach its target, `None` where it does. A disconnected
/// target never handles what is sent to it, though the send succeeds.
pub open spec fn route_refusal(dest_connected: Option<bool>) -> Option<Seq<char>> {
    match dest_connected {
        None => Some(DEST_GONE_UNTRUST@),
        Some(false) => Some(DEST_DOWN_UNTRUST@),
        Some(true) => None,
    }
}

/// Whether the revocation of a key reaches its target.
pub fn untrust_route(dest_connected: Option<bool>) -> (r: Result<(), &'static str>)
    ensures
        match r {
            Ok(()) => route_refusal(dest_connected) is None,
            Err(msg) => route_refusal(dest_connected) == Some(msg@),
        },
{
    match dest_connected {
        None => Err(DEST_GONE_UNTRUST),
        Some(connected) => if connected {
            Ok(())
        } else {
            Err(DEST_DOWN_UNTRUST)
        },
    }
}

/// What the user is told where a key may be left behind: on which line to find it.
pub open spec fn residue_text(lang: Lang, marker: Seq<char>, reason: Seq<char>) -> Seq<char> {
    match lang {
        Lang::Zh => "⚠ 临时公钥可能残留在目标机上（"@ + reason
            + "）。请删除对应主机 ~/.ssh/authorized_keys 里含 "@ + marker + " 的那一行。"@,
        Lang::En => "⚠ The temporary key may remain on the destination host ("@ + reason
            + "). Remove the line containing "@ + marker + " from ~/.ssh/authorized_keys there."@,
    }
}

/// What the log says where a key may be left behind.
pub open spec fn residue_line(dest_uid: u64, marker: Seq<char>, reason: Seq<char>) -> Seq<char> {
    "copy_between_sessions 临时公钥可能残留（目标 uid "@ + decimal(dest_uid as nat) + "，标记 "@
        + marker + "）："@ + reason
}

/// Warns that a key may be left behind: in the log, in the status line of the target, and over
/// everything where nobody would see that line.
pub open spec fn warned(w: World, dest_uid: u64, marker: Seq<char>, reason: Seq<char>) -> World {
    let text = residue_text(w.lang, marker, reason);
    let logged = World { lines: w.lines.push(residue_line(dest_uid, marker, reason)), ..w };
    match side_pos(w.sides, dest_uid) {
        Some(i) => {
            let told = World {
                sides: w.sides.update(i, Side { status: text, ..w.sides[i] }),
                ..logged
            };
            if w.sides[i].connected {
                told
            } else {
                World { toast: Some(text), ..told }
            }
        },
        None => World { toast: Some(text), ..logged },
    }
}

/// The world after a command to the session at `i`, where it is taken.
pub open spec fn sent(w: World, i: int, cmd: CommandView) -> World {
    if w.sides[i].takes > 0 {
        World {
            sides: w.sides.update(
                i,
                Side {
                    log: w.sides[i].log.push(cmd),
                    takes: (w.sides[i].takes - 1) as u64,
                    ..w.sides[i]
                },
            ),
            ..w
        }
    } else {
        w
    }
}

/// Revokes a key, or warns that it may be left behind.
pub open spec fn untrusted(w: World, dest_uid: u64, op_id: u64, marker: Seq<char>) -> World {
    match side_pos(w.sides, dest_uid) {
        None => warned(w, dest_uid, marker, DEST_GONE_UNTRUST@),
        Some(i) => if !w.sides[i].connected {
            warned(w, dest_uid, marker, DEST_DOWN_UNTRUST@)
        } else if w.sides[i].takes == 0 {
            warned(w, dest_uid, marker, UNTRUST_NOT_SENT@)
        } else {
            sent(w, i, CommandView::UntrustTempKey { op_id, marker })
        },
    }
}

/// A session that gives up its place for copy `op_id`, and stops it where `cancel`.
pub open spec fn released(w: World, uid: u64, op_id: u64, cancel: bool) -> World {
    match side_pos(w.sides, uid) {
        None => w,
        Some(i) => {
            let told = if cancel {
                sent(w, i, CommandView::CancelTransfer(op_id))
            } else {
                w
            };
            World {
                sides: told.sides.update(
                    i,
                    Side { ops: without_copy(told.sides[i].ops, op_id), ..told.sides[i] },
                ),
                ..told
            }
        },
    }
}

/// The end of the copy at `idx`: both sides give up its place, and the one who waits is told.
pub open spec fn resolved(
    w: World,
    idx: int,
    result: Result<(), Seq<char>>,
    method: Seq<char>,
) -> World {
    let job = w.jobs[idx];
    let cancel = result is Err;
    let gone = World { jobs: w.jobs.remove(idx), ..w };
    let freed = released(released(gone, job.src_uid, job.op_id, cancel), job.dest_uid, job.op_id, cancel);
    match job.waiter {
        None => freed,
        Some(wt) => World {
            replies: freed.replies.push(
                match result {
                    Ok(()) => answer(
                        wt.chan,
                        job.req_id,
                        ResultView::CopiedBetweenSessions { path: job.dest_path, method },
                    ),
                    Err(msg) => refusal(wt.chan, job.req_id, msg),
                },
            ),
            ..freed
        },
    }
}

/// The copy at `idx` fails.
pub open spec fn failed(w: World, idx: int, msg: Seq<char>) -> World {
    resolved(w, idx, Err(msg), ""@)
}

/// A world in which the copy at `idx` is `job`.
pub open spec fn with_job(w: World, idx: int, job: JobView) -> World {
    World { jobs: w.jobs.update(idx, job), ..w }
}

pub const PIPE_WRITER_LOST: &'static str = "内部错误：中转管道写端已丢失";

pub const PIPE_READER_LOST: &'static str = "内部错误：中转管道读端已丢失";

pub const SRC_GONE: &'static str = "源会话已不存在";

pub const SRC_SEND_FAILED: &'static str = "源会话的后台连接似乎已经断开";

pub const DEST_GONE: &'static str = "目标会话已不存在";

pub const DEST_DOWN: &'static str = "目标会话已断线";

pub const DEST_SEND_FAILED: &'static str = "目标会话的后台连接似乎已经断开";

pub const RESULT_LOST: &'static str = "内部错误：直连结果丢失";

pub const NO_TIME_1: &'static str = "跨会话拷贝超时：直连未成功（";

pub const NO_TIME_2: &'static str = "），且已无时间预算改走中转";

pub const COPY_TIMED_OUT: &'static str = "跨会话拷贝超时（源或目标 worker 未在超时前返回结果）";

pub const DIRECT_TIMED_OUT: &'static str = "直连尝试超时（20s 内未建立连接），已转中转";

pub const RECEIPT_MISSING: &'static str = "撤销回执未到，目标会话已断线";

/// The copy at `idx` goes on through this machine.
pub open spec fn relayed(w: World, idx: int) -> World {
    let job = w.jobs[idx];
    if !job.pipe_writer {
        failed(w, idx, PIPE_WRITER_LOST@)
    } else {
        let used = with_job(w, idx, JobView { pipe_writer: false, ..job });
        match side_pos(w.sides, job.src_uid) {
            None => failed(used, idx, SRC_GONE@),
            Some(i) => if w.sides[i].takes == 0 {
                failed(used, idx, SRC_SEND_FAILED@)
            } else {
                with_job(
                    sent(
                        used,
                        i,
                        CommandView::RelayReadFile { id: job.op_id, remote_path: job.src_path },
                    ),
                    idx,
                    JobView {
                        pipe_writer: false,
                        phase: CrossCopyPhase::RelayReading,
                        ..job
                    },
                )
            },
        }
    }
}

/// The copy at `idx`, whose key the target trusts, goes on through this machine.
pub open spec fn untrusted_then_relayed(w: World, idx: int) -> World {
    let job = w.jobs[idx];
    relayed(untrusted(w, job.dest_uid, job.op_id, job.marker), idx)
}

/// The copy at `idx`, whose key the target trusts, is attempted directly.
pub open spec fn direct_started(w: World, idx: int, now: u64) -> World {
    let job = w.jobs[idx];
    match side_pos(w.sides, job.src_uid) {
        None => untrusted_then_relayed(w, idx),
        Some(si) => match side_pos(w.sides, job.dest_uid) {
            None => untrusted_then_relayed(w, idx),
            Some(di) => if !w.sides[si].connected {
                untrusted_then_relayed(w, idx)
            } else {
                match job.key {
                    None => untrusted_then_relayed(w, idx),
                    Some(key) => {
                        let spent = with_job(w, idx, JobView { key: None, ..job });
                        if w.sides[si].takes == 0 {
                            untrusted_then_relayed(spent, idx)
                        } else {
                            with_job(
                                sent(
                                    spent,
                                    si,
                                    CommandView::DirectRelayCopy {
                                        op_id: job.op_id,
                                        src_path: job.src_path,
                                        dest_user: w.sides[di].user,
                                        dest_host: w.sides[di].host,
                                        dest_port: w.sides[di].port,
                                        dest_path: job.dest_path,
                                        priv_key_pem: key,
                                    },
                                ),
                                idx,
                                JobView {
                                    key: None,
                                    phase: CrossCopyPhase::DirectCopying { started: false },
                                    phase_deadline: (now + DIRECT_ATTEMPT_TIMEOUT) as u64,
                                    ..job
                                },
                            )
                        }
                    },
                }
            },
        },
    }
}

/// The direct attempt of the copy at `idx` ended: the key is revoked, whatever came of it.
pub open spec fn direct_finished(
    w: World,
    idx: int,
    result: Result<(), Seq<char>>,
    now: u64,
) -> World {
    let job = w.jobs[idx];
    untrusted(
        with_job(
            w,
            idx,
            JobView {
                direct_result: Some(result),
                phase: CrossCopyPhase::UntrustingAfterDirect,
                phase_deadline: (now + UNTRUST_WAIT) as u64,
                ..job
            },
        ),
        job.dest_uid,
        job.op_id,
        job.marker,
    )
}

/// The revocation is done or was waited for long enough: a direct copy that succeeded is reported,
/// one that failed goes on through this machine where there is time.
pub open spec fn after_untrust(w: World, idx: int, allow_relay: bool) -> World {
    let job = w.jobs[idx];
    let taken = with_job(w, idx, JobView { direct_result: None, ..job });
    match job.direct_result {
        Some(Ok(())) => resolved(taken, idx, Ok(()), "direct"@),
        Some(Err(e)) => if allow_relay {
            relayed(taken, idx)
        } else {
            failed(taken, idx, NO_TIME_1@ + e + NO_TIME_2@)
        },
        None => failed(taken, idx, RESULT_LOST@),
    }
}

fn residue_log(dest_uid: u64, marker: &str, reason: &str) -> (r: String)
    ensures
        r@ == residue_line(dest_uid, marker@, reason@),
{
    let mut line = "copy_between_sessions 临时公钥可能残留（目标 uid ".to_owned();
    push_decimal(&mut line, dest_uid);
    line.append("，标记 ");
    line.append(marker);
    line.append("）：");
    line.append(reason);
    line
}

fn residue_message(lang: Lang, marker: &str, reason: &str) -> (r: String)
    ensures
        r@ == residue_text(lang, marker@, reason@),
{
    match lang {
        Lang::Zh => {
            let mut t = "⚠ 临时公钥可能残留在目标机上（".to_owned();
            t.append(reason);
            t.append("）。请删除对应主机 ~/.ssh/authorized_keys 里含 ");
            t.append(marker);
            t.append(" 的那一行。");
            t
        },
        Lang::En => {
            let mut t = "⚠ The temporary key may remain on the destination host (".to_owned();
            t.append(reason);
            t.append("). Remove the line containing ");
            t.append(marker);
            t.append(" from ~/.ssh/authorized_keys there.");
            t
        },
    }
}

proof fn lemma_sides_update(a: Seq<Session>, b: Seq<Session>, i: int)
    requires
        0 <= i < a.len(),
        b.len() == a.len(),
        forall|j: int| 0 <= j < a.len() && j != i ==> #[trigger] b[j] == a[j],
    ensures
        sides_of(b) == sides_of(a).update(i, side(b[i])),
{
    assert(sides_of(b) =~= sides_of(a).update(i, side(b[i])));
}

proof fn lemma_frame_trans(a: App, b: App, c: App)
    requires
        frame(a, b),
        frame(b, c),
    ensures
        frame(a, c),
{
    assert forall|i: int| 0 <= i < a.sessions@.len() implies #[trigger] c.sessions@[i] == (Session {
        link: c.sessions@[i].link,
        status: c.sessions@[i].status,
        pending_file_ops: c.sessions@[i].pending_file_ops,
        ..a.sessions@[i]
    }) by {
        assert(b.sessions@[i].uid == a.sessions@[i].uid);
    }
}

proof fn lemma_jobs_update(a: Seq<CrossCopyJob>, b: Seq<CrossCopyJob>, i: int)
    requires
        0 <= i < a.len(),
        b.len() == a.len(),
        forall|j: int| 0 <= j < a.len() && j != i ==> #[trigger] b[j] == a[j],
    ensures
        jobs_of(b) == jobs_of(a).update(i, b[i]@),
{
    assert(jobs_of(b) =~= jobs_of(a).update(i, b[i]@));
}

impl App {
    fn send_to(&mut self, i: usize, cmd: UiCommand, Ghost(out): Ghost<Outbox>) -> (ok: bool)
        requires
            i < old(self).sessions@.len(),
        ensures
            ok == (old(self).sessions@[i as int].link.takes > 0),
            world(*final(self), out) == sent(world(*old(self), out), i as int, cmd@),
            frame(*old(self), *final(self)),
            final(self).cross_copy_jobs == old(self).cross_copy_jobs,
    {
        let ok = self.sessions[i].link.send(cmd);
        proof {
            lemma_sides_update(old(self).sessions@, self.sessions@, i as int);
            let w = world(*old(self), out);
            let v = world(*self, out);
            if ok {
                assert(side(self.sessions@[i as int]) == (Side {
                    log: w.sides[i as int].log.push(cmd@),
                    takes: (w.sides[i as int].takes - 1) as u64,
                    ..w.sides[i as int]
                }));
            } else {
                assert(v.sides =~= w.sides);
            }
            assert(v =~= sent(w, i as int, cmd@));
        }
        ok
    }

    fn find_job(&self, op_id: u64) -> (r: Option<usize>)
        ensures
            match r {
                Some(i) => job_pos(jobs_of(self.cross_copy_jobs@), op_id) == Some(i as int) && i
                    < self.cross_copy_jobs@.len(),
                None => job_pos(jobs_of(self.cross_copy_jobs@), op_id) is None,
            },
    {
        let ghost js = jobs_of(self.cross_copy_jobs@);
        proof {
            lemma_job_pos(js, op_id);
        }
        let mut i: usize = 0;
        while i < self.cross_copy_jobs.len()
            invariant
                js == jobs_of(self.cross_copy_jobs@),
                i <= js.len(),
                forall|j: int| 0 <= j < i ==> (#[trigger] js[j]).op_id != op_id,
                match job_pos(js, op_id) {
                    Some(k) => 0 <= k < js.len() && js[k].op_id == op_id && forall|j: int|
                        0 <= j < k ==> (#[trigger] js[j]).op_id != op_id,
                    None => forall|j: int| 0 <= j < js.len() ==> (#[trigger] js[j]).op_id != op_id,
                },
            decreases js.len() - i,
        {
            assert(js[i as int].op_id == self.cross_copy_jobs@[i as int].op_id);
            if self.cross_copy_jobs[i].op_id == op_id {
                return Some(i);
            }
            i = i + 1;
        }
        None
    }

    fn set_status(&mut self, i: usize, text: String)
        requires
            i < old(self).sessions@.len(),
        ensures
            sides_of(final(self).sessions@) == sides_of(old(self).sessions@).update(
                i as int,
                Side { status: text@, ..side(old(self).sessions@[i as int]) },
            ),
            frame(*old(self), *final(self)),
            *final(self) == (App { sessions: final(self).sessions, ..*old(self) }),
    {
        self.sessions[i].status = text;
        proof {
            lemma_sides_update(old(self).sessions@, self.sessions@, i as int);
        }
    }

    fn drop_op(&mut self, i: usize, op_id: u64)
        requires
            i < old(self).sessions@.len(),
        ensures
            sides_of(final(self).sessions@) == sides_of(old(self).sessions@).update(
                i as int,
                Side {
                    ops: without_copy(old(self).sessions@[i as int].pending_file_ops@, op_id),
                    ..side(old(self).sessions@[i as int])
                },
            ),
            frame(*old(self), *final(self)),
            *final(self) == (App { sessions: final(self).sessions, ..*old(self) }),
    {
        drop_copy(&mut self.sessions[i].pending_file_ops, op_id);
        proof {
            lemma_sides_update(old(self).sessions@, self.sessions@, i as int);
        }
    }

    /// Warns that a key may be left behind.
    pub fn warn_temp_key_residue(
        &mut self,
        out: &mut Outbox,
        dest_uid: u64,
        marker: &str,
        reason: &str,
    )
        ensures
            world(*final(self), *final(out)) == warned(
                world(*old(self), *old(out)),
                dest_uid,
                marker@,
                reason@,
            ),
            frame(*old(self), *final(self)),
            final(self).cross_copy_jobs == old(self).cross_copy_jobs,
    {
        let ghost w = world(*self, *out);
        let line = residue_log(dest_uid, marker, reason);
        let ghost entry = line@;
        out.log.push(line);
        assert(views(out.log@) =~= w.lines.push(entry));
        let text = residue_message(self.lang, marker, reason);
        proof {
            lemma_side_pos(self.sessions@, dest_uid);
        }
        match self.session_idx_by_uid(dest_uid) {
            Some(i) => {
                self.set_status(i, text.clone());
                if !self.sessions[i].connected {
                    self.toast = Some(text);
                }
                assert(world(*self, *out) =~= warned(w, dest_uid, marker@, reason@));
            },
            None => {
                self.toast = Some(text);
                assert(world(*self, *out) =~= warned(w, dest_uid, marker@, reason@));
            },
        }
    }

    /// Revokes a key, or warns that it may be left behind.
    pub fn best_effort_untrust(&mut self, out: &mut Outbox, dest_uid: u64, op_id: u64, marker: &str)
        ensures
            world(*final(self), *final(out)) == untrusted(
                world(*old(self), *old(out)),
                dest_uid,
                op_id,
                marker@,
            ),
            frame(*old(self), *final(self)),
            final(self).cross_copy_jobs == old(self).cross_copy_jobs,
    {
        proof {
            lemma_side_pos(self.sessions@, dest_uid);
        }
        let dest = self.session_idx_by_uid(dest_uid);
        let connected: Option<bool> = match dest {
            Some(i) => Some(self.sessions[i].connected),
            None => None,
        };
        match untrust_route(connected) {
            Err(reason) => {
                self.warn_temp_key_residue(out, dest_uid, marker, reason);
            },
            Ok(()) => match dest {
                Some(i) => {
                    if self.sessions[i].link.takes == 0 {
                        self.warn_temp_key_residue(out, dest_uid, marker, UNTRUST_NOT_SENT);
                    } else {
                        let _ = self.send_to(
                            i,
                            UiCommand::UntrustTempKey { op_id, marker: marker.to_owned() },
                            Ghost(*out),
                        );
                    }
                },
                None => {},
            },
        }
    }

    fn release(&mut self, uid: u64, op_id: u64, cancel: bool, Ghost(out): Ghost<Outbox>)
        ensures
            world(*final(self), out) == released(world(*old(self), out), uid, op_id, cancel),
            frame(*old(self), *final(self)),
            final(self).cross_copy_jobs == old(self).cross_copy_jobs,
    {
        proof {
            lemma_side_pos(self.sessions@, uid);
        }
        match self.session_idx_by_uid(uid) {
            Some(i) => {
                if cancel {
                    let _ = self.send_to(i, UiCommand::CancelTransfer(op_id), Ghost(out));
                }
                let ghost told = *self;
                self.drop_op(i, op_id);
                proof {
                    lemma_frame_trans(*old(self), told, *self);
                    assert(world(*self, out) =~= released(
                        world(*old(self), out),
                        uid,
                        op_id,
                        cancel,
                    ));
                }
            },
            None => {},
        }
    }

    /// Ends the copy at `idx`.
    pub fn resolve_cross_copy_job(
        &mut self,
        out: &mut Outbox,
        idx: usize,
        result: Result<(), String>,
        method: &str,
    )
        requires
            idx < old(self).cross_copy_jobs@.len(),
        ensures
            world(*final(self), *final(out)) == resolved(
                world(*old(self), *old(out)),
                idx as int,
                res_view(result),
                method@,
            ),
            frame(*old(self), *final(self)),
    {
        let ghost w = world(*self, *out);
        let ghost res = res_view(result);
        let job = self.cross_copy_jobs.remove(idx);
        assert(jobs_of(self.cross_copy_jobs@) =~= w.jobs.remove(idx as int));
        let cancel: bool = result.is_err();
        let ghost a = *self;
        let ghost gone = World { jobs: w.jobs.remove(idx as int), ..w };
        assert(world(a, *out) =~= gone);
        self.release(job.src_uid, job.op_id, cancel, Ghost(*out));
        let ghost b = *self;
        self.release(job.dest_uid, job.op_id, cancel, Ghost(*out));
        proof {
            assert(frame(*old(self), a));
            lemma_frame_trans(*old(self), a, b);
            lemma_frame_trans(*old(self), b, *self);
        }
        let ghost freed = world(*self, *out);
        match job.waiter {
            Some(wt) => {
                let answered = match result {
                    Ok(()) => Ok(
                        ReqResult::CopiedBetweenSessions {
                            path: job.dest_remote_path,
                            method: method.to_owned(),
                        },
                    ),
                    Err(e) => Err(e),
                };
                let reply = Reply { chan: wt.chan, id: job.req_id, result: answered };
                let ghost told = reply@;
                out.replies.push(reply);
                assert(reply_views(out.replies@) =~= freed.replies.push(told));
                assert(world(*self, *out) =~= resolved(w, idx as int, res, method@));
            },
            None => {},
        }
    }

    fn fail_cross_copy_job(&mut self, out: &mut Outbox, idx: usize, msg: String)
        requires
            idx < old(self).cross_copy_jobs@.len(),
        ensures
            world(*final(self), *final(out)) == failed(
                world(*old(self), *old(out)),
                idx as int,
                msg@,
            ),
            frame(*old(self), *final(self)),
    {
        self.resolve_cross_copy_job(out, idx, Err(msg), "");
    }

    /// Goes on with the copy at `idx` through this machine.
    pub fn start_relay_fallback(&mut self, out: &mut Outbox, idx: usize)
        requires
            idx < old(self).cross_copy_jobs@.len(),
        ensures
            world(*final(self), *final(out)) == relayed(world(*old(self), *old(out)), idx as int),
            frame(*old(self), *final(self)),
    {
        let ghost w = world(*self, *out);
        if !self.cross_copy_jobs[idx].pipe_writer {
            self.fail_cross_copy_job(out, idx, PIPE_WRITER_LOST.to_owned());
            return;
        }
        self.cross_copy_jobs[idx].pipe_writer = false;
        let ghost a = *self;
        proof {
            lemma_jobs_update(old(self).cross_copy_jobs@, self.cross_copy_jobs@, idx as int);
            lemma_side_pos(self.sessions@, self.cross_copy_jobs@[idx as int].src_uid);
            assert(frame(*old(self), a));
            assert(world(a, *out) =~= with_job(
                w,
                idx as int,
                JobView { pipe_writer: false, ..w.jobs[idx as int] },
            ));
        }
        let src_uid: u64 = self.cross_copy_jobs[idx].src_uid;
        match self.session_idx_by_uid(src_uid) {
            None => {
                self.fail_cross_copy_job(out, idx, SRC_GONE.to_owned());
                proof {
                    lemma_frame_trans(*old(self), a, *self);
                }
            },
            Some(i) => {
                if self.sessions[i].link.takes == 0 {
                    self.fail_cross_copy_job(out, idx, SRC_SEND_FAILED.to_owned());
                    proof {
                        lemma_frame_trans(*old(self), a, *self);
                    }
                    return;
                }
                let cmd = UiCommand::RelayReadFile {
                    id: self.cross_copy_jobs[idx].op_id,
                    remote_path: self.cross_copy_jobs[idx].src_remote_path.clone(),
                };
                let _ = self.send_to(i, cmd, Ghost(*out));
                let ghost b = *self;
                self.cross_copy_jobs[idx].phase = CrossCopyPhase::RelayReading;
                proof {
                    lemma_jobs_update(b.cross_copy_jobs@, self.cross_copy_jobs@, idx as int);
                    lemma_frame_trans(*old(self), a, b);
                    assert(frame(b, *self));
                    lemma_frame_trans(*old(self), b, *self);
                    assert(world(*self, *out).jobs =~= relayed(w, idx as int).jobs);
                    assert(world(*self, *out) =~= relayed(w, idx as int));
                }
            },
        }
    }

    fn untrust_then_relay_fallback(&mut self, out: &mut Outbox, idx: usize)
        requires
            idx < old(self).cross_copy_jobs@.len(),
        ensures
            world(*final(self), *final(out)) == untrusted_then_relayed(
                world(*old(self), *old(out)),
                idx as int,
            ),
            frame(*old(self), *final(self)),
    {
        let marker = self.cross_copy_jobs[idx].marker.clone();
        let op_id: u64 = self.cross_copy_jobs[idx].op_id;
        let dest_uid: u64 = self.cross_copy_jobs[idx].dest_uid;
        self.best_effort_untrust(out, dest_uid, op_id, marker.as_str());
        let ghost a = *self;
        self.start_relay_fallback(out, idx);
        proof {
            lemma_frame_trans(*old(self), a, *self);
        }
    }

    /// Attempts the copy at `idx`, whose key the target trusts, directly.
    pub fn start_direct_attempt(&mut self, out: &mut Outbox, idx: usize, now: u64)
        requires
            idx < old(self).cross_copy_jobs@.len(),
            now <= CLOCK_LIMIT_MS,
        ensures
            world(*final(self), *final(out)) == direct_started(
                world(*old(self), *old(out)),
                idx as int,
                now,
            ),
            frame(*old(self), *final(self)),
    {
        let ghost w = world(*self, *out);
        let src_uid: u64 = self.cross_copy_jobs[idx].src_uid;
        let dest_uid: u64 = self.cross_copy_jobs[idx].dest_uid;
        proof {
            lemma_side_pos(self.sessions@, src_uid);
            lemma_side_pos(self.sessions@, dest_uid);
        }
        let si: usize = match self.session_idx_by_uid(src_uid) {
            Some(i) => i,
            None => {
                self.untrust_then_relay_fallback(out, idx);
                return;
            },
        };
        let di: usize = match self.session_idx_by_uid(dest_uid) {
            Some(i) => i,
            None => {
                self.untrust_then_relay_fallback(out, idx);
                return;
            },
        };
        if !self.sessions[si].connected || self.cross_copy_jobs[idx].priv_key_pem.is_none() {
            self.untrust_then_relay_fallback(out, idx);
            return;
        }
        let key = match self.cross_copy_jobs[idx].priv_key_pem.take() {
            Some(k) => k,
            None => Vec::new(),
        };
        let ghost a = *self;
        proof {
            lemma_jobs_update(old(self).cross_copy_jobs@, self.cross_copy_jobs@, idx as int);
            assert(frame(*old(self), a));
            assert(world(a, *out) =~= with_job(
                w,
                idx as int,
                JobView { key: None, ..w.jobs[idx as int] },
            ));
        }
        if self.sessions[si].link.takes == 0 {
            self.untrust_then_relay_fallback(out, idx);
            proof {
                lemma_frame_trans(*old(self), a, *self);
            }
            return;
        }
        let cmd = UiCommand::DirectRelayCopy {
            op_id: self.cross_copy_jobs[idx].op_id,
            src_path: self.cross_copy_jobs[idx].src_remote_path.clone(),
            dest_user: self.sessions[di].cfg.username.clone(),
            dest_host: self.sessions[di].cfg.host.clone(),
            dest_port: self.sessions[di].cfg.port,
            dest_path: self.cross_copy_jobs[idx].dest_remote_path.clone(),
            priv_key_pem: key,
        };
        let _ = self.send_to(si, cmd, Ghost(*out));
        let ghost b = *self;
        self.cross_copy_jobs[idx].phase = CrossCopyPhase::DirectCopying { started: false };
        self.cross_copy_jobs[idx].phase_deadline = now + DIRECT_ATTEMPT_TIMEOUT;
        proof {
            lemma_jobs_update(b.cross_copy_jobs@, self.cross_copy_jobs@, idx as int);
            lemma_frame_trans(*old(self), a, b);
            assert(frame(b, *self));
            lemma_frame_trans(*old(self), b, *self);
            assert(world(*self, *out).jobs =~= direct_started(w, idx as int, now).jobs);
            assert(world(*self, *out) =~= direct_started(w, idx as int, now));
        }
    }

    /// Ends the direct attempt of the copy at `idx`.
    pub fn finish_direct_attempt(
        &mut self,
        out: &mut Outbox,
        idx: usize,
        result: Result<(), String>,
        now: u64,
    )
        requires
            idx < old(self).cross_copy_jobs@.len(),
            now <= CLOCK_LIMIT_MS,
        ensures
            world(*final(self), *final(out)) == direct_finished(
                world(*old(self), *old(out)),
                idx as int,
                res_view(result),
                now,
            ),
            frame(*old(self), *final(self)),
            final(self).cross_copy_jobs@.len() == old(self).cross_copy_jobs@.len(),
    {
        let ghost w = world(*self, *out);
        let ghost res = res_view(result);
        self.cross_copy_jobs[idx].direct_result = Some(result);
        self.cross_copy_jobs[idx].phase = CrossCopyPhase::UntrustingAfterDirect;
        self.cross_copy_jobs[idx].phase_deadline = now + UNTRUST_WAIT;
        let ghost a = *self;
        proof {
            lemma_jobs_update(old(self).cross_copy_jobs@, self.cross_copy_jobs@, idx as int);
            assert(frame(*old(self), a));
            assert(world(a, *out) =~= with_job(
                w,
                idx as int,
                JobView {
                    direct_result: Some(res),
                    phase: CrossCopyPhase::UntrustingAfterDirect,
                    phase_deadline: (now + UNTRUST_WAIT) as u64,
                    ..w.jobs[idx as int]
                },
            ));
        }
        let marker = self.cross_copy_jobs[idx].marker.clone();
        let op_id: u64 = self.cross_copy_jobs[idx].op_id;
        let dest_uid: u64 = self.cross_copy_jobs[idx].dest_uid;
        self.best_effort_untrust(out, dest_uid, op_id, marker.as_str());
        proof {
            lemma_frame_trans(*old(self), a, *self);
        }
    }

    /// Goes on after the revocation of the key of the copy at `idx`.
    pub fn finish_after_untrust(&mut self, out: &mut Outbox, idx: usize, allow_relay: bool)
        requires
            idx < old(self).cross_copy_jobs@.len(),
        ensures
            world(*final(self), *final(out)) == after_untrust(
                world(*old(self), *old(out)),
                idx as int,
                allow_relay,
            ),
            frame(*old(self), *final(self)),
    {
        let ghost w = world(*self, *out);
        let result = self.cross_copy_jobs[idx].direct_result.take();
        let ghost a = *self;
        proof {
            lemma_jobs_update(old(self).cross_copy_jobs@, self.cross_copy_jobs@, idx as int);
            assert(frame(*old(self), a));
            assert(world(a, *out) =~= with_job(
                w,
                idx as int,
                JobView { direct_result: None, ..w.jobs[idx as int] },
            ));
        }
        match result {
            Some(r) => match r {
                Ok(()) => {
                    self.resolve_cross_copy_job(out, idx, Ok(()), "direct");
                },
                Err(e) => {
                    if allow_relay {
                        self.start_relay_fallback(out, idx);
                    } else {
                        let mut msg = NO_TIME_1.to_owned();
                        msg.append(e.as_str());
                        msg.append(NO_TIME_2);
                        self.fail_cross_copy_job(out, idx, msg);
                    }
                },
            },
            None => {
                self.fail_cross_copy_job(out, idx, RESULT_LOST.to_owned());
            },
        }
        proof {
            lemma_frame_trans(*old(self), a, *self);
        }
    }
}

/// Whether the key of a copy may be in use on its target: it was sent there, and neither refused
/// nor confirmed revoked.
pub open spec fn maybe_trusted(job: JobView) -> bool {
    job.trusted || job.phase == CrossCopyPhase::TrustingB
}

/// The target says whether it trusts the key.
pub open spec fn on_trusted(w: World, op_id: u64, ok: bool, now: u64) -> World {
    match job_pos(w.jobs, op_id) {
        None => w,
        Some(i) => if w.jobs[i].phase != CrossCopyPhase::TrustingB {
            w
        } else if !ok {
            relayed(w, i)
        } else {
            direct_started(with_job(w, i, JobView { trusted: true, ..w.jobs[i] }), i, now)
        },
    }
}

/// The source says that a direct copy moves data.
pub open spec fn on_started(w: World, op_id: u64) -> World {
    match job_pos(w.jobs, op_id) {
        None => w,
        Some(i) => if w.jobs[i].phase is DirectCopying {
            with_job(
                w,
                i,
                JobView { phase: CrossCopyPhase::DirectCopying { started: true }, ..w.jobs[i] },
            )
        } else {
            w
        },
    }
}

/// The source says how a direct copy ended.
pub open spec fn on_direct_done(w: World, op_id: u64, ok: bool, msg: Seq<char>, now: u64) -> World {
    match job_pos(w.jobs, op_id) {
        None => w,
        Some(i) => if w.jobs[i].phase is DirectCopying {
            direct_finished(
                w,
                i,
                if ok {
                    Ok(())
                } else {
                    Err(msg)
                },
                now,
            )
        } else {
            w
        },
    }
}

/// Why the user is told to look after a key that the target did not revoke.
pub open spec fn untrust_failure(msg: Seq<char>) -> Seq<char> {
    "撤销失败（"@ + msg + "）"@
}

/// The target says whether it revoked the key.
pub open spec fn on_untrusted(w: World, op_id: u64, ok: bool, msg: Seq<char>) -> World {
    match job_pos(w.jobs, op_id) {
        None => w,
        Some(i) => {
            let job = w.jobs[i];
            let told = if ok {
                with_job(w, i, JobView { trusted: false, ..job })
            } else {
                warned(w, job.dest_uid, job.marker, untrust_failure(msg))
            };
            if job.phase == CrossCopyPhase::UntrustingAfterDirect {
                after_untrust(told, i, true)
            } else {
                told
            }
        },
    }
}

/// The source says how large the file is that it reads, or why it cannot.
pub open spec fn on_relay_source(w: World, op_id: u64, result: Result<u64, String>) -> World {
    match job_pos(w.jobs, op_id) {
        None => w,
        Some(i) => if w.jobs[i].phase != CrossCopyPhase::RelayReading {
            w
        } else {
            let job = w.jobs[i];
            match result {
                Err(msg) => failed(w, i, msg@),
                Ok(size) => if !job.pipe_reader {
                    failed(w, i, PIPE_READER_LOST@)
                } else {
                    let used = with_job(w, i, JobView { pipe_reader: false, ..job });
                    match side_pos(w.sides, job.dest_uid) {
                        None => failed(used, i, DEST_GONE@),
                        Some(d) => if !w.sides[d].connected {
                            failed(used, i, DEST_DOWN@)
                        } else if w.sides[d].takes == 0 {
                            failed(used, i, DEST_SEND_FAILED@)
                        } else {
                            with_job(
                                sent(
                                    used,
                                    d,
                                    CommandView::RelayWriteFile {
                                        id: op_id,
                                        remote_path: job.dest_path,
                                        size,
                                    },
                                ),
                                i,
                                JobView {
                                    pipe_reader: false,
                                    phase: CrossCopyPhase::RelayWriting,
                                    ..job
                                },
                            )
                        },
                    }
                },
            }
        },
    }
}

/// A session says how its half of a copy ended: only the half of the target ends the whole.
pub open spec fn on_copy_done(w: World, uid: u64, op_id: u64, ok: bool, msg: Seq<char>) -> World {
    match job_pos(w.jobs, op_id) {
        None => w,
        Some(i) => if uid != w.jobs[i].dest_uid || w.jobs[i].phase != CrossCopyPhase::RelayWriting {
            w
        } else if ok {
            resolved(w, i, Ok(()), "relay"@)
        } else {
            failed(w, i, msg)
        },
    }
}

/// Why a copy cannot go on with one of its sessions.
pub open spec fn side_trouble(w: World, role: Seq<char>, uid: u64) -> Option<Seq<char>> {
    match side_pos(w.sides, uid) {
        None => Some(
            role + "会话已不存在（uid="@ + decimal(uid as nat) + "），跨会话拷贝中止"@,
        ),
        Some(i) => if !w.sides[i].connected {
            Some(
                role + "会话已断线（uid="@ + decimal(uid as nat)
                    + "），跨会话拷贝中止——重连后请重试"@,
            )
        } else {
            None
        },
    }
}

/// Why a copy cannot go on with its sessions.
pub open spec fn trouble(w: World, job: JobView) -> Option<Seq<char>> {
    match side_trouble(w, "源"@, job.src_uid) {
        Some(m) => Some(m),
        None => side_trouble(w, "目标"@, job.dest_uid),
    }
}

/// The copy at `idx` is told to stop where it is under way directly.
pub open spec fn stopped(w: World, idx: int) -> World {
    if w.jobs[idx].phase is DirectCopying {
        World { cancelled: w.cancelled.push(w.jobs[idx].op_id), ..w }
    } else {
        w
    }
}

/// The copy at `idx` is given up: it is stopped, and its key is revoked where it may be in use.
pub open spec fn given_up(w: World, idx: int, msg: Seq<char>) -> World {
    let job = w.jobs[idx];
    let a = stopped(w, idx);
    let b = if maybe_trusted(job) {
        untrusted(a, job.dest_uid, job.op_id, job.marker)
    } else {
        a
    };
    failed(b, idx, msg)
}

/// The copy at `idx` as its sessions are: one that lost a session is given up; one that waits for a
/// revocation which cannot come any more warns.
pub open spec fn checked_sides(w: World, idx: int) -> World {
    let job = w.jobs[idx];
    if job.phase == CrossCopyPhase::UntrustingAfterDirect {
        let connected = match side_pos(w.sides, job.dest_uid) {
            Some(i) => Some(w.sides[i].connected),
            None => None,
        };
        if job.trusted && route_refusal(connected) is Some {
            with_job(
                warned(w, job.dest_uid, job.marker, RECEIPT_MISSING@),
                idx,
                JobView { trusted: false, ..job },
            )
        } else {
            w
        }
    } else {
        match trouble(w, job) {
            Some(msg) => given_up(w, idx, msg),
            None => w,
        }
    }
}

/// The copy at `idx` as the clock is.
pub open spec fn checked_clock(w: World, idx: int, now: u64) -> World {
    let job = w.jobs[idx];
    if now >= job.deadline {
        if job.phase == CrossCopyPhase::UntrustingAfterDirect {
            after_untrust(w, idx, false)
        } else {
            given_up(w, idx, COPY_TIMED_OUT@)
        }
    } else if job.phase == (CrossCopyPhase::DirectCopying { started: false }) && now
        >= job.phase_deadline {
        direct_finished(stopped(w, idx), idx, Err(DIRECT_TIMED_OUT@), now)
    } else if job.phase == CrossCopyPhase::UntrustingAfterDirect && now >= job.phase_deadline {
        after_untrust(w, idx, true)
    } else {
        w
    }
}

/// The first `n` copies as their sessions are, the last one first.
pub open spec fn all_sides_checked(w: World, n: int) -> World
    decreases n,
{
    if n <= 0 {
        w
    } else {
        all_sides_checked(checked_sides(w, n - 1), n - 1)
    }
}

/// The first `n` copies as the clock is, the last one first.
pub open spec fn all_clocks_checked(w: World, n: int, now: u64) -> World
    decreases n,
{
    if n <= 0 {
        w
    } else {
        all_clocks_checked(checked_clock(w, n - 1, now), n - 1, now)
    }
}

/// What the sessions reported in one frame.
pub struct CopyEvents {
    pub temp_key_trusted: Vec<(u64, bool, String)>,
    pub temp_key_untrusted: Vec<(u64, bool, String)>,
    pub direct_relay_started: Vec<u64>,
    pub direct_relay_done: Vec<(u64, bool, String)>,
    pub relay_source: Vec<(u64, Result<u64, String>)>,
    /// The session, the copy, whether it succeeded, and why not.
    pub copy_done: Vec<(u64, u64, bool, String)>,
}

pub open spec fn after_trusted(w: World, ev: Seq<(u64, bool, String)>, now: u64) -> World
    decreases ev.len(),
{
    if ev.len() == 0 {
        w
    } else {
        on_trusted(after_trusted(w, ev.drop_last(), now), ev.last().0, ev.last().1, now)
    }
}

pub open spec fn after_started(w: World, ev: Seq<u64>) -> World
    decreases ev.len(),
{
    if ev.len() == 0 {
        w
    } else {
        on_started(after_started(w, ev.drop_last()), ev.last())
    }
}

pub open spec fn after_direct_done(w: World, ev: Seq<(u64, bool, String)>, now: u64) -> World
    decreases ev.len(),
{
    if ev.len() == 0 {
        w
    } else {
        on_direct_done(
            after_direct_done(w, ev.drop_last(), now),
            ev.last().0,
            ev.last().1,
            ev.last().2@,
            now,
        )
    }
}

pub open spec fn after_untrusted(w: World, ev: Seq<(u64, bool, String)>) -> World
    decreases ev.len(),
{
    if ev.len() == 0 {
        w
    } else {
        on_untrusted(
            after_untrusted(w, ev.drop_last()),
            ev.last().0,
            ev.last().1,
            ev.last().2@,
        )
    }
}

pub open spec fn after_relay_source(w: World, ev: Seq<(u64, Result<u64, String>)>) -> World
    decreases ev.len(),
{
    if ev.len() == 0 {
        w
    } else {
        on_relay_source(after_relay_source(w, ev.drop_last()), ev.last().0, ev.last().1)
    }
}

pub open spec fn after_copy_done(w: World, ev: Seq<(u64, u64, bool, String)>) -> World
    decreases ev.len(),
{
    if ev.len() == 0 {
        w
    } else {
        on_copy_done(
            after_copy_done(w, ev.drop_last()),
            ev.last().0,
            ev.last().1,
            ev.last().2,
            ev.last().3@,
        )
    }
}

/// What the reports of one frame make of the copies.
pub open spec fn after_events(w: World, ev: CopyEvents, now: u64) -> World {
    after_copy_done(
        after_relay_source(
            after_untrusted(
                after_direct_done(
                    after_started(
                        after_trusted(w, ev.temp_key_trusted@, now),
                        ev.direct_relay_started@,
                    ),
                    ev.direct_relay_done@,
                    now,
                ),
                ev.temp_key_untrusted@,
            ),
            ev.relay_source@,
        ),
        ev.copy_done@,
    )
}

/// What one frame makes of the copies: the reports come first, so that a copy that succeeded is not
/// given up for a session that was lost in the same frame.
pub open spec fn advanced(w: World, ev: CopyEvents, now: u64) -> World {
    let reported = after_events(w, ev, now);
    let present = all_sides_checked(reported, reported.jobs.len() as int);
    all_clocks_checked(present, present.jobs.len() as int, now)
}

/// The keys that may be in use when the program ends are revoked as far as possible.
pub open spec fn keys_revoked(w: World, jobs: Seq<JobView>) -> World
    decreases jobs.len(),
{
    if jobs.len() == 0 {
        w
    } else {
        let v = keys_revoked(w, jobs.drop_last());
        let job = jobs.last();
        if !maybe_trusted(job) {
            v
        } else {
            let logged = World {
                lines: v.lines.push(exit_line(job.dest_uid, job.marker)),
                ..v
            };
            match side_pos(logged.sides, job.dest_uid) {
                Some(i) => sent(
                    logged,
                    i,
                    CommandView::UntrustTempKey { op_id: job.op_id, marker: job.marker },
                ),
                None => logged,
            }
        }
    }
}

/// What the log says of a key that is revoked when the program ends.
pub open spec fn exit_line(dest_uid: u64, marker: Seq<char>) -> Seq<char> {
    "退出时补发临时公钥撤销（尽力而为，可能来不及生效；目标 uid "@ + decimal(dest_uid as nat)
        + "，标记 "@ + marker + "）"@
}

fn exit_log(dest_uid: u64, marker: &str) -> (r: String)
    ensures
        r@ == exit_line(dest_uid, marker@),
{
    let mut line = "退出时补发临时公钥撤销（尽力而为，可能来不及生效；目标 uid ".to_owned();
    push_decimal(&mut line, dest_uid);
    line.append("，标记 ");
    line.append(marker);
    line.append("）");
    line
}

impl App {
    fn job_trusted(&mut self, out: &mut Outbox, op_id: u64, ok: bool, now: u64)
        requires
            now <= CLOCK_LIMIT_MS,
        ensures
            world(*final(self), *final(out)) == on_trusted(
                world(*old(self), *old(out)),
                op_id,
                ok,
                now,
            ),
            frame(*old(self), *final(self)),
    {
        let ghost w = world(*self, *out);
        match self.find_job(op_id) {
            None => {},
            Some(i) => {
                if self.cross_copy_jobs[i].phase != CrossCopyPhase::TrustingB {
                    return;
                }
                if !ok {
                    self.start_relay_fallback(out, i);
                    return;
                }
                self.cross_copy_jobs[i].trust_established = true;
                let ghost a = *self;
                proof {
                    lemma_jobs_update(old(self).cross_copy_jobs@, self.cross_copy_jobs@, i as int);
                    assert(frame(*old(self), a));
                    assert(world(a, *out) =~= with_job(
                        w,
                        i as int,
                        JobView { trusted: true, ..w.jobs[i as int] },
                    ));
                }
                self.start_direct_attempt(out, i, now);
                proof {
                    lemma_frame_trans(*old(self), a, *self);
                }
            },
        }
    }

    fn job_started(&mut self, op_id: u64, Ghost(out): Ghost<Outbox>)
        ensures
            world(*final(self), out) == on_started(world(*old(self), out), op_id),
            frame(*old(self), *final(self)),
    {
        match self.find_job(op_id) {
            None => {},
            Some(i) => {
                if let CrossCopyPhase::DirectCopying { .. } = self.cross_copy_jobs[i].phase {
                    self.cross_copy_jobs[i].phase = CrossCopyPhase::DirectCopying { started: true };
                    proof {
                        lemma_jobs_update(
                            old(self).cross_copy_jobs@,
                            self.cross_copy_jobs@,
                            i as int,
                        );
                        assert(world(*self, out) =~= on_started(world(*old(self), out), op_id));
                    }
                }
            },
        }
    }

    fn job_direct_done(&mut self, out: &mut Outbox, op_id: u64, ok: bool, msg: &str, now: u64)
        requires
            now <= CLOCK_LIMIT_MS,
        ensures
            world(*final(self), *final(out)) == on_direct_done(
                world(*old(self), *old(out)),
                op_id,
                ok,
                msg@,
                now,
            ),
            frame(*old(self), *final(self)),
    {
        match self.find_job(op_id) {
            None => {},
            Some(i) => {
                if let CrossCopyPhase::DirectCopying { .. } = self.cross_copy_jobs[i].phase {
                    let result: Result<(), String> = if ok {
                        Ok(())
                    } else {
                        Err(msg.to_owned())
                    };
                    self.finish_direct_attempt(out, i, result, now);
                }
            },
        }
    }

    fn job_untrusted(&mut self, out: &mut Outbox, op_id: u64, ok: bool, msg: &str)
        ensures
            world(*final(self), *final(out)) == on_untrusted(
                world(*old(self), *old(out)),
                op_id,
                ok,
                msg@,
            ),
            frame(*old(self), *final(self)),
    {
        let ghost w = world(*self, *out);
        match self.find_job(op_id) {
            None => {},
            Some(i) => {
                if ok {
                    self.cross_copy_jobs[i].trust_established = false;
                    proof {
                        lemma_jobs_update(
                            old(self).cross_copy_jobs@,
                            self.cross_copy_jobs@,
                            i as int,
                        );
                        assert(world(*self, *out) =~= with_job(
                            w,
                            i as int,
                            JobView { trusted: false, ..w.jobs[i as int] },
                        ));
                    }
                } else {
                    let mut reason = "撤销失败（".to_owned();
                    reason.append(msg);
                    reason.append("）");
                    let dest_uid: u64 = self.cross_copy_jobs[i].dest_uid;
                    let marker = self.cross_copy_jobs[i].marker.clone();
                    self.warn_temp_key_residue(out, dest_uid, marker.as_str(), reason.as_str());
                }
                let ghost a = *self;
                if self.cross_copy_jobs[i].phase == CrossCopyPhase::UntrustingAfterDirect {
                    self.finish_after_untrust(out, i, true);
                    proof {
                        lemma_frame_trans(*old(self), a, *self);
                    }
                }
            },
        }
    }

    fn job_relay_source(&mut self, out: &mut Outbox, op_id: u64, result: &Result<u64, String>)
        ensures
            world(*final(self), *final(out)) == on_relay_source(
                world(*old(self), *old(out)),
                op_id,
                *result,
            ),
            frame(*old(self), *final(self)),
    {
        let ghost w = world(*self, *out);
        let i: usize = match self.find_job(op_id) {
            None => {
                return;
            },
            Some(i) => i,
        };
        if self.cross_copy_jobs[i].phase != CrossCopyPhase::RelayReading {
            return;
        }
        let size: u64 = match result {
            Err(msg) => {
                self.fail_cross_copy_job(out, i, msg.clone());
                return;
            },
            Ok(size) => *size,
        };
        if !self.cross_copy_jobs[i].pipe_reader {
            self.fail_cross_copy_job(out, i, PIPE_READER_LOST.to_owned());
            return;
        }
        self.cross_copy_jobs[i].pipe_reader = false;
        let ghost a = *self;
        let dest_uid: u64 = self.cross_copy_jobs[i].dest_uid;
        proof {
            lemma_jobs_update(old(self).cross_copy_jobs@, self.cross_copy_jobs@, i as int);
            lemma_side_pos(self.sessions@, dest_uid);
            assert(frame(*old(self), a));
            assert(world(a, *out) =~= with_job(
                w,
                i as int,
                JobView { pipe_reader: false, ..w.jobs[i as int] },
            ));
        }
        let d: usize = match self.session_idx_by_uid(dest_uid) {
            None => {
                self.fail_cross_copy_job(out, i, DEST_GONE.to_owned());
                proof {
                    lemma_frame_trans(*old(self), a, *self);
                }
                return;
            },
            Some(d) => d,
        };
        if !self.sessions[d].connected {
            self.fail_cross_copy_job(out, i, DEST_DOWN.to_owned());
            proof {
                lemma_frame_trans(*old(self), a, *self);
            }
            return;
        }
        if self.sessions[d].link.takes == 0 {
            self.fail_cross_copy_job(out, i, DEST_SEND_FAILED.to_owned());
            proof {
                lemma_frame_trans(*old(self), a, *self);
            }
            return;
        }
        let cmd = UiCommand::RelayWriteFile {
            id: op_id,
            remote_path: self.cross_copy_jobs[i].dest_remote_path.clone(),
            size,
        };
        let _ = self.send_to(d, cmd, Ghost(*out));
        let ghost b = *self;
        self.cross_copy_jobs[i].phase = CrossCopyPhase::RelayWriting;
        proof {
            lemma_jobs_update(b.cross_copy_jobs@, self.cross_copy_jobs@, i as int);
            lemma_frame_trans(*old(self), a, b);
            assert(frame(b, *self));
            lemma_frame_trans(*old(self), b, *self);
            assert(world(*self, *out).jobs =~= on_relay_source(w, op_id, *result).jobs);
            assert(world(*self, *out) =~= on_relay_source(w, op_id, *result));
        }
    }

    fn job_copy_done(&mut self, out: &mut Outbox, uid: u64, op_id: u64, ok: bool, msg: &str)
        ensures
            world(*final(self), *final(out)) == on_copy_done(
                world(*old(self), *old(out)),
                uid,
                op_id,
                ok,
                msg@,
            ),
            frame(*old(self), *final(self)),
    {
        match self.find_job(op_id) {
            None => {},
            Some(i) => {
                if uid != self.cross_copy_jobs[i].dest_uid || self.cross_copy_jobs[i].phase
                    != CrossCopyPhase::RelayWriting {
                    return;
                }
                if ok {
                    self.resolve_cross_copy_job(out, i, Ok(()), "relay");
                } else {
                    self.fail_cross_copy_job(out, i, msg.to_owned());
                }
            },
        }
    }

    fn session_trouble(&self, role: &str, uid: u64, Ghost(out): Ghost<Outbox>) -> (r: Option<String>)
        ensures
            match r {
                Some(m) => side_trouble(world(*self, out), role@, uid) == Some(m@),
                None => side_trouble(world(*self, out), role@, uid) is None,
            },
    {
        proof {
            lemma_side_pos(self.sessions@, uid);
        }
        match self.session_idx_by_uid(uid) {
            None => {
                let mut m = role.to_owned();
                m.append("会话已不存在（uid=");
                push_decimal(&mut m, uid);
                m.append("），跨会话拷贝中止");
                Some(m)
            },
            Some(i) => if !self.sessions[i].connected {
                let mut m = role.to_owned();
                m.append("会话已断线（uid=");
                push_decimal(&mut m, uid);
                m.append("），跨会话拷贝中止——重连后请重试");
                Some(m)
            } else {
                None
            },
        }
    }

    fn stop_direct(&mut self, idx: usize, Ghost(out): Ghost<Outbox>)
        requires
            idx < old(self).cross_copy_jobs@.len(),
        ensures
            world(*final(self), out) == stopped(world(*old(self), out), idx as int),
            frame(*old(self), *final(self)),
            final(self).cross_copy_jobs == old(self).cross_copy_jobs,
    {
        if let CrossCopyPhase::DirectCopying { .. } = self.cross_copy_jobs[idx].phase {
            let op_id: u64 = self.cross_copy_jobs[idx].op_id;
            self.cancelled_ops.push(op_id);
            assert(world(*self, out) =~= stopped(world(*old(self), out), idx as int));
        }
    }

    fn give_up(&mut self, out: &mut Outbox, idx: usize, msg: String)
        requires
            idx < old(self).cross_copy_jobs@.len(),
        ensures
            world(*final(self), *final(out)) == given_up(
                world(*old(self), *old(out)),
                idx as int,
                msg@,
            ),
            frame(*old(self), *final(self)),
    {
        self.stop_direct(idx, Ghost(*out));
        let ghost a = *self;
        let phase = self.cross_copy_jobs[idx].phase;
        if self.cross_copy_jobs[idx].trust_established || phase == CrossCopyPhase::TrustingB {
            let marker = self.cross_copy_jobs[idx].marker.clone();
            let op_id: u64 = self.cross_copy_jobs[idx].op_id;
            let dest_uid: u64 = self.cross_copy_jobs[idx].dest_uid;
            self.best_effort_untrust(out, dest_uid, op_id, marker.as_str());
            proof {
                lemma_frame_trans(*old(self), a, *self);
            }
        }
        let ghost b = *self;
        self.fail_cross_copy_job(out, idx, msg);
        proof {
            lemma_frame_trans(*old(self), b, *self);
        }
    }

    fn check_sides(&mut self, out: &mut Outbox, idx: usize)
        requires
            idx < old(self).cross_copy_jobs@.len(),
        ensures
            world(*final(self), *final(out)) == checked_sides(
                world(*old(self), *old(out)),
                idx as int,
            ),
            frame(*old(self), *final(self)),
    {
        let ghost w = world(*self, *out);
        let src_uid: u64 = self.cross_copy_jobs[idx].src_uid;
        let dest_uid: u64 = self.cross_copy_jobs[idx].dest_uid;
        if self.cross_copy_jobs[idx].phase == CrossCopyPhase::UntrustingAfterDirect {
            proof {
                lemma_side_pos(self.sessions@, dest_uid);
            }
            let connected: Option<bool> = match self.session_idx_by_uid(dest_uid) {
                Some(i) => Some(self.sessions[i].connected),
                None => None,
            };
            if self.cross_copy_jobs[idx].trust_established && untrust_route(connected).is_err() {
                let marker = self.cross_copy_jobs[idx].marker.clone();
                self.warn_temp_key_residue(out, dest_uid, marker.as_str(), RECEIPT_MISSING);
                let ghost a = *self;
                self.cross_copy_jobs[idx].trust_established = false;
                proof {
                    lemma_jobs_update(a.cross_copy_jobs@, self.cross_copy_jobs@, idx as int);
                    assert(frame(a, *self));
                    lemma_frame_trans(*old(self), a, *self);
                    assert(world(*self, *out) =~= checked_sides(w, idx as int));
                }
            }
            return;
        }
        let dead: Option<String> = match self.session_trouble("源", src_uid, Ghost(*out)) {
            Some(m) => Some(m),
            None => self.session_trouble("目标", dest_uid, Ghost(*out)),
        };
        match dead {
            Some(msg) => {
                self.give_up(out, idx, msg);
            },
            None => {},
        }
    }

    fn check_clock(&mut self, out: &mut Outbox, idx: usize, now: u64)
        requires
            idx < old(self).cross_copy_jobs@.len(),
            now <= CLOCK_LIMIT_MS,
        ensures
            world(*final(self), *final(out)) == checked_clock(
                world(*old(self), *old(out)),
                idx as int,
                now,
            ),
            frame(*old(self), *final(self)),
    {
        let phase = self.cross_copy_jobs[idx].phase;
        if now >= self.cross_copy_jobs[idx].deadline {
            if phase == CrossCopyPhase::UntrustingAfterDirect {
                self.finish_after_untrust(out, idx, false);
            } else {
                self.give_up(out, idx, COPY_TIMED_OUT.to_owned());
            }
            return;
        }
        if now < self.cross_copy_jobs[idx].phase_deadline {
            return;
        }
        if phase == (CrossCopyPhase::DirectCopying { started: false }) {
            self.stop_direct(idx, Ghost(*out));
            let ghost a = *self;
            self.finish_direct_attempt(out, idx, Err(DIRECT_TIMED_OUT.to_owned()), now);
            proof {
                lemma_frame_trans(*old(self), a, *self);
            }
        } else if phase == CrossCopyPhase::UntrustingAfterDirect {
            self.finish_after_untrust(out, idx, true);
        }
    }
}

proof fn lemma_resolved_len(w: World, idx: int, result: Result<(), Seq<char>>, method: Seq<char>)
    requires
        0 <= idx < w.jobs.len(),
    ensures
        resolved(w, idx, result, method).jobs == w.jobs.remove(idx),
{
}

proof fn lemma_untrusted_jobs(w: World, dest_uid: u64, op_id: u64, marker: Seq<char>)
    ensures
        untrusted(w, dest_uid, op_id, marker).jobs == w.jobs,
{
}

proof fn lemma_relayed_len(w: World, idx: int)
    requires
        0 <= idx < w.jobs.len(),
    ensures
        relayed(w, idx).jobs.len() >= w.jobs.len() - 1,
{
    let job = w.jobs[idx];
    let used = with_job(w, idx, JobView { pipe_writer: false, ..job });
    lemma_resolved_len(w, idx, Err(PIPE_WRITER_LOST@), ""@);
    lemma_resolved_len(used, idx, Err(SRC_GONE@), ""@);
    lemma_resolved_len(used, idx, Err(SRC_SEND_FAILED@), ""@);
}

proof fn lemma_after_untrust_len(w: World, idx: int, allow_relay: bool)
    requires
        0 <= idx < w.jobs.len(),
    ensures
        after_untrust(w, idx, allow_relay).jobs.len() >= w.jobs.len() - 1,
{
    let taken = with_job(w, idx, JobView { direct_result: None, ..w.jobs[idx] });
    lemma_relayed_len(taken, idx);
}

proof fn lemma_given_up_len(w: World, idx: int, msg: Seq<char>)
    requires
        0 <= idx < w.jobs.len(),
    ensures
        given_up(w, idx, msg).jobs == w.jobs.remove(idx),
{
    let job = w.jobs[idx];
    let a = stopped(w, idx);
    lemma_untrusted_jobs(a, job.dest_uid, job.op_id, job.marker);
}

pub proof fn lemma_checked_sides_len(w: World, idx: int)
    requires
        0 <= idx < w.jobs.len(),
    ensures
        checked_sides(w, idx).jobs.len() >= w.jobs.len() - 1,
{
    match trouble(w, w.jobs[idx]) {
        Some(msg) => {
            lemma_given_up_len(w, idx, msg);
        },
        None => {},
    }
}

pub proof fn lemma_checked_clock_len(w: World, idx: int, now: u64)
    requires
        0 <= idx < w.jobs.len(),
    ensures
        checked_clock(w, idx, now).jobs.len() >= w.jobs.len() - 1,
{
    let job = w.jobs[idx];
    lemma_after_untrust_len(w, idx, false);
    lemma_after_untrust_len(w, idx, true);
    lemma_given_up_len(w, idx, COPY_TIMED_OUT@);
    let halted = stopped(w, idx);
    let done = with_job(
        halted,
        idx,
        JobView {
            direct_result: Some(Err(DIRECT_TIMED_OUT@)),
            phase: CrossCopyPhase::UntrustingAfterDirect,
            phase_deadline: (now + UNTRUST_WAIT) as u64,
            ..halted.jobs[idx]
        },
    );
    lemma_untrusted_jobs(done, job.dest_uid, job.op_id, job.marker);
}

impl App {
    fn take_trusted(&mut self, out: &mut Outbox, ev: &Vec<(u64, bool, String)>, now: u64)
        requires
            now <= CLOCK_LIMIT_MS,
        ensures
            world(*final(self), *final(out)) == after_trusted(world(*old(self), *old(out)), ev@, now),
            frame(*old(self), *final(self)),
    {
        let ghost w = world(*self, *out);
        let mut i: usize = 0;
        while i < ev.len()
            invariant
                i <= ev@.len(),
                now <= CLOCK_LIMIT_MS,
                frame(*old(self), *self),
                world(*self, *out) == after_trusted(w, ev@.take(i as int), now),
            decreases ev@.len() - i,
        {
            let ghost a = *self;
            assert(ev@.take(i + 1).drop_last() =~= ev@.take(i as int));
            self.job_trusted(out, ev[i].0, ev[i].1, now);
            proof {
                lemma_frame_trans(*old(self), a, *self);
            }
            i = i + 1;
        }
        assert(ev@.take(i as int) =~= ev@);
    }

    fn take_started(&mut self, out: &mut Outbox, ev: &Vec<u64>)
        ensures
            world(*final(self), *final(out)) == after_started(world(*old(self), *old(out)), ev@),
            frame(*old(self), *final(self)),
    {
        let ghost w = world(*self, *out);
        let mut i: usize = 0;
        while i < ev.len()
            invariant
                i <= ev@.len(),
                frame(*old(self), *self),
                world(*self, *out) == after_started(w, ev@.take(i as int)),
            decreases ev@.len() - i,
        {
            let ghost a = *self;
            assert(ev@.take(i + 1).drop_last() =~= ev@.take(i as int));
            self.job_started(ev[i], Ghost(*out));
            proof {
                lemma_frame_trans(*old(self), a, *self);
            }
            i = i + 1;
        }
        assert(ev@.take(i as int) =~= ev@);
    }

    fn take_direct_done(&mut self, out: &mut Outbox, ev: &Vec<(u64, bool, String)>, now: u64)
        requires
            now <= CLOCK_LIMIT_MS,
        ensures
            world(*final(self), *final(out)) == after_direct_done(world(*old(self), *old(out)), ev@, now),
            frame(*old(self), *final(self)),
    {
        let ghost w = world(*self, *out);
        let mut i: usize = 0;
        while i < ev.len()
            invariant
                i <= ev@.len(),
                now <= CLOCK_LIMIT_MS,
                frame(*old(self), *self),
                world(*self, *out) == after_direct_done(w, ev@.take(i as int), now),
            decreases ev@.len() - i,
        {
            let ghost a = *self;
            assert(ev@.take(i + 1).drop_last() =~= ev@.take(i as int));
            self.job_direct_done(out, ev[i].0, ev[i].1, ev[i].2.as_str(), now);
            proof {
                lemma_frame_trans(*old(self), a, *self);
            }
            i = i + 1;
        }
        assert(ev@.take(i as int) =~= ev@);
    }

    fn take_untrusted(&mut self, out: &mut Outbox, ev: &Vec<(u64, bool, String)>)
        ensures
            world(*final(self), *final(out)) == after_untrusted(world(*old(self), *old(out)), ev@),
            frame(*old(self), *final(self)),
    {
        let ghost w = world(*self, *out);
        let mut i: usize = 0;
        while i < ev.len()
            invariant
                i <= ev@.len(),
                frame(*old(self), *self),
                world(*self, *out) == after_untrusted(w, ev@.take(i as int)),
            decreases ev@.len() - i,
        {
            let ghost a = *self;
            assert(ev@.take(i + 1).drop_last() =~= ev@.take(i as int));
            self.job_untrusted(out, ev[i].0, ev[i].1, ev[i].2.as_str());
            proof {
                lemma_frame_trans(*old(self), a, *self);
            }
            i = i + 1;
        }
        assert(ev@.take(i as int) =~= ev@);
    }

    fn take_relay_source(&mut self, out: &mut Outbox, ev: &Vec<(u64, Result<u64, String>)>)
        ensures
            world(*final(self), *final(out)) == after_relay_source(world(*old(self), *old(out)), ev@),
            frame(*old(self), *final(self)),
    {
        let ghost w = world(*self, *out);
        let mut i: usize = 0;
        while i < ev.len()
            invariant
                i <= ev@.len(),
                frame(*old(self), *self),
                world(*self, *out) == after_relay_source(w, ev@.take(i as int)),
            decreases ev@.len() - i,
        {
            let ghost a = *self;
            assert(ev@.take(i + 1).drop_last() =~= ev@.take(i as int));
            self.job_relay_source(out, ev[i].0, &ev[i].1);
            proof {
                lemma_frame_trans(*old(self), a, *self);
            }
            i = i + 1;
        }
        assert(ev@.take(i as int) =~= ev@);
    }

    fn take_copy_done(&mut self, out: &mut Outbox, ev: &Vec<(u64, u64, bool, String)>)
        ensures
            world(*final(self), *final(out)) == after_copy_done(world(*old(self), *old(out)), ev@),
            frame(*old(self), *final(self)),
    {
        let ghost w = world(*self, *out);
        let mut i: usize = 0;
        while i < ev.len()
            invariant
                i <= ev@.len(),
                frame(*old(self), *self),
                world(*self, *out) == after_copy_done(w, ev@.take(i as int)),
            decreases ev@.len() - i,
        {
            let ghost a = *self;
            assert(ev@.take(i + 1).drop_last() =~= ev@.take(i as int));
            self.job_copy_done(out, ev[i].0, ev[i].1, ev[i].2, ev[i].3.as_str());
            proof {
                lemma_frame_trans(*old(self), a, *self);
            }
            i = i + 1;
        }
        assert(ev@.take(i as int) =~= ev@);
    }

    fn take_events(&mut self, out: &mut Outbox, ev: &CopyEvents, now: u64)
        requires
            now <= CLOCK_LIMIT_MS,
        ensures
            world(*final(self), *final(out)) == after_events(
                world(*old(self), *old(out)),
                *ev,
                now,
            ),
            frame(*old(self), *final(self)),
    {
        self.take_trusted(out, &ev.temp_key_trusted, now);
        let ghost a = *self;
        self.take_started(out, &ev.direct_relay_started);
        let ghost b = *self;
        self.take_direct_done(out, &ev.direct_relay_done, now);
        let ghost c = *self;
        self.take_untrusted(out, &ev.temp_key_untrusted);
        let ghost d = *self;
        self.take_relay_source(out, &ev.relay_source);
        let ghost e = *self;
        self.take_copy_done(out, &ev.copy_done);
        proof {
            lemma_frame_trans(*old(self), a, b);
            lemma_frame_trans(*old(self), b, c);
            lemma_frame_trans(*old(self), c, d);
            lemma_frame_trans(*old(self), d, e);
            lemma_frame_trans(*old(self), e, *self);
        }
    }

    /// Looks after the copies between sessions once per frame.
    pub fn advance_cross_copy_jobs(&mut self, out: &mut Outbox, ev: &CopyEvents, now: u64)
        requires
            now <= CLOCK_LIMIT_MS,
        ensures
            world(*final(self), *final(out)) == advanced(world(*old(self), *old(out)), *ev, now),
            frame(*old(self), *final(self)),
    {
        self.take_events(out, ev, now);
        let ghost reported = world(*self, *out);
        let mut n: usize = self.cross_copy_jobs.len();
        while n > 0
            invariant
                n <= self.cross_copy_jobs@.len(),
                frame(*old(self), *self),
                all_sides_checked(reported, reported.jobs.len() as int) == all_sides_checked(
                    world(*self, *out),
                    n as int,
                ),
            decreases n,
        {
            let ghost a = *self;
            proof {
                lemma_checked_sides_len(world(*self, *out), n - 1);
            }
            self.check_sides(out, n - 1);
            proof {
                lemma_frame_trans(*old(self), a, *self);
                assert(world(*self, *out).jobs.len() == self.cross_copy_jobs@.len());
            }
            n = n - 1;
        }
        let ghost present = world(*self, *out);
        let mut n: usize = self.cross_copy_jobs.len();
        while n > 0
            invariant
                n <= self.cross_copy_jobs@.len(),
                now <= CLOCK_LIMIT_MS,
                frame(*old(self), *self),
                all_clocks_checked(present, present.jobs.len() as int, now) == all_clocks_checked(
                    world(*self, *out),
                    n as int,
                    now,
                ),
            decreases n,
        {
            let ghost a = *self;
            proof {
                lemma_checked_clock_len(world(*self, *out), n - 1, now);
            }
            self.check_clock(out, n - 1, now);
            proof {
                lemma_frame_trans(*old(self), a, *self);
                assert(world(*self, *out).jobs.len() == self.cross_copy_jobs@.len());
            }
            n = n - 1;
        }
    }

    /// Revokes the keys that may be in use, as far as that is still possible, when the program ends.
    pub fn revoke_temp_keys_on_exit(&mut self, out: &mut Outbox)
        ensures
            world(*final(self), *final(out)) == keys_revoked(
                world(*old(self), *old(out)),
                jobs_of(old(self).cross_copy_jobs@),
            ),
            frame(*old(self), *final(self)),
            final(self).cross_copy_jobs == old(self).cross_copy_jobs,
    {
        let ghost w = world(*self, *out);
        let ghost jobs = jobs_of(self.cross_copy_jobs@);
        let mut i: usize = 0;
        while i < self.cross_copy_jobs.len()
            invariant
                i <= jobs.len(),
                jobs == jobs_of(self.cross_copy_jobs@),
                self.cross_copy_jobs == old(self).cross_copy_jobs,
                frame(*old(self), *self),
                world(*self, *out) == keys_revoked(w, jobs.take(i as int)),
            decreases jobs.len() - i,
        {
            assert(jobs.take(i + 1).drop_last() =~= jobs.take(i as int));
            assert(jobs.take(i + 1).last() == self.cross_copy_jobs@[i as int]@);
            let phase = self.cross_copy_jobs[i].phase;
            if self.cross_copy_jobs[i].trust_established || phase == CrossCopyPhase::TrustingB {
                let ghost v = world(*self, *out);
                let dest_uid: u64 = self.cross_copy_jobs[i].dest_uid;
                let op_id: u64 = self.cross_copy_jobs[i].op_id;
                let marker = self.cross_copy_jobs[i].marker.clone();
                let line = exit_log(dest_uid, marker.as_str());
                let ghost entry = line@;
                out.log.push(line);
                assert(views(out.log@) =~= v.lines.push(entry));
                assert(world(*self, *out) =~= World { lines: v.lines.push(entry), ..v });
                proof {
                    lemma_side_pos(self.sessions@, dest_uid);
                }
                match self.session_idx_by_uid(dest_uid) {
                    Some(d) => {
                        let ghost a = *self;
                        let _ = self.send_to(
                            d,
                            UiCommand::UntrustTempKey { op_id, marker },
                            Ghost(*out),
                        );
                        proof {
                            lemma_frame_trans(*old(self), a, *self);
                        }
                    },
                    None => {},
                }
            }
            i = i + 1;
        }
        assert(jobs.take(i as int) =~= jobs);
    }
}

} // verus!
