//! Requests that move files: writing and reading them, copying them to and from a server, and
//! starting a copy between two servers.
use vstd::prelude::*;
use vstd::string::*;

use crate::agent_calls::{not_found, only_session, refuse, refused, Moment};
use crate::agent_runs::NOT_CONNECTED;
use crate::app::{uid_pos, App};
use crate::cross_copy::{CrossCopyJob, CrossCopyPhase};
use crate::file_ops::{FileOpKind, PendingAiFileOp, MAX_CONCURRENT_FILE_OPS};
use crate::paths::{
    basename_of, local_path_refusal, parent_of, remote_basename, remote_parent, remote_path_refusal,
    validate_local_path, validate_remote_path,
};
use crate::proto::{CommandView, ConflictPolicy, Eol, UiCommand};
use crate::protocol::{Reply, Waiter};
use crate::runs::{clamp_timeout, clamped, CLOCK_LIMIT_MS};
use crate::session::Session;
use crate::text::{decimal, push_decimal};

verus! {

pub const TOO_MANY_OPS: &'static str = "该会话并发文件操作已达上限，请稍候重试";

pub const WRITE_NOT_SENT: &'static str = "会话的后台连接似乎已经断开，写入未发送，请稍后重试";

pub const READ_NOT_SENT: &'static str = "会话的后台连接似乎已经断开，读取未发送，请稍后重试";

pub const COPY_NOT_SENT: &'static str = "会话的后台连接似乎已经断开，复制未发送，请稍后重试";

pub const NO_UPLOAD: &'static str = "调用方上传请求缺少文件数据流";

pub const NO_SINK: &'static str = "调用方下载请求缺少响应通道";

pub const SAME_SESSION: &'static str = "源和目标不能是同一个会话；同会话内复制请用 run_command 执行 cp";

pub const SRC_NOT_CONNECTED: &'static str = "源会话尚未连接（可能在连接/认证中，或已断线），请稍后重试";

pub const SRC_TOO_MANY: &'static str = "源会话并发文件操作已达上限，请稍候重试";

pub const DEST_NOT_CONNECTED: &'static str = "目标会话尚未连接（可能在连接/认证中，或已断线），请稍后重试";

pub const DEST_TOO_MANY: &'static str = "目标会话并发文件操作已达上限，请稍候重试";

pub const NO_KEYPAIR: &'static str = "生成一次性密钥对失败：";

pub const DEST_NOT_SENT: &'static str = "目标会话的后台连接似乎已经断开，复制未发送，请稍后重试";

/// Why a session takes no file operation, `None` where it does.
pub open spec fn op_refusal(
    app: App,
    uid: u64,
    actor: Option<String>,
    disconnected: Seq<char>,
    too_many: Seq<char>,
) -> Option<Seq<char>> {
    match uid_pos(app.sessions@, uid) {
        None => Some(not_found(app.sessions@, uid, actor)),
        Some(i) => if !app.sessions@[i].connected {
            Some(disconnected)
        } else if app.sessions@[i].pending_file_ops@.len() >= MAX_CONCURRENT_FILE_OPS {
            Some(too_many)
        } else {
            None
        },
    }
}

/// The first reason of two.
pub open spec fn or_else(a: Option<Seq<char>>, b: Option<Seq<char>>) -> Option<Seq<char>> {
    if a is Some {
        a
    } else {
        b
    }
}

/// Why a worker does not get a command.
pub open spec fn send_refusal(app: App, uid: u64, msg: Seq<char>) -> Option<Seq<char>> {
    if app.sessions@[uid_pos(app.sessions@, uid)->0].link.is_open() {
        None
    } else {
        Some(msg)
    }
}

/// A session that an operation was added to.
pub open spec fn op_added(
    s: Session,
    t: Session,
    kind: FileOpKind,
    path: Seq<char>,
    waiter: Option<Waiter>,
    id: u64,
    deadline: int,
) -> bool {
    &&& t.pending_file_ops@.len() == s.pending_file_ops@.len() + 1
    &&& t.pending_file_ops@.drop_last() == s.pending_file_ops@
    &&& t.pending_file_ops@.last().kind == kind
    &&& t.pending_file_ops@.last().path@ == path
    &&& t.pending_file_ops@.last().waiter == waiter
    &&& t.pending_file_ops@.last().req_id == id
    &&& t.pending_file_ops@.last().deadline == deadline
}

/// What a request for a file operation does: it is refused, or its worker is told and the one who
/// asks waits.
pub open spec fn file_op_ok(
    before: App,
    after: App,
    replies: Seq<Reply>,
    chan: u64,
    id: u64,
    uid: u64,
    why_not: Option<Seq<char>>,
    cmd: CommandView,
    kind: FileOpKind,
    path: Seq<char>,
    waiter: Option<Waiter>,
    deadline: int,
) -> bool {
    match why_not {
        Some(msg) => refused(before, after, replies, chan, id, msg),
        None => {
            let i = uid_pos(before.sessions@, uid)->0;
            let s = before.sessions@[i];
            let t = after.sessions@[i];
            &&& only_session(before, after, i)
            &&& t.link.sends(s.link, cmd)
            &&& op_added(s, t, kind, path, waiter, id, deadline)
            &&& t == (Session { link: t.link, pending_file_ops: t.pending_file_ops, ..s })
            &&& replies.len() == 0
        },
    }
}

/// Why a file is not written.
pub open spec fn write_refusal(app: App, uid: u64, path: Seq<char>, actor: Option<String>) -> Option<
    Seq<char>,
> {
    or_else(
        remote_path_refusal(path),
        or_else(
            op_refusal(app, uid, actor, NOT_CONNECTED@, TOO_MANY_OPS@),
            send_refusal(app, uid, WRITE_NOT_SENT@),
        ),
    )
}

/// Why a file is not read.
pub open spec fn read_refusal(app: App, uid: u64, path: Seq<char>, actor: Option<String>) -> Option<
    Seq<char>,
> {
    or_else(
        remote_path_refusal(path),
        or_else(
            op_refusal(app, uid, actor, NOT_CONNECTED@, TOO_MANY_OPS@),
            send_refusal(app, uid, READ_NOT_SENT@),
        ),
    )
}

/// Why a file is not copied to a server.
pub open spec fn upload_refusal(
    app: App,
    uid: u64,
    local: Seq<char>,
    remote: Seq<char>,
    actor: Option<String>,
) -> Option<Seq<char>> {
    or_else(
        op_refusal(app, uid, actor, NOT_CONNECTED@, TOO_MANY_OPS@),
        or_else(
            local_path_refusal(local),
            or_else(remote_path_refusal(remote), send_refusal(app, uid, COPY_NOT_SENT@)),
        ),
    )
}

/// Why a file is not copied between a server and the one who asks.
pub open spec fn stream_refusal(
    app: App,
    uid: u64,
    remote: Seq<char>,
    has_stream: bool,
    no_stream: Seq<char>,
    actor: Option<String>,
) -> Option<Seq<char>> {
    if !has_stream {
        Some(no_stream)
    } else {
        or_else(
            op_refusal(app, uid, actor, NOT_CONNECTED@, TOO_MANY_OPS@),
            or_else(remote_path_refusal(remote), send_refusal(app, uid, COPY_NOT_SENT@)),
        )
    }
}

/// Why a file is not copied between two sessions, as far as can be told before a key is made.
pub open spec fn between_refusal(
    app: App,
    src_uid: u64,
    src_path: Seq<char>,
    dest_uid: u64,
    dest_path: Seq<char>,
    actor: Option<String>,
) -> Option<Seq<char>> {
    if src_uid == dest_uid {
        Some(SAME_SESSION@)
    } else {
        or_else(
            op_refusal(app, src_uid, actor, SRC_NOT_CONNECTED@, SRC_TOO_MANY@),
            or_else(
                op_refusal(app, dest_uid, actor, DEST_NOT_CONNECTED@, DEST_TOO_MANY@),
                or_else(remote_path_refusal(src_path), remote_path_refusal(dest_path)),
            ),
        )
    }
}

/// The comment of the one-time key of copy `op_id`.
pub open spec fn marker_of(op_id: u64, suffix: Seq<char>) -> Seq<char> {
    "ishell-ai-relay-"@ + decimal(op_id as nat) + "-"@ + suffix
}

/// Writes the comment of a one-time key.
pub fn relay_marker(op_id: u64, suffix: &str) -> (r: String)
    ensures
        r@ == marker_of(op_id, suffix@),
{
    let mut s = "ishell-ai-relay-".to_owned();
    push_decimal(&mut s, op_id);
    s.append("-");
    s.append(suffix);
    s
}

/// The job of a copy between two sessions that was just started.
pub open spec fn is_new_job(
    j: CrossCopyJob,
    chan: u64,
    id: u64,
    src_uid: u64,
    src_path: Seq<char>,
    dest_uid: u64,
    dest_path: Seq<char>,
    deadline: int,
    op_id: u64,
    marker: Seq<char>,
    pem: Seq<u8>,
) -> bool {
    &&& j.op_id == op_id
    &&& j.req_id == id
    &&& j.waiter == Some(Waiter { chan, closed: false })
    &&& j.src_uid == src_uid
    &&& j.dest_uid == dest_uid
    &&& j.src_remote_path@ == src_path
    &&& j.dest_remote_path@ == dest_path
    &&& j.pipe_writer && j.pipe_reader
    &&& j.marker@ == marker
    &&& !j.trust_established
    &&& j.priv_key_pem is Some && j.priv_key_pem->0@ == pem
    &&& j.direct_result is None
    &&& j.phase == CrossCopyPhase::TrustingB
    &&& j.deadline == deadline
    &&& j.phase_deadline == deadline
}

/// What starting a copy between two sessions does, once a key was made or failed to be: the target
/// is told to trust the key, and both sides hold a place for the copy.
pub open spec fn start_cross_copy_ok(
    before: App,
    after: App,
    replies: Seq<Reply>,
    chan: u64,
    id: u64,
    src_uid: u64,
    src_path: Seq<char>,
    dest_uid: u64,
    dest_path: Seq<char>,
    timeout_ms: u64,
    m: Moment,
    marker: Seq<char>,
    keys: Result<(Vec<u8>, String), String>,
) -> bool {
    let si = uid_pos(before.sessions@, src_uid)->0;
    let di = uid_pos(before.sessions@, dest_uid)->0;
    match keys {
        Err(e) => refused(before, after, replies, chan, id, NO_KEYPAIR@ + e@),
        Ok((pem, line)) => if !before.sessions@[di].link.is_open() {
            refused(before, after, replies, chan, id, DEST_NOT_SENT@)
        } else {
            let s = before.sessions@[si];
            let s2 = after.sessions@[si];
            let d = before.sessions@[di];
            let d2 = after.sessions@[di];
            let deadline = m.now + clamped(timeout_ms);
            let kind = FileOpKind::Copy { op_id: m.nonce };
            &&& replies.len() == 0
            &&& after.sessions@ == before.sessions@.update(si, s2).update(di, d2)
            &&& op_added(s, s2, kind, src_path, None, id, deadline)
            &&& s2 == (Session { pending_file_ops: s2.pending_file_ops, ..s })
            &&& d2.link.sends(
                d.link,
                CommandView::TrustTempKey { op_id: m.nonce, pub_key_line: line@ },
            )
            &&& op_added(d, d2, kind, dest_path, None, id, deadline)
            &&& d2 == (Session { link: d2.link, pending_file_ops: d2.pending_file_ops, ..d })
            &&& after.cross_copy_jobs@.len() == before.cross_copy_jobs@.len() + 1
            &&& after.cross_copy_jobs@.drop_last() == before.cross_copy_jobs@
            &&& is_new_job(
                after.cross_copy_jobs@.last(),
                chan,
                id,
                src_uid,
                src_path,
                dest_uid,
                dest_path,
                deadline,
                m.nonce,
                marker,
                pem@,
            )
            &&& after == (App {
                sessions: after.sessions,
                cross_copy_jobs: after.cross_copy_jobs,
                ..before
            })
        },
    }
}

impl App {
    fn op_slot(
        &self,
        uid: u64,
        actor: &Option<String>,
        disconnected: &str,
        too_many: &str,
    ) -> (r: Result<usize, String>)
        ensures
            match r {
                Ok(i) => op_refusal(*self, uid, *actor, disconnected@, too_many@) is None
                    && uid_pos(self.sessions@, uid) == Some(i as int) && i < self.sessions@.len(),
                Err(msg) => op_refusal(*self, uid, *actor, disconnected@, too_many@) == Some(msg@),
            },
    {
        match self.session_idx_by_uid(uid) {
            None => Err(self.session_not_found_msg(uid, actor)),
            Some(i) => if !self.sessions[i].connected {
                Err(disconnected.to_owned())
            } else if self.sessions[i].pending_file_ops.len() >= MAX_CONCURRENT_FILE_OPS {
                Err(too_many.to_owned())
            } else {
                Ok(i)
            },
        }
    }

    fn start_op(&mut self, i: usize, cmd: UiCommand, op: PendingAiFileOp)
        requires
            i < old(self).sessions@.len(),
            old(self).sessions@[i as int].link.is_open(),
        ensures
            only_session(*old(self), *final(self), i as int),
            ({
                let s = old(self).sessions@[i as int];
                let t = final(self).sessions@[i as int];
                &&& t.link.sends(s.link, cmd@)
                &&& t.pending_file_ops@ == s.pending_file_ops@.push(op)
                &&& t == (Session { link: t.link, pending_file_ops: t.pending_file_ops, ..s })
            }),
    {
        let _ = self.sessions[i].link.send(cmd);
        self.sessions[i].pending_file_ops.push(op);
        assert(self.sessions@ =~= old(self).sessions@.update(i as int, self.sessions@[i as int]));
    }

    /// Writes a file on a server, over what is there.
    pub fn write_file(
        &mut self,
        chan: u64,
        id: u64,
        uid: u64,
        path: String,
        content: String,
        timeout_ms: u64,
        actor: &Option<String>,
        m: Moment,
    ) -> (replies: Vec<Reply>)
        requires
            m.now <= CLOCK_LIMIT_MS,
        ensures
            file_op_ok(
                *old(self),
                *final(self),
                replies@,
                chan,
                id,
                uid,
                write_refusal(*old(self), uid, path@, *actor),
                CommandView::WriteFile {
                    id: m.nonce,
                    path: path@,
                    content: content@,
                    encoding: "UTF-8"@,
                    eol: Eol::Lf,
                    expect_mtime: 0,
                    force: true,
                },
                FileOpKind::Write { op_id: m.nonce },
                path@,
                Some(Waiter { chan, closed: false }),
                m.now + clamped(timeout_ms),
            ),
    {
        match validate_remote_path(path.as_str()) {
            Ok(()) => {},
            Err(e) => {
                return refuse(chan, id, e);
            },
        }
        let i: usize = match self.op_slot(uid, actor, NOT_CONNECTED, TOO_MANY_OPS) {
            Ok(i) => i,
            Err(e) => {
                return refuse(chan, id, e);
            },
        };
        if self.sessions[i].link.takes == 0 {
            return refuse(chan, id, WRITE_NOT_SENT.to_owned());
        }
        let cmd = UiCommand::WriteFile {
            id: m.nonce,
            path: path.clone(),
            content,
            encoding: "UTF-8".to_owned(),
            eol: Eol::Lf,
            expect_mtime: 0,
            force: true,
        };
        let op = PendingAiFileOp {
            kind: FileOpKind::Write { op_id: m.nonce },
            path,
            waiter: Some(Waiter { chan, closed: false }),
            req_id: id,
            deadline: m.now + clamp_timeout(timeout_ms),
        };
        self.start_op(i, cmd, op);
        assert(self.sessions@[i as int].pending_file_ops@.drop_last() =~= old(self).sessions@[i as int].pending_file_ops@);
        Vec::new()
    }

    /// Reads a file on a server.
    pub fn read_file(
        &mut self,
        chan: u64,
        id: u64,
        uid: u64,
        path: String,
        force: bool,
        timeout_ms: u64,
        actor: &Option<String>,
        m: Moment,
    ) -> (replies: Vec<Reply>)
        requires
            m.now <= CLOCK_LIMIT_MS,
        ensures
            file_op_ok(
                *old(self),
                *final(self),
                replies@,
                chan,
                id,
                uid,
                read_refusal(*old(self), uid, path@, *actor),
                CommandView::ReadFile { id: m.nonce, path: path@, force },
                FileOpKind::Read { op_id: m.nonce },
                path@,
                Some(Waiter { chan, closed: false }),
                m.now + clamped(timeout_ms),
            ),
    {
        match validate_remote_path(path.as_str()) {
            Ok(()) => {},
            Err(e) => {
                return refuse(chan, id, e);
            },
        }
        let i: usize = match self.op_slot(uid, actor, NOT_CONNECTED, TOO_MANY_OPS) {
            Ok(i) => i,
            Err(e) => {
                return refuse(chan, id, e);
            },
        };
        if self.sessions[i].link.takes == 0 {
            return refuse(chan, id, READ_NOT_SENT.to_owned());
        }
        let cmd = UiCommand::ReadFile { id: m.nonce, path: path.clone(), force };
        let op = PendingAiFileOp {
            kind: FileOpKind::Read { op_id: m.nonce },
            path,
            waiter: Some(Waiter { chan, closed: false }),
            req_id: id,
            deadline: m.now + clamp_timeout(timeout_ms),
        };
        self.start_op(i, cmd, op);
        assert(self.sessions@[i as int].pending_file_ops@.drop_last() =~= old(self).sessions@[i as int].pending_file_ops@);
        Vec::new()
    }

    /// Copies a file of this machine to a server, under the name that was asked for.
    pub fn copy_to_remote(
        &mut self,
        chan: u64,
        id: u64,
        uid: u64,
        local_path: String,
        remote_path: String,
        timeout_ms: u64,
        actor: &Option<String>,
        m: Moment,
    ) -> (replies: Vec<Reply>)
        requires
            m.now <= CLOCK_LIMIT_MS,
        ensures
            file_op_ok(
                *old(self),
                *final(self),
                replies@,
                chan,
                id,
                uid,
                upload_refusal(*old(self), uid, local_path@, remote_path@, *actor),
                CommandView::Upload {
                    id: m.nonce,
                    local: local_path@,
                    remote_dir: parent_of(remote_path@),
                    remote_name: Some(basename_of(remote_path@)),
                    policy: ConflictPolicy::Overwrite,
                },
                FileOpKind::Copy { op_id: m.nonce },
                remote_path@,
                Some(Waiter { chan, closed: false }),
                m.now + clamped(timeout_ms),
            ),
    {
        let i: usize = match self.op_slot(uid, actor, NOT_CONNECTED, TOO_MANY_OPS) {
            Ok(i) => i,
            Err(e) => {
                return refuse(chan, id, e);
            },
        };
        match validate_local_path(local_path.as_str()) {
            Ok(()) => {},
            Err(e) => {
                return refuse(chan, id, e);
            },
        }
        match validate_remote_path(remote_path.as_str()) {
            Ok(()) => {},
            Err(e) => {
                return refuse(chan, id, e);
            },
        }
        if self.sessions[i].link.takes == 0 {
            return refuse(chan, id, COPY_NOT_SENT.to_owned());
        }
        let cmd = UiCommand::Upload {
            id: m.nonce,
            local: local_path,
            remote_dir: remote_parent(remote_path.as_str()),
            remote_name: Some(remote_basename(remote_path.as_str())),
            policy: ConflictPolicy::Overwrite,
        };
        let op = PendingAiFileOp {
            kind: FileOpKind::Copy { op_id: m.nonce },
            path: remote_path,
            waiter: Some(Waiter { chan, closed: false }),
            req_id: id,
            deadline: m.now + clamp_timeout(timeout_ms),
        };
        self.start_op(i, cmd, op);
        assert(self.sessions@[i as int].pending_file_ops@.drop_last() =~= old(self).sessions@[i as int].pending_file_ops@);
        Vec::new()
    }

    /// Stores the bytes that follow a request in a file on a server.
    pub fn copy_to_remote_from_caller(
        &mut self,
        chan: u64,
        id: u64,
        uid: u64,
        remote_path: String,
        size: u64,
        has_upload: bool,
        timeout_ms: u64,
        actor: &Option<String>,
        m: Moment,
    ) -> (replies: Vec<Reply>)
        requires
            m.now <= CLOCK_LIMIT_MS,
        ensures
            file_op_ok(
                *old(self),
                *final(self),
                replies@,
                chan,
                id,
                uid,
                stream_refusal(*old(self), uid, remote_path@, has_upload, NO_UPLOAD@, *actor),
                CommandView::UploadFromMcp {
                    id: m.nonce,
                    source: chan,
                    size,
                    remote_path: remote_path@,
                },
                FileOpKind::Copy { op_id: m.nonce },
                remote_path@,
                Some(Waiter { chan, closed: false }),
                m.now + clamped(timeout_ms),
            ),
    {
        if !has_upload {
            return refuse(chan, id, NO_UPLOAD.to_owned());
        }
        let i: usize = match self.op_slot(uid, actor, NOT_CONNECTED, TOO_MANY_OPS) {
            Ok(i) => i,
            Err(e) => {
                return refuse(chan, id, e);
            },
        };
        match validate_remote_path(remote_path.as_str()) {
            Ok(()) => {},
            Err(e) => {
                return refuse(chan, id, e);
            },
        }
        if self.sessions[i].link.takes == 0 {
            return refuse(chan, id, COPY_NOT_SENT.to_owned());
        }
        let cmd = UiCommand::UploadFromMcp {
            id: m.nonce,
            source: chan,
            size,
            remote_path: remote_path.clone(),
        };
        let op = PendingAiFileOp {
            kind: FileOpKind::Copy { op_id: m.nonce },
            path: remote_path,
            waiter: Some(Waiter { chan, closed: false }),
            req_id: id,
            deadline: m.now + clamp_timeout(timeout_ms),
        };
        self.start_op(i, cmd, op);
        assert(self.sessions@[i as int].pending_file_ops@.drop_last() =~= old(self).sessions@[i as int].pending_file_ops@);
        Vec::new()
    }

    /// Streams a file of a server to the one who asks. The worker answers on the stream itself, so
    /// that nobody waits for a reply.
    pub fn copy_from_remote_to_caller(
        &mut self,
        chan: u64,
        id: u64,
        uid: u64,
        remote_path: String,
        has_sink: bool,
        timeout_ms: u64,
        actor: &Option<String>,
        m: Moment,
    ) -> (replies: Vec<Reply>)
        requires
            m.now <= CLOCK_LIMIT_MS,
        ensures
            file_op_ok(
                *old(self),
                *final(self),
                replies@,
                chan,
                id,
                uid,
                stream_refusal(*old(self), uid, remote_path@, has_sink, NO_SINK@, *actor),
                CommandView::DownloadToMcp { id: m.nonce, remote_path: remote_path@, sink: chan },
                FileOpKind::Copy { op_id: m.nonce },
                remote_path@,
                None,
                m.now + clamped(timeout_ms),
            ),
    {
        if !has_sink {
            return refuse(chan, id, NO_SINK.to_owned());
        }
        let i: usize = match self.op_slot(uid, actor, NOT_CONNECTED, TOO_MANY_OPS) {
            Ok(i) => i,
            Err(e) => {
                return refuse(chan, id, e);
            },
        };
        match validate_remote_path(remote_path.as_str()) {
            Ok(()) => {},
            Err(e) => {
                return refuse(chan, id, e);
            },
        }
        if self.sessions[i].link.takes == 0 {
            return refuse(chan, id, COPY_NOT_SENT.to_owned());
        }
        let cmd = UiCommand::DownloadToMcp {
            id: m.nonce,
            remote_path: remote_path.clone(),
            sink: chan,
        };
        let op = PendingAiFileOp {
            kind: FileOpKind::Copy { op_id: m.nonce },
            path: remote_path,
            waiter: None,
            req_id: id,
            deadline: m.now + clamp_timeout(timeout_ms),
        };
        self.start_op(i, cmd, op);
        assert(self.sessions@[i as int].pending_file_ops@.drop_last() =~= old(self).sessions@[i as int].pending_file_ops@);
        Vec::new()
    }

    /// Says why a file is not copied between two sessions, as far as can be told before a key is
    /// made.
    pub fn copy_between_refusal(
        &self,
        src_uid: u64,
        src_path: &str,
        dest_uid: u64,
        dest_path: &str,
        actor: &Option<String>,
    ) -> (r: Option<String>)
        ensures
            match r {
                Some(msg) => between_refusal(*self, src_uid, src_path@, dest_uid, dest_path@, *actor)
                    == Some(msg@),
                None => between_refusal(*self, src_uid, src_path@, dest_uid, dest_path@, *actor)
                    is None,
            },
    {
        if src_uid == dest_uid {
            return Some(SAME_SESSION.to_owned());
        }
        match self.op_slot(src_uid, actor, SRC_NOT_CONNECTED, SRC_TOO_MANY) {
            Ok(_) => {},
            Err(e) => {
                return Some(e);
            },
        }
        match self.op_slot(dest_uid, actor, DEST_NOT_CONNECTED, DEST_TOO_MANY) {
            Ok(_) => {},
            Err(e) => {
                return Some(e);
            },
        }
        match validate_remote_path(src_path) {
            Ok(()) => {},
            Err(e) => {
                return Some(e);
            },
        }
        match validate_remote_path(dest_path) {
            Ok(()) => None,
            Err(e) => Some(e),
        }
    }

    /// Starts a copy between two sessions with the key that was made for it.
    pub fn start_cross_copy(
        &mut self,
        chan: u64,
        id: u64,
        src_uid: u64,
        src_path: String,
        dest_uid: u64,
        dest_path: String,
        timeout_ms: u64,
        m: Moment,
        marker: String,
        keys: Result<(Vec<u8>, String), String>,
    ) -> (replies: Vec<Reply>)
        requires
            m.now <= CLOCK_LIMIT_MS,
            src_uid != dest_uid,
            uid_pos(old(self).sessions@, src_uid) is Some,
            uid_pos(old(self).sessions@, dest_uid) is Some,
        ensures
            start_cross_copy_ok(
                *old(self),
                *final(self),
                replies@,
                chan,
                id,
                src_uid,
                src_path@,
                dest_uid,
                dest_path@,
                timeout_ms,
                m,
                marker@,
                keys,
            ),
    {
        let (pem, line) = match keys {
            Ok(pair) => pair,
            Err(e) => {
                let mut msg = NO_KEYPAIR.to_owned();
                msg.append(e.as_str());
                return refuse(chan, id, msg);
            },
        };
        let si: usize = match self.session_idx_by_uid(src_uid) {
            Some(i) => i,
            None => {
                return Vec::new();
            },
        };
        let di: usize = match self.session_idx_by_uid(dest_uid) {
            Some(i) => i,
            None => {
                return Vec::new();
            },
        };
        if self.sessions[di].link.takes == 0 {
            return refuse(chan, id, DEST_NOT_SENT.to_owned());
        }
        let deadline: u64 = m.now + clamp_timeout(timeout_ms);
        let _ = self.sessions[di].link.send(
            UiCommand::TrustTempKey { op_id: m.nonce, pub_key_line: line },
        );
        self.sessions[si].pending_file_ops.push(
            PendingAiFileOp {
                kind: FileOpKind::Copy { op_id: m.nonce },
                path: src_path.clone(),
                waiter: None,
                req_id: id,
                deadline,
            },
        );
        self.sessions[di].pending_file_ops.push(
            PendingAiFileOp {
                kind: FileOpKind::Copy { op_id: m.nonce },
                path: dest_path.clone(),
                waiter: None,
                req_id: id,
                deadline,
            },
        );
        self.cross_copy_jobs.push(
            CrossCopyJob {
                op_id: m.nonce,
                req_id: id,
                waiter: Some(Waiter { chan, closed: false }),
                src_uid,
                dest_uid,
                src_remote_path: src_path,
                dest_remote_path: dest_path,
                pipe_writer: true,
                pipe_reader: true,
                marker,
                trust_established: false,
                priv_key_pem: Some(pem),
                direct_result: None,
                phase: CrossCopyPhase::TrustingB,
                deadline,
                phase_deadline: deadline,
            },
        );
        proof {
            let s2 = self.sessions@[si as int];
            let d2 = self.sessions@[di as int];
            assert(self.sessions@ =~= old(self).sessions@.update(si as int, s2).update(
                di as int,
                d2,
            ));
            assert(s2.pending_file_ops@.drop_last() =~= old(self).sessions@[si as int].pending_file_ops@);
            assert(d2.pending_file_ops@.drop_last() =~= old(self).sessions@[di as int].pending_file_ops@);
            assert(self.cross_copy_jobs@.drop_last() =~= old(self).cross_copy_jobs@);
        }
        Vec::new()
    }
}

} // verus!
