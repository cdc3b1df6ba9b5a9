//! What a worker reports, and what a session makes of it.
use std::collections::VecDeque;

use vstd::prelude::*;
use vstd::string::*;

use crate::file_ops::{
    copy_reply, op_resolves, read_reply, refusals, would_resolve, write_reply, FileOpKind,
    OP_DISCONNECTED,
};
use crate::forwards::ForwardEntry;
use crate::pending::SessionPending;
use crate::proto::{
    delivered, lemma_delivered_none, lemma_delivered_one, tr, tr_of, CommandView, Eol, ForwardSpec,
    ForwardSpecView, Lang, TransferDir, UiCommand,
};
use crate::protocol::{reply_view, reply_views, Reply, ReplyView};
use crate::runs::{exit_settles, reply_on_end, run_after_end, CLOCK_LIMIT_MS};
use crate::session::{
    add_name, path_typed, refreshed, with_name, FilePanel, KbdPrompt, Session,
};
use crate::text::{decimal, push_decimal, same, starts_with_char, views};
use crate::transfers::{find_transfer, transfer_pos, Transfer, XferSpec};

verus! {

/// A report of a worker.
#[allow(inconsistent_fields)]
pub enum WorkerEvent {
    Status(String),
    Connected,
    Disconnected(String),
    MonitorSupport(bool),
    /// So many bytes for the terminal, and the directory that its shell is in after them.
    TerminalData { len: usize, cwd: Option<String> },
    /// The shell exited with this code.
    ShellExited(i32),
    DirListFailed { message: String },
    ProcDetail { pid: u32, cmd: String, cwd: String, exe: String },
    ForwardStatus { id: u64, ok: bool, message: String },
    KbdPrompt { name: String, instructions: String, prompts: Vec<(String, bool)> },
    HostKeyPrompt { host: String, fingerprint: String, changed: bool },
    FileOpened { id: u64, path: String, content: String, encoding: String, eol: Eol, mtime: u32 },
    FileSaved { id: u64, path: String, mtime: u32 },
    FileSaveProgress { path: String, done: u64, total: u64 },
    FileTail { path: String, data: Vec<u8>, offset: u64, truncated: bool },
    PdfInfo { id: u64, pages: u32 },
    PdfPage { path: String, page: u32, data: Vec<u8> },
    PdfSearch { path: String, hits: Vec<(u32, String)>, message: Option<String> },
    DocOpened { id: u64, data: Vec<u8> },
    /// With the words for an agent.
    FileTooLarge { id: u64, path: String, size: u64, message: String },
    FileSaveFailed { id: u64, path: String, message: String },
    /// With the words for an agent.
    FileSaveConflict { id: u64, path: String, message: String },
    FileLoadProgress { id: u64, done: u64, total: u64 },
    FileLoadFailed { id: u64, message: String },
    ImageOpened { path: String, data: Vec<u8> },
    OpDone { message: String, refresh_dir: Option<String> },
    TransferStart { id: u64, name: String, total: u64, dir: TransferDir, local: Option<String> },
    TransferProgress { id: u64, done: u64 },
    TransferNote { id: u64, note: String },
    TransferDone { id: u64, ok: bool, message: String, refresh_dir: Option<String> },
    Error(String),
}

/// When a report is taken in, and how.
#[derive(Clone, Copy)]
pub struct EventEnv {
    /// In milliseconds.
    pub now: u64,
    pub lang: Lang,
    /// How long the wish to return to a directory is kept, in milliseconds.
    pub cwd_window_ms: u64,
    /// Whether this machine's own shell is one of Windows.
    pub windows: bool,
}

/// How often a lost connection is tried again by itself.
pub const MAX_RECONNECT_TRIES: u32 = 5;

/// How long to wait before the next try, in seconds: 2, 4, 8, 16, then 30.
pub open spec fn backoff_secs(tries: u32) -> u64 {
    if tries == 0 {
        2
    } else if tries == 1 {
        4
    } else if tries == 2 {
        8
    } else if tries == 3 {
        16
    } else {
        30
    }
}

/// How long to wait before the next try, in seconds.
pub fn reconnect_backoff(tries: u32) -> (r: u64)
    ensures
        r == backoff_secs(tries),
        2 <= r <= 30,
{
    match tries {
        0 => 2,
        1 => 4,
        2 => 8,
        3 => 16,
        _ => 30,
    }
}

/// The commands that start the interrupted transfers again.
pub open spec fn resume_commands(ts: Seq<Transfer>) -> Seq<CommandView>
    decreases ts.len(),
{
    if ts.len() == 0 {
        Seq::empty()
    } else {
        let rest = resume_commands(ts.drop_last());
        let t = ts.last();
        if t.paused && t.spec is Some {
            rest.push(t.spec->0.command(t.id))
        } else {
            rest
        }
    }
}

/// A transfer after its connection came back.
pub open spec fn transfer_resumed(before: Transfer, after: Transfer, lang: Lang) -> bool {
    if before.paused && before.spec is Some {
        &&& after.message@ == tr_of(lang, "续传中 …"@, "Resuming …"@)
        &&& after == (Transfer { paused: false, message: after.message, ..before })
    } else {
        after == before
    }
}

/// A transfer after its connection was lost: what can be started again waits for that.
pub open spec fn transfer_interrupted(before: Transfer, after: Transfer, lang: Lang) -> bool {
    if before.spec is Some && before.ok != Some(true) {
        &&& after.message@ == tr_of(lang, "已中断，重连后续传"@, "Interrupted; will resume"@)
        &&& after == (Transfer { ok: None, paused: true, message: after.message, ..before })
    } else {
        after == before
    }
}

/// The command that sets up a forward of the list again.
pub open spec fn forward_spec(f: ForwardEntry) -> ForwardSpecView {
    ForwardSpecView {
        id: f.id,
        bind_host: f.bind_host@,
        bind_port: f.bind_port,
        kind: f.kind@,
    }
}

/// The commands that set up the forwards again.
pub open spec fn readd_commands(fs: Seq<ForwardEntry>) -> Seq<CommandView> {
    Seq::new(fs.len(), |i: int| CommandView::AddForward(forward_spec(fs[i])))
}

/// The session after it was connected: interrupted transfers are resumed, forwards set up again,
/// and the wish to return to a directory is kept for a while.
pub open spec fn connects(before: Session, after: Session, env: EventEnv) -> bool {
    &&& after.status@ == tr_of(env.lang, "已连接"@, "Connected"@)
    &&& after.transfers@.len() == before.transfers@.len()
    &&& forall|i: int|
        0 <= i < before.transfers@.len() ==> transfer_resumed(
            before.transfers@[i],
            #[trigger] after.transfers@[i],
            env.lang,
        )
    &&& delivered(
        before.link,
        after.link,
        resume_commands(before.transfers@) + readd_commands(before.forwards@),
    )
    &&& after == (Session {
        connected: true,
        was_connected: true,
        reconnect_tries: 0,
        reconnect_at: None,
        status: after.status,
        restore_cwd: false,
        restore_cwd_until: if before.restore_cwd && before.last_cwd@.len() > 0 {
            Some((env.now + env.cwd_window_ms) as u64)
        } else {
            None
        },
        mcp_token_injected: false,
        transfers: after.transfers,
        link: after.link,
        ..before
    })
}

/// What the status line says of a session that is not tried again.
pub open spec fn gave_up_text(lang: Lang) -> Seq<char> {
    tr_of(
        lang,
        "自动重连已停止（已达 5 次），请手动重新连接"@,
        "Auto-reconnect stopped after 5 tries; reconnect manually"@,
    )
}

/// What the status line says of a lost connection.
pub open spec fn lost_status(s: Session, reason: Seq<char>, lang: Lang) -> Seq<char> {
    if !s.was_connected {
        reason
    } else if s.reconnect_tries < MAX_RECONNECT_TRIES {
        let secs = decimal(backoff_secs(s.reconnect_tries) as nat);
        match lang {
            Lang::Zh => reason + " · "@ + secs + "s 后重连"@,
            Lang::En => reason + " · "@ + "reconnect in "@ + secs + "s"@,
        }
    } else {
        reason + " · "@ + gave_up_text(lang)
    }
}

/// What an agent is told whose run was cut off.
pub const RUN_CUT_OFF: &'static str = "会话已断线";

/// The session after its connection was lost: transfers wait to be resumed, what agents wait for is
/// given up, and a session that ever was connected is tried again a few times.
pub open spec fn disconnects(
    before: Session,
    after: Session,
    replies: Seq<ReplyView>,
    reason: Seq<char>,
    env: EventEnv,
) -> bool {
    let retry = before.was_connected && before.reconnect_tries < MAX_RECONNECT_TRIES;
    let stop = before.was_connected && before.reconnect_tries >= MAX_RECONNECT_TRIES;
    &&& after.status@ == lost_status(before, reason, env.lang)
    &&& after.transfers@.len() == before.transfers@.len()
    &&& forall|i: int|
        0 <= i < before.transfers@.len() ==> transfer_interrupted(
            before.transfers@[i],
            #[trigger] after.transfers@[i],
            env.lang,
        )
    &&& after.pending_ai_run == run_after_end(before.pending_ai_run, true)
    &&& after.terminal.cancelled(before.terminal)
    &&& after.pending_file_ops@.len() == 0
    &&& views(after.pending.warn@) == (if stop {
        views(before.pending.warn@).push(gave_up_text(env.lang))
    } else {
        views(before.pending.warn@)
    })
    &&& replies == (match reply_on_end(before, RUN_CUT_OFF@, true) {
        Some(r) => seq![r],
        None => seq![],
    }) + refusals(before.pending_file_ops@, OP_DISCONNECTED@)
    &&& after == (Session {
        connected: false,
        status: after.status,
        transfers: after.transfers,
        pending_ai_run: after.pending_ai_run,
        terminal: after.terminal,
        pending_file_ops: after.pending_file_ops,
        reconnect_at: if retry {
            Some((env.now + backoff_secs(before.reconnect_tries) * 1000) as u64)
        } else {
            before.reconnect_at
        },
        pending: SessionPending { warn: after.pending.warn, ..before.pending },
        ..before
    })
}

/// The session with one transfer changed.
pub open spec fn transfer_changed(before: Session, after: Session, i: int, t: Transfer) -> bool {
    &&& after.transfers@ == before.transfers@.update(i, t)
    &&& after == (Session { transfers: after.transfers, ..before })
}

/// The session after a transfer was reported started: a known one is filled in, an unknown one is
/// added.
pub open spec fn transfer_starts(
    before: Session,
    after: Session,
    id: u64,
    name: Seq<char>,
    total: u64,
    dir: TransferDir,
    local: Option<String>,
) -> bool {
    match transfer_pos(before.transfers@, id) {
        Some(i) => {
            let t = before.transfers@[i];
            &&& after.transfers@[i].name@ == name
            &&& transfer_changed(
                before,
                after,
                i,
                Transfer {
                    name: after.transfers@[i].name,
                    total,
                    dir,
                    queued: false,
                    local: if local is Some {
                        local
                    } else {
                        t.local
                    },
                    ..t
                },
            )
        },
        None => {
            &&& after.transfers@.len() == before.transfers@.len() + 1
            &&& after.transfers@.drop_last() == before.transfers@
            &&& after.transfers@.last().is_fresh(id, name, dir, total, local, None)
            &&& after == (Session { transfers: after.transfers, ..before })
        },
    }
}

/// A transfer that was reported done: a failure by a lost connection waits to be resumed.
pub open spec fn transfer_done(
    before: Transfer,
    after: Transfer,
    connected: bool,
    ok: bool,
    message: Seq<char>,
    lang: Lang,
) -> bool {
    &&& after.note@.len() == 0
    &&& if !ok && !connected && before.spec is Some {
        &&& after.message@ == tr_of(lang, "已中断，重连后续传"@, "Interrupted; will resume"@)
        &&& after == (Transfer {
            note: after.note,
            queued: false,
            paused: true,
            message: after.message,
            ..before
        })
    } else {
        &&& after.message@ == message
        &&& after == (Transfer {
            note: after.note,
            queued: false,
            ok: Some(ok),
            total: if ok && before.total == 0 {
                before.done
            } else {
                before.total
            },
            message: after.message,
            ..before
        })
    }
}

/// The files to select after an upload of `name` to `dir` succeeded.
pub open spec fn selected(
    before: Option<(String, Vec<String>)>,
    after: Option<(String, Vec<String>)>,
    dir: Seq<char>,
    name: Seq<char>,
) -> bool {
    &&& after is Some
    &&& (after->0).0@ == dir
    &&& if before is Some && (before->0).0@ == dir {
        views((after->0).1@) == with_name(views((before->0).1@), name)
    } else {
        views((after->0).1@) == seq![name]
    }
}

/// The image upload that a transfer carries, where it is one.
pub open spec fn paste_pos(ps: Seq<(u64, String)>, id: u64) -> Option<int>
    decreases ps.len(),
{
    if ps.len() == 0 {
        None
    } else {
        match paste_pos(ps.drop_last(), id) {
            Some(i) => Some(i),
            None => if ps.last().0 == id {
                Some(ps.len() - 1)
            } else {
                None
            },
        }
    }
}

proof fn lemma_paste_pos(ps: Seq<(u64, String)>, id: u64)
    ensures
        match paste_pos(ps, id) {
            Some(i) => 0 <= i < ps.len() && ps[i].0 == id && forall|j: int|
                0 <= j < i ==> (#[trigger] ps[j]).0 != id,
            None => forall|j: int| 0 <= j < ps.len() ==> (#[trigger] ps[j]).0 != id,
        },
    decreases ps.len(),
{
    if ps.len() > 0 {
        lemma_paste_pos(ps.drop_last(), id);
        assert(forall|j: int| 0 <= j < ps.len() - 1 ==> ps.drop_last()[j] == ps[j]);
    }
}

fn find_paste(ps: &Vec<(u64, String)>, id: u64) -> (r: Option<usize>)
    ensures
        match r {
            Some(i) => paste_pos(ps@, id) == Some(i as int) && i < ps@.len(),
            None => paste_pos(ps@, id) is None,
        },
{
    proof {
        lemma_paste_pos(ps@, id);
    }
    let mut i: usize = 0;
    while i < ps.len()
        invariant
            i <= ps@.len(),
            forall|j: int| 0 <= j < i ==> (#[trigger] ps@[j]).0 != id,
            match paste_pos(ps@, id) {
                Some(k) => 0 <= k < ps@.len() && ps@[k].0 == id && forall|j: int|
                    0 <= j < k ==> (#[trigger] ps@[j]).0 != id,
                None => forall|j: int| 0 <= j < ps@.len() ==> (#[trigger] ps@[j]).0 != id,
            },
        decreases ps@.len() - i,
    {
        if ps[i].0 == id {
            return Some(i);
        }
        i = i + 1;
    }
    None
}

/// The first half of what a finished transfer does: the list, the status line, and the files to
/// select.
pub open spec fn transfer_listed(
    before: Session,
    after: Session,
    id: u64,
    ok: bool,
    message: Seq<char>,
    lang: Lang,
) -> bool {
    let pos = transfer_pos(before.transfers@, id);
    &&& after.status@ == message
    &&& match pos {
        Some(i) => {
            &&& after.transfers@ == before.transfers@.update(i, after.transfers@[i])
            &&& transfer_done(
                before.transfers@[i],
                after.transfers@[i],
                before.connected,
                ok,
                message,
                lang,
            )
        },
        None => after.transfers@ == before.transfers@,
    }
    &&& if ok && pos is Some && before.transfers@[pos->0].spec is Some
        && before.transfers@[pos->0].spec->0 is Upload {
        selected(
            before.files.pending_select,
            after.files.pending_select,
            before.transfers@[pos->0].spec->0->remote_dir@,
            before.transfers@[pos->0].name@,
        )
    } else {
        after.files.pending_select == before.files.pending_select
    }
    &&& after == (Session {
        transfers: after.transfers,
        status: after.status,
        files: FilePanel { pending_select: after.files.pending_select, ..before.files },
        ..before
    })
}

/// The second half: where the transfer carried a pasted image, its path is typed.
pub open spec fn paste_finished(
    before: Session,
    after: Session,
    id: u64,
    ok: bool,
    env: EventEnv,
) -> bool {
    match paste_pos(before.pending_paste_image@, id) {
        None => after == before,
        Some(i) => {
            let mid = Session { pending_paste_image: after.pending_paste_image, ..before };
            &&& after.pending_paste_image@ == before.pending_paste_image@.remove(i)
            &&& if ok {
                path_typed(
                    mid,
                    after,
                    before.pending_paste_image@[i].1@,
                    env.windows,
                    env.lang,
                )
            } else {
                after == mid
            }
        },
    }
}

/// How a finished transfer is told to an agent.
pub open spec fn copy_outcome(ok: bool, message: String) -> Result<(), String> {
    if ok {
        Ok(())
    } else {
        Err(message)
    }
}

/// What a finished transfer does: the list is brought up to date, the directory is listed again,
/// the path of a pasted image is typed, and an agent that waits for the copy is told.
pub open spec fn transfer_ends(
    before: Session,
    after: Session,
    replies: Seq<ReplyView>,
    id: u64,
    ok: bool,
    message: String,
    refresh_dir: Option<String>,
    env: EventEnv,
) -> bool {
    exists|listed: Session, fresh: Session, typed: Session, claimed: bool, reply: Option<Reply>|
        {
            &&& #[trigger] transfer_listed(before, listed, id, ok, message@, env.lang)
            &&& #[trigger] refreshed(listed, fresh, refresh_dir)
            &&& #[trigger] paste_finished(fresh, typed, id, ok, env)
            &&& #[trigger] op_resolves(
                typed,
                after,
                FileOpKind::Copy { op_id: id },
                claimed,
                reply,
                copy_reply(copy_outcome(ok, message)),
            )
            &&& replies == match reply_view(reply) {
                Some(r) => seq![r],
                None => seq![],
            }
        }
}

/// A result that belongs to an agent goes to it.
pub open spec fn routed(
    before: Session,
    after: Session,
    replies: Seq<ReplyView>,
    kind: FileOpKind,
    reply_to: spec_fn(crate::file_ops::PendingAiFileOp, crate::protocol::Waiter) -> ReplyView,
) -> bool {
    exists|reply: Option<Reply>|
        {
            &&& #[trigger] op_resolves(before, after, kind, true, reply, reply_to)
            &&& replies == match reply_view(reply) {
                Some(r) => seq![r],
                None => seq![],
            }
        }
}

/// What one report does to a session.
pub open spec fn event_ok(
    before: Session,
    after: Session,
    replies: Seq<ReplyView>,
    ev: WorkerEvent,
    env: EventEnv,
) -> bool {
    let p = before.pending;
    let quiet = replies.len() == 0;
    match ev {
        WorkerEvent::Status(s) => {
            &&& quiet
            &&& views(after.pending.warn@) == (if s@.len() > 0 && s@[0] == '⚠' {
                views(p.warn@).push(s@)
            } else {
                views(p.warn@)
            })
            &&& after == (Session {
                status: s,
                pending: SessionPending { warn: after.pending.warn, ..p },
                ..before
            })
        },
        WorkerEvent::Connected => quiet && connects(before, after, env),
        WorkerEvent::Disconnected(reason) => disconnects(before, after, replies, reason@, env),
        WorkerEvent::MonitorSupport(ok) => {
            &&& quiet
            &&& views(after.pending.warn@) == (if ok {
                views(p.warn@)
            } else {
                views(p.warn@).push(
                    tr_of(
                        env.lang,
                        "远端非 Linux 或缺少 /proc，系统监控已禁用"@,
                        "Remote is not Linux or lacks /proc; system monitor disabled"@,
                    ),
                )
            })
            &&& after == (Session {
                monitor_ok: Some(ok),
                pending: SessionPending { warn: after.pending.warn, ..p },
                ..before
            })
        },
        WorkerEvent::TerminalData { cwd, .. } => {
            &&& quiet
            &&& after == (Session {
                last_cwd: match cwd {
                    Some(c) => c,
                    None => before.last_cwd,
                },
                ..before
            })
        },
        WorkerEvent::ShellExited(code) => exists|reply: Option<Reply>|
            {
                &&& #[trigger] exit_settles(before, after, reply, code)
                &&& replies == match reply_view(reply) {
                    Some(r) => seq![r],
                    None => seq![],
                }
            },
        WorkerEvent::DirListFailed { message } => quiet && after == (Session {
            status: message,
            ..before
        }),
        WorkerEvent::ProcDetail { pid, cmd, cwd, exe } => quiet && after == (Session {
            proc_detail: Some((pid, cmd, cwd, exe)),
            ..before
        }),
        WorkerEvent::ForwardStatus { id, ok, message } => quiet && forward_reported(
            before,
            after,
            id,
            ok,
            message,
        ),
        WorkerEvent::KbdPrompt { name, instructions, prompts } => {
            &&& quiet
            &&& after.kbd_prompt is Some
            &&& after.kbd_prompt->0.name == name
            &&& after.kbd_prompt->0.instructions == instructions
            &&& after.kbd_prompt->0.prompts == prompts
            &&& views(after.kbd_prompt->0.answers@) == Seq::new(
                prompts@.len(),
                |i: int| Seq::<char>::empty(),
            )
            &&& after == (Session { kbd_prompt: after.kbd_prompt, ..before })
        },
        WorkerEvent::HostKeyPrompt { host, fingerprint, changed } => {
            &&& quiet
            &&& after.status@ == tr_of(env.lang, "等待确认主机指纹 …"@, "Awaiting host key …"@)
            &&& after == (Session {
                pending_hostkey: Some((host, fingerprint, changed)),
                status: after.status,
                ..before
            })
        },
        WorkerEvent::FileOpened { id, path, content, encoding, eol, mtime } => if would_resolve(
            before,
            FileOpKind::Read { op_id: id },
        ) {
            routed(before, after, replies, FileOpKind::Read { op_id: id }, read_reply(Ok(content)))
        } else {
            &&& quiet
            &&& after.status@ == tr_of(env.lang, "已打开文件"@, "File opened"@)
            &&& after.pending.open@ == p.open@.push((id, path, content, encoding, eol, mtime))
            &&& after == (Session {
                status: after.status,
                pending: SessionPending { open: after.pending.open, ..p },
                ..before
            })
        },
        WorkerEvent::FileSaved { id, path, mtime } => if would_resolve(
            before,
            FileOpKind::Write { op_id: id },
        ) {
            routed(before, after, replies, FileOpKind::Write { op_id: id }, write_reply(Ok(mtime)))
        } else {
            &&& quiet
            &&& after.pending.saved@ == p.saved@.push((id, path, mtime))
            &&& after == (Session {
                pending: SessionPending { saved: after.pending.saved, ..p },
                ..before
            })
        },
        WorkerEvent::FileSaveProgress { path, done, total } => {
            &&& quiet
            &&& after.pending.save_progress@ == p.save_progress@.push((path, done, total))
            &&& after == (Session {
                pending: SessionPending { save_progress: after.pending.save_progress, ..p },
                ..before
            })
        },
        WorkerEvent::FileTail { path, data, offset, truncated } => {
            &&& quiet
            &&& after.pending.tail@ == p.tail@.push((path, data, offset, truncated))
            &&& after == (Session {
                pending: SessionPending { tail: after.pending.tail, ..p },
                ..before
            })
        },
        WorkerEvent::PdfInfo { id, pages } => {
            &&& quiet
            &&& after.pending.pdf_info@ == p.pdf_info@.push((id, pages))
            &&& after == (Session {
                pending: SessionPending { pdf_info: after.pending.pdf_info, ..p },
                ..before
            })
        },
        WorkerEvent::PdfPage { path, page, data } => {
            &&& quiet
            &&& after.pending.pdf_page@ == p.pdf_page@.push((path, page, data))
            &&& after == (Session {
                pending: SessionPending { pdf_page: after.pending.pdf_page, ..p },
                ..before
            })
        },
        WorkerEvent::PdfSearch { path, hits, message } => {
            &&& quiet
            &&& after.pending.pdf_search@ == p.pdf_search@.push((path, hits, message))
            &&& after == (Session {
                pending: SessionPending { pdf_search: after.pending.pdf_search, ..p },
                ..before
            })
        },
        WorkerEvent::DocOpened { id, data } => {
            &&& quiet
            &&& after.pending.doc@ == p.doc@.push((id, data))
            &&& after == (Session {
                pending: SessionPending { doc: after.pending.doc, ..p },
                ..before
            })
        },
        WorkerEvent::FileTooLarge { id, path, size, message } => if would_resolve(
            before,
            FileOpKind::Read { op_id: id },
        ) {
            routed(before, after, replies, FileOpKind::Read { op_id: id }, read_reply(Err(message)))
        } else {
            &&& quiet
            &&& after.pending.too_large@ == p.too_large@.push((id, path, size))
            &&& after == (Session {
                pending: SessionPending { too_large: after.pending.too_large, ..p },
                ..before
            })
        },
        WorkerEvent::FileSaveFailed { id, path, message } => if would_resolve(
            before,
            FileOpKind::Write { op_id: id },
        ) {
            routed(
                before,
                after,
                replies,
                FileOpKind::Write { op_id: id },
                write_reply(Err(message)),
            )
        } else {
            &&& quiet
            &&& after.pending.save_failed@ == p.save_failed@.push((id, path, message))
            &&& after == (Session {
                pending: SessionPending { save_failed: after.pending.save_failed, ..p },
                ..before
            })
        },
        WorkerEvent::FileSaveConflict { id, path, message } => if would_resolve(
            before,
            FileOpKind::Write { op_id: id },
        ) {
            routed(
                before,
                after,
                replies,
                FileOpKind::Write { op_id: id },
                write_reply(Err(message)),
            )
        } else {
            &&& quiet
            &&& after.pending.conflict@ == p.conflict@.push((id, path))
            &&& after == (Session {
                pending: SessionPending { conflict: after.pending.conflict, ..p },
                ..before
            })
        },
        WorkerEvent::FileLoadProgress { id, done, total } => {
            &&& quiet
            &&& after.pending.load_progress@ == p.load_progress@.push((id, done, total))
            &&& after == (Session {
                pending: SessionPending { load_progress: after.pending.load_progress, ..p },
                ..before
            })
        },
        WorkerEvent::FileLoadFailed { id, message } => if would_resolve(
            before,
            FileOpKind::Read { op_id: id },
        ) {
            routed(before, after, replies, FileOpKind::Read { op_id: id }, read_reply(Err(message)))
        } else {
            &&& quiet
            &&& after.status@ == tr_of(env.lang, "打开失败："@, "Open failed: "@) + message@
            &&& after.pending.load_fail@ == p.load_fail@.push((id, message))
            &&& after == (Session {
                status: after.status,
                pending: SessionPending { load_fail: after.pending.load_fail, ..p },
                ..before
            })
        },
        WorkerEvent::ImageOpened { path, data } => {
            &&& quiet
            &&& after.status@ == tr_of(env.lang, "已打开图片"@, "Image opened"@)
            &&& after.pending.image@ == p.image@.push((path, data))
            &&& after == (Session {
                status: after.status,
                pending: SessionPending { image: after.pending.image, ..p },
                ..before
            })
        },
        WorkerEvent::OpDone { message, refresh_dir } => {
            &&& quiet
            &&& refreshed(Session { status: message, ..before }, after, refresh_dir)
        },
        WorkerEvent::TransferStart { id, name, total, dir, local } => quiet && transfer_starts(
            before,
            after,
            id,
            name@,
            total,
            dir,
            local,
        ),
        WorkerEvent::TransferProgress { id, done } => {
            &&& quiet
            &&& match transfer_pos(before.transfers@, id) {
                Some(i) => transfer_changed(
                    before,
                    after,
                    i,
                    Transfer { done, ..before.transfers@[i] },
                ),
                None => after == before,
            }
        },
        WorkerEvent::TransferNote { id, note } => {
            &&& quiet
            &&& match transfer_pos(before.transfers@, id) {
                Some(i) => transfer_changed(
                    before,
                    after,
                    i,
                    Transfer { note, ..before.transfers@[i] },
                ),
                None => after == before,
            }
        },
        WorkerEvent::TransferDone { id, ok, message, refresh_dir } => transfer_ends(
            before,
            after,
            replies,
            id,
            ok,
            message,
            refresh_dir,
            env,
        ),
        WorkerEvent::Error(e) => quiet && after == (Session { status: e, ..before }),
    }
}

/// The position of a forward.
pub open spec fn forward_pos(fs: Seq<ForwardEntry>, id: u64) -> Option<int>
    decreases fs.len(),
{
    if fs.len() == 0 {
        None
    } else {
        match forward_pos(fs.drop_last(), id) {
            Some(i) => Some(i),
            None => if fs.last().id == id {
                Some(fs.len() - 1)
            } else {
                None
            },
        }
    }
}

/// What [`forward_pos`] finds.
pub proof fn lemma_forward_pos(fs: Seq<ForwardEntry>, id: u64)
    ensures
        match forward_pos(fs, id) {
            Some(i) => 0 <= i < fs.len() && fs[i].id == id && forall|j: int|
                0 <= j < i ==> (#[trigger] fs[j]).id != id,
            None => forall|j: int| 0 <= j < fs.len() ==> (#[trigger] fs[j]).id != id,
        },
    decreases fs.len(),
{
    if fs.len() > 0 {
        lemma_forward_pos(fs.drop_last(), id);
        assert(forall|j: int| 0 <= j < fs.len() - 1 ==> fs.drop_last()[j] == fs[j]);
    }
}

/// Finds a forward.
pub fn find_forward(fs: &Vec<ForwardEntry>, id: u64) -> (r: Option<usize>)
    ensures
        match r {
            Some(i) => forward_pos(fs@, id) == Some(i as int) && i < fs@.len(),
            None => forward_pos(fs@, id) is None,
        },
{
    proof {
        lemma_forward_pos(fs@, id);
    }
    let mut i: usize = 0;
    while i < fs.len()
        invariant
            i <= fs@.len(),
            forall|j: int| 0 <= j < i ==> (#[trigger] fs@[j]).id != id,
            match forward_pos(fs@, id) {
                Some(k) => 0 <= k < fs@.len() && fs@[k].id == id && forall|j: int|
                    0 <= j < k ==> (#[trigger] fs@[j]).id != id,
                None => forall|j: int| 0 <= j < fs@.len() ==> (#[trigger] fs@[j]).id != id,
            },
        decreases fs@.len() - i,
    {
        if fs[i].id == id {
            return Some(i);
        }
        i = i + 1;
    }
    None
}

/// The session after the state of a forward was reported.
pub open spec fn forward_reported(
    before: Session,
    after: Session,
    id: u64,
    ok: bool,
    message: String,
) -> bool {
    match forward_pos(before.forwards@, id) {
        Some(i) => {
            &&& after.forwards@ == before.forwards@.update(
                i,
                ForwardEntry { ok, status: message, ..before.forwards@[i] },
            )
            &&& after == (Session { forwards: after.forwards, ..before })
        },
        None => after == before,
    }
}

fn one(reply: Option<Reply>) -> (r: Vec<Reply>)
    ensures
        reply_views(r@) == (match reply_view(reply) {
            Some(x) => seq![x],
            None => seq![],
        }),
{
    let mut v: Vec<Reply> = Vec::new();
    match reply {
        Some(r) => {
            v.push(r);
            assert(reply_views(v@) =~= seq![r@]);
        },
        None => {
            assert(reply_views(v@) =~= seq![]);
        },
    }
    v
}

impl Session {
    fn on_connected(&mut self, env: EventEnv)
        requires
            env.now <= CLOCK_LIMIT_MS,
            env.cwd_window_ms <= CLOCK_LIMIT_MS,
        ensures
            connects(*old(self), *final(self), env),
    {
        let ghost s = *self;
        self.connected = true;
        self.was_connected = true;
        self.reconnect_tries = 0;
        self.reconnect_at = None;
        self.status = tr(env.lang, "已连接", "Connected").to_owned();
        self.restore_cwd_until = if self.restore_cwd && !self.last_cwd.as_str().is_empty() {
            Some(env.now + env.cwd_window_ms)
        } else {
            None
        };
        self.restore_cwd = false;
        self.mcp_token_injected = false;
        let ghost mid = *self;
        let ghost ts = self.transfers@;
        let mut i: usize = 0;
        proof {
            lemma_delivered_none(self.link);
            assert(resume_commands(ts.take(0)) =~= Seq::empty());
        }
        while i < self.transfers.len()
            invariant
                ts == s.transfers@,
                self.transfers@.len() == ts.len(),
                i <= ts.len(),
                *self == (Session { transfers: self.transfers, link: self.link, ..mid }),
                delivered(s.link, self.link, resume_commands(ts.take(i as int))),
                forall|k: int|
                    0 <= k < i ==> transfer_resumed(ts[k], #[trigger] self.transfers@[k], env.lang),
                forall|k: int| i <= k < ts.len() ==> #[trigger] self.transfers@[k] == ts[k],
            decreases ts.len() - i,
        {
            assert(ts.take(i + 1).drop_last() =~= ts.take(i as int));
            assert(ts.take(i + 1).last() == ts[i as int]);
            let ghost link = self.link;
            let ghost held = self.transfers@;
            if self.transfers[i].paused {
                let id: u64 = self.transfers[i].id;
                let cmd: Option<UiCommand> = match &self.transfers[i].spec {
                    Some(spec) => Some(spec.to_command(id)),
                    None => None,
                };
                match cmd {
                    Some(c) => {
                        let ghost view = c@;
                        let _ = self.link.send(c);
                        proof {
                            lemma_delivered_one(
                                s.link,
                                link,
                                self.link,
                                resume_commands(ts.take(i as int)),
                                view,
                            );
                        }
                        self.transfers[i].paused = false;
                        self.transfers[i].message = tr(
                            env.lang,
                            "续传中 …",
                            "Resuming …",
                        ).to_owned();
                    },
                    None => {},
                }
            }
            assert forall|k: int| 0 <= k < i + 1 implies transfer_resumed(
                ts[k],
                #[trigger] self.transfers@[k],
                env.lang,
            ) by {
                if k < i {
                    assert(self.transfers@[k] == held[k]);
                }
            }
            i = i + 1;
        }
        assert(ts.take(ts.len() as int) =~= ts);
        let ghost resumed = resume_commands(ts);
        let ghost fs = self.forwards@;
        let ghost mid2 = *self;
        let mut k: usize = 0;
        assert(resumed + readd_commands(fs).take(0) =~= resumed);
        while k < self.forwards.len()
            invariant
                fs == self.forwards@,
                k <= fs.len(),
                *self == (Session { link: self.link, ..mid2 }),
                delivered(s.link, self.link, resumed + readd_commands(fs).take(k as int)),
            decreases fs.len() - k,
        {
            let ghost link = self.link;
            let spec = ForwardSpec {
                id: self.forwards[k].id,
                bind_host: self.forwards[k].bind_host.clone(),
                bind_port: self.forwards[k].bind_port,
                kind: self.forwards[k].kind.copy(),
            };
            let cmd = UiCommand::AddForward(spec);
            let ghost view = cmd@;
            let _ = self.link.send(cmd);
            proof {
                let sent = resumed + readd_commands(fs).take(k as int);
                lemma_delivered_one(s.link, link, self.link, sent, view);
                assert(view == readd_commands(fs)[k as int]);
                assert(sent.push(view) =~= resumed + readd_commands(fs).take(k + 1));
            }
            k = k + 1;
        }
        assert(readd_commands(fs).take(fs.len() as int) =~= readd_commands(fs));
    }

    fn on_disconnected(&mut self, reason: String, env: EventEnv) -> (replies: Vec<Reply>)
        requires
            env.now <= CLOCK_LIMIT_MS,
        ensures
            disconnects(*old(self), *final(self), reply_views(replies@), reason@, env),
    {
        let ghost s = *self;
        self.connected = false;
        self.status = reason;
        let ghost mid = *self;
        let ghost ts = self.transfers@;
        let mut i: usize = 0;
        while i < self.transfers.len()
            invariant
                ts == s.transfers@,
                self.transfers@.len() == ts.len(),
                i <= ts.len(),
                *self == (Session { transfers: self.transfers, ..mid }),
                forall|k: int|
                    0 <= k < i ==> transfer_interrupted(
                        ts[k],
                        #[trigger] self.transfers@[k],
                        env.lang,
                    ),
                forall|k: int| i <= k < ts.len() ==> #[trigger] self.transfers@[k] == ts[k],
            decreases ts.len() - i,
        {
            let ghost held = self.transfers@;
            let done: bool = match self.transfers[i].ok {
                Some(b) => b,
                None => false,
            };
            if self.transfers[i].spec.is_some() && !done {
                self.transfers[i].ok = None;
                self.transfers[i].paused = true;
                self.transfers[i].message = tr(
                    env.lang,
                    "已中断，重连后续传",
                    "Interrupted; will resume",
                ).to_owned();
            }
            assert forall|k: int| 0 <= k < i + 1 implies transfer_interrupted(
                ts[k],
                #[trigger] self.transfers@[k],
                env.lang,
            ) by {
                if k < i {
                    assert(self.transfers@[k] == held[k]);
                }
            }
            i = i + 1;
        }
        if self.was_connected {
            let mut status = self.status.clone();
            status.append(" · ");
            if self.reconnect_tries < MAX_RECONNECT_TRIES {
                let secs: u64 = reconnect_backoff(self.reconnect_tries);
                self.reconnect_at = Some(env.now + secs * 1000);
                match env.lang {
                    Lang::Zh => {
                        push_decimal(&mut status, secs);
                        status.append("s 后重连");
                    },
                    Lang::En => {
                        status.append("reconnect in ");
                        push_decimal(&mut status, secs);
                        status.append("s");
                    },
                }
            } else {
                let msg = tr(
                    env.lang,
                    "自动重连已停止（已达 5 次），请手动重新连接",
                    "Auto-reconnect stopped after 5 tries; reconnect manually",
                );
                status.append(msg);
                self.pending.warn.push(msg.to_owned());
                assert(views(self.pending.warn@) =~= views(s.pending.warn@).push(msg@));
            }
            self.status = status;
        }
        let ended = self.cancel_pending_ai_run(RUN_CUT_OFF);
        let mut replies = one(ended);
        let ghost told = reply_views(replies@);
        let mut dropped = self.cancel_pending_file_op();
        let ghost more = reply_views(dropped@);
        replies.append(&mut dropped);
        assert(reply_views(replies@) =~= told + more);
        replies
    }

    fn on_transfer_start(
        &mut self,
        id: u64,
        name: String,
        total: u64,
        dir: TransferDir,
        local: Option<String>,
    )
        ensures
            transfer_starts(*old(self), *final(self), id, name@, total, dir, local),
    {
        match find_transfer(&self.transfers, id) {
            Some(i) => {
                self.transfers[i].name = name;
                self.transfers[i].total = total;
                self.transfers[i].dir = dir;
                self.transfers[i].queued = false;
                if local.is_some() {
                    self.transfers[i].local = local;
                }
                assert(self.transfers@ =~= old(self).transfers@.update(
                    i as int,
                    self.transfers@[i as int],
                ));
            },
            None => {
                self.transfers.push(Transfer::new(id, name, dir, total, local, None));
                assert(self.transfers@.drop_last() =~= old(self).transfers@);
            },
        }
    }

    fn list_transfer_end(&mut self, id: u64, ok: bool, message: &str, lang: Lang)
        ensures
            transfer_listed(*old(self), *final(self), id, ok, message@, lang),
    {
        let connected: bool = self.connected;
        let pos = find_transfer(&self.transfers, id);
        match pos {
            Some(i) => {
                self.transfers[i].note = String::new();
                self.transfers[i].queued = false;
                if !ok && !connected && self.transfers[i].spec.is_some() {
                    self.transfers[i].paused = true;
                    self.transfers[i].message = tr(
                        lang,
                        "已中断，重连后续传",
                        "Interrupted; will resume",
                    ).to_owned();
                } else {
                    self.transfers[i].ok = Some(ok);
                    if ok && self.transfers[i].total == 0 {
                        let done: u64 = self.transfers[i].done;
                        self.transfers[i].total = done;
                    }
                    self.transfers[i].message = message.to_owned();
                }
                assert(self.transfers@ =~= old(self).transfers@.update(
                    i as int,
                    self.transfers@[i as int],
                ));
            },
            None => {},
        }
        self.status = message.to_owned();
        if ok {
            let target: Option<(String, String)> = match pos {
                Some(i) => match &self.transfers[i].spec {
                    Some(XferSpec::Upload { remote_dir, .. }) => Some(
                        (remote_dir.clone(), self.transfers[i].name.clone()),
                    ),
                    _ => None,
                },
                None => None,
            };
            match target {
                Some((dir, name)) => {
                    let ghost before = self.files.pending_select;
                    let kept: Option<Vec<String>> = match self.files.pending_select.take() {
                        Some((d, names)) => if same(d.as_str(), dir.as_str()) {
                            Some(names)
                        } else {
                            None
                        },
                        None => None,
                    };
                    let names: Vec<String> = match kept {
                        Some(mut names) => {
                            add_name(&mut names, name);
                            names
                        },
                        None => {
                            let mut names: Vec<String> = Vec::new();
                            let ghost first = name@;
                            names.push(name);
                            assert(views(names@) =~= seq![first]);
                            names
                        },
                    };
                    self.files.pending_select = Some((dir, names));
                },
                None => {},
            }
        }
    }

    fn finish_paste(&mut self, id: u64, ok: bool, env: EventEnv)
        ensures
            paste_finished(*old(self), *final(self), id, ok, env),
    {
        match find_paste(&self.pending_paste_image, id) {
            None => {},
            Some(i) => {
                let (_, path) = self.pending_paste_image.remove(i);
                if ok {
                    self.type_pasted_path(path.as_str(), env.windows, env.lang);
                }
            },
        }
    }

    fn on_transfer_done(
        &mut self,
        id: u64,
        ok: bool,
        message: String,
        refresh_dir: Option<String>,
        env: EventEnv,
    ) -> (replies: Vec<Reply>)
        ensures
            transfer_ends(
                *old(self),
                *final(self),
                reply_views(replies@),
                id,
                ok,
                message,
                refresh_dir,
                env,
            ),
    {
        self.list_transfer_end(id, ok, message.as_str(), env.lang);
        let ghost listed = *self;
        self.refresh_dir(refresh_dir);
        let ghost fresh = *self;
        self.finish_paste(id, ok, env);
        let ghost typed = *self;
        let result: Result<(), String> = if ok {
            Ok(())
        } else {
            Err(message)
        };
        let (claimed, reply) = self.try_resolve_file_copy(id, result);
        let replies = one(reply);
        proof {
            assert(transfer_listed(*old(self), listed, id, ok, message@, env.lang));
            assert(refreshed(listed, fresh, refresh_dir));
            assert(paste_finished(fresh, typed, id, ok, env));
            assert(op_resolves(
                typed,
                *self,
                FileOpKind::Copy { op_id: id },
                claimed,
                reply,
                copy_reply(copy_outcome(ok, message)),
            ));
        }
        replies
    }
}

/// As many empty strings.
fn blanks(n: usize) -> (r: Vec<String>)
    ensures
        views(r@) == Seq::new(n as nat, |i: int| Seq::<char>::empty()),
{
    let mut v: Vec<String> = Vec::new();
    let mut i: usize = 0;
    while i < n
        invariant
            i <= n,
            v@.len() == i,
            forall|k: int| 0 <= k < i ==> (#[trigger] v@[k])@ == Seq::<char>::empty(),
        decreases n - i,
    {
        v.push(String::new());
        i = i + 1;
    }
    assert(views(v@) =~= Seq::new(n as nat, |i: int| Seq::<char>::empty()));
    v
}

impl Session {
    /// Takes in the result of a file operation that an agent may wait for.
    fn on_file_result(&mut self, ev: WorkerEvent, env: EventEnv) -> (replies: Vec<Reply>)
        requires
            ev is FileOpened || ev is FileSaved || ev is FileTooLarge || ev is FileSaveFailed
                || ev is FileSaveConflict || ev is FileLoadFailed,
        ensures
            event_ok(*old(self), *final(self), reply_views(replies@), ev, env),
    {
        let mut replies: Vec<Reply> = Vec::new();
        assert(reply_views(replies@) =~= seq![]);
        match ev {
            WorkerEvent::FileOpened { id, path, content, encoding, eol, mtime } => {
                if self.file_read_op_would_resolve(id) {
                    let (_, reply) = self.try_resolve_file_read(id, Ok(content));
                    replies = one(reply);
                } else {
                    self.pending.open.push((id, path, content, encoding, eol, mtime));
                    self.status = tr(env.lang, "已打开文件", "File opened").to_owned();
                }
            },
            WorkerEvent::FileSaved { id, path, mtime } => {
                if self.file_write_op_would_resolve(id) {
                    let (_, reply) = self.try_resolve_file_write(id, Ok(mtime));
                    replies = one(reply);
                } else {
                    self.pending.saved.push((id, path, mtime));
                }
            },
            WorkerEvent::FileTooLarge { id, path, size, message } => {
                if self.file_read_op_would_resolve(id) {
                    let (_, reply) = self.try_resolve_file_read(id, Err(message));
                    replies = one(reply);
                } else {
                    self.pending.too_large.push((id, path, size));
                }
            },
            WorkerEvent::FileSaveFailed { id, path, message } => {
                if self.file_write_op_would_resolve(id) {
                    let (_, reply) = self.try_resolve_file_write(id, Err(message));
                    replies = one(reply);
                } else {
                    self.pending.save_failed.push((id, path, message));
                }
            },
            WorkerEvent::FileSaveConflict { id, path, message } => {
                if self.file_write_op_would_resolve(id) {
                    let (_, reply) = self.try_resolve_file_write(id, Err(message));
                    replies = one(reply);
                } else {
                    self.pending.conflict.push((id, path));
                }
            },
            WorkerEvent::FileLoadFailed { id, message } => {
                if self.file_read_op_would_resolve(id) {
                    let (_, reply) = self.try_resolve_file_read(id, Err(message));
                    replies = one(reply);
                } else {
                    let mut status = tr(env.lang, "打开失败：", "Open failed: ").to_owned();
                    status.append(message.as_str());
                    self.pending.load_fail.push((id, message));
                    self.status = status;
                }
            },
            _ => {},
        }
        replies
    }

    /// Takes in one report of the worker.
    pub fn on_event(&mut self, ev: WorkerEvent, env: EventEnv) -> (replies: Vec<Reply>)
        requires
            env.now <= CLOCK_LIMIT_MS,
            env.cwd_window_ms <= CLOCK_LIMIT_MS,
        ensures
            event_ok(*old(self), *final(self), reply_views(replies@), ev, env),
    {
        let replies: Vec<Reply> = Vec::new();
        assert(reply_views(replies@) =~= seq![]);
        match ev {
            WorkerEvent::Status(s) => {
                if starts_with_char(s.as_str(), '⚠') {
                    self.pending.warn.push(s.clone());
                    assert(views(self.pending.warn@) =~= views(old(self).pending.warn@).push(s@));
                }
                self.status = s;
            },
            WorkerEvent::Connected => {
                self.on_connected(env);
            },
            WorkerEvent::Disconnected(reason) => {
                return self.on_disconnected(reason, env);
            },
            WorkerEvent::MonitorSupport(ok) => {
                self.monitor_ok = Some(ok);
                if !ok {
                    let msg = tr(
                        env.lang,
                        "远端非 Linux 或缺少 /proc，系统监控已禁用",
                        "Remote is not Linux or lacks /proc; system monitor disabled",
                    );
                    self.pending.warn.push(msg.to_owned());
                    assert(views(self.pending.warn@) =~= views(old(self).pending.warn@).push(msg@));
                }
            },
            WorkerEvent::TerminalData { len: _, cwd } => {
                match cwd {
                    Some(c) => {
                        self.last_cwd = c;
                    },
                    None => {},
                }
            },
            WorkerEvent::ShellExited(code) => {
                let reply = self.finish_ai_run_with_exit_code(code);
                return one(reply);
            },
            WorkerEvent::DirListFailed { message } => {
                self.status = message;
            },
            WorkerEvent::ProcDetail { pid, cmd, cwd, exe } => {
                self.proc_detail = Some((pid, cmd, cwd, exe));
            },
            WorkerEvent::ForwardStatus { id, ok, message } => {
                match find_forward(&self.forwards, id) {
                    Some(i) => {
                        self.forwards[i].ok = ok;
                        self.forwards[i].status = message;
                        assert(self.forwards@ =~= old(self).forwards@.update(
                            i as int,
                            self.forwards@[i as int],
                        ));
                    },
                    None => {},
                }
            },
            WorkerEvent::KbdPrompt { name, instructions, prompts } => {
                let answers = blanks(prompts.len());
                self.kbd_prompt = Some(KbdPrompt { name, instructions, prompts, answers });
            },
            WorkerEvent::HostKeyPrompt { host, fingerprint, changed } => {
                self.pending_hostkey = Some((host, fingerprint, changed));
                self.status = tr(env.lang, "等待确认主机指纹 …", "Awaiting host key …").to_owned();
            },
            WorkerEvent::FileSaveProgress { path, done, total } => {
                self.pending.save_progress.push((path, done, total));
            },
            WorkerEvent::FileTail { path, data, offset, truncated } => {
                self.pending.tail.push((path, data, offset, truncated));
            },
            WorkerEvent::PdfInfo { id, pages } => {
                self.pending.pdf_info.push((id, pages));
            },
            WorkerEvent::PdfPage { path, page, data } => {
                self.pending.pdf_page.push((path, page, data));
            },
            WorkerEvent::PdfSearch { path, hits, message } => {
                self.pending.pdf_search.push((path, hits, message));
            },
            WorkerEvent::DocOpened { id, data } => {
                self.pending.doc.push((id, data));
            },
            WorkerEvent::FileLoadProgress { id, done, total } => {
                self.pending.load_progress.push((id, done, total));
            },
            WorkerEvent::ImageOpened { path, data } => {
                self.pending.image.push((path, data));
                self.status = tr(env.lang, "已打开图片", "Image opened").to_owned();
            },
            WorkerEvent::OpDone { message, refresh_dir } => {
                self.status = message;
                self.refresh_dir(refresh_dir);
            },
            WorkerEvent::TransferStart { id, name, total, dir, local } => {
                self.on_transfer_start(id, name, total, dir, local);
            },
            WorkerEvent::TransferProgress { id, done } => {
                match find_transfer(&self.transfers, id) {
                    Some(i) => {
                        self.transfers[i].done = done;
                        assert(self.transfers@ =~= old(self).transfers@.update(
                            i as int,
                            self.transfers@[i as int],
                        ));
                    },
                    None => {},
                }
            },
            WorkerEvent::TransferNote { id, note } => {
                match find_transfer(&self.transfers, id) {
                    Some(i) => {
                        self.transfers[i].note = note;
                        assert(self.transfers@ =~= old(self).transfers@.update(
                            i as int,
                            self.transfers@[i as int],
                        ));
                    },
                    None => {},
                }
            },
            WorkerEvent::TransferDone { id, ok, message, refresh_dir } => {
                return self.on_transfer_done(id, ok, message, refresh_dir, env);
            },
            WorkerEvent::Error(e) => {
                self.status = e;
            },
            other => {
                return self.on_file_result(other, env);
            },
        }
        replies
    }
}

/// How many bytes for the terminal a session takes in within one frame.
pub const TERM_BUDGET: usize = 2_097_152;

/// How many reports a session takes in within one frame.
pub const EVENT_BUDGET: usize = 512;

/// The terminal bytes of a report.
pub open spec fn term_bytes(ev: WorkerEvent) -> nat {
    match ev {
        WorkerEvent::TerminalData { len, .. } => len as nat,
        _ => 0,
    }
}

/// The terminal bytes of some reports.
pub open spec fn term_bytes_all(evs: Seq<WorkerEvent>) -> nat
    decreases evs.len(),
{
    if evs.len() == 0 {
        0
    } else {
        term_bytes_all(evs.drop_last()) + term_bytes(evs.last())
    }
}

/// Whether one more report is taken in after `n` of them.
pub open spec fn within_budget(evs: Seq<WorkerEvent>, n: int) -> bool {
    n < EVENT_BUDGET && term_bytes_all(evs.take(n)) < TERM_BUDGET
}

/// A session that takes in one report after the other, with what is answered to each.
pub open spec fn events_ok(
    states: Seq<Session>,
    rs: Seq<Seq<ReplyView>>,
    evs: Seq<WorkerEvent>,
    env: EventEnv,
) -> bool {
    &&& states.len() == evs.len() + 1
    &&& rs.len() == evs.len()
    &&& forall|n: int|
        0 <= n < evs.len() ==> event_ok(states[n], states[n + 1], #[trigger] rs[n], evs[n], env)
}

/// All answers in order.
pub open spec fn flat(rs: Seq<Seq<ReplyView>>) -> Seq<ReplyView>
    decreases rs.len(),
{
    if rs.len() == 0 {
        Seq::empty()
    } else {
        flat(rs.drop_last()) + rs.last()
    }
}

/// What one frame takes in: the first `n` reports, as far as the budget goes.
pub open spec fn frame_takes(evs: Seq<WorkerEvent>, n: int, backlog: bool) -> bool {
    &&& 0 <= n <= evs.len()
    &&& forall|k: int| 0 <= k < n ==> #[trigger] within_budget(evs, k)
    &&& backlog == !within_budget(evs, n)
    &&& !backlog ==> n == evs.len()
}

/// What one frame does to a session and the reports that wait for it.
pub open spec fn drains(
    before: Session,
    after: Session,
    evs: Seq<WorkerEvent>,
    left: Seq<WorkerEvent>,
    backlog: bool,
    replies: Seq<ReplyView>,
    env: EventEnv,
) -> bool {
    exists|n: int, states: Seq<Session>, rs: Seq<Seq<ReplyView>>|
        {
            &&& #[trigger] frame_takes(evs, n, backlog)
            &&& left == evs.skip(n)
            &&& #[trigger] events_ok(states, rs, evs.take(n), env)
            &&& states[0] == before
            &&& states[n] == after
            &&& replies == flat(rs)
        }
}

impl Session {
    /// Takes in the reports that wait, as far as one frame may; says whether more may wait.
    pub fn drain_events(&mut self, queue: &mut VecDeque<WorkerEvent>, env: EventEnv) -> (r: (
        bool,
        Vec<Reply>,
    ))
        requires
            env.now <= CLOCK_LIMIT_MS,
            env.cwd_window_ms <= CLOCK_LIMIT_MS,
        ensures
            drains(
                *old(self),
                *final(self),
                old(queue)@,
                final(queue)@,
                r.0,
                reply_views(r.1@),
                env,
            ),
    {
        let ghost all = queue@;
        let ghost mut n: int = 0;
        let ghost mut states: Seq<Session> = seq![*self];
        let ghost mut rs: Seq<Seq<ReplyView>> = Seq::empty();
        let mut replies: Vec<Reply> = Vec::new();
        let mut term: usize = TERM_BUDGET;
        let mut left: usize = EVENT_BUDGET;
        proof {
            assert(all.take(0) =~= Seq::empty());
            assert(all.skip(0) =~= all);
            assert(reply_views(replies@) =~= flat(rs));
        }
        loop
            invariant
                env.now <= CLOCK_LIMIT_MS,
                env.cwd_window_ms <= CLOCK_LIMIT_MS,
                0 <= n <= all.len(),
                queue@ == all.skip(n),
                left == EVENT_BUDGET - n,
                n <= EVENT_BUDGET,
                term == (if term_bytes_all(all.take(n)) < TERM_BUDGET {
                    TERM_BUDGET - term_bytes_all(all.take(n))
                } else {
                    0
                }),
                forall|k: int| 0 <= k < n ==> #[trigger] within_budget(all, k),
                events_ok(states, rs, all.take(n), env),
                states[0] == *old(self),
                states[n] == *self,
                reply_views(replies@) == flat(rs),
                all == old(queue)@,
            decreases left,
        {
            if left == 0 || term == 0 {
                assert(frame_takes(all, n, true));
                assert(drains(*old(self), *self, all, queue@, true, reply_views(replies@), env));
                return (true, replies);
            }
            assert(within_budget(all, n));
            let ev = match queue.pop_front() {
                Some(ev) => ev,
                None => {
                    assert(frame_takes(all, n, false));
                    assert(drains(*old(self), *self, all, queue@, false, reply_views(replies@), env));
                    return (false, replies);
                },
            };
            assert(ev == all[n]);
            left = left - 1;
            match &ev {
                WorkerEvent::TerminalData { len, cwd: _ } => {
                    term = if *len < term {
                        term - *len
                    } else {
                        0
                    };
                },
                _ => {},
            }
            let ghost before = *self;
            let mut got = self.on_event(ev, env);
            proof {
                let old_states = states;
                let old_rs = rs;
                let new = reply_views(got@);
                let more = all.take(n + 1);
                states = states.push(*self);
                rs = rs.push(new);
                assert(rs.drop_last() =~= old_rs);
                assert(more.drop_last() =~= all.take(n));
                assert(more.last() == ev);
                assert forall|k: int| 0 <= k < more.len() implies event_ok(
                    states[k],
                    states[k + 1],
                    #[trigger] rs[k],
                    more[k],
                    env,
                ) by {
                    if k < n {
                        assert(rs[k] == old_rs[k]);
                        assert(states[k] == old_states[k] && states[k + 1] == old_states[k + 1]);
                        assert(more[k] == all.take(n)[k]);
                    } else {
                        assert(states[k] == before);
                    }
                }
                assert(all.skip(n).skip(1) =~= all.skip(n + 1));
                assert(queue@ =~= all.skip(n + 1));
                n = n + 1;
            }
            let ghost told = reply_views(replies@);
            let ghost new = reply_views(got@);
            replies.append(&mut got);
            assert(reply_views(replies@) =~= told + new);
        }
    }
}

/// The network card whose rates are recorded: the chosen one where it is there, else all of them
/// together.
pub fn recorded_nic(names: &Vec<String>, chosen: &str) -> (r: Option<usize>)
    ensures
        match r {
            Some(i) => {
                &&& i < names@.len()
                &&& chosen@.len() > 0
                &&& names@[i as int]@ == chosen@
                &&& forall|j: int| 0 <= j < i ==> (#[trigger] names@[j])@ != chosen@
            },
            None => chosen@.len() == 0 || forall|j: int|
                0 <= j < names@.len() ==> (#[trigger] names@[j])@ != chosen@,
        },
{
    if chosen.unicode_len() == 0 {
        return None;
    }
    let mut i: usize = 0;
    while i < names.len()
        invariant
            i <= names@.len(),
            chosen@.len() > 0,
            forall|j: int| 0 <= j < i ==> (#[trigger] names@[j])@ != chosen@,
        decreases names@.len() - i,
    {
        if same(names[i].as_str(), chosen) {
            return Some(i);
        }
        i = i + 1;
    }
    None
}

/// A transfer that a lost connection interrupted is started again once the session is connected,
/// whatever connection that is, and is no longer marked interrupted; one that had succeeded is left
/// alone.
pub proof fn interrupted_transfers_are_resumed(
    before: Session,
    lost: Session,
    replies: Seq<ReplyView>,
    reason: Seq<char>,
    again: Session,
    after: Session,
    env: EventEnv,
    env2: EventEnv,
    i: int,
)
    requires
        disconnects(before, lost, replies, reason, env),
        again.transfers@ == lost.transfers@,
        connects(again, after, env2),
        0 <= i < before.transfers@.len(),
        before.transfers@[i].spec is Some,
    ensures
        before.transfers@[i].ok == Some(true) ==> lost.transfers@[i] == before.transfers@[i],
        before.transfers@[i].ok != Some(true) ==> {
            let t = before.transfers@[i];
            &&& lost.transfers@[i].paused && lost.transfers@[i].ok is None
            &&& !after.transfers@[i].paused
            &&& after.transfers@[i].id == t.id && after.transfers@[i].spec == t.spec
            &&& again.link.takes >= resume_commands(again.transfers@).len() ==> {
                &&& after.link.log().len() >= again.link.log().len()
                &&& after.link.log().skip(again.link.log().len() as int).contains(
                    t.spec->0.command(t.id),
                )
            }
        },
{
    let t = before.transfers@[i];
    assert(transfer_interrupted(t, lost.transfers@[i], env.lang));
    assert(transfer_resumed(again.transfers@[i], after.transfers@[i], env2.lang));
    if t.ok != Some(true) && again.link.takes >= resume_commands(again.transfers@).len() {
        let cmds = resume_commands(again.transfers@);
        let all = cmds + readd_commands(again.forwards@);
        let n = if all.len() <= again.link.takes {
            all.len() as int
        } else {
            again.link.takes as int
        };
        lemma_resume_has(again.transfers@, i);
        let cmd = t.spec->0.command(t.id);
        let j = choose|j: int| 0 <= j < cmds.len() && #[trigger] cmds[j] == cmd;
        let new = after.link.log().skip(again.link.log().len() as int);
        assert(new =~= all.take(n));
        assert(new[j] == cmd);
    }
}

proof fn lemma_resume_has(ts: Seq<Transfer>, i: int)
    requires
        0 <= i < ts.len(),
        ts[i].paused,
        ts[i].spec is Some,
    ensures
        exists|j: int|
            0 <= j < resume_commands(ts).len() && #[trigger] resume_commands(ts)[j]
                == ts[i].spec->0.command(ts[i].id),
    decreases ts.len(),
{
    let fewer = ts.drop_last();
    let all = resume_commands(ts);
    if i < fewer.len() {
        lemma_resume_has(fewer, i);
        let j = choose|j: int|
            0 <= j < resume_commands(fewer).len() && #[trigger] resume_commands(fewer)[j]
                == fewer[i].spec->0.command(fewer[i].id);
        assert(all[j] == ts[i].spec->0.command(ts[i].id));
    } else {
        assert(all[all.len() - 1] == ts[i].spec->0.command(ts[i].id));
    }
}

} // verus!
