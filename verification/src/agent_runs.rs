//! Requests that run a command in a session, wait for it, interrupt it, or read what it printed.
use std::borrow::Cow;

use vstd::prelude::*;
use vstd::string::*;
use vstd::utf8::*;

use crate::agent_calls::{grant, not_found, only_session, refuse, refused, Moment};
use crate::app::{uid_pos, App};
use crate::proto::{CommandView, UiCommand};
use crate::protocol::{answer, refusal, reply_views, Reply, ReqResult, ResultView, Waiter};
use crate::runs::{clamp_timeout, clamped, reply_on_end, PendingAiRun, CLOCK_LIMIT_MS};
use crate::session::Session;
use crate::shell::{command_refusal, validate_run_command, wrap_session_ender, wrapped};
use crate::text::{decimal, push_decimal};

verus! {

pub const NOT_CONNECTED: &'static str = "会话尚未连接（可能在连接/认证中，或已断线），请稍后重试";

pub const RUN_BUSY: &'static str = "该会话已有一条 AI 命令正在执行，请先 poll_run 或等待完成；如果这条命令已经\
                         不需要了，调用 interrupt 可以立即中断并释放（但会丢失那条命令的结果）";

pub const RUN_NOT_SENT: &'static str = "会话的后台连接似乎已经断开，命令未发送，请稍后重试";

pub const MARKER_NOT_SENT: &'static str = "命令可能已经发送执行，但完成标记发送失败、结果未知——请用 read_screen \
                                 或 read_history 核实实际状态，不要盲目重试有副作用的命令";

pub const POLL_BUSY: &'static str = "这条运行已经有一个 poll_run 在等待，请勿并发调用；如果那个等待者\
                                 已经不需要了（比如它本身也超时卡住），调用 interrupt 可以立即释放";

pub const WRONG_RUN: &'static str = "run_id 对不上：该会话上当前是另一条运行（可能仍在执行，或结果待取回）。\
                         从最新上下文核对 run_id；要释放该会话的运行，调用 interrupt";

pub const NO_RUN: &'static str = "run_id 不存在或已结束：结果可能已被之前的 poll_run 取走，或运行被 \
                         interrupt/断线作废。要确认命令最终状态，用 read_screen/read_history 核实";

pub const INTERRUPT_NOT_CONNECTED: &'static str = "会话尚未连接（可能在连接/认证中，或已断线），Ctrl-C 没有发出；\
                         远端命令可能仍在运行，这条运行的状态已保留，可用 poll_run 继续查";

pub const INTERRUPT_NOT_SENT: &'static str = "这个会话的后台连接似乎已经断开，Ctrl-C 没有送达；远端命令可能仍在\
                         运行，这条运行的状态已保留，可用 poll_run 继续查";

pub const INTERRUPTED: &'static str = "命令已被 interrupt 中断";

pub const INPUT_NOT_SENT: &'static str = "这个会话的后台连接似乎已经断开，输入没有送达";

/// Text typed into a terminal.
pub open spec fn typed(text: Seq<char>) -> CommandView {
    CommandView::TerminalInput(encode_utf8(text))
}

fn type_text(text: &str) -> (r: UiCommand)
    ensures
        r@ == typed(text@),
{
    UiCommand::TerminalInput(text.as_bytes_vec())
}

/// What a marker line prints in front of the exit code. It starts with a control character, which
/// the echo of the typed line does not hold.
pub open spec fn marker_prefix(nonce: u64) -> Seq<char> {
    "\u{1e}AI_DONE_"@ + decimal(nonce as nat) + ":"@
}

/// The line that prints the marker and the exit code of the command before it, then erases itself.
pub open spec fn marker_line(nonce: u64) -> Seq<char> {
    "printf '\\x1eAI_DONE_"@ + decimal(nonce as nat) + ":%d\\x1e' $?; printf '\\r\\x1b[K'"@
}

/// Why a command is not run, `None` where it is: the session must exist and be connected, no other
/// run may be pending, the command must be acceptable, and the worker must take it.
pub open spec fn run_refusal(
    app: App,
    uid: u64,
    command: Seq<char>,
    actor: Option<String>,
) -> Option<Seq<char>> {
    match uid_pos(app.sessions@, uid) {
        None => Some(not_found(app.sessions@, uid, actor)),
        Some(i) => {
            let s = app.sessions@[i];
            if !s.connected {
                Some(NOT_CONNECTED@)
            } else if s.pending_ai_run is Some {
                Some(RUN_BUSY@)
            } else if command_refusal(command) is Some {
                command_refusal(command)
            } else if !s.link.is_open() {
                Some(RUN_NOT_SENT@)
            } else {
                None
            }
        },
    }
}

/// The run that a request starts.
pub open spec fn run_started(
    run: Option<PendingAiRun>,
    chan: u64,
    id: u64,
    command: Seq<char>,
    timeout_ms: u64,
    m: Moment,
) -> bool {
    &&& run is Some
    &&& run->0.run_id == m.nonce
    &&& run->0.deadline == m.now + clamped(timeout_ms)
    &&& run->0.last_poll_at == m.now
    &&& run->0.waiter == Some(Waiter { chan, closed: false })
    &&& run->0.req_id == id
    &&& run->0.command@ == wrapped(command)
    &&& run->0.finished_result is None
}

/// What a request to run a command does. Where the shell does not report the end of commands, a
/// marker line follows the command; where only the command got through, the agent is told that
/// its outcome is unknown.
pub open spec fn run_command_ok(
    before: App,
    after: App,
    replies: Seq<Reply>,
    chan: u64,
    id: u64,
    uid: u64,
    command: Seq<char>,
    timeout_ms: u64,
    actor: Option<String>,
    m: Moment,
) -> bool {
    match run_refusal(before, uid, command, actor) {
        Some(msg) => refused(before, after, replies, chan, id, msg),
        None => {
            let i = uid_pos(before.sessions@, uid)->0;
            let s = before.sessions@[i];
            let t = after.sessions@[i];
            let sent = s.link.log().push(typed(wrapped(command) + "\r"@));
            &&& only_session(before, after, i)
            &&& if s.terminal.integration {
                &&& t.link.log() == sent
                &&& t.link.takes == s.link.takes - 1
                &&& t.terminal.armed_integration(s.terminal)
                &&& run_started(t.pending_ai_run, chan, id, command, timeout_ms, m)
                &&& replies.len() == 0
                &&& t == (Session {
                    link: t.link,
                    terminal: t.terminal,
                    pending_ai_run: t.pending_ai_run,
                    ..s
                })
            } else if s.link.takes == 1 {
                &&& t.link.log() == sent
                &&& t.link.takes == 0
                &&& t == (Session { link: t.link, ..s })
                &&& reply_views(replies) == seq![refusal(chan, id, MARKER_NOT_SENT@)]
            } else {
                &&& t.link.log() == sent.push(typed(marker_line(m.nonce) + "\r"@))
                &&& t.link.takes == s.link.takes - 2
                &&& t.terminal.armed_marker(
                    s.terminal,
                    marker_line(m.nonce),
                    marker_prefix(m.nonce),
                )
                &&& run_started(t.pending_ai_run, chan, id, command, timeout_ms, m)
                &&& replies.len() == 0
                &&& t == (Session {
                    link: t.link,
                    terminal: t.terminal,
                    pending_ai_run: t.pending_ai_run,
                    ..s
                })
            }
        },
    }
}

/// What a request to wait for a run does: the one who asks takes the place of one who hung up, but
/// not of one who still waits.
pub open spec fn poll_run_ok(
    before: App,
    after: App,
    replies: Seq<Reply>,
    chan: u64,
    id: u64,
    uid: u64,
    run_id: Option<u64>,
    timeout_ms: u64,
    actor: Option<String>,
    m: Moment,
) -> bool {
    match uid_pos(before.sessions@, uid) {
        None => refused(
            before,
            after,
            replies,
            chan,
            id,
            not_found(before.sessions@, uid, actor),
        ),
        Some(i) => match before.sessions@[i].pending_ai_run {
            None => refused(before, after, replies, chan, id, NO_RUN@),
            Some(p) => if run_id is Some && run_id->0 != p.run_id {
                refused(before, after, replies, chan, id, WRONG_RUN@)
            } else if p.waiter is Some && !p.waiter->0.closed {
                refused(before, after, replies, chan, id, POLL_BUSY@)
            } else {
                &&& only_session(before, after, i)
                &&& after.sessions@[i] == (Session {
                    pending_ai_run: Some(
                        PendingAiRun {
                            deadline: (m.now + clamped(timeout_ms)) as u64,
                            last_poll_at: m.now,
                            waiter: Some(Waiter { chan, closed: false }),
                            req_id: id,
                            ..p
                        },
                    ),
                    ..before.sessions@[i]
                })
                &&& replies.len() == 0
            },
        },
    }
}

/// What a request to interrupt does: a run is given up only where the interrupt got through.
pub open spec fn interrupt_ok(
    before: App,
    after: App,
    replies: Seq<Reply>,
    chan: u64,
    id: u64,
    uid: u64,
    actor: Option<String>,
) -> bool {
    match uid_pos(before.sessions@, uid) {
        None => refused(
            before,
            after,
            replies,
            chan,
            id,
            not_found(before.sessions@, uid, actor),
        ),
        Some(i) => {
            let s = before.sessions@[i];
            let t = after.sessions@[i];
            if !s.connected {
                refused(before, after, replies, chan, id, INTERRUPT_NOT_CONNECTED@)
            } else if !s.link.is_open() {
                refused(before, after, replies, chan, id, INTERRUPT_NOT_SENT@)
            } else {
                &&& only_session(before, after, i)
                &&& t.link.sends(s.link, CommandView::TerminalInput(seq![3u8]))
                &&& t.pending_ai_run is None
                &&& t.terminal.cancelled(s.terminal)
                &&& t == (Session {
                    link: t.link,
                    terminal: t.terminal,
                    pending_ai_run: t.pending_ai_run,
                    ..s
                })
                &&& reply_views(replies) == match reply_on_end(s, INTERRUPTED@, false) {
                    Some(r) => seq![r, answer(chan, id, ResultView::Done)],
                    None => seq![answer(chan, id, ResultView::Done)],
                }
            }
        },
    }
}

/// What a request to type into a session does.
pub open spec fn send_input_ok(
    before: App,
    after: App,
    replies: Seq<Reply>,
    chan: u64,
    id: u64,
    uid: u64,
    text: Seq<char>,
    actor: Option<String>,
) -> bool {
    match uid_pos(before.sessions@, uid) {
        None => refused(
            before,
            after,
            replies,
            chan,
            id,
            not_found(before.sessions@, uid, actor),
        ),
        Some(i) => {
            let s = before.sessions@[i];
            let t = after.sessions@[i];
            if !s.connected {
                refused(before, after, replies, chan, id, NOT_CONNECTED@)
            } else if !s.link.is_open() {
                refused(before, after, replies, chan, id, INPUT_NOT_SENT@)
            } else {
                &&& only_session(before, after, i)
                &&& t.link.sends(s.link, typed(text))
                &&& t == (Session { link: t.link, ..s })
                &&& reply_views(replies) == seq![answer(chan, id, ResultView::Done)]
            }
        },
    }
}

fn plain_text(c: Cow<'_, str>) -> (r: String)
    ensures
        r@ == c@,
{
    match c {
        Cow::Borrowed(b) => b.to_owned(),
        Cow::Owned(o) => o,
    }
}

impl App {
    /// Runs a command in a session.
    pub fn run_command(
        &mut self,
        chan: u64,
        id: u64,
        uid: u64,
        command: &str,
        timeout_ms: u64,
        actor: &Option<String>,
        m: Moment,
    ) -> (replies: Vec<Reply>)
        requires
            m.now <= CLOCK_LIMIT_MS,
        ensures
            run_command_ok(
                *old(self),
                *final(self),
                replies@,
                chan,
                id,
                uid,
                command@,
                timeout_ms,
                *actor,
                m,
            ),
    {
        let i: usize = match self.session_idx_by_uid(uid) {
            Some(i) => i,
            None => {
                return refuse(chan, id, self.session_not_found_msg(uid, actor));
            },
        };
        if !self.sessions[i].connected {
            return refuse(chan, id, NOT_CONNECTED.to_owned());
        }
        if self.sessions[i].pending_ai_run.is_some() {
            return refuse(chan, id, RUN_BUSY.to_owned());
        }
        match validate_run_command(command) {
            Ok(()) => {},
            Err(msg) => {
                return refuse(chan, id, msg);
            },
        }
        if self.sessions[i].link.takes == 0 {
            return refuse(chan, id, RUN_NOT_SENT.to_owned());
        }
        let sent_command = plain_text(wrap_session_ender(command));
        let mut line = sent_command.clone();
        line.append("\r");
        let _ = self.sessions[i].link.send(type_text(line.as_str()));
        if self.sessions[i].terminal.integration {
            self.sessions[i].terminal.arm_ai_capture_integration();
        } else {
            let mut prefix = "\u{1e}AI_DONE_".to_owned();
            push_decimal(&mut prefix, m.nonce);
            prefix.append(":");
            let mut marker = "printf '\\x1eAI_DONE_".to_owned();
            push_decimal(&mut marker, m.nonce);
            marker.append(":%d\\x1e' $?; printf '\\r\\x1b[K'");
            let mut entered = marker.clone();
            entered.append("\r");
            if !self.sessions[i].link.send(type_text(entered.as_str())) {
                assert(self.sessions@ =~= old(self).sessions@.update(
                    i as int,
                    self.sessions@[i as int],
                ));
                return refuse(chan, id, MARKER_NOT_SENT.to_owned());
            }
            self.sessions[i].terminal.arm_ai_capture(marker, prefix);
        }
        self.sessions[i].pending_ai_run = Some(
            PendingAiRun {
                run_id: m.nonce,
                deadline: m.now + clamp_timeout(timeout_ms),
                last_poll_at: m.now,
                waiter: Some(Waiter { chan, closed: false }),
                req_id: id,
                command: sent_command,
                finished_result: None,
            },
        );
        assert(self.sessions@ =~= old(self).sessions@.update(i as int, self.sessions@[i as int]));
        Vec::new()
    }

    /// Waits for a run.
    pub fn poll_run(
        &mut self,
        chan: u64,
        id: u64,
        uid: u64,
        run_id: Option<u64>,
        timeout_ms: u64,
        actor: &Option<String>,
        m: Moment,
    ) -> (replies: Vec<Reply>)
        requires
            m.now <= CLOCK_LIMIT_MS,
        ensures
            poll_run_ok(
                *old(self),
                *final(self),
                replies@,
                chan,
                id,
                uid,
                run_id,
                timeout_ms,
                *actor,
                m,
            ),
    {
        let i: usize = match self.session_idx_by_uid(uid) {
            Some(i) => i,
            None => {
                return refuse(chan, id, self.session_not_found_msg(uid, actor));
            },
        };
        match &self.sessions[i].pending_ai_run {
            None => {
                return refuse(chan, id, NO_RUN.to_owned());
            },
            Some(p) => {
                match run_id {
                    Some(r) => {
                        if r != p.run_id {
                            return refuse(chan, id, WRONG_RUN.to_owned());
                        }
                    },
                    None => {},
                }
                match p.waiter {
                    Some(w) => {
                        if !w.closed {
                            return refuse(chan, id, POLL_BUSY.to_owned());
                        }
                    },
                    None => {},
                }
            },
        }
        match &mut self.sessions[i].pending_ai_run {
            Some(p) => {
                p.deadline = m.now + clamp_timeout(timeout_ms);
                p.last_poll_at = m.now;
                p.waiter = Some(Waiter { chan, closed: false });
                p.req_id = id;
            },
            None => {},
        }
        assert(self.sessions@ =~= old(self).sessions@.update(i as int, self.sessions@[i as int]));
        Vec::new()
    }

    /// Interrupts what runs in a session and gives its run up, so that the next can start.
    pub fn interrupt(&mut self, chan: u64, id: u64, uid: u64, actor: &Option<String>) -> (replies:
        Vec<Reply>)
        ensures
            interrupt_ok(*old(self), *final(self), replies@, chan, id, uid, *actor),
    {
        let i: usize = match self.session_idx_by_uid(uid) {
            Some(i) => i,
            None => {
                return refuse(chan, id, self.session_not_found_msg(uid, actor));
            },
        };
        if !self.sessions[i].connected {
            return refuse(chan, id, INTERRUPT_NOT_CONNECTED.to_owned());
        }
        if self.sessions[i].link.takes == 0 {
            return refuse(chan, id, INTERRUPT_NOT_SENT.to_owned());
        }
        let mut key: Vec<u8> = Vec::new();
        key.push(3);
        assert(key@ =~= seq![3u8]);
        let _ = self.sessions[i].link.send(UiCommand::TerminalInput(key));
        let ended = self.sessions[i].discard_pending_ai_run(INTERRUPTED);
        assert(self.sessions@ =~= old(self).sessions@.update(i as int, self.sessions@[i as int]));
        let mut replies: Vec<Reply> = Vec::new();
        match ended {
            Some(r) => {
                replies.push(r);
            },
            None => {},
        }
        replies.push(Reply { chan, id, result: Ok(ReqResult::Done) });
        proof {
            let s = old(self).sessions@[i as int];
            match reply_on_end(s, INTERRUPTED@, false) {
                Some(r) => {
                    assert(reply_views(replies@) =~= seq![r, answer(chan, id, ResultView::Done)]);
                },
                None => {
                    assert(reply_views(replies@) =~= seq![answer(chan, id, ResultView::Done)]);
                },
            }
        }
        replies
    }

    /// Types text into a session.
    pub fn send_input(
        &mut self,
        chan: u64,
        id: u64,
        uid: u64,
        text: &str,
        actor: &Option<String>,
    ) -> (replies: Vec<Reply>)
        ensures
            send_input_ok(*old(self), *final(self), replies@, chan, id, uid, text@, *actor),
    {
        let i: usize = match self.session_idx_by_uid(uid) {
            Some(i) => i,
            None => {
                return refuse(chan, id, self.session_not_found_msg(uid, actor));
            },
        };
        if !self.sessions[i].connected {
            return refuse(chan, id, NOT_CONNECTED.to_owned());
        }
        if self.sessions[i].link.takes == 0 {
            return refuse(chan, id, INPUT_NOT_SENT.to_owned());
        }
        let _ = self.sessions[i].link.send(type_text(text));
        assert(self.sessions@ =~= old(self).sessions@.update(i as int, self.sessions@[i as int]));
        grant(chan, id, ReqResult::Done)
    }
}

/// An interrupt that got through always frees the session for the next command.
pub proof fn interrupt_frees_the_session(
    before: App,
    after: App,
    replies: Seq<Reply>,
    chan: u64,
    id: u64,
    uid: u64,
    actor: Option<String>,
)
    requires
        interrupt_ok(before, after, replies, chan, id, uid, actor),
        uid_pos(before.sessions@, uid) is Some,
        before.sessions@[uid_pos(before.sessions@, uid)->0].connected,
        before.sessions@[uid_pos(before.sessions@, uid)->0].link.is_open(),
    ensures
        after.sessions@[uid_pos(before.sessions@, uid)->0].pending_ai_run is None,
        reply_views(replies).last() == answer(chan, id, ResultView::Done),
{
}

/// A session runs one command at a time: while a run is pending, no request starts another.
pub proof fn one_run_at_a_time(app: App, uid: u64, command: Seq<char>, actor: Option<String>)
    requires
        uid_pos(app.sessions@, uid) is Some,
        app.sessions@[uid_pos(app.sessions@, uid)->0].pending_ai_run is Some,
    ensures
        run_refusal(app, uid, command, actor) is Some,
{
}

} // verus!
