//! Commands that an agent runs in a session: how long one is waited for, how it ends, and what the
//! agent is told of its output.
use vstd::prelude::*;
use vstd::string::*;
use vstd::utf8::*;

use crate::protocol::{answer, refusal, reply_view, Reply, ReplyView, ReqResult, ResultView, Waiter};
use crate::session::Session;
use crate::shell::{byte_slice, slice, trim_leading_echo, without_echo};
use crate::terminal::Terminal;
use crate::text::{trim_end, trim_end_of, CharClass};

verus! {

/// The longest a request is waited for, in milliseconds: 24 hours.
pub const MAX_TIMEOUT_MS: u64 = 86_400_000;

/// The shortest a request is waited for, in milliseconds.
pub const MIN_TIMEOUT_MS: u64 = 100;

/// The latest moment that the clock of the library can show, in milliseconds: deadlines behind it
/// can still be told.
pub const CLOCK_LIMIT_MS: u64 = 0x4000_0000_0000_0000;

/// How long a run has to be silent and alone until it is given up, in milliseconds.
pub const RECLAIM_IDLE: u64 = 600_000;

/// The most bytes of output that one reply carries.
pub const MAX_RUN_OUTPUT_BYTES: usize = 200_000;

/// How long a run that was reported unfinished is left alone, in milliseconds.
pub const AFTER_TIMEOUT_MS: u64 = 3_600_000;

/// A requested timeout, brought between the shortest and the longest one.
pub open spec fn clamped(timeout_ms: u64) -> u64 {
    if timeout_ms < MIN_TIMEOUT_MS {
        MIN_TIMEOUT_MS
    } else if timeout_ms > MAX_TIMEOUT_MS {
        MAX_TIMEOUT_MS
    } else {
        timeout_ms
    }
}

/// Brings a requested timeout, in milliseconds, between 100 ms and 24 hours.
pub fn clamp_timeout(timeout_ms: u64) -> (r: u64)
    ensures
        r == clamped(timeout_ms),
        MIN_TIMEOUT_MS <= r <= MAX_TIMEOUT_MS,
{
    if timeout_ms < MIN_TIMEOUT_MS {
        MIN_TIMEOUT_MS
    } else if timeout_ms > MAX_TIMEOUT_MS {
        MAX_TIMEOUT_MS
    } else {
        timeout_ms
    }
}

/// Whether a run was given up by everyone: nobody waits for it, nothing was printed for long, and
/// nobody asked for it for long.
pub fn run_is_abandoned(
    since_last_poll: u64,
    terminal_output_idle: bool,
    has_live_waiter: bool,
) -> (r: bool)
    ensures
        r == (!has_live_waiter && terminal_output_idle && since_last_poll >= RECLAIM_IDLE),
{
    !has_live_waiter && terminal_output_idle && since_last_poll >= RECLAIM_IDLE
}

/// The first character boundary of a string at or behind byte `i`.
pub open spec fn boundary_from(bytes: Seq<u8>, i: int) -> int
    decreases bytes.len() - i,
{
    if i >= bytes.len() || is_char_boundary(bytes, i) {
        i
    } else {
        boundary_from(bytes, i + 1)
    }
}

/// What an agent is told first where output was cut.
pub const OUTPUT_CUT: &'static str = "[输出过长，已截断保留末尾部分]\n";

/// Output as an agent gets it: all of it up to the limit, else its last part behind a notice.
pub open spec fn capped(output: Seq<char>) -> Seq<char> {
    let bytes = encode_utf8(output);
    if bytes.len() <= MAX_RUN_OUTPUT_BYTES {
        output
    } else {
        OUTPUT_CUT@ + byte_slice(
            output,
            boundary_from(bytes, bytes.len() - MAX_RUN_OUTPUT_BYTES),
            bytes.len() as int,
        )
    }
}

/// Cuts output to its last part where it is too long for one reply.
pub fn cap_output_for_ai(output: String) -> (r: String)
    ensures
        r@ == capped(output@),
{
    let text = output.as_str();
    let n: usize = text.as_bytes().len();
    if n <= MAX_RUN_OUTPUT_BYTES {
        return output;
    }
    let ghost bytes = encode_utf8(output@);
    proof {
        encode_utf8_valid_utf8(output@);
        is_char_boundary_start_end_of_seq(bytes);
    }
    let mut start: usize = n - MAX_RUN_OUTPUT_BYTES;
    while !text.is_char_boundary(start)
        invariant
            start <= n,
            n == bytes.len(),
            n > MAX_RUN_OUTPUT_BYTES,
            text@ == output@,
            bytes == encode_utf8(output@),
            valid_utf8(bytes),
            is_char_boundary(bytes, n as int),
            boundary_from(bytes, n - MAX_RUN_OUTPUT_BYTES) == boundary_from(bytes, start as int),
        decreases n - start,
    {
        start = start + 1;
    }
    let mut r = OUTPUT_CUT.to_owned();
    r.append(slice(text, start, n));
    r
}

/// A command that an agent started and that has not been reported finished.
pub struct PendingAiRun {
    pub run_id: u64,
    /// When the one who waits is told that it is not finished yet, in milliseconds.
    pub deadline: u64,
    /// When somebody last asked for it, in milliseconds.
    pub last_poll_at: u64,
    /// Who waits for it.
    pub waiter: Option<Waiter>,
    /// The request of the one who waits.
    pub req_id: u64,
    /// The command as it was typed.
    pub command: String,
    /// Exit code and output, once it is finished.
    pub finished_result: Option<(i32, String)>,
}

pub const RUN_ENDED: &'static str = "，这条运行已失效、无法再 poll_run。执行到哪一步、\
                         是否已产生副作用都无法确认。已知的部分输出（仅供参考，不保证完整）：\
                         ";

/// What was printed, without white space at its end and with one line break behind it.
pub open spec fn shown_output(captured: Option<String>) -> Seq<char> {
    let text = match captured {
        Some(t) => trim_end_of(t@, CharClass::White),
        None => Seq::empty(),
    };
    if text.len() == 0 {
        text
    } else {
        text + "\n"@
    }
}

/// What one who waits for a run is told when it is given up.
pub open spec fn run_ended(reason: Seq<char>, captured: Option<String>) -> Seq<char> {
    reason + RUN_ENDED@ + shown_output(captured)
}

/// What the terminal captured of a command, as an agent gets it.
pub open spec fn run_output(captured: Option<String>, command: Seq<char>) -> Seq<char> {
    let text = match captured {
        Some(t) => t@,
        None => Seq::empty(),
    };
    capped(without_echo(text, command))
}

/// The report on a run.
pub open spec fn run_report(
    chan: u64,
    req_id: u64,
    run_id: u64,
    output: Seq<char>,
    code: Option<i32>,
) -> ReplyView {
    answer(chan, req_id, ResultView::Run { run_id, finished: code is Some, output, exit_code: code })
}

fn report(chan: u64, req_id: u64, run_id: u64, output: String, code: Option<i32>) -> (r: Reply)
    ensures
        r@ == run_report(chan, req_id, run_id, output@, code),
{
    let finished: bool = code.is_some();
    Reply {
        chan,
        id: req_id,
        result: Ok(ReqResult::Run { run_id, finished, output, exit_code: code }),
    }
}

fn captured_text(t: &Terminal) -> (r: String)
    ensures
        r@ == (match t.captured {
            Some(x) => x@,
            None => Seq::empty(),
        }),
{
    match &t.captured {
        Some(x) => x.clone(),
        None => String::new(),
    }
}

/// What becomes of a run when it is given up: a finished one can be kept.
pub open spec fn run_after_end(run: Option<PendingAiRun>, keep_finished: bool) -> Option<
    PendingAiRun,
> {
    match run {
        Some(p) => if keep_finished && p.finished_result is Some {
            run
        } else {
            None
        },
        None => None,
    }
}

/// Whom giving up a run is reported to.
pub open spec fn reply_on_end(s: Session, reason: Seq<char>, keep_finished: bool) -> Option<
    ReplyView,
> {
    match s.pending_ai_run {
        Some(p) => match p.waiter {
            Some(w) => if keep_finished && p.finished_result is Some {
                None
            } else {
                Some(refusal(w.chan, p.req_id, run_ended(reason, s.terminal.captured)))
            },
            None => None,
        },
        None => None,
    }
}

/// What a shell that exits with a code makes of a run.
pub open spec fn exit_settles(before: Session, after: Session, reply: Option<Reply>, code: i32) -> bool {
    match before.pending_ai_run {
        Some(p) => {
            let output = run_output(before.terminal.captured, p.command@);
            &&& after.terminal.cancelled(before.terminal)
            &&& after == (Session {
                pending_ai_run: after.pending_ai_run,
                terminal: after.terminal,
                ..before
            })
            &&& match p.waiter {
                Some(w) => {
                    &&& after.pending_ai_run is None
                    &&& reply_view(reply) == Some(
                        run_report(w.chan, p.req_id, p.run_id, output, Some(code)),
                    )
                },
                None => {
                    &&& reply is None
                    &&& after.pending_ai_run is Some
                    &&& after.pending_ai_run->0 == (PendingAiRun {
                        finished_result: after.pending_ai_run->0.finished_result,
                        ..p
                    })
                    &&& after.pending_ai_run->0.finished_result is Some
                    &&& (after.pending_ai_run->0.finished_result->0).0 == code
                    &&& (after.pending_ai_run->0.finished_result->0).1@ == output
                },
            }
        },
        None => after == before && reply is None,
    }
}

impl Session {
    /// Gives the run up because nothing more will come of it, keeping a result that is there.
    pub fn cancel_pending_ai_run(&mut self, reason: &str) -> (reply: Option<Reply>)
        ensures
            final(self).pending_ai_run == run_after_end(old(self).pending_ai_run, true),
            reply_view(reply) == reply_on_end(*old(self), reason@, true),
            final(self).terminal.cancelled(old(self).terminal),
            *final(self) == (Session {
                pending_ai_run: final(self).pending_ai_run,
                terminal: final(self).terminal,
                ..*old(self)
            }),
    {
        self.end_pending_ai_run(reason, true)
    }

    /// Gives the run up together with a result that is there, so that the next one can start.
    pub fn discard_pending_ai_run(&mut self, reason: &str) -> (reply: Option<Reply>)
        ensures
            final(self).pending_ai_run is None,
            reply_view(reply) == reply_on_end(*old(self), reason@, false),
            final(self).terminal.cancelled(old(self).terminal),
            *final(self) == (Session {
                pending_ai_run: final(self).pending_ai_run,
                terminal: final(self).terminal,
                ..*old(self)
            }),
    {
        self.end_pending_ai_run(reason, false)
    }

    fn end_pending_ai_run(&mut self, reason: &str, keep_finished: bool) -> (reply: Option<Reply>)
        ensures
            final(self).pending_ai_run == run_after_end(old(self).pending_ai_run, keep_finished),
            reply_view(reply) == reply_on_end(*old(self), reason@, keep_finished),
            final(self).terminal.cancelled(old(self).terminal),
            *final(self) == (Session {
                pending_ai_run: final(self).pending_ai_run,
                terminal: final(self).terminal,
                ..*old(self)
            }),
    {
        let mut reply: Option<Reply> = None;
        match self.pending_ai_run.take() {
            Some(p) => {
                if keep_finished && p.finished_result.is_some() {
                    self.pending_ai_run = Some(p);
                } else {
                    match p.waiter {
                        Some(w) => {
                            let output = captured_text(&self.terminal);
                            let text = trim_end(output.as_str(), CharClass::White);
                            let mut msg = reason.to_owned();
                            msg.append(RUN_ENDED);
                            let mut shown = text.to_owned();
                            if !text.is_empty() {
                                shown.append("\n");
                            }
                            assert(trim_end_of(Seq::<char>::empty(), CharClass::White)
                                =~= Seq::<char>::empty());
                            msg.append(shown.as_str());
                            reply = Some(Reply { chan: w.chan, id: p.req_id, result: Err(msg) });
                        },
                        None => {},
                    }
                }
            },
            None => {},
        }
        self.terminal.cancel_ai_capture();
        reply
    }

    /// Ends the run with the exit code of the shell, which has just died: the one who waits is told
    /// at once, else the result is kept for the next one who asks.
    pub fn finish_ai_run_with_exit_code(&mut self, code: i32) -> (reply: Option<Reply>)
        ensures
            exit_settles(*old(self), *final(self), reply, code),
    {
        match self.pending_ai_run.take() {
            Some(p) => {
                let mut p = p;
                let text = captured_text(&self.terminal);
                let output = cap_output_for_ai(
                    trim_leading_echo(text.as_str(), p.command.as_str()),
                );
                self.terminal.cancel_ai_capture();
                match p.waiter {
                    Some(w) => Some(report(w.chan, p.req_id, p.run_id, output, Some(code))),
                    None => {
                        p.finished_result = Some((code, output));
                        self.pending_ai_run = Some(p);
                        None
                    },
                }
            },
            None => None,
        }
    }
}

/// A finished run's result with its output as characters.
pub open spec fn outcome_view(r: Option<(i32, String)>) -> Option<(i32, Seq<char>)> {
    match r {
        Some((code, output)) => Some((code, output@)),
        None => None,
    }
}

/// Whether the run of a session was given up by everyone.
pub open spec fn run_abandoned(s: Session, now: u64) -> bool {
    match s.pending_ai_run {
        Some(p) => {
            &&& p.finished_result is None
            &&& !(p.waiter is Some && !p.waiter->0.closed)
            &&& s.terminal.output_idle_ms >= RECLAIM_IDLE
            &&& now - p.last_poll_at >= RECLAIM_IDLE
        },
        None => false,
    }
}

/// The result of a run: what is kept of it, else what the terminal has just completed.
pub open spec fn run_outcome(p: PendingAiRun, done: Option<(i32, String)>) -> Option<
    (i32, Seq<char>),
> {
    if p.finished_result is Some {
        outcome_view(p.finished_result)
    } else {
        match done {
            Some((code, output)) => Some((code, capped(without_echo(output@, p.command@)))),
            None => None,
        }
    }
}

pub const RUN_RECLAIMED: &'static str = "运行长时间无输出、也无人续等，已自动回收（完成信号很可能被命令或前台程序\
                     当作输入吃掉——交互式命令常见）：会话闸门已释放，可以发新命令。这条运行的\
                     退出码已不可恢复，即使命令后来跑完了也拿不回来；要确认它的实际状态用 \
                     read_screen/read_history。长时间静默但确实在跑的命令（如 sleep/等待型任务）\
                     请用 poll_run 续等，轮询本身就会阻止回收";

/// What one frame at `now` makes of a session's run: an abandoned run is dropped; a finished one is
/// reported to whoever waits, and kept while nobody does; one that is past its deadline is reported
/// unfinished and runs on.
pub open spec fn run_settles(before: Session, after: Session, reply: Option<Reply>, now: u64) -> bool {
    let unchanged_but_run = after == (Session {
        pending_ai_run: after.pending_ai_run,
        terminal: after.terminal,
        ..before
    });
    match before.pending_ai_run {
        None => after == before && reply is None,
        Some(p) => if run_abandoned(before, now) {
            &&& unchanged_but_run
            &&& after.pending_ai_run is None
            &&& after.terminal.cancelled(before.terminal)
            &&& reply_view(reply) == reply_on_end(before, RUN_RECLAIMED@, false)
        } else {
            &&& unchanged_but_run
            &&& after.terminal == (Terminal {
                done: if p.finished_result is None {
                    None
                } else {
                    before.terminal.done
                },
                ..before.terminal
            })
            &&& match run_outcome(p, before.terminal.done) {
                Some((code, output)) => match p.waiter {
                    Some(w) => {
                        &&& after.pending_ai_run is None
                        &&& reply_view(reply) == Some(
                            run_report(w.chan, p.req_id, p.run_id, output, Some(code)),
                        )
                    },
                    None => {
                        &&& reply is None
                        &&& after.pending_ai_run is Some
                        &&& after.pending_ai_run->0 == (PendingAiRun {
                            finished_result: after.pending_ai_run->0.finished_result,
                            ..p
                        })
                        &&& outcome_view(after.pending_ai_run->0.finished_result) == Some(
                            (code, output),
                        )
                    },
                },
                None => if now >= p.deadline {
                    &&& after.pending_ai_run == Some(
                        PendingAiRun {
                            waiter: None,
                            deadline: (now + AFTER_TIMEOUT_MS) as u64,
                            ..p
                        },
                    )
                    &&& reply_view(reply) == match p.waiter {
                        Some(w) => Some(
                            run_report(
                                w.chan,
                                p.req_id,
                                p.run_id,
                                run_output(before.terminal.captured, p.command@),
                                None,
                            ),
                        ),
                        None => None,
                    }
                } else {
                    after.pending_ai_run == before.pending_ai_run && reply is None
                },
            }
        },
    }
}

impl Session {
    /// Looks after the session's run once per frame.
    pub fn settle_run(&mut self, now: u64) -> (reply: Option<Reply>)
        requires
            now <= CLOCK_LIMIT_MS,
        ensures
            run_settles(*old(self), *final(self), reply, now),
    {
        let abandoned: bool = match &self.pending_ai_run {
            Some(p) => {
                let since: u64 = if now >= p.last_poll_at {
                    now - p.last_poll_at
                } else {
                    0
                };
                let live: bool = match p.waiter {
                    Some(w) => !w.closed,
                    None => false,
                };
                p.finished_result.is_none() && run_is_abandoned(
                    since,
                    self.terminal.output_idle_ms >= RECLAIM_IDLE,
                    live,
                )
            },
            None => false,
        };
        if abandoned {
            return self.discard_pending_ai_run(RUN_RECLAIMED);
        }
        let mut p = match self.pending_ai_run.take() {
            Some(p) => p,
            None => {
                return None;
            },
        };
        if p.finished_result.is_none() {
            match self.terminal.done.take() {
                Some((code, output)) => {
                    let text = trim_leading_echo(output.as_str(), p.command.as_str());
                    p.finished_result = Some((code, cap_output_for_ai(text)));
                },
                None => {},
            }
        }
        match p.finished_result.take() {
            Some((code, output)) => match p.waiter {
                Some(w) => Some(report(w.chan, p.req_id, p.run_id, output, Some(code))),
                None => {
                    p.finished_result = Some((code, output));
                    self.pending_ai_run = Some(p);
                    None
                },
            },
            None => {
                let mut reply: Option<Reply> = None;
                if now >= p.deadline {
                    let text = captured_text(&self.terminal);
                    let output = cap_output_for_ai(
                        trim_leading_echo(text.as_str(), p.command.as_str()),
                    );
                    match p.waiter {
                        Some(w) => {
                            reply = Some(report(w.chan, p.req_id, p.run_id, output, None));
                        },
                        None => {},
                    }
                    p.waiter = None;
                    p.deadline = now + AFTER_TIMEOUT_MS;
                }
                self.pending_ai_run = Some(p);
                reply
            },
        }
    }
}

proof fn lemma_boundary_near(bytes: Seq<u8>, i: int) -> (b: int)
    requires
        valid_utf8(bytes),
        0 <= i <= bytes.len(),
    ensures
        i <= b <= i + 3,
        b <= bytes.len(),
        is_char_boundary(bytes, b),
    decreases bytes.len(),
{
    reveal_with_fuel(is_char_boundary, 2);
    if i == 0 {
        0
    } else {
        let n = length_of_first_scalar(bytes);
        if i <= n {
            assert(is_char_boundary(pop_first_scalar(bytes), 0));
            n
        } else {
            let b = lemma_boundary_near(pop_first_scalar(bytes), i - n);
            b + n
        }
    }
}

proof fn lemma_boundary_from(bytes: Seq<u8>, i: int, b: int)
    requires
        0 <= i <= b <= bytes.len(),
        is_char_boundary(bytes, b),
    ensures
        i <= boundary_from(bytes, i) <= b,
        boundary_from(bytes, i) < bytes.len() ==> is_char_boundary(bytes, boundary_from(bytes, i)),
    decreases bytes.len() - i,
{
    if i < bytes.len() && !is_char_boundary(bytes, i) {
        lemma_boundary_from(bytes, i + 1, b);
    }
}

/// Output that is too long loses its start, not its end: what is kept is a suffix of it, at most
/// the limit and at most three bytes less than that.
pub proof fn capped_output_keeps_the_end(output: Seq<char>)
    requires
        encode_utf8(output).len() > MAX_RUN_OUTPUT_BYTES,
    ensures
        exists|start: int|
            {
                let bytes = encode_utf8(output);
                &&& 0 <= start <= bytes.len()
                &&& MAX_RUN_OUTPUT_BYTES - 3 <= bytes.len() - start <= MAX_RUN_OUTPUT_BYTES
                &&& output == #[trigger] byte_slice(output, 0, start) + byte_slice(
                    output,
                    start,
                    bytes.len() as int,
                )
                &&& capped(output) == OUTPUT_CUT@ + byte_slice(output, start, bytes.len() as int)
            },
{
    let bytes = encode_utf8(output);
    encode_utf8_valid_utf8(output);
    encode_utf8_decode_utf8(output);
    is_char_boundary_start_end_of_seq(bytes);
    let from = bytes.len() - MAX_RUN_OUTPUT_BYTES;
    let near = lemma_boundary_near(bytes, from);
    lemma_boundary_from(bytes, from, near);
    let start = boundary_from(bytes, from);
    decode_utf8_split(bytes, start);
    assert(output == byte_slice(output, 0, start) + byte_slice(output, start, bytes.len() as int));
}

} // verus!
