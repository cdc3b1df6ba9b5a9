//! What is looked after once per frame on behalf of the agents: the requests that came in, the runs
//! and questions that are due, and when the next of them will be.
use vstd::prelude::*;
use vstd::string::*;

use crate::agent_calls::{call_ok, McpCall, Moment};
use crate::app::App;
use crate::file_ops::ops_time_out;
use crate::protocol::{refusal, reply_views, Reply, ReplyView, Waiter};
use crate::runs::{run_settles, CLOCK_LIMIT_MS, RECLAIM_IDLE};
use crate::saved::SavedConnection;
use crate::session::Session;

verus! {

pub const OPEN_TIMED_OUT: &'static str = "等待用户确认超时（5 分钟），已自动拒绝：请让用户切回 iShell 点击\
                             确认弹窗，或直接重新调用 open_session 再次发起确认请求";

pub const BIND_TIMED_OUT: &'static str = "等待用户选择 iShell 窗口超时（5 分钟）：用户同时开着多个 iShell，\
                         需要他在想让你操作的那个窗口上点「允许」。请让用户切回 iShell 处理\
                         后重试";

/// The replies of the sessions, in order.
pub open spec fn given(rs: Seq<Option<Reply>>) -> Seq<ReplyView>
    decreases rs.len(),
{
    if rs.len() == 0 {
        Seq::empty()
    } else {
        let rest = given(rs.drop_last());
        match rs.last() {
            Some(r) => rest.push(r@),
            None => rest,
        }
    }
}

/// The sessions after their runs were looked after at `now`, each with its reply.
pub open spec fn runs_settle(
    before: Seq<Session>,
    after: Seq<Session>,
    rs: Seq<Option<Reply>>,
    now: u64,
) -> bool {
    &&& after.len() == before.len()
    &&& rs.len() == before.len()
    &&& forall|i: int|
        0 <= i < before.len() ==> run_settles(
            before[i],
            #[trigger] after[i],
            rs[i],
            now,
        )
}

/// The reply to one whose question to the user came too late to be answered.
pub open spec fn open_expiry(app: App, now: u64) -> Seq<ReplyView> {
    match app.pending_open_consent {
        Some(p) => if now >= p.deadline && p.waiter is Some {
            seq![refusal(p.waiter->0.chan, p.req_id, OPEN_TIMED_OUT@)]
        } else {
            seq![]
        },
        None => seq![],
    }
}

/// The reply to one whom the user did not bind in time. One who hung up gets none: another window
/// was chosen.
pub open spec fn bind_expiry(app: App, now: u64) -> Seq<ReplyView> {
    match app.pending_bind_consent {
        Some(p) => if !p.waiter.closed && now >= p.deadline {
            seq![refusal(p.waiter.chan, p.req_id, BIND_TIMED_OUT@)]
        } else {
            seq![]
        },
        None => seq![],
    }
}

/// Whether the question to open a connection is withdrawn at `now`.
pub open spec fn open_withdrawn(app: App, now: u64) -> bool {
    app.pending_open_consent is Some && now >= app.pending_open_consent->0.deadline
}

/// Whether the question to bind an agent is withdrawn at `now`.
pub open spec fn bind_withdrawn(app: App, now: u64) -> bool {
    app.pending_bind_consent is Some && (app.pending_bind_consent->0.waiter.closed || now
        >= app.pending_bind_consent->0.deadline)
}

/// What one frame at `now` makes of the runs and the questions.
pub open spec fn frame_settles(before: App, after: App, replies: Seq<ReplyView>, now: u64) -> bool {
    &&& exists|rs: Seq<Option<Reply>>|
        #[trigger] runs_settle(before.sessions@, after.sessions@, rs, now) && replies == given(rs)
            + open_expiry(before, now) + bind_expiry(before, now)
    &&& after == (App {
        sessions: after.sessions,
        pending_open_consent: if open_withdrawn(before, now) {
            None
        } else {
            before.pending_open_consent
        },
        pending_bind_consent: if bind_withdrawn(before, now) {
            None
        } else {
            before.pending_bind_consent
        },
        ..before
    })
}

/// What the requests of a frame do, one after the other: the states between them and the replies
/// of each.
pub open spec fn calls_ok(
    states: Seq<App>,
    rs: Seq<Seq<Reply>>,
    calls: Seq<(McpCall, Moment)>,
    saved: Seq<SavedConnection>,
) -> bool {
    &&& states.len() == calls.len() + 1
    &&& rs.len() == calls.len()
    &&& forall|k: int|
        0 <= k < calls.len() ==> call_ok(
            states[k],
            states[k + 1],
            #[trigger] rs[k],
            calls[k].0,
            saved,
            calls[k].1,
        )
}

/// The replies of all requests, in order.
pub open spec fn all_replies(rs: Seq<Seq<Reply>>) -> Seq<ReplyView>
    decreases rs.len(),
{
    if rs.len() == 0 {
        Seq::empty()
    } else {
        all_replies(rs.drop_last()) + reply_views(rs.last())
    }
}

fn add_all(to: &mut Vec<Reply>, from: &mut Vec<Reply>)
    ensures
        final(to)@ == old(to)@ + old(from)@,
        final(from)@.len() == 0,
        reply_views(final(to)@) == reply_views(old(to)@) + reply_views(old(from)@),
{
    to.append(from);
    assert(reply_views(to@) =~= reply_views(old(to)@) + reply_views(old(from)@));
}

impl App {
    /// Looks after the runs and the questions once per frame.
    pub fn settle_frame(&mut self, now: u64) -> (replies: Vec<Reply>)
        requires
            now <= CLOCK_LIMIT_MS,
        ensures
            frame_settles(*old(self), *final(self), reply_views(replies@), now),
            old(self).wf() ==> final(self).wf(),
    {
        let ghost ss = self.sessions@;
        let ghost mut rs: Seq<Option<Reply>> = Seq::empty();
        let mut replies: Vec<Reply> = Vec::new();
        let mut i: usize = 0;
        assert(reply_views(replies@) =~= given(rs));
        while i < self.sessions.len()
            invariant
                now <= CLOCK_LIMIT_MS,
                ss == old(self).sessions@,
                self.sessions@.len() == ss.len(),
                i <= ss.len(),
                rs.len() == i,
                *self == (App { sessions: self.sessions, ..*old(self) }),
                forall|k: int|
                    0 <= k < i ==> run_settles(ss[k], #[trigger] self.sessions@[k], rs[k], now),
                forall|k: int| i <= k < ss.len() ==> #[trigger] self.sessions@[k] == ss[k],
                reply_views(replies@) == given(rs),
            decreases ss.len() - i,
        {
            let ghost held = self.sessions@;
            let r = self.sessions[i].settle_run(now);
            let ghost before = rs;
            proof {
                rs = rs.push(r);
                assert(rs.drop_last() =~= before);
                assert forall|k: int| 0 <= k < i + 1 implies run_settles(
                    ss[k],
                    #[trigger] self.sessions@[k],
                    rs[k],
                    now,
                ) by {
                    if k < i {
                        assert(self.sessions@[k] == held[k]);
                        assert(rs[k] == before[k]);
                    }
                }
            }
            let ghost told = reply_views(replies@);
            match r {
                Some(x) => {
                    replies.push(x);
                    assert(reply_views(replies@) =~= told.push(x@));
                },
                None => {},
            }
            i = i + 1;
        }
        proof {
            assert(runs_settle(ss, self.sessions@, rs, now));
        }
        let ghost told = reply_views(replies@);
        let open_due: bool = match &self.pending_open_consent {
            Some(p) => now >= p.deadline,
            None => false,
        };
        if open_due {
            match self.pending_open_consent.take() {
                Some(p) => match p.waiter {
                    Some(w) => {
                        replies.push(
                            Reply {
                                chan: w.chan,
                                id: p.req_id,
                                result: Err(OPEN_TIMED_OUT.to_owned()),
                            },
                        );
                    },
                    None => {},
                },
                None => {},
            }
        }
        assert(reply_views(replies@) =~= told + open_expiry(*old(self), now));
        let ghost told2 = reply_views(replies@);
        let mut drop_bind: bool = false;
        match &self.pending_bind_consent {
            Some(p) => {
                if p.waiter.closed {
                    drop_bind = true;
                } else if now >= p.deadline {
                    drop_bind = true;
                    replies.push(
                        Reply {
                            chan: p.waiter.chan,
                            id: p.req_id,
                            result: Err(BIND_TIMED_OUT.to_owned()),
                        },
                    );
                }
            },
            None => {},
        }
        if drop_bind {
            self.pending_bind_consent = None;
        }
        assert(reply_views(replies@) =~= told2 + bind_expiry(*old(self), now));
        proof {
            assert(runs_settle(old(self).sessions@, self.sessions@, rs, now));
            if old(self).wf() {
                assert forall|a: int, b: int| 0 <= a < b < self.sessions@.len() implies (
                #[trigger] self.sessions@[a]).uid != (#[trigger] self.sessions@[b]).uid by {
                    assert(self.sessions@[a].uid == ss[a].uid);
                    assert(self.sessions@[b].uid == ss[b].uid);
                }
                assert forall|a: int| 0 <= a < self.sessions@.len() implies (
                #[trigger] self.sessions@[a]).uid <= self.next_uid by {
                    assert(self.sessions@[a].uid == ss[a].uid);
                }
            }
        }
        replies
    }

    /// Handles the requests that came in, each with its moment, then looks after the runs and the
    /// questions.
    pub fn drain_mcp_calls(
        &mut self,
        calls: Vec<(McpCall, Moment)>,
        saved: &Vec<SavedConnection>,
        now: u64,
    ) -> (replies: Vec<Reply>)
        requires
            old(self).wf(),
            old(self).next_uid + calls@.len() <= u64::MAX,
            now <= CLOCK_LIMIT_MS,
            forall|k: int| 0 <= k < calls@.len() ==> (#[trigger] calls@[k]).1.now <= CLOCK_LIMIT_MS,
        ensures
            final(self).wf(),
            exists|states: Seq<App>, rs: Seq<Seq<Reply>>, last: Seq<ReplyView>|
                {
                    &&& #[trigger] calls_ok(states, rs, calls@, saved@)
                    &&& states[0] == *old(self)
                    &&& #[trigger] frame_settles(states.last(), *final(self), last, now)
                    &&& reply_views(replies@) == all_replies(rs) + last
                },
    {
        let ghost all = calls@;
        let mut calls = calls;
        let ghost mut states: Seq<App> = seq![*self];
        let ghost mut rs: Seq<Seq<Reply>> = Seq::empty();
        let ghost mut k: int = 0;
        let mut replies: Vec<Reply> = Vec::new();
        assert(all.skip(0) =~= all);
        assert(reply_views(replies@) =~= all_replies(rs));
        while calls.len() > 0
            invariant
                0 <= k <= all.len(),
                calls@ == all.skip(k),
                self.wf(),
                self.next_uid + (all.len() - k) <= u64::MAX,
                forall|n: int| 0 <= n < all.len() ==> (#[trigger] all[n]).1.now <= CLOCK_LIMIT_MS,
                states.len() == k + 1,
                rs.len() == k,
                states[0] == *old(self),
                states[k] == *self,
                forall|n: int|
                    0 <= n < k ==> call_ok(
                        states[n],
                        states[n + 1],
                        #[trigger] rs[n],
                        all[n].0,
                        saved@,
                        all[n].1,
                    ),
                reply_views(replies@) == all_replies(rs),
            decreases all.len() - k,
        {
            assert(calls@[0] == all[k]);
            let ghost before = *self;
            let (call, m) = calls.remove(0);
            let mut got = self.handle_mcp_call(call, saved, m);
            let ghost new = got@;
            proof {
                let old_states = states;
                let old_rs = rs;
                states = states.push(*self);
                rs = rs.push(new);
                assert(rs.drop_last() =~= old_rs);
                assert forall|n: int| 0 <= n < k + 1 implies call_ok(
                    states[n],
                    states[n + 1],
                    #[trigger] rs[n],
                    all[n].0,
                    saved@,
                    all[n].1,
                ) by {
                    if n < k {
                        assert(rs[n] == old_rs[n]);
                        assert(states[n] == old_states[n] && states[n + 1] == old_states[n + 1]);
                    } else {
                        assert(states[n] == before);
                    }
                }
                assert(all.skip(k).remove(0) =~= all.skip(k + 1));
                k = k + 1;
            }
            add_all(&mut replies, &mut got);
        }
        assert(k == all.len());
        let ghost mid = *self;
        let mut tail = self.settle_frame(now);
        let ghost last = reply_views(tail@);
        add_all(&mut replies, &mut tail);
        proof {
            assert(calls_ok(states, rs, all, saved@));
            assert(states.last() == mid);
            assert(frame_settles(states.last(), *self, last, now));
        }
        replies
    }
}

/// The sessions after the file operations that are due were given up, each with its replies.
pub open spec fn all_ops_time_out(
    before: Seq<Session>,
    after: Seq<Session>,
    rs: Seq<Seq<Reply>>,
    now: u64,
) -> bool {
    &&& after.len() == before.len()
    &&& rs.len() == before.len()
    &&& forall|i: int|
        0 <= i < before.len() ==> ops_time_out(before[i], #[trigger] after[i], rs[i], now)
}

impl App {
    /// Gives up the file operations that are due in every session. It comes after the reports of
    /// the workers were taken in, so that a result of the same frame still counts.
    pub fn check_file_op_timeouts(&mut self, now: u64) -> (replies: Vec<Reply>)
        ensures
            exists|rs: Seq<Seq<Reply>>| #[trigger]
                all_ops_time_out(old(self).sessions@, final(self).sessions@, rs, now) && reply_views(
                    replies@,
                ) == all_replies(rs),
            *final(self) == (App { sessions: final(self).sessions, ..*old(self) }),
            old(self).wf() ==> final(self).wf(),
    {
        let ghost ss = self.sessions@;
        let ghost mut rs: Seq<Seq<Reply>> = Seq::empty();
        let mut replies: Vec<Reply> = Vec::new();
        let mut i: usize = 0;
        assert(reply_views(replies@) =~= all_replies(rs));
        while i < self.sessions.len()
            invariant
                ss == old(self).sessions@,
                self.sessions@.len() == ss.len(),
                i <= ss.len(),
                rs.len() == i,
                *self == (App { sessions: self.sessions, ..*old(self) }),
                forall|k: int|
                    0 <= k < i ==> ops_time_out(ss[k], #[trigger] self.sessions@[k], rs[k], now),
                forall|k: int| i <= k < ss.len() ==> #[trigger] self.sessions@[k] == ss[k],
                reply_views(replies@) == all_replies(rs),
            decreases ss.len() - i,
        {
            let ghost held = self.sessions@;
            let mut got = self.sessions[i].expire_file_ops(now);
            let ghost before = rs;
            proof {
                rs = rs.push(got@);
                assert(rs.drop_last() =~= before);
                assert forall|k: int| 0 <= k < i + 1 implies ops_time_out(
                    ss[k],
                    #[trigger] self.sessions@[k],
                    rs[k],
                    now,
                ) by {
                    if k < i {
                        assert(self.sessions@[k] == held[k]);
                        assert(rs[k] == before[k]);
                    }
                }
            }
            add_all(&mut replies, &mut got);
            i = i + 1;
        }
        proof {
            assert(all_ops_time_out(ss, self.sessions@, rs, now));
            if old(self).wf() {
                assert forall|a: int, b: int| 0 <= a < b < self.sessions@.len() implies (
                #[trigger] self.sessions@[a]).uid != (#[trigger] self.sessions@[b]).uid by {
                    assert(self.sessions@[a].uid == ss[a].uid);
                    assert(self.sessions@[b].uid == ss[b].uid);
                }
                assert forall|a: int| 0 <= a < self.sessions@.len() implies (
                #[trigger] self.sessions@[a]).uid <= self.next_uid by {
                    assert(self.sessions@[a].uid == ss[a].uid);
                }
            }
        }
        replies
    }
}

/// Something that the program has to wake up for at `t`.
pub open spec fn is_deadline(app: App, t: int) -> bool {
    ||| app.pending_open_consent is Some && app.pending_open_consent->0.deadline == t
    ||| app.pending_bind_consent is Some && app.pending_bind_consent->0.deadline == t
    ||| exists|i: int|
        0 <= i < app.sessions@.len() && session_deadline(#[trigger] app.sessions@[i], t)
    ||| exists|i: int|
        0 <= i < app.cross_copy_jobs@.len() && ((#[trigger] app.cross_copy_jobs@[i]).deadline == t
            || app.cross_copy_jobs@[i].phase_deadline == t)
}

/// Something in a session that the program has to wake up for at `t`: the patience of one who waits
/// for a run, the moment that the run is given up, a file operation, or the end of the wish to
/// return to a directory.
pub open spec fn session_deadline(s: Session, t: int) -> bool {
    ||| s.pending_ai_run is Some && (s.pending_ai_run->0.deadline == t
        || s.pending_ai_run->0.last_poll_at + RECLAIM_IDLE == t)
    ||| exists|k: int|
        0 <= k < s.pending_file_ops@.len() && (#[trigger] s.pending_file_ops@[k]).deadline == t
    ||| s.restore_cwd_until is Some && s.restore_cwd_until->0 == t
}

fn earlier(a: Option<u64>, b: u64) -> (r: Option<u64>)
    ensures
        r == (if a is Some && a->0 <= b {
            a
        } else {
            Some(b)
        }),
{
    match a {
        Some(x) => if x <= b {
            Some(x)
        } else {
            Some(b)
        },
        None => Some(b),
    }
}

fn session_next(s: &Session) -> (r: Option<u64>)
    requires
        s.pending_ai_run is Some ==> s.pending_ai_run->0.last_poll_at <= CLOCK_LIMIT_MS,
    ensures
        match r {
            None => forall|t: int| !session_deadline(*s, t),
            Some(d) => session_deadline(*s, d as int) && forall|t: int|
                session_deadline(*s, t) ==> d <= t,
        },
{
    let mut r: Option<u64> = None;
    match &s.pending_ai_run {
        Some(p) => {
            r = earlier(r, p.deadline);
            r = earlier(r, p.last_poll_at + RECLAIM_IDLE);
        },
        None => {},
    }
    match s.restore_cwd_until {
        Some(t) => {
            r = earlier(r, t);
        },
        None => {},
    }
    let mut k: usize = 0;
    while k < s.pending_file_ops.len()
        invariant
            k <= s.pending_file_ops@.len(),
            r is Some ==> session_deadline(*s, r->0 as int),
            s.pending_ai_run is Some ==> r is Some && r->0 <= s.pending_ai_run->0.deadline && r->0
                <= s.pending_ai_run->0.last_poll_at + RECLAIM_IDLE,
            s.restore_cwd_until is Some ==> r is Some && r->0 <= s.restore_cwd_until->0,
            forall|n: int|
                0 <= n < k ==> r is Some && r->0 <= (#[trigger] s.pending_file_ops@[n]).deadline,
        decreases s.pending_file_ops@.len() - k,
    {
        assert(session_deadline(*s, s.pending_file_ops@[k as int].deadline as int));
        r = earlier(r, s.pending_file_ops[k].deadline);
        k = k + 1;
    }
    r
}

impl App {
    /// How long the program can sleep until something is due, in milliseconds: `None` where nothing
    /// ever is.
    pub fn arm_timeout_repaint(&self, now: u64) -> (r: Option<u64>)
        requires
            forall|i: int|
                0 <= i < self.sessions@.len() && (#[trigger] self.sessions@[i]).pending_ai_run is Some
                    ==> self.sessions@[i].pending_ai_run->0.last_poll_at <= CLOCK_LIMIT_MS,
        ensures
            match r {
                None => forall|t: int| !is_deadline(*self, t),
                Some(d) => exists|t: int| #[trigger]
                    is_deadline(*self, t) && d == (if t > now {
                        t - now
                    } else {
                        0
                    }) && forall|u: int| is_deadline(*self, u) ==> t <= u,
            },
    {
        let mut next: Option<u64> = None;
        match &self.pending_open_consent {
            Some(p) => {
                next = earlier(next, p.deadline);
            },
            None => {},
        }
        match &self.pending_bind_consent {
            Some(p) => {
                next = earlier(next, p.deadline);
            },
            None => {},
        }
        let mut i: usize = 0;
        while i < self.sessions.len()
            invariant
                i <= self.sessions@.len(),
                forall|n: int|
                    0 <= n < self.sessions@.len() && (
                    #[trigger] self.sessions@[n]).pending_ai_run is Some
                        ==> self.sessions@[n].pending_ai_run->0.last_poll_at <= CLOCK_LIMIT_MS,
                next is Some ==> is_deadline(*self, next->0 as int),
                self.pending_open_consent is Some ==> next is Some && next->0
                    <= self.pending_open_consent->0.deadline,
                self.pending_bind_consent is Some ==> next is Some && next->0
                    <= self.pending_bind_consent->0.deadline,
                forall|n: int, t: int|
                    0 <= n < i && #[trigger] session_deadline(self.sessions@[n], t) ==> next is Some
                        && next->0 <= t,
            decreases self.sessions@.len() - i,
        {
            let d = session_next(&self.sessions[i]);
            match d {
                Some(t) => {
                    assert(session_deadline(self.sessions@[i as int], t as int));
                    assert(is_deadline(*self, t as int));
                    next = earlier(next, t);
                },
                None => {},
            }
            i = i + 1;
        }
        let mut k: usize = 0;
        while k < self.cross_copy_jobs.len()
            invariant
                k <= self.cross_copy_jobs@.len(),
                next is Some ==> is_deadline(*self, next->0 as int),
                self.pending_open_consent is Some ==> next is Some && next->0
                    <= self.pending_open_consent->0.deadline,
                self.pending_bind_consent is Some ==> next is Some && next->0
                    <= self.pending_bind_consent->0.deadline,
                forall|n: int, t: int|
                    0 <= n < self.sessions@.len() && #[trigger] session_deadline(
                        self.sessions@[n],
                        t,
                    ) ==> next is Some && next->0 <= t,
                forall|n: int|
                    0 <= n < k ==> next is Some && next->0 <= (
                    #[trigger] self.cross_copy_jobs@[n]).deadline && next->0
                        <= self.cross_copy_jobs@[n].phase_deadline,
            decreases self.cross_copy_jobs@.len() - k,
        {
            assert(is_deadline(*self, self.cross_copy_jobs@[k as int].deadline as int));
            assert(is_deadline(*self, self.cross_copy_jobs@[k as int].phase_deadline as int));
            next = earlier(next, self.cross_copy_jobs[k].deadline);
            next = earlier(next, self.cross_copy_jobs[k].phase_deadline);
            k = k + 1;
        }
        match next {
            Some(t) => {
                assert(is_deadline(*self, t as int));
                Some(
                    if t > now {
                        t - now
                    } else {
                        0
                    },
                )
            },
            None => None,
        }
    }
}

/// One who waits on connection `chan`.
pub open spec fn is_on(w: Option<Waiter>, chan: u64) -> bool {
    w is Some && w->0.chan == chan
}

/// Whether somebody waits in a session on connection `chan`.
pub open spec fn session_waits(s: Session, chan: u64) -> bool {
    ||| s.pending_ai_run is Some && is_on(s.pending_ai_run->0.waiter, chan)
    ||| exists|k: int|
        0 <= k < s.pending_file_ops@.len() && is_on((#[trigger] s.pending_file_ops@[k]).waiter, chan)
}

/// Whether a reply on connection `chan` is still due.
pub open spec fn waits_for(app: App, chan: u64) -> bool {
    ||| exists|i: int|
        0 <= i < app.sessions@.len() && session_waits(#[trigger] app.sessions@[i], chan)
    ||| exists|j: int|
        0 <= j < app.cross_copy_jobs@.len() && is_on(
            (#[trigger] app.cross_copy_jobs@[j]).waiter,
            chan,
        )
    ||| app.pending_open_consent is Some && is_on(app.pending_open_consent->0.waiter, chan)
    ||| app.pending_bind_consent is Some && app.pending_bind_consent->0.waiter.chan == chan
}

fn on(w: &Option<Waiter>, chan: u64) -> (r: bool)
    ensures
        r == is_on(*w, chan),
{
    match w {
        Some(w) => w.chan == chan,
        None => false,
    }
}

fn waits_in(s: &Session, chan: u64) -> (r: bool)
    ensures
        r == session_waits(*s, chan),
{
    match &s.pending_ai_run {
        Some(p) => {
            if on(&p.waiter, chan) {
                return true;
            }
        },
        None => {},
    }
    let mut k: usize = 0;
    while k < s.pending_file_ops.len()
        invariant
            k <= s.pending_file_ops@.len(),
            forall|j: int|
                0 <= j < k ==> !is_on((#[trigger] s.pending_file_ops@[j]).waiter, chan),
        decreases s.pending_file_ops@.len() - k,
    {
        if on(&s.pending_file_ops[k].waiter, chan) {
            return true;
        }
        k = k + 1;
    }
    false
}

impl App {
    /// Whether a reply on connection `chan` is still due. A connection on which none is due can be
    /// told that its request was dropped.
    pub fn is_waited_for(&self, chan: u64) -> (r: bool)
        ensures
            r == waits_for(*self, chan),
    {
        let mut i: usize = 0;
        while i < self.sessions.len()
            invariant
                i <= self.sessions@.len(),
                forall|k: int| 0 <= k < i ==> !session_waits(#[trigger] self.sessions@[k], chan),
            decreases self.sessions@.len() - i,
        {
            if waits_in(&self.sessions[i], chan) {
                return true;
            }
            i = i + 1;
        }
        let mut j: usize = 0;
        while j < self.cross_copy_jobs.len()
            invariant
                j <= self.cross_copy_jobs@.len(),
                forall|k: int|
                    0 <= k < j ==> !is_on((#[trigger] self.cross_copy_jobs@[k]).waiter, chan),
            decreases self.cross_copy_jobs@.len() - j,
        {
            if on(&self.cross_copy_jobs[j].waiter, chan) {
                return true;
            }
            j = j + 1;
        }
        let asked: bool = match &self.pending_open_consent {
            Some(p) => on(&p.waiter, chan),
            None => false,
        };
        let chosen: bool = match &self.pending_bind_consent {
            Some(p) => p.waiter.chan == chan,
            None => false,
        };
        asked || chosen
    }
}

} // verus!
