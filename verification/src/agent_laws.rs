//! What holds of every request of an agent, whatever it asks for.
use vstd::prelude::*;

use crate::agent_calls::{
    call_ok, first_out_of_reach, gate_passes_only_own_sessions, may_reach, only_session, request_ok,
    session_is_mine, McpCall, Moment,
};
use crate::agent_frame::{calls_ok, is_on, session_waits, waits_for};
use crate::app::{lemma_uid_pos, uid_pos, App};
use crate::file_ops::MAX_CONCURRENT_FILE_OPS;
use crate::proto::CommandView;
use crate::protocol::{reply_views, Reply, ReqKind};
use crate::saved::SavedConnection;
use crate::session::Session;

verus! {

/// An agent that passed the guard owns every session that it names.
proof fn lemma_named_is_mine(ss: Seq<Session>, uids: Seq<u64>, actor: Option<String>, k: int)
    requires
        first_out_of_reach(ss, uids, actor) is None,
        0 <= k < uids.len(),
    ensures
        match uid_pos(ss, uids[k]) {
            Some(j) => 0 <= j < ss.len() && session_is_mine(ss[j], actor),
            None => true,
        },
{
    gate_passes_only_own_sessions(ss, uids, actor);
    assert(may_reach(ss, uids[k], actor));
    lemma_uid_pos(ss, uids[k]);
}

proof fn lemma_kept_elsewhere(before: App, after: App, i: int, j: int)
    requires
        only_session(before, after, j),
        0 <= i < before.sessions@.len(),
        i != j,
    ensures
        after.sessions@.contains(before.sessions@[i]),
{
    assert(after.sessions@[i] == before.sessions@[i]);
}

/// An agent changes no session but those that it opened itself: whatever it asks for, every session
/// of the user and of any other agent is there afterwards as it was before.
pub proof fn an_agent_changes_only_its_own_sessions(
    before: App,
    after: App,
    replies: Seq<Reply>,
    call: McpCall,
    saved: Seq<SavedConnection>,
    m: Moment,
    i: int,
)
    requires
        call_ok(before, after, replies, call, saved, m),
        0 <= i < before.sessions@.len(),
        !session_is_mine(before.sessions@[i], call.req.actor),
    ensures
        after.sessions@.contains(before.sessions@[i]),
{
    let ss = before.sessions@;
    let s = ss[i];
    let uids = call.req.kind.targets();
    assert(ss.contains(s));
    if m.consent && first_out_of_reach(ss, uids, call.req.actor) is None {
        assert(request_ok(before, after, replies, call, saved, m));
        match call.req.kind {
            ReqKind::OpenSession { .. } => {
                if after.sessions@.len() > ss.len() {
                    assert(after.sessions@.drop_last()[i] == s);
                    assert(after.sessions@[i] == s);
                }
            },
            ReqKind::CloseSession { session_uid } => {
                lemma_named_is_mine(ss, uids, call.req.actor, 0);
                match uid_pos(ss, session_uid) {
                    Some(j) => {
                        if after.sessions@ != ss {
                            let at = if i < j {
                                i
                            } else {
                                i - 1
                            };
                            assert(ss.remove(j)[at] == s);
                        }
                    },
                    None => {},
                }
            },
            ReqKind::CopyBetweenSessions { src_session_uid, dest_session_uid, .. } => {
                lemma_named_is_mine(ss, uids, call.req.actor, 0);
                lemma_named_is_mine(ss, uids, call.req.actor, 1);
                if after != before {
                    assert(after.sessions@[i] == s);
                }
            },
            _ => {
                if uids.len() > 0 && after != before {
                    lemma_named_is_mine(ss, uids, call.req.actor, 0);
                    let j = uid_pos(ss, uids[0])->0;
                    lemma_kept_elsewhere(before, after, i, j);
                }
            },
        }
    }
}

/// However many requests come in a frame, the sessions that the user opened are left alone.
pub proof fn the_users_sessions_are_left_alone(
    states: Seq<App>,
    rs: Seq<Seq<Reply>>,
    calls: Seq<(McpCall, Moment)>,
    saved: Seq<SavedConnection>,
    s: Session,
    k: int,
)
    requires
        calls_ok(states, rs, calls, saved),
        states[0].sessions@.contains(s),
        !s.ai_owned,
        0 <= k <= calls.len(),
    ensures
        states[k].sessions@.contains(s),
    decreases k,
{
    if k > 0 {
        the_users_sessions_are_left_alone(states, rs, calls, saved, s, k - 1);
        let ss = states[k - 1].sessions@;
        let i = choose|i: int| 0 <= i < ss.len() && ss[i] == s;
        let call = calls[k - 1].0;
        assert(!session_is_mine(ss[i], call.req.actor));
        assert(call_ok(states[k - 1], states[k], rs[k - 1], call, saved, calls[k - 1].1));
        an_agent_changes_only_its_own_sessions(
            states[k - 1],
            states[k],
            rs[k - 1],
            call,
            saved,
            calls[k - 1].1,
            i,
        );
    }
}

/// No session is ever given more file operations at a time than it may hold.
pub open spec fn ops_bounded(app: App) -> bool {
    forall|i: int|
        0 <= i < app.sessions@.len() ==> (#[trigger] app.sessions@[i]).pending_file_ops@.len()
            <= MAX_CONCURRENT_FILE_OPS
}

/// Requests never give a session more file operations at a time than it may hold.
pub proof fn file_operations_stay_bounded(
    before: App,
    after: App,
    replies: Seq<Reply>,
    call: McpCall,
    saved: Seq<SavedConnection>,
    m: Moment,
)
    requires
        call_ok(before, after, replies, call, saved, m),
        ops_bounded(before),
    ensures
        ops_bounded(after),
{
    let ss = before.sessions@;
    let uids = call.req.kind.targets();
    if m.consent && first_out_of_reach(ss, uids, call.req.actor) is None && after != before {
        assert(request_ok(before, after, replies, call, saved, m));
        if uids.len() > 0 {
            lemma_uid_pos(ss, uids[0]);
        }
        if uids.len() > 1 {
            lemma_uid_pos(ss, uids[1]);
        }
        assert forall|i: int| 0 <= i < after.sessions@.len() implies (
        #[trigger] after.sessions@[i]).pending_file_ops@.len() <= MAX_CONCURRENT_FILE_OPS by {
            match call.req.kind {
                ReqKind::OpenSession { .. } => {
                    if after.sessions@.len() > ss.len() && i < ss.len() {
                        assert(after.sessions@.drop_last()[i] == ss[i]);
                    }
                },
                ReqKind::CloseSession { session_uid } => {
                    let j = uid_pos(ss, session_uid)->0;
                    if i < j {
                        assert(after.sessions@[i] == ss[i]);
                    } else {
                        assert(after.sessions@[i] == ss[i + 1]);
                    }
                },
                ReqKind::CopyBetweenSessions { src_session_uid, dest_session_uid, .. } => {
                    let a = uid_pos(ss, src_session_uid)->0;
                    let b = uid_pos(ss, dest_session_uid)->0;
                    assert(ss[a].pending_file_ops@.len() < MAX_CONCURRENT_FILE_OPS);
                    assert(ss[b].pending_file_ops@.len() < MAX_CONCURRENT_FILE_OPS);
                    if i != a && i != b {
                        assert(after.sessions@[i] == ss[i]);
                    }
                },
                _ => {
                    if uids.len() > 0 {
                        let j = uid_pos(ss, uids[0])->0;
                        assert(only_session(before, after, j));
                        assert(ss[i].pending_file_ops@.len() <= MAX_CONCURRENT_FILE_OPS);
                        if i != j {
                            assert(after.sessions@[i] == ss[i]);
                        }
                    }
                },
            }
        }
    }
}

/// One of these replies goes to connection `chan`.
pub open spec fn answers(replies: Seq<Reply>, chan: u64) -> bool {
    exists|k: int| 0 <= k < replies.len() && (#[trigger] replies[k]).chan == chan
}

/// A worker was told to send the bytes of a file to connection `chan`.
pub open spec fn told_to_stream(before: App, after: App, chan: u64) -> bool {
    exists|i: int, cmd: CommandView|
        {
            &&& 0 <= i < before.sessions@.len()
            &&& cmd is DownloadToMcp
            &&& cmd->sink == chan
            &&& #[trigger] after.sessions@[i].link.sends(before.sessions@[i].link, cmd)
        }
}

proof fn lemma_last_answers(replies: Seq<Reply>, chan: u64)
    requires
        reply_views(replies).len() > 0,
        reply_views(replies).last().chan == chan,
    ensures
        answers(replies, chan),
{
    let k = reply_views(replies).len() - 1;
    assert(reply_views(replies)[k] == replies[k]@);
    assert(replies[k].chan == chan);
}

/// No request is forgotten: it is answered at once, or somebody waits for it on its connection, or
/// it asks for the bytes of a file and its worker was told to send them there.
pub proof fn no_request_is_forgotten(
    before: App,
    after: App,
    replies: Seq<Reply>,
    call: McpCall,
    saved: Seq<SavedConnection>,
    m: Moment,
)
    requires
        call_ok(before, after, replies, call, saved, m),
    ensures
        answers(replies, call.chan) || waits_for(after, call.chan) || told_to_stream(
            before,
            after,
            call.chan,
        ),
{
    let ss = before.sessions@;
    let chan = call.chan;
    let uids = call.req.kind.targets();
    if reply_views(replies).len() > 0 && reply_views(replies).last().chan == chan {
        lemma_last_answers(replies, chan);
    } else {
        assert(m.consent && first_out_of_reach(ss, uids, call.req.actor) is None);
        assert(request_ok(before, after, replies, call, saved, m));
        if uids.len() > 0 {
            lemma_uid_pos(ss, uids[0]);
        }
        match call.req.kind {
            ReqKind::RunCommand { session_uid, .. } => {
                let i = uid_pos(ss, session_uid)->0;
                assert(session_waits(after.sessions@[i], chan));
            },
            ReqKind::PollRun { session_uid, .. } => {
                let i = uid_pos(ss, session_uid)->0;
                assert(session_waits(after.sessions@[i], chan));
            },
            ReqKind::WriteFile { session_uid, .. } => {
                lemma_op_waits(before, after, session_uid, chan);
            },
            ReqKind::ReadFile { session_uid, .. } => {
                lemma_op_waits(before, after, session_uid, chan);
            },
            ReqKind::CopyToRemote { session_uid, .. } => {
                lemma_op_waits(before, after, session_uid, chan);
            },
            ReqKind::CopyToRemoteFromCaller { session_uid, .. } => {
                lemma_op_waits(before, after, session_uid, chan);
            },
            ReqKind::CopyFromRemoteToCaller { session_uid, remote_path, .. } => {
                let i = uid_pos(ss, session_uid)->0;
                let cmd = CommandView::DownloadToMcp {
                    id: m.nonce,
                    remote_path: remote_path@,
                    sink: chan,
                };
                assert(after.sessions@[i].link.sends(ss[i].link, cmd));
            },
            ReqKind::CopyBetweenSessions { .. } => {
                let n = after.cross_copy_jobs@.len() - 1;
                assert(is_on(after.cross_copy_jobs@[n].waiter, chan));
            },
            _ => {},
        }
    }
}

proof fn lemma_op_waits(before: App, after: App, uid: u64, chan: u64)
    requires
        uid_pos(before.sessions@, uid) is Some,
        ({
            let i = uid_pos(before.sessions@, uid)->0;
            let ops = after.sessions@[i].pending_file_ops@;
            &&& only_session(before, after, i)
            &&& ops.len() > 0
            &&& is_on(ops.last().waiter, chan)
        }),
    ensures
        waits_for(after, chan),
{
    let i = uid_pos(before.sessions@, uid)->0;
    let ops = after.sessions@[i].pending_file_ops@;
    assert(is_on(ops[ops.len() - 1].waiter, chan));
    assert(session_waits(after.sessions@[i], chan));
}

} // verus!
