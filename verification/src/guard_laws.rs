//! What an agent learns, and what it is kept from, told by the sessions themselves.
use vstd::prelude::*;
use vstd::string::*;

use crate::agent_calls::{
    call_ok, first_out_of_reach, gate_passes_only_own_sessions, info_of, own_infos, session_is_mine,
    McpCall, Moment,
};
use crate::agent_open::saved_infos;
use crate::app::App;
use crate::handshake::{ticket_refusal, Instance};
use crate::protocol::{info_views, reply_views, saved_views, Reply, ReqKind, SessionInfo};
use crate::request_laws::{lemma_stands, opened_by, stands_at};
use crate::path_laws::{a_path_that_climbs_is_refused, a_plain_path_is_accepted};
use crate::saved::SavedConnection;
use crate::session::Session;

verus! {

/// A request reads or writes session `uid`.
pub open spec fn touches(kind: ReqKind, uid: u64) -> bool {
    match kind {
        ReqKind::RunCommand { session_uid, .. } => session_uid == uid,
        ReqKind::PollRun { session_uid, .. } => session_uid == uid,
        ReqKind::ReadScreen { session_uid } => session_uid == uid,
        ReqKind::ReadHistory { session_uid, .. } => session_uid == uid,
        ReqKind::Interrupt { session_uid } => session_uid == uid,
        ReqKind::CloseSession { session_uid } => session_uid == uid,
        ReqKind::SendInput { session_uid, .. } => session_uid == uid,
        ReqKind::WriteFile { session_uid, .. } => session_uid == uid,
        ReqKind::ReadFile { session_uid, .. } => session_uid == uid,
        ReqKind::CopyToRemote { session_uid, .. } => session_uid == uid,
        ReqKind::CopyToRemoteFromCaller { session_uid, .. } => session_uid == uid,
        ReqKind::CopyFromRemoteToCaller { session_uid, .. } => session_uid == uid,
        ReqKind::CopyBetweenSessions { src_session_uid, dest_session_uid, .. } => src_session_uid
            == uid || dest_session_uid == uid,
        _ => false,
    }
}

/// No agent reads or writes a session that it did not open, whatever it asks for: nothing changes, and
/// it gets one refusal.
pub proof fn a_session_is_shut_to_all_but_its_opener(
    before: App,
    after: App,
    replies: Seq<Reply>,
    call: McpCall,
    saved: Seq<SavedConnection>,
    m: Moment,
    uid: u64,
    i: int,
)
    requires
        call_ok(before, after, replies, call, saved, m),
        touches(call.req.kind, uid),
        stands_at(before, uid, i),
        !opened_by(before.sessions@[i], call),
    ensures
        after == before,
        replies.len() == 1,
        replies[0].chan == call.chan && replies[0].id == call.req.id,
        replies[0].result is Err,
{
    lemma_stands(before, uid, i);
    let s = before.sessions@[i];
    assert(!session_is_mine(s, call.req.actor));
    let uids = call.req.kind.targets();
    assert(uids.len() > 0 && (uids[0] == uid || (uids.len() == 2 && uids[1] == uid)));
    gate_passes_only_own_sessions(before.sessions@, uids, call.req.actor);
    assert(first_out_of_reach(before.sessions@, uids, call.req.actor) is Some);
    assert(reply_views(replies).len() == replies.len());
    assert(reply_views(replies)[0] == replies[0]@);
}

/// Where the user shut agents out, every request is refused and nothing changes.
pub proof fn agents_that_are_shut_out_do_nothing(
    before: App,
    after: App,
    replies: Seq<Reply>,
    call: McpCall,
    saved: Seq<SavedConnection>,
    m: Moment,
)
    requires
        call_ok(before, after, replies, call, saved, m),
        !m.consent,
    ensures
        after == before,
        replies.len() == 1,
        replies[0].chan == call.chan && replies[0].id == call.req.id,
        replies[0].result is Err,
{
    assert(reply_views(replies).len() == replies.len());
    assert(reply_views(replies)[0] == replies[0]@);
}

/// What an agent is told of a session is what the session is.
pub open spec fn tells_of(info: SessionInfo, s: Session) -> bool {
    &&& info.uid == s.uid
    &&& info.title@ == s.title@
    &&& info.host@ == s.cfg.host@
    &&& info.connected == s.connected
    &&& info.ai_owned == s.ai_owned
    &&& info.mine
    &&& match s.terminal.cwd {
        Some(d) => info.cwd is Some && info.cwd->0@ == d@,
        None => info.cwd is None,
    }
    &&& match s.ai_owner_label {
        Some(l) => info.ai_owner is Some && info.ai_owner->0@ == l@,
        None => info.ai_owner is None,
    }
    &&& info.token_injected == s.mcp_token_injected
}

proof fn lemma_infos(ss: Seq<Session>, actor: Option<String>, k: int) -> (i: int)
    requires
        0 <= k < own_infos(ss, actor).len(),
    ensures
        0 <= i < ss.len(),
        session_is_mine(ss[i], actor),
        own_infos(ss, actor)[k] == info_of(ss[i]),
    decreases ss.len(),
{
    let rest = own_infos(ss.drop_last(), actor);
    if k < rest.len() {
        let i = lemma_infos(ss.drop_last(), actor, k);
        assert(own_infos(ss, actor)[k] == rest[k]);
        i
    } else {
        ss.len() - 1
    }
}

proof fn lemma_info_of(ss: Seq<Session>, actor: Option<String>, i: int) -> (k: int)
    requires
        0 <= i < ss.len(),
        session_is_mine(ss[i], actor),
    ensures
        0 <= k < own_infos(ss, actor).len(),
        own_infos(ss, actor)[k] == info_of(ss[i]),
    decreases ss.len(),
{
    if i == ss.len() - 1 {
        own_infos(ss, actor).len() - 1
    } else {
        let k = lemma_info_of(ss.drop_last(), actor, i);
        assert(own_infos(ss, actor)[k] == own_infos(ss.drop_last(), actor)[k]);
        k
    }
}

/// An agent that asks for its sessions is told of every one that it opened, as it is, and of no other.
pub proof fn an_agent_is_told_of_its_own_sessions(
    before: App,
    after: App,
    replies: Seq<Reply>,
    call: McpCall,
    saved: Seq<SavedConnection>,
    m: Moment,
    i: int,
    k: int,
)
    requires
        call_ok(before, after, replies, call, saved, m),
        m.consent,
        call.req.kind == ReqKind::ListSessions,
    ensures
        after == before,
        replies.len() == 1,
        replies[0].chan == call.chan && replies[0].id == call.req.id,
        replies[0].result is Ok && replies[0].result->Ok_0 is Sessions,
        ({
            let list = replies[0].result->Ok_0->Sessions_0@;
            &&& 0 <= i < before.sessions@.len() && opened_by(before.sessions@[i], call) ==> exists|
                n: int,
            |
                0 <= n < list.len() && tells_of(#[trigger] list[n], before.sessions@[i])
            &&& 0 <= k < list.len() ==> exists|j: int|
                {
                    &&& 0 <= j < before.sessions@.len()
                    &&& opened_by(before.sessions@[j], call)
                    &&& tells_of(list[k], #[trigger] before.sessions@[j])
                }
        }),
{
    assert(call.req.kind.targets() =~= seq![]);
    assert(reply_views(replies).len() == replies.len());
    assert(reply_views(replies)[0] == replies[0]@);
    let list = replies[0].result->Ok_0->Sessions_0@;
    let infos = own_infos(before.sessions@, call.req.actor);
    assert(info_views(list) == infos);
    assert(info_views(list).len() == list.len());
    if 0 <= i < before.sessions@.len() && opened_by(before.sessions@[i], call) {
        let n = lemma_info_of(before.sessions@, call.req.actor, i);
        assert(info_views(list)[n] == list[n]@);
        assert(tells_of(list[n], before.sessions@[i]));
    }
    if 0 <= k < list.len() {
        let j = lemma_infos(before.sessions@, call.req.actor, k);
        assert(info_views(list)[k] == list[k]@);
        assert(tells_of(list[k], before.sessions@[j]));
    }
}

/// An agent that asks for the saved connections is told of each of them, in order: its name, its host,
/// its port and its user, and nothing of how it logs in.
pub proof fn an_agent_is_told_of_the_saved_connections(
    before: App,
    after: App,
    replies: Seq<Reply>,
    call: McpCall,
    saved: Seq<SavedConnection>,
    m: Moment,
    k: int,
)
    requires
        call_ok(before, after, replies, call, saved, m),
        m.consent,
        call.req.kind == ReqKind::ListSavedConnections,
        0 <= k < saved.len(),
    ensures
        after == before,
        replies.len() == 1,
        replies[0].chan == call.chan && replies[0].id == call.req.id,
        replies[0].result is Ok && replies[0].result->Ok_0 is SavedConnections,
        ({
            let list = replies[0].result->Ok_0->SavedConnections_0@;
            &&& list.len() == saved.len()
            &&& list[k].name@ == saved[k].name@
            &&& list[k].host@ == saved[k].host@
            &&& list[k].username@ == saved[k].username@
            &&& list[k].port == saved[k].port
        }),
{
    assert(call.req.kind.targets() =~= seq![]);
    assert(reply_views(replies).len() == replies.len());
    assert(reply_views(replies)[0] == replies[0]@);
    let list = replies[0].result->Ok_0->SavedConnections_0@;
    assert(saved_views(list) == saved_infos(saved));
    assert(saved_views(list).len() == list.len());
    assert(saved_views(list)[k] == list[k]@);
}

/// An agent that wants to drive this window has the user asked, one question at a time, for five
/// minutes; until they answer it is told nothing.
pub proof fn the_user_is_asked_about_a_binding(
    before: App,
    after: App,
    replies: Seq<Reply>,
    call: McpCall,
    saved: Seq<SavedConnection>,
    m: Moment,
)
    requires
        call_ok(before, after, replies, call, saved, m),
        m.consent,
        m.now <= 0x4000_0000_0000_0000,
        call.req.kind == ReqKind::Bind,
    ensures
        after.sessions == before.sessions,
        before.pending_bind_consent is None ==> {
            &&& replies.len() == 0
            &&& after.pending_bind_consent is Some
            &&& after.pending_bind_consent->0.waiter.chan == call.chan
            &&& after.pending_bind_consent->0.req_id == call.req.id
            &&& after.pending_bind_consent->0.deadline == m.now + 300_000
        },
        before.pending_bind_consent is Some ==> after == before && replies.len() == 1
            && replies[0].result is Err,
{
    assert(call.req.kind.targets() =~= seq![]);
    assert(reply_views(replies).len() == replies.len());
    if replies.len() > 0 {
        assert(reply_views(replies)[0] == replies[0]@);
    }
}

/// A refused ticket is told so in the words by which a proxy knows to pair again.
pub proof fn a_refused_ticket_is_told_to_pair_again(inst: Instance)
    ensures
        inst.ticket_rejected@.is_prefix_of(ticket_refusal(inst)),
{
    let all = ticket_refusal(inst);
    let p = inst.ticket_rejected@;
    assert(all.take(p.len() as int) =~= p);
}

/// A request writes or reads one remote file in session `uid`.
pub open spec fn moves_file(kind: ReqKind, uid: u64, path: Seq<char>) -> bool {
    match kind {
        ReqKind::WriteFile { session_uid, path: p, .. } => session_uid == uid && p@ == path,
        ReqKind::ReadFile { session_uid, path: p, .. } => session_uid == uid && p@ == path,
        ReqKind::CopyToRemote { session_uid, remote_path, .. } => session_uid == uid && remote_path@
            == path,
        ReqKind::CopyToRemoteFromCaller { session_uid, remote_path, .. } => session_uid == uid
            && remote_path@ == path,
        ReqKind::CopyFromRemoteToCaller { session_uid, remote_path, .. } => session_uid == uid
            && remote_path@ == path,
        _ => false,
    }
}

/// A file is neither written nor read where the session is not connected or has sixteen operations
/// under way, nor at a path that is not absolute or climbs: nothing changes, and the agent gets one
/// refusal.
pub proof fn a_file_that_cannot_be_served_is_refused(
    before: App,
    after: App,
    replies: Seq<Reply>,
    call: McpCall,
    saved: Seq<SavedConnection>,
    m: Moment,
    uid: u64,
    i: int,
    path: Seq<char>,
    a: Seq<char>,
    b: Seq<char>,
)
    requires
        call_ok(before, after, replies, call, saved, m),
        moves_file(call.req.kind, uid, path),
        stands_at(before, uid, i),
        ({
            ||| !before.sessions@[i].connected
            ||| before.sessions@[i].pending_file_ops@.len() >= 16
            ||| path.len() == 0 || path[0] != '/'
            ||| path == a + "/../"@ + b
        }),
    ensures
        after == before,
        replies.len() == 1,
        replies[0].chan == call.chan && replies[0].id == call.req.id,
        replies[0].result is Err,
{
    lemma_stands(before, uid, i);
    a_path_that_climbs_is_refused(a, b);
    a_plain_path_is_accepted(path);
    assert(reply_views(replies).len() == replies.len());
    assert(reply_views(replies)[0] == replies[0]@);
}

/// A command is not typed where the session is not connected or another command of an agent is under
/// way: nothing changes, and the agent gets one refusal.
pub proof fn one_command_runs_at_a_time(
    before: App,
    after: App,
    replies: Seq<Reply>,
    call: McpCall,
    saved: Seq<SavedConnection>,
    m: Moment,
    uid: u64,
    i: int,
)
    requires
        call_ok(before, after, replies, call, saved, m),
        call.req.kind is RunCommand,
        call.req.kind->RunCommand_session_uid == uid,
        stands_at(before, uid, i),
        !before.sessions@[i].connected || before.sessions@[i].pending_ai_run is Some,
    ensures
        after == before,
        replies.len() == 1,
        replies[0].chan == call.chan && replies[0].id == call.req.id,
        replies[0].result is Err,
{
    lemma_stands(before, uid, i);
    assert(reply_views(replies).len() == replies.len());
    assert(reply_views(replies)[0] == replies[0]@);
}

/// A file is copied between two different sessions only, and only where both are connected: otherwise
/// nothing changes, and the agent gets one refusal.
pub proof fn a_copy_needs_two_connected_sessions(
    before: App,
    after: App,
    replies: Seq<Reply>,
    call: McpCall,
    saved: Seq<SavedConnection>,
    m: Moment,
    s: int,
    d: int,
)
    requires
        call_ok(before, after, replies, call, saved, m),
        call.req.kind is CopyBetweenSessions,
        stands_at(before, call.req.kind->CopyBetweenSessions_src_session_uid, s),
        stands_at(before, call.req.kind->CopyBetweenSessions_dest_session_uid, d),
        s == d || !before.sessions@[s].connected || !before.sessions@[d].connected,
    ensures
        after == before,
        replies.len() == 1,
        replies[0].chan == call.chan && replies[0].id == call.req.id,
        replies[0].result is Err,
{
    lemma_stands(before, call.req.kind->CopyBetweenSessions_src_session_uid, s);
    lemma_stands(before, call.req.kind->CopyBetweenSessions_dest_session_uid, d);
    assert(reply_views(replies).len() == replies.len());
    assert(reply_views(replies)[0] == replies[0]@);
}

/// A command of several lines is not typed, nor one of white space alone: nothing changes, and the agent
/// gets one refusal.
pub proof fn a_command_is_one_line(
    before: App,
    after: App,
    replies: Seq<Reply>,
    call: McpCall,
    saved: Seq<SavedConnection>,
    m: Moment,
)
    requires
        call_ok(before, after, replies, call, saved, m),
        call.req.kind is RunCommand,
        ({
            let command = call.req.kind->RunCommand_command@;
            ||| command.contains('\n')
            ||| command.contains('\r')
            ||| command.len() == 0
        }),
    ensures
        after == before,
        replies.len() == 1,
        replies[0].chan == call.chan && replies[0].id == call.req.id,
        replies[0].result is Err,
{
    assert(reply_views(replies).len() == replies.len());
    assert(reply_views(replies)[0] == replies[0]@);
}

} // verus!
