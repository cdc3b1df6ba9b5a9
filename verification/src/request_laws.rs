//! What an agent's request makes of the sessions, told by the commands that their workers get.
use vstd::prelude::*;
use vstd::string::*;
use vstd::utf8::*;

use crate::agent_calls::{
    call_ok, first_out_of_reach, gate_passes_only_own_sessions, session_is_mine, McpCall, Moment,
};
use crate::app::{lemma_uid_pos, uid_pos, App};
use crate::cross_copy::CrossCopyPhase;
use crate::file_ops::{FileOpKind, PendingAiFileOp, MAX_CONCURRENT_FILE_OPS};
use crate::paths::{
    basename_of, local_path_refusal, parent_and_basename_make_the_path, parent_of,
    remote_path_refusal,
};
use crate::proto::{CommandView, ConflictPolicy, Eol, Link, UiCommand};
use crate::protocol::{reply_views, Reply, ReqKind, ReqResult};
use crate::saved::SavedConnection;
use crate::session::Session;

verus! {

pub(crate) proof fn lemma_sent_one(a: Link, b: Link, cmd: CommandView)
    requires
        a.takes > 0,
        b.sends(a, cmd),
    ensures
        b.sent@.len() == a.sent@.len() + 1,
        b.sent@[a.sent@.len() as int]@ == cmd,
        b.sent@.last()@ == cmd,
        forall|k: int| 0 <= k < a.sent@.len() ==> (#[trigger] b.sent@[k])@ == a.sent@[k]@,
{
    assert(b.log().len() == a.log().len() + 1);
    assert(b.log()[a.sent@.len() as int] == b.sent@[a.sent@.len() as int]@);
    assert forall|k: int| 0 <= k < a.sent@.len() implies (#[trigger] b.sent@[k])@ == a.sent@[k]@ by {
        assert(b.log()[k] == b.sent@[k]@);
        assert(a.log()[k] == a.sent@[k]@);
    }
}

pub(crate) proof fn lemma_sent_two(a: Link, b: Link, first: CommandView, second: CommandView)
    requires
        b.log() == a.log().push(first).push(second),
    ensures
        b.sent@.len() == a.sent@.len() + 2,
        b.sent@[a.sent@.len() as int]@ == first,
        b.sent@[a.sent@.len() as int + 1]@ == second,
{
    assert(b.log().len() == a.log().len() + 2);
    assert(b.log()[a.sent@.len() as int] == b.sent@[a.sent@.len() as int]@);
    assert(b.log()[a.sent@.len() as int + 1] == b.sent@[a.sent@.len() as int + 1]@);
}

/// The session at `i` has this uid, and none before it does.
pub open spec fn stands_at(app: App, uid: u64, i: int) -> bool {
    &&& 0 <= i < app.sessions@.len()
    &&& app.sessions@[i].uid == uid
    &&& forall|j: int| 0 <= j < i ==> (#[trigger] app.sessions@[j]).uid != uid
}

/// The process that asks opened this session.
pub open spec fn opened_by(s: Session, call: McpCall) -> bool {
    &&& s.ai_owned
    &&& s.ai_owner is Some
    &&& call.req.actor is Some
    &&& s.ai_owner->0@ == call.req.actor->0@
}

/// The session at `i` has this uid, was opened by the one who asks, is connected, and its worker
/// takes a command; the user lets agents in.
pub open spec fn serves(before: App, call: McpCall, m: Moment, uid: u64, i: int) -> bool {
    &&& m.consent
    &&& stands_at(before, uid, i)
    &&& opened_by(before.sessions@[i], call)
    &&& before.sessions@[i].connected
    &&& before.sessions@[i].link.takes > 0
}

pub(crate) proof fn lemma_stands(app: App, uid: u64, i: int)
    requires
        stands_at(app, uid, i),
    ensures
        uid_pos(app.sessions@, uid) == Some(i),
{
    lemma_uid_pos(app.sessions@, uid);
    let k = uid_pos(app.sessions@, uid);
    if k is None {
        assert(app.sessions@[i].uid != uid);
    } else if k->0 < i {
        assert(app.sessions@[k->0].uid != uid);
    } else if k->0 > i {
        assert(app.sessions@[i].uid != uid);
    }
}

pub(crate) proof fn lemma_own(app: App, call: McpCall, uid: u64, i: int)
    requires
        stands_at(app, uid, i),
        opened_by(app.sessions@[i], call),
    ensures
        uid_pos(app.sessions@, uid) == Some(i),
        first_out_of_reach(app.sessions@, seq![uid], call.req.actor) is None,
{
    lemma_stands(app, uid, i);
    assert(session_is_mine(app.sessions@[i], call.req.actor));
    gate_passes_only_own_sessions(app.sessions@, seq![uid], call.req.actor);
}

/// Only the session at `i` changed, and its worker got one command more.
pub open spec fn one_command(before: App, after: App, i: int) -> bool {
    let s = before.sessions@[i];
    let t = after.sessions@[i];
    &&& after.sessions@.len() == before.sessions@.len()
    &&& forall|j: int|
        0 <= j < before.sessions@.len() && j != i ==> #[trigger] after.sessions@[j]
            == before.sessions@[j]
    &&& t.uid == s.uid
    &&& t.link.sent@.len() == s.link.sent@.len() + 1
}

/// A session has one operation more, for which the one who asked waits until a moment between the
/// shortest and the longest time that is waited.
pub open spec fn one_operation(
    before: Session,
    after: Session,
    kind: FileOpKind,
    path: Seq<char>,
    id: u64,
    timeout_ms: u64,
    m: Moment,
) -> bool {
    let ops = after.pending_file_ops@;
    &&& ops.len() == before.pending_file_ops@.len() + 1
    &&& ops.drop_last() == before.pending_file_ops@
    &&& ops.last().kind == kind
    &&& ops.last().path@ == path
    &&& ops.last().req_id == id
    &&& m.now + 100 <= ops.last().deadline <= m.now + 86_400_000
    &&& 100 <= timeout_ms <= 86_400_000 ==> ops.last().deadline == m.now + timeout_ms
}

/// A file that an agent writes lies where it said, with the content it gave, over what was there.
pub proof fn a_file_is_written_where_the_agent_said(
    before: App,
    after: App,
    replies: Seq<Reply>,
    call: McpCall,
    saved: Seq<SavedConnection>,
    m: Moment,
    i: int,
    uid: u64,
    path: String,
    content: String,
    timeout_ms: u64,
)
    requires
        call_ok(before, after, replies, call, saved, m),
        call.req.kind == (ReqKind::WriteFile { session_uid: uid, path, content, timeout_ms }),
        serves(before, call, m, uid, i),
        before.sessions@[i].pending_file_ops@.len() < 16,
        remote_path_refusal(path@) is None,
    ensures
        one_command(before, after, i),
        replies.len() == 0,
        ({
            let cmd = after.sessions@[i].link.sent@.last();
            &&& cmd is WriteFile
            &&& cmd->WriteFile_id == m.nonce
            &&& cmd->WriteFile_path@ == path@
            &&& cmd->WriteFile_content@ == content@
            &&& cmd->WriteFile_encoding@ == "UTF-8"@
            &&& cmd->WriteFile_eol == Eol::Lf
            &&& cmd->WriteFile_force
        }),
        one_operation(
            before.sessions@[i],
            after.sessions@[i],
            FileOpKind::Write { op_id: m.nonce },
            path@,
            call.req.id,
            timeout_ms,
            m,
        ),
        ({
            let waiter = after.sessions@[i].pending_file_ops@.last().waiter;
            waiter is Some && waiter->0.chan == call.chan
        }),
{
    lemma_own(before, call, uid, i);
    assert(call.req.kind.targets() =~= seq![uid]);
    lemma_sent_one(
        before.sessions@[i].link,
        after.sessions@[i].link,
        CommandView::WriteFile {
            id: m.nonce,
            path: path@,
            content: content@,
            encoding: "UTF-8"@,
            eol: Eol::Lf,
            expect_mtime: 0,
            force: true,
        },
    );
}

/// A file that an agent reads is the one that it named.
pub proof fn the_file_that_was_named_is_read(
    before: App,
    after: App,
    replies: Seq<Reply>,
    call: McpCall,
    saved: Seq<SavedConnection>,
    m: Moment,
    i: int,
    uid: u64,
    path: String,
    force: bool,
    timeout_ms: u64,
)
    requires
        call_ok(before, after, replies, call, saved, m),
        call.req.kind == (ReqKind::ReadFile { session_uid: uid, path, force, timeout_ms }),
        serves(before, call, m, uid, i),
        before.sessions@[i].pending_file_ops@.len() < 16,
        remote_path_refusal(path@) is None,
    ensures
        one_command(before, after, i),
        replies.len() == 0,
        ({
            let cmd = after.sessions@[i].link.sent@.last();
            &&& cmd is ReadFile
            &&& cmd->ReadFile_id == m.nonce
            &&& cmd->ReadFile_path@ == path@
            &&& cmd->ReadFile_force == force
        }),
        one_operation(
            before.sessions@[i],
            after.sessions@[i],
            FileOpKind::Read { op_id: m.nonce },
            path@,
            call.req.id,
            timeout_ms,
            m,
        ),
        ({
            let waiter = after.sessions@[i].pending_file_ops@.last().waiter;
            waiter is Some && waiter->0.chan == call.chan
        }),
{
    lemma_own(before, call, uid, i);
    assert(call.req.kind.targets() =~= seq![uid]);
    lemma_sent_one(
        before.sessions@[i].link,
        after.sessions@[i].link,
        CommandView::ReadFile { id: m.nonce, path: path@, force },
    );
}

/// A file of this machine that an agent copies to a server is the one that it named, and lands at the
/// path that it named: in its directory, under its last component.
pub proof fn a_local_file_lands_where_the_agent_said(
    before: App,
    after: App,
    replies: Seq<Reply>,
    call: McpCall,
    saved: Seq<SavedConnection>,
    m: Moment,
    i: int,
    uid: u64,
    local_path: String,
    remote_path: String,
    timeout_ms: u64,
)
    requires
        call_ok(before, after, replies, call, saved, m),
        call.req.kind == (ReqKind::CopyToRemote { session_uid: uid, local_path, remote_path, timeout_ms }),
        serves(before, call, m, uid, i),
        before.sessions@[i].pending_file_ops@.len() < 16,
        local_path_refusal(local_path@) is None,
        remote_path_refusal(remote_path@) is None,
        remote_path@.last() != '/',
    ensures
        one_command(before, after, i),
        replies.len() == 0,
        ({
            let cmd = after.sessions@[i].link.sent@.last();
            &&& cmd is Upload
            &&& cmd->Upload_id == m.nonce
            &&& cmd->Upload_local@ == local_path@
            &&& cmd->Upload_policy == ConflictPolicy::Overwrite
            &&& cmd->Upload_remote_name is Some
            &&& !(cmd->Upload_remote_name->0@).contains('/')
            &&& remote_path@ == cmd->Upload_remote_dir@ + seq!['/'] + cmd->Upload_remote_name->0@ || (
            cmd->Upload_remote_dir@ == seq!['/'] && remote_path@ == cmd->Upload_remote_dir@
                + cmd->Upload_remote_name->0@)
        }),
        one_operation(
            before.sessions@[i],
            after.sessions@[i],
            FileOpKind::Copy { op_id: m.nonce },
            remote_path@,
            call.req.id,
            timeout_ms,
            m,
        ),
        ({
            let waiter = after.sessions@[i].pending_file_ops@.last().waiter;
            waiter is Some && waiter->0.chan == call.chan
        }),
{
    lemma_own(before, call, uid, i);
    assert(call.req.kind.targets() =~= seq![uid]);
    lemma_sent_one(
        before.sessions@[i].link,
        after.sessions@[i].link,
        CommandView::Upload {
            id: m.nonce,
            local: local_path@,
            remote_dir: parent_of(remote_path@),
            remote_name: Some(basename_of(remote_path@)),
            policy: ConflictPolicy::Overwrite,
        },
    );
    crate::paths::path_is_directory_and_name(remote_path@);
}

/// The bytes that an agent sends along are stored at the path that it named, as many as it said.
pub proof fn the_bytes_that_were_sent_are_stored(
    before: App,
    after: App,
    replies: Seq<Reply>,
    call: McpCall,
    saved: Seq<SavedConnection>,
    m: Moment,
    i: int,
    uid: u64,
    remote_path: String,
    size: u64,
    timeout_ms: u64,
)
    requires
        call_ok(before, after, replies, call, saved, m),
        call.req.kind == (ReqKind::CopyToRemoteFromCaller { session_uid: uid, remote_path, size, timeout_ms }),
        serves(before, call, m, uid, i),
        before.sessions@[i].pending_file_ops@.len() < 16,
        call.has_upload,
        remote_path_refusal(remote_path@) is None,
    ensures
        one_command(before, after, i),
        replies.len() == 0,
        ({
            let cmd = after.sessions@[i].link.sent@.last();
            &&& cmd is UploadFromMcp
            &&& cmd->UploadFromMcp_id == m.nonce
            &&& cmd->UploadFromMcp_source == call.chan
            &&& cmd->UploadFromMcp_size == size
            &&& cmd->UploadFromMcp_remote_path@ == remote_path@
        }),
        one_operation(
            before.sessions@[i],
            after.sessions@[i],
            FileOpKind::Copy { op_id: m.nonce },
            remote_path@,
            call.req.id,
            timeout_ms,
            m,
        ),
        ({
            let waiter = after.sessions@[i].pending_file_ops@.last().waiter;
            waiter is Some && waiter->0.chan == call.chan
        }),
{
    lemma_own(before, call, uid, i);
    assert(call.req.kind.targets() =~= seq![uid]);
    lemma_sent_one(
        before.sessions@[i].link,
        after.sessions@[i].link,
        CommandView::UploadFromMcp {
            id: m.nonce,
            source: call.chan,
            size,
            remote_path: remote_path@,
        },
    );
}

/// A file that an agent asks for is sent to it, on the connection that it asked on.
pub proof fn the_file_that_was_asked_for_is_sent(
    before: App,
    after: App,
    replies: Seq<Reply>,
    call: McpCall,
    saved: Seq<SavedConnection>,
    m: Moment,
    i: int,
    uid: u64,
    remote_path: String,
    timeout_ms: u64,
)
    requires
        call_ok(before, after, replies, call, saved, m),
        call.req.kind == (ReqKind::CopyFromRemoteToCaller { session_uid: uid, remote_path, timeout_ms }),
        serves(before, call, m, uid, i),
        before.sessions@[i].pending_file_ops@.len() < 16,
        call.has_sink,
        remote_path_refusal(remote_path@) is None,
    ensures
        one_command(before, after, i),
        replies.len() == 0,
        ({
            let cmd = after.sessions@[i].link.sent@.last();
            &&& cmd is DownloadToMcp
            &&& cmd->DownloadToMcp_id == m.nonce
            &&& cmd->DownloadToMcp_remote_path@ == remote_path@
            &&& cmd->DownloadToMcp_sink == call.chan
        }),
        one_operation(
            before.sessions@[i],
            after.sessions@[i],
            FileOpKind::Copy { op_id: m.nonce },
            remote_path@,
            call.req.id,
            timeout_ms,
            m,
        ),
        ({
            let waiter = after.sessions@[i].pending_file_ops@.last().waiter;
            waiter is None
        }),
{
    lemma_own(before, call, uid, i);
    assert(call.req.kind.targets() =~= seq![uid]);
    lemma_sent_one(
        before.sessions@[i].link,
        after.sessions@[i].link,
        CommandView::DownloadToMcp { id: m.nonce, remote_path: remote_path@, sink: call.chan },
    );
}

/// What an agent types arrives as it is, and nothing else does.
pub proof fn input_arrives_as_it_is(
    before: App,
    after: App,
    replies: Seq<Reply>,
    call: McpCall,
    saved: Seq<SavedConnection>,
    m: Moment,
    i: int,
    uid: u64,
    text: String,
)
    requires
        call_ok(before, after, replies, call, saved, m),
        call.req.kind == (ReqKind::SendInput { session_uid: uid, text }),
        serves(before, call, m, uid, i),
    ensures
        one_command(before, after, i),
        after.sessions@[i].link.sent@.last() is TerminalInput,
        after.sessions@[i].link.sent@.last()->TerminalInput_0@ == encode_utf8(text@),
        after.sessions@[i].pending_ai_run == before.sessions@[i].pending_ai_run,
        replies.len() == 1,
        replies[0].chan == call.chan && replies[0].id == call.req.id,
        replies[0].result is Ok && replies[0].result->Ok_0 is Done,
{
    lemma_own(before, call, uid, i);
    assert(call.req.kind.targets() =~= seq![uid]);
    lemma_sent_one(
        before.sessions@[i].link,
        after.sessions@[i].link,
        CommandView::TerminalInput(encode_utf8(text@)),
    );
    assert(reply_views(replies).len() == replies.len());
    assert(reply_views(replies)[0] == replies[0]@);
}

/// An interrupt is the one control character, Ctrl-C, and frees the session for the next run.
pub proof fn an_interrupt_is_one_control_character(
    before: App,
    after: App,
    replies: Seq<Reply>,
    call: McpCall,
    saved: Seq<SavedConnection>,
    m: Moment,
    i: int,
    uid: u64,
)
    requires
        call_ok(before, after, replies, call, saved, m),
        call.req.kind == (ReqKind::Interrupt { session_uid: uid }),
        serves(before, call, m, uid, i),
    ensures
        one_command(before, after, i),
        after.sessions@[i].link.sent@.last() is TerminalInput,
        after.sessions@[i].link.sent@.last()->TerminalInput_0@ == seq![3u8],
        after.sessions@[i].pending_ai_run is None,
        !after.sessions@[i].terminal.capturing,
        replies.len() > 0,
        replies.last().chan == call.chan && replies.last().id == call.req.id,
        replies.last().result is Ok && replies.last().result->Ok_0 is Done,
        replies.len() == 2 ==> before.sessions@[i].pending_ai_run is Some && replies[0].result is Err,
{
    lemma_own(before, call, uid, i);
    assert(call.req.kind.targets() =~= seq![uid]);
    lemma_sent_one(
        before.sessions@[i].link,
        after.sessions@[i].link,
        CommandView::TerminalInput(seq![3u8]),
    );
    assert(reply_views(replies).len() == replies.len());
    assert(reply_views(replies).last() == replies.last()@);
    assert(reply_views(replies).len() == replies.len());
    assert(reply_views(replies)[0] == replies[0]@);
}

/// A session that an agent closes is gone, its worker is told to disconnect, and every other one
/// stays as it is.
pub proof fn a_closed_session_is_gone(
    before: App,
    after: App,
    replies: Seq<Reply>,
    call: McpCall,
    saved: Seq<SavedConnection>,
    m: Moment,
    i: int,
    uid: u64,
)
    requires
        call_ok(before, after, replies, call, saved, m),
        call.req.kind == (ReqKind::CloseSession { session_uid: uid }),
        serves(before, call, m, uid, i),
    ensures
        after.sessions@ == before.sessions@.remove(i),
        after.closed@.len() == before.closed@.len() + 1,
        after.closed@.last().uid == uid,
        after.closed@.last().link.sent@.len() == before.sessions@[i].link.sent@.len() + 1,
        after.closed@.last().link.sent@.last() is Disconnect,
        replies.len() == 1,
        replies[0].chan == call.chan && replies[0].id == call.req.id,
        replies[0].result is Ok && replies[0].result->Ok_0 is Done,
{
    lemma_own(before, call, uid, i);
    assert(call.req.kind.targets() =~= seq![uid]);
    lemma_sent_one(
        before.sessions@[i].link,
        after.closed@.last().link,
        CommandView::Disconnect,
    );
    assert(reply_views(replies).len() == replies.len());
    assert(reply_views(replies)[0] == replies[0]@);
}

/// One who asks for the screen or the history of a session is answered with those of that session,
/// and nothing changes.
pub proof fn the_session_that_was_named_is_shown(
    before: App,
    after: App,
    replies: Seq<Reply>,
    call: McpCall,
    saved: Seq<SavedConnection>,
    m: Moment,
    i: int,
    uid: u64,
    max_lines: u32,
)
    requires
        call_ok(before, after, replies, call, saved, m),
        m.consent,
        stands_at(before, uid, i),
        opened_by(before.sessions@[i], call),
        call.req.kind == (ReqKind::ReadScreen { session_uid: uid }) || call.req.kind == (
        ReqKind::ReadHistory { session_uid: uid, max_lines }),
    ensures
        after == before,
        replies.len() == 1,
        replies[0].chan == call.chan && replies[0].id == call.req.id,
        replies[0].result is Ok,
        call.req.kind is ReadScreen ==> replies[0].result->Ok_0 == (ReqResult::Screen {
            session_uid: uid,
        }),
        call.req.kind is ReadHistory ==> replies[0].result->Ok_0 == (ReqResult::History {
            session_uid: uid,
            max_lines,
        }),
{
    lemma_own(before, call, uid, i);
    assert(call.req.kind.targets() =~= seq![uid]);
    assert(reply_views(replies).len() == replies.len());
    assert(reply_views(replies)[0] == replies[0]@);
}

/// One who asks for a run that nobody waits for takes it over: it is the same run, with the same
/// result, and the one who asked now waits for it.
pub proof fn a_run_is_taken_over_whole(
    before: App,
    after: App,
    replies: Seq<Reply>,
    call: McpCall,
    saved: Seq<SavedConnection>,
    m: Moment,
    i: int,
    uid: u64,
    run_id: Option<u64>,
    timeout_ms: u64,
)
    requires
        call_ok(before, after, replies, call, saved, m),
        m.consent,
        m.now <= 0x4000_0000_0000_0000,
        stands_at(before, uid, i),
        opened_by(before.sessions@[i], call),
        call.req.kind == (ReqKind::PollRun { session_uid: uid, run_id, timeout_ms }),
        before.sessions@[i].pending_ai_run is Some,
        run_id is Some ==> run_id->0 == before.sessions@[i].pending_ai_run->0.run_id,
        before.sessions@[i].pending_ai_run->0.waiter is None
            || before.sessions@[i].pending_ai_run->0.waiter->0.closed,
    ensures
        ({
            let p = before.sessions@[i].pending_ai_run->0;
            let q = after.sessions@[i].pending_ai_run->0;
            &&& after.sessions@[i].pending_ai_run is Some
            &&& q.run_id == p.run_id
            &&& q.command == p.command
            &&& q.finished_result == p.finished_result
            &&& q.waiter is Some && q.waiter->0.chan == call.chan && !q.waiter->0.closed
            &&& q.req_id == call.req.id
            &&& q.last_poll_at == m.now
            &&& m.now + 100 <= q.deadline <= m.now + 86_400_000
            &&& 100 <= timeout_ms <= 86_400_000 ==> q.deadline == m.now + timeout_ms
        }),
        after.sessions@[i].link == before.sessions@[i].link,
        replies.len() == 0,
{
    lemma_own(before, call, uid, i);
    assert(call.req.kind.targets() =~= seq![uid]);
}

/// A copy between two sessions that an agent asks for starts with its own two files: the target, and
/// nobody else, is told to trust a key, and the copy that is kept names the source's session and
/// path, the target's session and path, and the one who asked.
pub proof fn a_copy_keeps_what_was_asked_for(
    before: App,
    after: App,
    replies: Seq<Reply>,
    call: McpCall,
    saved: Seq<SavedConnection>,
    m: Moment,
    si: int,
    di: int,
    src_uid: u64,
    src_path: String,
    dest_uid: u64,
    dest_path: String,
    timeout_ms: u64,
)
    requires
        call_ok(before, after, replies, call, saved, m),
        call.req.kind == (ReqKind::CopyBetweenSessions {
            src_session_uid: src_uid,
            src_remote_path: src_path,
            dest_session_uid: dest_uid,
            dest_remote_path: dest_path,
            timeout_ms,
        }),
        serves(before, call, m, src_uid, si),
        serves(before, call, m, dest_uid, di),
        replies.len() == 0,
    ensures
        src_uid != dest_uid,
        after.sessions@[si].link == before.sessions@[si].link,
        ({
            let sent = after.sessions@[di].link.sent@;
            &&& sent.len() == before.sessions@[di].link.sent@.len() + 1
            &&& sent.last() is TrustTempKey
            &&& sent.last()->TrustTempKey_op_id == m.nonce
            &&& seq!['r', 'e', 's', 't', 'r', 'i', 'c', 't', ' '].is_prefix_of(
                sent.last()->TrustTempKey_pub_key_line@,
            )
        }),
        after.cross_copy_jobs@.len() == before.cross_copy_jobs@.len() + 1,
        ({
            let j = after.cross_copy_jobs@.last();
            &&& j.src_uid == src_uid && j.src_remote_path@ == src_path@
            &&& j.dest_uid == dest_uid && j.dest_remote_path@ == dest_path@
            &&& j.op_id == m.nonce
            &&& j.req_id == call.req.id
            &&& j.waiter is Some && j.waiter->0.chan == call.chan
            &&& j.phase == CrossCopyPhase::TrustingB
            &&& j.priv_key_pem is Some
            &&& !j.trust_established && j.direct_result is None
            &&& m.now + 100 <= j.deadline <= m.now + 86_400_000
            &&& 100 <= timeout_ms <= 86_400_000 ==> j.deadline == m.now + timeout_ms
        }),
        ({
            let kind = FileOpKind::Copy { op_id: m.nonce };
            &&& one_operation(
                before.sessions@[si],
                after.sessions@[si],
                kind,
                src_path@,
                call.req.id,
                timeout_ms,
                m,
            )
            &&& one_operation(
                before.sessions@[di],
                after.sessions@[di],
                kind,
                dest_path@,
                call.req.id,
                timeout_ms,
                m,
            )
        }),
{
    lemma_own(before, call, src_uid, si);
    lemma_own(before, call, dest_uid, di);
    let uids = seq![src_uid, dest_uid];
    assert(call.req.kind.targets() =~= uids);
    assert(session_is_mine(before.sessions@[si], call.req.actor));
    assert(session_is_mine(before.sessions@[di], call.req.actor));
    gate_passes_only_own_sessions(before.sessions@, uids, call.req.actor);
    assert(first_out_of_reach(before.sessions@, uids, call.req.actor) is None);
    assert(reply_views(replies).len() == 0);
    assert(crate::agent_files::between_refusal(
        before,
        src_uid,
        src_path@,
        dest_uid,
        dest_path@,
        call.req.actor,
    ) is None);
    assert(si != di);
    lemma_copy_started(
        before,
        after,
        replies,
        call.chan,
        call.req.id,
        src_uid,
        src_path@,
        dest_uid,
        dest_path@,
        timeout_ms,
        call.req.actor,
        m,
        si,
        di,
    );
}

proof fn lemma_copy_started(
    before: App,
    after: App,
    replies: Seq<Reply>,
    chan: u64,
    id: u64,
    src_uid: u64,
    src_path: Seq<char>,
    dest_uid: u64,
    dest_path: Seq<char>,
    timeout_ms: u64,
    actor: Option<String>,
    m: Moment,
    si: int,
    di: int,
)
    requires
        crate::agent_calls::copy_between_ok(
            before,
            after,
            replies,
            chan,
            id,
            src_uid,
            src_path,
            dest_uid,
            dest_path,
            timeout_ms,
            actor,
            m,
        ),
        crate::agent_files::between_refusal(before, src_uid, src_path, dest_uid, dest_path, actor)
            is None,
        replies.len() == 0,
        uid_pos(before.sessions@, src_uid) == Some(si),
        uid_pos(before.sessions@, dest_uid) == Some(di),
        0 <= si < before.sessions@.len(),
        0 <= di < before.sessions@.len(),
        si != di,
    ensures
        before.sessions@[di].link.takes > 0,
        after.sessions@[si].link == before.sessions@[si].link,
        ({
            let sent = after.sessions@[di].link.sent@;
            &&& sent.len() == before.sessions@[di].link.sent@.len() + 1
            &&& sent.last() is TrustTempKey
            &&& sent.last()->TrustTempKey_op_id == m.nonce
            &&& seq!['r', 'e', 's', 't', 'r', 'i', 'c', 't', ' '].is_prefix_of(
                sent.last()->TrustTempKey_pub_key_line@,
            )
        }),
        after.cross_copy_jobs@.len() == before.cross_copy_jobs@.len() + 1,
        ({
            let j = after.cross_copy_jobs@.last();
            &&& j.src_uid == src_uid && j.src_remote_path@ == src_path
            &&& j.dest_uid == dest_uid && j.dest_remote_path@ == dest_path
            &&& j.op_id == m.nonce
            &&& j.req_id == id
            &&& j.waiter is Some && j.waiter->0.chan == chan
            &&& j.phase == CrossCopyPhase::TrustingB
            &&& j.priv_key_pem is Some
            &&& !j.trust_established && j.direct_result is None
            &&& m.now + 100 <= j.deadline <= m.now + 86_400_000
            &&& 100 <= timeout_ms <= 86_400_000 ==> j.deadline == m.now + timeout_ms
        }),
        ({
            let kind = FileOpKind::Copy { op_id: m.nonce };
            &&& one_operation(
                before.sessions@[si],
                after.sessions@[si],
                kind,
                src_path,
                id,
                timeout_ms,
                m,
            )
            &&& one_operation(
                before.sessions@[di],
                after.sessions@[di],
                kind,
                dest_path,
                id,
                timeout_ms,
                m,
            )
        }),
{
    let (suffix, keys) = choose|suffix: Seq<char>, keys: Result<(Vec<u8>, String), String>|
        {
            &&& crate::keys::is_marker_suffix(suffix)
            &&& #[trigger] crate::keys::is_temp_keypair(
                crate::agent_files::marker_of(m.nonce, suffix),
                keys,
            )
            &&& crate::agent_files::start_cross_copy_ok(
                before,
                after,
                replies,
                chan,
                id,
                src_uid,
                src_path,
                dest_uid,
                dest_path,
                timeout_ms,
                m,
                crate::agent_files::marker_of(m.nonce, suffix),
                keys,
            )
        };
    assert(reply_views(replies).len() == 0);
    assert(keys is Ok);
    let line = (keys->Ok_0).1;
    lemma_sent_one(
        before.sessions@[di].link,
        after.sessions@[di].link,
        CommandView::TrustTempKey { op_id: m.nonce, pub_key_line: line@ },
    );
    let seed = choose|seed: Seq<u8>|
        seed.len() == 32 && #[trigger] crate::keys::keypair_of(
            seed,
            crate::agent_files::marker_of(m.nonce, suffix),
        ) == Ok::<(Seq<u8>, Seq<char>), Seq<char>>(((keys->Ok_0).0@, line@));
    reveal_strlit("restrict ");
    assert("restrict "@ =~= seq!['r', 'e', 's', 't', 'r', 'i', 'c', 't', ' ']);
}

} // verus!
