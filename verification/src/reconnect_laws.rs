//! What a session that lost its connection keeps across a reconnect.
use vstd::prelude::*;
use vstd::string::*;
use vstd::utf8::*;

use crate::events::{
    connects, disconnects, readd_commands, resume_commands, EventEnv, MAX_RECONNECT_TRIES,
};
use crate::proto::{CommandView, Lang};
use crate::protocol::ReplyView;
use crate::quoting::in_single_quotes;
use crate::session::{cwd_stepped, idle_for_injection, Session};
use crate::tabs::{is_due, is_reconnecting, retried};

verus! {

/// A session that lost its connection comes back where it was: once it is connected again and its
/// shell waits for input that nobody gave yet, the directory that it was in is changed to, once.
pub proof fn a_dropped_session_returns_to_its_directory(
    lost: Session,
    started: Session,
    connected: Session,
    quiet: Session,
    after: Session,
    lang: Lang,
    env: EventEnv,
    now: u64,
)
    requires
        lost.last_cwd@.len() > 0,
        is_reconnecting(lost, started, lang),
        connects(started, connected, env),
        quiet.last_cwd == connected.last_cwd,
        quiet.restore_cwd_until == connected.restore_cwd_until,
        idle_for_injection(quiet),
        cwd_stepped(quiet, after, true, now),
    ensures
        after.link.sends(
            quiet.link,
            CommandView::TerminalInput(
                encode_utf8("cd "@ + in_single_quotes(lost.last_cwd@) + "\r"@),
            ),
        ),
        after.restore_cwd_until is None,
        !connected.restore_cwd,
{
}

/// A session that cannot be reached is left alone after five automatic tries: each counts, and where
/// the connection is lost once more after the last one, no other is planned.
pub proof fn automatic_tries_come_to_an_end(
    waiting: Session,
    started: Session,
    dropped: Session,
    lost: Session,
    replies: Seq<ReplyView>,
    reason: Seq<char>,
    lang: Lang,
    env: EventEnv,
    now: u64,
)
    requires
        is_due(waiting, now),
        retried(waiting, started, lang, now),
        dropped.reconnect_tries == started.reconnect_tries,
        dropped.reconnect_at == started.reconnect_at,
        dropped.was_connected == started.was_connected,
        disconnects(dropped, lost, replies, reason, env),
    ensures
        waiting.reconnect_tries < u32::MAX ==> lost.reconnect_tries == waiting.reconnect_tries + 1,
        lost.reconnect_tries >= MAX_RECONNECT_TRIES ==> lost.reconnect_at is None,
{
}

/// One who typed first is not typed over: the wish to return to a directory is dropped.
pub proof fn a_typing_user_is_not_typed_over(quiet: Session, after: Session, now: u64)
    requires
        cwd_stepped(quiet, after, false, now),
    ensures
        after.link == quiet.link,
        after.restore_cwd_until is None,
{
}

/// The port forwards of a session survive a reconnect: each is set up again at its new worker,
/// behind the transfers that are resumed.
pub proof fn forwards_come_back(
    lost: Session,
    started: Session,
    connected: Session,
    lang: Lang,
    env: EventEnv,
)
    requires
        is_reconnecting(lost, started, lang),
        connects(started, connected, env),
        resume_commands(started.transfers@).len() + lost.forwards@.len() <= started.link.takes,
    ensures
        connected.link.log() == resume_commands(lost.transfers@) + readd_commands(lost.forwards@),
        connected.forwards@.len() == lost.forwards@.len(),
        forall|i: int|
            0 <= i < lost.forwards@.len() ==> (#[trigger] connected.forwards@[i]).id
                == lost.forwards@[i].id,
{
    assert(readd_commands(started.forwards@) =~= readd_commands(lost.forwards@)) by {
        assert forall|i: int| 0 <= i < lost.forwards@.len() implies readd_commands(
            started.forwards@,
        )[i] == readd_commands(lost.forwards@)[i] by {
            let f = started.forwards@[i];
            assert(f.id == lost.forwards@[i].id);
        }
    }
    let all = resume_commands(started.transfers@) + readd_commands(started.forwards@);
    assert(all.take(all.len() as int) =~= all);
    assert(started.link.log() + all =~= all);
    assert forall|i: int| 0 <= i < lost.forwards@.len() implies (
    #[trigger] connected.forwards@[i]).id == lost.forwards@[i].id by {
        assert(started.forwards@[i].id == lost.forwards@[i].id);
    }
}

} // verus!
