//! What holds of the tabs, of their connections and of the files that go between them.
use vstd::prelude::*;
use vstd::string::*;

use crate::app::{lemma_uid_pos, uid_pos, App};
use crate::clipboard::{DirectJob, PasteView, Relay, RelayPhase};
use crate::direct::{
    direct_ok, mirror_finished, push_fallback, push_moves, target_relisted,
};
use crate::events::{connects, disconnects, event_ok, EventEnv, WorkerEvent};
use crate::proto::{CommandView, Lang};
use crate::protocol::{reply_view, Reply, ReplyView};
use crate::relays::{relay_after, relay_moves, row_ok};
use crate::request_laws::lemma_sent_one;
use crate::saved::{ConnectConfig, ConnectView, Transport};
use crate::session::{cwd_stepped, Session};
use crate::tabs::{
    active_after_close, is_new_session, is_reconnecting, same_server, same_server_from, server_key,
};
use crate::text::{decimal, trim_of};
use crate::text_laws::lemma_decimal_differs;
use crate::transfers::{lemma_transfer_pos, transfer_pos};

verus! {

/// A session that loses its connection for the first time, or for the second to the fifth time in a
/// row, is tried again: after two seconds, and each time after twice as long. One that was never
/// connected is not tried again by itself.
pub proof fn a_lost_session_is_planned_to_be_tried_again(
    before: Session,
    after: Session,
    replies: Seq<ReplyView>,
    reason: Seq<char>,
    env: EventEnv,
)
    requires
        disconnects(before, after, replies, reason, env),
        env.now <= 0x4000_0000_0000_0000,
    ensures
        !after.connected,
        after.reconnect_tries == before.reconnect_tries,
        after.uid == before.uid && after.cfg == before.cfg && after.last_cwd == before.last_cwd,
        after.forwards == before.forwards,
        before.was_connected && before.reconnect_tries == 0 ==> after.reconnect_at == Some(
            (env.now + 2_000) as u64,
        ),
        before.was_connected && before.reconnect_tries == 1 ==> after.reconnect_at == Some(
            (env.now + 4_000) as u64,
        ),
        before.was_connected && before.reconnect_tries == 4 ==> after.reconnect_at == Some(
            (env.now + 30_000) as u64,
        ),
        before.was_connected && before.reconnect_tries < 5 ==> after.reconnect_at is Some,
        !before.was_connected || before.reconnect_tries >= 5 ==> after.reconnect_at
            == before.reconnect_at,
        before.was_connected && before.reconnect_tries >= 5 ==> after.pending.warn@.len()
            == before.pending.warn@.len() + 1,
{
    assert(crate::text::views(after.pending.warn@).len() == after.pending.warn@.len());
    assert(crate::text::views(before.pending.warn@).len() == before.pending.warn@.len());
}

/// A session that is connected again starts counting anew, and keeps what it is.
pub proof fn a_connected_session_counts_anew(before: Session, after: Session, env: EventEnv)
    requires
        connects(before, after, env),
    ensures
        after.connected && after.was_connected,
        after.reconnect_tries == 0 && after.reconnect_at is None,
        after.uid == before.uid && after.cfg == before.cfg && after.last_cwd == before.last_cwd,
        after.pending_ai_run == before.pending_ai_run && after.ai_owner == before.ai_owner
            && after.ai_owned == before.ai_owned,
        !after.mcp_token_injected,
{
}

/// The program types into a terminal by itself only where it is connected, is the user's own, nothing
/// runs in it, and neither a key was pressed nor anything printed for two seconds.
pub proof fn only_a_quiet_terminal_is_typed_into(
    before: Session,
    after: Session,
    never_typed: bool,
    now: u64,
)
    requires
        cwd_stepped(before, after, never_typed, now),
        after.link.sent@.len() != before.link.sent@.len(),
    ensures
        before.connected && !before.ai_owned && before.pending_ai_run is None,
        !before.terminal.capturing && !before.terminal.busy,
        before.terminal.output_idle_ms >= 2_000 && before.terminal.input_idle_ms >= 2_000,
        never_typed,
        before.restore_cwd_until is Some,
        after.restore_cwd_until is None,
        after.link.sent@.len() == before.link.sent@.len() + 1,
        after.link.sent@.last() is TerminalInput,
{
    assert(after.link.log().len() == after.link.sent@.len());
    assert(before.link.log().len() == before.link.sent@.len());
    assert(after.link.log().last() == after.link.sent@.last()@);
}

/// An image that has arrived has its path typed, the very path that it was sent to, and is waited for
/// no longer; one that did not arrive is not typed.
pub proof fn an_arrived_image_is_typed(
    before: Session,
    after: Session,
    replies: Seq<ReplyView>,
    id: u64,
    ok: bool,
    message: String,
    env: EventEnv,
    path: String,
)
    requires
        event_ok(
            before,
            after,
            replies,
            WorkerEvent::TransferDone { id, ok, message, refresh_dir: None },
            env,
        ),
        before.pending_paste_image@ == seq![(id, path)],
        before.pending_file_ops@.len() == 0,
        before.file_op_tombstones@.len() == 0,
        before.link.takes > 0,
    ensures
        after.pending_paste_image@.len() == 0,
        !ok ==> after.link == before.link,
        ok ==> {
            &&& after.link.sent@.len() == before.link.sent@.len() + 1
            &&& after.link.sent@.last() is TerminalInput
            &&& after.link.sent@.last()->TerminalInput_0@ == vstd::utf8::encode_utf8(
                crate::quoting::shell_word(
                    path@,
                    before.cfg.transport == Transport::Local && env.windows,
                ) + " "@,
            )
        },
{
    let kind = crate::file_ops::FileOpKind::Copy { op_id: id };
    let (listed, fresh, typed, claimed, reply) = choose|
        listed: Session,
        fresh: Session,
        typed: Session,
        claimed: bool,
        reply: Option<Reply>,
    |
        {
            &&& #[trigger] crate::events::transfer_listed(
                before,
                listed,
                id,
                ok,
                message@,
                env.lang,
            )
            &&& #[trigger] crate::session::refreshed(listed, fresh, None)
            &&& #[trigger] crate::events::paste_finished(fresh, typed, id, ok, env)
            &&& #[trigger] crate::file_ops::op_resolves(
                typed,
                after,
                kind,
                claimed,
                reply,
                crate::file_ops::copy_reply(crate::events::copy_outcome(ok, message)),
            )
            &&& replies == match reply_view(reply) {
                Some(r) => seq![r],
                None => seq![],
            }
        };
    reveal_with_fuel(crate::events::paste_pos, 2);
    assert(fresh.pending_paste_image@ == seq![(id, path)]);
    assert(fresh.pending_paste_image@.drop_last() =~= Seq::empty());
    crate::file_ops::lemma_op_pos(typed.pending_file_ops@, kind);
    assert(after == typed);
    assert(fresh.link == before.link);
    if ok {
        lemma_sent_one(
            before.link,
            after.link,
            CommandView::TerminalInput(
                vstd::utf8::encode_utf8(
                    crate::quoting::shell_word(
                        path@,
                        before.cfg.transport == Transport::Local && env.windows,
                    ) + " "@,
                ),
            ),
        );
    }
}

/// A directory that a report asks to be listed again is listed again, that one and no other.
pub proof fn the_reported_directory_is_listed_again(
    before: Session,
    after: Session,
    replies: Seq<ReplyView>,
    message: String,
    dir: String,
    env: EventEnv,
)
    requires
        event_ok(
            before,
            after,
            replies,
            WorkerEvent::OpDone { message, refresh_dir: Some(dir) },
            env,
        ),
        before.link.takes > 0,
    ensures
        after.link.sent@.len() == before.link.sent@.len() + 1,
        after.link.sent@.last() is ListDir,
        after.link.sent@.last()->ListDir_0@ == dir@,
        after.status@ == message@,
{
    lemma_sent_one(before.link, after.link, CommandView::ListDir(dir@));
}

/// A copy through this machine that goes on is the one that was started: nothing of it changes but
/// which half is under way, and the second half begins only after the first.
pub proof fn a_relayed_copy_stays_what_it_is(ss: Seq<Session>, r: Relay)
    ensures
        relay_after(ss, r) is Some ==> {
            let q = relay_after(ss, r)->0;
            &&& q.src_path == r.src_path && q.is_dir == r.is_dir && q.is_cut == r.is_cut
            &&& q.src_uid == r.src_uid && q.dest_uid == r.dest_uid && q.dest_dir == r.dest_dir
            &&& q.tmp == r.tmp && q.up_id == r.up_id
            &&& q.phase != r.phase ==> r.phase is Down && q.phase == RelayPhase::Up(r.up_id)
                && row_ok(ss, r.src_uid, r.phase->Down_0) == Some(true)
        },
{
}

/// An upload that waits for a download which failed fails too.
pub proof fn a_failed_download_fails_its_upload(
    ss: Seq<Session>,
    after: Seq<Session>,
    r: Relay,
    percent: u32,
    lang: Lang,
    s: int,
    t: int,
)
    requires
        relay_moves(ss, after, r, percent, lang),
        r.phase is Down,
        row_ok(ss, r.src_uid, r.phase->Down_0) == Some(false),
        uid_pos(ss, r.dest_uid) == Some(s),
        transfer_pos(ss[s].transfers@, r.up_id) == Some(t),
    ensures
        after[s].transfers@[t].ok == Some(false),
        !after[s].transfers@[t].queued,
        after[s].transfers@[t].id == r.up_id,
        after[s].link == ss[s].link,
        relay_after(ss, r) is None,
{
    lemma_uid_pos(ss, r.dest_uid);
    lemma_transfer_pos(ss[s].transfers@, r.up_id);
}

/// A push that failed leaves the question whether the very same paste, the same files from the same
/// source to the same directory, is to go through this machine; one that runs or succeeded, and one
/// that the user cancelled, leaves none.
pub proof fn a_failed_push_is_asked_about_whole(ss: Seq<Session>, job: DirectJob, lang: Lang)
    ensures
        push_fallback(ss, job, lang) is Some ==> {
            let p = push_fallback(ss, job, lang)->0.plan;
            &&& p.items.len() == job.items@.len()
            &&& forall|k: int|
                0 <= k < p.items.len() ==> (#[trigger] p.items[k]).0 == job.items@[k].0@
                    && p.items[k].1 == job.items@[k].1
            &&& p.src_uid == job.src_uid && p.dest_uid == job.dest_uid
            &&& p.dest_dir == job.dest_dir@ && p.src_dir == job.src_dir@
            &&& p.is_cut == job.is_cut && p.cross && !p.direct
            &&& !job.cancelled
            &&& row_ok(ss, job.src_uid, job.id) == Some(false)
        },
        row_ok(ss, job.src_uid, job.id) == Some(false) && !job.cancelled && uid_pos(
            ss,
            job.src_uid,
        ) is Some && uid_pos(ss, job.dest_uid) is Some ==> push_fallback(ss, job, lang) is Some,
{
}

/// Nothing is pushed to a host whose key is not known before the user agreed: the plan is kept as it
/// is, to be asked about.
pub proof fn an_unknown_host_is_asked_about(
    before: App,
    after: App,
    plan: PasteView,
    si: int,
    di: int,
)
    requires
        direct_ok(before, after, plan, false, false),
        uid_pos(before.sessions@, plan.src_uid) == Some(si),
        uid_pos(before.sessions@, plan.dest_uid) == Some(di),
    ensures
        after.sessions == before.sessions,
        after.xfer.direct_jobs == before.xfer.direct_jobs,
        after.xfer.pending_direct_hostkey is Some && after.xfer.pending_direct_hostkey->0@ == plan
            || after.xfer.pending_direct_fallback@.len()
            == before.xfer.pending_direct_fallback@.len() + 1,
{
    assert(crate::direct::fallbacks(after.xfer.pending_direct_fallback@).len()
        == after.xfer.pending_direct_fallback@.len());
    assert(crate::direct::fallbacks(before.xfer.pending_direct_fallback@).len()
        == before.xfer.pending_direct_fallback@.len());
}

/// A new tab connects to what it was opened for, has a number of its own, and is called by the label
/// of its connection, or by its user where it has none.
pub proof fn a_new_tab_is_for_its_connection(s: Session, uid: u64, cfg: ConnectConfig, lang: Lang)
    requires
        is_new_session(s, uid, cfg, lang),
    ensures
        s.uid == uid && s.cfg == cfg,
        trim_of(cfg.label@).len() > 0 ==> s.title@ == trim_of(cfg.label@),
        trim_of(cfg.label@).len() == 0 ==> s.title@ == cfg.username@,
        !s.connected && !s.was_connected && !s.ai_owned && s.ai_owner is None,
        s.link.sent@.len() == 0 && s.transfers@.len() == 0 && s.forwards@.len() == 0,
        s.pending_ai_run is None && s.pending_file_ops@.len() == 0,
{
}

/// Servers that differ in one of user, host and port keep their favourites apart, and a terminal of
/// this machine keeps its own.
pub proof fn servers_keep_their_favourites_apart(a: ConnectView, b: ConnectView)
    requires
        a.transport == Transport::Ssh && b.transport == Transport::Ssh,
    ensures
        a.username == b.username && a.host == b.host && a.port != b.port ==> server_key(a)
            != server_key(b),
        a.username == b.username && a.port == b.port && a.host != b.host ==> server_key(a)
            != server_key(b),
        a.host == b.host && a.port == b.port && a.username != b.username ==> server_key(a)
            != server_key(b),
        a.username == b.username && a.host == b.host && a.port == b.port ==> server_key(a)
            == server_key(b),
{
    let x = server_key(a);
    let y = server_key(b);
    let pa = decimal(a.port as nat);
    let pb = decimal(b.port as nat);
    let at = "@"@;
    let colon = ":"@;
    assert(x == a.username + at + a.host + colon + pa);
    assert(y == b.username + at + b.host + colon + pb);
    if x == y {
        if a.username == b.username && a.host == b.host && a.port != b.port {
            let n = (a.username + at + a.host + colon).len() as int;
            assert(x.skip(n) =~= pa);
            assert(y.skip(n) =~= pb);
            lemma_decimal_differs(a.port as nat, b.port as nat);
        }
        if a.username == b.username && a.port == b.port {
            let n = (a.username + at).len() as int;
            let t = (colon + pa).len() as int;
            assert(x.subrange(n, x.len() - t) =~= a.host);
            assert(y.subrange(n, y.len() - t) =~= b.host);
        }
        if a.host == b.host && a.port == b.port {
            let t = (at + a.host + colon + pa).len() as int;
            assert(x.subrange(0, x.len() - t) =~= a.username);
            assert(y.subrange(0, y.len() - t) =~= b.username);
        }
    }
}

/// Closing the tab that is shown shows the one that takes its place, or the last one; the shown tab
/// exists as long as there is any.
pub proof fn closing_the_shown_tab_shows_its_neighbour(active: usize, idx: int, left: int)
    requires
        0 <= idx <= left,
        active <= left,
        left > 0,
    ensures
        ({
            let a = active_after_close(Some(active), idx, left)->0;
            &&& active_after_close(Some(active), idx, left) is Some
            &&& 0 <= a < left
            &&& active == idx && idx < left ==> a == idx
            &&& active == idx && idx == left ==> a == left - 1
            &&& active < idx ==> a == active
            &&& active > idx ==> a == active - 1
        }),
{
}

proof fn lemma_server_from(ss: Seq<Session>, host: Seq<char>, port: u16, skip: int, i: int, k: int)
    requires
        0 <= i <= ss.len(),
        ss.len() <= usize::MAX,
        0 <= k < ss.len(),
    ensures
        same_server_from(ss, host, port, skip, i).contains(k as usize) <==> k >= i && k != skip
            && ss[k].cfg.host@ == host && ss[k].cfg.port == port,
    decreases ss.len() - i,
{
    let all = same_server_from(ss, host, port, skip, i);
    if i < ss.len() {
        lemma_server_from(ss, host, port, skip, i + 1, k);
        let rest = same_server_from(ss, host, port, skip, i + 1);
        if i != skip && ss[i].cfg.host@ == host && ss[i].cfg.port == port {
            assert(all == seq![i as usize] + rest);
            assert(all[0] == i as usize);
            if rest.contains(k as usize) {
                let n = choose|n: int| 0 <= n < rest.len() && rest[n] == k as usize;
                assert(all[n + 1] == k as usize);
            }
            if all.contains(k as usize) && k != i {
                let n = choose|n: int| 0 <= n < all.len() && all[n] == k as usize;
                assert(n > 0);
                assert(rest[n - 1] == k as usize);
            }
        }
    }
}

/// The tabs that go together are those of the same host and port, the one that was asked about first.
pub proof fn tabs_of_one_server_go_together(ss: Seq<Session>, idx: int, k: int)
    requires
        0 <= idx < ss.len() <= usize::MAX,
        0 <= k < ss.len(),
    ensures
        same_server(ss, idx)[0] == idx,
        same_server(ss, idx).contains(k as usize) <==> k == idx || (ss[k].cfg.host@
            == ss[idx].cfg.host@ && ss[k].cfg.port == ss[idx].cfg.port),
{
    let rest = same_server_from(ss, ss[idx].cfg.host@, ss[idx].cfg.port, idx, 0);
    let all = same_server(ss, idx);
    lemma_server_from(ss, ss[idx].cfg.host@, ss[idx].cfg.port, idx, 0, k);
    assert(all[0] == idx as usize);
    if rest.contains(k as usize) {
        let n = choose|n: int| 0 <= n < rest.len() && rest[n] == k as usize;
        assert(all[n + 1] == k as usize);
    }
    if all.contains(k as usize) && k != idx {
        let n = choose|n: int| 0 <= n < all.len() && all[n] == k as usize;
        assert(n > 0);
        assert(rest[n - 1] == k as usize);
    }
}

/// A tab that is connected again is the tab that it was: the same number, the same connection, the same
/// title and owner, its transfers, its forwards and the directory to go back to. What its old
/// connection was asked for is asked of nobody.
pub proof fn a_reconnected_tab_stays_what_it_is(before: Session, after: Session, lang: Lang, k: int)
    requires
        is_reconnecting(before, after, lang),
    ensures
        after.uid == before.uid && after.cfg == before.cfg && after.title == before.title,
        after.ai_owned == before.ai_owned && after.ai_owner == before.ai_owner,
        after.transfers == before.transfers && after.last_cwd == before.last_cwd,
        after.restore_cwd && !after.connected && after.reconnect_at is None,
        after.pending_ai_run is None && after.pending_file_ops@.len() == 0,
        after.link.sent@.len() == 0 && !after.terminal.capturing,
        after.forwards@.len() == before.forwards@.len(),
        0 <= k < before.forwards@.len() ==> {
            &&& after.forwards@[k].id == before.forwards@[k].id
            &&& after.forwards@[k].bind_host == before.forwards@[k].bind_host
            &&& after.forwards@[k].bind_port == before.forwards@[k].bind_port
            &&& after.forwards@[k].kind == before.forwards@[k].kind
        },
{
}

/// A push that ended shows at its target how it ended; one that succeeded has the target's directory
/// listed again, so that the files are seen.
pub proof fn a_push_shows_how_it_ended(
    ss: Seq<Session>,
    after: Seq<Session>,
    job: DirectJob,
    lang: Lang,
    s: int,
    t: int,
    d: int,
    u: int,
)
    requires
        push_moves(ss, after, job, lang),
        crate::step_laws::row_at(ss, job.src_uid, job.id, s, t),
        ss[s].transfers@[t].ok is Some,
        crate::step_laws::row_at(ss, job.dest_uid, job.mir_id, d, u),
        s != d,
    ensures
        after[d].transfers@[u].ok == ss[s].transfers@[t].ok,
        after[d].transfers@[u].id == job.mir_id,
        ss[s].transfers@[t].ok == Some(true) ==> after[d].transfers@[u].done
            == ss[d].transfers@[u].total,
        ss[s].transfers@[t].ok == Some(true) && ss[d].link.takes > 0 ==> {
            &&& after[d].link.sent@.len() == ss[d].link.sent@.len() + 1
            &&& after[d].link.sent@.last() is ListDir
            &&& after[d].link.sent@.last()->ListDir_0@ == job.dest_dir@
        },
        ss[s].transfers@[t].ok == Some(false) ==> after[d].link == ss[d].link && after[s] == ss[s],
{
    crate::step_laws::lemma_row_at(ss, job.src_uid, job.id, s, t);
    crate::step_laws::lemma_row_at(ss, job.dest_uid, job.mir_id, d, u);
    if ss[s].transfers@[t].ok == Some(true) {
        let (a, b) = choose|a: Seq<Session>, b: Seq<Session>|
            {
                &&& #[trigger] mirror_finished(
                    ss,
                    a,
                    job,
                    true,
                    crate::proto::tr_of(lang, "直传完成"@, "Direct transfer done"@),
                )
                &&& crate::relays::source_deleted(
                    a,
                    b,
                    job.src_uid,
                    job.is_cut,
                    crate::clipboard::paths_of(crate::relays::named(job.items@)),
                )
                &&& #[trigger] target_relisted(b, after, job)
            };
        assert forall|k: int| 0 <= k < ss.len() implies (#[trigger] a[k]).uid == ss[k].uid by {}
        crate::app::lemma_uid_pos_same(ss, a, job.src_uid);
        assert(b.len() == ss.len());
        assert forall|k: int| 0 <= k < ss.len() implies (#[trigger] b[k]).uid == ss[k].uid by {
            assert(a[k].uid == ss[k].uid);
        }
        crate::app::lemma_uid_pos_same(ss, b, job.dest_uid);
        assert(b[d] == a[d]);
        if ss[d].link.takes > 0 {
            lemma_sent_one(b[d].link, after[d].link, CommandView::ListDir(job.dest_dir@));
        }
    }
}

} // verus!
