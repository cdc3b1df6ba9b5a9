//! What starts a transfer again, what stops it, and what a copy between two servers moves, told by
//! the commands that the workers get.
use vstd::prelude::*;
use vstd::string::*;

use crate::app::{lemma_uid_pos, uid_pos, App};
use crate::clipboard::{DirectJob, PasteView, Relay, RelayPhase};
use crate::direct::{push_moves, push_started, push_steps, source_outlives_a_failed_push};
use crate::events::{
    connects, disconnects, readd_commands, resume_commands, transfer_interrupted, EventEnv,
};
use crate::paste::{item_relayed, PasteEnv};
use crate::proto::{tr_of, CommandView, ConflictPolicy, Lang, Link, UiCommand};
use crate::protocol::ReplyView;
use crate::relays::{relay_moves, row_ok};
use crate::request_laws::{lemma_sent_one, lemma_stands, stands_at};
use crate::session::Session;
use crate::transfer_list::{
    retries, row_cancelled, row_restarted, row_resumed, session_retried, session_retries,
};
use crate::transfers::{lemma_transfer_pos, transfer_pos, Transfer, XferSpec};

verus! {

/// A command asks for a transfer as its row remembers it: the same number, the same file here and
/// the same file there, over what is there.
pub open spec fn asks_for(cmd: UiCommand, t: Transfer) -> bool {
    &&& t.spec is Some
    &&& match t.spec->0 {
        XferSpec::Download { remote, local } => {
            &&& cmd is Download
            &&& cmd->Download_id == t.id
            &&& cmd->Download_remote@ == remote@
            &&& cmd->Download_local@ == local@
            &&& cmd->Download_policy == ConflictPolicy::Overwrite
        },
        XferSpec::Upload { local, remote_dir } => {
            &&& cmd is Upload
            &&& cmd->Upload_id == t.id
            &&& cmd->Upload_local@ == local@
            &&& cmd->Upload_remote_dir@ == remote_dir@
            &&& cmd->Upload_remote_name is None
            &&& cmd->Upload_policy == ConflictPolicy::Overwrite
        },
    }
}

proof fn lemma_asks_for(cmd: UiCommand, t: Transfer)
    requires
        t.spec is Some,
        cmd@ == t.spec->0.command(t.id),
    ensures
        asks_for(cmd, t),
{
}

/// A transfer that a lost connection interrupted is asked for again, file by file as it was, once
/// the session is connected.
pub proof fn an_interrupted_transfer_is_asked_for_again(
    before: Session,
    lost: Session,
    replies: Seq<ReplyView>,
    reason: Seq<char>,
    again: Session,
    after: Session,
    env: EventEnv,
    env2: EventEnv,
    i: int,
)
    requires
        disconnects(before, lost, replies, reason, env),
        again.transfers@ == lost.transfers@,
        connects(again, after, env2),
        0 <= i < before.transfers@.len(),
        before.transfers@[i].spec is Some,
        before.transfers@[i].ok != Some(true),
        again.link.takes >= before.transfers@.len() + again.forwards@.len(),
    ensures
        exists|k: int|
            again.link.sent@.len() <= k < after.link.sent@.len() && asks_for(
                #[trigger] after.link.sent@[k],
                before.transfers@[i],
            ),
        after.transfers@[i].id == before.transfers@[i].id,
        after.transfers@[i].spec == before.transfers@[i].spec,
        after.transfers@[i].ok is None && !after.transfers@[i].paused,
{
    let t = before.transfers@[i];
    lemma_resume_len(again.transfers@);
    crate::events::interrupted_transfers_are_resumed(
        before,
        lost,
        replies,
        reason,
        again,
        after,
        env,
        env2,
        i,
    );
    assert(transfer_interrupted(t, lost.transfers@[i], env.lang));
    let new = after.link.log().skip(again.link.log().len() as int);
    let cmd = t.spec->0.command(t.id);
    let j = choose|j: int| 0 <= j < new.len() && new[j] == cmd;
    let k = again.link.sent@.len() + j;
    assert(after.link.log()[k] == new[j]);
    assert(after.link.log()[k] == after.link.sent@[k]@);
    lemma_asks_for(after.link.sent@[k], t);
}

pub(crate) proof fn lemma_resume_len(ts: Seq<Transfer>)
    ensures
        resume_commands(ts).len() <= ts.len(),
    decreases ts.len(),
{
    if ts.len() > 0 {
        lemma_resume_len(ts.drop_last());
    }
}

/// A row that the user resumes or tries again is asked for as it was, by its own session alone.
pub proof fn a_resumed_row_is_asked_for_again(
    before: App,
    after: App,
    uid: u64,
    id: u64,
    i: int,
    k: int,
)
    requires
        row_resumed(before, after, uid, id),
        stands_at(before, uid, i),
        before.sessions@[i].link.takes > 0,
        0 <= k < before.sessions@[i].transfers@.len(),
        before.sessions@[i].transfers@[k].id == id,
        before.sessions@[i].transfers@[k].spec is Some,
        forall|j: int| 0 <= j < k ==> (#[trigger] before.sessions@[i].transfers@[j]).id != id,
    ensures
        after.sessions@[i].link.sent@.len() == before.sessions@[i].link.sent@.len() + 1,
        asks_for(after.sessions@[i].link.sent@.last(), before.sessions@[i].transfers@[k]),
        after.sessions@[i].transfers@[k].ok is None,
        !after.sessions@[i].transfers@[k].paused,
        after.sessions@[i].transfers@[k].id == id,
        forall|j: int|
            0 <= j < before.sessions@.len() && j != i ==> #[trigger] after.sessions@[j]
                == before.sessions@[j],
{
    lemma_stands(before, uid, i);
    let ts = before.sessions@[i].transfers@;
    lemma_transfer_pos(ts, id);
    let p = transfer_pos(ts, id);
    assert(p is Some);
    assert(p->0 == k) by {
        if p->0 < k {
            assert(ts[p->0].id != id);
        } else if p->0 > k {
            assert(ts[k].id != id);
        }
    }
    let cmd = ts[k].spec->0.command(id);
    lemma_sent_one(before.sessions@[i].link, after.sessions@[i].link, cmd);
    lemma_asks_for(after.sessions@[i].link.sent@.last(), ts[k]);
}

proof fn lemma_retries(ts: Seq<Transfer>, i: int) -> (j: int)
    requires
        0 <= i < ts.len(),
        ts[i].ok == Some(false),
        ts[i].spec is Some,
    ensures
        0 <= j < retries(ts).len(),
        retries(ts)[j] == (ts[i].id, ts[i].spec->0.command(ts[i].id)),
    decreases ts.len(),
{
    if i == ts.len() - 1 {
        retries(ts).len() - 1
    } else {
        let j = lemma_retries(ts.drop_last(), i);
        assert(retries(ts)[j] == retries(ts.drop_last())[j]);
        j
    }
}

proof fn lemma_retried_by(ts: Seq<Transfer>, j: int) -> (i: int)
    requires
        0 <= j < retries(ts).len(),
    ensures
        0 <= i < ts.len(),
        ts[i].ok == Some(false),
        ts[i].spec is Some,
        retries(ts)[j] == (ts[i].id, ts[i].spec->0.command(ts[i].id)),
    decreases ts.len(),
{
    let rest = retries(ts.drop_last());
    if j < rest.len() {
        let i = lemma_retried_by(ts.drop_last(), j);
        assert(retries(ts)[j] == rest[j]);
        i
    } else {
        ts.len() - 1
    }
}

proof fn lemma_retry_log(states: Seq<Session>, targets: Seq<(u64, CommandView)>, lang: Lang, n: int)
    requires
        session_retries(states, targets, lang),
        0 <= n <= targets.len(),
        states[0].link.takes >= targets.len(),
    ensures
        states[n].link.takes == states[0].link.takes - n,
        states[n].link.log().len() == states[0].link.log().len() + n,
        forall|k: int|
            0 <= k < states[0].link.log().len() ==> #[trigger] states[n].link.log()[k]
                == states[0].link.log()[k],
        forall|k: int|
            0 <= k < n ==> states[n].link.log()[states[0].link.log().len() + k] == (
            #[trigger] targets[k]).1,
    decreases n,
{
    if n > 0 {
        lemma_retry_log(states, targets, lang, n - 1);
        let c = targets[n - 1];
        assert(row_restarted(
            states[n - 1],
            states[n - 1 + 1],
            c.0,
            c.1,
            tr_of(lang, "重试中 …"@, "Retrying …"@),
        ));
        assert(states[n].link.log() == states[n - 1].link.log().push(c.1));
        assert forall|k: int| 0 <= k < n implies states[n].link.log()[states[0].link.log().len() + k]
            == (#[trigger] targets[k]).1 by {
            if k < n - 1 {
                assert(states[n - 1].link.log()[states[0].link.log().len() + k] == targets[k].1);
            }
        }
    }
}

/// Trying all failed transfers of a session again asks for each of them as it was, and for nothing
/// else: a transfer that runs or succeeded is not asked for.
pub proof fn all_failed_transfers_are_asked_for_again(
    before: Session,
    after: Session,
    lang: Lang,
    i: int,
    k: int,
)
    requires
        session_retried(before, after, lang),
        before.link.takes >= before.transfers@.len(),
        0 <= i < before.transfers@.len(),
        before.link.sent@.len() <= k < after.link.sent@.len(),
    ensures
        before.transfers@[i].ok == Some(false) && before.transfers@[i].spec is Some ==> exists|n: int|
            before.link.sent@.len() <= n < after.link.sent@.len() && asks_for(
                #[trigger] after.link.sent@[n],
                before.transfers@[i],
            ),
        exists|n: int|
            0 <= n < before.transfers@.len() && (#[trigger] before.transfers@[n]).ok == Some(false)
                && asks_for(after.link.sent@[k], before.transfers@[n]),
{
    let ts = before.transfers@;
    let targets = retries(ts);
    let states = choose|states: Seq<Session>|
        {
            &&& #[trigger] session_retries(states, targets, lang)
            &&& states[0] == before
            &&& states[targets.len() as int] == after
        };
    lemma_retries_len(ts);
    lemma_retry_log(states, targets, lang, targets.len() as int);
    let old = before.link.sent@.len() as int;
    assert(after.link.log().len() == after.link.sent@.len());
    if ts[i].ok == Some(false) && ts[i].spec is Some {
        let j = lemma_retries(ts, i);
        assert(after.link.log()[old + j] == targets[j].1);
        assert(after.link.log()[old + j] == after.link.sent@[old + j]@);
        lemma_asks_for(after.link.sent@[old + j], ts[i]);
    }
    let n = lemma_retried_by(ts, k - old);
    assert(after.link.log()[old + (k - old)] == targets[k - old].1);
    assert(after.link.log()[k] == after.link.sent@[k]@);
    lemma_asks_for(after.link.sent@[k], ts[n]);
}

proof fn lemma_retries_len(ts: Seq<Transfer>)
    ensures
        retries(ts).len() <= ts.len(),
    decreases ts.len(),
{
    if ts.len() > 0 {
        lemma_retries_len(ts.drop_last());
    }
}

/// Cancelling a transfer that belongs to no push stops that transfer, in its session, and nothing
/// else.
pub proof fn a_cancelled_transfer_is_stopped(before: App, after: App, uid: u64, id: u64, i: int)
    requires
        row_cancelled(before, after, uid, id),
        stands_at(before, uid, i),
        before.sessions@[i].link.takes > 0,
        before.xfer.direct_jobs@.len() == 0,
    ensures
        after.sessions@[i].link.sent@.len() == before.sessions@[i].link.sent@.len() + 1,
        after.sessions@[i].link.sent@.last() == UiCommand::CancelTransfer(id),
        after.sessions@[i].transfers == before.sessions@[i].transfers,
        forall|j: int|
            0 <= j < before.sessions@.len() && j != i ==> #[trigger] after.sessions@[j]
                == before.sessions@[j],
{
    lemma_stands(before, uid, i);
    lemma_sent_one(
        before.sessions@[i].link,
        after.sessions@[i].link,
        CommandView::CancelTransfer(id),
    );
}

/// Cancelling a push, at whichever end, stops the transfer at its source and marks the push.
pub proof fn a_cancelled_push_is_stopped_at_its_source(
    before: App,
    after: App,
    uid: u64,
    id: u64,
    i: int,
)
    requires
        row_cancelled(before, after, uid, id),
        before.xfer.direct_jobs@.len() == 1,
        ({
            let j = before.xfer.direct_jobs@[0];
            (j.src_uid == uid && j.id == id) || (j.dest_uid == uid && j.mir_id == id)
        }),
        stands_at(before, before.xfer.direct_jobs@[0].src_uid, i),
        before.sessions@[i].link.takes > 0,
    ensures
        after.sessions@[i].link.sent@.len() == before.sessions@[i].link.sent@.len() + 1,
        after.sessions@[i].link.sent@.last() == UiCommand::CancelTransfer(
            before.xfer.direct_jobs@[0].id,
        ),
        after.xfer.direct_jobs@.len() == 1,
        after.xfer.direct_jobs@[0].cancelled,
        after.xfer.direct_jobs@[0].id == before.xfer.direct_jobs@[0].id,
{
    let jobs = before.xfer.direct_jobs@;
    lemma_stands(before, jobs[0].src_uid, i);
    reveal_with_fuel(crate::direct::cancel_pos, 2);
    assert(jobs.drop_last() =~= Seq::empty());
    lemma_sent_one(
        before.sessions@[i].link,
        after.sessions@[i].link,
        CommandView::CancelTransfer(jobs[0].id),
    );
}

/// The first half of a copy through this machine fetches the file that was pasted from its own
/// session into the copy's temporary file, over what is there, and the copy remembers where the
/// file goes.
pub proof fn a_relayed_file_is_fetched_from_its_source(
    before: App,
    after: App,
    plan: PasteView,
    env: PasteEnv,
    si: int,
    di: int,
    item: (Seq<char>, bool),
)
    requires
        item_relayed(before, after, plan, env, si, di, item),
        0 <= si < before.sessions@.len(),
        0 <= di < before.sessions@.len(),
        si != di,
        before.sessions@[si].link.takes > 0,
    ensures
        ({
            let s = before.sessions@[si];
            let t = after.sessions@[si];
            let cmd = t.link.sent@.last();
            let r = after.xfer.relays@.last();
            &&& t.link.sent@.len() == s.link.sent@.len() + 1
            &&& cmd is Download
            &&& cmd->Download_id == s.next_xfer
            &&& cmd->Download_remote@ == item.0
            &&& cmd->Download_local@ == r.tmp@
            &&& cmd->Download_policy == ConflictPolicy::Overwrite
            &&& after.xfer.relays@.len() == before.xfer.relays@.len() + 1
            &&& r.phase == RelayPhase::Down(s.next_xfer)
            &&& r.up_id == before.sessions@[di].next_xfer
            &&& r.src_uid == plan.src_uid && r.dest_uid == plan.dest_uid
            &&& r.src_path@ == item.0 && r.dest_dir@ == plan.dest_dir
            &&& r.is_cut == plan.is_cut && r.is_dir == item.1
            &&& t.next_xfer > s.next_xfer
        }),
        after.sessions@[di].link == before.sessions@[di].link,
{
    let r = after.xfer.relays@.last();
    let mid = choose|mid: Seq<Session>|
        {
            &&& mid == before.sessions@.update(si, mid[si])
            &&& #[trigger] crate::paste::download_asked(
                before.sessions@[si],
                mid[si],
                item.0,
                r.tmp@,
            )
            &&& r.up_id == mid[di].next_xfer
            &&& after.sessions@ == mid.update(di, after.sessions@[di])
            &&& #[trigger] crate::paste::upload_queued(
                mid[di],
                after.sessions@[di],
                crate::paste::item_name(item.0),
                before.lang,
            )
        };
    lemma_sent_one(
        before.sessions@[si].link,
        mid[si].link,
        CommandView::Download {
            id: before.sessions@[si].next_xfer,
            remote: item.0,
            local: r.tmp@,
            policy: ConflictPolicy::Overwrite,
        },
    );
    assert(after.sessions@[si] == mid[si]);
}

/// The second half sends that temporary file to the directory of the target, and only once the
/// first half succeeded.
pub proof fn a_relayed_file_is_sent_to_its_target(
    ss: Seq<Session>,
    after: Seq<Session>,
    r: Relay,
    percent: u32,
    lang: Lang,
    s: int,
)
    requires
        relay_moves(ss, after, r, percent, lang),
        0 <= s < ss.len(),
        after[s].link.sent@.len() > ss[s].link.sent@.len(),
        after[s].link.sent@.last() is Upload,
    ensures
        after[s].link.sent@.len() == ss[s].link.sent@.len() + 1,
        ss[s].uid == r.dest_uid,
        r.phase is Down,
        row_ok(ss, r.src_uid, r.phase->Down_0) == Some(true),
        ({
            let cmd = after[s].link.sent@.last();
            &&& cmd->Upload_id == r.up_id
            &&& cmd->Upload_local@ == r.tmp@
            &&& cmd->Upload_remote_dir@ == r.dest_dir@
            &&& cmd->Upload_remote_name is None
            &&& cmd->Upload_policy == ConflictPolicy::Overwrite
        }),
{
    lemma_uid_pos(ss, r.src_uid);
    lemma_uid_pos(ss, r.dest_uid);
    assert(after[s].link.log().len() == after[s].link.sent@.len());
    assert(ss[s].link.log().len() == ss[s].link.sent@.len());
    assert(after[s].link.log().last() == after[s].link.sent@.last()@);
}

/// A frame of a copy through this machine sends its two ends nothing but the upload to the target
/// and, for a move whose upload succeeded, the order to the source to delete that one file.
pub proof fn a_relayed_copy_deletes_nothing(
    ss: Seq<Session>,
    after: Seq<Session>,
    r: Relay,
    percent: u32,
    lang: Lang,
    s: int,
)
    requires
        relay_moves(ss, after, r, percent, lang),
        0 <= s < ss.len(),
        after[s].link.sent@.len() > ss[s].link.sent@.len(),
        !(after[s].link.sent@.last() is Upload),
    ensures
        r.is_cut,
        r.phase is Up,
        row_ok(ss, r.dest_uid, r.phase->Up_0) == Some(true),
        ss[s].uid == r.src_uid,
        after[s].link.sent@.last() is DeleteMany,
        after[s].link.sent@.last()->DeleteMany_paths@.len() == 1,
        after[s].link.sent@.last()->DeleteMany_paths@[0]@ == r.src_path@,
{
    lemma_uid_pos(ss, r.src_uid);
    lemma_uid_pos(ss, r.dest_uid);
    assert(after[s].link.log().len() == after[s].link.sent@.len());
    assert(ss[s].link.log().len() == ss[s].link.sent@.len());
    assert(after[s].link.log().last() == after[s].link.sent@.last()@);
    let cmd = after[s].link.sent@.last();
    assert(cmd is DeleteMany);
    let paths = cmd->DeleteMany_paths@;
    assert(crate::text::views(paths) == seq![r.src_path@]);
    assert(crate::text::views(paths).len() == paths.len());
    assert(crate::text::views(paths)[0] == paths[0]@);
}

/// A push from one server to another is ordered from the source alone: it names every pasted file,
/// the target's own login and directory, and the key that lets the source in there.
pub proof fn a_push_goes_to_the_target(
    before: App,
    after: App,
    plan: PasteView,
    si: int,
    di: int,
    key: Seq<char>,
    host_known: bool,
)
    requires
        push_started(before, after, plan, si, di, key, host_known),
        0 <= si < before.sessions@.len(),
        0 <= di < before.sessions@.len(),
        si != di,
        before.sessions@[si].link.takes > 0,
    ensures
        ({
            let s = before.sessions@[si];
            let d = before.sessions@[di];
            let t = after.sessions@[si];
            let cmd = t.link.sent@.last();
            let spec = cmd->DirectTransfer_0;
            let j = after.xfer.direct_jobs@.last();
            &&& t.link.sent@.len() == s.link.sent@.len() + 1
            &&& cmd is DirectTransfer
            &&& spec.id == s.next_xfer
            &&& spec.srcs@.len() == plan.items.len()
            &&& forall|k: int|
                0 <= k < plan.items.len() ==> (#[trigger] spec.srcs@[k])@ == plan.items[k].0
            &&& spec.dest_user@ == d.cfg.username@
            &&& spec.dest_host@ == d.cfg.host@
            &&& spec.dest_port == d.cfg.port
            &&& spec.dest_dir@ == plan.dest_dir
            &&& spec.key_path@ == key
            &&& spec.dest_host_known == host_known
            &&& after.xfer.direct_jobs@.len() == before.xfer.direct_jobs@.len() + 1
            &&& j.id == s.next_xfer && j.mir_id == d.next_xfer
            &&& j.src_uid == plan.src_uid && j.dest_uid == plan.dest_uid
            &&& j.dest_dir@ == plan.dest_dir && j.src_dir@ == plan.src_dir
            &&& j.is_cut == plan.is_cut && !j.cancelled
        }),
        after.sessions@[di].link == before.sessions@[di].link,
{
    let steps = choose|steps: Seq<Seq<Session>>|
        {
            &&& #[trigger] push_steps(steps, plan, si, di, key, host_known, before.lang)
            &&& steps[0] == before.sessions@
            &&& steps[4] == after.sessions@
            &&& after.xfer.direct_jobs@.len() == before.xfer.direct_jobs@.len() + 1
            &&& after.xfer.direct_jobs@.drop_last() == before.xfer.direct_jobs@
            &&& crate::direct::is_job(
                after.xfer.direct_jobs@.last(),
                plan,
                steps[0][si].next_xfer,
                steps[1][di].next_xfer,
            )
            &&& after == (App {
                sessions: after.sessions,
                xfer: crate::clipboard::Transfers {
                    direct_jobs: after.xfer.direct_jobs,
                    ..before.xfer
                },
                show_transfers: true,
                xfer_just_opened: true,
                ..before
            })
        };
    assert(steps[2][si] == steps[1][si]);
    assert(steps[1][di] == steps[0][di]);
    assert(steps[4][si] == steps[3][si]);
    assert(steps[3][di] == steps[2][di]);
    let order = crate::direct::push_spec(
        plan,
        steps[0][di],
        steps[0][si].next_xfer,
        key,
        host_known,
    );
    lemma_sent_one(steps[2][si].link, steps[3][si].link, CommandView::DirectTransfer(order));
    let cmd = after.sessions@[si].link.sent@.last();
    let spec = cmd->DirectTransfer_0;
    assert(crate::text::views(spec.srcs@) == crate::clipboard::paths_of(plan.items));
    assert(crate::text::views(spec.srcs@).len() == spec.srcs@.len());
    assert forall|k: int| 0 <= k < plan.items.len() implies (#[trigger] spec.srcs@[k])@
        == plan.items[k].0 by {
        assert(crate::text::views(spec.srcs@)[k] == spec.srcs@[k]@);
    }
}

/// A push that succeeded as a move has its source told to delete every file that was pushed, and
/// nothing else; no other frame of a push deletes anything.
pub proof fn a_moved_push_deletes_its_files_alone(
    ss: Seq<Session>,
    after: Seq<Session>,
    job: DirectJob,
    lang: Lang,
    s: int,
    n: int,
)
    requires
        push_moves(ss, after, job, lang),
        0 <= s < ss.len(),
        ss[s].link.sent@.len() <= n < after[s].link.sent@.len(),
        after[s].link.sent@[n] is DeleteMany || after[s].link.sent@[n] is CopyMove,
    ensures
        after[s].link.sent@[n] is DeleteMany,
        job.is_cut,
        row_ok(ss, job.src_uid, job.id) == Some(true),
        ss[s].uid == job.src_uid,
        ({
            let paths = after[s].link.sent@[n]->DeleteMany_paths@;
            &&& paths.len() == job.items@.len()
            &&& forall|k: int|
                0 <= k < paths.len() ==> (#[trigger] paths[k])@ == job.items@[k].0@
        }),
{
    assert(after[s].link.log()[n] == after[s].link.sent@[n]@);
    assert(after[s].link.log().len() == after[s].link.sent@.len());
    assert(ss[s].link.log().len() == ss[s].link.sent@.len());
    if !job.is_cut || crate::direct::push_status(ss, job) != Some(true) {
        source_outlives_a_failed_push(ss, after, job, lang);
        assert(after[s].link.log() == ss[s].link.log() || after[s].link.log()
            == ss[s].link.log().push(CommandView::ListDir(job.dest_dir@)));
        assert(false);
    }
    let all = crate::clipboard::paths_of(crate::relays::named(job.items@));
    let (a, b) = choose|a: Seq<Session>, b: Seq<Session>|
        {
            &&& #[trigger] crate::direct::mirror_finished(
                ss,
                a,
                job,
                true,
                tr_of(lang, "直传完成"@, "Direct transfer done"@),
            )
            &&& crate::relays::source_deleted(a, b, job.src_uid, job.is_cut, all)
            &&& #[trigger] crate::direct::target_relisted(b, after, job)
        };
    lemma_uid_pos(ss, job.dest_uid);
    lemma_uid_pos(ss, job.src_uid);
    lemma_uid_pos(a, job.src_uid);
    lemma_uid_pos(b, job.dest_uid);
    assert(a.len() == ss.len());
    assert(a[s].link == ss[s].link && a[s].uid == ss[s].uid);
    let before_list = b[s].link.log();
    if after[s].link.log() != before_list {
        assert(after[s].link.log() == before_list.push(CommandView::ListDir(job.dest_dir@)));
        assert(n < before_list.len());
        assert(after[s].link.log()[n] == before_list[n]);
    }
    assert(before_list == a[s].link.log().push(CommandView::DeleteMany { paths: all }));
    let paths = after[s].link.sent@[n]->DeleteMany_paths@;
    assert(crate::text::views(paths) == all);
    assert(crate::text::views(paths).len() == paths.len());
    assert forall|k: int| 0 <= k < paths.len() implies (#[trigger] paths[k])@ == job.items@[k].0@ by {
        assert(crate::text::views(paths)[k] == paths[k]@);
    }
}

} // verus!
