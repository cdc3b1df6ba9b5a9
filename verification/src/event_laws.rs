//! What a worker's report makes of its session, and what the agent that waits for it is told.
use vstd::prelude::*;
use vstd::string::*;
use vstd::utf8::*;

use crate::events::{event_ok, EventEnv, WorkerEvent};
use crate::file_ops::{lemma_op_pos, op_pos, FileOpKind, PendingAiFileOp};
use crate::proto::{Eol, TransferDir};
use crate::protocol::{reply_view, reply_views, Reply, ReqResult};
use crate::runs::{capped, exit_settles, run_settles};
use crate::session::Session;
use crate::shell::without_echo;
use crate::text::{trim_of, trim_start_of, without_prefix, CharClass};
use crate::transfers::{lemma_transfer_pos, transfer_pos, Transfer};

verus! {

/// An agent waits for operation `i` of a session: it is the first of its kind, and was not given up.
pub open spec fn is_awaited(s: Session, kind: FileOpKind, i: int) -> bool {
    &&& 0 <= i < s.pending_file_ops@.len()
    &&& s.pending_file_ops@[i].kind == kind
    &&& s.pending_file_ops@[i].waiter is Some
    &&& forall|j: int| 0 <= j < i ==> (#[trigger] s.pending_file_ops@[j]).kind != kind
    &&& !s.file_op_tombstones@.contains(kind.op_id())
}

/// The one who waits for operation `i` got the one reply, and waits no longer.
pub open spec fn is_told(before: Session, after: Session, replies: Seq<Reply>, i: int) -> bool {
    let op = before.pending_file_ops@[i];
    &&& replies.len() == 1
    &&& replies[0].chan == op.waiter->0.chan
    &&& replies[0].id == op.req_id
    &&& after.pending_file_ops@ == before.pending_file_ops@.remove(i)
}

proof fn lemma_awaited(s: Session, kind: FileOpKind, i: int)
    requires
        is_awaited(s, kind, i),
    ensures
        op_pos(s.pending_file_ops@, kind) == Some(i),
        crate::file_ops::would_resolve(s, kind),
{
    let ops = s.pending_file_ops@;
    lemma_op_pos(ops, kind);
    let p = op_pos(ops, kind);
    if p is None {
        assert(ops[i].kind != kind);
    } else if p->0 < i {
        assert(ops[p->0].kind != kind);
    } else if p->0 > i {
        assert(ops[i].kind != kind);
    }
}

proof fn lemma_one_reply(replies: Seq<Reply>)
    ensures
        reply_views(replies).len() == replies.len(),
        replies.len() > 0 ==> reply_views(replies)[0] == replies[0]@,
{
}

/// An agent that wrote a file is told that it was written, where, and when; one whose write failed
/// is told why.
pub proof fn a_write_is_reported_to_its_agent(
    before: Session,
    after: Session,
    replies: Seq<Reply>,
    id: u64,
    path: String,
    mtime: u32,
    message: String,
    ev: WorkerEvent,
    env: EventEnv,
    i: int,
)
    requires
        event_ok(before, after, reply_views(replies), ev, env),
        ev == (WorkerEvent::FileSaved { id, path, mtime }) || ev == (WorkerEvent::FileSaveFailed {
            id,
            path,
            message,
        }) || ev == (WorkerEvent::FileSaveConflict { id, path, message }),
        is_awaited(before, FileOpKind::Write { op_id: id }, i),
    ensures
        is_told(before, after, replies, i),
        ev is FileSaved ==> {
            &&& replies[0].result is Ok
            &&& replies[0].result->Ok_0 is FileWritten
            &&& replies[0].result->Ok_0->FileWritten_path@ == before.pending_file_ops@[i].path@
            &&& replies[0].result->Ok_0->FileWritten_mtime == mtime
        },
        !(ev is FileSaved) ==> replies[0].result is Err && replies[0].result->Err_0@ == message@,
        after.pending == before.pending,
{
    lemma_awaited(before, FileOpKind::Write { op_id: id }, i);
    lemma_one_reply(replies);
}

/// An agent that reads a file is told what is in it; where that fails it is told why.
pub proof fn a_read_is_reported_to_its_agent(
    before: Session,
    after: Session,
    replies: Seq<Reply>,
    id: u64,
    path: String,
    content: String,
    encoding: String,
    eol: Eol,
    mtime: u32,
    message: String,
    ev: WorkerEvent,
    env: EventEnv,
    i: int,
)
    requires
        event_ok(before, after, reply_views(replies), ev, env),
        ev == (WorkerEvent::FileOpened { id, path, content, encoding, eol, mtime }) || ev == (
        WorkerEvent::FileLoadFailed { id, message }),
        is_awaited(before, FileOpKind::Read { op_id: id }, i),
        encode_utf8(content@).len() <= 200_000,
    ensures
        is_told(before, after, replies, i),
        ev is FileOpened ==> {
            &&& replies[0].result is Ok
            &&& replies[0].result->Ok_0 is FileContent
            &&& replies[0].result->Ok_0->FileContent_path@ == before.pending_file_ops@[i].path@
            &&& replies[0].result->Ok_0->FileContent_content@ == content@
        },
        !(ev is FileOpened) ==> replies[0].result is Err && replies[0].result->Err_0@ == message@,
        after.pending == before.pending,
{
    lemma_awaited(before, FileOpKind::Read { op_id: id }, i);
    lemma_one_reply(replies);
}

/// An agent that copies a file is told that it was copied, and to where; where that fails it is told
/// why.
pub proof fn a_copy_is_reported_to_its_agent(
    before: Session,
    after: Session,
    replies: Seq<Reply>,
    id: u64,
    ok: bool,
    message: String,
    refresh_dir: Option<String>,
    env: EventEnv,
    i: int,
)
    requires
        event_ok(
            before,
            after,
            reply_views(replies),
            WorkerEvent::TransferDone { id, ok, message, refresh_dir },
            env,
        ),
        is_awaited(before, FileOpKind::Copy { op_id: id }, i),
    ensures
        is_told(before, after, replies, i),
        ok ==> {
            &&& replies[0].result is Ok
            &&& replies[0].result->Ok_0 is Copied
            &&& replies[0].result->Ok_0->Copied_path@ == before.pending_file_ops@[i].path@
        },
        !ok ==> replies[0].result is Err && replies[0].result->Err_0@ == message@,
{
    let kind = FileOpKind::Copy { op_id: id };
    lemma_awaited(before, kind, i);
    lemma_one_reply(replies);
    let (listed, fresh, typed, claimed, reply) = choose|
        listed: Session,
        fresh: Session,
        typed: Session,
        claimed: bool,
        reply: Option<Reply>,
    |
        {
            &&& #[trigger] crate::events::transfer_listed(
                before,
                listed,
                id,
                ok,
                message@,
                env.lang,
            )
            &&& #[trigger] crate::session::refreshed(listed, fresh, refresh_dir)
            &&& #[trigger] crate::events::paste_finished(fresh, typed, id, ok, env)
            &&& #[trigger] crate::file_ops::op_resolves(
                typed,
                after,
                kind,
                claimed,
                reply,
                crate::file_ops::copy_reply(crate::events::copy_outcome(ok, message)),
            )
            &&& reply_views(replies) == match reply_view(reply) {
                Some(r) => seq![r],
                None => seq![],
            }
        };
    assert(listed.pending_file_ops == before.pending_file_ops);
    assert(fresh.pending_file_ops == before.pending_file_ops);
    assert(typed.pending_file_ops == before.pending_file_ops);
    assert(typed.file_op_tombstones == before.file_op_tombstones);
}

/// What no agent waits for goes to the window that asked, field by field as it was reported.
pub proof fn a_report_reaches_its_window_whole(
    before: Session,
    after: Session,
    replies: Seq<Reply>,
    ev: WorkerEvent,
    env: EventEnv,
)
    requires
        event_ok(before, after, reply_views(replies), ev, env),
        before.pending_file_ops@.len() == 0,
        before.file_op_tombstones@.len() == 0,
    ensures
        match ev {
            WorkerEvent::FileOpened { id, path, content, encoding, eol, mtime } => {
                let o = after.pending.open@.last();
                &&& replies.len() == 0
                &&& after.pending.open@.len() == before.pending.open@.len() + 1
                &&& o.0 == id && o.1@ == path@ && o.2@ == content@ && o.3@ == encoding@
                &&& o.4 == eol && o.5 == mtime
            },
            WorkerEvent::FileSaved { id, path, mtime } => {
                let o = after.pending.saved@.last();
                &&& after.pending.saved@.len() == before.pending.saved@.len() + 1
                &&& o.0 == id && o.1@ == path@ && o.2 == mtime
            },
            WorkerEvent::FileSaveProgress { path, done, total } => {
                let o = after.pending.save_progress@.last();
                o.0@ == path@ && o.1 == done && o.2 == total
            },
            WorkerEvent::FileTail { path, data, offset, truncated } => {
                let o = after.pending.tail@.last();
                o.0@ == path@ && o.1@ == data@ && o.2 == offset && o.3 == truncated
            },
            WorkerEvent::PdfInfo { id, pages } => {
                after.pending.pdf_info@.last() == (id, pages)
            },
            WorkerEvent::PdfPage { path, page, data } => {
                let o = after.pending.pdf_page@.last();
                o.0@ == path@ && o.1 == page && o.2@ == data@
            },
            WorkerEvent::DocOpened { id, data } => {
                let o = after.pending.doc@.last();
                o.0 == id && o.1@ == data@
            },
            WorkerEvent::FileTooLarge { id, path, size, .. } => {
                let o = after.pending.too_large@.last();
                o.0 == id && o.1@ == path@ && o.2 == size
            },
            WorkerEvent::FileSaveFailed { id, path, message } => {
                let o = after.pending.save_failed@.last();
                o.0 == id && o.1@ == path@ && o.2@ == message@
            },
            WorkerEvent::FileSaveConflict { id, path, .. } => {
                let o = after.pending.conflict@.last();
                &&& after.pending.conflict@.len() == before.pending.conflict@.len() + 1
                &&& o.0 == id && o.1@ == path@
            },
            WorkerEvent::FileLoadProgress { id, done, total } => {
                after.pending.load_progress@.last() == (id, done, total)
            },
            WorkerEvent::FileLoadFailed { id, message } => {
                let o = after.pending.load_fail@.last();
                o.0 == id && o.1@ == message@
            },
            WorkerEvent::ImageOpened { path, data } => {
                let o = after.pending.image@.last();
                &&& after.pending.image@.len() == before.pending.image@.len() + 1
                &&& o.0@ == path@ && o.1@ == data@
            },
            WorkerEvent::ProcDetail { pid, cmd, cwd, exe } => {
                let o = after.proc_detail->0;
                &&& after.proc_detail is Some
                &&& o.0 == pid && o.1@ == cmd@ && o.2@ == cwd@ && o.3@ == exe@
            },
            WorkerEvent::HostKeyPrompt { host, fingerprint, changed } => {
                let o = after.pending_hostkey->0;
                &&& after.pending_hostkey is Some
                &&& o.0@ == host@ && o.1@ == fingerprint@ && o.2 == changed
            },
            WorkerEvent::KbdPrompt { name, instructions, prompts } => {
                let o = after.kbd_prompt->0;
                &&& after.kbd_prompt is Some
                &&& o.name@ == name@ && o.instructions@ == instructions@ && o.prompts@ == prompts@
                &&& o.answers@.len() == prompts@.len()
            },
            WorkerEvent::Error(e) => after.status@ == e@,
            WorkerEvent::DirListFailed { message } => after.status@ == message@,
            _ => true,
        },
{
    lemma_one_reply(replies);
    match ev {
        WorkerEvent::KbdPrompt { prompts, .. } => {
            let a = after.kbd_prompt->0.answers@;
            assert(crate::text::views(a).len() == a.len());
        },
        WorkerEvent::FileOpened { id, .. } => {
            lemma_op_pos(before.pending_file_ops@, FileOpKind::Read { op_id: id });
        },
        WorkerEvent::FileTooLarge { id, .. } => {
            lemma_op_pos(before.pending_file_ops@, FileOpKind::Read { op_id: id });
        },
        WorkerEvent::FileLoadFailed { id, .. } => {
            lemma_op_pos(before.pending_file_ops@, FileOpKind::Read { op_id: id });
        },
        WorkerEvent::FileSaved { id, .. } => {
            lemma_op_pos(before.pending_file_ops@, FileOpKind::Write { op_id: id });
        },
        WorkerEvent::FileSaveFailed { id, .. } => {
            lemma_op_pos(before.pending_file_ops@, FileOpKind::Write { op_id: id });
        },
        WorkerEvent::FileSaveConflict { id, .. } => {
            lemma_op_pos(before.pending_file_ops@, FileOpKind::Write { op_id: id });
        },
        _ => {},
    }
}

/// The row of transfer `id` is row `k` of the list.
pub open spec fn is_row_of(s: Session, id: u64, k: int) -> bool {
    &&& 0 <= k < s.transfers@.len()
    &&& s.transfers@[k].id == id
    &&& forall|j: int| 0 <= j < k ==> (#[trigger] s.transfers@[j]).id != id
}

proof fn lemma_row_of(s: Session, id: u64, k: int)
    requires
        is_row_of(s, id, k),
    ensures
        transfer_pos(s.transfers@, id) == Some(k),
{
    let ts = s.transfers@;
    lemma_transfer_pos(ts, id);
    let p = transfer_pos(ts, id);
    if p is None {
        assert(ts[k].id != id);
    } else if p->0 < k {
        assert(ts[p->0].id != id);
    } else if p->0 > k {
        assert(ts[k].id != id);
    }
}

/// A transfer that is reported to have started, to be so far, or to be doing something shows that in
/// its own row, and every other row stays as it is. One that is not in the list yet is added to it.
pub proof fn a_transfer_shows_what_is_reported(
    before: Session,
    after: Session,
    replies: Seq<Reply>,
    ev: WorkerEvent,
    env: EventEnv,
    id: u64,
    k: int,
)
    requires
        event_ok(before, after, reply_views(replies), ev, env),
        match ev {
            WorkerEvent::TransferStart { id: n, .. } => n == id,
            WorkerEvent::TransferProgress { id: n, .. } => n == id,
            WorkerEvent::TransferNote { id: n, .. } => n == id,
            _ => false,
        },
        is_row_of(before, id, k),
    ensures
        replies.len() == 0,
        after.transfers@.len() == before.transfers@.len(),
        forall|j: int|
            0 <= j < before.transfers@.len() && j != k ==> #[trigger] after.transfers@[j]
                == before.transfers@[j],
        after.transfers@[k].id == id,
        after.transfers@[k].ok == before.transfers@[k].ok,
        after.transfers@[k].spec == before.transfers@[k].spec,
        match ev {
            WorkerEvent::TransferStart { name, total, dir, local, .. } => {
                &&& after.transfers@[k].name@ == name@
                &&& after.transfers@[k].total == total
                &&& after.transfers@[k].dir == dir
                &&& local is Some ==> after.transfers@[k].local == local
                &&& !after.transfers@[k].queued
            },
            WorkerEvent::TransferProgress { done, .. } => after.transfers@[k].done == done,
            WorkerEvent::TransferNote { note, .. } => after.transfers@[k].note@ == note@,
            _ => true,
        },
{
    lemma_row_of(before, id, k);
    lemma_one_reply(replies);
}

/// A transfer that nobody started here is added to the list when it is reported, as it is reported.
pub proof fn an_unknown_transfer_is_listed(
    before: Session,
    after: Session,
    replies: Seq<Reply>,
    env: EventEnv,
    id: u64,
    name: String,
    total: u64,
    dir: TransferDir,
    local: Option<String>,
)
    requires
        event_ok(
            before,
            after,
            reply_views(replies),
            WorkerEvent::TransferStart { id, name, total, dir, local },
            env,
        ),
        forall|j: int| 0 <= j < before.transfers@.len() ==> (#[trigger] before.transfers@[j]).id != id,
    ensures
        after.transfers@.len() == before.transfers@.len() + 1,
        ({
            let t = after.transfers@.last();
            &&& t.id == id && t.name@ == name@ && t.total == total && t.dir == dir
            &&& t.local == local && t.ok is None && t.done == 0 && !t.paused
        }),
{
    lemma_transfer_pos(before.transfers@, id);
}

/// A transfer that is reported to have ended shows how: done or failed, with the reported words; one
/// that fails because its connection is lost, and can be started again, waits for that instead.
pub proof fn a_transfer_shows_how_it_ended(
    before: Session,
    after: Session,
    replies: Seq<Reply>,
    id: u64,
    ok: bool,
    message: String,
    refresh_dir: Option<String>,
    env: EventEnv,
    k: int,
)
    requires
        event_ok(
            before,
            after,
            reply_views(replies),
            WorkerEvent::TransferDone { id, ok, message, refresh_dir },
            env,
        ),
        is_row_of(before, id, k),
    ensures
        after.transfers@.len() == before.transfers@.len(),
        forall|j: int|
            0 <= j < before.transfers@.len() && j != k ==> #[trigger] after.transfers@[j]
                == before.transfers@[j],
        after.transfers@[k].id == id && after.transfers@[k].spec == before.transfers@[k].spec,
        ok || before.connected || before.transfers@[k].spec is None ==> after.transfers@[k].ok == Some(
            ok,
        ) && after.transfers@[k].message@ == message@,
        !ok && !before.connected && before.transfers@[k].spec is Some ==> after.transfers@[k].paused
            && after.transfers@[k].ok == before.transfers@[k].ok,
{
    lemma_row_of(before, id, k);
    let kind = FileOpKind::Copy { op_id: id };
    let (listed, fresh, typed, claimed, reply) = choose|
        listed: Session,
        fresh: Session,
        typed: Session,
        claimed: bool,
        reply: Option<Reply>,
    |
        {
            &&& #[trigger] crate::events::transfer_listed(
                before,
                listed,
                id,
                ok,
                message@,
                env.lang,
            )
            &&& #[trigger] crate::session::refreshed(listed, fresh, refresh_dir)
            &&& #[trigger] crate::events::paste_finished(fresh, typed, id, ok, env)
            &&& #[trigger] crate::file_ops::op_resolves(
                typed,
                after,
                kind,
                claimed,
                reply,
                crate::file_ops::copy_reply(crate::events::copy_outcome(ok, message)),
            )
            &&& reply_views(replies) == match reply_view(reply) {
                Some(r) => seq![r],
                None => seq![],
            }
        };
    assert(fresh.transfers == listed.transfers);
    assert(typed.transfers == listed.transfers);
    assert(after.transfers == listed.transfers);
}

/// A run that the terminal has completed is reported to the one who waits, with the exit code that
/// was printed and, where it is not too long and does not start with the command itself, the output
/// as it was printed.
pub proof fn a_completed_run_is_reported(
    before: Session,
    after: Session,
    reply: Option<Reply>,
    now: u64,
    code: i32,
    output: String,
)
    requires
        run_settles(before, after, reply, now),
        before.pending_ai_run is Some,
        before.pending_ai_run->0.waiter is Some,
        !before.pending_ai_run->0.waiter->0.closed,
        before.pending_ai_run->0.finished_result is None,
        before.terminal.done == Some((code, output)),
    ensures
        ({
            let p = before.pending_ai_run->0;
            let res = reply->0.result->Ok_0;
            &&& after.pending_ai_run is None
            &&& reply is Some
            &&& reply->0.chan == p.waiter->0.chan && reply->0.id == p.req_id
            &&& reply->0.result is Ok && res is Run
            &&& res->Run_run_id == p.run_id
            &&& res->Run_finished
            &&& res->Run_exit_code == Some(code)
            &&& encode_utf8(output@).len() <= 200_000 && !trim_of(p.command@).is_prefix_of(output@)
                ==> res->Run_output@ == output@
        }),
{
    assert(reply_view(reply) == Some(reply->0@));
}

/// A run that is past its deadline is reported unfinished, without an exit code, and goes on: the
/// next one who asks can still get it.
pub proof fn an_overdue_run_is_reported_unfinished(
    before: Session,
    after: Session,
    reply: Option<Reply>,
    now: u64,
)
    requires
        run_settles(before, after, reply, now),
        before.pending_ai_run is Some,
        before.pending_ai_run->0.waiter is Some,
        !before.pending_ai_run->0.waiter->0.closed,
        before.pending_ai_run->0.finished_result is None,
        before.terminal.done is None,
    ensures
        now < before.pending_ai_run->0.deadline ==> reply is None && after.pending_ai_run
            == before.pending_ai_run,
        now >= before.pending_ai_run->0.deadline ==> {
            let p = before.pending_ai_run->0;
            let q = after.pending_ai_run->0;
            let res = reply->0.result->Ok_0;
            &&& reply is Some
            &&& reply->0.chan == p.waiter->0.chan && reply->0.id == p.req_id
            &&& reply->0.result is Ok && res is Run
            &&& res->Run_run_id == p.run_id
            &&& !res->Run_finished
            &&& res->Run_exit_code is None
            &&& after.pending_ai_run is Some
            &&& q.run_id == p.run_id && q.command == p.command && q.waiter is None
        },
        after.terminal.capturing == before.terminal.capturing,
{
    if reply is Some {
        assert(reply_view(reply) == Some(reply->0@));
    }
}

/// A shell that exits ends the run in it with its own exit code.
pub proof fn a_shell_that_exits_ends_its_run(
    before: Session,
    after: Session,
    reply: Option<Reply>,
    code: i32,
)
    requires
        exit_settles(before, after, reply, code),
        before.pending_ai_run is Some,
    ensures
        before.pending_ai_run->0.waiter is Some ==> {
            let p = before.pending_ai_run->0;
            let res = reply->0.result->Ok_0;
            &&& after.pending_ai_run is None
            &&& reply is Some
            &&& reply->0.chan == p.waiter->0.chan && reply->0.id == p.req_id
            &&& reply->0.result is Ok && res is Run
            &&& res->Run_run_id == p.run_id && res->Run_finished
            &&& res->Run_exit_code == Some(code)
        },
        before.pending_ai_run->0.waiter is None ==> {
            &&& reply is None
            &&& after.pending_ai_run is Some
            &&& after.pending_ai_run->0.run_id == before.pending_ai_run->0.run_id
            &&& after.pending_ai_run->0.finished_result is Some
            &&& (after.pending_ai_run->0.finished_result->0).0 == code
        },
        !after.terminal.capturing,
{
    if reply is Some {
        assert(reply_view(reply) == Some(reply->0@));
    }
}

/// The echo of a command is taken off its output, and nothing else is: what follows the command and
/// its line break is kept whole.
pub proof fn only_the_echo_is_taken_off(command: Seq<char>, output: Seq<char>)
    requires
        output.len() > 0,
        output[0] != '\r' && output[0] != '\n',
    ensures
        without_echo(trim_of(command) + seq!['\r', '\n'] + output, command) == output,
        !trim_of(command).is_prefix_of(output) ==> without_echo(output, command) == output,
{
    let c = trim_of(command);
    let all = c + seq!['\r', '\n'] + output;
    assert(c.is_prefix_of(all)) by {
        assert(all.take(c.len() as int) =~= c);
    }
    let rest = all.skip(c.len() as int);
    assert(rest =~= seq!['\r', '\n'] + output);
    reveal_with_fuel(trim_start_of, 3);
    assert(rest.drop_first() =~= seq!['\n'] + output);
    assert(rest.drop_first().drop_first() =~= output);
}

/// Output that fits into one reply is handed on whole; of longer output the end is kept.
pub proof fn short_output_is_handed_on_whole(output: Seq<char>)
    requires
        encode_utf8(output).len() <= 200_000,
    ensures
        capped(output) == output,
{
}

} // verus!
