//! File operations that an agent waits for: matching a worker's result to the one who waits,
//! giving up on what takes too long, and recognising what comes in after that.
use vstd::prelude::*;

use crate::protocol::{
    answer, refusal, reply_view, reply_views, Reply, ReplyView, ReqResult, ResultView, Waiter,
};
use crate::runs::{cap_output_for_ai, capped};
use crate::session::Session;

verus! {

/// How many file operations may be pending in one session.
pub const MAX_CONCURRENT_FILE_OPS: usize = 16;

/// How many of the operations that timed out are remembered.
pub const MAX_TOMBSTONES: usize = 64;

/// What a file operation does, and the id that its result comes back with.
#[derive(Clone, Copy, PartialEq, Eq, Structural)]
pub enum FileOpKind {
    Write { op_id: u64 },
    Read { op_id: u64 },
    Copy { op_id: u64 },
}

impl FileOpKind {
    /// The id that the result comes back with.
    pub open spec fn op_id(self) -> u64 {
        match self {
            FileOpKind::Write { op_id } => op_id,
            FileOpKind::Read { op_id } => op_id,
            FileOpKind::Copy { op_id } => op_id,
        }
    }

    fn get_op_id(self) -> (r: u64)
        ensures
            r == self.op_id(),
    {
        match self {
            FileOpKind::Write { op_id } => op_id,
            FileOpKind::Read { op_id } => op_id,
            FileOpKind::Copy { op_id } => op_id,
        }
    }
}

/// A file operation that an agent waits for.
pub struct PendingAiFileOp {
    pub kind: FileOpKind,
    pub path: String,
    pub waiter: Option<Waiter>,
    pub req_id: u64,
    /// When it is reported lost, in milliseconds.
    pub deadline: u64,
}

/// The position of the first pending operation of this kind and id.
pub open spec fn op_pos(ops: Seq<PendingAiFileOp>, kind: FileOpKind) -> Option<int>
    decreases ops.len(),
{
    if ops.len() == 0 {
        None
    } else {
        match op_pos(ops.drop_last(), kind) {
            Some(i) => Some(i),
            None => if ops.last().kind == kind {
                Some(ops.len() - 1)
            } else {
                None
            },
        }
    }
}

/// What [`op_pos`] finds.
pub proof fn lemma_op_pos(ops: Seq<PendingAiFileOp>, kind: FileOpKind)
    ensures
        match op_pos(ops, kind) {
            Some(i) => 0 <= i < ops.len() && ops[i].kind == kind && forall|j: int|
                0 <= j < i ==> (#[trigger] ops[j]).kind != kind,
            None => forall|j: int| 0 <= j < ops.len() ==> (#[trigger] ops[j]).kind != kind,
        },
    decreases ops.len(),
{
    if ops.len() > 0 {
        lemma_op_pos(ops.drop_last(), kind);
        assert(forall|j: int| 0 <= j < ops.len() - 1 ==> ops.drop_last()[j] == ops[j]);
    }
}

fn find_op(ops: &Vec<PendingAiFileOp>, kind: FileOpKind) -> (r: Option<usize>)
    ensures
        match r {
            Some(i) => op_pos(ops@, kind) == Some(i as int) && i < ops@.len(),
            None => op_pos(ops@, kind) is None,
        },
{
    proof {
        lemma_op_pos(ops@, kind);
    }
    let mut i: usize = 0;
    while i < ops.len()
        invariant
            i <= ops@.len(),
            forall|j: int| 0 <= j < i ==> (#[trigger] ops@[j]).kind != kind,
            match op_pos(ops@, kind) {
                Some(k) => 0 <= k < ops@.len() && ops@[k].kind == kind && forall|j: int|
                    0 <= j < k ==> (#[trigger] ops@[j]).kind != kind,
                None => forall|j: int| 0 <= j < ops@.len() ==> (#[trigger] ops@[j]).kind != kind,
            },
        decreases ops@.len() - i,
    {
        if ops[i].kind == kind {
            return Some(i);
        }
        i = i + 1;
    }
    None
}

fn has_id(ids: &Vec<u64>, id: u64) -> (r: bool)
    ensures
        r == ids@.contains(id),
{
    let mut i: usize = 0;
    while i < ids.len()
        invariant
            i <= ids@.len(),
            forall|j: int| 0 <= j < i ==> ids@[j] != id,
        decreases ids@.len() - i,
    {
        if ids[i] == id {
            return true;
        }
        i = i + 1;
    }
    false
}

/// Whether a result belongs to an agent: it waits for it, or it was given up.
pub open spec fn would_resolve(s: Session, kind: FileOpKind) -> bool {
    s.file_op_tombstones@.contains(kind.op_id()) || op_pos(s.pending_file_ops@, kind) is Some
}

/// What the result of an operation makes of a session: one that was given up changes nothing, an
/// awaited one is removed, and the one who waits gets `reply_to` of it.
pub open spec fn op_resolves(
    before: Session,
    after: Session,
    kind: FileOpKind,
    claimed: bool,
    reply: Option<Reply>,
    reply_to: spec_fn(PendingAiFileOp, Waiter) -> ReplyView,
) -> bool {
    &&& claimed == would_resolve(before, kind)
    &&& if before.file_op_tombstones@.contains(kind.op_id()) {
        after == before && reply is None
    } else {
        match op_pos(before.pending_file_ops@, kind) {
            None => after == before && reply is None,
            Some(i) => {
                let op = before.pending_file_ops@[i];
                &&& after.pending_file_ops@ == before.pending_file_ops@.remove(i)
                &&& after == (Session { pending_file_ops: after.pending_file_ops, ..before })
                &&& reply_view(reply) == match op.waiter {
                    Some(w) => Some(reply_to(op, w)),
                    None => None,
                }
            },
        }
    }
}

/// What the one who waits for a write is told.
pub open spec fn write_reply(result: Result<u32, String>) -> spec_fn(
    PendingAiFileOp,
    Waiter,
) -> ReplyView {
    |op: PendingAiFileOp, w: Waiter|
        match result {
            Ok(mtime) => answer(
                w.chan,
                op.req_id,
                ResultView::FileWritten { path: op.path@, mtime },
            ),
            Err(msg) => refusal(w.chan, op.req_id, msg@),
        }
}

/// What the one who waits for a read is told.
pub open spec fn read_reply(result: Result<String, String>) -> spec_fn(
    PendingAiFileOp,
    Waiter,
) -> ReplyView {
    |op: PendingAiFileOp, w: Waiter|
        match result {
            Ok(content) => answer(
                w.chan,
                op.req_id,
                ResultView::FileContent { path: op.path@, content: capped(content@) },
            ),
            Err(msg) => refusal(w.chan, op.req_id, msg@),
        }
}

/// What the one who waits for a copy is told.
pub open spec fn copy_reply(result: Result<(), String>) -> spec_fn(
    PendingAiFileOp,
    Waiter,
) -> ReplyView {
    |op: PendingAiFileOp, w: Waiter|
        match result {
            Ok(()) => answer(w.chan, op.req_id, ResultView::Copied { path: op.path@ }),
            Err(msg) => refusal(w.chan, op.req_id, msg@),
        }
}

impl Session {
    fn op_would_resolve(&self, kind: FileOpKind) -> (r: bool)
        ensures
            r == would_resolve(*self, kind),
    {
        has_id(&self.file_op_tombstones, kind.get_op_id()) || find_op(
            &self.pending_file_ops,
            kind,
        ).is_some()
    }

    /// Whether the result of write `id` belongs to an agent.
    pub fn file_write_op_would_resolve(&self, id: u64) -> (r: bool)
        ensures
            r == would_resolve(*self, FileOpKind::Write { op_id: id }),
    {
        self.op_would_resolve(FileOpKind::Write { op_id: id })
    }

    /// Whether the result of read `id` belongs to an agent.
    pub fn file_read_op_would_resolve(&self, id: u64) -> (r: bool)
        ensures
            r == would_resolve(*self, FileOpKind::Read { op_id: id }),
    {
        self.op_would_resolve(FileOpKind::Read { op_id: id })
    }

    /// Whether the result of copy `id` belongs to an agent.
    pub fn file_copy_op_would_resolve(&self, id: u64) -> (r: bool)
        ensures
            r == would_resolve(*self, FileOpKind::Copy { op_id: id }),
    {
        self.op_would_resolve(FileOpKind::Copy { op_id: id })
    }

    /// Takes the result of write `id`, where it belongs to an agent: the new modification time, or
    /// why it failed.
    pub fn try_resolve_file_write(&mut self, id: u64, result: Result<u32, String>) -> (r: (
        bool,
        Option<Reply>,
    ))
        ensures
            op_resolves(
                *old(self),
                *final(self),
                FileOpKind::Write { op_id: id },
                r.0,
                r.1,
                write_reply(result),
            ),
    {
        let kind = FileOpKind::Write { op_id: id };
        if has_id(&self.file_op_tombstones, id) {
            return (true, None);
        }
        match find_op(&self.pending_file_ops, kind) {
            None => (false, None),
            Some(i) => {
                let op = self.pending_file_ops.remove(i);
                match op.waiter {
                    Some(w) => {
                        let answer = match result {
                            Ok(mtime) => Ok(ReqResult::FileWritten { path: op.path, mtime }),
                            Err(msg) => Err(msg),
                        };
                        (true, Some(Reply { chan: w.chan, id: op.req_id, result: answer }))
                    },
                    None => (true, None),
                }
            },
        }
    }

    /// Takes the result of read `id`, where it belongs to an agent: the content, or why it failed.
    pub fn try_resolve_file_read(&mut self, id: u64, result: Result<String, String>) -> (r: (
        bool,
        Option<Reply>,
    ))
        ensures
            op_resolves(
                *old(self),
                *final(self),
                FileOpKind::Read { op_id: id },
                r.0,
                r.1,
                read_reply(result),
            ),
    {
        let kind = FileOpKind::Read { op_id: id };
        if has_id(&self.file_op_tombstones, id) {
            return (true, None);
        }
        match find_op(&self.pending_file_ops, kind) {
            None => (false, None),
            Some(i) => {
                let op = self.pending_file_ops.remove(i);
                match op.waiter {
                    Some(w) => {
                        let answer = match result {
                            Ok(content) => Ok(
                                ReqResult::FileContent {
                                    path: op.path,
                                    content: cap_output_for_ai(content),
                                },
                            ),
                            Err(msg) => Err(msg),
                        };
                        (true, Some(Reply { chan: w.chan, id: op.req_id, result: answer }))
                    },
                    None => (true, None),
                }
            },
        }
    }

    /// Takes the result of copy `id`, where it belongs to an agent.
    pub fn try_resolve_file_copy(&mut self, id: u64, result: Result<(), String>) -> (r: (
        bool,
        Option<Reply>,
    ))
        ensures
            op_resolves(
                *old(self),
                *final(self),
                FileOpKind::Copy { op_id: id },
                r.0,
                r.1,
                copy_reply(result),
            ),
    {
        let kind = FileOpKind::Copy { op_id: id };
        if has_id(&self.file_op_tombstones, id) {
            return (true, None);
        }
        match find_op(&self.pending_file_ops, kind) {
            None => (false, None),
            Some(i) => {
                let op = self.pending_file_ops.remove(i);
                match op.waiter {
                    Some(w) => {
                        let answer = match result {
                            Ok(()) => Ok(ReqResult::Copied { path: op.path }),
                            Err(msg) => Err(msg),
                        };
                        (true, Some(Reply { chan: w.chan, id: op.req_id, result: answer }))
                    },
                    None => (true, None),
                }
            },
        }
    }
}

/// The refusal that each of these operations' waiters gets, in order.
pub open spec fn refusals(ops: Seq<PendingAiFileOp>, msg: Seq<char>) -> Seq<ReplyView>
    decreases ops.len(),
{
    if ops.len() == 0 {
        Seq::empty()
    } else {
        let rest = refusals(ops.drop_last(), msg);
        match ops.last().waiter {
            Some(w) => rest.push(refusal(w.chan, ops.last().req_id, msg)),
            None => rest,
        }
    }
}

pub const OP_DISCONNECTED: &'static str = "会话已断线，文件操作未完成";

pub const OP_TIMED_OUT: &'static str = "文件操作超时（worker 未在超时前返回结果）。注意：写入/复制类操作\
                             无法取消、可能已经在远端生效——重试覆盖同一文件前，先用 read_file \
                             或到远端核实";

/// The operations that are not due at `now`, in order.
pub open spec fn live_ops(ops: Seq<PendingAiFileOp>, now: u64) -> Seq<PendingAiFileOp>
    decreases ops.len(),
{
    if ops.len() == 0 {
        Seq::empty()
    } else {
        let rest = live_ops(ops.drop_last(), now);
        if now < ops.last().deadline {
            rest.push(ops.last())
        } else {
            rest
        }
    }
}

/// The operations that are due at `now`, in order.
pub open spec fn due_ops(ops: Seq<PendingAiFileOp>, now: u64) -> Seq<PendingAiFileOp>
    decreases ops.len(),
{
    if ops.len() == 0 {
        Seq::empty()
    } else {
        let rest = due_ops(ops.drop_last(), now);
        if now < ops.last().deadline {
            rest
        } else {
            rest.push(ops.last())
        }
    }
}

/// The remembered ids after one more timed out: the oldest is forgotten where there are too many.
pub open spec fn bury(tombs: Seq<u64>, id: u64) -> Seq<u64> {
    if tombs.len() >= MAX_TOMBSTONES {
        tombs.push(id).skip(1)
    } else {
        tombs.push(id)
    }
}

/// The remembered ids after these operations timed out.
pub open spec fn bury_all(tombs: Seq<u64>, ops: Seq<PendingAiFileOp>) -> Seq<u64>
    decreases ops.len(),
{
    if ops.len() == 0 {
        tombs
    } else {
        bury(bury_all(tombs, ops.drop_last()), ops.last().kind.op_id())
    }
}

/// What a session's operations become at `now`.
pub open spec fn ops_time_out(before: Session, after: Session, replies: Seq<Reply>, now: u64) -> bool {
    let ops = before.pending_file_ops@;
    &&& after.pending_file_ops@ == live_ops(ops, now)
    &&& after.file_op_tombstones@ == bury_all(before.file_op_tombstones@, due_ops(ops, now))
    &&& reply_views(replies) == refusals(due_ops(ops, now), OP_TIMED_OUT@)
    &&& after == (Session {
        pending_file_ops: after.pending_file_ops,
        file_op_tombstones: after.file_op_tombstones,
        ..before
    })
}

impl Session {
    /// Gives up every file operation because the connection is lost.
    pub fn cancel_pending_file_op(&mut self) -> (replies: Vec<Reply>)
        ensures
            final(self).pending_file_ops@.len() == 0,
            reply_views(replies@) == refusals(old(self).pending_file_ops@, OP_DISCONNECTED@),
            *final(self) == (Session {
                pending_file_ops: final(self).pending_file_ops,
                ..*old(self)
            }),
    {
        let mut replies: Vec<Reply> = Vec::new();
        let ghost all = self.pending_file_ops@;
        let mut i: usize = 0;
        while i < self.pending_file_ops.len()
            invariant
                *self == *old(self),
                all == self.pending_file_ops@,
                i <= all.len(),
                reply_views(replies@) == refusals(all.take(i as int), OP_DISCONNECTED@),
            decreases all.len() - i,
        {
            assert(all.take(i + 1).drop_last() =~= all.take(i as int));
            match self.pending_file_ops[i].waiter {
                Some(w) => {
                    let ghost before = reply_views(replies@);
                    replies.push(
                        Reply {
                            chan: w.chan,
                            id: self.pending_file_ops[i].req_id,
                            result: Err(OP_DISCONNECTED.to_owned()),
                        },
                    );
                    assert(reply_views(replies@) =~= before.push(
                        refusal(w.chan, all[i as int].req_id, OP_DISCONNECTED@),
                    ));
                },
                None => {},
            }
            i = i + 1;
        }
        assert(all.take(all.len() as int) =~= all);
        self.pending_file_ops = Vec::new();
        replies
    }

    /// Gives up the file operations that are due, tells those who wait, and remembers their ids: a
    /// worker cannot be stopped, so that their results may still come in.
    pub fn expire_file_ops(&mut self, now: u64) -> (replies: Vec<Reply>)
        ensures
            ops_time_out(*old(self), *final(self), replies@, now),
    {
        let mut replies: Vec<Reply> = Vec::new();
        let ghost all = self.pending_file_ops@;
        let ghost tombs = self.file_op_tombstones@;
        let ghost mut k: int = 0;
        let mut i: usize = 0;
        assert(live_ops(all.take(0), now) + all.skip(0) =~= all);
        assert(bury_all(tombs, due_ops(all.take(0), now)) == tombs);
        while i < self.pending_file_ops.len()
            invariant
                0 <= k <= all.len(),
                i == live_ops(all.take(k), now).len(),
                self.pending_file_ops@ == live_ops(all.take(k), now) + all.skip(k),
                self.file_op_tombstones@ == bury_all(tombs, due_ops(all.take(k), now)),
                reply_views(replies@) == refusals(due_ops(all.take(k), now), OP_TIMED_OUT@),
                *self == (Session {
                    pending_file_ops: self.pending_file_ops,
                    file_op_tombstones: self.file_op_tombstones,
                    ..*old(self)
                }),
            decreases all.len() - k,
        {
            let ghost live = live_ops(all.take(k), now);
            let ghost due = due_ops(all.take(k), now);
            let ghost op = all[k];
            assert(k < all.len());
            assert(all.take(k + 1).drop_last() =~= all.take(k));
            assert(all.take(k + 1).last() == op);
            assert(self.pending_file_ops@[i as int] == op);
            if now < self.pending_file_ops[i].deadline {
                assert(live.push(op) + all.skip(k + 1) =~= live + all.skip(k));
                i = i + 1;
            } else {
                let ghost held = self.pending_file_ops@;
                let op = self.pending_file_ops.remove(i);
                assert(held.remove(i as int) =~= live + all.skip(k + 1));
                assert(due.push(op).drop_last() =~= due);
                let ghost told = reply_views(replies@);
                match op.waiter {
                    Some(w) => {
                        replies.push(
                            Reply {
                                chan: w.chan,
                                id: op.req_id,
                                result: Err(OP_TIMED_OUT.to_owned()),
                            },
                        );
                        assert(reply_views(replies@) =~= told.push(
                            refusal(w.chan, op.req_id, OP_TIMED_OUT@),
                        ));
                    },
                    None => {},
                }
                let ghost buried = self.file_op_tombstones@;
                self.file_op_tombstones.push(op.kind.get_op_id());
                if self.file_op_tombstones.len() > MAX_TOMBSTONES {
                    let _ = self.file_op_tombstones.remove(0);
                }
                assert(self.file_op_tombstones@ =~= bury(buried, op.kind.op_id()));
            }
            proof {
                k = k + 1;
            }
        }
        assert(k == all.len()) by {
            assert(self.pending_file_ops@.len() == live_ops(all.take(k), now).len() + (all.len()
                - k));
        }
        assert(all.take(k) =~= all);
        assert(live_ops(all, now) + all.skip(k) =~= live_ops(all, now));
        replies
    }
}

/// The operations but for copy `id`.
pub open spec fn without_copy(ops: Seq<PendingAiFileOp>, id: u64) -> Seq<PendingAiFileOp>
    decreases ops.len(),
{
    if ops.len() == 0 {
        Seq::empty()
    } else {
        let rest = without_copy(ops.drop_last(), id);
        if ops.last().kind == (FileOpKind::Copy { op_id: id }) {
            rest
        } else {
            rest.push(ops.last())
        }
    }
}

/// Drops copy `id` from the operations.
pub fn drop_copy(ops: &mut Vec<PendingAiFileOp>, id: u64)
    ensures
        final(ops)@ == without_copy(old(ops)@, id),
{
    let ghost all = ops@;
    let ghost mut k: int = 0;
    let mut i: usize = 0;
    assert(without_copy(all.take(0), id) + all.skip(0) =~= all);
    while i < ops.len()
        invariant
            0 <= k <= all.len(),
            i == without_copy(all.take(k), id).len(),
            ops@ == without_copy(all.take(k), id) + all.skip(k),
        decreases all.len() - k,
    {
        let ghost kept = without_copy(all.take(k), id);
        assert(k < all.len());
        assert(all.take(k + 1).drop_last() =~= all.take(k));
        assert(all.take(k + 1).last() == all[k]);
        assert(ops@[i as int] == all[k]);
        if ops[i].kind == (FileOpKind::Copy { op_id: id }) {
            let ghost held = ops@;
            let _ = ops.remove(i);
            assert(held.remove(i as int) =~= kept + all.skip(k + 1));
        } else {
            assert(kept.push(all[k]) + all.skip(k + 1) =~= kept + all.skip(k));
            i = i + 1;
        }
        proof {
            k = k + 1;
        }
    }
    assert(k == all.len()) by {
        assert(ops@.len() == without_copy(all.take(k), id).len() + (all.len() - k));
    }
    assert(all.take(k) =~= all);
    assert(without_copy(all, id) + all.skip(k) =~= without_copy(all, id));
}

proof fn lemma_buried_last(tombs: Seq<u64>, ops: Seq<PendingAiFileOp>)
    requires
        ops.len() <= MAX_TOMBSTONES,
    ensures
        bury_all(tombs, ops).len() >= ops.len(),
        forall|k: int|
            0 <= k < ops.len() ==> bury_all(tombs, ops)[bury_all(tombs, ops).len() - ops.len() + k]
                == (#[trigger] ops[k]).kind.op_id(),
    decreases ops.len(),
{
    if ops.len() > 0 {
        let fewer = ops.drop_last();
        lemma_buried_last(tombs, fewer);
        let all = bury_all(tombs, ops);
        let most = bury_all(tombs, fewer);
        assert forall|k: int| 0 <= k < ops.len() implies all[all.len() - ops.len() + k] == (
        #[trigger] ops[k]).kind.op_id() by {
            if k < fewer.len() {
                assert(fewer[k] == ops[k]);
                assert(most[most.len() - fewer.len() + k] == ops[k].kind.op_id());
            }
        }
    }
}

proof fn lemma_due_op(ops: Seq<PendingAiFileOp>, now: u64, k: int)
    requires
        0 <= k < ops.len(),
        now >= ops[k].deadline,
    ensures
        exists|j: int| 0 <= j < due_ops(ops, now).len() && #[trigger] due_ops(ops, now)[j] == ops[k],
        due_ops(ops, now).len() <= ops.len(),
    decreases ops.len(),
{
    lemma_due_len(ops, now);
    let fewer = ops.drop_last();
    if k < fewer.len() {
        lemma_due_op(fewer, now, k);
        let j = choose|j: int|
            0 <= j < due_ops(fewer, now).len() && #[trigger] due_ops(fewer, now)[j] == fewer[k];
        assert(due_ops(ops, now)[j] == ops[k]);
    } else {
        assert(due_ops(ops, now)[due_ops(ops, now).len() - 1] == ops[k]);
    }
}

proof fn lemma_due_len(ops: Seq<PendingAiFileOp>, now: u64)
    ensures
        due_ops(ops, now).len() <= ops.len(),
    decreases ops.len(),
{
    if ops.len() > 0 {
        lemma_due_len(ops.drop_last(), now);
    }
}

/// A result that comes in after its operation was given up is recognised: it is claimed for the
/// agent, nobody is told twice, and it changes nothing.
pub proof fn late_result_is_dropped(
    before: Session,
    after: Session,
    replies: Seq<Reply>,
    now: u64,
    k: int,
    later: Session,
    claimed: bool,
    reply: Option<Reply>,
    reply_to: spec_fn(PendingAiFileOp, Waiter) -> ReplyView,
)
    requires
        ops_time_out(before, after, replies, now),
        before.pending_file_ops@.len() <= MAX_TOMBSTONES,
        0 <= k < before.pending_file_ops@.len(),
        now >= before.pending_file_ops@[k].deadline,
        op_resolves(
            after,
            later,
            before.pending_file_ops@[k].kind,
            claimed,
            reply,
            reply_to,
        ),
    ensures
        claimed,
        reply is None,
        later == after,
{
    let ops = before.pending_file_ops@;
    let due = due_ops(ops, now);
    lemma_due_op(ops, now, k);
    lemma_buried_last(before.file_op_tombstones@, due);
    let j = choose|j: int| 0 <= j < due.len() && #[trigger] due[j] == ops[k];
    let tombs = after.file_op_tombstones@;
    assert(tombs[tombs.len() - due.len() + j] == due[j].kind.op_id());
}

} // verus!
