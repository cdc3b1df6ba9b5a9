//! The window that lists the transfers of a server: which rows it shows, and what its buttons do.
use vstd::prelude::*;
use vstd::string::*;

use crate::app::{lemma_wf_kept, same_uids, uid_pos, App};
use crate::clipboard::{DirectJob, Transfers};
use crate::direct::cancel_pos;
use crate::proto::{tr, tr_of, CommandView, ConflictPolicy, Lang, UiCommand};
use crate::relays::row_changed;
use crate::session::Session;
use crate::tabs::{same_server, same_server_from};
use crate::text::same;
use crate::transfers::{find_transfer, transfer_pos, Transfer};

verus! {

/// Which transfers the list shows.
#[derive(Clone, Copy, PartialEq, Eq, Structural)]
pub enum XferFilter {
    All,
    Active,
    Done,
    Failed,
}

impl XferFilter {
    /// Whether a transfer is shown.
    pub open spec fn lets(self, ok: Option<bool>) -> bool {
        match self {
            XferFilter::All => true,
            XferFilter::Active => ok is None,
            XferFilter::Done => ok == Some(true),
            XferFilter::Failed => ok == Some(false),
        }
    }

    /// Whether a transfer is shown.
    pub fn lets_through(self, ok: Option<bool>) -> (r: bool)
        ensures
            r == self.lets(ok),
    {
        match self {
            XferFilter::All => true,
            XferFilter::Active => ok.is_none(),
            XferFilter::Done => match ok {
                Some(b) => b,
                None => false,
            },
            XferFilter::Failed => match ok {
                Some(b) => !b,
                None => false,
            },
        }
    }
}

/// How many rows the list shows at most.
pub const MAX_ROWS: usize = 50;

/// The transfers of a session that a filter lets through, newest first, as pairs of the session's
/// position and the transfer's.
pub open spec fn session_rows(ss: Seq<Session>, s: int, n: int, f: XferFilter) -> Seq<(int, int)>
    decreases n,
{
    if n <= 0 {
        Seq::empty()
    } else {
        let rest = session_rows(ss, s, n - 1, f);
        if f.lets(ss[s].transfers@[n - 1].ok) {
            seq![(s, n - 1)] + rest
        } else {
            rest
        }
    }
}

/// The transfers of several sessions that a filter lets through, one session after the other.
pub open spec fn server_rows(ss: Seq<Session>, idxs: Seq<usize>, f: XferFilter) -> Seq<(int, int)>
    decreases idxs.len(),
{
    if idxs.len() == 0 {
        Seq::empty()
    } else {
        let s = idxs.last() as int;
        server_rows(ss, idxs.drop_last(), f) + session_rows(
            ss,
            s,
            ss[s].transfers@.len() as int,
            f,
        )
    }
}

/// Positions as numbers.
pub open spec fn positions(v: Seq<(usize, usize)>) -> Seq<(int, int)> {
    Seq::new(v.len(), |i: int| (v[i].0 as int, v[i].1 as int))
}

/// At most so many of a sequence.
pub open spec fn at_most<A>(s: Seq<A>, n: int) -> Seq<A> {
    if s.len() <= n {
        s
    } else {
        s.take(n)
    }
}

/// What a row offers.
#[derive(Clone, Copy, PartialEq, Eq, Structural)]
pub enum RowState {
    /// Done; its file can be shown where it is here.
    Done { reveal: bool },
    /// Failed; it can be tried again where that is known how.
    Failed { retry: bool },
    /// Interrupted: it can be resumed.
    Paused,
    /// Waits for another transfer: it cannot be cancelled by itself.
    Queued,
    /// Runs: it can be cancelled.
    Running,
}

/// What the row of a transfer offers.
pub open spec fn row_state_of(t: Transfer) -> RowState {
    match t.ok {
        Some(true) => RowState::Done { reveal: t.local is Some },
        Some(false) => RowState::Failed { retry: t.spec is Some },
        None => if t.paused {
            RowState::Paused
        } else if t.queued {
            RowState::Queued
        } else {
            RowState::Running
        },
    }
}

/// What the menu of a row offers: a transfer that has not ended cannot be taken off the list, since
/// a copy may wait for it.
pub struct RowMenu {
    pub reveal: bool,
    pub remove: bool,
    pub delete_file: bool,
}

impl Transfer {
    /// What the row of the transfer offers.
    pub fn row_state(&self) -> (r: RowState)
        ensures
            r == row_state_of(*self),
    {
        match self.ok {
            Some(true) => RowState::Done { reveal: self.local.is_some() },
            Some(false) => RowState::Failed { retry: self.spec.is_some() },
            None => if self.paused {
                RowState::Paused
            } else if self.queued {
                RowState::Queued
            } else {
                RowState::Running
            },
        }
    }

    /// What the menu of the row offers.
    pub fn row_menu(&self) -> (r: RowMenu)
        ensures
            r.reveal == (self.local is Some),
            r.remove == (self.ok is Some),
            r.delete_file == (self.ok is Some && self.local is Some),
    {
        RowMenu {
            reveal: self.local.is_some(),
            remove: self.ok.is_some(),
            delete_file: self.ok.is_some() && self.local.is_some(),
        }
    }
}

/// How many transfers of each kind there are.
pub struct XferCounts {
    pub all: u128,
    pub active: u128,
    pub done: u128,
    pub failed: u128,
    /// Of those that failed, how many can be tried again.
    pub retryable: u128,
}

/// How many of the first `n` transfers of a session a filter lets through.
pub open spec fn count_in(ts: Seq<Transfer>, f: XferFilter) -> nat
    decreases ts.len(),
{
    if ts.len() == 0 {
        0
    } else {
        count_in(ts.drop_last(), f) + (if f.lets(ts.last().ok) {
            1nat
        } else {
            0nat
        })
    }
}

/// How many transfers of several sessions a filter lets through.
pub open spec fn count_all(ss: Seq<Session>, idxs: Seq<usize>, f: XferFilter) -> nat
    decreases idxs.len(),
{
    if idxs.len() == 0 {
        0
    } else {
        count_all(ss, idxs.drop_last(), f) + count_in(ss[idxs.last() as int].transfers@, f)
    }
}

/// How many transfers that failed can be tried again.
pub open spec fn retryable_in(ts: Seq<Transfer>) -> nat
    decreases ts.len(),
{
    if ts.len() == 0 {
        0
    } else {
        retryable_in(ts.drop_last()) + (if ts.last().ok == Some(false) && ts.last().spec is Some {
            1nat
        } else {
            0nat
        })
    }
}

/// The transfers to cancel when all are: those that run, without those that only wait.
pub open spec fn running_rows(ts: Seq<Transfer>, uid: u64) -> Seq<(u64, u64)>
    decreases ts.len(),
{
    if ts.len() == 0 {
        Seq::empty()
    } else {
        let rest = running_rows(ts.drop_last(), uid);
        if ts.last().ok is None && !ts.last().queued {
            rest.push((uid, ts.last().id))
        } else {
            rest
        }
    }
}

/// The transfers to cancel in several sessions.
pub open spec fn running_all(ss: Seq<Session>, idxs: Seq<usize>) -> Seq<(u64, u64)>
    decreases idxs.len(),
{
    if idxs.len() == 0 {
        Seq::empty()
    } else {
        let s = ss[idxs.last() as int];
        running_all(ss, idxs.drop_last()) + running_rows(s.transfers@, s.uid)
    }
}

/// The program after one transfer was cancelled: the row of a push stands for its source.
pub open spec fn row_cancelled(before: App, after: App, uid: u64, id: u64) -> bool {
    let jobs = before.xfer.direct_jobs@;
    let target = match cancel_pos(jobs, uid, id) {
        Some(i) => (jobs[i].src_uid, jobs[i].id),
        None => (uid, id),
    };
    &&& match cancel_pos(jobs, uid, id) {
        Some(i) => after.xfer.direct_jobs@ == jobs.update(
            i,
            DirectJob { cancelled: true, ..jobs[i] },
        ),
        None => after.xfer.direct_jobs == before.xfer.direct_jobs,
    }
    &&& match uid_pos(before.sessions@, target.0) {
        Some(s) => {
            &&& after.sessions@ == before.sessions@.update(s, after.sessions@[s])
            &&& after.sessions@[s].link.sends(
                before.sessions@[s].link,
                CommandView::CancelTransfer(target.1),
            )
            &&& after.sessions@[s] == (Session {
                link: after.sessions@[s].link,
                ..before.sessions@[s]
            })
        },
        None => after.sessions@ == before.sessions@,
    }
    &&& after == (App {
        sessions: after.sessions,
        xfer: Transfers { direct_jobs: after.xfer.direct_jobs, ..before.xfer },
        ..before
    })
}

/// The program as one transfer after the other is cancelled.
pub open spec fn rows_cancelled(states: Seq<App>, rows: Seq<(u64, u64)>) -> bool {
    &&& states.len() == rows.len() + 1
    &&& forall|k: int|
        0 <= k < rows.len() ==> row_cancelled(
            states[k],
            states[k + 1],
            (#[trigger] rows[k]).0,
            rows[k].1,
        )
}

/// A session after a transfer was started again with this command.
pub open spec fn row_restarted(
    before: Session,
    after: Session,
    id: u64,
    cmd: CommandView,
    text: Seq<char>,
) -> bool {
    &&& after.link.sends(before.link, cmd)
    &&& match transfer_pos(before.transfers@, id) {
        Some(t) => {
            let row = after.transfers@[t];
            &&& row.message@ == text
            &&& after.transfers@ == before.transfers@.update(
                t,
                Transfer {
                    ok: None,
                    paused: false,
                    show_err: false,
                    message: row.message,
                    ..before.transfers@[t]
                },
            )
            &&& after == (Session { link: after.link, transfers: after.transfers, ..before })
        },
        None => after == (Session { link: after.link, ..before }),
    }
}

/// The transfers that failed and can be tried again, each with the command for that.
pub open spec fn retries(ts: Seq<Transfer>) -> Seq<(u64, CommandView)>
    decreases ts.len(),
{
    if ts.len() == 0 {
        Seq::empty()
    } else {
        let rest = retries(ts.drop_last());
        let t = ts.last();
        if t.ok == Some(false) && t.spec is Some {
            rest.push((t.id, t.spec->0.command(t.id)))
        } else {
            rest
        }
    }
}

/// A session as one failed transfer after the other is tried again.
pub open spec fn session_retries(
    states: Seq<Session>,
    targets: Seq<(u64, CommandView)>,
    lang: Lang,
) -> bool {
    &&& states.len() == targets.len() + 1
    &&& forall|k: int|
        0 <= k < targets.len() ==> row_restarted(
            states[k],
            states[k + 1],
            (#[trigger] targets[k]).0,
            targets[k].1,
            tr_of(lang, "重试中 …"@, "Retrying …"@),
        )
}

/// A session after all its failed transfers were tried again.
pub open spec fn session_retried(before: Session, after: Session, lang: Lang) -> bool {
    let targets = retries(before.transfers@);
    exists|states: Seq<Session>|
        {
            &&& #[trigger] session_retries(states, targets, lang)
            &&& states[0] == before
            &&& states[targets.len() as int] == after
        }
}

/// Whether the session at `i` shows the same server as the one at `idx`.
pub open spec fn on_server(ss: Seq<Session>, idx: int, i: int) -> bool {
    i == idx || (ss[i].cfg.host@ == ss[idx].cfg.host@ && ss[i].cfg.port == ss[idx].cfg.port)
}

/// A session without the transfers that ended.
pub open spec fn session_cleared(before: Session, after: Session) -> bool {
    &&& after.transfers@ == before.transfers@.filter(|t: Transfer| t.ok is None)
    &&& after == (Session { transfers: after.transfers, ..before })
}

/// The program after the ended transfers of a server were taken off the list.
pub open spec fn server_cleared(before: App, after: App, idx: int) -> bool {
    let ss = before.sessions@;
    &&& after.sessions@.len() == ss.len()
    &&& forall|i: int|
        0 <= i < ss.len() ==> if on_server(ss, idx, i) {
            session_cleared(ss[i], #[trigger] after.sessions@[i])
        } else {
            after.sessions@[i] == ss[i]
        }
    &&& after == (App { sessions: after.sessions, ..before })
}

/// The program after the failed transfers of a server were tried again.
pub open spec fn server_retried(before: App, after: App, idx: int) -> bool {
    let ss = before.sessions@;
    &&& after.sessions@.len() == ss.len()
    &&& forall|i: int|
        0 <= i < ss.len() ==> if on_server(ss, idx, i) {
            session_retried(ss[i], #[trigger] after.sessions@[i], before.lang)
        } else {
            after.sessions@[i] == ss[i]
        }
    &&& after == (App { sessions: after.sessions, ..before })
}

/// The program after all transfers of a server that run were cancelled.
pub open spec fn server_cancelled(before: App, after: App, idx: int) -> bool {
    let rows = running_all(before.sessions@, same_server(before.sessions@, idx));
    exists|states: Seq<App>|
        {
            &&& #[trigger] rows_cancelled(states, rows)
            &&& states[0] == before
            &&& states[rows.len() as int] == after
        }
}

/// The program after one transfer was started again.
pub open spec fn row_resumed(before: App, after: App, uid: u64, id: u64) -> bool {
    let same = after.sessions@ == before.sessions@;
    &&& match uid_pos(before.sessions@, uid) {
        Some(s) => {
            let ses = before.sessions@[s];
            match transfer_pos(ses.transfers@, id) {
                Some(t) => match ses.transfers@[t].spec {
                    Some(spec) => {
                        &&& after.sessions@ == before.sessions@.update(s, after.sessions@[s])
                        &&& row_restarted(
                            ses,
                            after.sessions@[s],
                            id,
                            spec.command(id),
                            tr_of(before.lang, "续传中 …"@, "Resuming …"@),
                        )
                    },
                    None => same,
                },
                None => same,
            }
        },
        None => same,
    }
    &&& after == (App { sessions: after.sessions, ..before })
}

/// The program after the message of a failure was shown or hidden.
pub open spec fn error_toggled(before: App, after: App, uid: u64, id: u64) -> bool {
    let same = after.sessions@ == before.sessions@;
    &&& match uid_pos(before.sessions@, uid) {
        Some(s) => match transfer_pos(before.sessions@[s].transfers@, id) {
            Some(t) => {
                let row = before.sessions@[s].transfers@[t];
                row_changed(
                    before.sessions@,
                    after.sessions@,
                    s,
                    t,
                    Transfer { show_err: !row.show_err, ..row },
                )
            },
            None => same,
        },
        None => same,
    }
    &&& after == (App { sessions: after.sessions, ..before })
}

/// The program after a transfer was taken off the list.
pub open spec fn row_removed(before: App, after: App, uid: u64, id: u64) -> bool {
    &&& match uid_pos(before.sessions@, uid) {
        Some(s) => {
            &&& after.sessions@ == before.sessions@.update(s, after.sessions@[s])
            &&& after.sessions@[s].transfers@ == before.sessions@[s].transfers@.filter(
                |t: Transfer| t.id != id,
            )
            &&& after.sessions@[s] == (Session {
                transfers: after.sessions@[s].transfers,
                ..before.sessions@[s]
            })
        },
        None => after.sessions@ == before.sessions@,
    }
    &&& after == (App { sessions: after.sessions, ..before })
}

/// The next way to deal with a target that exists: overwrite, skip, rename, and round again.
pub open spec fn next_policy(p: ConflictPolicy) -> ConflictPolicy {
    match p {
        ConflictPolicy::Overwrite => ConflictPolicy::Skip,
        ConflictPolicy::Skip => ConflictPolicy::Rename,
        ConflictPolicy::Rename => ConflictPolicy::Overwrite,
    }
}

/// What a way to deal with a target that exists is called.
pub open spec fn policy_name(p: ConflictPolicy, lang: Lang) -> Seq<char> {
    match p {
        ConflictPolicy::Overwrite => tr_of(lang, "覆盖"@, "Overwrite"@),
        ConflictPolicy::Skip => tr_of(lang, "跳过"@, "Skip"@),
        ConflictPolicy::Rename => tr_of(lang, "重命名"@, "Rename"@),
    }
}

/// What a way to deal with a target that exists is called.
pub fn policy_label(p: ConflictPolicy, lang: Lang) -> (r: &'static str)
    ensures
        r@ == policy_name(p, lang),
{
    match p {
        ConflictPolicy::Overwrite => tr(lang, "覆盖", "Overwrite"),
        ConflictPolicy::Skip => tr(lang, "跳过", "Skip"),
        ConflictPolicy::Rename => tr(lang, "重命名", "Rename"),
    }
}

/// Every way to deal with a target that exists comes round after three clicks.
pub proof fn three_clicks_come_round(p: ConflictPolicy)
    ensures
        next_policy(next_policy(next_policy(p))) == p,
        next_policy(p) != p,
        next_policy(next_policy(p)) != p,
{
}

/// What was clicked in the window of the transfers in one frame.
pub struct XferClicks {
    pub filter: Option<XferFilter>,
    pub clear: bool,
    pub cancel_all: bool,
    pub retry_all: bool,
    /// A row: session and transfer.
    pub cancel: Option<(u64, u64)>,
    pub resume: Option<(u64, u64)>,
    pub toggle_err: Option<(u64, u64)>,
    /// A row to take off the list, whether its file was deleted or not.
    pub remove: Option<(u64, u64)>,
    /// The dialog for the download folder was open.
    pub picked_dir: bool,
    pub cycle_policy: bool,
    pub close: bool,
    pub outside: bool,
}

/// Whether the clicks hit something inside that keeps the window open.
pub open spec fn keeps_open(c: XferClicks) -> bool {
    ||| c.cancel_all
    ||| c.retry_all
    ||| c.cancel is Some
    ||| c.resume is Some
    ||| c.toggle_err is Some
    ||| c.remove is Some
    ||| c.picked_dir
    ||| c.cycle_policy
}

/// One row action, where it was clicked.
pub open spec fn on_click(
    before: App,
    after: App,
    click: Option<(u64, u64)>,
    act: spec_fn(App, App, u64, u64) -> bool,
) -> bool {
    match click {
        Some((uid, id)) => act(before, after, uid, id),
        None => after == before,
    }
}

fn drop_ended(ts: &mut Vec<Transfer>)
    ensures
        final(ts)@ == old(ts)@.filter(|t: Transfer| t.ok is None),
{
    let ghost keep = |t: Transfer| t.ok is None;
    let ghost all = ts@;
    let ghost mut k: int = 0;
    let mut i: usize = 0;
    proof {
        reveal(Seq::filter);
        assert(all.take(0).filter(keep) + all.skip(0) =~= all);
    }
    while i < ts.len()
        invariant
            keep == (|t: Transfer| t.ok is None),
            0 <= k <= all.len(),
            i == all.take(k).filter(keep).len(),
            ts@ == all.take(k).filter(keep) + all.skip(k),
        decreases all.len() - k,
    {
        let ghost kept = all.take(k).filter(keep);
        proof {
            reveal(Seq::filter);
            assert(all.take(k + 1).drop_last() =~= all.take(k));
            assert(all.take(k + 1).last() == all[k]);
            assert(ts@[i as int] == all[k]);
        }
        if ts[i].ok.is_some() {
            let _ = ts.remove(i);
            assert(ts@ =~= kept + all.skip(k + 1));
        } else {
            assert(kept.push(all[k]) + all.skip(k + 1) =~= kept + all.skip(k));
            i = i + 1;
        }
        proof {
            k = k + 1;
        }
    }
    proof {
        assert(ts@.len() == all.take(k).filter(keep).len() + (all.len() - k));
        assert(all.take(k) =~= all);
        assert(all.filter(keep) + all.skip(k) =~= all.filter(keep));
    }
}

fn drop_row(ts: &mut Vec<Transfer>, id: u64)
    ensures
        final(ts)@ == old(ts)@.filter(|t: Transfer| t.id != id),
{
    let ghost keep = |t: Transfer| t.id != id;
    let ghost all = ts@;
    let ghost mut k: int = 0;
    let mut i: usize = 0;
    proof {
        reveal(Seq::filter);
        assert(all.take(0).filter(keep) + all.skip(0) =~= all);
    }
    while i < ts.len()
        invariant
            keep == (|t: Transfer| t.id != id),
            0 <= k <= all.len(),
            i == all.take(k).filter(keep).len(),
            ts@ == all.take(k).filter(keep) + all.skip(k),
        decreases all.len() - k,
    {
        let ghost kept = all.take(k).filter(keep);
        proof {
            reveal(Seq::filter);
            assert(all.take(k + 1).drop_last() =~= all.take(k));
            assert(all.take(k + 1).last() == all[k]);
            assert(ts@[i as int] == all[k]);
        }
        if ts[i].id == id {
            let _ = ts.remove(i);
            assert(ts@ =~= kept + all.skip(k + 1));
        } else {
            assert(kept.push(all[k]) + all.skip(k + 1) =~= kept + all.skip(k));
            i = i + 1;
        }
        proof {
            k = k + 1;
        }
    }
    proof {
        assert(ts@.len() == all.take(k).filter(keep).len() + (all.len() - k));
        assert(all.take(k) =~= all);
        assert(all.filter(keep) + all.skip(k) =~= all.filter(keep));
    }
}

fn count_rows(ts: &Vec<Transfer>) -> (r: XferCounts)
    ensures
        r.all == count_in(ts@, XferFilter::All),
        r.active == count_in(ts@, XferFilter::Active),
        r.done == count_in(ts@, XferFilter::Done),
        r.failed == count_in(ts@, XferFilter::Failed),
        r.retryable == retryable_in(ts@),
        r.all == ts@.len(),
        r.active <= r.all && r.done <= r.all && r.failed <= r.all && r.retryable <= r.all,
{
    let mut r = XferCounts { all: 0, active: 0, done: 0, failed: 0, retryable: 0 };
    let ghost all = ts@;
    let mut i: usize = 0;
    assert(all.take(0) =~= Seq::empty());
    while i < ts.len()
        invariant
            all == ts@,
            i <= all.len(),
            r.all == count_in(all.take(i as int), XferFilter::All),
            r.active == count_in(all.take(i as int), XferFilter::Active),
            r.done == count_in(all.take(i as int), XferFilter::Done),
            r.failed == count_in(all.take(i as int), XferFilter::Failed),
            r.retryable == retryable_in(all.take(i as int)),
            r.all == i,
            r.active <= i && r.done <= i && r.failed <= i && r.retryable <= i,
        decreases all.len() - i,
    {
        assert(all.take(i + 1).drop_last() =~= all.take(i as int));
        assert(all.take(i + 1).last() == all[i as int]);
        r.all = r.all + 1;
        match ts[i].ok {
            None => {
                r.active = r.active + 1;
            },
            Some(true) => {
                r.done = r.done + 1;
            },
            Some(false) => {
                r.failed = r.failed + 1;
                if ts[i].spec.is_some() {
                    r.retryable = r.retryable + 1;
                }
            },
        }
        i = i + 1;
    }
    assert(all.take(i as int) =~= all);
    r
}

/// How many failed transfers of several sessions can be tried again.
pub open spec fn retryable_all(ss: Seq<Session>, idxs: Seq<usize>) -> nat
    decreases idxs.len(),
{
    if idxs.len() == 0 {
        0
    } else {
        retryable_all(ss, idxs.drop_last()) + retryable_in(ss[idxs.last() as int].transfers@)
    }
}

proof fn lemma_same_server_from(ss: Seq<Session>, host: Seq<char>, port: u16, skip: int, i: int)
    requires
        0 <= i,
    ensures
        forall|k: int|
            0 <= k < same_server_from(ss, host, port, skip, i).len() ==> (
            #[trigger] same_server_from(ss, host, port, skip, i)[k] as int) < ss.len() || ss.len()
                > usize::MAX,
    decreases ss.len() - i,
{
    if i < ss.len() {
        lemma_same_server_from(ss, host, port, skip, i + 1);
        let rest = same_server_from(ss, host, port, skip, i + 1);
        let all = same_server_from(ss, host, port, skip, i);
        assert forall|k: int| 0 <= k < all.len() implies (#[trigger] all[k] as int) < ss.len()
            || ss.len() > usize::MAX by {
            if all.len() == rest.len() + 1 && k > 0 {
                assert(all[k] == rest[k - 1]);
            } else if all.len() == rest.len() {
                assert(all[k] == rest[k]);
            }
        }
    }
}

fn add_session_rows(out: &mut Vec<(usize, usize)>, s: &Session, pos: usize, f: XferFilter, ss: Ghost<
    Seq<Session>,
>)
    requires
        pos < ss@.len(),
        ss@[pos as int] == *s,
    ensures
        positions(final(out)@) == positions(old(out)@) + session_rows(
            ss@,
            pos as int,
            s.transfers@.len() as int,
            f,
        ),
{
    let ghost base = positions(out@);
    let ghost want = session_rows(ss@, pos as int, s.transfers@.len() as int, f);
    let mut n: usize = s.transfers.len();
    assert(base + want =~= positions(out@) + session_rows(ss@, pos as int, n as int, f));
    while n > 0
        invariant
            n <= s.transfers@.len(),
            pos < ss@.len(),
            ss@[pos as int] == *s,
            base + want == positions(out@) + session_rows(ss@, pos as int, n as int, f),
        decreases n,
    {
        let ghost rest = session_rows(ss@, pos as int, n - 1, f);
        let ghost was = positions(out@);
        if f.lets_through(s.transfers[n - 1].ok) {
            out.push((pos, n - 1));
            assert(positions(out@) =~= was.push((pos as int, n - 1)));
            assert(was + (seq![(pos as int, n - 1)] + rest) =~= positions(out@) + rest);
        }
        n = n - 1;
    }
    assert(positions(out@) + session_rows(ss@, pos as int, 0, f) =~= positions(out@));
}

impl App {
    /// The rows that the list shows for the tab at `idx`: the transfers of all tabs of its server,
    /// that tab first, newest first, as far as the filter lets them through, and not too many. Each
    /// is a pair of the session's position and the transfer's.
    pub fn transfer_rows(&self, idx: usize) -> (r: Vec<(usize, usize)>)
        ensures
            positions(r@) == at_most(
                server_rows(
                    self.sessions@,
                    same_server(self.sessions@, idx as int),
                    self.xfer_filter,
                ),
                MAX_ROWS as int,
            ),
    {
        let idxs = self.same_server_idxs(idx);
        let n: usize = self.sessions.len();
        let ghost ss = self.sessions@;
        let ghost all = idxs@;
        let mut out: Vec<(usize, usize)> = Vec::new();
        let mut k: usize = 0;
        proof {
            assert(all.take(0) =~= Seq::empty());
            assert(positions(out@) =~= Seq::empty());
            assert(ss.len() == n);
            lemma_in_range(ss, idx as int);
        }
        while k < idxs.len()
            invariant
                ss == self.sessions@,
                all == idxs@,
                k <= all.len(),
                forall|j: int| 0 <= j < all.len() ==> (#[trigger] all[j] as int) < ss.len(),
                positions(out@) == server_rows(ss, all.take(k as int), self.xfer_filter),
            decreases all.len() - k,
        {
            let pos: usize = idxs[k];
            proof {
                assert(all[k as int] == pos);
                assert(all.take(k + 1).drop_last() =~= all.take(k as int));
                assert(all.take(k + 1).last() == pos);
            }
            add_session_rows(&mut out, &self.sessions[pos], pos, self.xfer_filter, Ghost(ss));
            k = k + 1;
        }
        assert(all.take(k as int) =~= all);
        if out.len() > MAX_ROWS {
            let ghost was = positions(out@);
            out.truncate(MAX_ROWS);
            assert(positions(out@) =~= was.take(MAX_ROWS as int));
        }
        out
    }
}

impl App {
    /// Counts the transfers of all tabs of the server that the tab at `idx` shows.
    pub fn transfer_counts(&self, idx: usize) -> (r: XferCounts)
        ensures
            ({
                let idxs = same_server(self.sessions@, idx as int);
                &&& r.all == count_all(self.sessions@, idxs, XferFilter::All)
                &&& r.active == count_all(self.sessions@, idxs, XferFilter::Active)
                &&& r.done == count_all(self.sessions@, idxs, XferFilter::Done)
                &&& r.failed == count_all(self.sessions@, idxs, XferFilter::Failed)
                &&& r.retryable == retryable_all(self.sessions@, idxs)
            }),
    {
        let idxs = self.same_server_idxs(idx);
        let n: usize = self.sessions.len();
        let ghost ss = self.sessions@;
        let ghost all = idxs@;
        let mut r = XferCounts { all: 0, active: 0, done: 0, failed: 0, retryable: 0 };
        let mut k: usize = 0;
        proof {
            assert(all.take(0) =~= Seq::empty());
            assert(ss.len() == n);
            lemma_in_range(ss, idx as int);
        }
        while k < idxs.len()
            invariant
                ss == self.sessions@,
                all == idxs@,
                k <= all.len(),
                forall|j: int| 0 <= j < all.len() ==> (#[trigger] all[j] as int) < ss.len(),
                r.all == count_all(ss, all.take(k as int), XferFilter::All),
                r.active == count_all(ss, all.take(k as int), XferFilter::Active),
                r.done == count_all(ss, all.take(k as int), XferFilter::Done),
                r.failed == count_all(ss, all.take(k as int), XferFilter::Failed),
                r.retryable == retryable_all(ss, all.take(k as int)),
                r.all <= k * u64::MAX,
                r.active <= r.all && r.done <= r.all && r.failed <= r.all && r.retryable <= r.all,
            decreases all.len() - k,
        {
            let pos: usize = idxs[k];
            proof {
                assert(all[k as int] == pos);
                assert(all.take(k + 1).drop_last() =~= all.take(k as int));
                assert(all.take(k + 1).last() == pos);
            }
            let len: usize = self.sessions[pos].transfers.len();
            let c = count_rows(&self.sessions[pos].transfers);
            assert(c.all == len);
            assert(k * u64::MAX + u64::MAX <= u128::MAX) by (nonlinear_arith)
                requires
                    k < usize::MAX,
                    usize::MAX <= u64::MAX,
            ;
            r.all = r.all + c.all;
            r.active = r.active + c.active;
            r.done = r.done + c.done;
            r.failed = r.failed + c.failed;
            r.retryable = r.retryable + c.retryable;
            k = k + 1;
        }
        assert(all.take(k as int) =~= all);
        r
    }
}

proof fn lemma_in_range(ss: Seq<Session>, idx: int)
    requires
        0 <= idx,
        ss.len() <= usize::MAX,
    ensures
        forall|j: int|
            0 <= j < same_server(ss, idx).len() ==> (#[trigger] same_server(ss, idx)[j] as int)
                < ss.len(),
{
    if idx < ss.len() {
        let rest = same_server_from(ss, ss[idx].cfg.host@, ss[idx].cfg.port, idx, 0);
        lemma_same_server_from(ss, ss[idx].cfg.host@, ss[idx].cfg.port, idx, 0);
        assert forall|j: int| 0 <= j < same_server(ss, idx).len() implies (
        #[trigger] same_server(ss, idx)[j] as int) < ss.len() by {
            if j > 0 {
                assert(same_server(ss, idx)[j] == rest[j - 1]);
            }
        }
    }
}

impl Session {
    fn restart_row(&mut self, id: u64, cmd: UiCommand, text: &str)
        ensures
            row_restarted(*old(self), *final(self), id, cmd@, text@),
    {
        let _ = self.link.send(cmd);
        match find_transfer(&self.transfers, id) {
            Some(t) => {
                self.transfers[t].ok = None;
                self.transfers[t].paused = false;
                self.transfers[t].show_err = false;
                self.transfers[t].message = text.to_owned();
                assert(self.transfers@ =~= old(self).transfers@.update(
                    t as int,
                    self.transfers@[t as int],
                ));
            },
            None => {},
        }
    }

    /// Tries all failed transfers again.
    fn retry_rows(&mut self, lang: Lang)
        ensures
            session_retried(*old(self), *final(self), lang),
            final(self).uid == old(self).uid,
    {
        let ghost ts = self.transfers@;
        let ghost targets = retries(ts);
        let mut ids: Vec<u64> = Vec::new();
        let mut cmds: Vec<UiCommand> = Vec::new();
        let mut i: usize = 0;
        assert(ts.take(0) =~= Seq::empty());
        while i < self.transfers.len()
            invariant
                *self == *old(self),
                ts == self.transfers@,
                i <= ts.len(),
                ids@.len() == retries(ts.take(i as int)).len(),
                cmds@.len() == ids@.len(),
                forall|k: int|
                    0 <= k < ids@.len() ==> (#[trigger] retries(ts.take(i as int))[k]) == (
                        ids@[k],
                        cmds@[k]@,
                    ),
            decreases ts.len() - i,
        {
            proof {
                assert(ts.take(i + 1).drop_last() =~= ts.take(i as int));
                assert(ts.take(i + 1).last() == ts[i as int]);
            }
            let ghost had = retries(ts.take(i as int));
            let failed: bool = match self.transfers[i].ok {
                Some(b) => !b,
                None => false,
            };
            if failed {
                match &self.transfers[i].spec {
                    Some(spec) => {
                        let id: u64 = self.transfers[i].id;
                        ids.push(id);
                        cmds.push(spec.to_command(id));
                    },
                    None => {},
                }
            }
            proof {
                let now = retries(ts.take(i + 1));
                assert forall|k: int| 0 <= k < ids@.len() implies (#[trigger] now[k]) == (
                    ids@[k],
                    cmds@[k]@,
                ) by {
                    if k < had.len() {
                        assert(now[k] == had[k]);
                    }
                }
            }
            i = i + 1;
        }
        assert(ts.take(i as int) =~= ts);
        let text = tr(lang, "重试中 …", "Retrying …");
        let ghost all_ids = ids@;
        let ghost all_cmds = cmds@;
        let ghost mut states: Seq<Session> = seq![*self];
        let ghost mut k: int = 0;
        assert(all_cmds.skip(0) =~= all_cmds);
        let mut n: usize = 0;
        while n < ids.len()
            invariant
                ids@ == all_ids,
                k == n,
                n <= all_ids.len(),
                cmds@ == all_cmds.skip(k),
                all_cmds.len() == all_ids.len(),
                targets.len() == all_ids.len(),
                forall|j: int|
                    0 <= j < all_ids.len() ==> (#[trigger] targets[j]) == (
                        all_ids[j],
                        all_cmds[j]@,
                    ),
                text@ == tr_of(lang, "重试中 …"@, "Retrying …"@),
                states.len() == k + 1,
                states[0] == *old(self),
                states[k] == *self,
                self.uid == old(self).uid,
                forall|j: int|
                    0 <= j < k ==> row_restarted(
                        states[j],
                        states[j + 1],
                        (#[trigger] targets[j]).0,
                        targets[j].1,
                        text@,
                    ),
            decreases all_ids.len() - n,
        {
            let ghost was = *self;
            let ghost old_states = states;
            let cmd = cmds.remove(0);
            assert(cmd == all_cmds[k]);
            assert(cmds@ =~= all_cmds.skip(k + 1));
            self.restart_row(ids[n], cmd, text);
            proof {
                states = states.push(*self);
                assert(targets[k] == (all_ids[k], all_cmds[k]@));
                assert forall|j: int| 0 <= j < k + 1 implies row_restarted(
                    states[j],
                    states[j + 1],
                    (#[trigger] targets[j]).0,
                    targets[j].1,
                    text@,
                ) by {
                    if j < k {
                        assert(states[j] == old_states[j] && states[j + 1] == old_states[j + 1]);
                    } else {
                        assert(states[j] == was);
                    }
                }
                k = k + 1;
            }
            n = n + 1;
        }
        assert(session_retries(states, targets, lang));
    }
}

impl App {
    fn is_on_server(&self, idx: usize, i: usize) -> (r: bool)
        requires
            idx < self.sessions@.len(),
            i < self.sessions@.len(),
        ensures
            r == on_server(self.sessions@, idx as int, i as int),
    {
        i == idx || (same(
            self.sessions[i].cfg.host.as_str(),
            self.sessions[idx].cfg.host.as_str(),
        ) && self.sessions[i].cfg.port == self.sessions[idx].cfg.port)
    }

    /// Takes the ended transfers of a server off the list.
    pub fn clear_transfers(&mut self, idx: usize)
        requires
            idx < old(self).sessions@.len(),
        ensures
            server_cleared(*old(self), *final(self), idx as int),
            same_uids(old(self).sessions@, final(self).sessions@),
    {
        let ghost ss = self.sessions@;
        let mut i: usize = 0;
        while i < self.sessions.len()
            invariant
                ss == old(self).sessions@,
                idx < ss.len(),
                self.sessions@.len() == ss.len(),
                i <= ss.len(),
                *self == (App { sessions: self.sessions, ..*old(self) }),
                forall|k: int|
                    0 <= k < i ==> if on_server(ss, idx as int, k) {
                        session_cleared(ss[k], #[trigger] self.sessions@[k])
                    } else {
                        self.sessions@[k] == ss[k]
                    },
                forall|k: int| i <= k < ss.len() ==> #[trigger] self.sessions@[k] == ss[k],
            decreases ss.len() - i,
        {
            let ghost held = self.sessions@;
            proof {
                assert(held[i as int] == ss[i as int]);
                assert(held[idx as int].cfg == ss[idx as int].cfg);
            }
            if self.is_on_server(idx, i) {
                drop_ended(&mut self.sessions[i].transfers);
            }
            proof {
                assert forall|k: int| 0 <= k < i + 1 implies if on_server(ss, idx as int, k) {
                    session_cleared(ss[k], #[trigger] self.sessions@[k])
                } else {
                    self.sessions@[k] == ss[k]
                } by {
                    if k < i {
                        assert(self.sessions@[k] == held[k]);
                    }
                }
            }
            i = i + 1;
        }
        assert forall|k: int| 0 <= k < ss.len() implies (#[trigger] self.sessions@[k]).uid
            == ss[k].uid by {
            assert(on_server(ss, idx as int, k) || !on_server(ss, idx as int, k));
        }
    }

    /// Tries the failed transfers of a server again.
    pub fn retry_transfers(&mut self, idx: usize)
        requires
            idx < old(self).sessions@.len(),
        ensures
            server_retried(*old(self), *final(self), idx as int),
            same_uids(old(self).sessions@, final(self).sessions@),
    {
        let lang = self.lang;
        let ghost ss = self.sessions@;
        let mut i: usize = 0;
        let (host, port): (String, u16) = (
            self.sessions[idx].cfg.host.clone(),
            self.sessions[idx].cfg.port,
        );
        while i < self.sessions.len()
            invariant
                ss == old(self).sessions@,
                lang == old(self).lang,
                idx < ss.len(),
                host@ == ss[idx as int].cfg.host@,
                port == ss[idx as int].cfg.port,
                self.sessions@.len() == ss.len(),
                i <= ss.len(),
                *self == (App { sessions: self.sessions, ..*old(self) }),
                forall|k: int|
                    0 <= k < i ==> if on_server(ss, idx as int, k) {
                        session_retried(ss[k], #[trigger] self.sessions@[k], lang)
                    } else {
                        self.sessions@[k] == ss[k]
                    },
                forall|k: int| 0 <= k < i ==> (#[trigger] self.sessions@[k]).uid == ss[k].uid,
                forall|k: int| i <= k < ss.len() ==> #[trigger] self.sessions@[k] == ss[k],
            decreases ss.len() - i,
        {
            let ghost held = self.sessions@;
            assert(held[i as int] == ss[i as int]);
            if i == idx || (same(self.sessions[i].cfg.host.as_str(), host.as_str())
                && self.sessions[i].cfg.port == port) {
                self.sessions[i].retry_rows(lang);
            }
            proof {
                assert forall|k: int| 0 <= k < i + 1 implies if on_server(ss, idx as int, k) {
                    session_retried(ss[k], #[trigger] self.sessions@[k], lang)
                } else {
                    self.sessions@[k] == ss[k]
                } by {
                    if k < i {
                        assert(self.sessions@[k] == held[k]);
                    }
                }
                assert forall|k: int| 0 <= k < i + 1 implies (
                #[trigger] self.sessions@[k]).uid == ss[k].uid by {
                    if k < i {
                        assert(self.sessions@[k] == held[k]);
                    }
                }
            }
            i = i + 1;
        }
    }

    /// Cancels a transfer; the row of a push stands for its source.
    pub fn cancel_transfer(&mut self, uid: u64, id: u64)
        ensures
            row_cancelled(*old(self), *final(self), uid, id),
            same_uids(old(self).sessions@, final(self).sessions@),
    {
        let (tu, ti): (u64, u64) = self.cancel_target(uid, id);
        match self.session_idx_by_uid(tu) {
            Some(s) => {
                let _ = self.sessions[s].link.send(UiCommand::CancelTransfer(ti));
                assert(self.sessions@ =~= old(self).sessions@.update(
                    s as int,
                    self.sessions@[s as int],
                ));
            },
            None => {},
        }
    }

    fn running_on_server(&self, idx: usize) -> (rows: Vec<(u64, u64)>)
        requires
            idx < self.sessions@.len(),
        ensures
            rows@ == running_all(self.sessions@, same_server(self.sessions@, idx as int)),
    {
        let idxs = self.same_server_idxs(idx);
        let n: usize = self.sessions.len();
        let ghost ss = self.sessions@;
        let ghost all = idxs@;
        let mut rows: Vec<(u64, u64)> = Vec::new();
        let mut k: usize = 0;
        proof {
            assert(all.take(0) =~= Seq::empty());
            assert(ss.len() == n);
            lemma_in_range(ss, idx as int);
        }
        while k < idxs.len()
            invariant
                ss == self.sessions@,
                all == idxs@,
                k <= all.len(),
                forall|j: int| 0 <= j < all.len() ==> (#[trigger] all[j] as int) < ss.len(),
                rows@ == running_all(ss, all.take(k as int)),
            decreases all.len() - k,
        {
            let pos: usize = idxs[k];
            proof {
                assert(all[k as int] == pos);
                assert(all.take(k + 1).drop_last() =~= all.take(k as int));
                assert(all.take(k + 1).last() == pos);
            }
            let ghost had = rows@;
            let s = &self.sessions[pos];
            let ghost ts = s.transfers@;
            let mut i: usize = 0;
            assert(ts.take(0) =~= Seq::empty());
            assert(had + running_rows(ts.take(0), s.uid) =~= had);
            while i < s.transfers.len()
                invariant
                    ts == s.transfers@,
                    i <= ts.len(),
                    rows@ == had + running_rows(ts.take(i as int), s.uid),
                decreases ts.len() - i,
            {
                let ghost some = running_rows(ts.take(i as int), s.uid);
                proof {
                    assert(ts.take(i + 1).drop_last() =~= ts.take(i as int));
                    assert(ts.take(i + 1).last() == ts[i as int]);
                }
                if s.transfers[i].ok.is_none() && !s.transfers[i].queued {
                    rows.push((s.uid, s.transfers[i].id));
                    assert(rows@ =~= had + some.push((s.uid, ts[i as int].id)));
                }
                i = i + 1;
            }
            assert(ts.take(i as int) =~= ts);
            k = k + 1;
        }
        assert(all.take(k as int) =~= all);
        rows
    }

    /// Cancels the transfers of a server that run.
    pub fn cancel_transfers(&mut self, idx: usize)
        requires
            idx < old(self).sessions@.len(),
        ensures
            server_cancelled(*old(self), *final(self), idx as int),
            same_uids(old(self).sessions@, final(self).sessions@),
            final(self).active == old(self).active,
            final(self).next_uid == old(self).next_uid,
            final(self).show_transfers == old(self).show_transfers,
    {
        let rows = self.running_on_server(idx);
        let ghost all = rows@;
        let ghost ss = self.sessions@;
        let ghost mut states: Seq<App> = seq![*self];
        let mut k: usize = 0;
        while k < rows.len()
            invariant
                all == rows@,
                ss == old(self).sessions@,
                k <= all.len(),
                states.len() == k + 1,
                states[0] == *old(self),
                states[k as int] == *self,
                same_uids(ss, self.sessions@),
                self.active == old(self).active,
                self.next_uid == old(self).next_uid,
                self.show_transfers == old(self).show_transfers,
                forall|j: int|
                    0 <= j < k ==> row_cancelled(
                        states[j],
                        states[j + 1],
                        (#[trigger] all[j]).0,
                        all[j].1,
                    ),
            decreases all.len() - k,
        {
            let ghost was = *self;
            let ghost old_states = states;
            let (uid, id): (u64, u64) = rows[k];
            self.cancel_transfer(uid, id);
            proof {
                states = states.push(*self);
                assert forall|j: int| 0 <= j < k + 1 implies row_cancelled(
                    states[j],
                    states[j + 1],
                    (#[trigger] all[j]).0,
                    all[j].1,
                ) by {
                    if j < k {
                        assert(states[j] == old_states[j] && states[j + 1] == old_states[j + 1]);
                    } else {
                        assert(states[j] == was);
                    }
                }
                assert forall|i: int| 0 <= i < ss.len() implies (
                #[trigger] self.sessions@[i]).uid == ss[i].uid by {
                    assert(was.sessions@[i].uid == ss[i].uid);
                }
            }
            k = k + 1;
        }
        assert(rows_cancelled(states, all));
    }

    /// Starts a transfer again.
    pub fn resume_transfer(&mut self, uid: u64, id: u64)
        ensures
            row_resumed(*old(self), *final(self), uid, id),
            same_uids(old(self).sessions@, final(self).sessions@),
    {
        let s: usize = match self.session_idx_by_uid(uid) {
            Some(s) => s,
            None => {
                return;
            },
        };
        let cmd: Option<UiCommand> = match find_transfer(&self.sessions[s].transfers, id) {
            Some(t) => match &self.sessions[s].transfers[t].spec {
                Some(spec) => Some(spec.to_command(id)),
                None => None,
            },
            None => None,
        };
        match cmd {
            Some(c) => {
                let text = tr(self.lang, "续传中 …", "Resuming …");
                self.sessions[s].restart_row(id, c, text);
                assert(self.sessions@ =~= old(self).sessions@.update(
                    s as int,
                    self.sessions@[s as int],
                ));
            },
            None => {},
        }
    }

    /// Shows or hides the message of a failure.
    pub fn toggle_error(&mut self, uid: u64, id: u64)
        ensures
            error_toggled(*old(self), *final(self), uid, id),
            same_uids(old(self).sessions@, final(self).sessions@),
    {
        match self.session_idx_by_uid(uid) {
            Some(s) => match find_transfer(&self.sessions[s].transfers, id) {
                Some(t) => {
                    let shown: bool = self.sessions[s].transfers[t].show_err;
                    self.sessions[s].transfers[t].show_err = !shown;
                    proof {
                        let a = old(self).sessions@;
                        let b = self.sessions@;
                        assert(b[s as int].transfers@ =~= a[s as int].transfers@.update(
                            t as int,
                            b[s as int].transfers@[t as int],
                        ));
                        assert(b =~= a.update(s as int, b[s as int]));
                    }
                },
                None => {},
            },
            None => {},
        }
    }

    /// Takes a transfer off the list.
    pub fn remove_transfer(&mut self, uid: u64, id: u64)
        ensures
            row_removed(*old(self), *final(self), uid, id),
            same_uids(old(self).sessions@, final(self).sessions@),
    {
        match self.session_idx_by_uid(uid) {
            Some(s) => {
                drop_row(&mut self.sessions[s].transfers, id);
                assert(self.sessions@ =~= old(self).sessions@.update(
                    s as int,
                    self.sessions@[s as int],
                ));
            },
            None => {},
        }
    }
}

/// What the buttons for a whole server do, one after the other.
pub open spec fn server_clicks(a: App, b: App, c: App, d: App, idx: int, clicks: XferClicks) -> bool {
    &&& if clicks.clear {
        server_cleared(a, b, idx)
    } else {
        b == a
    }
    &&& if clicks.cancel_all {
        server_cancelled(b, c, idx)
    } else {
        c == b
    }
    &&& if clicks.retry_all {
        server_retried(c, d, idx)
    } else {
        d == c
    }
}

/// What the buttons of a row do, one after the other.
pub open spec fn row_clicks(a: App, b: App, c: App, d: App, e: App, clicks: XferClicks) -> bool {
    &&& on_click(a, b, clicks.cancel, |a, b, u, i| row_cancelled(a, b, u, i))
    &&& on_click(b, c, clicks.resume, |a, b, u, i| row_resumed(a, b, u, i))
    &&& on_click(c, d, clicks.toggle_err, |a, b, u, i| error_toggled(a, b, u, i))
    &&& on_click(d, e, clicks.remove, |a, b, u, i| row_removed(a, b, u, i))
}

/// What the clicks leave of the window.
pub open spec fn window_after(before: App, clicks: XferClicks, just_opened: bool) -> App {
    App {
        conflict_policy: if clicks.cycle_policy {
            next_policy(before.conflict_policy)
        } else {
            before.conflict_policy
        },
        show_transfers: !(clicks.close || (clicks.outside && !just_opened && !keeps_open(clicks))),
        xfer_just_opened: false,
        ..before
    }
}

/// The states of one frame of the window: the filter, the buttons for the server, the buttons of
/// the rows, and the window itself.
pub open spec fn transfer_frames(s: Seq<App>, idx: int, clicks: XferClicks) -> bool {
    &&& s.len() == 10
    &&& s[1] == (App {
        xfer_filter: match clicks.filter {
            Some(f) => f,
            None => s[0].xfer_filter,
        },
        ..s[0]
    })
    &&& server_clicks(s[1], s[2], s[3], s[4], idx, clicks)
    &&& row_clicks(s[4], s[5], s[6], s[7], s[8], clicks)
    &&& s[9] == window_after(s[8], clicks, s[0].xfer_just_opened)
}

/// What one frame of the window of the transfers does.
pub open spec fn transfer_window_ok(before: App, after: App, clicks: XferClicks) -> bool {
    if !before.show_transfers || before.active is None {
        after == before
    } else {
        exists|s: Seq<App>|
            {
                &&& #[trigger] transfer_frames(s, before.active->0 as int, clicks)
                &&& s[0] == before
                &&& s[9] == after
            }
    }
}

/// What the clicks in the list keep.
spec fn list_frame(a: App, b: App) -> bool {
    &&& same_uids(a.sessions@, b.sessions@)
    &&& b.active == a.active
    &&& b.next_uid == a.next_uid
    &&& b.show_transfers == a.show_transfers
}

impl App {
    fn take_server_clicks(&mut self, idx: usize, clicks: &XferClicks)
        requires
            idx < old(self).sessions@.len(),
        ensures
            exists|b: App, c: App| #[trigger]
                server_clicks(*old(self), b, c, *final(self), idx as int, *clicks),
            list_frame(*old(self), *final(self)),
    {
        let ghost a = *self;
        if clicks.clear {
            self.clear_transfers(idx);
        }
        let ghost b = *self;
        if clicks.cancel_all {
            self.cancel_transfers(idx);
        }
        let ghost c = *self;
        if clicks.retry_all {
            self.retry_transfers(idx);
        }
        proof {
            assert(server_clicks(a, b, c, *self, idx as int, *clicks));
            assert forall|i: int| 0 <= i < a.sessions@.len() implies (
            #[trigger] self.sessions@[i]).uid == a.sessions@[i].uid by {
                assert(b.sessions@[i].uid == a.sessions@[i].uid);
                assert(c.sessions@[i].uid == b.sessions@[i].uid);
            }
        }
    }

    fn take_row_clicks(&mut self, clicks: &XferClicks)
        ensures
            exists|b: App, c: App, d: App| #[trigger]
                row_clicks(*old(self), b, c, d, *final(self), *clicks),
            list_frame(*old(self), *final(self)),
    {
        let ghost a = *self;
        match clicks.cancel {
            Some((uid, id)) => {
                self.cancel_transfer(uid, id);
            },
            None => {},
        }
        let ghost b = *self;
        match clicks.resume {
            Some((uid, id)) => {
                self.resume_transfer(uid, id);
            },
            None => {},
        }
        let ghost c = *self;
        match clicks.toggle_err {
            Some((uid, id)) => {
                self.toggle_error(uid, id);
            },
            None => {},
        }
        let ghost d = *self;
        match clicks.remove {
            Some((uid, id)) => {
                self.remove_transfer(uid, id);
            },
            None => {},
        }
        proof {
            assert(row_clicks(a, b, c, d, *self, *clicks));
            assert forall|i: int| 0 <= i < a.sessions@.len() implies (
            #[trigger] self.sessions@[i]).uid == a.sessions@[i].uid by {
                assert(b.sessions@[i].uid == a.sessions@[i].uid);
                assert(c.sessions@[i].uid == b.sessions@[i].uid);
                assert(d.sessions@[i].uid == c.sessions@[i].uid);
            }
        }
    }

    fn finish_window(&mut self, clicks: &XferClicks, just_opened: bool)
        requires
            old(self).show_transfers,
        ensures
            *final(self) == window_after(*old(self), *clicks, just_opened),
    {
        if clicks.cycle_policy {
            self.conflict_policy = match self.conflict_policy {
                ConflictPolicy::Overwrite => ConflictPolicy::Skip,
                ConflictPolicy::Skip => ConflictPolicy::Rename,
                ConflictPolicy::Rename => ConflictPolicy::Overwrite,
            };
        }
        let kept = clicks.cancel_all || clicks.retry_all || clicks.cancel.is_some()
            || clicks.resume.is_some() || clicks.toggle_err.is_some() || clicks.remove.is_some()
            || clicks.picked_dir || clicks.cycle_policy;
        if clicks.close || (clicks.outside && !just_opened && !kept) {
            self.show_transfers = false;
        }
        self.xfer_just_opened = false;
    }

    /// One frame of the window of the transfers.
    pub fn transfer_window(&mut self, clicks: &XferClicks)
        requires
            old(self).wf(),
        ensures
            transfer_window_ok(*old(self), *final(self), *clicks),
            final(self).wf(),
    {
        if !self.show_transfers {
            return;
        }
        let idx: usize = match self.active {
            Some(i) => i,
            None => {
                return;
            },
        };
        let ghost s0 = *self;
        let just_opened: bool = self.xfer_just_opened;
        match clicks.filter {
            Some(f) => {
                self.xfer_filter = f;
            },
            None => {},
        }
        let ghost s1 = *self;
        self.take_server_clicks(idx, clicks);
        let ghost s4 = *self;
        self.take_row_clicks(clicks);
        let ghost s8 = *self;
        self.finish_window(clicks, just_opened);
        proof {
            lemma_transfer_frames(s0, s1, s4, s8, *self, *clicks);
        }
    }
}

proof fn lemma_transfer_frames(s0: App, s1: App, s4: App, s8: App, s9: App, clicks: XferClicks)
    requires
        s0.wf(),
        s0.show_transfers,
        s0.active is Some,
        s1 == (App {
            xfer_filter: match clicks.filter {
                Some(f) => f,
                None => s0.xfer_filter,
            },
            ..s0
        }),
        exists|b: App, c: App| #[trigger]
            server_clicks(s1, b, c, s4, s0.active->0 as int, clicks),
        list_frame(s1, s4),
        exists|b: App, c: App, d: App| #[trigger] row_clicks(s4, b, c, d, s8, clicks),
        list_frame(s4, s8),
        s9 == window_after(s8, clicks, s0.xfer_just_opened),
    ensures
        transfer_window_ok(s0, s9, clicks),
        s9.wf(),
{
    let idx = s0.active->0 as int;
    let (s2, s3) = choose|b: App, c: App| #[trigger] server_clicks(s1, b, c, s4, idx, clicks);
    let (s5, s6, s7) = choose|b: App, c: App, d: App| #[trigger]
        row_clicks(s4, b, c, d, s8, clicks);
    let s = seq![s0, s1, s2, s3, s4, s5, s6, s7, s8, s9];
    assert(transfer_frames(s, idx, clicks));
    assert forall|i: int| 0 <= i < s0.sessions@.len() implies (#[trigger] s9.sessions@[i]).uid
        == s0.sessions@[i].uid by {
        assert(s4.sessions@[i].uid == s1.sessions@[i].uid);
        assert(s8.sessions@[i].uid == s4.sessions@[i].uid);
    }
    lemma_wf_kept(s0, s9);
}

} // verus!
