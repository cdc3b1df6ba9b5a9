//! Pushes from one server straight to another: starting one, showing its progress at both ends, and
//! what follows when it ends.
use vstd::prelude::*;
use vstd::string::*;

use crate::app::{
    lemma_uid_pos, lemma_uid_pos_same, lemma_wf_kept, same_uids, uid_pos, App,
};
use crate::clipboard::{
    item_paths, paths_of, DirectFallback, DirectJob, PasteView, PendingPaste, Transfers,
};
use crate::paste::{count_text, counted, status_set};
use crate::paths::{basename_of, remote_basename};
use crate::proto::{
    tr, tr_of, CommandView, DirectSpec, DirectSpecView, Lang, TransferDir, UiCommand,
};
use crate::relays::{named, row_changed, row_ok, row_progress, source_deleted};
use crate::saved::{AuthMethod, AuthView};
use crate::session::Session;
use crate::text::{decimal, push_decimal};
use crate::transfers::{
    find_running, find_transfer, running_pos, transfer_pos, Transfer,
};

verus! {

/// Every session can number `n` more transfers.
pub open spec fn room(app: App, n: int) -> bool {
    forall|i: int|
        0 <= i < app.sessions@.len() ==> (#[trigger] app.sessions@[i]).next_xfer + n <= u64::MAX
}

/// The key file that a target lets the source in with: a key without a passphrase.
pub open spec fn plain_key(auth: AuthView) -> Option<Seq<char>> {
    match auth {
        AuthView::KeyFile { path, passphrase } => match passphrase {
            Some(p) => if p.len() == 0 {
                Some(path)
            } else {
                None
            },
            None => Some(path),
        },
        _ => None,
    }
}

/// What a push is called in the list.
pub open spec fn push_label(items: Seq<(Seq<char>, bool)>) -> Seq<char> {
    if items.len() == 0 {
        Seq::empty()
    } else {
        let path = items[0].0;
        let first = if basename_of(path).len() == 0 {
            path
        } else {
            basename_of(path)
        };
        if items.len() > 1 {
            first + " +"@ + decimal((items.len() - 1) as nat)
        } else {
            first
        }
    }
}

/// A session with one more row in its list.
pub open spec fn push_row_added(
    before: Session,
    after: Session,
    label: Seq<char>,
    dir: TransferDir,
    lang: Lang,
) -> bool {
    &&& after.next_xfer == before.next_xfer + 1
    &&& after.transfers@.len() == before.transfers@.len() + 1
    &&& after.transfers@.drop_last() == before.transfers@
    &&& after.transfers@.last().is_row(
        before.next_xfer,
        label,
        dir,
        ""@,
        false,
        tr_of(lang, "直传"@, "Direct"@),
    )
    &&& after == (Session { next_xfer: after.next_xfer, transfers: after.transfers, ..before })
}

/// What the status line of the source says of a push.
pub open spec fn push_text(is_cut: bool, lang: Lang, n: nat) -> Seq<char> {
    if is_cut {
        counted(
            ("跨服务器移动 "@, " 项（直传）…"@),
            ("Cross-server move "@, " (direct) …"@),
            lang,
            n,
        )
    } else {
        counted(
            ("跨服务器复制 "@, " 项（直传）…"@),
            ("Cross-server copy "@, " (direct) …"@),
            lang,
            n,
        )
    }
}

/// What the status line of the target says of a push.
pub open spec fn push_in_text(lang: Lang, n: nat) -> Seq<char> {
    counted(
        ("正从源主机直传 "@, " 项到此目录…"@),
        ("Direct transfer of "@, " item(s) into this folder…"@),
        lang,
        n,
    )
}

/// The source after the push was ordered.
pub open spec fn push_ordered(
    before: Session,
    after: Session,
    spec: DirectSpecView,
    status: Seq<char>,
) -> bool {
    &&& after.link.sends(before.link, CommandView::DirectTransfer(spec))
    &&& after.status@ == status
    &&& after == (Session { link: after.link, status: after.status, ..before })
}

/// The order that starts a push.
pub open spec fn push_spec(
    plan: PasteView,
    dest: Session,
    id: u64,
    key: Seq<char>,
    host_known: bool,
) -> DirectSpecView {
    DirectSpecView {
        id,
        srcs: paths_of(plan.items),
        dest_user: dest.cfg.username@,
        dest_host: dest.cfg.host@,
        dest_port: dest.cfg.port,
        dest_dir: plan.dest_dir,
        key_path: key,
        label: push_label(plan.items),
        dest_host_known: host_known,
    }
}

/// A push of a plan that is under way.
pub open spec fn is_job(j: DirectJob, plan: PasteView, id: u64, mir_id: u64) -> bool {
    &&& j.id == id
    &&& j.mir_id == mir_id
    &&& j.src_uid == plan.src_uid
    &&& j.dest_uid == plan.dest_uid
    &&& j.src_dir@ == plan.src_dir
    &&& j.dest_dir@ == plan.dest_dir
    &&& j.is_cut == plan.is_cut
    &&& named(j.items@) == plan.items
    &&& j.src_label@ == plan.src_label
    &&& j.dest_label@ == plan.dest_label
    &&& !j.cancelled
}

/// The sessions while a push is started: a row at the source, a row at the target, the order, and
/// a word at both ends.
pub open spec fn push_steps(
    steps: Seq<Seq<Session>>,
    plan: PasteView,
    si: int,
    di: int,
    key: Seq<char>,
    host_known: bool,
    lang: Lang,
) -> bool {
    let label = push_label(plan.items);
    let n = plan.items.len();
    &&& steps.len() == 5
    &&& steps[1] == steps[0].update(si, steps[1][si])
    &&& push_row_added(steps[0][si], steps[1][si], label, TransferDir::Upload, lang)
    &&& steps[2] == steps[1].update(di, steps[2][di])
    &&& push_row_added(steps[1][di], steps[2][di], label, TransferDir::Download, lang)
    &&& steps[3] == steps[2].update(si, steps[3][si])
    &&& push_ordered(
        steps[2][si],
        steps[3][si],
        push_spec(plan, steps[0][di], steps[0][si].next_xfer, key, host_known),
        push_text(plan.is_cut, lang, n),
    )
    &&& status_set(steps[3], steps[4], di, push_in_text(lang, n))
}

/// The program after a push was started.
pub open spec fn push_started(
    before: App,
    after: App,
    plan: PasteView,
    si: int,
    di: int,
    key: Seq<char>,
    host_known: bool,
) -> bool {
    exists|steps: Seq<Seq<Session>>|
        {
            &&& #[trigger] push_steps(steps, plan, si, di, key, host_known, before.lang)
            &&& steps[0] == before.sessions@
            &&& steps[4] == after.sessions@
            &&& after.xfer.direct_jobs@.len() == before.xfer.direct_jobs@.len() + 1
            &&& after.xfer.direct_jobs@.drop_last() == before.xfer.direct_jobs@
            &&& is_job(
                after.xfer.direct_jobs@.last(),
                plan,
                steps[0][si].next_xfer,
                steps[1][di].next_xfer,
            )
            &&& after == (App {
                sessions: after.sessions,
                xfer: Transfers { direct_jobs: after.xfer.direct_jobs, ..before.xfer },
                show_transfers: true,
                xfer_just_opened: true,
                ..before
            })
        }
}

/// A [`DirectFallback`] with its strings as characters.
pub struct FallbackView {
    pub plan: PasteView,
    pub reason: Seq<char>,
}

/// The questions that wait, with their strings as characters.
pub open spec fn fallbacks(v: Seq<DirectFallback>) -> Seq<FallbackView> {
    Seq::new(v.len(), |i: int| FallbackView { plan: v[i].plan@, reason: v[i].reason@ })
}

/// Why a target cannot be pushed to.
pub open spec fn no_key_text(lang: Lang) -> Seq<char> {
    tr_of(
        lang,
        "目标会话非「无口令密钥」认证，无法直传。"@,
        "Target session is not passphrase-less key auth; direct transfer unavailable."@,
    )
}

/// What a planned push does: a target without a plain key is asked about again, a host whose key
/// is not known here has to be confirmed, and else the push starts.
pub open spec fn direct_ok(
    before: App,
    after: App,
    plan: PasteView,
    host_known: bool,
    confirmed: bool,
) -> bool {
    match uid_pos(before.sessions@, plan.src_uid) {
        None => match uid_pos(before.sessions@, plan.dest_uid) {
            None => after == before,
            Some(di) => {
                &&& status_set(
                    before.sessions@,
                    after.sessions@,
                    di,
                    tr_of(
                        before.lang,
                        "源会话已关闭，无法直传"@,
                        "Source session closed; cannot direct-transfer"@,
                    ),
                )
                &&& after == (App { sessions: after.sessions, ..before })
            },
        },
        Some(si) => match uid_pos(before.sessions@, plan.dest_uid) {
            None => after == before,
            Some(di) => match plain_key(before.sessions@[di].cfg.auth@) {
                None => {
                    &&& fallbacks(after.xfer.pending_direct_fallback@) == fallbacks(
                        before.xfer.pending_direct_fallback@,
                    ).push(
                        FallbackView {
                            plan: PasteView { direct: false, ..plan },
                            reason: no_key_text(before.lang),
                        },
                    )
                    &&& after == (App {
                        xfer: Transfers {
                            pending_direct_fallback: after.xfer.pending_direct_fallback,
                            ..before.xfer
                        },
                        ..before
                    })
                },
                Some(key) => if !host_known && !confirmed {
                    &&& after.xfer.pending_direct_hostkey is Some
                    &&& after.xfer.pending_direct_hostkey->0@ == plan
                    &&& after == (App {
                        xfer: Transfers {
                            pending_direct_hostkey: after.xfer.pending_direct_hostkey,
                            ..before.xfer
                        },
                        ..before
                    })
                } else {
                    push_started(before, after, plan, si, di, key, host_known)
                },
            },
        },
    }
}

fn plain_key_of(auth: &AuthMethod) -> (r: Option<String>)
    ensures
        match r {
            Some(k) => plain_key(auth@) == Some(k@),
            None => plain_key(auth@) is None,
        },
{
    match auth {
        AuthMethod::KeyFile { path, passphrase } => {
            let plain: bool = match passphrase {
                Some(p) => p.as_str().unicode_len() == 0,
                None => true,
            };
            if plain {
                Some(path.clone())
            } else {
                None
            }
        },
        _ => None,
    }
}

fn push_label_of(items: &Vec<(String, bool)>) -> (r: String)
    ensures
        r@ == push_label(named(items@)),
{
    let n: usize = items.len();
    if n == 0 {
        let s = String::new();
        assert(s@ =~= Seq::<char>::empty());
        return s;
    }
    let base = remote_basename(items[0].0.as_str());
    let mut first: String = if base.as_str().unicode_len() == 0 {
        items[0].0.clone()
    } else {
        base
    };
    if n > 1 {
        first.append(" +");
        push_decimal(&mut first, (n - 1) as u64);
    }
    first
}

impl Session {
    /// Adds a row for a push; gives its number.
    fn add_push_row(&mut self, label: &str, dir: TransferDir, lang: Lang) -> (id: u64)
        requires
            old(self).next_xfer < u64::MAX,
        ensures
            id == old(self).next_xfer,
            push_row_added(*old(self), *final(self), label@, dir, lang),
    {
        let id: u64 = self.next_xfer;
        self.next_xfer = id + 1;
        let mut t = Transfer::new(id, label.to_owned(), dir, 0, None, None);
        t.tag = tr(lang, "直传", "Direct").to_owned();
        proof {
            reveal_strlit("");
            assert(t.note@ =~= ""@);
        }
        self.transfers.push(t);
        assert(self.transfers@.drop_last() =~= old(self).transfers@);
        id
    }

    /// Orders a push and says so.
    fn order_push(&mut self, spec: DirectSpec, status: String)
        ensures
            push_ordered(*old(self), *final(self), spec@, status@),
    {
        let _ = self.link.send(UiCommand::DirectTransfer(spec));
        self.status = status;
    }
}

fn push_words(is_cut: bool, lang: Lang, n: usize) -> (r: String)
    ensures
        r@ == push_text(is_cut, lang, n as nat),
{
    if is_cut {
        count_text(
            ("跨服务器移动 ", " 项（直传）…"),
            ("Cross-server move ", " (direct) …"),
            lang,
            n,
        )
    } else {
        count_text(
            ("跨服务器复制 ", " 项（直传）…"),
            ("Cross-server copy ", " (direct) …"),
            lang,
            n,
        )
    }
}

proof fn lemma_push_steps(
    s0: Seq<Session>,
    s1: Seq<Session>,
    s2: Seq<Session>,
    s3: Seq<Session>,
    s4: Seq<Session>,
    plan: PasteView,
    si: int,
    di: int,
    key: Seq<char>,
    host_known: bool,
    lang: Lang,
)
    requires
        0 <= si < s0.len(),
        0 <= di < s0.len(),
        s1 == s0.update(si, s1[si]),
        push_row_added(s0[si], s1[si], push_label(plan.items), TransferDir::Upload, lang),
        s2 == s1.update(di, s2[di]),
        push_row_added(s1[di], s2[di], push_label(plan.items), TransferDir::Download, lang),
        s3 == s2.update(si, s3[si]),
        push_ordered(
            s2[si],
            s3[si],
            push_spec(plan, s0[di], s0[si].next_xfer, key, host_known),
            push_text(plan.is_cut, lang, plan.items.len()),
        ),
        status_set(s3, s4, di, push_in_text(lang, plan.items.len())),
    ensures
        push_steps(seq![s0, s1, s2, s3, s4], plan, si, di, key, host_known, lang),
        same_uids(s0, s4),
{
    assert forall|i: int| 0 <= i < s0.len() implies (#[trigger] s4[i]).uid == s0[i].uid by {
        assert(s1[i].uid == s0[i].uid);
        assert(s2[i].uid == s1[i].uid);
        assert(s3[i].uid == s2[i].uid);
    }
}

/// The sessions after the rows of a push were added, by way of `mid`.
spec fn rows_via(
    before: Seq<Session>,
    mid: Seq<Session>,
    after: Seq<Session>,
    label: Seq<char>,
    si: int,
    di: int,
    lang: Lang,
) -> bool {
    &&& mid == before.update(si, mid[si])
    &&& push_row_added(before[si], mid[si], label, TransferDir::Upload, lang)
    &&& after == mid.update(di, after[di])
    &&& push_row_added(mid[di], after[di], label, TransferDir::Download, lang)
}

/// Adds the rows of a push; gives their numbers and the sessions in between.
fn push_rows(ss: &mut Vec<Session>, label: &str, si: usize, di: usize, lang: Lang) -> (r: (
    u64,
    u64,
    Ghost<Seq<Session>>,
))
    requires
        si < old(ss)@.len(),
        di < old(ss)@.len(),
        old(ss)@[si as int].next_xfer + 2 <= u64::MAX,
        old(ss)@[di as int].next_xfer + 2 <= u64::MAX,
    ensures
        rows_via(old(ss)@, r.2@, final(ss)@, label@, si as int, di as int, lang),
        final(ss)@.len() == old(ss)@.len(),
        r.0 == old(ss)@[si as int].next_xfer,
        r.1 == r.2@[di as int].next_xfer,
{
    let ghost s0 = ss@;
    let id: u64 = ss[si].add_push_row(label, TransferDir::Upload, lang);
    let ghost s1 = ss@;
    assert(s1 =~= s0.update(si as int, s1[si as int]));
    assert(s1[di as int].next_xfer < u64::MAX);
    let mir_id: u64 = ss[di].add_push_row(label, TransferDir::Download, lang);
    assert(ss@ =~= s1.update(di as int, ss@[di as int]));
    (id, mir_id, Ghost(s1))
}

/// Orders a push and says so at both ends; gives the sessions in between.
fn push_order(
    ss: &mut Vec<Session>,
    spec: DirectSpec,
    is_cut: bool,
    n: usize,
    si: usize,
    di: usize,
    lang: Lang,
) -> (mid: Ghost<Seq<Session>>)
    requires
        si < old(ss)@.len(),
        di < old(ss)@.len(),
    ensures
        mid@ == old(ss)@.update(si as int, mid@[si as int]),
        push_ordered(
            old(ss)@[si as int],
            mid@[si as int],
            spec@,
            push_text(is_cut, lang, n as nat),
        ),
        status_set(mid@, final(ss)@, di as int, push_in_text(lang, n as nat)),
{
    let ghost s2 = ss@;
    ss[si].order_push(spec, push_words(is_cut, lang, n));
    let ghost s3 = ss@;
    assert(s3 =~= s2.update(si as int, s3[si as int]));
    ss[di].status = count_text(
        ("正从源主机直传 ", " 项到此目录…"),
        ("Direct transfer of ", " item(s) into this folder…"),
        lang,
        n,
    );
    assert(ss@ =~= s3.update(di as int, ss@[di as int]));
    Ghost(s3)
}

/// Changes the sessions for a push; gives the numbers of the rows at the source and at the target,
/// and the sessions in between.
fn push_through(
    ss: &mut Vec<Session>,
    plan: &PendingPaste,
    si: usize,
    di: usize,
    key: String,
    host_known: bool,
    lang: Lang,
) -> (r: (u64, u64, Ghost<Seq<Seq<Session>>>))
    requires
        si < old(ss)@.len(),
        di < old(ss)@.len(),
        old(ss)@[si as int].next_xfer + 2 <= u64::MAX,
        old(ss)@[di as int].next_xfer + 2 <= u64::MAX,
    ensures
        push_steps(r.2@, plan@, si as int, di as int, key@, host_known, lang),
        r.2@[0] == old(ss)@ && r.2@[4] == final(ss)@,
        r.0 == r.2@[0][si as int].next_xfer,
        r.1 == r.2@[1][di as int].next_xfer,
        same_uids(old(ss)@, final(ss)@),
{
    let n: usize = plan.items.len();
    let label = push_label_of(&plan.items);
    let ghost s0 = ss@;
    let dest_user = ss[di].cfg.username.clone();
    let dest_host = ss[di].cfg.host.clone();
    let dest_port: u16 = ss[di].cfg.port;
    let (id, mir_id, Ghost(s1)) = push_rows(ss, label.as_str(), si, di, lang);
    let ghost s2 = ss@;
    let spec = DirectSpec {
        id,
        srcs: item_paths(&plan.items),
        dest_user,
        dest_host,
        dest_port,
        dest_dir: plan.dest_dir.clone(),
        key_path: key,
        label,
        dest_host_known: host_known,
    };
    assert(spec@ == push_spec(plan@, s0[di as int], id, key@, host_known));
    let Ghost(s3) = push_order(ss, spec, plan.is_cut, n, si, di, lang);
    let ghost s4 = ss@;
    let ghost steps = seq![s0, s1, s2, s3, s4];
    proof {
        lemma_push_steps(s0, s1, s2, s3, s4, plan@, si as int, di as int, key@, host_known, lang);
    }
    (id, mir_id, Ghost(steps))
}

impl App {
    /// Sets the status line of a session.
    pub(crate) fn say(&mut self, s: usize, text: String)
        requires
            s < old(self).sessions@.len(),
        ensures
            status_set(old(self).sessions@, final(self).sessions@, s as int, text@),
            *final(self) == (App { sessions: final(self).sessions, ..*old(self) }),
            same_uids(old(self).sessions@, final(self).sessions@),
    {
        self.sessions[s].status = text;
        assert(self.sessions@ =~= old(self).sessions@.update(s as int, self.sessions@[s as int]));
    }

    fn start_push(
        &mut self,
        plan: PendingPaste,
        si: usize,
        di: usize,
        key: String,
        host_known: bool,
    )
        requires
            si < old(self).sessions@.len(),
            di < old(self).sessions@.len(),
            room(*old(self), 2),
        ensures
            push_started(
                *old(self),
                *final(self),
                plan@,
                si as int,
                di as int,
                key@,
                host_known,
            ),
            same_uids(old(self).sessions@, final(self).sessions@),
    {
        let lang = self.lang;
        let ghost view = plan@;
        let ghost word = key@;
        let (id, mir_id, Ghost(steps)) = push_through(
            &mut self.sessions,
            &plan,
            si,
            di,
            key,
            host_known,
            lang,
        );
        self.xfer.direct_jobs.push(
            DirectJob {
                id,
                mir_id,
                src_uid: plan.src_uid,
                dest_uid: plan.dest_uid,
                src_dir: plan.src_dir,
                dest_dir: plan.dest_dir,
                is_cut: plan.is_cut,
                items: plan.items,
                src_label: plan.src_label,
                dest_label: plan.dest_label,
                cancelled: false,
            },
        );
        self.show_transfers = true;
        self.xfer_just_opened = true;
        proof {
            assert(self.xfer.direct_jobs@.drop_last() =~= old(self).xfer.direct_jobs@);
            assert(push_steps(steps, view, si as int, di as int, word, host_known, lang));
        }
    }

    /// Carries out a planned push.
    pub fn execute_direct(&mut self, plan: PendingPaste, host_known: bool, confirmed: bool)
        requires
            room(*old(self), 2),
        ensures
            direct_ok(*old(self), *final(self), plan@, host_known, confirmed),
            same_uids(old(self).sessions@, final(self).sessions@),
            old(self).wf() ==> final(self).wf(),
    {
        let ghost before = *self;
        self.carry_out_push(plan, host_known, confirmed);
        proof {
            if before.wf() {
                lemma_wf_kept(before, *self);
            }
        }
    }

    fn carry_out_push(&mut self, plan: PendingPaste, host_known: bool, confirmed: bool)
        requires
            room(*old(self), 2),
        ensures
            direct_ok(*old(self), *final(self), plan@, host_known, confirmed),
            same_uids(old(self).sessions@, final(self).sessions@),
            final(self).active == old(self).active,
            final(self).next_uid == old(self).next_uid,
    {
        let si: usize = match self.session_idx_by_uid(plan.src_uid) {
            Some(i) => i,
            None => {
                match self.session_idx_by_uid(plan.dest_uid) {
                    Some(di) => {
                        let text = tr(
                            self.lang,
                            "源会话已关闭，无法直传",
                            "Source session closed; cannot direct-transfer",
                        ).to_owned();
                        self.say(di, text);
                    },
                    None => {},
                }
                return;
            },
        };
        let di: usize = match self.session_idx_by_uid(plan.dest_uid) {
            Some(i) => i,
            None => {
                return;
            },
        };
        let key = match plain_key_of(&self.sessions[di].cfg.auth) {
            Some(k) => k,
            None => {
                let reason = tr(
                    self.lang,
                    "目标会话非「无口令密钥」认证，无法直传。",
                    "Target session is not passphrase-less key auth; direct transfer unavailable.",
                ).to_owned();
                let ghost view = plan@;
                let mut plan = plan;
                plan.direct = false;
                assert(plan@ == (PasteView { direct: false, ..view }));
                self.xfer.pending_direct_fallback.push(DirectFallback { plan, reason });
                assert(fallbacks(self.xfer.pending_direct_fallback@) =~= fallbacks(
                    old(self).xfer.pending_direct_fallback@,
                ).push(
                    FallbackView {
                        plan: PasteView { direct: false, ..view },
                        reason: no_key_text(old(self).lang),
                    },
                ));
                return;
            },
        };
        if !host_known && !confirmed {
            self.xfer.pending_direct_hostkey = Some(plan);
            return;
        }
        self.start_push(plan, si, di, key, host_known);
    }

    /// The user's answer to whether a host that is not known here may be trusted by the source.
    pub fn answer_direct_hostkey(&mut self, go: bool, host_known: bool)
        requires
            room(*old(self), 2),
        ensures
            match old(self).xfer.pending_direct_hostkey {
                Some(plan) => {
                    let closed = App {
                        xfer: Transfers { pending_direct_hostkey: None, ..old(self).xfer },
                        ..*old(self)
                    };
                    if go {
                        direct_ok(closed, *final(self), plan@, host_known, true)
                    } else {
                        *final(self) == closed
                    }
                },
                None => *final(self) == *old(self),
            },
            old(self).wf() ==> final(self).wf(),
    {
        match self.xfer.pending_direct_hostkey.take() {
            Some(plan) => {
                if go {
                    self.execute_direct(plan, host_known, true);
                }
            },
            None => {},
        }
    }
}

/// The sessions after the row at the target of a push ended.
pub open spec fn mirror_finished(
    ss: Seq<Session>,
    after: Seq<Session>,
    job: DirectJob,
    ok: bool,
    msg: Seq<char>,
) -> bool {
    match uid_pos(ss, job.dest_uid) {
        Some(s) => match transfer_pos(ss[s].transfers@, job.mir_id) {
            Some(t) => {
                let row = ss[s].transfers@[t];
                &&& after[s].transfers@[t].message@ == msg
                &&& row_changed(
                    ss,
                    after,
                    s,
                    t,
                    Transfer {
                        ok: Some(ok),
                        message: after[s].transfers@[t].message,
                        done: if ok {
                            row.total
                        } else {
                            row.done
                        },
                        ..row
                    },
                )
            },
            None => after == ss,
        },
        None => after == ss,
    }
}

/// The sessions after the row at the target shows the progress at the source.
pub open spec fn mirror_shown(ss: Seq<Session>, after: Seq<Session>, job: DirectJob) -> bool {
    match row_progress(ss, job.src_uid, job.id) {
        Some((done, total)) => match uid_pos(ss, job.dest_uid) {
            Some(s) => match running_pos(ss[s].transfers@, job.mir_id) {
                Some(t) => row_changed(
                    ss,
                    after,
                    s,
                    t,
                    Transfer { total, done, ..ss[s].transfers@[t] },
                ),
                None => after == ss,
            },
            None => after == ss,
        },
        None => after == ss,
    }
}

/// How a push ended, `None` while it runs; a closed source is a failure.
pub open spec fn push_status(ss: Seq<Session>, job: DirectJob) -> Option<bool> {
    match row_ok(ss, job.src_uid, job.id) {
        Some(ok) => Some(ok),
        None => if uid_pos(ss, job.src_uid) is None {
            Some(false)
        } else {
            None
        },
    }
}

/// The sessions after the directory at the target of a push was listed again.
pub open spec fn target_relisted(ss: Seq<Session>, after: Seq<Session>, job: DirectJob) -> bool {
    match uid_pos(ss, job.dest_uid) {
        Some(s) => {
            &&& after == ss.update(s, after[s])
            &&& after[s].link.sends(ss[s].link, CommandView::ListDir(job.dest_dir@))
            &&& after[s] == (Session { link: after[s].link, ..ss[s] })
        },
        None => after == ss,
    }
}

/// What one push does to the sessions in a frame: while it runs its progress is shown at the
/// target; a success deletes the source of a move and lists the target again.
pub open spec fn push_moves(
    ss: Seq<Session>,
    after: Seq<Session>,
    job: DirectJob,
    lang: Lang,
) -> bool {
    match push_status(ss, job) {
        None => mirror_shown(ss, after, job),
        Some(true) => exists|a: Seq<Session>, b: Seq<Session>|
            {
                &&& #[trigger] mirror_finished(
                    ss,
                    a,
                    job,
                    true,
                    tr_of(lang, "直传完成"@, "Direct transfer done"@),
                )
                &&& source_deleted(a, b, job.src_uid, job.is_cut, paths_of(named(job.items@)))
                &&& #[trigger] target_relisted(b, after, job)
            },
        Some(false) => mirror_finished(
            ss,
            after,
            job,
            false,
            if job.cancelled {
                tr_of(lang, "已取消"@, "Canceled"@)
            } else {
                tr_of(lang, "直传失败"@, "Direct failed"@)
            },
        ),
    }
}

/// The question that a failed push leaves: none for one that the user cancelled, and none where an
/// end of it is gone.
pub open spec fn push_fallback(ss: Seq<Session>, job: DirectJob, lang: Lang) -> Option<FallbackView> {
    if push_status(ss, job) == Some(false) && !job.cancelled && uid_pos(ss, job.src_uid) is Some
        && uid_pos(ss, job.dest_uid) is Some {
        Some(
            FallbackView {
                plan: PasteView {
                    items: named(job.items@),
                    is_cut: job.is_cut,
                    cross: true,
                    src_uid: job.src_uid,
                    dest_uid: job.dest_uid,
                    src_dir: job.src_dir@,
                    dest_dir: job.dest_dir@,
                    src_label: job.src_label@,
                    dest_label: job.dest_label@,
                    direct: false,
                },
                reason: tr_of(
                    lang,
                    "直传失败（源主机无法直推到目标主机）。"@,
                    "Direct transfer failed (source cannot push to target)."@,
                ),
            },
        )
    } else {
        None
    }
}

/// The pushes that go on, where push `k` met the sessions `states[k]`.
pub open spec fn jobs_left(jobs: Seq<DirectJob>, states: Seq<Seq<Session>>) -> Seq<DirectJob>
    decreases jobs.len(),
{
    if jobs.len() == 0 {
        Seq::empty()
    } else {
        let rest = jobs_left(jobs.drop_last(), states.drop_last());
        if push_status(states[jobs.len() - 1], jobs.last()) is None {
            rest.push(jobs.last())
        } else {
            rest
        }
    }
}

/// The questions that the failed pushes leave.
pub open spec fn new_fallbacks(
    jobs: Seq<DirectJob>,
    states: Seq<Seq<Session>>,
    lang: Lang,
) -> Seq<FallbackView>
    decreases jobs.len(),
{
    if jobs.len() == 0 {
        Seq::empty()
    } else {
        let rest = new_fallbacks(jobs.drop_last(), states.drop_last(), lang);
        match push_fallback(states[jobs.len() - 1], jobs.last(), lang) {
            Some(f) => rest.push(f),
            None => rest,
        }
    }
}

/// The sessions as one push after the other moves on.
pub open spec fn pushes_move(
    jobs: Seq<DirectJob>,
    states: Seq<Seq<Session>>,
    lang: Lang,
) -> bool {
    &&& states.len() == jobs.len() + 1
    &&& forall|k: int|
        0 <= k < jobs.len() ==> push_moves(states[k], states[k + 1], #[trigger] jobs[k], lang)
}

/// What one frame does to the pushes.
pub open spec fn pushes_advance(before: App, after: App) -> bool {
    let jobs = before.xfer.direct_jobs@;
    exists|states: Seq<Seq<Session>>|
        {
            &&& #[trigger] pushes_move(jobs, states, before.lang)
            &&& states[0] == before.sessions@
            &&& states[jobs.len() as int] == after.sessions@
            &&& after.xfer.direct_jobs@ == jobs_left(jobs, states)
            &&& fallbacks(after.xfer.pending_direct_fallback@) == fallbacks(
                before.xfer.pending_direct_fallback@,
            ) + new_fallbacks(jobs, states, before.lang)
            &&& after == (App {
                sessions: after.sessions,
                xfer: Transfers {
                    direct_jobs: after.xfer.direct_jobs,
                    pending_direct_fallback: after.xfer.pending_direct_fallback,
                    ..before.xfer
                },
                ..before
            })
        }
}

/// The transfer that is to be cancelled in place of `(uid, id)`: the row at the target of a push
/// stands for the transfer at its source.
pub open spec fn cancel_pos(jobs: Seq<DirectJob>, uid: u64, id: u64) -> Option<int>
    decreases jobs.len(),
{
    if jobs.len() == 0 {
        None
    } else {
        match cancel_pos(jobs.drop_last(), uid, id) {
            Some(i) => Some(i),
            None => {
                let j = jobs.last();
                if (j.src_uid == uid && j.id == id) || (j.dest_uid == uid && j.mir_id == id) {
                    Some(jobs.len() - 1)
                } else {
                    None
                }
            },
        }
    }
}

proof fn lemma_cancel_pos(jobs: Seq<DirectJob>, uid: u64, id: u64)
    ensures
        match cancel_pos(jobs, uid, id) {
            Some(i) => 0 <= i < jobs.len() && stands_for(jobs[i], uid, id) && forall|j: int|
                0 <= j < i ==> !stands_for(#[trigger] jobs[j], uid, id),
            None => forall|j: int| 0 <= j < jobs.len() ==> !stands_for(#[trigger] jobs[j], uid, id),
        },
    decreases jobs.len(),
{
    if jobs.len() > 0 {
        lemma_cancel_pos(jobs.drop_last(), uid, id);
        assert(forall|j: int| 0 <= j < jobs.len() - 1 ==> jobs.drop_last()[j] == jobs[j]);
    }
}

/// Whether a row of a session belongs to a push, at either end.
pub open spec fn stands_for(j: DirectJob, uid: u64, id: u64) -> bool {
    (j.src_uid == uid && j.id == id) || (j.dest_uid == uid && j.mir_id == id)
}

impl App {
    /// Ends the row at the target of a push.
    fn finish_mirror(&mut self, job: &DirectJob, ok: bool, msg: &str)
        ensures
            mirror_finished(old(self).sessions@, final(self).sessions@, *job, ok, msg@),
            *final(self) == (App { sessions: final(self).sessions, ..*old(self) }),
            same_uids(old(self).sessions@, final(self).sessions@),
    {
        match self.session_idx_by_uid(job.dest_uid) {
            Some(s) => match find_transfer(&self.sessions[s].transfers, job.mir_id) {
                Some(t) => {
                    self.sessions[s].transfers[t].ok = Some(ok);
                    self.sessions[s].transfers[t].message = msg.to_owned();
                    if ok {
                        let total: u64 = self.sessions[s].transfers[t].total;
                        self.sessions[s].transfers[t].done = total;
                    }
                    proof {
                        let a = old(self).sessions@;
                        let b = self.sessions@;
                        assert(b[s as int].transfers@ =~= a[s as int].transfers@.update(
                            t as int,
                            b[s as int].transfers@[t as int],
                        ));
                        assert(b =~= a.update(s as int, b[s as int]));
                    }
                },
                None => {},
            },
            None => {},
        }
    }

    fn show_mirror(&mut self, i: usize)
        requires
            i < old(self).xfer.direct_jobs@.len(),
        ensures
            mirror_shown(
                old(self).sessions@,
                final(self).sessions@,
                old(self).xfer.direct_jobs@[i as int],
            ),
            *final(self) == (App { sessions: final(self).sessions, ..*old(self) }),
            same_uids(old(self).sessions@, final(self).sessions@),
    {
        let (src_uid, id, dest_uid, mir_id): (u64, u64, u64, u64) = (
            self.xfer.direct_jobs[i].src_uid,
            self.xfer.direct_jobs[i].id,
            self.xfer.direct_jobs[i].dest_uid,
            self.xfer.direct_jobs[i].mir_id,
        );
        match self.transfer_done_total(src_uid, id) {
            Some((done, total)) => match self.session_idx_by_uid(dest_uid) {
                Some(s) => match find_running(&self.sessions[s].transfers, mir_id) {
                    Some(t) => {
                        self.sessions[s].transfers[t].total = total;
                        self.sessions[s].transfers[t].done = done;
                        proof {
                            let a = old(self).sessions@;
                            let b = self.sessions@;
                            assert(b[s as int].transfers@ =~= a[s as int].transfers@.update(
                                t as int,
                                b[s as int].transfers@[t as int],
                            ));
                            assert(b =~= a.update(s as int, b[s as int]));
                        }
                    },
                    None => {},
                },
                None => {},
            },
            None => {},
        }
    }

    fn relist_target(&mut self, job: &DirectJob)
        ensures
            target_relisted(old(self).sessions@, final(self).sessions@, *job),
            *final(self) == (App { sessions: final(self).sessions, ..*old(self) }),
            same_uids(old(self).sessions@, final(self).sessions@),
    {
        match self.session_idx_by_uid(job.dest_uid) {
            Some(s) => {
                let _ = self.sessions[s].link.send(UiCommand::ListDir(job.dest_dir.clone()));
                assert(self.sessions@ =~= old(self).sessions@.update(
                    s as int,
                    self.sessions@[s as int],
                ));
            },
            None => {},
        }
    }

    fn status_of_push(&self, i: usize) -> (r: Option<bool>)
        requires
            i < self.xfer.direct_jobs@.len(),
        ensures
            r == push_status(self.sessions@, self.xfer.direct_jobs@[i as int]),
    {
        let src_uid: u64 = self.xfer.direct_jobs[i].src_uid;
        match self.transfer_ok(src_uid, self.xfer.direct_jobs[i].id) {
            Some(ok) => Some(ok),
            None => if self.session_idx_by_uid(src_uid).is_none() {
                Some(false)
            } else {
                None
            },
        }
    }

    /// Follows up on a push that ended.
    fn end_push(&mut self, job: DirectJob, ok: bool)
        requires
            push_status(old(self).sessions@, job) == Some(ok),
        ensures
            push_moves(old(self).sessions@, final(self).sessions@, job, old(self).lang),
            fallbacks(final(self).xfer.pending_direct_fallback@) == (match push_fallback(
                old(self).sessions@,
                job,
                old(self).lang,
            ) {
                Some(f) => fallbacks(old(self).xfer.pending_direct_fallback@).push(f),
                None => fallbacks(old(self).xfer.pending_direct_fallback@),
            }),
            *final(self) == (App {
                sessions: final(self).sessions,
                xfer: Transfers {
                    pending_direct_fallback: final(self).xfer.pending_direct_fallback,
                    ..old(self).xfer
                },
                ..*old(self)
            }),
            same_uids(old(self).sessions@, final(self).sessions@),
    {
        let lang = self.lang;
        let ghost s0 = self.sessions@;
        if ok {
            self.finish_mirror(&job, true, tr(lang, "直传完成", "Direct transfer done"));
            let ghost s1 = self.sessions@;
            let paths = item_paths(&job.items);
            self.delete_source(job.src_uid, job.is_cut, paths);
            let ghost s2 = self.sessions@;
            self.relist_target(&job);
            proof {
                assert(target_relisted(s2, self.sessions@, job));
                assert forall|i: int| 0 <= i < s0.len() implies (
                #[trigger] self.sessions@[i]).uid == s0[i].uid by {
                    assert(s1[i].uid == s0[i].uid);
                    assert(s2[i].uid == s1[i].uid);
                }
            }
        } else {
            let msg = if job.cancelled {
                tr(lang, "已取消", "Canceled")
            } else {
                tr(lang, "直传失败", "Direct failed")
            };
            self.finish_mirror(&job, false, msg);
            proof {
                lemma_uid_pos_kept(s0, self.sessions@, job.src_uid);
                lemma_uid_pos_kept(s0, self.sessions@, job.dest_uid);
            }
            if !job.cancelled && self.session_idx_by_uid(job.src_uid).is_some()
                && self.session_idx_by_uid(job.dest_uid).is_some() {
                let plan = PendingPaste {
                    items: job.items,
                    is_cut: job.is_cut,
                    cross: true,
                    src_uid: job.src_uid,
                    dest_uid: job.dest_uid,
                    src_dir: job.src_dir,
                    dest_dir: job.dest_dir,
                    src_label: job.src_label,
                    dest_label: job.dest_label,
                    direct: false,
                };
                let reason = tr(
                    lang,
                    "直传失败（源主机无法直推到目标主机）。",
                    "Direct transfer failed (source cannot push to target).",
                ).to_owned();
                self.xfer.pending_direct_fallback.push(DirectFallback { plan, reason });
                assert(fallbacks(self.xfer.pending_direct_fallback@) =~= fallbacks(
                    old(self).xfer.pending_direct_fallback@,
                ).push(push_fallback(s0, job, lang)->0));
            }
        }
    }

    /// Moves all pushes on.
    pub fn process_direct_jobs(&mut self)
        ensures
            pushes_advance(*old(self), *final(self)),
            old(self).wf() ==> final(self).wf(),
    {
        let ghost jobs = self.xfer.direct_jobs@;
        let ghost before = *self;
        let ghost mut states: Seq<Seq<Session>> = seq![self.sessions@];
        let ghost mut k: int = 0;
        let mut i: usize = 0;
        proof {
            assert(jobs_left(jobs.take(0), states) + jobs.skip(0) =~= jobs);
            assert(fallbacks(self.xfer.pending_direct_fallback@) + new_fallbacks(
                jobs.take(0),
                states,
                self.lang,
            ) =~= fallbacks(self.xfer.pending_direct_fallback@));
        }
        while i < self.xfer.direct_jobs.len()
            invariant
                before == *old(self),
                jobs == before.xfer.direct_jobs@,
                0 <= k <= jobs.len(),
                states.len() == k + 1,
                states[0] == before.sessions@,
                states[k] == self.sessions@,
                pushes_move(jobs.take(k), states, before.lang),
                i == jobs_left(jobs.take(k), states).len(),
                self.xfer.direct_jobs@ == jobs_left(jobs.take(k), states) + jobs.skip(k),
                fallbacks(self.xfer.pending_direct_fallback@) == fallbacks(
                    before.xfer.pending_direct_fallback@,
                ) + new_fallbacks(jobs.take(k), states, before.lang),
                same_uids(before.sessions@, self.sessions@),
                *self == (App {
                    sessions: self.sessions,
                    xfer: Transfers {
                        direct_jobs: self.xfer.direct_jobs,
                        pending_direct_fallback: self.xfer.pending_direct_fallback,
                        ..before.xfer
                    },
                    ..before
                }),
            decreases jobs.len() - k,
        {
            let ghost left = jobs_left(jobs.take(k), states);
            let ghost ss = self.sessions@;
            let ghost held = self.xfer.direct_jobs@;
            let ghost asked = fallbacks(self.xfer.pending_direct_fallback@);
            let ghost job = jobs[k];
            assert(held[i as int] == job);
            match self.status_of_push(i) {
                None => {
                    self.show_mirror(i);
                    i = i + 1;
                },
                Some(ok) => {
                    let ended = self.xfer.direct_jobs.remove(i);
                    self.end_push(ended, ok);
                },
            }
            proof {
                let old_states = states;
                let more = jobs.take(k + 1);
                states = states.push(self.sessions@);
                assert(states.drop_last() =~= old_states);
                assert(more.drop_last() =~= jobs.take(k));
                assert(more.last() == job);
                assert(states[more.len() - 1] == ss);
                lemma_pushes_one_more(jobs, old_states, states, k, before.lang);
                let now_left = jobs_left(more, states);
                assert(self.xfer.direct_jobs@ =~= now_left + jobs.skip(k + 1));
                assert(fallbacks(self.xfer.pending_direct_fallback@) =~= fallbacks(
                    before.xfer.pending_direct_fallback@,
                ) + new_fallbacks(more, states, before.lang));
                k = k + 1;
            }
        }
        proof {
            assert(self.xfer.direct_jobs@.len() == jobs_left(jobs.take(k), states).len() + (
            jobs.len() - k));
            assert(k == jobs.len());
            assert(jobs.take(k) =~= jobs);
            assert(jobs_left(jobs, states) + jobs.skip(k) =~= jobs_left(jobs, states));
            assert(pushes_move(jobs, states, before.lang));
            if before.wf() {
                lemma_wf_kept(before, *self);
            }
        }
    }

    /// Finds what to cancel in place of a row: for a row of a push, at either end, the transfer at
    /// its source, and the push is marked cancelled.
    pub fn cancel_target(&mut self, uid: u64, id: u64) -> (r: (u64, u64))
        ensures
            match cancel_pos(old(self).xfer.direct_jobs@, uid, id) {
                Some(i) => {
                    let job = old(self).xfer.direct_jobs@[i];
                    &&& r == (job.src_uid, job.id)
                    &&& final(self).xfer.direct_jobs@ == old(self).xfer.direct_jobs@.update(
                        i,
                        DirectJob { cancelled: true, ..job },
                    )
                },
                None => r == (uid, id) && final(self).xfer.direct_jobs == old(self).xfer.direct_jobs,
            },
            *final(self) == (App {
                xfer: Transfers { direct_jobs: final(self).xfer.direct_jobs, ..old(self).xfer },
                ..*old(self)
            }),
    {
        let ghost jobs = self.xfer.direct_jobs@;
        proof {
            lemma_cancel_pos(jobs, uid, id);
        }
        let mut i: usize = 0;
        while i < self.xfer.direct_jobs.len()
            invariant
                *self == *old(self),
                jobs == self.xfer.direct_jobs@,
                i <= jobs.len(),
                forall|j: int| 0 <= j < i ==> !stands_for(#[trigger] jobs[j], uid, id),
                match cancel_pos(jobs, uid, id) {
                    Some(i) => 0 <= i < jobs.len() && stands_for(jobs[i], uid, id) && forall|j: int|
                        0 <= j < i ==> !stands_for(#[trigger] jobs[j], uid, id),
                    None => forall|j: int|
                        0 <= j < jobs.len() ==> !stands_for(#[trigger] jobs[j], uid, id),
                },
            decreases jobs.len() - i,
        {
            let (src_uid, job_id, dest_uid, mir_id): (u64, u64, u64, u64) = (
                self.xfer.direct_jobs[i].src_uid,
                self.xfer.direct_jobs[i].id,
                self.xfer.direct_jobs[i].dest_uid,
                self.xfer.direct_jobs[i].mir_id,
            );
            if (src_uid == uid && job_id == id) || (dest_uid == uid && mir_id == id) {
                assert(stands_for(jobs[i as int], uid, id));
                self.xfer.direct_jobs[i].cancelled = true;
                assert(self.xfer.direct_jobs@ =~= jobs.update(
                    i as int,
                    DirectJob { cancelled: true, ..jobs[i as int] },
                ));
                return (src_uid, job_id);
            }
            i = i + 1;
        }
        (uid, id)
    }
}

proof fn lemma_uid_pos_kept(a: Seq<Session>, b: Seq<Session>, uid: u64)
    requires
        same_uids(a, b),
    ensures
        uid_pos(a, uid) == uid_pos(b, uid),
{
    assert forall|i: int| 0 <= i < a.len() implies (#[trigger] a[i]).uid == b[i].uid by {
        assert(b[i].uid == a[i].uid);
    }
    lemma_uid_pos_same(a, b, uid);
}

proof fn lemma_pushes_one_more(
    jobs: Seq<DirectJob>,
    old_states: Seq<Seq<Session>>,
    states: Seq<Seq<Session>>,
    k: int,
    lang: Lang,
)
    requires
        0 <= k < jobs.len(),
        states.len() == k + 2,
        states.drop_last() == old_states,
        pushes_move(jobs.take(k), old_states, lang),
        push_moves(states[k], states[k + 1], jobs[k], lang),
    ensures
        pushes_move(jobs.take(k + 1), states, lang),
{
    let more = jobs.take(k + 1);
    assert forall|j: int| 0 <= j < more.len() implies push_moves(
        states[j],
        states[j + 1],
        #[trigger] more[j],
        lang,
    ) by {
        if j < k {
            assert(jobs.take(k)[j] == more[j]);
            assert(states[j] == old_states[j] && states[j + 1] == old_states[j + 1]);
        }
    }
}

/// A source is told to delete files only for a move whose push succeeded.
pub proof fn source_outlives_a_failed_push(
    ss: Seq<Session>,
    after: Seq<Session>,
    job: DirectJob,
    lang: Lang,
)
    requires
        push_moves(ss, after, job, lang),
        !job.is_cut || push_status(ss, job) != Some(true),
    ensures
        after.len() == ss.len(),
        forall|s: int|
            0 <= s < ss.len() ==> (#[trigger] after[s]).link.log() == ss[s].link.log()
                || after[s].link.log() == ss[s].link.log().push(CommandView::ListDir(job.dest_dir@)),
{
    lemma_uid_pos(ss, job.dest_uid);
    lemma_uid_pos(ss, job.src_uid);
    if push_status(ss, job) == Some(true) {
        let (a, b) = choose|a: Seq<Session>, b: Seq<Session>|
            {
                &&& #[trigger] mirror_finished(
                    ss,
                    a,
                    job,
                    true,
                    tr_of(lang, "直传完成"@, "Direct transfer done"@),
                )
                &&& source_deleted(a, b, job.src_uid, job.is_cut, paths_of(named(job.items@)))
                &&& #[trigger] target_relisted(b, after, job)
            };
        lemma_uid_pos(a, job.src_uid);
        lemma_uid_pos(b, job.dest_uid);
        assert(b == a);
        assert forall|s: int| 0 <= s < ss.len() implies (#[trigger] after[s]).link.log()
            == ss[s].link.log() || after[s].link.log() == ss[s].link.log().push(
            CommandView::ListDir(job.dest_dir@),
        ) by {
            assert(a[s].link == ss[s].link);
        }
    }
}

/// A push that the user cancelled never asks to be carried out through this machine.
pub proof fn cancelled_push_asks_nothing(ss: Seq<Session>, job: DirectJob, lang: Lang)
    requires
        job.cancelled,
    ensures
        push_fallback(ss, job, lang) is None,
{
}

} // verus!
