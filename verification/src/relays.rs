//! Copies between two servers through this machine: a download from one, then an upload to the
//! other.
use vstd::prelude::*;
use vstd::string::*;

use crate::app::{lemma_uid_pos, lemma_wf_kept, same_uids, uid_pos, App};
use crate::clipboard::{Relay, RelayPhase, Transfers};
use crate::proto::{tr, tr_of, CommandView, ConflictPolicy, Lang, UiCommand};
use crate::session::Session;
use crate::text::{decimal, push_decimal, views};
use crate::transfers::{find_queued, find_transfer, queued_pos, transfer_pos, Transfer};

verus! {

/// How a transfer of a session ended, `None` while it runs or where it is not known.
pub open spec fn row_ok(ss: Seq<Session>, uid: u64, id: u64) -> Option<bool> {
    match uid_pos(ss, uid) {
        Some(s) => match transfer_pos(ss[s].transfers@, id) {
            Some(t) => ss[s].transfers@[t].ok,
            None => None,
        },
        None => None,
    }
}

/// How far a transfer of a session is: bytes done, bytes in all.
pub open spec fn row_progress(ss: Seq<Session>, uid: u64, id: u64) -> Option<(u64, u64)> {
    match uid_pos(ss, uid) {
        Some(s) => match transfer_pos(ss[s].transfers@, id) {
            Some(t) => Some((ss[s].transfers@[t].done, ss[s].transfers@[t].total)),
            None => None,
        },
        None => None,
    }
}

/// The sessions with one transfer of one of them changed.
pub open spec fn row_changed(
    ss: Seq<Session>,
    after: Seq<Session>,
    s: int,
    t: int,
    row: Transfer,
) -> bool {
    &&& after == ss.update(s, after[s])
    &&& after[s].transfers@ == ss[s].transfers@.update(t, row)
    &&& after[s] == (Session { transfers: after[s].transfers, ..ss[s] })
}

/// The sessions after the upload that waited in one of them was given up.
pub open spec fn placeholder_failed(
    ss: Seq<Session>,
    after: Seq<Session>,
    uid: u64,
    id: u64,
    msg: Seq<char>,
) -> bool {
    match uid_pos(ss, uid) {
        Some(s) => match transfer_pos(ss[s].transfers@, id) {
            Some(t) => {
                let row = after[s].transfers@[t];
                &&& row.note@.len() == 0
                &&& row.message@ == msg
                &&& row_changed(
                    ss,
                    after,
                    s,
                    t,
                    Transfer {
                        ok: Some(false),
                        queued: false,
                        note: row.note,
                        message: row.message,
                        ..ss[s].transfers@[t]
                    },
                )
            },
            None => after == ss,
        },
        None => after == ss,
    }
}

/// What a copy does next.
#[derive(Clone, Copy, PartialEq, Eq, Structural)]
pub enum RelayStep {
    /// Its transfer runs.
    Wait,
    /// The download succeeded.
    ToUpload,
    /// The upload succeeded.
    Done,
    /// A transfer failed, or its session was closed.
    Failed,
}

/// What a copy does next.
pub open spec fn step_of(ss: Seq<Session>, r: Relay) -> RelayStep {
    match r.phase {
        RelayPhase::Down(id) => match row_ok(ss, r.src_uid, id) {
            Some(true) => RelayStep::ToUpload,
            Some(false) => RelayStep::Failed,
            None => if uid_pos(ss, r.src_uid) is None {
                RelayStep::Failed
            } else {
                RelayStep::Wait
            },
        },
        RelayPhase::Up(id) => match row_ok(ss, r.dest_uid, id) {
            Some(true) => RelayStep::Done,
            Some(false) => RelayStep::Failed,
            None => if uid_pos(ss, r.dest_uid) is None {
                RelayStep::Failed
            } else {
                RelayStep::Wait
            },
        },
    }
}

/// What the waiting upload shows of the download.
pub open spec fn wait_note(lang: Lang, total: u64, percent: u32) -> Seq<char> {
    if total > 0 {
        tr_of(lang, "等待源端下载 "@, "Waiting for source "@) + decimal(percent as nat) + "%…"@
    } else {
        tr_of(lang, "等待源端下载…"@, "Waiting for source download…"@)
    }
}

/// The sessions after the waiting upload shows how far the download is.
pub open spec fn wait_shown(
    ss: Seq<Session>,
    after: Seq<Session>,
    r: Relay,
    percent: u32,
    lang: Lang,
) -> bool {
    let progress = match r.phase {
        RelayPhase::Down(id) => row_progress(ss, r.src_uid, id),
        RelayPhase::Up(_) => None,
    };
    match progress {
        Some((_, total)) => match uid_pos(ss, r.dest_uid) {
            Some(s) => match queued_pos(ss[s].transfers@, r.up_id) {
                Some(t) => {
                    let row = after[s].transfers@[t];
                    &&& row.note@ == wait_note(lang, total, percent)
                    &&& row_changed(
                        ss,
                        after,
                        s,
                        t,
                        Transfer { note: row.note, ..ss[s].transfers@[t] },
                    )
                },
                None => after == ss,
            },
            None => after == ss,
        },
        None => after == ss,
    }
}

/// The sessions after the upload was started in session `s`, in place of the one that waited.
pub open spec fn upload_started(ss: Seq<Session>, after: Seq<Session>, s: int, r: Relay) -> bool {
    &&& after == ss.update(s, after[s])
    &&& after[s].link.sends(
        ss[s].link,
        CommandView::Upload {
            id: r.up_id,
            local: r.tmp@,
            remote_dir: r.dest_dir@,
            remote_name: None,
            policy: ConflictPolicy::Overwrite,
        },
    )
    &&& match transfer_pos(ss[s].transfers@, r.up_id) {
        Some(t) => {
            let row = after[s].transfers@[t];
            &&& row.note@.len() == 0
            &&& after[s].transfers@ == ss[s].transfers@.update(
                t,
                Transfer { queued: false, note: row.note, ..ss[s].transfers@[t] },
            )
            &&& after[s] == (Session {
                link: after[s].link,
                transfers: after[s].transfers,
                ..ss[s]
            })
        },
        None => after[s] == (Session { link: after[s].link, ..ss[s] }),
    }
}

/// The sessions after the source of a move was told to delete what was moved; a copy deletes
/// nothing.
pub open spec fn source_deleted(
    ss: Seq<Session>,
    after: Seq<Session>,
    uid: u64,
    is_cut: bool,
    paths: Seq<Seq<char>>,
) -> bool {
    match uid_pos(ss, uid) {
        Some(s) => if is_cut {
            &&& after == ss.update(s, after[s])
            &&& after[s].link.sends(ss[s].link, CommandView::DeleteMany { paths })
            &&& after[s] == (Session { link: after[s].link, ..ss[s] })
        } else {
            after == ss
        },
        None => after == ss,
    }
}

/// What one copy does to the sessions in a frame.
pub open spec fn relay_moves(
    ss: Seq<Session>,
    after: Seq<Session>,
    r: Relay,
    percent: u32,
    lang: Lang,
) -> bool {
    match step_of(ss, r) {
        RelayStep::Wait => wait_shown(ss, after, r, percent, lang),
        RelayStep::ToUpload => match uid_pos(ss, r.dest_uid) {
            Some(s) => upload_started(ss, after, s, r),
            None => after == ss,
        },
        RelayStep::Done => source_deleted(ss, after, r.src_uid, r.is_cut, seq![r.src_path@]),
        RelayStep::Failed => match r.phase {
            RelayPhase::Down(_) => placeholder_failed(
                ss,
                after,
                r.dest_uid,
                r.up_id,
                tr_of(lang, "源端下载失败"@, "Source download failed"@),
            ),
            RelayPhase::Up(_) => after == ss,
        },
    }
}

/// What is left of a copy after a frame: `None` once it ended.
pub open spec fn relay_after(ss: Seq<Session>, r: Relay) -> Option<Relay> {
    match step_of(ss, r) {
        RelayStep::Wait => Some(r),
        RelayStep::ToUpload => if uid_pos(ss, r.dest_uid) is Some {
            Some(Relay { phase: RelayPhase::Up(r.up_id), ..r })
        } else {
            None
        },
        RelayStep::Done => None,
        RelayStep::Failed => None,
    }
}

/// The copies that are left, where copy `k` met the sessions `states[k]`.
pub open spec fn relays_left(rs: Seq<Relay>, states: Seq<Seq<Session>>) -> Seq<Relay>
    decreases rs.len(),
{
    if rs.len() == 0 {
        Seq::empty()
    } else {
        let rest = relays_left(rs.drop_last(), states.drop_last());
        match relay_after(states[rs.len() - 1], rs.last()) {
            Some(r) => rest.push(r),
            None => rest,
        }
    }
}

/// The temporary files of the copies that ended, each with whether it is a directory.
pub open spec fn temps_done(rs: Seq<Relay>, states: Seq<Seq<Session>>) -> Seq<(Seq<char>, bool)>
    decreases rs.len(),
{
    if rs.len() == 0 {
        Seq::empty()
    } else {
        let rest = temps_done(rs.drop_last(), states.drop_last());
        match relay_after(states[rs.len() - 1], rs.last()) {
            Some(_) => rest,
            None => rest.push((rs.last().tmp@, rs.last().is_dir)),
        }
    }
}

/// The sessions as one copy after the other moves on.
pub open spec fn relays_move(
    rs: Seq<Relay>,
    states: Seq<Seq<Session>>,
    percents: Seq<u32>,
    lang: Lang,
) -> bool {
    &&& states.len() == rs.len() + 1
    &&& forall|k: int|
        0 <= k < rs.len() ==> relay_moves(
            states[k],
            states[k + 1],
            #[trigger] rs[k],
            percents[k],
            lang,
        )
}

/// The names of some files, with the flags beside them.
pub open spec fn named(v: Seq<(String, bool)>) -> Seq<(Seq<char>, bool)> {
    Seq::new(v.len(), |i: int| (v[i].0@, v[i].1))
}

/// What one frame does to the copies.
pub open spec fn relays_advance(
    before: App,
    after: App,
    percents: Seq<u32>,
    temps: Seq<(Seq<char>, bool)>,
) -> bool {
    let rs = before.xfer.relays@;
    exists|states: Seq<Seq<Session>>|
        {
            &&& #[trigger] relays_move(rs, states, percents, before.lang)
            &&& states[0] == before.sessions@
            &&& states[rs.len() as int] == after.sessions@
            &&& after.xfer.relays@ == relays_left(rs, states)
            &&& temps == temps_done(rs, states)
            &&& after == (App {
                sessions: after.sessions,
                xfer: Transfers { relays: after.xfer.relays, ..before.xfer },
                ..before
            })
        }
}

impl App {
    /// How a transfer of a session ended, `None` while it runs or where it is not known.
    pub fn transfer_ok(&self, uid: u64, id: u64) -> (r: Option<bool>)
        ensures
            r == row_ok(self.sessions@, uid, id),
    {
        match self.session_idx_by_uid(uid) {
            Some(s) => match find_transfer(&self.sessions[s].transfers, id) {
                Some(t) => self.sessions[s].transfers[t].ok,
                None => None,
            },
            None => None,
        }
    }

    /// How far a transfer of a session is: bytes done, bytes in all.
    pub fn transfer_done_total(&self, uid: u64, id: u64) -> (r: Option<(u64, u64)>)
        ensures
            r == row_progress(self.sessions@, uid, id),
    {
        match self.session_idx_by_uid(uid) {
            Some(s) => match find_transfer(&self.sessions[s].transfers, id) {
                Some(t) => Some(
                    (self.sessions[s].transfers[t].done, self.sessions[s].transfers[t].total),
                ),
                None => None,
            },
            None => None,
        }
    }

    /// Gives up an upload that waited for a download.
    pub fn fail_placeholder(&mut self, dest_uid: u64, up_id: u64, msg: &str)
        ensures
            placeholder_failed(old(self).sessions@, final(self).sessions@, dest_uid, up_id, msg@),
            *final(self) == (App { sessions: final(self).sessions, ..*old(self) }),
            same_uids(old(self).sessions@, final(self).sessions@),
    {
        match self.session_idx_by_uid(dest_uid) {
            Some(s) => match find_transfer(&self.sessions[s].transfers, up_id) {
                Some(t) => {
                    self.sessions[s].transfers[t].ok = Some(false);
                    self.sessions[s].transfers[t].queued = false;
                    self.sessions[s].transfers[t].note = String::new();
                    self.sessions[s].transfers[t].message = msg.to_owned();
                    proof {
                        let a = old(self).sessions@;
                        let b = self.sessions@;
                        assert(b[s as int].transfers@ =~= a[s as int].transfers@.update(
                            t as int,
                            b[s as int].transfers@[t as int],
                        ));
                        assert(b =~= a.update(s as int, b[s as int]));
                    }
                },
                None => {},
            },
            None => {},
        }
    }

    fn relay_step(&self, i: usize) -> (r: RelayStep)
        requires
            i < self.xfer.relays@.len(),
        ensures
            r == step_of(self.sessions@, self.xfer.relays@[i as int]),
    {
        let r = &self.xfer.relays[i];
        match r.phase {
            RelayPhase::Down(id) => match self.transfer_ok(r.src_uid, id) {
                Some(true) => RelayStep::ToUpload,
                Some(false) => RelayStep::Failed,
                None => if self.session_idx_by_uid(r.src_uid).is_none() {
                    RelayStep::Failed
                } else {
                    RelayStep::Wait
                },
            },
            RelayPhase::Up(id) => match self.transfer_ok(r.dest_uid, id) {
                Some(true) => RelayStep::Done,
                Some(false) => RelayStep::Failed,
                None => if self.session_idx_by_uid(r.dest_uid).is_none() {
                    RelayStep::Failed
                } else {
                    RelayStep::Wait
                },
            },
        }
    }

    fn show_wait(&mut self, i: usize, percent: u32)
        requires
            i < old(self).xfer.relays@.len(),
        ensures
            wait_shown(
                old(self).sessions@,
                final(self).sessions@,
                old(self).xfer.relays@[i as int],
                percent,
                old(self).lang,
            ),
            *final(self) == (App { sessions: final(self).sessions, ..*old(self) }),
            same_uids(old(self).sessions@, final(self).sessions@),
    {
        let (src_uid, dest_uid, up_id): (u64, u64, u64) = (
            self.xfer.relays[i].src_uid,
            self.xfer.relays[i].dest_uid,
            self.xfer.relays[i].up_id,
        );
        let progress: Option<(u64, u64)> = match self.xfer.relays[i].phase {
            RelayPhase::Down(id) => self.transfer_done_total(src_uid, id),
            RelayPhase::Up(_) => None,
        };
        match progress {
            Some((_, total)) => match self.session_idx_by_uid(dest_uid) {
                Some(s) => match find_queued(&self.sessions[s].transfers, up_id) {
                    Some(t) => {
                        let note: String = if total > 0 {
                            let mut n = tr(
                                self.lang,
                                "等待源端下载 ",
                                "Waiting for source ",
                            ).to_owned();
                            push_decimal(&mut n, percent as u64);
                            n.append("%…");
                            n
                        } else {
                            tr(
                                self.lang,
                                "等待源端下载…",
                                "Waiting for source download…",
                            ).to_owned()
                        };
                        self.sessions[s].transfers[t].note = note;
                        proof {
                            let a = old(self).sessions@;
                            let b = self.sessions@;
                            assert(b[s as int].transfers@ =~= a[s as int].transfers@.update(
                                t as int,
                                b[s as int].transfers@[t as int],
                            ));
                            assert(b =~= a.update(s as int, b[s as int]));
                        }
                    },
                    None => {},
                },
                None => {},
            },
            None => {},
        }
    }

    fn start_upload(&mut self, s: usize, i: usize)
        requires
            s < old(self).sessions@.len(),
            i < old(self).xfer.relays@.len(),
        ensures
            upload_started(
                old(self).sessions@,
                final(self).sessions@,
                s as int,
                old(self).xfer.relays@[i as int],
            ),
            *final(self) == (App { sessions: final(self).sessions, ..*old(self) }),
            same_uids(old(self).sessions@, final(self).sessions@),
    {
        let up_id: u64 = self.xfer.relays[i].up_id;
        let cmd = UiCommand::Upload {
            id: up_id,
            local: self.xfer.relays[i].tmp.clone(),
            remote_dir: self.xfer.relays[i].dest_dir.clone(),
            remote_name: None,
            policy: ConflictPolicy::Overwrite,
        };
        let _ = self.sessions[s].link.send(cmd);
        match find_transfer(&self.sessions[s].transfers, up_id) {
            Some(t) => {
                self.sessions[s].transfers[t].queued = false;
                self.sessions[s].transfers[t].note = String::new();
                assert(self.sessions@[s as int].transfers@ =~= old(
                    self).sessions@[s as int].transfers@.update(
                    t as int,
                    self.sessions@[s as int].transfers@[t as int],
                ));
            },
            None => {},
        }
        assert(self.sessions@ =~= old(self).sessions@.update(s as int, self.sessions@[s as int]));
    }

    /// Tells the source of a move to delete what was moved.
    pub(crate) fn delete_source(&mut self, uid: u64, is_cut: bool, paths: Vec<String>)
        ensures
            source_deleted(
                old(self).sessions@,
                final(self).sessions@,
                uid,
                is_cut,
                views(paths@),
            ),
            *final(self) == (App { sessions: final(self).sessions, ..*old(self) }),
            same_uids(old(self).sessions@, final(self).sessions@),
    {
        if is_cut {
            match self.session_idx_by_uid(uid) {
                Some(s) => {
                    let _ = self.sessions[s].link.send(UiCommand::DeleteMany { paths });
                    assert(self.sessions@ =~= old(self).sessions@.update(
                        s as int,
                        self.sessions@[s as int],
                    ));
                },
                None => {},
            }
        } else {
            proof {
                lemma_uid_pos(self.sessions@, uid);
            }
        }
    }

    /// Moves one copy on; says whether it goes on.
    fn move_relay(&mut self, i: usize, percent: u32) -> (r: bool)
        requires
            i < old(self).xfer.relays@.len(),
        ensures
            relay_moves(
                old(self).sessions@,
                final(self).sessions@,
                old(self).xfer.relays@[i as int],
                percent,
                old(self).lang,
            ),
            match relay_after(old(self).sessions@, old(self).xfer.relays@[i as int]) {
                Some(left) => r && final(self).xfer.relays@ == old(self).xfer.relays@.update(
                    i as int,
                    left,
                ),
                None => !r && final(self).xfer.relays@ == old(self).xfer.relays@,
            },
            *final(self) == (App {
                sessions: final(self).sessions,
                xfer: Transfers { relays: final(self).xfer.relays, ..old(self).xfer },
                ..*old(self)
            }),
            same_uids(old(self).sessions@, final(self).sessions@),
    {
        match self.relay_step(i) {
            RelayStep::Wait => {
                self.show_wait(i, percent);
                assert(self.xfer.relays@ =~= old(self).xfer.relays@.update(
                    i as int,
                    old(self).xfer.relays@[i as int],
                ));
                true
            },
            RelayStep::ToUpload => {
                let dest_uid: u64 = self.xfer.relays[i].dest_uid;
                match self.session_idx_by_uid(dest_uid) {
                    Some(s) => {
                        self.start_upload(s, i);
                        let up_id: u64 = self.xfer.relays[i].up_id;
                        self.xfer.relays[i].phase = RelayPhase::Up(up_id);
                        assert(self.xfer.relays@ =~= old(self).xfer.relays@.update(
                            i as int,
                            self.xfer.relays@[i as int],
                        ));
                        true
                    },
                    None => false,
                }
            },
            RelayStep::Done => {
                let mut paths: Vec<String> = Vec::new();
                paths.push(self.xfer.relays[i].src_path.clone());
                assert(views(paths@) =~= seq![old(self).xfer.relays@[i as int].src_path@]);
                let uid: u64 = self.xfer.relays[i].src_uid;
                let is_cut: bool = self.xfer.relays[i].is_cut;
                self.delete_source(uid, is_cut, paths);
                false
            },
            RelayStep::Failed => {
                match self.xfer.relays[i].phase {
                    RelayPhase::Down(_) => {
                        let (dest_uid, up_id): (u64, u64) = (
                            self.xfer.relays[i].dest_uid,
                            self.xfer.relays[i].up_id,
                        );
                        let msg = tr(self.lang, "源端下载失败", "Source download failed");
                        self.fail_placeholder(dest_uid, up_id, msg);
                    },
                    RelayPhase::Up(_) => {},
                }
                false
            },
        }
    }

    /// Moves all copies on: a finished download is followed by the upload, a finished upload of a
    /// move by the deletion of the source. `percents` says how much of each download is there.
    /// Gives back the temporary files that are no longer needed.
    pub fn process_relays(&mut self, percents: &Vec<u32>) -> (temps: Vec<(String, bool)>)
        requires
            percents@.len() == old(self).xfer.relays@.len(),
        ensures
            relays_advance(*old(self), *final(self), percents@, named(temps@)),
            old(self).wf() ==> final(self).wf(),
    {
        let ghost rs = self.xfer.relays@;
        let ghost mut states: Seq<Seq<Session>> = seq![self.sessions@];
        let ghost before = *self;
        let mut temps: Vec<(String, bool)> = Vec::new();
        let n: usize = self.xfer.relays.len();
        let mut k: usize = 0;
        let mut i: usize = 0;
        proof {
            assert(relays_left(rs.take(0), states) + rs.skip(0) =~= rs);
            assert(named(temps@) =~= temps_done(rs.take(0), states));
        }
        while k < n
            invariant
                rs == old(self).xfer.relays@,
                n == rs.len(),
                k <= n,
                percents@.len() == n,
                states.len() == k + 1,
                states[0] == old(self).sessions@,
                states[k as int] == self.sessions@,
                relays_move(rs.take(k as int), states, percents@, old(self).lang),
                i == relays_left(rs.take(k as int), states).len(),
                i <= k,
                self.xfer.relays@ == relays_left(rs.take(k as int), states) + rs.skip(k as int),
                named(temps@) == temps_done(rs.take(k as int), states),
                same_uids(old(self).sessions@, self.sessions@),
                *self == (App {
                    sessions: self.sessions,
                    xfer: Transfers { relays: self.xfer.relays, ..old(self).xfer },
                    ..*old(self)
                }),
            decreases n - k,
        {
            let ghost left = relays_left(rs.take(k as int), states);
            let ghost ss = self.sessions@;
            let ghost held = self.xfer.relays@;
            let ghost r = rs[k as int];
            assert(held[i as int] == r);
            let goes_on = self.move_relay(i, percents[k]);
            proof {
                let old_states = states;
                let more = rs.take(k + 1);
                states = states.push(self.sessions@);
                assert(states.drop_last() =~= old_states);
                assert(more.drop_last() =~= rs.take(k as int));
                assert(more.last() == r);
                assert(states[more.len() - 1] == ss);
                assert forall|j: int| 0 <= j < more.len() implies relay_moves(
                    states[j],
                    states[j + 1],
                    #[trigger] more[j],
                    percents@[j],
                    old(self).lang,
                ) by {
                    if j < k {
                        assert(rs.take(k as int)[j] == more[j]);
                        assert(states[j] == old_states[j] && states[j + 1] == old_states[j + 1]);
                    }
                }
            }
            if goes_on {
                assert(self.xfer.relays@ =~= relays_left(rs.take(k + 1), states) + rs.skip(k + 1));
                i = i + 1;
            } else {
                let done = self.xfer.relays.remove(i);
                let ghost before_temps = named(temps@);
                temps.push((done.tmp, done.is_dir));
                proof {
                    assert(named(temps@) =~= before_temps.push((r.tmp@, r.is_dir)));
                    assert(self.xfer.relays@ =~= relays_left(rs.take(k + 1), states) + rs.skip(
                        k + 1,
                    ));
                }
            }
            k = k + 1;
        }
        proof {
            assert(rs.take(n as int) =~= rs);
            assert(relays_left(rs, states) + rs.skip(n as int) =~= relays_left(rs, states));
            assert(relays_move(rs, states, percents@, before.lang));
            if before.wf() {
                lemma_wf_kept(before, *self);
            }
        }
        temps
    }
}

/// A source is told to delete a file only for a move whose upload succeeded: whatever else a copy
/// does in a frame, no session is told to delete anything.
pub proof fn source_outlives_a_failed_move(
    ss: Seq<Session>,
    after: Seq<Session>,
    r: Relay,
    percent: u32,
    lang: Lang,
    s: int,
)
    requires
        relay_moves(ss, after, r, percent, lang),
        0 <= s < ss.len(),
        after[s].link.log() != ss[s].link.log(),
        after[s].link.log().last() is DeleteMany,
    ensures
        r.is_cut,
        r.phase is Up,
        row_ok(ss, r.dest_uid, r.phase->Up_0) == Some(true),
        ss[s].uid == r.src_uid,
        after[s].link.log() == ss[s].link.log().push(
            CommandView::DeleteMany { paths: seq![r.src_path@] },
        ),
{
    lemma_uid_pos(ss, r.src_uid);
    lemma_uid_pos(ss, r.dest_uid);
}

/// Each copy either goes on or has its temporary file given back.
pub proof fn every_ended_copy_is_cleaned_up(rs: Seq<Relay>, states: Seq<Seq<Session>>)
    requires
        states.len() == rs.len() + 1,
    ensures
        relays_left(rs, states).len() + temps_done(rs, states).len() == rs.len(),
    decreases rs.len(),
{
    if rs.len() > 0 {
        every_ended_copy_is_cleaned_up(rs.drop_last(), states.drop_last());
    }
}

} // verus!
