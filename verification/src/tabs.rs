//! Opening, closing, moving and switching tabs.
use vstd::arithmetic::div_mod::lemma_fundamental_div_mod;
use vstd::arithmetic::div_mod::lemma_fundamental_div_mod_converse;
use vstd::prelude::*;
use vstd::string::*;

use crate::app::{lemma_wf_kept, same_uids, App};
use crate::forwards::ForwardEntry;
use crate::pending::SessionPending;
use crate::proto::{tr, tr_of, CommandView, Lang, Link, UiCommand};
use crate::saved::{ConnectConfig, ConnectView, Transport};
use crate::session::{FilePanel, Session};
use crate::terminal::Terminal;
use crate::text::{decimal, push_decimal, same, trim, trim_of};

verus! {

/// `user@host:port`.
pub open spec fn address(cfg: ConnectView) -> Seq<char> {
    cfg.username + "@"@ + cfg.host + ":"@ + decimal(cfg.port as nat)
}

fn address_text(cfg: &ConnectConfig) -> (r: String)
    ensures
        r@ == address(cfg@),
{
    let mut s = cfg.username.clone();
    s.append("@");
    s.append(cfg.host.as_str());
    s.append(":");
    push_decimal(&mut s, cfg.port as u64);
    s
}

/// The title of a tab: the label, else the user.
pub open spec fn title_of(cfg: ConnectView) -> Seq<char> {
    if trim_of(cfg.label).len() == 0 {
        cfg.username
    } else {
        trim_of(cfg.label)
    }
}

/// What is shown when the mouse rests on a tab.
pub open spec fn tip_of(cfg: ConnectView, lang: Lang) -> Seq<char> {
    if cfg.transport == Transport::Local {
        tr_of(lang, "本机"@, "Local machine"@) + " · "@ + cfg.username
    } else {
        address(cfg)
    }
}

/// The key under which the favourites of a server are stored: one of its own for this machine.
pub open spec fn server_key(cfg: ConnectView) -> Seq<char> {
    if cfg.transport == Transport::Local {
        "local:"@ + cfg.username
    } else {
        address(cfg)
    }
}

/// A link on which nothing was sent yet.
pub open spec fn is_new_link(link: Link) -> bool {
    link.sent@.len() == 0 && link.takes == u64::MAX
}

/// A terminal in which nothing has happened.
pub open spec fn is_new_terminal(t: Terminal) -> bool {
    &&& !t.integration && !t.capturing && !t.busy
    &&& t.captured is None && t.done is None && t.cwd is None
    &&& t.output_idle_ms == 0 && t.input_idle_ms == 0
    &&& t.ops@.len() == 0
}

/// A session that was just opened.
pub open spec fn is_new_session(s: Session, uid: u64, cfg: ConnectConfig, lang: Lang) -> bool {
    &&& s.uid == uid
    &&& s.cfg == cfg
    &&& s.title@ == title_of(cfg@)
    &&& s.tip@ == tip_of(cfg@, lang)
    &&& s.files.server_key@ == server_key(cfg@)
    &&& s.files.root@.len() == 0 && s.files.expanded@.len() == 0 && s.files.loading@.len() == 0
    &&& s.files.pending_select is None
    &&& is_new_link(s.link)
    &&& is_new_terminal(s.terminal)
    &&& !s.connected && !s.initialized && !s.was_connected
    &&& s.status@ == tr_of(lang, "连接中 …"@, "Connecting …"@)
    &&& s.transfers@.len() == 0 && s.next_xfer == 1
    &&& s.forwards@.len() == 0 && s.next_forward == 1
    &&& s.pending.holds_nothing()
    &&& s.pending_hostkey is None && s.kbd_prompt is None && s.proc_detail is None
    &&& s.reconnect_at is None && s.reconnect_tries == 0
    &&& s.last_cwd@.len() == 0 && !s.restore_cwd && s.restore_cwd_until is None
    &&& !s.mcp_token_injected && s.monitor_ok is None
    &&& s.pending_ai_run is None && s.pending_paste_image@.len() == 0
    &&& !s.ai_owned && s.ai_owner is None && s.ai_owner_label is None
    &&& s.pending_file_ops@.len() == 0 && s.file_op_tombstones@.len() == 0
}

fn new_session(uid: u64, cfg: ConnectConfig, lang: Lang) -> (s: Session)
    ensures
        is_new_session(s, uid, cfg, lang),
{
    let local: bool = cfg.is_local();
    let label = trim(cfg.label.as_str());
    let title = if label.is_empty() {
        cfg.username.clone()
    } else {
        label.to_owned()
    };
    let tip = if local {
        let mut t = tr(lang, "本机", "Local machine").to_owned();
        t.append(" · ");
        t.append(cfg.username.as_str());
        t
    } else {
        address_text(&cfg)
    };
    let key = if local {
        let mut k = "local:".to_owned();
        k.append(cfg.username.as_str());
        k
    } else {
        address_text(&cfg)
    };
    Session {
        uid,
        title,
        tip,
        link: Link { sent: Vec::new(), takes: u64::MAX },
        connected: false,
        status: tr(lang, "连接中 …", "Connecting …").to_owned(),
        terminal: Terminal::new(),
        files: FilePanel {
            server_key: key,
            root: String::new(),
            expanded: Vec::new(),
            loading: Vec::new(),
            pending_select: None,
        },
        initialized: false,
        transfers: Vec::new(),
        next_xfer: 1,
        pending: SessionPending::default(),
        pending_hostkey: None,
        kbd_prompt: None,
        forwards: Vec::new(),
        next_forward: 1,
        proc_detail: None,
        cfg,
        was_connected: false,
        reconnect_at: None,
        reconnect_tries: 0,
        last_cwd: String::new(),
        restore_cwd: false,
        restore_cwd_until: None,
        mcp_token_injected: false,
        monitor_ok: None,
        pending_ai_run: None,
        pending_paste_image: Vec::new(),
        ai_owned: false,
        ai_owner: None,
        ai_owner_label: None,
        pending_file_ops: Vec::new(),
        file_op_tombstones: Vec::new(),
    }
}

/// A session whose worker was started anew: the connection starts over, the tab stays.
pub open spec fn is_reconnecting(before: Session, after: Session, lang: Lang) -> bool {
    &&& is_new_link(after.link)
    &&& is_new_terminal(after.terminal)
    &&& after.status@ == tr_of(lang, "重连中 …"@, "Reconnecting …"@)
    &&& after.forwards@.len() == before.forwards@.len()
    &&& forall|i: int|
        0 <= i < before.forwards@.len() ==> {
            let f = #[trigger] after.forwards@[i];
            &&& f == (ForwardEntry { ok: true, status: f.status, ..before.forwards@[i] })
            &&& f.status@ == tr_of(lang, "重连中 …"@, "Reconnecting …"@)
        }
    &&& after.pending_file_ops@.len() == 0
    &&& after == (Session {
        link: after.link,
        connected: false,
        initialized: false,
        terminal: after.terminal,
        monitor_ok: None,
        pending_ai_run: None,
        pending_file_ops: after.pending_file_ops,
        forwards: after.forwards,
        pending_hostkey: None,
        kbd_prompt: None,
        reconnect_at: None,
        restore_cwd: true,
        status: after.status,
        ..before
    })
}

/// Whether a session that lost its connection is to be tried again by now.
pub open spec fn is_due(s: Session, now: u64) -> bool {
    s.reconnect_at is Some && s.reconnect_at->0 <= now
}

/// A session with one more automatic try.
pub open spec fn tried_again(s: Session) -> Session {
    Session {
        reconnect_tries: if s.reconnect_tries < u32::MAX {
            (s.reconnect_tries + 1) as u32
        } else {
            s.reconnect_tries
        },
        ..s
    }
}

/// The sessions that are to be tried again by now.
pub open spec fn due_uids(ss: Seq<Session>, now: u64) -> Seq<u64>
    decreases ss.len(),
{
    if ss.len() == 0 {
        Seq::empty()
    } else {
        let rest = due_uids(ss.drop_last(), now);
        if is_due(ss.last(), now) {
            rest.push(ss.last().uid)
        } else {
            rest
        }
    }
}

/// What one frame makes of a session: one that is due is tried again.
pub open spec fn retried(before: Session, after: Session, lang: Lang, now: u64) -> bool {
    if is_due(before, now) {
        is_reconnecting(tried_again(before), after, lang)
    } else {
        after == before
    }
}

/// Where the tab that was at `a` is after the tab at `from` moved to `to`.
pub open spec fn moved_index(a: int, from: int, to: int) -> int {
    let x = if a > from {
        a - 1
    } else {
        a
    };
    if a == from {
        to
    } else if x >= to {
        x + 1
    } else {
        x
    }
}

/// The tab that is shown after the tab at `idx` was closed and `left` remain.
pub open spec fn active_after_close(active: Option<usize>, idx: int, left: int) -> Option<int> {
    if left == 0 {
        None
    } else {
        match active {
            Some(a) => if a > idx {
                Some(a - 1)
            } else if a < idx {
                Some(a as int)
            } else if idx < left {
                Some(idx)
            } else {
                Some(left - 1)
            },
            None => if idx < left {
                Some(idx)
            } else {
                Some(left - 1)
            },
        }
    }
}

/// The tabs behind position `i` that show the same server as `host:port`, but for `skip`.
pub open spec fn same_server_from(
    ss: Seq<Session>,
    host: Seq<char>,
    port: u16,
    skip: int,
    i: int,
) -> Seq<usize>
    decreases ss.len() - i,
{
    if i < 0 || i >= ss.len() {
        Seq::empty()
    } else {
        let rest = same_server_from(ss, host, port, skip, i + 1);
        if i != skip && ss[i].cfg.host@ == host && ss[i].cfg.port == port {
            seq![i as usize] + rest
        } else {
            rest
        }
    }
}

/// The tabs of the server that the tab at `idx` shows: that tab first, then the others in order.
pub open spec fn same_server(ss: Seq<Session>, idx: int) -> Seq<usize> {
    if 0 <= idx < ss.len() {
        seq![idx as usize] + same_server_from(ss, ss[idx].cfg.host@, ss[idx].cfg.port, idx, 0)
    } else {
        Seq::empty()
    }
}

proof fn lemma_moved(all: Seq<Session>, from: int, to: int, top: u64)
    requires
        0 <= from < all.len(),
        0 <= to < all.len(),
        forall|i: int| 0 <= i < all.len() ==> (#[trigger] all[i]).uid <= top,
        forall|i: int, j: int|
            0 <= i < j < all.len() ==> (#[trigger] all[i]).uid != (#[trigger] all[j]).uid,
    ensures
        ({
            let now = all.remove(from).insert(to, all[from]);
            &&& now.len() == all.len()
            &&& forall|a: int|
                0 <= a < all.len() ==> 0 <= #[trigger] moved_index(a, from, to) < now.len()
                    && now[moved_index(a, from, to)] == all[a]
            &&& forall|i: int| 0 <= i < now.len() ==> (#[trigger] now[i]).uid <= top
            &&& forall|i: int, j: int|
                0 <= i < j < now.len() ==> (#[trigger] now[i]).uid != (#[trigger] now[j]).uid
        }),
{
    let rest = all.remove(from);
    let now = rest.insert(to, all[from]);
    assert forall|a: int| 0 <= a < all.len() implies 0 <= #[trigger] moved_index(a, from, to)
        < now.len() && now[moved_index(a, from, to)] == all[a] by {
        if a != from {
            let x = if a > from {
                a - 1
            } else {
                a
            };
            assert(rest[x] == all[a]);
        }
    }
    assert forall|i: int| 0 <= i < now.len() implies 0 <= unmoved_index(i, from, to) < all.len()
        && #[trigger] now[i] == all[unmoved_index(i, from, to)] by {
        if i != to {
            let x = if i > to {
                i - 1
            } else {
                i
            };
            assert(now[i] == rest[x]);
        }
    }
    assert forall|i: int, j: int| 0 <= i < j < now.len() implies (#[trigger] now[i]).uid != (
    #[trigger] now[j]).uid by {
        let p = unmoved_index(i, from, to);
        let q = unmoved_index(j, from, to);
        assert(now[i] == all[p] && now[j] == all[q]);
        assert(p != q);
        if p < q {
            assert(all[p].uid != all[q].uid);
        } else {
            assert(all[q].uid != all[p].uid);
        }
    }
    assert forall|i: int| 0 <= i < now.len() implies (#[trigger] now[i]).uid <= top by {
        assert(now[i] == all[unmoved_index(i, from, to)]);
    }
}

proof fn lemma_negative_mod(x: int, n: int)
    requires
        x < 0,
        n > 0,
    ensures
        x % n == n - 1 - (-x - 1) % n,
{
    let m = -x - 1;
    let q = m / n;
    let r = m % n;
    lemma_fundamental_div_mod(m, n);
    assert(0 <= r < n);
    assert(x == (-(q + 1)) * n + (n - 1 - r)) by (nonlinear_arith)
        requires
            m == n * q + r,
            x == -m - 1,
    ;
    lemma_fundamental_div_mod_converse(x, n, -(q + 1), n - 1 - r);
}

impl App {
    /// Opens a tab and shows it.
    pub fn spawn_session(&mut self, cfg: ConnectConfig)
        requires
            old(self).wf(),
            old(self).next_uid < u64::MAX,
        ensures
            final(self).wf(),
            final(self).sessions@.len() == old(self).sessions@.len() + 1,
            final(self).sessions@.drop_last() == old(self).sessions@,
            is_new_session(
                final(self).sessions@.last(),
                (old(self).next_uid + 1) as u64,
                cfg,
                old(self).lang,
            ),
            final(self).active == Some(old(self).sessions@.len() as usize),
            *final(self) == (App {
                sessions: final(self).sessions,
                active: final(self).active,
                next_uid: (old(self).next_uid + 1) as u64,
                scroll_to_active: true,
                show_close_confirm: false,
                ..*old(self)
            }),
    {
        self.show_close_confirm = false;
        self.next_uid = self.next_uid + 1;
        let s = new_session(self.next_uid, cfg, self.lang);
        let n: usize = self.sessions.len();
        self.sessions.push(s);
        assert(self.sessions@.drop_last() =~= old(self).sessions@);
        self.active = Some(n);
        self.scroll_to_active = true;
    }

    /// Starts the worker of the tab at `idx` anew. Runs and file operations that an agent waited
    /// for are void; port forwards are kept, to be set up again.
    pub fn reconnect_session(&mut self, idx: usize)
        ensures
            old(self).wf() ==> final(self).wf(),
            final(self).sessions@.len() == old(self).sessions@.len(),
            forall|j: int|
                0 <= j < old(self).sessions@.len() && j != idx ==> #[trigger] final(self).sessions@[j] == old(self).sessions@[j],
            idx < old(self).sessions@.len() ==> is_reconnecting(
                old(self).sessions@[idx as int],
                final(self).sessions@[idx as int],
                old(self).lang,
            ),
            *final(self) == (App { sessions: final(self).sessions, ..*old(self) }),
    {
        if idx >= self.sessions.len() {
            return;
        }
        let lang = self.lang;
        let text = tr(lang, "重连中 …", "Reconnecting …");
        let ghost before = self.sessions@[idx as int];
        let mut i: usize = 0;
        while i < self.sessions[idx].forwards.len()
            invariant
                idx < self.sessions@.len(),
                self.sessions@.len() == old(self).sessions@.len(),
                *self == (App { sessions: self.sessions, ..*old(self) }),
                text@ == tr_of(lang, "重连中 …"@, "Reconnecting …"@),
                before == old(self).sessions@[idx as int],
                forall|j: int|
                    0 <= j < self.sessions@.len() && j != idx ==> #[trigger] self.sessions@[j]
                        == old(self).sessions@[j],
                self.sessions@[idx as int] == (Session {
                    forwards: self.sessions@[idx as int].forwards,
                    ..before
                }),
                self.sessions@[idx as int].forwards@.len() == before.forwards@.len(),
                i <= before.forwards@.len(),
                forall|k: int|
                    i <= k < before.forwards@.len() ==> #[trigger] self.sessions@[idx as int].forwards@[k]
                        == before.forwards@[k],
                forall|k: int|
                    0 <= k < i ==> {
                        let f = #[trigger] self.sessions@[idx as int].forwards@[k];
                        &&& f == (ForwardEntry { ok: true, status: f.status, ..before.forwards@[k] })
                        &&& f.status@ == tr_of(lang, "重连中 …"@, "Reconnecting …"@)
                    },
            decreases before.forwards@.len() - i,
        {
            self.sessions[idx].forwards[i].ok = true;
            self.sessions[idx].forwards[i].status = text.to_owned();
            i = i + 1;
        }
        self.sessions[idx].link = Link { sent: Vec::new(), takes: u64::MAX };
        self.sessions[idx].connected = false;
        self.sessions[idx].initialized = false;
        self.sessions[idx].terminal = Terminal::new();
        self.sessions[idx].monitor_ok = None;
        self.sessions[idx].pending_ai_run = None;
        self.sessions[idx].pending_file_ops = Vec::new();
        self.sessions[idx].pending_hostkey = None;
        self.sessions[idx].kbd_prompt = None;
        self.sessions[idx].reconnect_at = None;
        self.sessions[idx].restore_cwd = true;
        self.sessions[idx].status = text.to_owned();
    }

    fn retry(&mut self, idx: usize, now: u64) -> (r: bool)
        requires
            idx < old(self).sessions@.len(),
        ensures
            r == is_due(old(self).sessions@[idx as int], now),
            retried(
                old(self).sessions@[idx as int],
                final(self).sessions@[idx as int],
                old(self).lang,
                now,
            ),
            final(self).sessions@ == old(self).sessions@.update(
                idx as int,
                final(self).sessions@[idx as int],
            ),
            *final(self) == (App { sessions: final(self).sessions, ..*old(self) }),
    {
        let due: bool = match self.sessions[idx].reconnect_at {
            Some(at) => at <= now,
            None => false,
        };
        if due {
            let tries: u32 = self.sessions[idx].reconnect_tries;
            if tries < u32::MAX {
                self.sessions[idx].reconnect_tries = tries + 1;
            }
            assert(self.sessions@[idx as int] == tried_again(old(self).sessions@[idx as int]));
            self.reconnect_session(idx);
        }
        due
    }

    /// Tries again the sessions that lost their connection and are due, and says which they are.
    pub fn reconnect_due(&mut self, now: u64) -> (r: Vec<u64>)
        ensures
            old(self).wf() ==> final(self).wf(),
            r@ == due_uids(old(self).sessions@, now),
            final(self).sessions@.len() == old(self).sessions@.len(),
            forall|j: int|
                0 <= j < old(self).sessions@.len() ==> retried(
                    old(self).sessions@[j],
                    #[trigger] final(self).sessions@[j],
                    old(self).lang,
                    now,
                ),
            *final(self) == (App { sessions: final(self).sessions, ..*old(self) }),
    {
        let ghost all = self.sessions@;
        let mut r: Vec<u64> = Vec::new();
        let mut i: usize = 0;
        while i < self.sessions.len()
            invariant
                all == old(self).sessions@,
                self.sessions@.len() == all.len(),
                i <= all.len(),
                *self == (App { sessions: self.sessions, ..*old(self) }),
                r@ == due_uids(all.take(i as int), now),
                forall|j: int|
                    0 <= j < i ==> retried(all[j], #[trigger] self.sessions@[j], self.lang, now),
                forall|j: int| i <= j < all.len() ==> #[trigger] self.sessions@[j] == all[j],
            decreases all.len() - i,
        {
            assert(all.take(i + 1).drop_last() =~= all.take(i as int));
            let uid: u64 = self.sessions[i].uid;
            if self.retry(i, now) {
                r.push(uid);
            }
            i = i + 1;
        }
        assert(all.take(all.len() as int) =~= all);
        proof {
            if old(self).wf() {
                assert(same_uids(all, self.sessions@)) by {
                    assert forall|j: int| 0 <= j < all.len() implies (#[trigger] self.sessions@[j]).uid
                        == all[j].uid by {
                        assert(retried(all[j], self.sessions@[j], self.lang, now));
                    }
                }
                lemma_wf_kept(*old(self), *self);
            }
        }
        r
    }

    /// Moves the tab at `from` to where the tab at `to` is. The tab that is shown stays shown.
    pub fn reorder_session(&mut self, from: usize, to: usize)
        requires
            old(self).wf(),
        ensures
            final(self).wf(),
            final(self).sessions@ == (if from < old(self).sessions@.len() && to < old(self).sessions@.len() && from != to {
                old(self).sessions@.remove(from as int).insert(
                    to as int,
                    old(self).sessions@[from as int],
                )
            } else {
                old(self).sessions@
            }),
            final(self).active is Some == old(self).active is Some,
            old(self).active is Some ==> final(self).sessions@[final(self).active->0 as int]
                == old(self).sessions@[old(self).active->0 as int],
            *final(self) == (App {
                sessions: final(self).sessions,
                active: final(self).active,
                ..*old(self)
            }),
    {
        let len: usize = self.sessions.len();
        if from >= len || to >= len || from == to {
            return;
        }
        let ghost all = self.sessions@;
        let moved = self.sessions.remove(from);
        self.sessions.insert(to, moved);
        proof {
            lemma_moved(all, from as int, to as int, self.next_uid);
        }
        match self.active {
            Some(a) => {
                let next: usize = if a == from {
                    to
                } else {
                    let x: usize = if a > from {
                        a - 1
                    } else {
                        a
                    };
                    if x >= to {
                        x + 1
                    } else {
                        x
                    }
                };
                assert(next == moved_index(a as int, from as int, to as int));
                self.active = Some(next);
            },
            None => {},
        }
    }

    /// Closes the tab at `idx` and tells its worker to disconnect. Returns the closed session. The
    /// tab that is shown stays shown; where it was the closed one, a neighbour is.
    pub fn close_session(&mut self, idx: usize) -> (r: Option<Session>)
        requires
            old(self).wf(),
        ensures
            final(self).wf(),
            match r {
                Some(s) => {
                    let before = old(self).sessions@[idx as int];
                    &&& idx < old(self).sessions@.len()
                    &&& s.link.sends(before.link, CommandView::Disconnect)
                    &&& s == (Session { link: s.link, ..before })
                    &&& final(self).sessions@ == old(self).sessions@.remove(idx as int)
                    &&& (match final(self).active {
                        Some(a) => Some(a as int),
                        None => None,
                    }) == active_after_close(
                        old(self).active,
                        idx as int,
                        final(self).sessions@.len() as int,
                    )
                },
                None => idx >= old(self).sessions@.len() && *final(self) == *old(self),
            },
            *final(self) == (App {
                sessions: final(self).sessions,
                active: final(self).active,
                ..*old(self)
            }),
    {
        if idx >= self.sessions.len() {
            return None;
        }
        let ghost all = self.sessions@;
        let mut s = self.sessions.remove(idx);
        let _ = s.link.send(UiCommand::Disconnect);
        let left: usize = self.sessions.len();
        if left == 0 {
            self.active = None;
        } else {
            let near: usize = if idx < left {
                idx
            } else {
                left - 1
            };
            let next: usize = match self.active {
                Some(a) => if a > idx {
                    a - 1
                } else if a < idx {
                    a
                } else {
                    near
                },
                None => near,
            };
            self.active = Some(next);
        }
        assert forall|i: int| 0 <= i < self.sessions@.len() implies #[trigger] self.sessions@[i]
            == all[if i < idx {
            i
        } else {
            i + 1
        }] by {}
        Some(s)
    }

    /// Shows the tab `delta` places further, around the end. Returns the tab to focus.
    pub fn switch_tab(&mut self, delta: i32) -> (r: Option<usize>)
        requires
            old(self).wf(),
            old(self).sessions@.len() <= i32::MAX,
        ensures
            final(self).wf(),
            r is Some == (old(self).sessions@.len() > 0),
            r is None ==> *final(self) == *old(self),
            r is Some ==> {
                let cur: int = match old(self).active {
                    Some(a) => a as int,
                    None => 0,
                };
                &&& r->0 == (cur + delta) % (old(self).sessions@.len() as int)
                &&& *final(self) == (App { active: r, scroll_to_active: true, ..*old(self) })
            },
    {
        let n: usize = self.sessions.len();
        if n == 0 {
            return None;
        }
        let cur: i64 = match self.active {
            Some(a) => a as i64,
            None => 0,
        };
        let x: i64 = cur + delta as i64;
        let next: usize = if x >= 0 {
            (x as u64 % n as u64) as usize
        } else {
            proof {
                lemma_negative_mod(x as int, n as int);
            }
            let back: u64 = (-(x + 1)) as u64;
            n - 1 - (back % n as u64) as usize
        };
        self.active = Some(next);
        self.scroll_to_active = true;
        Some(next)
    }

    /// The tabs of the server that the tab at `idx` shows, that tab first.
    pub fn same_server_idxs(&self, idx: usize) -> (r: Vec<usize>)
        ensures
            r@ == same_server(self.sessions@, idx as int),
    {
        let mut out: Vec<usize> = Vec::new();
        if idx >= self.sessions.len() {
            return out;
        }
        out.push(idx);
        let ghost ss = self.sessions@;
        let ghost host = ss[idx as int].cfg.host@;
        let ghost port = ss[idx as int].cfg.port;
        let ghost want = same_server(ss, idx as int);
        let mut i: usize = 0;
        assert(out@ + same_server_from(ss, host, port, idx as int, 0) =~= want);
        while i < self.sessions.len()
            invariant
                ss == self.sessions@,
                idx < ss.len(),
                host == ss[idx as int].cfg.host@,
                port == ss[idx as int].cfg.port,
                i <= ss.len(),
                out@ + same_server_from(ss, host, port, idx as int, i as int) == want,
            decreases ss.len() - i,
        {
            let ghost before = out@;
            let ghost rest = same_server_from(ss, host, port, idx as int, i + 1);
            if i != idx && same(
                self.sessions[i].cfg.host.as_str(),
                self.sessions[idx].cfg.host.as_str(),
            ) && self.sessions[i].cfg.port == self.sessions[idx].cfg.port {
                out.push(i);
                assert(before + (seq![i] + rest) =~= out@ + rest);
            }
            i = i + 1;
        }
        assert(out@ + same_server_from(ss, host, port, idx as int, i as int) =~= out@);
        out
    }
}

/// Where the tab that is at `i` was before the tab at `from` moved to `to`.
pub open spec fn unmoved_index(i: int, from: int, to: int) -> int {
    if i == to {
        from
    } else {
        let x = if i > to {
            i - 1
        } else {
            i
        };
        if x >= from {
            x + 1
        } else {
            x
        }
    }
}

/// Moving a tab changes nothing but the order: every tab is still there, once.
pub proof fn moving_a_tab_permutes(ss: Seq<Session>, from: int, to: int)
    requires
        0 <= from < ss.len(),
        0 <= to < ss.len(),
    ensures
        ss.remove(from).insert(to, ss[from]).to_multiset() == ss.to_multiset(),
{
    broadcast use vstd::seq_lib::group_to_multiset_ensures;

    let rest = ss.remove(from);
    assert(ss.to_multiset() =~= rest.to_multiset().insert(ss[from])) by {
        assert(rest.insert(from, ss[from]) =~= ss);
    }
    assert(rest.insert(to, ss[from]).to_multiset() =~= rest.to_multiset().insert(ss[from]));
}

/// Closing a tab that is not shown leaves the shown session shown.
pub proof fn closing_another_tab_keeps_the_shown_one(
    ss: Seq<Session>,
    active: usize,
    idx: int,
)
    requires
        active < ss.len(),
        0 <= idx < ss.len(),
        active != idx,
    ensures
        ({
            let next = active_after_close(Some(active), idx, ss.len() - 1);
            next is Some && ss.remove(idx)[next->0] == ss[active as int]
        }),
{
}

} // verus!
