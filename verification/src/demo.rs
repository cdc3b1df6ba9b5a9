//! What the windows can be filled with to look at them without a server: tabs, a forward, a process
//! and a list of transfers.
use vstd::prelude::*;
use vstd::string::*;

use crate::app::{lemma_wf_kept, same_uids, App};
use crate::forwards::{forward_added, ForwardUi};
use crate::popups::{Popups, ProcPopup};
use crate::proto::{ForwardKind, ForwardKindView, ForwardSpec, ForwardSpecView, TransferDir};
use crate::saved::{AuthMethod, AuthView, ConnectConfig, ConnectView, Transport};
use crate::session::Session;
use crate::tabs::is_new_session;
use crate::text::{decimal, opt_view, push_decimal};
use crate::transfers::Transfer;

verus! {

/// The login of a tab to look at: `srv-` and its number with two digits.
pub open spec fn demo_user(n: nat) -> Seq<char> {
    if n < 10 {
        "srv-"@ + "0"@ + decimal(n)
    } else {
        "srv-"@ + decimal(n)
    }
}

/// The connection of a tab to look at; nothing answers it.
pub open spec fn demo_connection(n: nat) -> ConnectView {
    ConnectView {
        host: "127.0.0.1"@,
        port: 9,
        username: demo_user(n),
        auth: AuthView::Password(Seq::empty()),
        label: Seq::empty(),
        jump: None,
        forward_agent: false,
        transport: Transport::Ssh,
    }
}

fn connection(n: u64) -> (r: ConnectConfig)
    ensures
        r@ == demo_connection(n as nat),
{
    let mut username = "srv-".to_owned();
    if n < 10 {
        username.append("0");
    }
    push_decimal(&mut username, n);
    let secret = String::new();
    let label = String::new();
    assert(secret@ =~= Seq::<char>::empty());
    assert(label@ =~= Seq::<char>::empty());
    ConnectConfig {
        host: "127.0.0.1".to_owned(),
        port: 9,
        username,
        auth: AuthMethod::Password(secret),
        label,
        jump: None,
        forward_agent: false,
        transport: Transport::Ssh,
    }
}

/// How many tabs there are to look at.
pub const DEMO_TABS: u64 = 12;

/// The forward to look at.
pub open spec fn demo_forward_spec() -> ForwardSpecView {
    ForwardSpecView {
        id: 0,
        bind_host: "127.0.0.1"@,
        bind_port: 18022,
        kind: ForwardKindView::Local { remote_host: "127.0.0.1"@, remote_port: 22 },
    }
}

/// A row of the list of transfers.
pub struct RowView {
    pub id: u64,
    pub name: Seq<char>,
    pub dir: TransferDir,
    pub done: u64,
    pub total: u64,
    pub ok: Option<bool>,
    pub local: Option<Seq<char>>,
}

/// How many transfers there are to look at.
pub const DEMO_ROWS: u64 = 15;

/// The transfers to look at: one that runs, two that succeeded, and enough others to scroll.
pub open spec fn demo_row(id: u64) -> RowView {
    if id == 1 {
        RowView {
            id,
            name: "backup.tar.gz"@,
            dir: TransferDir::Download,
            done: 73_400_320,
            total: 104_857_600,
            ok: None,
            local: None,
        }
    } else if id == 2 {
        RowView {
            id,
            name: "deploy.sh"@,
            dir: TransferDir::Upload,
            done: 2048,
            total: 2048,
            ok: Some(true),
            local: None,
        }
    } else if id == 3 {
        RowView {
            id,
            name: "huge.bin"@,
            dir: TransferDir::Download,
            done: 1024,
            total: 2048,
            ok: Some(true),
            local: Some("/root/Downloads/huge.bin"@),
        }
    } else {
        RowView {
            id,
            name: "file_"@ + decimal(id as nat) + ".dat"@,
            dir: TransferDir::Download,
            done: (id * 1000) as u64,
            total: 20000,
            ok: if id % 3 == 0 {
                Some(true)
            } else {
                None
            },
            local: None,
        }
    }
}

/// A transfer that shows this row and nothing else.
pub open spec fn shows_row(t: Transfer, r: RowView) -> bool {
    &&& t.id == r.id
    &&& t.name@ == r.name
    &&& t.dir == r.dir
    &&& t.done == r.done
    &&& t.total == r.total
    &&& t.ok == r.ok
    &&& opt_view(t.local) == r.local
    &&& t.spec is None
    &&& !t.paused && !t.queued && !t.show_err
    &&& t.message@.len() == 0 && t.note@.len() == 0 && t.tag@.len() == 0
}

fn row(id: u64) -> (t: Transfer)
    requires
        1 <= id <= DEMO_ROWS,
    ensures
        shows_row(t, demo_row(id)),
{
    let (name, dir, done, total, ok, local): (
        String,
        TransferDir,
        u64,
        u64,
        Option<bool>,
        Option<String>,
    ) = if id == 1 {
        ("backup.tar.gz".to_owned(), TransferDir::Download, 73_400_320, 104_857_600, None, None)
    } else if id == 2 {
        ("deploy.sh".to_owned(), TransferDir::Upload, 2048, 2048, Some(true), None)
    } else if id == 3 {
        let local = "/root/Downloads/huge.bin".to_owned();
        ("huge.bin".to_owned(), TransferDir::Download, 1024, 2048, Some(true), Some(local))
    } else {
        let mut name = "file_".to_owned();
        push_decimal(&mut name, id);
        name.append(".dat");
        let ok: Option<bool> = if id % 3 == 0 {
            Some(true)
        } else {
            None
        };
        (name, TransferDir::Download, id * 1000, 20000, ok, None)
    };
    let mut t = Transfer::new(id, name, dir, total, local, None);
    t.done = done;
    t.ok = ok;
    t
}

/// A session after the transfers to look at were added to it.
pub open spec fn rows_added(before: Session, after: Session) -> bool {
    let n = before.transfers@.len();
    &&& after.transfers@.len() == n + DEMO_ROWS
    &&& after.transfers@.take(n as int) == before.transfers@
    &&& forall|k: int|
        0 <= k < DEMO_ROWS ==> shows_row(
            #[trigger] after.transfers@[n + k],
            demo_row((k + 1) as u64),
        )
    &&& after == (Session { transfers: after.transfers, ..before })
}

impl Session {
    fn add_demo_rows(&mut self)
        ensures
            rows_added(*old(self), *final(self)),
    {
        let ghost before = *self;
        let ghost n = self.transfers@.len();
        let mut id: u64 = 1;
        while id <= DEMO_ROWS
            invariant
                1 <= id <= DEMO_ROWS + 1,
                n == before.transfers@.len(),
                *self == (Session { transfers: self.transfers, ..before }),
                self.transfers@.len() == n + id - 1,
                self.transfers@.take(n as int) == before.transfers@,
                forall|k: int|
                    0 <= k < id - 1 ==> shows_row(
                        #[trigger] self.transfers@[n + k],
                        demo_row((k + 1) as u64),
                    ),
            decreases DEMO_ROWS + 1 - id,
        {
            let ghost had = self.transfers@;
            self.transfers.push(row(id));
            proof {
                assert(self.transfers@.take(n as int) =~= had.take(n as int));
                assert forall|k: int| 0 <= k < id implies shows_row(
                    #[trigger] self.transfers@[n + k],
                    demo_row((k + 1) as u64),
                ) by {
                    if k < id - 1 {
                        assert(self.transfers@[n + k] == had[n + k]);
                    }
                }
            }
            id = id + 1;
        }
    }
}

impl App {
    /// Opens the tabs to look at.
    pub fn demo_tabs(&mut self)
        requires
            old(self).wf(),
            old(self).next_uid <= u64::MAX - DEMO_TABS,
        ensures
            final(self).wf(),
            final(self).sessions@.len() == old(self).sessions@.len() + DEMO_TABS,
            final(self).sessions@.take(old(self).sessions@.len() as int) == old(self).sessions@,
            forall|k: int|
                0 <= k < DEMO_TABS ==> {
                    let s = #[trigger] final(self).sessions@[old(self).sessions@.len() + k];
                    &&& is_new_session(s, (old(self).next_uid + k + 1) as u64, s.cfg, old(self).lang)
                    &&& s.cfg@ == demo_connection((k + 1) as nat)
                },
            final(self).active == Some((final(self).sessions@.len() - 1) as usize),
            *final(self) == (App {
                sessions: final(self).sessions,
                active: final(self).active,
                next_uid: (old(self).next_uid + DEMO_TABS) as u64,
                scroll_to_active: true,
                show_close_confirm: false,
                ..*old(self)
            }),
    {
        let ghost before = *self;
        let ghost n = self.sessions@.len();
        let mut i: u64 = 0;
        while i < DEMO_TABS
            invariant
                i <= DEMO_TABS,
                self.wf(),
                n == before.sessions@.len(),
                before.next_uid <= u64::MAX - DEMO_TABS,
                self.sessions@.len() == n + i,
                self.sessions@.take(n as int) == before.sessions@,
                forall|k: int|
                    0 <= k < i ==> {
                        let s = #[trigger] self.sessions@[n + k];
                        &&& is_new_session(s, (before.next_uid + k + 1) as u64, s.cfg, before.lang)
                        &&& s.cfg@ == demo_connection((k + 1) as nat)
                    },
                *self == (App {
                    sessions: self.sessions,
                    active: self.active,
                    next_uid: (before.next_uid + i) as u64,
                    scroll_to_active: self.scroll_to_active,
                    show_close_confirm: self.show_close_confirm,
                    ..before
                }),
                i > 0 ==> self.active == Some((n + i - 1) as usize) && self.scroll_to_active
                    && !self.show_close_confirm,
            decreases DEMO_TABS - i,
        {
            let ghost had = self.sessions@;
            let cfg = connection(i + 1);
            self.spawn_session(cfg);
            proof {
                assert forall|k: int| 0 <= k < had.len() implies self.sessions@[k] == had[k] by {
                    assert(self.sessions@.drop_last()[k] == had[k]);
                }
                assert(self.sessions@.take(n as int) =~= had.take(n as int));
                assert forall|k: int| 0 <= k < i + 1 implies ({
                    let s = #[trigger] self.sessions@[n + k];
                    &&& is_new_session(s, (before.next_uid + k + 1) as u64, s.cfg, before.lang)
                    &&& s.cfg@ == demo_connection((k + 1) as nat)
                }) by {
                    if k < i {
                        assert(self.sessions@[n + k] == had[n + k]);
                    }
                }
            }
            i = i + 1;
        }
    }

    /// Sets up the forward to look at in the first session, and opens the window about forwards.
    pub fn demo_forward(&mut self)
        requires
            old(self).sessions@.len() > 0 ==> old(self).sessions@[0].next_forward < u64::MAX,
        ensures
            if old(self).sessions@.len() > 0 {
                &&& final(self).sessions@ == old(self).sessions@.update(
                    0,
                    final(self).sessions@[0],
                )
                &&& forward_added(
                    old(self).sessions@[0],
                    final(self).sessions@[0],
                    demo_forward_spec(),
                    old(self).lang,
                )
            } else {
                final(self).sessions@ == old(self).sessions@
            },
            final(self).fwd.show,
            *final(self) == (App {
                sessions: final(self).sessions,
                fwd: (ForwardUi { show: true, ..old(self).fwd }),
                ..*old(self)
            }),
            old(self).wf() ==> final(self).wf(),
    {
        if self.sessions.len() > 0 {
            let lang = self.lang;
            let spec = ForwardSpec {
                id: 0,
                bind_host: "127.0.0.1".to_owned(),
                bind_port: 18022,
                kind: ForwardKind::Local { remote_host: "127.0.0.1".to_owned(), remote_port: 22 },
            };
            assert(spec@ == demo_forward_spec());
            self.sessions[0].add_forward(spec, lang);
            assert(self.sessions@ =~= old(self).sessions@.update(0, self.sessions@[0]));
        }
        self.fwd.show = true;
        proof {
            assert(same_uids(old(self).sessions@, self.sessions@));
            if old(self).wf() {
                lemma_wf_kept(*old(self), *self);
            }
        }
    }

    /// Opens the window about a process to look at.
    pub fn demo_process(&mut self)
        ensures
            final(self).popups.proc_info is Some,
            ({
                let p = final(self).popups.proc_info->0;
                &&& p.pid == 1234
                &&& p.name@ == "gromacs_mpi"@
                &&& p.cmd@ == "/opt/gromacs/bin/gmx mdrun -deffnm md -nb gpu"@
                &&& p.cwd@ == "/home/e5-1/sim/run1"@
                &&& p.exe@ == "/opt/gromacs/bin/gmx"@
                &&& !p.confirm_kill
                &&& p.uid == (if old(self).sessions@.len() > 0 {
                    old(self).sessions@[0].uid
                } else {
                    0
                })
            }),
            *final(self) == (App {
                popups: (Popups {
                    proc_info: final(self).popups.proc_info,
                    ..old(self).popups
                }),
                ..*old(self)
            }),
    {
        let uid: u64 = if self.sessions.len() > 0 {
            self.sessions[0].uid
        } else {
            0
        };
        self.popups.proc_info = Some(
            ProcPopup {
                pid: 1234,
                name: "gromacs_mpi".to_owned(),
                cmd: "/opt/gromacs/bin/gmx mdrun -deffnm md -nb gpu".to_owned(),
                cwd: "/home/e5-1/sim/run1".to_owned(),
                exe: "/opt/gromacs/bin/gmx".to_owned(),
                confirm_kill: false,
                uid,
            },
        );
    }

    /// Fills the list of transfers of the first session, and opens it.
    pub fn demo_transfers(&mut self)
        ensures
            if old(self).sessions@.len() > 0 {
                &&& final(self).sessions@ == old(self).sessions@.update(
                    0,
                    final(self).sessions@[0],
                )
                &&& rows_added(old(self).sessions@[0], final(self).sessions@[0])
            } else {
                final(self).sessions@ == old(self).sessions@
            },
            *final(self) == (App {
                sessions: final(self).sessions,
                show_transfers: true,
                ..*old(self)
            }),
            old(self).wf() ==> final(self).wf(),
    {
        if self.sessions.len() > 0 {
            self.sessions[0].add_demo_rows();
            assert(self.sessions@ =~= old(self).sessions@.update(0, self.sessions@[0]));
        }
        self.show_transfers = true;
        proof {
            assert(same_uids(old(self).sessions@, self.sessions@));
            if old(self).wf() {
                lemma_wf_kept(*old(self), *self);
            }
        }
    }
}

} // verus!
