//! The small windows about a process and about the graphics cards.
use vstd::prelude::*;
use vstd::string::*;

use crate::app::{lemma_uid_pos, lemma_wf_kept, same_uids, uid_pos, App};
use crate::proto::{tr, tr_of, CommandView, Lang, UiCommand};
use crate::session::Session;
use crate::text::{decimal, push_decimal};

verus! {

/// The window about a process.
pub struct ProcPopup {
    pub pid: u32,
    pub name: String,
    pub cmd: String,
    pub cwd: String,
    pub exe: String,
    /// Whether the user is asked to confirm that it is killed.
    pub confirm_kill: bool,
    /// The session that it runs in.
    pub uid: u64,
}

/// The small windows.
pub struct Popups {
    pub proc_info: Option<ProcPopup>,
    pub proc_just_opened: bool,
    pub gpu: bool,
    pub gpu_just_opened: bool,
}

impl Popups {
    /// None is open.
    pub fn new() -> (r: Popups)
        ensures
            r.proc_info is None && !r.proc_just_opened && !r.gpu && !r.gpu_just_opened,
    {
        Popups { proc_info: None, proc_just_opened: false, gpu: false, gpu_just_opened: false }
    }

    /// One frame of the window about the graphics cards: it closes where there are none, by its
    /// cross, and by a click outside in any frame but the one it was opened in.
    pub fn gpu_popup_window(&mut self, any: bool, close: bool, outside: bool)
        ensures
            *final(self) == (if !old(self).gpu {
                *old(self)
            } else if !any {
                Popups { gpu: false, ..*old(self) }
            } else {
                Popups {
                    gpu: !(close || (outside && !old(self).gpu_just_opened)),
                    gpu_just_opened: false,
                    ..*old(self)
                }
            }),
    {
        if !self.gpu {
            return;
        }
        if !any {
            self.gpu = false;
            return;
        }
        if close || (outside && !self.gpu_just_opened) {
            self.gpu = false;
        }
        self.gpu_just_opened = false;
    }
}

/// What was clicked in the window about a process in one frame.
pub struct ProcClicks {
    pub close: bool,
    pub outside: bool,
    /// The button that asks for a confirmation.
    pub arm_kill: bool,
    /// The answers to it.
    pub cancel_kill: bool,
    pub kill: bool,
}

/// What is said where a process cannot be killed.
pub open spec fn no_kill_text(lang: Lang) -> Seq<char> {
    tr_of(lang, "远端不支持进程管理"@, "Remote does not support process control"@)
}

/// The program after a process was killed that the user was asked about: the session that the
/// window was opened for is told, whichever is shown now.
pub open spec fn proc_killed(before: App, after: App, p: ProcPopup) -> bool {
    &&& match uid_pos(before.sessions@, p.uid) {
        Some(s) => if before.sessions@[s].monitor_ok == Some(false) {
            &&& after.toast is Some
            &&& after.toast->0@ == no_kill_text(before.lang)
            &&& after.sessions@ == before.sessions@
        } else {
            &&& after.toast == before.toast
            &&& after.sessions@ == before.sessions@.update(s, after.sessions@[s])
            &&& after.sessions@[s].link.sends(
                before.sessions@[s].link,
                CommandView::KillProc(p.pid),
            )
            &&& after.sessions@[s] == (Session {
                link: after.sessions@[s].link,
                ..before.sessions@[s]
            })
        },
        None => after.toast == before.toast && after.sessions@ == before.sessions@,
    }
    &&& after == (App {
        sessions: after.sessions,
        toast: after.toast,
        popups: Popups { proc_info: None, proc_just_opened: false, ..before.popups },
        ..before
    })
}

/// What one frame of the window about a process does. The button that kills is only there once the
/// user was asked.
pub open spec fn proc_frame_ok(before: App, after: App, c: ProcClicks) -> bool {
    match before.popups.proc_info {
        None => after == before,
        Some(p) => if c.kill && p.confirm_kill {
            proc_killed(before, after, p)
        } else {
            after == (App {
                popups: Popups {
                    proc_info: if c.close || (c.outside && !before.popups.proc_just_opened
                        && !c.arm_kill) {
                        None
                    } else {
                        Some(
                            ProcPopup {
                                confirm_kill: (p.confirm_kill || c.arm_kill) && !c.cancel_kill,
                                ..p
                            },
                        )
                    },
                    proc_just_opened: false,
                    ..before.popups
                },
                ..before
            })
        },
    }
}

impl App {
    fn kill_proc(&mut self, pid: u32, uid: u64)
        ensures
            match uid_pos(old(self).sessions@, uid) {
                Some(s) => if old(self).sessions@[s].monitor_ok == Some(false) {
                    &&& final(self).toast is Some
                    &&& final(self).toast->0@ == no_kill_text(old(self).lang)
                    &&& final(self).sessions@ == old(self).sessions@
                } else {
                    &&& final(self).toast == old(self).toast
                    &&& final(self).sessions@ == old(self).sessions@.update(
                        s,
                        final(self).sessions@[s],
                    )
                    &&& final(self).sessions@[s].link.sends(
                        old(self).sessions@[s].link,
                        CommandView::KillProc(pid),
                    )
                    &&& final(self).sessions@[s] == (Session {
                        link: final(self).sessions@[s].link,
                        ..old(self).sessions@[s]
                    })
                },
                None => final(self).toast == old(self).toast && final(self).sessions@
                    == old(self).sessions@,
            },
            *final(self) == (App {
                sessions: final(self).sessions,
                toast: final(self).toast,
                ..*old(self)
            }),
            same_uids(old(self).sessions@, final(self).sessions@),
    {
        match self.session_idx_by_uid(uid) {
            Some(s) => {
                let refused: bool = match self.sessions[s].monitor_ok {
                    Some(ok) => !ok,
                    None => false,
                };
                if refused {
                    self.toast = Some(
                        tr(
                            self.lang,
                            "远端不支持进程管理",
                            "Remote does not support process control",
                        ).to_owned(),
                    );
                } else {
                    let _ = self.sessions[s].link.send(UiCommand::KillProc(pid));
                    assert(self.sessions@ =~= old(self).sessions@.update(
                        s as int,
                        self.sessions@[s as int],
                    ));
                }
            },
            None => {},
        }
    }

    /// One frame of the window about a process.
    pub fn proc_popup_window(&mut self, c: &ProcClicks)
        ensures
            proc_frame_ok(*old(self), *final(self), *c),
            old(self).wf() ==> final(self).wf(),
    {
        let ghost before = *self;
        let (pid, uid, asked): (u32, u64, bool) = match &self.popups.proc_info {
            Some(p) => (p.pid, p.uid, p.confirm_kill),
            None => {
                return;
            },
        };
        if c.kill && asked {
            self.kill_proc(pid, uid);
            self.popups.proc_info = None;
        } else {
            match &mut self.popups.proc_info {
                Some(p) => {
                    if c.arm_kill {
                        p.confirm_kill = true;
                    }
                    if c.cancel_kill {
                        p.confirm_kill = false;
                    }
                },
                None => {},
            }
            if c.close || (c.outside && !self.popups.proc_just_opened && !c.arm_kill) {
                self.popups.proc_info = None;
            }
        }
        self.popups.proc_just_opened = false;
        proof {
            if before.wf() {
                lemma_wf_kept(before, *self);
            }
        }
    }

    /// Opens the window about a process of the shown session, where it is in the list there, and
    /// asks for more about it. `name` is what the list calls it.
    pub fn click_proc(&mut self, pid: u32, name: Option<String>)
        ensures
            proc_clicked(*old(self), *final(self), pid, name),
            old(self).wf() ==> final(self).wf(),
    {
        let ghost before = *self;
        let idx: usize = match self.active {
            Some(i) => {
                if i >= self.sessions.len() {
                    return;
                }
                i
            },
            None => {
                return;
            },
        };
        let uid: u64 = self.sessions[idx].uid;
        let _ = self.sessions[idx].link.send(UiCommand::ProcDetail(pid));
        assert(self.sessions@ =~= before.sessions@.update(idx as int, self.sessions@[idx as int]));
        match name {
            Some(name) => {
                self.popups.proc_info = Some(
                    ProcPopup {
                        pid,
                        name,
                        cmd: String::new(),
                        cwd: String::new(),
                        exe: String::new(),
                        confirm_kill: false,
                        uid,
                    },
                );
                self.popups.proc_just_opened = true;
            },
            None => {},
        }
        proof {
            if before.wf() {
                lemma_wf_kept(before, *self);
            }
        }
    }

    /// Opens the window about the graphics cards.
    pub fn click_gpu(&mut self)
        ensures
            *final(self) == (App {
                popups: Popups { gpu: true, gpu_just_opened: true, ..old(self).popups },
                ..*old(self)
            }),
    {
        self.popups.gpu = true;
        self.popups.gpu_just_opened = true;
    }
}

/// The program after a process of the shown session was clicked.
pub open spec fn proc_clicked(before: App, after: App, pid: u32, name: Option<String>) -> bool {
    match before.active {
        Some(i) => if i < before.sessions@.len() {
            let s = before.sessions@[i as int];
            &&& after.sessions@ == before.sessions@.update(i as int, after.sessions@[i as int])
            &&& after.sessions@[i as int].link.sends(s.link, CommandView::ProcDetail(pid))
            &&& after.sessions@[i as int] == (Session {
                link: after.sessions@[i as int].link,
                ..s
            })
            &&& match name {
                Some(name) => {
                    &&& after.popups.proc_info is Some
                    &&& {
                        let p = after.popups.proc_info->0;
                        &&& p.pid == pid
                        &&& p.name == name
                        &&& p.cmd@.len() == 0 && p.cwd@.len() == 0 && p.exe@.len() == 0
                        &&& !p.confirm_kill
                        &&& p.uid == s.uid
                    }
                    &&& after == (App {
                        sessions: after.sessions,
                        popups: Popups {
                            proc_info: after.popups.proc_info,
                            proc_just_opened: true,
                            ..before.popups
                        },
                        ..before
                    })
                },
                None => after == (App { sessions: after.sessions, ..before }),
            }
        } else {
            after == before
        },
        None => after == before,
    }
}

/// What the user is asked before a process is killed.
pub fn kill_question(pid: u32, name: &str, lang: Lang) -> (r: String)
    ensures
        r@ == (match lang {
            Lang::Zh => "确定强制结束 PID "@ + decimal(pid as nat) + "（"@ + name@
                + "）？此操作不可撤销。"@,
            Lang::En => "Kill PID "@ + decimal(pid as nat) + " ("@ + name@
                + ")? This cannot be undone."@,
        }),
{
    match lang {
        Lang::Zh => {
            let mut s = "确定强制结束 PID ".to_owned();
            push_decimal(&mut s, pid as u64);
            s.append("（");
            s.append(name);
            s.append("）？此操作不可撤销。");
            s
        },
        Lang::En => {
            let mut s = "Kill PID ".to_owned();
            push_decimal(&mut s, pid as u64);
            s.append(" (");
            s.append(name);
            s.append(")? This cannot be undone.");
            s
        },
    }
}

/// No process is killed in the frame in which that is asked for, nor in any frame before the user
/// was asked: a session is told to kill only what the window shows, and only the session that the
/// window was opened for.
pub proof fn only_a_confirmed_process_is_killed(before: App, after: App, c: ProcClicks, s: int)
    requires
        proc_frame_ok(before, after, c),
        0 <= s < before.sessions@.len(),
        after.sessions@[s].link.log() != before.sessions@[s].link.log(),
    ensures
        before.popups.proc_info is Some,
        before.popups.proc_info->0.confirm_kill,
        c.kill,
        before.sessions@[s].uid == before.popups.proc_info->0.uid,
        after.sessions@[s].link.log() == before.sessions@[s].link.log().push(
            CommandView::KillProc(before.popups.proc_info->0.pid),
        ),
{
    if before.popups.proc_info is Some {
        lemma_uid_pos(before.sessions@, before.popups.proc_info->0.uid);
    }
}

} // verus!
