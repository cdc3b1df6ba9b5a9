//! Port forwards: the list of a session, the form that adds one, and the rules it is checked by.
use vstd::prelude::*;
use vstd::string::*;

use crate::app::{lemma_wf_kept, same_uids, App};
use crate::events::{find_forward, forward_pos};
use crate::paths::{is_loopback, is_loopback_bind};
use crate::proto::{
    tr, tr_of, CommandView, ForwardKind, ForwardKindView, ForwardSpec, ForwardSpecView, Lang,
    UiCommand,
};
use crate::session::Session;
use crate::text::{decimal, decimal_string, parse_u16, push_decimal, same, trim, trim_of, u16_of};

verus! {

/// A port forward in a session's list.
pub struct ForwardEntry {
    pub id: u64,
    pub label: String,
    pub status: String,
    pub ok: bool,
    pub bind_host: String,
    pub bind_port: u16,
    pub kind: ForwardKind,
}

/// The form that adds or changes a forward, as typed.
pub struct ForwardForm {
    /// 0 for a forward to one host, else for SOCKS5.
    pub kind: usize,
    pub bind: String,
    pub local_port: String,
    pub target_host: String,
    pub target_port: String,
}

impl Default for ForwardForm {
    fn default() -> (r: ForwardForm)
        ensures
            r.kind == 0,
            r.bind@ == "127.0.0.1"@,
            r.local_port@.len() == 0 && r.target_host@.len() == 0 && r.target_port@.len() == 0,
    {
        ForwardForm {
            kind: 0,
            bind: "127.0.0.1".to_owned(),
            local_port: String::new(),
            target_host: String::new(),
            target_port: String::new(),
        }
    }
}

/// The window that lists the forwards.
pub struct ForwardUi {
    pub show: bool,
    /// Opened in this frame, so that a click outside does not close it.
    pub just_opened: bool,
    /// The forward whose removal is to be confirmed.
    pub confirm_del: Option<u64>,
    pub form: ForwardForm,
    /// The forward that is being changed.
    pub editing: Option<u64>,
    pub error: Option<String>,
    /// A forward that others could reach, to be confirmed.
    pub pending_open_bind: Option<ForwardSpec>,
}

impl ForwardUi {
    /// Not shown, with nothing typed.
    pub open spec fn is_closed(self) -> bool {
        &&& !self.show && !self.just_opened
        &&& self.confirm_del is None && self.editing is None && self.error is None
        &&& self.pending_open_bind is None
        &&& self.form.kind == 0
        &&& self.form.bind@ == "127.0.0.1"@
        &&& self.form.local_port@.len() == 0 && self.form.target_host@.len() == 0
            && self.form.target_port@.len() == 0
    }

    /// Not shown, with nothing typed.
    pub fn new() -> (r: ForwardUi)
        ensures
            r.is_closed(),
    {
        ForwardUi {
            show: false,
            just_opened: false,
            confirm_del: None,
            form: ForwardForm::default(),
            editing: None,
            error: None,
            pending_open_bind: None,
        }
    }
}

/// The forward that a form asks for, where it is filled in: its number is not given yet.
pub open spec fn asked_forward(f: ForwardForm) -> Option<ForwardSpecView> {
    let kind = if f.kind == 0 {
        match u16_of(trim_of(f.target_port@)) {
            Some(p) => if trim_of(f.target_host@).len() > 0 {
                Some(
                    ForwardKindView::Local {
                        remote_host: trim_of(f.target_host@),
                        remote_port: p,
                    },
                )
            } else {
                None
            },
            None => None,
        }
    } else {
        Some(ForwardKindView::Dynamic)
    };
    match u16_of(trim_of(f.local_port@)) {
        Some(p) => match kind {
            Some(kind) => Some(
                ForwardSpecView {
                    id: 0,
                    bind_host: if trim_of(f.bind@).len() == 0 {
                        "127.0.0.1"@
                    } else {
                        trim_of(f.bind@)
                    },
                    bind_port: p,
                    kind,
                },
            ),
            None => None,
        },
        None => None,
    }
}

impl ForwardForm {
    /// The forward that the form asks for.
    pub fn asked(&self) -> (r: Option<ForwardSpec>)
        ensures
            match r {
                Some(s) => asked_forward(*self) == Some(s@),
                None => asked_forward(*self) is None,
            },
    {
        let bind_port: u16 = match parse_u16(trim(self.local_port.as_str())) {
            Some(p) => p,
            None => {
                return None;
            },
        };
        let kind = if self.kind == 0 {
            let host = trim(self.target_host.as_str());
            match parse_u16(trim(self.target_port.as_str())) {
                Some(p) => {
                    if host.unicode_len() == 0 {
                        return None;
                    }
                    ForwardKind::Local { remote_host: host.to_owned(), remote_port: p }
                },
                None => {
                    return None;
                },
            }
        } else {
            ForwardKind::Dynamic
        };
        let bind = trim(self.bind.as_str());
        let bind_host = if bind.unicode_len() == 0 {
            "127.0.0.1".to_owned()
        } else {
            bind.to_owned()
        };
        Some(ForwardSpec { id: 0, bind_host, bind_port, kind })
    }

    /// Empties what was typed of the forward itself.
    fn clear(&mut self)
        ensures
            form_cleared(*old(self), *final(self)),
    {
        self.local_port = String::new();
        self.target_host = String::new();
        self.target_port = String::new();
    }
}

/// A form without what was typed of the forward itself.
pub open spec fn form_cleared(before: ForwardForm, after: ForwardForm) -> bool {
    &&& after.local_port@.len() == 0 && after.target_host@.len() == 0 && after.target_port@.len()
        == 0
    &&& after == (ForwardForm {
        local_port: after.local_port,
        target_host: after.target_host,
        target_port: after.target_port,
        ..before
    })
}

/// A form that shows a forward.
pub open spec fn form_shows(form: ForwardForm, f: ForwardEntry) -> bool {
    &&& form.bind@ == f.bind_host@
    &&& form.local_port@ == decimal(f.bind_port as nat)
    &&& match f.kind@ {
        ForwardKindView::Local { remote_host, remote_port } => {
            &&& form.kind == 0
            &&& form.target_host@ == remote_host
            &&& form.target_port@ == decimal(remote_port as nat)
        },
        ForwardKindView::Dynamic => {
            &&& form.kind == 1
            &&& form.target_host@.len() == 0
            &&& form.target_port@.len() == 0
        },
    }
}

/// The window after a removal was asked for, confirmed or withdrawn.
pub open spec fn removal_asked(
    f: ForwardUi,
    arm: Option<u64>,
    cancel: bool,
    remove: Option<u64>,
) -> ForwardUi {
    ForwardUi {
        confirm_del: if cancel || remove is Some {
            None
        } else if arm is Some {
            arm
        } else {
            f.confirm_del
        },
        ..f
    }
}

/// The window at the end of a frame: closed by its button, or by a click outside in any frame but
/// the one it was opened in.
pub open spec fn window_kept(f: ForwardUi, close: bool, outside: bool) -> ForwardUi {
    if close || (outside && !f.just_opened) {
        ForwardUi {
            show: false,
            confirm_del: None,
            editing: None,
            error: None,
            just_opened: false,
            ..f
        }
    } else {
        ForwardUi { just_opened: false, ..f }
    }
}

/// The window after a change was given up.
pub open spec fn edit_cancelled(before: ForwardUi, after: ForwardUi) -> bool {
    &&& form_cleared(before.form, after.form)
    &&& after == (ForwardUi {
        editing: None,
        error: None,
        form: after.form,
        just_opened: true,
        ..before
    })
}

/// The window after a forward was picked to be changed.
pub open spec fn edit_started(
    before: ForwardUi,
    after: ForwardUi,
    fs: Seq<ForwardEntry>,
    id: u64,
) -> bool {
    match forward_pos(fs, id) {
        Some(i) => {
            &&& form_shows(after.form, fs[i])
            &&& after == (ForwardUi {
                form: after.form,
                editing: Some(id),
                error: None,
                just_opened: true,
                ..before
            })
        },
        None => after == (ForwardUi { just_opened: true, ..before }),
    }
}

/// Whether a forward takes the same local address.
pub open spec fn same_address(f: ForwardEntry, spec: ForwardSpecView) -> bool {
    f.bind_port == spec.bind_port && f.bind_host@ == spec.bind_host
}

/// Whether another forward of the list, but the one that is changed, takes the same local address.
pub open spec fn is_duplicate(
    fs: Seq<ForwardEntry>,
    spec: ForwardSpecView,
    editing: Option<u64>,
) -> bool {
    exists|i: int|
        0 <= i < fs.len() && #[trigger] same_address(fs[i], spec) && Some(fs[i].id) != editing
}

/// Whether the forward that is changed keeps its local address: then it is itself what listens
/// there.
pub open spec fn keeps_address(
    fs: Seq<ForwardEntry>,
    spec: ForwardSpecView,
    editing: Option<u64>,
) -> bool {
    match editing {
        Some(id) => match forward_pos(fs, id) {
            Some(i) => same_address(fs[i], spec),
            None => false,
        },
        None => false,
    }
}

/// What the form says of a port that is taken.
pub open spec fn port_taken_text(lang: Lang, port: u16) -> Seq<char> {
    match lang {
        Lang::Zh => "本地端口 "@ + decimal(port as nat) + " 已被占用"@,
        Lang::En => "Local port "@ + decimal(port as nat) + " is already in use"@,
    }
}

/// What a forward is called in the list.
pub open spec fn forward_label(spec: ForwardSpecView) -> Seq<char> {
    match spec.kind {
        ForwardKindView::Local { remote_host, remote_port } => spec.bind_host + ":"@ + decimal(
            spec.bind_port as nat,
        ) + " → "@ + remote_host + ":"@ + decimal(remote_port as nat),
        ForwardKindView::Dynamic => "SOCKS5 "@ + spec.bind_host + ":"@ + decimal(
            spec.bind_port as nat,
        ),
    }
}

/// A list without a forward.
pub open spec fn without_forward(fs: Seq<ForwardEntry>, id: u64) -> Seq<ForwardEntry> {
    fs.filter(|f: ForwardEntry| f.id != id)
}

/// A session after a forward was taken off its list.
pub open spec fn forward_removed(before: Session, after: Session, id: u64) -> bool {
    &&& after.forwards@ == without_forward(before.forwards@, id)
    &&& after.link.sends(before.link, CommandView::RemoveForward(id))
    &&& after == (Session { forwards: after.forwards, link: after.link, ..before })
}

/// A session after a forward was added to its list.
pub open spec fn forward_added(
    before: Session,
    after: Session,
    spec: ForwardSpecView,
    lang: Lang,
) -> bool {
    let id = before.next_forward;
    let f = after.forwards@.last();
    &&& after.next_forward == id + 1
    &&& after.forwards@.len() == before.forwards@.len() + 1
    &&& after.forwards@.drop_last() == before.forwards@
    &&& f.id == id
    &&& f.label@ == forward_label(spec)
    &&& f.status@ == tr_of(lang, "启动中 …"@, "Starting …"@)
    &&& f.ok
    &&& f.bind_host@ == spec.bind_host
    &&& f.bind_port == spec.bind_port
    &&& f.kind@ == spec.kind
    &&& after.link.sends(
        before.link,
        CommandView::AddForward(ForwardSpecView { id, ..spec }),
    )
    &&& after == (Session {
        forwards: after.forwards,
        next_forward: after.next_forward,
        link: after.link,
        ..before
    })
}

/// A session after a forward was added, or took the place of the one that was changed.
pub open spec fn forward_replaced(
    before: Session,
    after: Session,
    spec: ForwardSpecView,
    editing: Option<u64>,
    lang: Lang,
) -> bool {
    match editing {
        Some(old) => exists|mid: Session| #[trigger]
            forward_removed(before, mid, old) && forward_added(mid, after, spec, lang),
        None => forward_added(before, after, spec, lang),
    }
}

/// The program after a forward was added or changed.
pub open spec fn forward_committed(
    before: App,
    after: App,
    idx: int,
    spec: ForwardSpecView,
    editing: Option<u64>,
) -> bool {
    &&& after.sessions@ == before.sessions@.update(idx, after.sessions@[idx])
    &&& forward_replaced(
        before.sessions@[idx],
        after.sessions@[idx],
        spec,
        editing,
        before.lang,
    )
    &&& form_cleared(before.fwd.form, after.fwd.form)
    &&& after == (App {
        sessions: after.sessions,
        fwd: ForwardUi {
            editing: None,
            error: None,
            pending_open_bind: None,
            form: after.fwd.form,
            just_opened: true,
            ..before.fwd
        },
        ..before
    })
}

/// What a submitted form does: a taken address is refused, one that others could reach is asked
/// about, and else the forward is set up.
pub open spec fn forward_submitted(
    before: App,
    after: App,
    idx: int,
    spec: ForwardSpecView,
    port_in_use: bool,
) -> bool {
    let fs = before.sessions@[idx].forwards@;
    let editing = before.fwd.editing;
    if is_duplicate(fs, spec, editing) || (!keeps_address(fs, spec, editing) && port_in_use) {
        &&& after.fwd.error is Some
        &&& after.fwd.error->0@ == port_taken_text(before.lang, spec.bind_port)
        &&& after == (App {
            fwd: ForwardUi { error: after.fwd.error, just_opened: true, ..before.fwd },
            ..before
        })
    } else if !is_loopback(spec.bind_host) {
        &&& after.fwd.pending_open_bind is Some
        &&& after.fwd.pending_open_bind->0@ == spec
        &&& after == (App {
            fwd: ForwardUi {
                pending_open_bind: after.fwd.pending_open_bind,
                just_opened: true,
                ..before.fwd
            },
            ..before
        })
    } else {
        forward_committed(before, after, idx, spec, editing)
    }
}

/// What the answer to an address that others could reach does.
pub open spec fn open_bind_answered(
    before: App,
    after: App,
    idx: int,
    accept: bool,
    reject: bool,
) -> bool {
    match before.fwd.pending_open_bind {
        Some(spec) => if accept {
            forward_committed(before, after, idx, spec@, before.fwd.editing)
        } else if reject {
            after == (App { fwd: ForwardUi { pending_open_bind: None, ..before.fwd }, ..before })
        } else {
            after == before
        },
        None => after == before,
    }
}

fn drop_forward(fs: &mut Vec<ForwardEntry>, id: u64)
    ensures
        final(fs)@ == without_forward(old(fs)@, id),
{
    let ghost keep = |f: ForwardEntry| f.id != id;
    let ghost all = fs@;
    let ghost mut k: int = 0;
    let mut i: usize = 0;
    proof {
        reveal(Seq::filter);
        assert(all.take(0).filter(keep) + all.skip(0) =~= all);
    }
    while i < fs.len()
        invariant
            keep == (|f: ForwardEntry| f.id != id),
            0 <= k <= all.len(),
            i == all.take(k).filter(keep).len(),
            fs@ == all.take(k).filter(keep) + all.skip(k),
        decreases all.len() - k,
    {
        let ghost kept = all.take(k).filter(keep);
        proof {
            reveal(Seq::filter);
            assert(all.take(k + 1).drop_last() =~= all.take(k));
            assert(all.take(k + 1).last() == all[k]);
            assert(fs@[i as int] == all[k]);
        }
        if fs[i].id == id {
            let _ = fs.remove(i);
            assert(fs@ =~= kept + all.skip(k + 1));
        } else {
            assert(kept.push(all[k]) + all.skip(k + 1) =~= kept + all.skip(k));
            i = i + 1;
        }
        proof {
            k = k + 1;
        }
    }
    proof {
        assert(fs@.len() == all.take(k).filter(keep).len() + (all.len() - k));
        assert(all.take(k) =~= all);
        assert(all.filter(keep) + all.skip(k) =~= all.filter(keep));
    }
}

impl Session {
    /// Takes a forward off the list.
    pub fn remove_forward(&mut self, id: u64)
        ensures
            forward_removed(*old(self), *final(self), id),
    {
        drop_forward(&mut self.forwards, id);
        let _ = self.link.send(UiCommand::RemoveForward(id));
    }

    /// Adds a forward to the list.
    pub(crate) fn add_forward(&mut self, spec: ForwardSpec, lang: Lang)
        requires
            old(self).next_forward < u64::MAX,
        ensures
            forward_added(*old(self), *final(self), spec@, lang),
    {
        let id: u64 = self.next_forward;
        self.next_forward = id + 1;
        let label = match &spec.kind {
            ForwardKind::Local { remote_host, remote_port } => {
                let mut s = spec.bind_host.clone();
                s.append(":");
                push_decimal(&mut s, spec.bind_port as u64);
                s.append(" → ");
                s.append(remote_host.as_str());
                s.append(":");
                push_decimal(&mut s, *remote_port as u64);
                s
            },
            ForwardKind::Dynamic => {
                let mut s = "SOCKS5 ".to_owned();
                s.append(spec.bind_host.as_str());
                s.append(":");
                push_decimal(&mut s, spec.bind_port as u64);
                s
            },
        };
        self.forwards.push(
            ForwardEntry {
                id,
                label,
                status: tr(lang, "启动中 …", "Starting …").to_owned(),
                ok: true,
                bind_host: spec.bind_host.clone(),
                bind_port: spec.bind_port,
                kind: spec.kind.copy(),
            },
        );
        let mut spec = spec;
        spec.id = id;
        let _ = self.link.send(UiCommand::AddForward(spec));
        assert(self.forwards@.drop_last() =~= old(self).forwards@);
    }
}

impl App {
    /// Adds a forward to a session, or puts it in the place of the one that is changed.
    pub fn commit_forward(&mut self, idx: usize, spec: ForwardSpec, editing: Option<u64>)
        requires
            idx < old(self).sessions@.len(),
            old(self).sessions@[idx as int].next_forward < u64::MAX,
        ensures
            forward_committed(*old(self), *final(self), idx as int, spec@, editing),
            same_uids(old(self).sessions@, final(self).sessions@),
            old(self).wf() ==> final(self).wf(),
    {
        let lang = self.lang;
        let ghost s0 = self.sessions@;
        match editing {
            Some(old_id) => {
                self.sessions[idx].remove_forward(old_id);
                let ghost mid = self.sessions@[idx as int];
                self.sessions[idx].add_forward(spec, lang);
                assert(forward_removed(s0[idx as int], mid, old_id) && forward_added(
                    mid,
                    self.sessions@[idx as int],
                    spec@,
                    lang,
                ));
            },
            None => {
                self.sessions[idx].add_forward(spec, lang);
            },
        }
        assert(self.sessions@ =~= s0.update(idx as int, self.sessions@[idx as int]));
        self.fwd.editing = None;
        self.fwd.error = None;
        self.fwd.pending_open_bind = None;
        self.fwd.form.clear();
        self.fwd.just_opened = true;
        proof {
            if old(self).wf() {
                lemma_wf_kept(*old(self), *self);
            }
        }
    }

    fn duplicate_forward(&self, idx: usize, spec: &ForwardSpec) -> (r: bool)
        requires
            idx < self.sessions@.len(),
        ensures
            r == is_duplicate(self.sessions@[idx as int].forwards@, spec@, self.fwd.editing),
    {
        let fs = &self.sessions[idx].forwards;
        let mut i: usize = 0;
        while i < fs.len()
            invariant
                fs == self.sessions@[idx as int].forwards,
                i <= fs@.len(),
                forall|k: int|
                    0 <= k < i ==> !(#[trigger] same_address(fs@[k], spec@) && Some(fs@[k].id)
                        != self.fwd.editing),
            decreases fs@.len() - i,
        {
            let edited: bool = match self.fwd.editing {
                Some(id) => id == fs[i].id,
                None => false,
            };
            if fs[i].bind_port == spec.bind_port && same(
                fs[i].bind_host.as_str(),
                spec.bind_host.as_str(),
            ) && !edited {
                assert(same_address(fs@[i as int], spec@));
                return true;
            }
            i = i + 1;
        }
        false
    }

    /// Whether the local address of a forward has to be tried before it is set up: not where the
    /// list already has it, and not where the forward that is changed listens there itself.
    pub fn needs_port_probe(&self, idx: usize, spec: &ForwardSpec) -> (r: bool)
        requires
            idx < self.sessions@.len(),
        ensures
            r == !(is_duplicate(self.sessions@[idx as int].forwards@, spec@, self.fwd.editing)
                || keeps_address(self.sessions@[idx as int].forwards@, spec@, self.fwd.editing)),
    {
        !self.duplicate_forward(idx, spec) && !self.address_kept(idx, spec)
    }

    fn address_kept(&self, idx: usize, spec: &ForwardSpec) -> (r: bool)
        requires
            idx < self.sessions@.len(),
        ensures
            r == keeps_address(self.sessions@[idx as int].forwards@, spec@, self.fwd.editing),
    {
        match self.fwd.editing {
            Some(id) => match find_forward(&self.sessions[idx].forwards, id) {
                Some(i) => {
                    let f = &self.sessions[idx].forwards[i];
                    f.bind_port == spec.bind_port && same(
                        f.bind_host.as_str(),
                        spec.bind_host.as_str(),
                    )
                },
                None => false,
            },
            None => false,
        }
    }

    /// Goes on with a submitted form. `port_in_use` says whether something on this machine listens
    /// at the address.
    pub fn submit_forward(&mut self, idx: usize, spec: ForwardSpec, port_in_use: bool)
        requires
            idx < old(self).sessions@.len(),
            old(self).sessions@[idx as int].next_forward < u64::MAX,
        ensures
            forward_submitted(*old(self), *final(self), idx as int, spec@, port_in_use),
            same_uids(old(self).sessions@, final(self).sessions@),
            old(self).wf() ==> final(self).wf(),
    {
        if self.duplicate_forward(idx, &spec) || (!self.address_kept(idx, &spec) && port_in_use) {
            let text = match self.lang {
                Lang::Zh => {
                    let mut s = "本地端口 ".to_owned();
                    push_decimal(&mut s, spec.bind_port as u64);
                    s.append(" 已被占用");
                    s
                },
                Lang::En => {
                    let mut s = "Local port ".to_owned();
                    push_decimal(&mut s, spec.bind_port as u64);
                    s.append(" is already in use");
                    s
                },
            };
            self.fwd.error = Some(text);
            self.fwd.just_opened = true;
        } else if !is_loopback_bind(spec.bind_host.as_str()) {
            self.fwd.pending_open_bind = Some(spec);
            self.fwd.just_opened = true;
        } else {
            let editing: Option<u64> = self.fwd.editing;
            self.commit_forward(idx, spec, editing);
        }
    }

    /// Goes on with the answer to an address that others could reach.
    pub fn answer_open_bind(&mut self, idx: usize, accept: bool, reject: bool)
        requires
            idx < old(self).sessions@.len(),
            old(self).sessions@[idx as int].next_forward < u64::MAX,
        ensures
            open_bind_answered(*old(self), *final(self), idx as int, accept, reject),
            same_uids(old(self).sessions@, final(self).sessions@),
            final(self).active == old(self).active,
            final(self).next_uid == old(self).next_uid,
            old(self).wf() ==> final(self).wf(),
    {
        if self.fwd.pending_open_bind.is_none() {
            return;
        }
        if accept {
            match self.fwd.pending_open_bind.take() {
                Some(spec) => {
                    let editing: Option<u64> = self.fwd.editing;
                    self.commit_forward(idx, spec, editing);
                },
                None => {},
            }
        } else if reject {
            self.fwd.pending_open_bind = None;
        }
    }

    fn start_edit(&mut self, idx: usize, id: u64)
        requires
            idx < old(self).sessions@.len(),
        ensures
            edit_started(
                old(self).fwd,
                final(self).fwd,
                old(self).sessions@[idx as int].forwards@,
                id,
            ),
            *final(self) == (App { fwd: final(self).fwd, ..*old(self) }),
    {
        match find_forward(&self.sessions[idx].forwards, id) {
            Some(i) => {
                let f = &self.sessions[idx].forwards[i];
                self.fwd.form.bind = f.bind_host.clone();
                self.fwd.form.local_port = decimal_string(f.bind_port as u64);
                match &f.kind {
                    ForwardKind::Local { remote_host, remote_port } => {
                        self.fwd.form.kind = 0;
                        self.fwd.form.target_host = remote_host.clone();
                        self.fwd.form.target_port = decimal_string(*remote_port as u64);
                    },
                    ForwardKind::Dynamic => {
                        self.fwd.form.kind = 1;
                        self.fwd.form.target_host = String::new();
                        self.fwd.form.target_port = String::new();
                    },
                }
                self.fwd.editing = Some(id);
                self.fwd.error = None;
            },
            None => {},
        }
        self.fwd.just_opened = true;
    }
}

/// What was clicked in the window of the forwards in one frame.
pub struct ForwardClicks {
    /// The bin of a forward.
    pub arm_del: Option<u64>,
    pub cancel_del: bool,
    /// A removal that was confirmed.
    pub remove: Option<u64>,
    /// The pencil of a forward.
    pub edit: Option<u64>,
    pub cancel_edit: bool,
    /// The button that adds or saves.
    pub submit: bool,
    /// The answers to an address that others could reach.
    pub accept_open: bool,
    pub reject_open: bool,
    pub close: bool,
    pub outside: bool,
}

/// What the clicks do to the window itself.
pub open spec fn flags_step(before: App, after: App, clicks: ForwardClicks) -> bool {
    after == (App {
        fwd: window_kept(
            removal_asked(before.fwd, clicks.arm_del, clicks.cancel_del, clicks.remove),
            clicks.close,
            clicks.outside,
        ),
        ..before
    })
}

/// What a change that is given up does.
pub open spec fn cancel_step(before: App, after: App, clicks: ForwardClicks) -> bool {
    if clicks.cancel_edit {
        &&& edit_cancelled(before.fwd, after.fwd)
        &&& after == (App { fwd: after.fwd, ..before })
    } else {
        after == before
    }
}

/// What the pencil of a forward does.
pub open spec fn edit_step(before: App, after: App, idx: int, clicks: ForwardClicks) -> bool {
    match clicks.edit {
        Some(id) => {
            &&& edit_started(before.fwd, after.fwd, before.sessions@[idx].forwards@, id)
            &&& after == (App { fwd: after.fwd, ..before })
        },
        None => after == before,
    }
}

/// What the button of the form does.
pub open spec fn submit_step(
    before: App,
    after: App,
    idx: int,
    asked: Option<ForwardSpecView>,
    port_in_use: bool,
) -> bool {
    match asked {
        Some(spec) => forward_submitted(before, after, idx, spec, port_in_use),
        None => after == before,
    }
}

/// What a confirmed removal does.
pub open spec fn remove_step(before: App, after: App, idx: int, clicks: ForwardClicks) -> bool {
    match clicks.remove {
        Some(id) => {
            &&& after.sessions@ == before.sessions@.update(idx, after.sessions@[idx])
            &&& forward_removed(before.sessions@[idx], after.sessions@[idx], id)
            &&& after == (App { sessions: after.sessions, ..before })
        },
        None => after == before,
    }
}

/// The states of one frame of the window, in order: its own flags, the end of a change, the start
/// of one, the form as it was typed, the question, and a removal.
pub open spec fn forward_frames(
    states: Seq<App>,
    idx: int,
    clicks: ForwardClicks,
    port_in_use: bool,
) -> bool {
    let asked = if clicks.submit {
        asked_forward(states[0].fwd.form)
    } else {
        None
    };
    &&& states.len() == 7
    &&& flags_step(states[0], states[1], clicks)
    &&& cancel_step(states[1], states[2], clicks)
    &&& edit_step(states[2], states[3], idx, clicks)
    &&& submit_step(states[3], states[4], idx, asked, port_in_use)
    &&& open_bind_answered(states[4], states[5], idx, clicks.accept_open, clicks.reject_open)
    &&& remove_step(states[5], states[6], idx, clicks)
}

/// The session whose forwards are shown.
pub open spec fn shown(app: App) -> Option<int> {
    match app.active {
        Some(i) => if i < app.sessions@.len() {
            Some(i as int)
        } else {
            None
        },
        None => None,
    }
}

/// What one frame of the window of the forwards does.
pub open spec fn forward_window_ok(
    before: App,
    after: App,
    clicks: ForwardClicks,
    port_in_use: bool,
) -> bool {
    if !before.fwd.show {
        after == before
    } else {
        match shown(before) {
            None => flags_step(before, after, clicks),
            Some(idx) => exists|states: Seq<App>|
                {
                    &&& #[trigger] forward_frames(states, idx, clicks, port_in_use)
                    &&& states[0] == before
                    &&& states[6] == after
                },
        }
    }
}

impl App {
    fn set_flags(&mut self, clicks: &ForwardClicks)
        ensures
            flags_step(*old(self), *final(self), *clicks),
    {
        match clicks.arm_del {
            Some(id) => {
                self.fwd.confirm_del = Some(id);
            },
            None => {},
        }
        if clicks.cancel_del || clicks.remove.is_some() {
            self.fwd.confirm_del = None;
        }
        if clicks.close || (clicks.outside && !self.fwd.just_opened) {
            self.fwd.show = false;
            self.fwd.confirm_del = None;
            self.fwd.editing = None;
            self.fwd.error = None;
        }
        self.fwd.just_opened = false;
    }

    fn change_edit(&mut self, idx: usize, clicks: &ForwardClicks)
        requires
            idx < old(self).sessions@.len(),
        ensures
            exists|mid: App| #[trigger]
                cancel_step(*old(self), mid, *clicks) && edit_step(
                    mid,
                    *final(self),
                    idx as int,
                    *clicks,
                ),
            *final(self) == (App { fwd: final(self).fwd, ..*old(self) }),
    {
        if clicks.cancel_edit {
            self.fwd.editing = None;
            self.fwd.error = None;
            self.fwd.form.clear();
            self.fwd.just_opened = true;
        }
        let ghost mid = *self;
        match clicks.edit {
            Some(id) => {
                self.start_edit(idx, id);
            },
            None => {},
        }
        assert(cancel_step(*old(self), mid, *clicks) && edit_step(
            mid,
            *self,
            idx as int,
            *clicks,
        ));
    }

    fn take_form(&mut self, idx: usize, asked: Option<ForwardSpec>, port_in_use: bool)
        requires
            idx < old(self).sessions@.len(),
            old(self).sessions@[idx as int].next_forward < u64::MAX,
        ensures
            submit_step(
                *old(self),
                *final(self),
                idx as int,
                match asked {
                    Some(s) => Some(s@),
                    None => None,
                },
                port_in_use,
            ),
            same_uids(old(self).sessions@, final(self).sessions@),
            final(self).sessions@[idx as int].next_forward
                <= old(self).sessions@[idx as int].next_forward + 1,
            final(self).active == old(self).active,
            final(self).next_uid == old(self).next_uid,
    {
        match asked {
            Some(spec) => {
                self.submit_forward(idx, spec, port_in_use);
            },
            None => {},
        }
    }

    fn take_removal(&mut self, idx: usize, clicks: &ForwardClicks)
        requires
            idx < old(self).sessions@.len(),
        ensures
            remove_step(*old(self), *final(self), idx as int, *clicks),
            same_uids(old(self).sessions@, final(self).sessions@),
            final(self).active == old(self).active,
            final(self).next_uid == old(self).next_uid,
    {
        match clicks.remove {
            Some(id) => {
                self.sessions[idx].remove_forward(id);
                assert(self.sessions@ =~= old(self).sessions@.update(
                    idx as int,
                    self.sessions@[idx as int],
                ));
            },
            None => {},
        }
    }

    /// One frame of the window of the forwards.
    pub fn forward_window(&mut self, clicks: &ForwardClicks, port_in_use: bool)
        requires
            shown(*old(self)) is Some ==> old(self).sessions@[shown(*old(self))->0].next_forward
                < u64::MAX - 1,
        ensures
            forward_window_ok(*old(self), *final(self), *clicks, port_in_use),
            old(self).wf() ==> final(self).wf(),
    {
        if !self.fwd.show {
            return;
        }
        let ghost a0 = *self;
        let asked: Option<ForwardSpec> = if clicks.submit {
            self.fwd.form.asked()
        } else {
            None
        };
        self.set_flags(clicks);
        let ghost a1 = *self;
        let idx: usize = match self.active {
            Some(i) => {
                if i >= self.sessions.len() {
                    return;
                }
                i
            },
            None => {
                return;
            },
        };
        self.change_edit(idx, clicks);
        let ghost a2 = choose|mid: App| #[trigger]
            cancel_step(a1, mid, *clicks) && edit_step(mid, *self, idx as int, *clicks);
        let ghost a3 = *self;
        self.take_form(idx, asked, port_in_use);
        let ghost a4 = *self;
        self.answer_open_bind(idx, clicks.accept_open, clicks.reject_open);
        let ghost a5 = *self;
        self.take_removal(idx, clicks);
        proof {
            let states = seq![a0, a1, a2, a3, a4, a5, *self];
            assert(forward_frames(states, idx as int, *clicks, port_in_use));
            if a0.wf() {
                assert(a1.sessions@ == a0.sessions@ && a3.sessions@ == a0.sessions@);
                assert forall|i: int| 0 <= i < a0.sessions@.len() implies (
                #[trigger] self.sessions@[i]).uid == a0.sessions@[i].uid by {
                    assert(a4.sessions@[i].uid == a3.sessions@[i].uid);
                    assert(a5.sessions@[i].uid == a4.sessions@[i].uid);
                }
                lemma_wf_kept(a0, *self);
            }
        }
    }
}

/// No two forwards of a list take the same local address.
pub open spec fn distinct_addresses(fs: Seq<ForwardEntry>) -> bool {
    forall|i: int, j: int|
        0 <= i < j < fs.len() ==> !((#[trigger] fs[i]).bind_port == (#[trigger] fs[j]).bind_port
            && fs[i].bind_host@ == fs[j].bind_host@)
}

pub(crate) proof fn lemma_filtered(fs: Seq<ForwardEntry>, id: u64)
    ensures
        forall|j: int|
            0 <= j < without_forward(fs, id).len() ==> exists|i: int|
                0 <= i < fs.len() && fs[i] == #[trigger] without_forward(fs, id)[j]
                    && fs[i].id != id,
        distinct_addresses(fs) ==> distinct_addresses(without_forward(fs, id)),
    decreases fs.len(),
{
    reveal(Seq::filter);
    let kept = without_forward(fs, id);
    if fs.len() > 0 {
        let fewer = fs.drop_last();
        lemma_filtered(fewer, id);
        let rest = without_forward(fewer, id);
        assert forall|j: int| 0 <= j < kept.len() implies exists|i: int|
            0 <= i < fs.len() && fs[i] == #[trigger] kept[j] && fs[i].id != id by {
            if j < rest.len() {
                let i = choose|i: int|
                    0 <= i < fewer.len() && fewer[i] == rest[j] && fewer[i].id != id;
                assert(fs[i] == kept[j]);
            } else {
                assert(fs[fs.len() - 1] == kept[j]);
            }
        }
        if distinct_addresses(fs) {
            assert(distinct_addresses(fewer)) by {
                assert forall|i: int, j: int| 0 <= i < j < fewer.len() implies !((
                #[trigger] fewer[i]).bind_port == (#[trigger] fewer[j]).bind_port
                    && fewer[i].bind_host@ == fewer[j].bind_host@) by {
                    assert(fewer[i] == fs[i] && fewer[j] == fs[j]);
                }
            }
            assert forall|a: int, b: int| 0 <= a < b < kept.len() implies !((
            #[trigger] kept[a]).bind_port == (#[trigger] kept[b]).bind_port
                && kept[a].bind_host@ == kept[b].bind_host@) by {
                if b < rest.len() {
                    assert(rest[a] == kept[a] && rest[b] == kept[b]);
                } else {
                    assert(rest[a] == kept[a]);
                    let i = choose|i: int|
                        0 <= i < fewer.len() && fewer[i] == rest[a] && fewer[i].id != id;
                    assert(fs[i] == kept[a]);
                    assert(kept[b] == fs[fs.len() - 1]);
                }
            }
        }
    }
}

/// A form whose address no other forward takes keeps the local addresses of a session's forwards
/// apart, whether it adds a forward or changes one.
pub proof fn forwards_stay_apart(
    before: Session,
    after: Session,
    spec: ForwardSpecView,
    editing: Option<u64>,
    lang: Lang,
)
    requires
        distinct_addresses(before.forwards@),
        !is_duplicate(before.forwards@, spec, editing),
        forward_replaced(before, after, spec, editing, lang),
    ensures
        distinct_addresses(after.forwards@),
{
    let fs = before.forwards@;
    let mid: Session = match editing {
        Some(old) => choose|mid: Session| #[trigger]
            forward_removed(before, mid, old) && forward_added(mid, after, spec, lang),
        None => before,
    };
    let ms = mid.forwards@;
    assert(forward_added(mid, after, spec, lang));
    match editing {
        Some(old) => {
            lemma_filtered(fs, old);
        },
        None => {},
    }
    assert(distinct_addresses(ms));
    let now = after.forwards@;
    assert forall|i: int, j: int| 0 <= i < j < now.len() implies !((#[trigger] now[i]).bind_port == (
    #[trigger] now[j]).bind_port && now[i].bind_host@ == now[j].bind_host@) by {
        assert(now.drop_last()[i] == now[i]);
        if j < ms.len() {
            assert(now.drop_last()[j] == now[j]);
        } else {
            assert(now[j] == now.last());
            match editing {
                Some(old) => {
                    let k = choose|k: int| 0 <= k < fs.len() && fs[k] == ms[i] && fs[k].id != old;
                    assert(ms[i] == without_forward(fs, old)[i]);
                    assert(fs[k] == ms[i]);
                    assert(same_address(fs[k], spec) ==> is_duplicate(fs, spec, editing));
                },
                None => {
                    assert(same_address(fs[i], spec) ==> is_duplicate(fs, spec, editing));
                },
            }
        }
    }
}

} // verus!
