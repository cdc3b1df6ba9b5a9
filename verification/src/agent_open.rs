//! Requests that bind an agent to this window, open sessions for it and close them again, and the
//! user's answers to the questions that they raise.
use vstd::prelude::*;
use vstd::string::*;

use crate::agent_calls::{
    grant, info_of, not_found, refuse, refused, session_info, Moment, CONSENT_MS,
};
use crate::app::{uid_pos, App, PendingBindConsent, PendingOpenConsent};
use crate::proto::CommandView;
use crate::protocol::{
    answer, refusal, reply_views, saved_views, Reply, ReqResult, ResultView, SavedConn,
    SavedConnView, Waiter,
};
use crate::runs::CLOCK_LIMIT_MS;
use crate::saved::{config_of, connect_config_from_saved, open_refusal, SavedConnection};
use crate::session::Session;
use crate::tabs::{active_after_close, is_new_session};
use crate::text::{clone_opt, opt_view, same, same_opt, views};

verus! {

pub const BIND_BUSY: &'static str = "已有另一个 AI 客户端正在等待用户选择窗口，请稍候重试";

pub const BIND_REFUSED: &'static str = "用户在这个 iShell 窗口上拒绝了绑定请求";

pub const OPEN_BUSY: &'static str = "已有一个请求正在等待用户确认，请稍候重试";

pub const OPEN_REFUSED: &'static str = "用户拒绝了这次连接请求";

pub const NO_SAVED_1: &'static str = "未找到名为 “";

pub const NO_SAVED_2: &'static str = "” 的已保存连接";

pub const CLOSE_NOT_AI: &'static str = "这不是 AI 自己开的会话，不能通过这个工具关闭";

pub const CLOSE_OTHER_1: &'static str = "这是另一个 AI（";

pub const CLOSE_OTHER_2: &'static str = "）开的会话，只能由它自己关闭";

pub const CLOSE_NOT_YOURS: &'static str = "这不是你这个 AI 开的会话，不能关闭";

/// The first saved connection with this name.
pub open spec fn saved_pos(saved: Seq<SavedConnection>, name: Seq<char>) -> Option<int>
    decreases saved.len(),
{
    if saved.len() == 0 {
        None
    } else {
        match saved_pos(saved.drop_last(), name) {
            Some(i) => Some(i),
            None => if saved.last().name@ == name {
                Some(saved.len() - 1)
            } else {
                None
            },
        }
    }
}

proof fn lemma_saved_pos(saved: Seq<SavedConnection>, name: Seq<char>)
    ensures
        match saved_pos(saved, name) {
            Some(i) => 0 <= i < saved.len() && saved[i].name@ == name && forall|j: int|
                0 <= j < i ==> (#[trigger] saved[j]).name@ != name,
            None => forall|j: int| 0 <= j < saved.len() ==> (#[trigger] saved[j]).name@ != name,
        },
    decreases saved.len(),
{
    if saved.len() > 0 {
        lemma_saved_pos(saved.drop_last(), name);
        assert(forall|j: int| 0 <= j < saved.len() - 1 ==> saved.drop_last()[j] == saved[j]);
    }
}

fn find_saved(saved: &Vec<SavedConnection>, name: &str) -> (r: Option<usize>)
    ensures
        match r {
            Some(i) => saved_pos(saved@, name@) == Some(i as int) && i < saved@.len(),
            None => saved_pos(saved@, name@) is None,
        },
{
    proof {
        lemma_saved_pos(saved@, name@);
    }
    let mut i: usize = 0;
    while i < saved.len()
        invariant
            i <= saved@.len(),
            forall|j: int| 0 <= j < i ==> (#[trigger] saved@[j]).name@ != name@,
            match saved_pos(saved@, name@) {
                Some(k) => 0 <= k < saved@.len() && saved@[k].name@ == name@ && forall|j: int|
                    0 <= j < k ==> (#[trigger] saved@[j]).name@ != name@,
                None => forall|j: int|
                    0 <= j < saved@.len() ==> (#[trigger] saved@[j]).name@ != name@,
            },
        decreases saved@.len() - i,
    {
        if same(saved[i].name.as_str(), name) {
            return Some(i);
        }
        i = i + 1;
    }
    None
}

/// What an agent learns of the saved connections: nothing of how they authenticate.
pub open spec fn saved_infos(saved: Seq<SavedConnection>) -> Seq<SavedConnView> {
    Seq::new(
        saved.len(),
        |i: int|
            SavedConnView {
                name: saved[i].name@,
                host: saved[i].host@,
                username: saved[i].username@,
                port: saved[i].port,
            },
    )
}

/// Lists the saved connections for an agent.
pub fn list_saved_connections(saved: &Vec<SavedConnection>) -> (r: Vec<SavedConn>)
    ensures
        saved_views(r@) == saved_infos(saved@),
{
    let mut list: Vec<SavedConn> = Vec::new();
    let mut i: usize = 0;
    while i < saved.len()
        invariant
            i <= saved@.len(),
            list@.len() == i,
            forall|k: int| 0 <= k < i ==> (#[trigger] list@[k])@ == saved_infos(saved@)[k],
        decreases saved@.len() - i,
    {
        list.push(
            SavedConn {
                name: saved[i].name.clone(),
                host: saved[i].host.clone(),
                username: saved[i].username.clone(),
                port: saved[i].port,
            },
        );
        i = i + 1;
    }
    assert(saved_views(list@) =~= saved_infos(saved@));
    list
}

/// The names that the user let agents open, with one more.
pub open spec fn approved_with(names: Seq<Seq<char>>, name: Seq<char>) -> Seq<Seq<char>> {
    if names.contains(name) {
        names
    } else {
        names.push(name)
    }
}

fn is_approved(names: &Vec<String>, name: &str) -> (r: bool)
    ensures
        r == views(names@).contains(name@),
{
    let mut i: usize = 0;
    while i < names.len()
        invariant
            i <= names@.len(),
            forall|j: int| 0 <= j < i ==> (#[trigger] names@[j])@ != name@,
        decreases names@.len() - i,
    {
        if same(names[i].as_str(), name) {
            assert(views(names@)[i as int] == name@);
            return true;
        }
        i = i + 1;
    }
    assert(!views(names@).contains(name@)) by {
        if views(names@).contains(name@) {
            let k = choose|k: int| 0 <= k < views(names@).len() && views(names@)[k] == name@;
            assert(names@[k]@ == name@);
        }
    }
    false
}

/// A session that was opened for an agent: a new tab that belongs to it, while the tab that is
/// shown stays shown.
pub open spec fn opened_for(
    before: App,
    after: App,
    c: SavedConnection,
    owner: Option<String>,
    label: Option<String>,
) -> bool {
    let s = after.sessions@.last();
    &&& after.sessions@.len() == before.sessions@.len() + 1
    &&& after.sessions@.drop_last() == before.sessions@
    &&& s.cfg@ == config_of(c)
    &&& s.ai_owned
    &&& s.ai_owner == owner
    &&& s.ai_owner_label == label
    &&& is_new_session(
        Session { ai_owned: false, ai_owner: None, ai_owner_label: None, ..s },
        (before.next_uid + 1) as u64,
        s.cfg,
        before.lang,
    )
    &&& after == (App {
        sessions: after.sessions,
        next_uid: (before.next_uid + 1) as u64,
        scroll_to_active: true,
        show_close_confirm: false,
        ..before
    })
}

/// What opening a saved connection for an agent does.
pub open spec fn do_open_ok(
    before: App,
    after: App,
    replies: Seq<Reply>,
    c: SavedConnection,
    chan: u64,
    id: u64,
    owner: Option<String>,
    label: Option<String>,
) -> bool {
    match open_refusal(c) {
        Some(msg) => refused(before, after, replies, chan, id, msg),
        None => {
            &&& opened_for(before, after, c, owner, label)
            &&& reply_views(replies) == seq![
                answer(chan, id, ResultView::Opened(info_of(after.sessions@.last()))),
            ]
        },
    }
}

/// The state with one more name that agents may open.
pub open spec fn approves(before: App, mid: App, name: Seq<char>) -> bool {
    &&& views(mid.mcp_open_approved@) == approved_with(views(before.mcp_open_approved@), name)
    &&& mid == (App { mcp_open_approved: mid.mcp_open_approved, ..before })
}

/// What a request to open a saved connection does: it is opened where the user let agents open it
/// before or need not be asked, else the user is asked, one question at a time.
pub open spec fn open_session_ok(
    before: App,
    after: App,
    replies: Seq<Reply>,
    chan: u64,
    id: u64,
    name: Seq<char>,
    actor: Option<String>,
    origin: Option<String>,
    saved: Seq<SavedConnection>,
    m: Moment,
) -> bool {
    match saved_pos(saved, name) {
        None => refused(before, after, replies, chan, id, NO_SAVED_1@ + name + NO_SAVED_2@),
        Some(k) => if views(before.mcp_open_approved@).contains(name) || m.auto_approve {
            let mid = App { mcp_open_approved: after.mcp_open_approved, ..before };
            &&& approves(before, mid, name)
            &&& do_open_ok(mid, after, replies, saved[k], chan, id, actor, origin)
        } else if before.pending_open_consent is Some {
            refused(before, after, replies, chan, id, OPEN_BUSY@)
        } else {
            &&& replies.len() == 0
            &&& after == (App {
                pending_open_consent: Some(
                    PendingOpenConsent {
                        conn: saved[k],
                        waiter: Some(Waiter { chan, closed: false }),
                        req_id: id,
                        actor,
                        origin,
                        deadline: (m.now + CONSENT_MS) as u64,
                    },
                ),
                ..before
            })
        },
    }
}

/// What the user's answer to the question whether an agent may open a connection does.
pub open spec fn open_consent_ok(before: App, after: App, replies: Seq<Reply>, allow: bool) -> bool {
    match before.pending_open_consent {
        None => after == before && replies.len() == 0,
        Some(p) => {
            let asked = App { pending_open_consent: None, ..before };
            match p.waiter {
                None => after == asked && replies.len() == 0,
                Some(w) => if allow {
                    let mid = App { mcp_open_approved: after.mcp_open_approved, ..asked };
                    &&& approves(asked, mid, p.conn.name@)
                    &&& do_open_ok(
                        mid,
                        after,
                        replies,
                        p.conn,
                        w.chan,
                        p.req_id,
                        p.actor,
                        p.origin,
                    )
                } else {
                    after == asked && reply_views(replies) == seq![
                        refusal(w.chan, p.req_id, OPEN_REFUSED@),
                    ]
                },
            }
        },
    }
}

/// What a request to bind an agent to this window does: the user is asked, one question at a time.
pub open spec fn bind_ok(
    before: App,
    after: App,
    replies: Seq<Reply>,
    chan: u64,
    id: u64,
    origin: Option<String>,
    m: Moment,
) -> bool {
    if before.pending_bind_consent is Some {
        refused(before, after, replies, chan, id, BIND_BUSY@)
    } else {
        &&& replies.len() == 0
        &&& after == (App {
            pending_bind_consent: Some(
                PendingBindConsent {
                    waiter: Waiter { chan, closed: false },
                    req_id: id,
                    origin,
                    deadline: (m.now + CONSENT_MS) as u64,
                },
            ),
            ..before
        })
    }
}

/// Whether an agent may close a session: only one that it opened itself.
pub open spec fn can_close(s: Session, actor: Option<String>) -> bool {
    s.ai_owned && opt_view(s.ai_owner) == opt_view(actor)
}

/// What an agent that may not close a session is told.
pub open spec fn close_refusal(s: Session) -> Seq<char> {
    if !s.ai_owned {
        CLOSE_NOT_AI@
    } else {
        match s.ai_owner_label {
            Some(l) => CLOSE_OTHER_1@ + l@ + CLOSE_OTHER_2@,
            None => CLOSE_NOT_YOURS@,
        }
    }
}

/// What a request to close a session does.
pub open spec fn close_ok(
    before: App,
    after: App,
    replies: Seq<Reply>,
    chan: u64,
    id: u64,
    uid: u64,
    actor: Option<String>,
) -> bool {
    match uid_pos(before.sessions@, uid) {
        None => refused(
            before,
            after,
            replies,
            chan,
            id,
            not_found(before.sessions@, uid, actor),
        ),
        Some(i) => {
            let s = before.sessions@[i];
            let t = after.closed@.last();
            if !can_close(s, actor) {
                refused(before, after, replies, chan, id, close_refusal(s))
            } else {
                &&& reply_views(replies) == seq![answer(chan, id, ResultView::Done)]
                &&& after.sessions@ == before.sessions@.remove(i)
                &&& (match after.active {
                    Some(a) => Some(a as int),
                    None => None,
                }) == active_after_close(before.active, i, after.sessions@.len() as int)
                &&& after.closed@.len() == before.closed@.len() + 1
                &&& after.closed@.drop_last() == before.closed@
                &&& t.link.sends(s.link, CommandView::Disconnect)
                &&& t == (Session { link: t.link, ..s })
                &&& after == (App {
                    sessions: after.sessions,
                    active: after.active,
                    closed: after.closed,
                    ..before
                })
            }
        },
    }
}

impl App {
    /// Asks the user whether an agent may drive this window.
    pub fn bind(&mut self, chan: u64, id: u64, origin: &Option<String>, m: Moment) -> (replies: Vec<
        Reply,
    >)
        requires
            m.now <= CLOCK_LIMIT_MS,
        ensures
            bind_ok(*old(self), *final(self), replies@, chan, id, *origin, m),
    {
        if self.pending_bind_consent.is_some() {
            return refuse(chan, id, BIND_BUSY.to_owned());
        }
        self.pending_bind_consent = Some(
            PendingBindConsent {
                waiter: Waiter { chan, closed: false },
                req_id: id,
                origin: clone_opt(origin),
                deadline: m.now + CONSENT_MS,
            },
        );
        Vec::new()
    }

    /// Takes the user's answer to the question whether an agent may drive this window.
    pub fn resolve_bind_consent(&mut self, allow: bool) -> (replies: Vec<Reply>)
        ensures
            *final(self) == (App { pending_bind_consent: None, ..*old(self) }),
            reply_views(replies@) == (match old(self).pending_bind_consent {
                Some(p) => seq![
                    if allow {
                        answer(p.waiter.chan, p.req_id, ResultView::Done)
                    } else {
                        refusal(p.waiter.chan, p.req_id, BIND_REFUSED@)
                    },
                ],
                None => seq![],
            }),
    {
        match self.pending_bind_consent.take() {
            None => {
                let none: Vec<Reply> = Vec::new();
                assert(reply_views(none@) =~= seq![]);
                none
            },
            Some(p) => if allow {
                grant(p.waiter.chan, p.req_id, ReqResult::Done)
            } else {
                refuse(p.waiter.chan, p.req_id, BIND_REFUSED.to_owned())
            },
        }
    }

    fn approve(&mut self, name: &str)
        ensures
            approves(*old(self), *final(self), name@),
    {
        if !is_approved(&self.mcp_open_approved, name) {
            self.mcp_open_approved.push(name.to_owned());
            assert(views(self.mcp_open_approved@) =~= views(old(self).mcp_open_approved@).push(
                name@,
            ));
        }
    }

    /// Opens a saved connection for an agent, in a tab of its own that is not shown.
    pub fn do_open_session(
        &mut self,
        c: &SavedConnection,
        chan: u64,
        id: u64,
        owner: Option<String>,
        label: Option<String>,
    ) -> (replies: Vec<Reply>)
        requires
            old(self).wf(),
            old(self).next_uid < u64::MAX,
        ensures
            final(self).wf(),
            do_open_ok(*old(self), *final(self), replies@, *c, chan, id, owner, label),
    {
        let cfg = match connect_config_from_saved(c) {
            Ok(cfg) => cfg,
            Err(msg) => {
                return refuse(chan, id, msg);
            },
        };
        let shown = self.active;
        self.spawn_session(cfg);
        self.active = shown;
        let i: usize = self.sessions.len() - 1;
        let ghost fresh = self.sessions@[i as int];
        self.sessions[i].ai_owned = true;
        self.sessions[i].ai_owner = owner;
        self.sessions[i].ai_owner_label = label;
        let info = session_info(&self.sessions[i]);
        proof {
            let s = self.sessions@[i as int];
            assert(self.sessions@.last() == s);
            assert(Session { ai_owned: false, ai_owner: None, ai_owner_label: None, ..s } == fresh);
            assert(self.sessions@.drop_last() =~= old(self).sessions@);
            assert forall|a: int, b: int| 0 <= a < b < self.sessions@.len() implies (
            #[trigger] self.sessions@[a]).uid != (#[trigger] self.sessions@[b]).uid by {
                assert(self.sessions@[a] == old(self).sessions@[a]);
                if b < i {
                    assert(self.sessions@[b] == old(self).sessions@[b]);
                }
            }
            assert forall|a: int| 0 <= a < self.sessions@.len() implies (
            #[trigger] self.sessions@[a]).uid <= self.next_uid by {
                if a < i {
                    assert(self.sessions@[a] == old(self).sessions@[a]);
                }
            }
        }
        grant(chan, id, ReqResult::Opened(info))
    }

    /// Opens a saved connection for an agent, or asks the user whether it may.
    pub fn open_session(
        &mut self,
        chan: u64,
        id: u64,
        name: &str,
        actor: Option<String>,
        origin: Option<String>,
        saved: &Vec<SavedConnection>,
        m: Moment,
    ) -> (replies: Vec<Reply>)
        requires
            old(self).wf(),
            old(self).next_uid < u64::MAX,
            m.now <= CLOCK_LIMIT_MS,
        ensures
            final(self).wf(),
            open_session_ok(
                *old(self),
                *final(self),
                replies@,
                chan,
                id,
                name@,
                actor,
                origin,
                saved@,
                m,
            ),
    {
        let k: usize = match find_saved(saved, name) {
            Some(k) => k,
            None => {
                let mut msg = NO_SAVED_1.to_owned();
                msg.append(name);
                msg.append(NO_SAVED_2);
                return refuse(chan, id, msg);
            },
        };
        if is_approved(&self.mcp_open_approved, name) || m.auto_approve {
            self.approve(name);
            return self.do_open_session(&saved[k], chan, id, actor, origin);
        }
        if self.pending_open_consent.is_some() {
            return refuse(chan, id, OPEN_BUSY.to_owned());
        }
        self.pending_open_consent = Some(
            PendingOpenConsent {
                conn: saved[k].copy(),
                waiter: Some(Waiter { chan, closed: false }),
                req_id: id,
                actor,
                origin,
                deadline: m.now + CONSENT_MS,
            },
        );
        Vec::new()
    }

    /// Takes the user's answer to the question whether an agent may open a connection.
    pub fn resolve_open_consent(&mut self, allow: bool) -> (replies: Vec<Reply>)
        requires
            old(self).wf(),
            old(self).next_uid < u64::MAX,
        ensures
            final(self).wf(),
            open_consent_ok(*old(self), *final(self), replies@, allow),
    {
        match self.pending_open_consent.take() {
            None => Vec::new(),
            Some(p) => match p.waiter {
                None => Vec::new(),
                Some(w) => if allow {
                    self.approve(p.conn.name.as_str());
                    self.do_open_session(&p.conn, w.chan, p.req_id, p.actor, p.origin)
                } else {
                    refuse(w.chan, p.req_id, OPEN_REFUSED.to_owned())
                },
            },
        }
    }

    /// Closes a session for the agent that opened it.
    pub fn close_for_agent(&mut self, chan: u64, id: u64, uid: u64, actor: &Option<String>) -> (replies:
        Vec<Reply>)
        requires
            old(self).wf(),
        ensures
            final(self).wf(),
            close_ok(*old(self), *final(self), replies@, chan, id, uid, *actor),
    {
        let i: usize = match self.session_idx_by_uid(uid) {
            Some(i) => i,
            None => {
                return refuse(chan, id, self.session_not_found_msg(uid, actor));
            },
        };
        if !(self.sessions[i].ai_owned && same_opt(&self.sessions[i].ai_owner, actor)) {
            if !self.sessions[i].ai_owned {
                return refuse(chan, id, CLOSE_NOT_AI.to_owned());
            }
            match &self.sessions[i].ai_owner_label {
                Some(l) => {
                    let mut msg = CLOSE_OTHER_1.to_owned();
                    msg.append(l.as_str());
                    msg.append(CLOSE_OTHER_2);
                    return refuse(chan, id, msg);
                },
                None => {
                    return refuse(chan, id, CLOSE_NOT_YOURS.to_owned());
                },
            }
        }
        match self.close_session(i) {
            Some(s) => {
                self.closed.push(s);
                assert(self.closed@.drop_last() =~= old(self).closed@);
            },
            None => {},
        }
        grant(chan, id, ReqResult::Done)
    }
}

/// What an agent opens belongs to it and to nobody else: it passes the guard, and every other agent
/// is refused.
pub proof fn opened_session_belongs_to_its_opener(
    before: App,
    after: App,
    c: SavedConnection,
    owner: Option<String>,
    label: Option<String>,
    other: Option<String>,
)
    requires
        opened_for(before, after, c, owner, label),
    ensures
        crate::agent_calls::session_is_mine(after.sessions@.last(), other) <==> other is Some
            && opt_view(other) == opt_view(owner),
{
}

/// What the user let agents open once, they may open again: the name is kept, along with those
/// before it.
pub proof fn an_approval_stays(before: App, after: App, replies: Seq<Reply>, name: Seq<char>)
    requires
        open_consent_ok(before, after, replies, true),
    ensures
        before.pending_open_consent is Some && before.pending_open_consent->0.waiter is Some
            ==> views(after.mcp_open_approved@).contains(
            before.pending_open_consent->0.conn.name@,
        ),
        views(before.mcp_open_approved@).contains(name) ==> views(
            after.mcp_open_approved@,
        ).contains(name),
{
    if before.pending_open_consent is Some && before.pending_open_consent->0.waiter is Some {
        lemma_approved(
            views(before.mcp_open_approved@),
            before.pending_open_consent->0.conn.name@,
            name,
        );
    }
}

/// A connection that was approved once is not asked about again: a request to open it is answered
/// at once.
pub proof fn an_approved_connection_is_not_asked_about_again(
    before: App,
    after: App,
    replies: Seq<Reply>,
    chan: u64,
    id: u64,
    name: Seq<char>,
    actor: Option<String>,
    origin: Option<String>,
    saved: Seq<SavedConnection>,
    m: Moment,
)
    requires
        open_session_ok(before, after, replies, chan, id, name, actor, origin, saved, m),
        views(before.mcp_open_approved@).contains(name),
    ensures
        after.pending_open_consent == before.pending_open_consent,
        replies.len() == 1,
        views(after.mcp_open_approved@).contains(name),
{
    lemma_approved(views(before.mcp_open_approved@), name, name);
    assert(reply_views(replies).len() == replies.len());
}

proof fn lemma_approved(names: Seq<Seq<char>>, name: Seq<char>, other: Seq<char>)
    ensures
        approved_with(names, name).contains(name),
        names.contains(other) ==> approved_with(names, name).contains(other),
{
    if !names.contains(name) {
        assert(names.push(name)[names.len() as int] == name);
        if names.contains(other) {
            let k = choose|k: int| 0 <= k < names.len() && names[k] == other;
            assert(names.push(name)[k] == other);
        }
    }
}

} // verus!
