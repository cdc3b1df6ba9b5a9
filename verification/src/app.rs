//! The program's state: its tabs, and what each window and the control channel keep between two
//! frames.
use vstd::prelude::*;
use vstd::string::*;

use crate::clipboard::Transfers;
use crate::cross_copy::CrossCopyJob;
use crate::forwards::ForwardUi;
use crate::image_view::ImageView;
use crate::notices::AiNotice;
use crate::popups::Popups;
use crate::proto::{ConflictPolicy, Lang};
use crate::protocol::Waiter;
use crate::saved::SavedConnection;
use crate::session::Session;
use crate::transfer_list::XferFilter;

verus! {

/// An agent asked to open a saved connection, and the user has not answered yet.
pub struct PendingOpenConsent {
    /// The connection as it was when the agent asked.
    pub conn: SavedConnection,
    pub waiter: Option<Waiter>,
    pub req_id: u64,
    pub actor: Option<String>,
    pub origin: Option<String>,
    /// When the question is withdrawn, in milliseconds.
    pub deadline: u64,
}

/// An agent asked to be bound to this window, and the user has not answered yet.
pub struct PendingBindConsent {
    pub waiter: Waiter,
    pub req_id: u64,
    pub origin: Option<String>,
    /// When the question is withdrawn, in milliseconds.
    pub deadline: u64,
}

/// The state of the program.
pub struct App {
    pub lang: Lang,
    pub sessions: Vec<Session>,
    /// Sessions that were closed and whose workers still have to be told.
    pub closed: Vec<Session>,
    /// The tab that is shown.
    pub active: Option<usize>,
    /// The uid that was given out last.
    pub next_uid: u64,
    /// Whether the tab bar is to scroll to the active tab.
    pub scroll_to_active: bool,
    /// Whether the user is asked to confirm leaving.
    pub show_close_confirm: bool,
    /// A notice to show over everything.
    pub toast: Option<String>,
    pub pending_open_consent: Option<PendingOpenConsent>,
    pub pending_bind_consent: Option<PendingBindConsent>,
    /// The connections that the user let an agent open.
    pub mcp_open_approved: Vec<String>,
    pub cross_copy_jobs: Vec<CrossCopyJob>,
    /// The direct copies whose transfer is to stop.
    pub cancelled_ops: Vec<u64>,
    pub xfer: Transfers,
    pub show_transfers: bool,
    pub xfer_just_opened: bool,
    pub xfer_filter: XferFilter,
    pub conflict_policy: ConflictPolicy,
    pub fwd: ForwardUi,
    /// The session that was shown in the last frame.
    pub active_uid_prev: Option<u64>,
    pub image: ImageView,
    pub popups: Popups,
    /// What wants attention, newest last.
    pub ai_notices: Vec<AiNotice>,
    /// The number that the next text field of the editor gets.
    pub next_editor_id: u64,
}

/// The position of the session with this uid.
pub open spec fn uid_pos(ss: Seq<Session>, uid: u64) -> Option<int>
    decreases ss.len(),
{
    if ss.len() == 0 {
        None
    } else {
        match uid_pos(ss.drop_last(), uid) {
            Some(i) => Some(i),
            None => if ss.last().uid == uid {
                Some(ss.len() - 1)
            } else {
                None
            },
        }
    }
}

/// What [`uid_pos`] finds.
pub proof fn lemma_uid_pos(ss: Seq<Session>, uid: u64)
    ensures
        match uid_pos(ss, uid) {
            Some(i) => 0 <= i < ss.len() && ss[i].uid == uid && forall|j: int|
                0 <= j < i ==> (#[trigger] ss[j]).uid != uid,
            None => forall|j: int| 0 <= j < ss.len() ==> (#[trigger] ss[j]).uid != uid,
        },
    decreases ss.len(),
{
    if ss.len() > 0 {
        lemma_uid_pos(ss.drop_last(), uid);
        assert(forall|j: int| 0 <= j < ss.len() - 1 ==> ss.drop_last()[j] == ss[j]);
    }
}

/// Positions depend on the uids alone.
pub proof fn lemma_uid_pos_same(a: Seq<Session>, b: Seq<Session>, uid: u64)
    requires
        a.len() == b.len(),
        forall|i: int| 0 <= i < a.len() ==> (#[trigger] a[i]).uid == b[i].uid,
    ensures
        uid_pos(a, uid) == uid_pos(b, uid),
    decreases a.len(),
{
    if a.len() > 0 {
        assert(forall|i: int|
            0 <= i < a.len() - 1 ==> a.drop_last()[i] == a[i] && b.drop_last()[i] == b[i]);
        lemma_uid_pos_same(a.drop_last(), b.drop_last(), uid);
        assert(a[a.len() - 1].uid == b[a.len() - 1].uid);
    }
}

/// The same sessions as far as their uids go.
pub open spec fn same_uids(a: Seq<Session>, b: Seq<Session>) -> bool {
    &&& a.len() == b.len()
    &&& forall|i: int| 0 <= i < a.len() ==> (#[trigger] b[i]).uid == a[i].uid
}

/// A change that keeps the uids and the tab that is shown keeps the program's state well-formed.
pub proof fn lemma_wf_kept(a: App, b: App)
    requires
        a.wf(),
        same_uids(a.sessions@, b.sessions@),
        b.active == a.active,
        b.next_uid == a.next_uid,
    ensures
        b.wf(),
{
    assert forall|i: int| 0 <= i < b.sessions@.len() implies (#[trigger] b.sessions@[i]).uid
        <= b.next_uid by {
        assert(a.sessions@[i].uid <= a.next_uid);
    }
    assert forall|i: int, j: int| 0 <= i < j < b.sessions@.len() implies (
    #[trigger] b.sessions@[i]).uid != (#[trigger] b.sessions@[j]).uid by {
        assert(a.sessions@[i].uid != a.sessions@[j].uid);
    }
}

impl App {
    /// Every uid was given out, no two sessions share one, and the shown tab exists.
    pub open spec fn wf(self) -> bool {
        &&& forall|i: int| 0 <= i < self.sessions@.len() ==> (#[trigger] self.sessions@[i]).uid
            <= self.next_uid
        &&& forall|i: int, j: int|
            0 <= i < j < self.sessions@.len() ==> (#[trigger] self.sessions@[i]).uid != (
            #[trigger] self.sessions@[j]).uid
        &&& self.active is Some ==> self.active->0 < self.sessions@.len()
    }

    /// The program as it starts.
    pub fn new(lang: Lang, conflict_policy: ConflictPolicy) -> (r: App)
        ensures
            r.wf(),
            r.sessions@.len() == 0,
            r.closed@.len() == 0,
            r.active is None,
            r.next_uid == 0,
            r.lang == lang,
            r.conflict_policy == conflict_policy,
            r.pending_open_consent is None,
            r.pending_bind_consent is None,
            r.mcp_open_approved@.len() == 0,
            r.cross_copy_jobs@.len() == 0,
            r.cancelled_ops@.len() == 0,
            r.toast is None,
            !r.show_transfers && !r.xfer_just_opened && !r.scroll_to_active && !r.show_close_confirm,
            r.xfer_filter == XferFilter::All,
            r.xfer.is_idle(),
            r.fwd.is_closed(),
            r.active_uid_prev is None,
            r.image.tabs@.len() == 0 && r.image.active == 0 && r.image.shown == 0,
            !r.image.focus && r.image.tab_drag is None,
            r.popups.proc_info is None && !r.popups.proc_just_opened,
            !r.popups.gpu && !r.popups.gpu_just_opened,
            r.ai_notices@.len() == 0,
            r.next_editor_id == 0,
    {
        App {
            lang,
            sessions: Vec::new(),
            closed: Vec::new(),
            active: None,
            next_uid: 0,
            scroll_to_active: false,
            show_close_confirm: false,
            toast: None,
            pending_open_consent: None,
            pending_bind_consent: None,
            mcp_open_approved: Vec::new(),
            cross_copy_jobs: Vec::new(),
            cancelled_ops: Vec::new(),
            xfer: Transfers::new(),
            show_transfers: false,
            xfer_just_opened: false,
            xfer_filter: XferFilter::All,
            conflict_policy,
            fwd: ForwardUi::new(),
            active_uid_prev: None,
            image: ImageView::new(),
            popups: Popups::new(),
            ai_notices: Vec::new(),
            next_editor_id: 0,
        }
    }

    /// A number for a text field of the editor that no other one has.
    pub fn alloc_editor_id(&mut self) -> (r: u64)
        requires
            old(self).next_editor_id < u64::MAX,
        ensures
            r == old(self).next_editor_id,
            *final(self) == (App { next_editor_id: (r + 1) as u64, ..*old(self) }),
    {
        let id: u64 = self.next_editor_id;
        self.next_editor_id = id + 1;
        id
    }

    /// The position of the session with this uid.
    pub fn session_idx_by_uid(&self, uid: u64) -> (r: Option<usize>)
        ensures
            match r {
                Some(i) => uid_pos(self.sessions@, uid) == Some(i as int) && i < self.sessions@.len()
                    && self.sessions@[i as int].uid == uid,
                None => uid_pos(self.sessions@, uid) is None,
            },
    {
        proof {
            lemma_uid_pos(self.sessions@, uid);
        }
        let ghost ss = self.sessions@;
        let mut i: usize = 0;
        while i < self.sessions.len()
            invariant
                ss == self.sessions@,
                i <= ss.len(),
                forall|j: int| 0 <= j < i ==> (#[trigger] ss[j]).uid != uid,
                match uid_pos(ss, uid) {
                    Some(k) => 0 <= k < ss.len() && ss[k].uid == uid && forall|j: int|
                        0 <= j < k ==> (#[trigger] ss[j]).uid != uid,
                    None => forall|j: int| 0 <= j < ss.len() ==> (#[trigger] ss[j]).uid != uid,
                },
            decreases ss.len() - i,
        {
            if self.sessions[i].uid == uid {
                return Some(i);
            }
            i = i + 1;
        }
        None
    }
}

} // verus!
