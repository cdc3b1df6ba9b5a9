//! The notices of agents and programs that want attention.
use vstd::prelude::*;

use crate::app::{uid_pos, App};

verus! {

/// A notice of a session.
pub struct AiNotice {
    pub session_uid: u64,
    pub session_title: String,
    pub text: String,
}

/// How many notices are shown at once.
pub const MAX_VISIBLE: usize = 6;

/// The notices that are shown of `n`: new ones are added at the end, so the last `max` of them.
pub fn visible_range(n: usize, max: usize) -> (r: std::ops::Range<usize>)
    ensures
        r.end == n,
        r.start == (if n <= max {
            0
        } else {
            n - max
        }),
{
    if n <= max {
        0..n
    } else {
        n - max..n
    }
}

/// What was clicked on the notices in one frame.
pub struct NoticeClicks {
    pub clear_all: bool,
    /// A notice to dismiss.
    pub dismiss: Option<usize>,
    /// A session to go to.
    pub jump_to: Option<u64>,
}

/// The notices after a frame.
pub open spec fn notices_after(ns: Seq<AiNotice>, c: NoticeClicks) -> Seq<AiNotice> {
    let left = if c.clear_all {
        Seq::empty()
    } else {
        ns
    };
    match c.dismiss {
        Some(i) => if i < left.len() {
            left.remove(i as int)
        } else {
            left
        },
        None => left,
    }
}

/// What one frame of the notices does. Gives the session whose terminal is to get the keyboard.
pub open spec fn notice_frame_ok(before: App, after: App, c: NoticeClicks, focus: Option<usize>)
    -> bool {
    if before.ai_notices@.len() == 0 {
        after == before && focus is None
    } else {
        let target = match c.jump_to {
            Some(uid) => uid_pos(before.sessions@, uid),
            None => None,
        };
        &&& after.ai_notices@ == notices_after(before.ai_notices@, c)
        &&& match target {
            Some(i) => focus is Some && focus->0 == i,
            None => focus is None,
        }
        &&& after == (App {
            ai_notices: after.ai_notices,
            active: if focus is Some {
                focus
            } else {
                before.active
            },
            ..before
        })
    }
}

impl App {
    /// One frame of the notices.
    pub fn ai_notice_overlay(&mut self, c: &NoticeClicks) -> (focus: Option<usize>)
        ensures
            notice_frame_ok(*old(self), *final(self), *c, focus),
            old(self).wf() ==> final(self).wf(),
    {
        if self.ai_notices.len() == 0 {
            return None;
        }
        if c.clear_all {
            self.ai_notices = Vec::new();
            assert(self.ai_notices@ =~= Seq::empty());
        }
        match c.dismiss {
            Some(i) => {
                if i < self.ai_notices.len() {
                    let _ = self.ai_notices.remove(i);
                }
            },
            None => {},
        }
        match c.jump_to {
            Some(uid) => match self.session_idx_by_uid(uid) {
                Some(i) => {
                    self.active = Some(i);
                    Some(i)
                },
                None => None,
            },
            None => None,
        }
    }
}

/// The notice that came last is always shown, however many there are.
pub proof fn newest_notice_is_shown(n: usize, max: usize, r: std::ops::Range<usize>)
    requires
        n > 0,
        max > 0,
        r.end == n,
        r.start == (if n <= max {
            0
        } else {
            n - max
        }),
    ensures
        r.start <= n - 1 < r.end,
        r.end - r.start <= max,
        r.end - r.start == n || r.end - r.start == max,
{
}

} // verus!
