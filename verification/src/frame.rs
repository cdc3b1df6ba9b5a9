//! What one frame of the main window decides: which session it shows, and what has to be forgotten
//! when that changes.
use vstd::prelude::*;

use crate::app::App;
use crate::forwards::ForwardUi;
use crate::popups::Popups;

verus! {

/// The session that is shown.
pub open spec fn shown_uid(app: App) -> Option<u64> {
    match app.active {
        Some(i) => if i < app.sessions@.len() {
            Some(app.sessions@[i as int].uid)
        } else {
            None
        },
        None => None,
    }
}

/// The program at the start of a frame: where another session is shown than in the last one, a
/// removal that waits for a confirmation, a forward that is being changed, an error about forwards
/// and the window of a process are forgotten.
pub open spec fn frame_begun(before: App) -> App {
    if shown_uid(before) == before.active_uid_prev {
        before
    } else {
        App {
            active_uid_prev: shown_uid(before),
            fwd: ForwardUi { confirm_del: None, editing: None, error: None, ..before.fwd },
            popups: Popups { proc_info: None, ..before.popups },
            ..before
        }
    }
}

impl App {
    /// Starts a frame.
    pub fn begin_frame(&mut self)
        ensures
            *final(self) == frame_begun(*old(self)),
    {
        let shown: Option<u64> = match self.active {
            Some(i) => {
                if i < self.sessions.len() {
                    Some(self.sessions[i].uid)
                } else {
                    None
                }
            },
            None => None,
        };
        let same: bool = match (shown, self.active_uid_prev) {
            (Some(a), Some(b)) => a == b,
            (None, None) => true,
            _ => false,
        };
        if !same {
            self.active_uid_prev = shown;
            self.fwd.confirm_del = None;
            self.fwd.editing = None;
            self.fwd.error = None;
            self.popups.proc_info = None;
        }
    }

    /// The session to draw; none for the page that greets the user.
    pub fn body(&self) -> (r: Option<usize>)
        ensures
            match self.active {
                Some(i) => if i < self.sessions@.len() {
                    r == Some(i)
                } else {
                    r is None
                },
                None => r is None,
            },
    {
        match self.active {
            Some(i) => if i < self.sessions.len() {
                Some(i)
            } else {
                None
            },
            None => None,
        }
    }
}

/// Removals, edits and the process window stay with the session they were begun in: once another
/// session is shown, no removal waits for a confirmation, no forward is being changed and no process
/// is about to be killed.
pub proof fn removals_and_edits_stay_with_their_session(before: App)
    ensures
        shown_uid(before) != before.active_uid_prev ==> {
            let after = frame_begun(before);
            &&& after.fwd.confirm_del is None
            &&& after.fwd.editing is None
            &&& after.popups.proc_info is None
            &&& after.active_uid_prev == shown_uid(after)
        },
        frame_begun(frame_begun(before)) == frame_begun(before),
{
}

} // verus!
