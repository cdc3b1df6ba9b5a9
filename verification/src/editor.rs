//! The tabs of the text editor: how a save goes on, and what closing a tab leaves.
use vstd::prelude::*;
use vstd::string::*;

use crate::proto::Eol;
use crate::runs::CLOCK_LIMIT_MS;

verus! {

/// What was saved: version of the text, encoding, line ends.
pub struct SaveRev {
    pub version: u64,
    pub encoding: String,
    pub eol: Eol,
}

/// How a save of a tab goes on: never two of these at once.
pub enum SaveState {
    /// Nothing is being saved.
    Idle,
    /// Waiting for the result. What was sent, and whether the tab is to be closed after it.
    Saving { rev: SaveRev, close_after: bool },
    /// The file was changed from outside; the user has to decide.
    Conflict,
}

/// One tab of the editor.
pub struct EditorTab {
    /// The file.
    pub path: String,
    /// The line that the caret is in.
    pub caret_line: u64,
    /// The title of the session, as shown.
    pub server: String,
    /// The session.
    pub uid: u64,
    /// The request that opened the tab.
    pub tid: u64,
    /// The request that is loading the file.
    pub load_id: Option<u64>,
    pub load_done: u64,
    pub load_total: u64,
    pub save: SaveState,
    pub save_done: u64,
    pub save_total: u64,
    /// The number of the save that is under way, 0 for none.
    pub save_op: u64,
    /// When the save is given up, in milliseconds.
    pub save_deadline: Option<u64>,
    /// Whether the tab shows a document and not a text.
    pub is_doc: bool,
}

/// How long a save may go without any progress, in milliseconds.
pub const SAVE_TIMEOUT: u64 = 30_000;

impl EditorTab {
    /// Whether a save is under way.
    pub fn is_saving(&self) -> (r: bool)
        ensures
            r == (self.save is Saving),
    {
        matches!(self.save, SaveState::Saving { .. })
    }

    /// Whether a change from outside waits for the user.
    pub fn is_conflict(&self) -> (r: bool)
        ensures
            r == (self.save is Conflict),
    {
        matches!(self.save, SaveState::Conflict)
    }

    /// Whether the tab is to be closed after the save that is under way.
    pub fn wants_close(&self) -> (r: bool)
        ensures
            r == (self.save matches SaveState::Saving { close_after, .. } && close_after),
    {
        match &self.save {
            SaveState::Saving { close_after, .. } => *close_after,
            _ => false,
        }
    }

    /// Starts a save of `rev`, under a number that no other save had.
    pub fn begin_save(&mut self, rev: SaveRev, close_after: bool, next_op: &mut u64, now: u64)
        requires
            *old(next_op) < u64::MAX,
            now <= CLOCK_LIMIT_MS,
        ensures
            *final(next_op) == *old(next_op) + 1,
            *final(self) == (EditorTab {
                save: SaveState::Saving { rev, close_after },
                save_op: *old(next_op),
                save_deadline: Some((now + SAVE_TIMEOUT) as u64),
                ..*old(self)
            }),
    {
        self.save = SaveState::Saving { rev, close_after };
        self.save_op = *next_op;
        *next_op = *next_op + 1;
        self.save_deadline = Some(now + SAVE_TIMEOUT);
    }

    /// Closes the tab once the save that is under way is done; without one nothing happens.
    pub fn request_close_on_saved(&mut self)
        ensures
            *final(self) == (EditorTab {
                save: match old(self).save {
                    SaveState::Saving { rev, .. } => SaveState::Saving { rev, close_after: true },
                    s => s,
                },
                ..*old(self)
            }),
    {
        match &mut self.save {
            SaveState::Saving { close_after, .. } => {
                *close_after = true;
            },
            _ => {},
        }
    }

    /// The line to come back to when the file is opened again: none for a document, and none for a
    /// file that was not loaded.
    pub fn cursor_note(&self) -> (r: Option<(String, u64)>)
        ensures
            match r {
                Some((key, line)) => {
                    &&& !self.is_doc && self.load_id is None
                    &&& key@ == self.server@ + "|"@ + self.path@
                    &&& line == self.caret_line
                },
                None => self.is_doc || self.load_id is Some,
            },
    {
        if self.is_doc || self.load_id.is_some() {
            return None;
        }
        let mut key = self.server.clone();
        key.append("|");
        key.append(self.path.as_str());
        Some((key, self.caret_line))
    }
}

/// The editor's tabs.
pub struct EditorState {
    pub tabs: Vec<EditorTab>,
    pub active: usize,
    /// The tab that was shown last.
    pub shown: usize,
    /// Whether the window is to come to the front.
    pub focus: bool,
    /// Whether the user is asked to close all tabs with changes in them.
    pub close_confirm: bool,
    /// A tab with changes that the user is asked to close.
    pub close_tab_confirm: Option<usize>,
    /// Whether memory is to be given back.
    pub trim_request: bool,
}

/// The tab that is shown once the tab at `index` of `len` tabs is gone.
pub open spec fn active_after_removal(active: usize, index: int, len: int) -> usize {
    if index < active {
        (active - 1) as usize
    } else if active >= len - 1 && len > 1 {
        (len - 2) as usize
    } else {
        active
    }
}

impl EditorState {
    /// No tabs.
    pub fn new() -> (r: EditorState)
        ensures
            r.tabs@.len() == 0 && r.active == 0 && r.shown == 0,
            !r.focus && !r.close_confirm && !r.trim_request && r.close_tab_confirm is None,
    {
        EditorState {
            tabs: Vec::new(),
            active: 0,
            shown: 0,
            focus: false,
            close_confirm: false,
            close_tab_confirm: None,
            trim_request: false,
        }
    }

    /// Takes a tab out; gives it back where it was there.
    pub fn remove_tab_at(&mut self, index: usize) -> (r: Option<EditorTab>)
        ensures
            if index < old(self).tabs@.len() {
                &&& r == Some(old(self).tabs@[index as int])
                &&& final(self).tabs@ == old(self).tabs@.remove(index as int)
                &&& *final(self) == (EditorState {
                    tabs: final(self).tabs,
                    active: active_after_removal(
                        old(self).active,
                        index as int,
                        old(self).tabs@.len() as int,
                    ),
                    trim_request: true,
                    ..*old(self)
                })
            } else {
                r is None && *final(self) == *old(self)
            },
    {
        if index >= self.tabs.len() {
            return None;
        }
        let closed = self.tabs.remove(index);
        if index < self.active {
            self.active = self.active - 1;
        } else if self.active >= self.tabs.len() && self.tabs.len() > 0 {
            self.active = self.tabs.len() - 1;
        }
        self.trim_request = true;
        Some(closed)
    }

    /// Closes all tabs; gives them back.
    pub fn close_all(&mut self) -> (r: Vec<EditorTab>)
        ensures
            r@ == old(self).tabs@,
            final(self).tabs@.len() == 0,
            *final(self) == (EditorState {
                tabs: final(self).tabs,
                active: 0,
                close_confirm: false,
                trim_request: true,
                ..*old(self)
            }),
    {
        let mut closed: Vec<EditorTab> = Vec::new();
        closed.append(&mut self.tabs);
        self.active = 0;
        self.close_confirm = false;
        self.trim_request = true;
        assert(closed@ =~= old(self).tabs@);
        closed
    }
}

/// Closing another tab keeps the shown one, and the shown tab always exists.
pub proof fn closing_another_editor_tab_keeps_the_shown_one(
    tabs: Seq<EditorTab>,
    active: usize,
    index: int,
)
    requires
        active < tabs.len(),
        0 <= index < tabs.len(),
    ensures
        tabs.len() > 1 ==> active_after_removal(active, index, tabs.len() as int) < tabs.len() - 1,
        index != active ==> tabs.remove(index)[active_after_removal(
            active,
            index,
            tabs.len() as int,
        ) as int] == tabs[active as int],
{
}

} // verus!
