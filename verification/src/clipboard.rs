//! Copying and moving files between tabs: the clipboard, the plan of a paste, and the tasks that
//! carry it out.
use vstd::prelude::*;

use crate::relays::named;
use crate::text::views;

verus! {

/// What was copied or cut, shared by all tabs.
pub struct FileClip {
    /// Each path, and whether it is a directory.
    pub items: Vec<(String, bool)>,
    pub is_cut: bool,
    pub src_uid: u64,
    pub src_host: String,
    pub src_port: u16,
    pub src_label: String,
}

/// A paste that is planned.
pub struct PendingPaste {
    pub items: Vec<(String, bool)>,
    pub is_cut: bool,
    /// Whether source and target are different servers.
    pub cross: bool,
    pub src_uid: u64,
    pub dest_uid: u64,
    pub src_dir: String,
    pub dest_dir: String,
    pub src_label: String,
    pub dest_label: String,
    /// Whether the source server pushes straight to the target server.
    pub direct: bool,
}

/// A [`PendingPaste`] with its strings as characters.
pub struct PasteView {
    pub items: Seq<(Seq<char>, bool)>,
    pub is_cut: bool,
    pub cross: bool,
    pub src_uid: u64,
    pub dest_uid: u64,
    pub src_dir: Seq<char>,
    pub dest_dir: Seq<char>,
    pub src_label: Seq<char>,
    pub dest_label: Seq<char>,
    pub direct: bool,
}

impl View for PendingPaste {
    type V = PasteView;

    open spec fn view(&self) -> PasteView {
        PasteView {
            items: named(self.items@),
            is_cut: self.is_cut,
            cross: self.cross,
            src_uid: self.src_uid,
            dest_uid: self.dest_uid,
            src_dir: self.src_dir@,
            dest_dir: self.dest_dir@,
            src_label: self.src_label@,
            dest_label: self.dest_label@,
            direct: self.direct,
        }
    }
}

/// Copies a list of files.
pub fn copy_items(items: &Vec<(String, bool)>) -> (r: Vec<(String, bool)>)
    ensures
        named(r@) == named(items@),
{
    let mut out: Vec<(String, bool)> = Vec::new();
    let mut i: usize = 0;
    while i < items.len()
        invariant
            i <= items@.len(),
            out@.len() == i,
            forall|k: int|
                0 <= k < i ==> (#[trigger] out@[k]).0@ == items@[k].0@ && out@[k].1 == items@[k].1,
        decreases items@.len() - i,
    {
        out.push((items[i].0.clone(), items[i].1));
        i = i + 1;
    }
    assert(named(out@) =~= named(items@));
    out
}

/// The paths of a list of files.
pub open spec fn paths_of(items: Seq<(Seq<char>, bool)>) -> Seq<Seq<char>> {
    Seq::new(items.len(), |i: int| items[i].0)
}

/// The paths of a list of files.
pub fn item_paths(items: &Vec<(String, bool)>) -> (r: Vec<String>)
    ensures
        views(r@) == paths_of(named(items@)),
{
    let mut out: Vec<String> = Vec::new();
    let mut i: usize = 0;
    while i < items.len()
        invariant
            i <= items@.len(),
            out@.len() == i,
            forall|k: int| 0 <= k < i ==> (#[trigger] out@[k])@ == items@[k].0@,
        decreases items@.len() - i,
    {
        out.push(items[i].0.clone());
        i = i + 1;
    }
    assert(views(out@) =~= paths_of(named(items@)));
    out
}

/// A direct push that is under way.
pub struct DirectJob {
    /// The transfer in the source session.
    pub id: u64,
    /// The transfer in the target session that shows the same progress.
    pub mir_id: u64,
    pub src_uid: u64,
    pub dest_uid: u64,
    pub src_dir: String,
    pub dest_dir: String,
    pub is_cut: bool,
    pub items: Vec<(String, bool)>,
    pub src_label: String,
    pub dest_label: String,
    /// Whether the user cancelled it.
    pub cancelled: bool,
}

/// A direct push that failed, with the plan to carry it out otherwise.
pub struct DirectFallback {
    pub plan: PendingPaste,
    pub reason: String,
}

/// Which half of a relayed copy is under way, with the transfer that carries it out.
#[derive(Clone, Copy, PartialEq, Eq, Structural)]
pub enum RelayPhase {
    Down(u64),
    Up(u64),
}

/// A copy between two servers through a temporary file on this machine.
pub struct Relay {
    pub src_path: String,
    pub is_dir: bool,
    pub src_uid: u64,
    pub dest_uid: u64,
    pub dest_dir: String,
    pub is_cut: bool,
    /// The temporary file.
    pub tmp: String,
    pub phase: RelayPhase,
    /// The transfer in the target session that is to carry out the upload.
    pub up_id: u64,
}

/// What the file transfers of all tabs share.
pub struct Transfers {
    pub file_clip: Option<FileClip>,
    /// A paste that the user has to confirm.
    pub pending_paste: Option<PendingPaste>,
    pub relays: Vec<Relay>,
    pub relay_seq: u64,
    /// What is chosen in the question: a direct push, or through this machine.
    pub confirm_direct: bool,
    pub direct_jobs: Vec<DirectJob>,
    pub pending_direct_fallback: Vec<DirectFallback>,
    /// A direct push to a host whose key is not known on this machine.
    pub pending_direct_hostkey: Option<PendingPaste>,
}

impl Transfers {
    /// Nothing was copied and nothing is under way.
    pub open spec fn is_idle(self) -> bool {
        &&& self.file_clip is None
        &&& self.pending_paste is None
        &&& self.relays@.len() == 0
        &&& self.relay_seq == 0
        &&& !self.confirm_direct
        &&& self.direct_jobs@.len() == 0
        &&& self.pending_direct_fallback@.len() == 0
        &&& self.pending_direct_hostkey is None
    }

    /// Nothing was copied and nothing is under way.
    pub fn new() -> (r: Transfers)
        ensures
            r.is_idle(),
    {
        Transfers {
            file_clip: None,
            pending_paste: None,
            relays: Vec::new(),
            relay_seq: 0,
            confirm_direct: false,
            direct_jobs: Vec::new(),
            pending_direct_fallback: Vec::new(),
            pending_direct_hostkey: None,
        }
    }
}

} // verus!
