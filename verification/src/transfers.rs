//! The list of a session's file transfers.
use vstd::prelude::*;

use crate::proto::{CommandView, ConflictPolicy, TransferDir, UiCommand};

verus! {

/// How to start a transfer again.
pub enum XferSpec {
    Download { remote: String, local: String },
    Upload { local: String, remote_dir: String },
}

impl XferSpec {
    /// The command that starts transfer `id` again, overwriting what is there.
    pub open spec fn command(self, id: u64) -> CommandView {
        match self {
            XferSpec::Download { remote, local } => CommandView::Download {
                id,
                remote: remote@,
                local: local@,
                policy: ConflictPolicy::Overwrite,
            },
            XferSpec::Upload { local, remote_dir } => CommandView::Upload {
                id,
                local: local@,
                remote_dir: remote_dir@,
                remote_name: None,
                policy: ConflictPolicy::Overwrite,
            },
        }
    }

    /// Builds the command that starts transfer `id` again.
    pub fn to_command(&self, id: u64) -> (r: UiCommand)
        ensures
            r@ == self.command(id),
            match *self {
                XferSpec::Download { remote, local } => {
                    &&& r is Download
                    &&& r->Download_id == id
                    &&& r->Download_remote@ == remote@
                    &&& r->Download_local@ == local@
                },
                XferSpec::Upload { local, remote_dir } => {
                    &&& r is Upload
                    &&& r->Upload_id == id
                    &&& r->Upload_local@ == local@
                    &&& r->Upload_remote_dir@ == remote_dir@
                },
            },
    {
        match self {
            XferSpec::Download { remote, local } => UiCommand::Download {
                id,
                remote: remote.clone(),
                local: local.clone(),
                policy: ConflictPolicy::Overwrite,
            },
            XferSpec::Upload { local, remote_dir } => UiCommand::Upload {
                id,
                local: local.clone(),
                remote_dir: remote_dir.clone(),
                remote_name: None,
                policy: ConflictPolicy::Overwrite,
            },
        }
    }
}

/// One transfer in the list.
pub struct Transfer {
    pub id: u64,
    pub name: String,
    pub dir: TransferDir,
    /// How to start it again, where that can be done.
    pub spec: Option<XferSpec>,
    /// Interrupted by a lost connection, to be resumed.
    pub paused: bool,
    pub done: u64,
    pub total: u64,
    /// `None` while it runs, then whether it succeeded.
    pub ok: Option<bool>,
    /// The local file.
    pub local: Option<String>,
    /// Why it ended as it did.
    pub message: String,
    /// Whether the list shows the message of a failure.
    pub show_err: bool,
    /// What it is doing, shown in place of the byte counts.
    pub note: String,
    /// Waiting for another transfer.
    pub queued: bool,
    /// How it is carried out, shown behind the size.
    pub tag: String,
}

impl Transfer {
    /// A transfer that has just started.
    pub open spec fn is_fresh(
        self,
        id: u64,
        name: Seq<char>,
        dir: TransferDir,
        total: u64,
        local: Option<String>,
        spec: Option<XferSpec>,
    ) -> bool {
        &&& self.id == id
        &&& self.name@ == name
        &&& self.dir == dir
        &&& self.spec == spec
        &&& !self.paused
        &&& self.done == 0
        &&& self.total == total
        &&& self.ok is None
        &&& self.local == local
        &&& self.message@.len() == 0
        &&& !self.show_err
        &&& self.note@.len() == 0
        &&& !self.queued
        &&& self.tag@.len() == 0
    }

    /// A row of the list that another transfer stands behind.
    pub open spec fn is_row(
        self,
        id: u64,
        name: Seq<char>,
        dir: TransferDir,
        note: Seq<char>,
        queued: bool,
        tag: Seq<char>,
    ) -> bool {
        &&& self.id == id
        &&& self.name@ == name
        &&& self.dir == dir
        &&& self.spec is None
        &&& !self.paused
        &&& self.done == 0
        &&& self.total == 0
        &&& self.ok is None
        &&& self.local is None
        &&& self.message@.len() == 0
        &&& !self.show_err
        &&& self.note@ == note
        &&& self.queued == queued
        &&& self.tag@ == tag
    }

    /// A transfer that has just started.
    pub fn new(
        id: u64,
        name: String,
        dir: TransferDir,
        total: u64,
        local: Option<String>,
        spec: Option<XferSpec>,
    ) -> (r: Transfer)
        ensures
            r.is_fresh(id, name@, dir, total, local, spec),
    {
        Transfer {
            id,
            name,
            dir,
            spec,
            paused: false,
            done: 0,
            total,
            ok: None,
            local,
            message: String::new(),
            show_err: false,
            note: String::new(),
            queued: false,
            tag: String::new(),
        }
    }
}

/// The position of the first transfer with this id.
pub open spec fn transfer_pos(ts: Seq<Transfer>, id: u64) -> Option<int>
    decreases ts.len(),
{
    if ts.len() == 0 {
        None
    } else {
        match transfer_pos(ts.drop_last(), id) {
            Some(i) => Some(i),
            None => if ts.last().id == id {
                Some(ts.len() - 1)
            } else {
                None
            },
        }
    }
}

/// What [`transfer_pos`] finds.
pub proof fn lemma_transfer_pos(ts: Seq<Transfer>, id: u64)
    ensures
        match transfer_pos(ts, id) {
            Some(i) => 0 <= i < ts.len() && ts[i].id == id && forall|j: int|
                0 <= j < i ==> (#[trigger] ts[j]).id != id,
            None => forall|j: int| 0 <= j < ts.len() ==> (#[trigger] ts[j]).id != id,
        },
    decreases ts.len(),
{
    if ts.len() > 0 {
        lemma_transfer_pos(ts.drop_last(), id);
        assert(forall|j: int| 0 <= j < ts.len() - 1 ==> ts.drop_last()[j] == ts[j]);
    }
}

/// Finds the first transfer with this id.
pub fn find_transfer(ts: &Vec<Transfer>, id: u64) -> (r: Option<usize>)
    ensures
        match r {
            Some(i) => transfer_pos(ts@, id) == Some(i as int) && i < ts@.len() && ts@[i as int].id
                == id,
            None => transfer_pos(ts@, id) is None,
        },
{
    proof {
        lemma_transfer_pos(ts@, id);
    }
    let mut i: usize = 0;
    while i < ts.len()
        invariant
            i <= ts@.len(),
            forall|j: int| 0 <= j < i ==> (#[trigger] ts@[j]).id != id,
            match transfer_pos(ts@, id) {
                Some(k) => 0 <= k < ts@.len() && ts@[k].id == id && forall|j: int|
                    0 <= j < k ==> (#[trigger] ts@[j]).id != id,
                None => forall|j: int| 0 <= j < ts@.len() ==> (#[trigger] ts@[j]).id != id,
            },
        decreases ts@.len() - i,
    {
        if ts[i].id == id {
            return Some(i);
        }
        i = i + 1;
    }
    None
}

/// The position of the first transfer of a kind.
pub open spec fn pos_where(ts: Seq<Transfer>, f: spec_fn(Transfer) -> bool) -> Option<int>
    decreases ts.len(),
{
    if ts.len() == 0 {
        None
    } else {
        match pos_where(ts.drop_last(), f) {
            Some(i) => Some(i),
            None => if f(ts.last()) {
                Some(ts.len() - 1)
            } else {
                None
            },
        }
    }
}

/// What [`pos_where`] finds.
pub proof fn lemma_pos_where(ts: Seq<Transfer>, f: spec_fn(Transfer) -> bool)
    ensures
        match pos_where(ts, f) {
            Some(i) => 0 <= i < ts.len() && f(ts[i]) && forall|j: int|
                0 <= j < i ==> !f(#[trigger] ts[j]),
            None => forall|j: int| 0 <= j < ts.len() ==> !f(#[trigger] ts[j]),
        },
    decreases ts.len(),
{
    if ts.len() > 0 {
        lemma_pos_where(ts.drop_last(), f);
        assert(forall|j: int| 0 <= j < ts.len() - 1 ==> ts.drop_last()[j] == ts[j]);
    }
}

/// The position of the first transfer with this id that waits for another one.
pub open spec fn queued_pos(ts: Seq<Transfer>, id: u64) -> Option<int> {
    pos_where(ts, |t: Transfer| t.id == id && t.queued)
}

/// The position of the first transfer with this id that has not ended.
pub open spec fn running_pos(ts: Seq<Transfer>, id: u64) -> Option<int> {
    pos_where(ts, |t: Transfer| t.id == id && t.ok is None)
}

/// Finds the first transfer with this id that waits for another one.
pub fn find_queued(ts: &Vec<Transfer>, id: u64) -> (r: Option<usize>)
    ensures
        match r {
            Some(i) => queued_pos(ts@, id) == Some(i as int) && i < ts@.len(),
            None => queued_pos(ts@, id) is None,
        },
{
    let ghost f = |t: Transfer| t.id == id && t.queued;
    let mut i: usize = 0;
    while i < ts.len()
        invariant
            i <= ts@.len(),
            f == (|t: Transfer| t.id == id && t.queued),
            forall|j: int| 0 <= j < i ==> !f(#[trigger] ts@[j]),
        decreases ts@.len() - i,
    {
        if ts[i].id == id && ts[i].queued {
            proof {
                lemma_pos_where(ts@, f);
                assert(f(ts@[i as int]));
            }
            return Some(i);
        }
        i = i + 1;
    }
    proof {
        lemma_pos_where(ts@, f);
    }
    None
}

/// Finds the first transfer with this id that has not ended.
pub fn find_running(ts: &Vec<Transfer>, id: u64) -> (r: Option<usize>)
    ensures
        match r {
            Some(i) => running_pos(ts@, id) == Some(i as int) && i < ts@.len(),
            None => running_pos(ts@, id) is None,
        },
{
    let ghost f = |t: Transfer| t.id == id && t.ok is None;
    let mut i: usize = 0;
    while i < ts.len()
        invariant
            i <= ts@.len(),
            f == (|t: Transfer| t.id == id && t.ok is None),
            forall|j: int| 0 <= j < i ==> !f(#[trigger] ts@[j]),
        decreases ts@.len() - i,
    {
        if ts[i].id == id && ts[i].ok.is_none() {
            proof {
                lemma_pos_where(ts@, f);
                assert(f(ts@[i as int]));
            }
            return Some(i);
        }
        i = i + 1;
    }
    proof {
        lemma_pos_where(ts@, f);
    }
    None
}

} // verus!
