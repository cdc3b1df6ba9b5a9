//! What the windows tell a session's worker to do.
use vstd::prelude::*;

use crate::text::{opt_view, views};

verus! {

/// The language of the texts that the user sees.
#[derive(Clone, Copy, PartialEq, Eq, Structural)]
pub enum Lang {
    Zh,
    En,
}

/// The text of a language.
pub open spec fn tr_of(lang: Lang, zh: Seq<char>, en: Seq<char>) -> Seq<char> {
    match lang {
        Lang::Zh => zh,
        Lang::En => en,
    }
}

/// Picks the text of a language.
pub fn tr<'a>(lang: Lang, zh: &'a str, en: &'a str) -> (r: &'a str)
    ensures
        r@ == tr_of(lang, zh@, en@),
{
    match lang {
        Lang::Zh => zh,
        Lang::En => en,
    }
}

/// Which way a file goes.
#[derive(Clone, Copy, PartialEq, Eq, Structural)]
pub enum TransferDir {
    Download,
    Upload,
}

/// What happens where the target of a transfer exists.
#[derive(Clone, Copy, PartialEq, Eq, Structural)]
pub enum ConflictPolicy {
    Overwrite,
    Skip,
    Rename,
}

/// How lines end in a file.
#[derive(Clone, Copy, PartialEq, Eq, Structural)]
pub enum Eol {
    Lf,
    CrLf,
}

/// What a port forward forwards to.
pub enum ForwardKind {
    /// One host and port behind the server.
    Local { remote_host: String, remote_port: u16 },
    /// Whatever a SOCKS5 client asks for.
    Dynamic,
}

/// A [`ForwardKind`] with its strings as characters.
pub enum ForwardKindView {
    Local { remote_host: Seq<char>, remote_port: u16 },
    Dynamic,
}

impl View for ForwardKind {
    type V = ForwardKindView;

    open spec fn view(&self) -> ForwardKindView {
        match *self {
            ForwardKind::Local { remote_host, remote_port } => ForwardKindView::Local {
                remote_host: remote_host@,
                remote_port,
            },
            ForwardKind::Dynamic => ForwardKindView::Dynamic,
        }
    }
}

impl ForwardKind {
    /// A copy.
    pub fn copy(&self) -> (r: ForwardKind)
        ensures
            r@ == self@,
    {
        match self {
            ForwardKind::Local { remote_host, remote_port } => ForwardKind::Local {
                remote_host: remote_host.clone(),
                remote_port: *remote_port,
            },
            ForwardKind::Dynamic => ForwardKind::Dynamic,
        }
    }
}

/// A port forward to set up.
pub struct ForwardSpec {
    pub id: u64,
    pub bind_host: String,
    pub bind_port: u16,
    pub kind: ForwardKind,
}

/// A [`ForwardSpec`] with its strings as characters.
pub struct ForwardSpecView {
    pub id: u64,
    pub bind_host: Seq<char>,
    pub bind_port: u16,
    pub kind: ForwardKindView,
}

impl View for ForwardSpec {
    type V = ForwardSpecView;

    open spec fn view(&self) -> ForwardSpecView {
        ForwardSpecView {
            id: self.id,
            bind_host: self.bind_host@,
            bind_port: self.bind_port,
            kind: self.kind@,
        }
    }
}

/// A push from one server straight to another.
pub struct DirectSpec {
    pub id: u64,
    pub srcs: Vec<String>,
    pub dest_user: String,
    pub dest_host: String,
    pub dest_port: u16,
    pub dest_dir: String,
    pub key_path: String,
    pub label: String,
    pub dest_host_known: bool,
}

/// A [`DirectSpec`] with its strings as characters.
pub struct DirectSpecView {
    pub id: u64,
    pub srcs: Seq<Seq<char>>,
    pub dest_user: Seq<char>,
    pub dest_host: Seq<char>,
    pub dest_port: u16,
    pub dest_dir: Seq<char>,
    pub key_path: Seq<char>,
    pub label: Seq<char>,
    pub dest_host_known: bool,
}

impl View for DirectSpec {
    type V = DirectSpecView;

    open spec fn view(&self) -> DirectSpecView {
        DirectSpecView {
            id: self.id,
            srcs: views(self.srcs@),
            dest_user: self.dest_user@,
            dest_host: self.dest_host@,
            dest_port: self.dest_port,
            dest_dir: self.dest_dir@,
            key_path: self.key_path@,
            label: self.label@,
            dest_host_known: self.dest_host_known,
        }
    }
}

/// A command to a session's worker.
pub enum UiCommand {
    /// Bytes typed into the terminal.
    TerminalInput(Vec<u8>),
    WriteFile {
        id: u64,
        path: String,
        content: String,
        encoding: String,
        eol: Eol,
        expect_mtime: u32,
        force: bool,
    },
    ReadFile { id: u64, path: String, force: bool },
    Upload {
        id: u64,
        local: String,
        remote_dir: String,
        remote_name: Option<String>,
        policy: ConflictPolicy,
    },
    Download { id: u64, remote: String, local: String, policy: ConflictPolicy },
    /// Stores the byte stream of connection `source`.
    UploadFromMcp { id: u64, source: u64, size: u64, remote_path: String },
    /// Streams a file to connection `sink`.
    DownloadToMcp { id: u64, remote_path: String, sink: u64 },
    TrustTempKey { op_id: u64, pub_key_line: String },
    UntrustTempKey { op_id: u64, marker: String },
    DirectRelayCopy {
        op_id: u64,
        src_path: String,
        dest_user: String,
        dest_host: String,
        dest_port: u16,
        dest_path: String,
        priv_key_pem: Vec<u8>,
    },
    /// Reads a file into the pipe of copy `id`.
    RelayReadFile { id: u64, remote_path: String },
    /// Writes a file from the pipe of copy `id`.
    RelayWriteFile { id: u64, remote_path: String, size: u64 },
    CancelTransfer(u64),
    Disconnect,
    CopyMove { srcs: Vec<String>, dest_dir: String, do_move: bool },
    DeleteMany { paths: Vec<String> },
    DirectTransfer(DirectSpec),
    AddForward(ForwardSpec),
    RemoveForward(u64),
    ListDir(String),
    KillProc(u32),
    /// Asks about a process.
    ProcDetail(u32),
}

/// A [`UiCommand`] with its strings as characters.
pub enum CommandView {
    TerminalInput(Seq<u8>),
    WriteFile {
        id: u64,
        path: Seq<char>,
        content: Seq<char>,
        encoding: Seq<char>,
        eol: Eol,
        expect_mtime: u32,
        force: bool,
    },
    ReadFile { id: u64, path: Seq<char>, force: bool },
    Upload {
        id: u64,
        local: Seq<char>,
        remote_dir: Seq<char>,
        remote_name: Option<Seq<char>>,
        policy: ConflictPolicy,
    },
    Download { id: u64, remote: Seq<char>, local: Seq<char>, policy: ConflictPolicy },
    UploadFromMcp { id: u64, source: u64, size: u64, remote_path: Seq<char> },
    DownloadToMcp { id: u64, remote_path: Seq<char>, sink: u64 },
    TrustTempKey { op_id: u64, pub_key_line: Seq<char> },
    UntrustTempKey { op_id: u64, marker: Seq<char> },
    DirectRelayCopy {
        op_id: u64,
        src_path: Seq<char>,
        dest_user: Seq<char>,
        dest_host: Seq<char>,
        dest_port: u16,
        dest_path: Seq<char>,
        priv_key_pem: Seq<u8>,
    },
    RelayReadFile { id: u64, remote_path: Seq<char> },
    RelayWriteFile { id: u64, remote_path: Seq<char>, size: u64 },
    CancelTransfer(u64),
    Disconnect,
    CopyMove { srcs: Seq<Seq<char>>, dest_dir: Seq<char>, do_move: bool },
    DeleteMany { paths: Seq<Seq<char>> },
    DirectTransfer(DirectSpecView),
    AddForward(ForwardSpecView),
    RemoveForward(u64),
    ListDir(Seq<char>),
    KillProc(u32),
    /// Asks about a process.
    ProcDetail(u32),
}

impl View for UiCommand {
    type V = CommandView;

    open spec fn view(&self) -> CommandView {
        match *self {
            UiCommand::TerminalInput(b) => CommandView::TerminalInput(b@),
            UiCommand::WriteFile { id, path, content, encoding, eol, expect_mtime, force } =>
                CommandView::WriteFile {
                    id,
                    path: path@,
                    content: content@,
                    encoding: encoding@,
                    eol,
                    expect_mtime,
                    force,
                },
            UiCommand::ReadFile { id, path, force } => CommandView::ReadFile {
                id,
                path: path@,
                force,
            },
            UiCommand::Upload { id, local, remote_dir, remote_name, policy } => CommandView::Upload {
                id,
                local: local@,
                remote_dir: remote_dir@,
                remote_name: opt_view(remote_name),
                policy,
            },
            UiCommand::Download { id, remote, local, policy } => CommandView::Download {
                id,
                remote: remote@,
                local: local@,
                policy,
            },
            UiCommand::UploadFromMcp { id, source, size, remote_path } =>
                CommandView::UploadFromMcp { id, source, size, remote_path: remote_path@ },
            UiCommand::DownloadToMcp { id, remote_path, sink } => CommandView::DownloadToMcp {
                id,
                remote_path: remote_path@,
                sink,
            },
            UiCommand::TrustTempKey { op_id, pub_key_line } => CommandView::TrustTempKey {
                op_id,
                pub_key_line: pub_key_line@,
            },
            UiCommand::UntrustTempKey { op_id, marker } => CommandView::UntrustTempKey {
                op_id,
                marker: marker@,
            },
            UiCommand::DirectRelayCopy {
                op_id,
                src_path,
                dest_user,
                dest_host,
                dest_port,
                dest_path,
                priv_key_pem,
            } => CommandView::DirectRelayCopy {
                op_id,
                src_path: src_path@,
                dest_user: dest_user@,
                dest_host: dest_host@,
                dest_port,
                dest_path: dest_path@,
                priv_key_pem: priv_key_pem@,
            },
            UiCommand::RelayReadFile { id, remote_path } => CommandView::RelayReadFile {
                id,
                remote_path: remote_path@,
            },
            UiCommand::RelayWriteFile { id, remote_path, size } => CommandView::RelayWriteFile {
                id,
                remote_path: remote_path@,
                size,
            },
            UiCommand::CancelTransfer(id) => CommandView::CancelTransfer(id),
            UiCommand::Disconnect => CommandView::Disconnect,
            UiCommand::CopyMove { srcs, dest_dir, do_move } => CommandView::CopyMove {
                srcs: views(srcs@),
                dest_dir: dest_dir@,
                do_move,
            },
            UiCommand::DeleteMany { paths } => CommandView::DeleteMany { paths: views(paths@) },
            UiCommand::DirectTransfer(d) => CommandView::DirectTransfer(d@),
            UiCommand::AddForward(f) => CommandView::AddForward(f@),
            UiCommand::RemoveForward(id) => CommandView::RemoveForward(id),
            UiCommand::ListDir(d) => CommandView::ListDir(d@),
            UiCommand::KillProc(pid) => CommandView::KillProc(pid),
            UiCommand::ProcDetail(pid) => CommandView::ProcDetail(pid),
        }
    }
}

/// Commands with their strings as characters.
pub open spec fn command_views(v: Seq<UiCommand>) -> Seq<CommandView> {
    Seq::new(v.len(), |i: int| v[i]@)
}

/// The way to a session's worker: the commands that were sent, and how many more it takes until it
/// is found closed.
pub struct Link {
    pub sent: Vec<UiCommand>,
    pub takes: u64,
}

impl Link {
    /// The commands that were sent, in order.
    pub open spec fn log(self) -> Seq<CommandView> {
        command_views(self.sent@)
    }

    /// Whether the next command arrives.
    pub open spec fn is_open(self) -> bool {
        self.takes > 0
    }

    /// This link after one more command: where it was closed, as it was.
    pub open spec fn sends(self, before: Link, cmd: CommandView) -> bool {
        if before.is_open() {
            self.log() == before.log().push(cmd) && self.takes == before.takes - 1
        } else {
            self == before
        }
    }

    /// Sends a command. Says whether it was taken.
    pub fn send(&mut self, cmd: UiCommand) -> (ok: bool)
        ensures
            ok == old(self).is_open(),
            final(self).sends(*old(self), cmd@),
    {
        if self.takes == 0 {
            return false;
        }
        self.takes = self.takes - 1;
        self.sent.push(cmd);
        assert(command_views(self.sent@) =~= command_views(old(self).sent@).push(cmd@));
        true
    }
}

/// A link after several commands: as many of them arrived as it took.
pub open spec fn delivered(before: Link, after: Link, cmds: Seq<CommandView>) -> bool {
    let n = if cmds.len() <= before.takes {
        cmds.len() as int
    } else {
        before.takes as int
    };
    &&& after.log() == before.log() + cmds.take(n)
    &&& after.takes == before.takes - n
}

/// Sending nothing changes nothing.
pub proof fn lemma_delivered_none(link: Link)
    ensures
        delivered(link, link, Seq::empty()),
{
    assert(link.log() + Seq::<CommandView>::empty().take(0) =~= link.log());
}

/// One more command.
pub proof fn lemma_delivered_one(a: Link, b: Link, c: Link, cmds: Seq<CommandView>, cmd: CommandView)
    requires
        delivered(a, b, cmds),
        c.sends(b, cmd),
    ensures
        delivered(a, c, cmds.push(cmd)),
{
    let all = cmds.push(cmd);
    if cmds.len() < a.takes {
        assert(cmds.take(cmds.len() as int) =~= cmds);
        assert(all.take(all.len() as int) =~= all);
        assert((a.log() + cmds).push(cmd) =~= a.log() + all);
    } else {
        assert(all.take(a.takes as int) =~= cmds.take(a.takes as int));
    }
}

} // verus!
