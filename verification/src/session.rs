//! One session: a tab with its worker, its terminal, its files and what an agent waits for in it.
use vstd::prelude::*;
use vstd::string::*;
use vstd::utf8::*;

use crate::file_ops::PendingAiFileOp;
use crate::forwards::ForwardEntry;
use crate::pending::SessionPending;
use crate::proto::{tr, tr_of, CommandView, ConflictPolicy, Lang, Link, TransferDir, UiCommand};
use crate::quoting::{in_single_quotes, quote_shell_arg, shell_word, single_quoted};
use crate::runs::PendingAiRun;
use crate::saved::{ConnectConfig, Transport};
use crate::terminal::{TermOp, TermOpView, Terminal};
use crate::text::{decimal, push_decimal, same, views};
use crate::transfers::Transfer;

verus! {

/// Questions of the server that the user has to answer.
pub struct KbdPrompt {
    pub name: String,
    pub instructions: String,
    /// Each question, and whether its answer may be shown.
    pub prompts: Vec<(String, bool)>,
    /// As many answers as questions.
    pub answers: Vec<String>,
}

/// What the file panel of a session remembers.
pub struct FilePanel {
    /// The key under which favourites are stored.
    pub server_key: String,
    pub root: String,
    /// The directories that are shown open.
    pub expanded: Vec<String>,
    /// The directories that are being listed.
    pub loading: Vec<String>,
    /// The files to select in a directory once it is listed again.
    pub pending_select: Option<(String, Vec<String>)>,
}

/// One session.
pub struct Session {
    /// Never reused while the program runs.
    pub uid: u64,
    pub title: String,
    pub tip: String,
    pub link: Link,
    pub connected: bool,
    pub status: String,
    pub terminal: Terminal,
    pub files: FilePanel,
    pub initialized: bool,
    pub transfers: Vec<Transfer>,
    pub next_xfer: u64,
    pub pending: SessionPending,
    /// A host to confirm: name, fingerprint, whether its key changed.
    pub pending_hostkey: Option<(String, String, bool)>,
    pub kbd_prompt: Option<KbdPrompt>,
    pub forwards: Vec<ForwardEntry>,
    pub next_forward: u64,
    /// A process that was asked about: pid, command, directory, program.
    pub proc_detail: Option<(u32, String, String, String)>,
    pub cfg: ConnectConfig,
    /// Whether it ever was connected.
    pub was_connected: bool,
    /// When to reconnect, in milliseconds.
    pub reconnect_at: Option<u64>,
    pub reconnect_tries: u32,
    /// The working directory to return to.
    pub last_cwd: String,
    pub restore_cwd: bool,
    pub restore_cwd_until: Option<u64>,
    pub mcp_token_injected: bool,
    /// Whether the server supports the system monitor.
    pub monitor_ok: Option<bool>,
    /// The command that an agent runs.
    pub pending_ai_run: Option<PendingAiRun>,
    /// Uploads of pasted images: transfer, remote path.
    pub pending_paste_image: Vec<(u64, String)>,
    /// Whether an agent opened the session.
    pub ai_owned: bool,
    /// The agent process that opened it.
    pub ai_owner: Option<String>,
    /// That agent in words.
    pub ai_owner_label: Option<String>,
    /// The file operations that an agent waits for.
    pub pending_file_ops: Vec<PendingAiFileOp>,
    /// The file operations that timed out last.
    pub file_op_tombstones: Vec<u64>,
}

/// What to do about the wish to return to a directory after a reconnect.
#[derive(Clone, Copy, PartialEq, Eq, Debug, Structural)]
pub enum CwdRestore {
    /// Look again in the next frame.
    Wait,
    /// Type the command now.
    Inject,
    /// Forget the wish.
    GiveUp,
}

/// The wish is forgotten once the user types, carried out once the shell is idle, and forgotten
/// when it took too long.
pub open spec fn cwd_restore(never_typed: bool, idle: bool, expired: bool) -> CwdRestore {
    if !never_typed {
        CwdRestore::GiveUp
    } else if idle {
        CwdRestore::Inject
    } else if expired {
        CwdRestore::GiveUp
    } else {
        CwdRestore::Wait
    }
}

/// Decides what to do about the wish to return to a directory.
pub fn cwd_restore_decision(never_typed: bool, idle: bool, expired: bool) -> (r: CwdRestore)
    ensures
        r == cwd_restore(never_typed, idle, expired),
{
    if !never_typed {
        return CwdRestore::GiveUp;
    }
    if idle {
        return CwdRestore::Inject;
    }
    if expired {
        return CwdRestore::GiveUp;
    }
    CwdRestore::Wait
}

/// How long a terminal has to be quiet before the program types into it, in milliseconds.
pub const QUIET_MS: u64 = 2_000;

/// Whether the program may type into a session: it is connected, the user's own, and its prompt is
/// almost certainly waiting.
pub open spec fn idle_for_injection(s: Session) -> bool {
    &&& s.connected
    &&& !s.ai_owned
    &&& s.pending_ai_run is None
    &&& !s.terminal.capturing
    &&& !s.terminal.busy
    &&& s.terminal.output_idle_ms >= QUIET_MS
    &&& s.terminal.input_idle_ms >= QUIET_MS
}

/// A list of names with one more, where it is not there yet.
pub open spec fn with_name(names: Seq<Seq<char>>, name: Seq<char>) -> Seq<Seq<char>> {
    if names.contains(name) {
        names
    } else {
        names.push(name)
    }
}

/// Adds a name to a list where it is not there yet.
pub fn add_name(names: &mut Vec<String>, name: String)
    ensures
        views(final(names)@) == with_name(views(old(names)@), name@),
{
    let mut i: usize = 0;
    while i < names.len()
        invariant
            i <= names@.len(),
            names@ == old(names)@,
            forall|j: int| 0 <= j < i ==> (#[trigger] names@[j])@ != name@,
        decreases names@.len() - i,
    {
        if same(names[i].as_str(), name.as_str()) {
            assert(views(names@)[i as int] == name@);
            return;
        }
        i = i + 1;
    }
    assert(!views(names@).contains(name@)) by {
        if views(names@).contains(name@) {
            let k = choose|k: int| 0 <= k < views(names@).len() && views(names@)[k] == name@;
            assert(names@[k]@ == name@);
        }
    }
    names.push(name);
    assert(views(names@) =~= views(old(names)@).push(name@));
}

/// The session after it was told to list a directory again.
pub open spec fn refreshed(before: Session, after: Session, dir: Option<String>) -> bool {
    match dir {
        None => after == before,
        Some(d) => {
            &&& after.link.sends(before.link, CommandView::ListDir(d@))
            &&& views(after.files.loading@) == with_name(views(before.files.loading@), d@)
            &&& after == (Session {
                link: after.link,
                files: FilePanel { loading: after.files.loading, ..before.files },
                ..before
            })
        },
    }
}

/// What the status line says of a pasted image.
pub open spec fn pasted_status(lang: Lang, path: Seq<char>) -> Seq<char> {
    tr_of(lang, "已粘贴图片："@, "Pasted image: "@) + path
}

/// The session after a path was typed into its terminal, as one word with a space behind it.
pub open spec fn path_typed(
    before: Session,
    after: Session,
    path: Seq<char>,
    windows: bool,
    lang: Lang,
) -> bool {
    let word = shell_word(path, before.cfg.transport == Transport::Local && windows);
    &&& after.link.sends(
        before.link,
        CommandView::TerminalInput(encode_utf8(word + " "@)),
    )
    &&& after.terminal.told(before.terminal, TermOpView::InputLine(word))
    &&& after.status@ == pasted_status(lang, path)
    &&& after == (Session {
        link: after.link,
        terminal: after.terminal,
        status: after.status,
        ..before
    })
}

/// The file name of an image that was pasted at `stamp`.
pub open spec fn paste_name_of(stamp: u64) -> Seq<char> {
    "ishell-paste-"@ + decimal(stamp as nat) + ".png"@
}

/// Names the file of an image that was pasted at `stamp`, in milliseconds.
pub fn paste_name(stamp: u64) -> (r: String)
    ensures
        r@ == paste_name_of(stamp),
{
    let mut s = "ishell-paste-".to_owned();
    push_decimal(&mut s, stamp);
    s.append(".png");
    s
}

/// The session after a pasted image was saved locally, or was not: on this machine its path is
/// typed; else it is uploaded to `/tmp`, without a way to start that again.
pub open spec fn image_pasted(
    before: Session,
    after: Session,
    stamp: u64,
    saved: Result<String, String>,
    size: u64,
    windows: bool,
    lang: Lang,
) -> bool {
    match saved {
        Err(e) => {
            &&& after.status@ == tr_of(
                lang,
                "粘贴的图片写入本地临时文件失败："@,
                "Could not save the pasted image locally: "@,
            ) + e@
            &&& after == (Session { status: after.status, ..before })
        },
        Ok(local) => if before.cfg.transport == Transport::Local {
            path_typed(before, after, local@, windows, lang)
        } else {
            let name = paste_name_of(stamp);
            let id = before.next_xfer;
            &&& after.next_xfer == id + 1
            &&& after.transfers@.len() == before.transfers@.len() + 1
            &&& after.transfers@.drop_last() == before.transfers@
            &&& after.transfers@.last().is_fresh(
                id,
                name,
                TransferDir::Upload,
                size,
                Some(local),
                None,
            )
            &&& after.link.sends(
                before.link,
                CommandView::Upload {
                    id,
                    local: local@,
                    remote_dir: "/tmp"@,
                    remote_name: Some(name),
                    policy: ConflictPolicy::Overwrite,
                },
            )
            &&& after.pending_paste_image@.len() == before.pending_paste_image@.len() + 1
            &&& after.pending_paste_image@.drop_last() == before.pending_paste_image@
            &&& after.pending_paste_image@.last().0 == id
            &&& after.pending_paste_image@.last().1@ == "/tmp/"@ + name
            &&& after.status@ == tr_of(
                lang,
                "正在上传粘贴的图片 …"@,
                "Uploading pasted image …"@,
            )
            &&& after == (Session {
                next_xfer: after.next_xfer,
                transfers: after.transfers,
                link: after.link,
                pending_paste_image: after.pending_paste_image,
                status: after.status,
                ..before
            })
        },
    }
}

/// The session after one look at its wish to return to a directory.
pub open spec fn cwd_stepped(before: Session, after: Session, never_typed: bool, now: u64) -> bool {
    match before.restore_cwd_until {
        None => after == before,
        Some(until) => match cwd_restore(never_typed, idle_for_injection(before), now >= until) {
            CwdRestore::Wait => after == before,
            CwdRestore::GiveUp => after == (Session { restore_cwd_until: None, ..before }),
            CwdRestore::Inject => {
                &&& after.link.sends(
                    before.link,
                    CommandView::TerminalInput(
                        encode_utf8("cd "@ + in_single_quotes(before.last_cwd@) + "\r"@),
                    ),
                )
                &&& after == (Session { link: after.link, restore_cwd_until: None, ..before })
            },
        },
    }
}

impl Session {
    /// Whether the program may type into the session.
    pub fn shell_idle_for_injection(&self) -> (r: bool)
        ensures
            r == idle_for_injection(*self),
    {
        self.connected && !self.ai_owned && self.pending_ai_run.is_none()
            && !self.terminal.capturing && !self.terminal.busy && self.terminal.output_idle_ms
            >= QUIET_MS && self.terminal.input_idle_ms >= QUIET_MS
    }

    /// Looks at the wish to return to a directory.
    pub fn step_cwd_restore(&mut self, never_typed: bool, now: u64)
        ensures
            cwd_stepped(*old(self), *final(self), never_typed, now),
    {
        let until: u64 = match self.restore_cwd_until {
            Some(u) => u,
            None => {
                return;
            },
        };
        let idle = self.shell_idle_for_injection();
        match cwd_restore_decision(never_typed, idle, now >= until) {
            CwdRestore::Wait => {},
            CwdRestore::GiveUp => {
                self.restore_cwd_until = None;
            },
            CwdRestore::Inject => {
                let mut line = "cd ".to_owned();
                let quoted = single_quoted(self.last_cwd.as_str());
                line.append(quoted.as_str());
                line.append("\r");
                let _ = self.link.send(UiCommand::TerminalInput(line.as_str().as_bytes_vec()));
                self.restore_cwd_until = None;
            },
        }
    }

    /// Lists a directory again.
    pub fn refresh_dir(&mut self, dir: Option<String>)
        ensures
            refreshed(*old(self), *final(self), dir),
    {
        match dir {
            Some(d) => {
                add_name(&mut self.files.loading, d.clone());
                let _ = self.link.send(UiCommand::ListDir(d));
            },
            None => {},
        }
    }

    /// Starts the file tree at the root, and asks for the home directory.
    pub fn init_files(&mut self)
        ensures
            final(self).files.root@ == "/"@,
            views(final(self).files.expanded@) == with_name(
                views(old(self).files.expanded@),
                "/"@,
            ),
            final(self).link.sends(old(self).link, CommandView::ListDir("."@)),
            *final(self) == (Session {
                link: final(self).link,
                files: FilePanel {
                    root: final(self).files.root,
                    expanded: final(self).files.expanded,
                    ..old(self).files
                },
                ..*old(self)
            }),
    {
        self.files.root = "/".to_owned();
        add_name(&mut self.files.expanded, "/".to_owned());
        let _ = self.link.send(UiCommand::ListDir(".".to_owned()));
    }

    /// Types a path into the terminal, without a line end.
    pub fn type_pasted_path(&mut self, path: &str, windows: bool, lang: Lang)
        ensures
            path_typed(*old(self), *final(self), path@, windows, lang),
    {
        let word = quote_shell_arg(path, self.cfg.is_local() && windows);
        let mut text = word.clone();
        text.append(" ");
        let _ = self.link.send(UiCommand::TerminalInput(text.as_str().as_bytes_vec()));
        self.terminal.tell(TermOp::InputLine(word));
        let mut status = tr(lang, "已粘贴图片：", "Pasted image: ").to_owned();
        status.append(path);
        self.status = status;
    }

    /// Goes on with an image that was pasted at `stamp` and was saved to the local path, or could
    /// not be.
    pub fn paste_image(
        &mut self,
        stamp: u64,
        saved: Result<String, String>,
        size: u64,
        windows: bool,
        lang: Lang,
    )
        requires
            old(self).next_xfer < u64::MAX,
        ensures
            image_pasted(*old(self), *final(self), stamp, saved, size, windows, lang),
    {
        let local = match saved {
            Err(e) => {
                let mut status = tr(
                    lang,
                    "粘贴的图片写入本地临时文件失败：",
                    "Could not save the pasted image locally: ",
                ).to_owned();
                status.append(e.as_str());
                self.status = status;
                return;
            },
            Ok(local) => local,
        };
        if self.cfg.is_local() {
            self.type_pasted_path(local.as_str(), windows, lang);
            return;
        }
        let name = paste_name(stamp);
        let id: u64 = self.next_xfer;
        self.next_xfer = id + 1;
        self.transfers.push(
            Transfer::new(id, name.clone(), TransferDir::Upload, size, Some(local.clone()), None),
        );
        let mut remote = "/tmp/".to_owned();
        remote.append(name.as_str());
        let _ = self.link.send(
            UiCommand::Upload {
                id,
                local,
                remote_dir: "/tmp".to_owned(),
                remote_name: Some(name),
                policy: ConflictPolicy::Overwrite,
            },
        );
        self.pending_paste_image.push((id, remote));
        self.status = tr(lang, "正在上传粘贴的图片 …", "Uploading pasted image …").to_owned();
        assert(self.transfers@.drop_last() =~= old(self).transfers@);
        assert(self.pending_paste_image@.drop_last() =~= old(self).pending_paste_image@);
    }
}

} // verus!
