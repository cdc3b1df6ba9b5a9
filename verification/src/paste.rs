//! The file clipboard that all tabs share, and the paste of what is in it.
use vstd::prelude::*;
use vstd::string::*;

use crate::app::{lemma_wf_kept, same_uids, uid_pos, App};
use crate::clipboard::{
    copy_items, item_paths, paths_of, FileClip, PasteView, PendingPaste, Relay, RelayPhase,
    Transfers,
};
use crate::direct::{direct_ok, room};
use crate::keys::rand_dir_suffix;
use crate::paths::{basename_of, parent_dir, parent_of, remote_basename};
use crate::proto::{
    tr, tr_of, CommandView, ConflictPolicy, Lang, TransferDir, UiCommand,
};
use crate::relays::named;
use crate::session::Session;
use crate::text::{decimal, hex_of, push_decimal, same};
use crate::transfers::Transfer;

verus! {

/// A text with a number in it.
pub open spec fn counted(zh: (Seq<char>, Seq<char>), en: (Seq<char>, Seq<char>), lang: Lang, n: nat)
    -> Seq<char> {
    match lang {
        Lang::Zh => zh.0 + decimal(n) + zh.1,
        Lang::En => en.0 + decimal(n) + en.1,
    }
}

/// Writes a text with a number in it.
pub fn count_text(zh: (&str, &str), en: (&str, &str), lang: Lang, n: usize) -> (r: String)
    ensures
        r@ == counted((zh.0@, zh.1@), (en.0@, en.1@), lang, n as nat),
{
    let (a, b) = match lang {
        Lang::Zh => zh,
        Lang::En => en,
    };
    let mut s = a.to_owned();
    push_decimal(&mut s, n as u64);
    s.append(b);
    s
}

/// What the status line says of files that were copied or cut.
pub open spec fn clip_text(is_cut: bool, lang: Lang, n: nat) -> Seq<char> {
    if is_cut {
        counted(("已剪切 "@, " 项（粘贴时移动）"@), ("Cut "@, " item(s)"@), lang, n)
    } else {
        counted(("已复制 "@, " 项到剪贴板"@), ("Copied "@, " item(s)"@), lang, n)
    }
}

/// What the status line says of a paste on one server.
pub open spec fn local_paste_text(is_cut: bool, lang: Lang, n: nat) -> Seq<char> {
    if is_cut {
        counted(("移动 "@, " 项 …"@), ("Moving "@, " …"@), lang, n)
    } else {
        counted(("复制 "@, " 项 …"@), ("Copying "@, " …"@), lang, n)
    }
}

/// What the status line says of a paste through this machine.
pub open spec fn relay_text(is_cut: bool, lang: Lang, n: nat) -> Seq<char> {
    if is_cut {
        counted(
            ("跨服务器移动 "@, " 项（经本地中转）…"@),
            ("Cross-server move "@, " (via local relay) …"@),
            lang,
            n,
        )
    } else {
        counted(
            ("跨服务器复制 "@, " 项（经本地中转）…"@),
            ("Cross-server copy "@, " (via local relay) …"@),
            lang,
            n,
        )
    }
}

/// The sessions with another status line in one of them.
pub open spec fn status_set(ss: Seq<Session>, after: Seq<Session>, s: int, text: Seq<char>) -> bool {
    &&& after == ss.update(s, after[s])
    &&& after[s].status@ == text
    &&& after[s] == (Session { status: after[s].status, ..ss[s] })
}

/// The program after the files of session `idx` were copied or cut.
pub open spec fn clip_set(
    before: App,
    after: App,
    idx: int,
    items: Vec<(String, bool)>,
    is_cut: bool,
) -> bool {
    if 0 <= idx < before.sessions@.len() {
        let s = before.sessions@[idx];
        &&& after.xfer.file_clip is Some
        &&& {
            let clip = after.xfer.file_clip->0;
            &&& clip.items == items
            &&& clip.is_cut == is_cut
            &&& clip.src_uid == s.uid
            &&& clip.src_host@ == s.cfg.host@
            &&& clip.src_port == s.cfg.port
            &&& clip.src_label@ == s.title@
        }
        &&& status_set(
            before.sessions@,
            after.sessions@,
            idx,
            clip_text(is_cut, before.lang, items@.len()),
        )
        &&& after == (App {
            sessions: after.sessions,
            xfer: Transfers { file_clip: after.xfer.file_clip, ..before.xfer },
            ..before
        })
    } else {
        after == before
    }
}

/// The paste of a clipboard into a directory of a session.
pub open spec fn plan_of(clip: FileClip, dest: Session, dest_dir: Seq<char>) -> PasteView {
    PasteView {
        items: named(clip.items@),
        is_cut: clip.is_cut,
        cross: clip.src_host@ != dest.cfg.host@ || clip.src_port != dest.cfg.port,
        src_uid: clip.src_uid,
        dest_uid: dest.uid,
        src_dir: if clip.items@.len() > 0 {
            parent_of(clip.items@[0].0@)
        } else {
            Seq::empty()
        },
        dest_dir,
        src_label: clip.src_label@,
        dest_label: dest.title@,
        direct: false,
    }
}

/// What a paste needs to know of this machine.
pub struct PasteEnv {
    /// The directory that the temporary files of copies lie in.
    pub relay_root: String,
    /// This process.
    pub pid: u32,
    /// Whether paths are written as on Windows.
    pub windows: bool,
    /// Whether the key of the target host is known here.
    pub host_known: bool,
}

/// The name under which a file is copied.
pub open spec fn item_name(path: Seq<char>) -> Seq<char> {
    if basename_of(path).len() == 0 {
        "item"@
    } else {
        basename_of(path)
    }
}

/// The temporary file of copy number `seq`, with eight bytes in hexadecimal that set it apart.
pub open spec fn is_relay_tmp(tmp: Seq<char>, env: PasteEnv, seq: u64, name: Seq<char>) -> bool {
    let sep = if env.windows {
        "\\"@
    } else {
        "/"@
    };
    exists|b: Seq<u8>|
        b.len() == 8 && tmp == env.relay_root@ + sep + decimal(env.pid as nat) + "-"@ + decimal(
            seq as nat,
        ) + "-"@ + #[trigger] hex_of(b) + sep + name
}

/// The source after a file was asked for.
pub open spec fn download_asked(before: Session, after: Session, path: Seq<char>, tmp: Seq<char>)
    -> bool {
    &&& after.next_xfer == before.next_xfer + 1
    &&& after.link.sends(
        before.link,
        CommandView::Download {
            id: before.next_xfer,
            remote: path,
            local: tmp,
            policy: ConflictPolicy::Overwrite,
        },
    )
    &&& after == (Session { next_xfer: after.next_xfer, link: after.link, ..before })
}

/// The target after an upload was listed that waits for the download.
pub open spec fn upload_queued(before: Session, after: Session, name: Seq<char>, lang: Lang) -> bool {
    &&& after.next_xfer == before.next_xfer + 1
    &&& after.transfers@.len() == before.transfers@.len() + 1
    &&& after.transfers@.drop_last() == before.transfers@
    &&& after.transfers@.last().is_row(
        before.next_xfer,
        name,
        TransferDir::Upload,
        tr_of(lang, "等待源端下载…"@, "Waiting for source download…"@),
        true,
        ""@,
    )
    &&& after == (Session { next_xfer: after.next_xfer, transfers: after.transfers, ..before })
}

/// The program after the copy of one file was started between sessions `si` and `di`.
pub open spec fn item_relayed(
    before: App,
    after: App,
    plan: PasteView,
    env: PasteEnv,
    si: int,
    di: int,
    item: (Seq<char>, bool),
) -> bool {
    let name = item_name(item.0);
    let r = after.xfer.relays@.last();
    &&& after.xfer.relay_seq == before.xfer.relay_seq + 1
    &&& after.xfer.relays@.len() == before.xfer.relays@.len() + 1
    &&& after.xfer.relays@.drop_last() == before.xfer.relays@
    &&& is_relay_tmp(r.tmp@, env, after.xfer.relay_seq, name)
    &&& r.src_path@ == item.0
    &&& r.is_dir == item.1
    &&& r.src_uid == plan.src_uid
    &&& r.dest_uid == plan.dest_uid
    &&& r.dest_dir@ == plan.dest_dir
    &&& r.is_cut == plan.is_cut
    &&& r.phase == RelayPhase::Down(before.sessions@[si].next_xfer)
    &&& exists|mid: Seq<Session>|
        {
            &&& mid == before.sessions@.update(si, mid[si])
            &&& #[trigger] download_asked(before.sessions@[si], mid[si], item.0, r.tmp@)
            &&& r.up_id == mid[di].next_xfer
            &&& after.sessions@ == mid.update(di, after.sessions@[di])
            &&& #[trigger] upload_queued(mid[di], after.sessions@[di], name, before.lang)
        }
    &&& after == (App {
        sessions: after.sessions,
        xfer: Transfers {
            relays: after.xfer.relays,
            relay_seq: after.xfer.relay_seq,
            ..before.xfer
        },
        ..before
    })
}

/// The copies of all files, started one after the other.
pub open spec fn items_relayed(
    states: Seq<App>,
    plan: PasteView,
    env: PasteEnv,
    si: int,
    di: int,
) -> bool {
    &&& states.len() == plan.items.len() + 1
    &&& forall|k: int|
        0 <= k < plan.items.len() ==> item_relayed(
            states[k],
            states[k + 1],
            plan,
            env,
            si,
            di,
            #[trigger] plan.items[k],
        )
}

/// A paste on one server.
pub open spec fn pasted_locally(before: App, after: App, plan: PasteView) -> bool {
    match uid_pos(before.sessions@, plan.dest_uid) {
        Some(d) => {
            let s = before.sessions@[d];
            let t = after.sessions@[d];
            &&& after.sessions@ == before.sessions@.update(d, t)
            &&& t.link.sends(
                s.link,
                CommandView::CopyMove {
                    srcs: paths_of(plan.items),
                    dest_dir: plan.dest_dir,
                    do_move: plan.is_cut,
                },
            )
            &&& t.status@ == local_paste_text(plan.is_cut, before.lang, plan.items.len())
            &&& t == (Session { link: t.link, status: t.status, ..s })
            &&& after == (App { sessions: after.sessions, ..before })
        },
        None => after == before,
    }
}

/// A paste through this machine, between sessions that are both there.
pub open spec fn pasted_by_relay(
    before: App,
    after: App,
    plan: PasteView,
    env: PasteEnv,
    si: int,
    di: int,
) -> bool {
    exists|states: Seq<App>|
        {
            &&& #[trigger] items_relayed(states, plan, env, si, di)
            &&& states[0] == before
            &&& {
                let last = states[plan.items.len() as int];
                &&& status_set(
                    last.sessions@,
                    after.sessions@,
                    di,
                    relay_text(plan.is_cut, before.lang, plan.items.len()),
                )
                &&& after == (App {
                    sessions: after.sessions,
                    show_transfers: true,
                    xfer_just_opened: true,
                    ..last
                })
            }
        }
}

/// The clipboard after a paste: a move empties it, a copy keeps it.
pub open spec fn clip_used(before: App, after: App, is_cut: bool) -> bool {
    if is_cut {
        after == (App { xfer: Transfers { file_clip: None, ..before.xfer }, ..before })
    } else {
        after == before
    }
}

/// A paste through this machine, and what it leaves on the clipboard.
pub open spec fn relayed_and_used(
    before: App,
    after: App,
    plan: PasteView,
    env: PasteEnv,
    si: int,
    di: int,
) -> bool {
    exists|mid: App| #[trigger]
        pasted_by_relay(before, mid, plan, env, si, di) && clip_used(mid, after, plan.is_cut)
}

/// What a planned paste does.
pub open spec fn paste_ok(before: App, after: App, plan: PasteView, env: PasteEnv) -> bool {
    if !plan.cross {
        exists|mid: App| #[trigger]
            pasted_locally(before, mid, plan) && clip_used(mid, after, plan.is_cut)
    } else if plan.direct {
        exists|mid: App| #[trigger]
            direct_ok(before, mid, plan, env.host_known, false) && clip_used(
                mid,
                after,
                plan.is_cut,
            )
    } else {
        match uid_pos(before.sessions@, plan.dest_uid) {
            None => after == before,
            Some(di) => match uid_pos(before.sessions@, plan.src_uid) {
                None => {
                    &&& status_set(
                        before.sessions@,
                        after.sessions@,
                        di,
                        tr_of(
                            before.lang,
                            "源会话已关闭，无法跨服务器粘贴"@,
                            "Source session closed; cannot paste across servers"@,
                        ),
                    )
                    &&& after == (App { sessions: after.sessions, ..before })
                },
                Some(si) => relayed_and_used(before, after, plan, env, si, di),
            },
        }
    }
}

/// What a paste of the clipboard does: across servers it is asked about first.
pub open spec fn start_paste_ok(
    before: App,
    after: App,
    idx: int,
    dest_dir: Seq<char>,
    env: PasteEnv,
) -> bool {
    if before.xfer.file_clip is None || idx >= before.sessions@.len() {
        after == before
    } else {
        let plan = plan_of(before.xfer.file_clip->0, before.sessions@[idx], dest_dir);
        if plan.cross {
            &&& after.xfer.pending_paste is Some
            &&& after.xfer.pending_paste->0@ == plan
            &&& after == (App {
                xfer: Transfers {
                    confirm_direct: false,
                    pending_paste: after.xfer.pending_paste,
                    ..before.xfer
                },
                ..before
            })
        } else {
            paste_ok(before, after, plan, env)
        }
    }
}

fn relay_tmp(env: &PasteEnv, number: u64, name: &str) -> (r: String)
    ensures
        is_relay_tmp(r@, *env, number, name@),
{
    let sep = if env.windows {
        "\\"
    } else {
        "/"
    };
    let random = rand_dir_suffix();
    let ghost b = choose|b: Seq<u8>| b.len() == 8 && random@ == #[trigger] hex_of(b);
    let mut s = env.relay_root.clone();
    s.append(sep);
    push_decimal(&mut s, env.pid as u64);
    s.append("-");
    push_decimal(&mut s, number);
    s.append("-");
    s.append(random.as_str());
    s.append(sep);
    s.append(name);
    assert(s@ == env.relay_root@ + sep@ + decimal(env.pid as nat) + "-"@ + decimal(number as nat)
        + "-"@ + hex_of(b) + sep@ + name@);
    s
}

fn item_name_of(path: &str) -> (r: String)
    ensures
        r@ == item_name(path@),
{
    let base = remote_basename(path);
    if base.as_str().unicode_len() == 0 {
        "item".to_owned()
    } else {
        base
    }
}

impl Session {
    fn ask_download(&mut self, path: &str, tmp: &str) -> (id: u64)
        requires
            old(self).next_xfer < u64::MAX,
        ensures
            id == old(self).next_xfer,
            download_asked(*old(self), *final(self), path@, tmp@),
    {
        let id: u64 = self.next_xfer;
        self.next_xfer = id + 1;
        let _ = self.link.send(
            UiCommand::Download {
                id,
                remote: path.to_owned(),
                local: tmp.to_owned(),
                policy: ConflictPolicy::Overwrite,
            },
        );
        id
    }

    fn queue_upload(&mut self, name: String, lang: Lang) -> (id: u64)
        requires
            old(self).next_xfer < u64::MAX,
        ensures
            id == old(self).next_xfer,
            upload_queued(*old(self), *final(self), name@, lang),
    {
        let id: u64 = self.next_xfer;
        self.next_xfer = id + 1;
        let mut t = Transfer::new(id, name, TransferDir::Upload, 0, None, None);
        t.queued = true;
        t.note = tr(lang, "等待源端下载…", "Waiting for source download…").to_owned();
        proof {
            reveal_strlit("");
            assert(t.tag@ =~= ""@);
        }
        self.transfers.push(t);
        assert(self.transfers@.drop_last() =~= old(self).transfers@);
        id
    }
}

/// Every session and the copies can be numbered `n` times more.
pub open spec fn paste_room(app: App, n: int) -> bool {
    room(app, 2 * n) && app.xfer.relay_seq + n <= u64::MAX
}

impl App {
    /// Puts files of a session on the clipboard.
    pub fn set_clip(&mut self, idx: usize, items: Vec<(String, bool)>, is_cut: bool)
        ensures
            clip_set(*old(self), *final(self), idx as int, items, is_cut),
            old(self).wf() ==> final(self).wf(),
    {
        if idx >= self.sessions.len() {
            return;
        }
        let ghost before = *self;
        let n: usize = items.len();
        self.xfer.file_clip = Some(
            FileClip {
                items,
                is_cut,
                src_uid: self.sessions[idx].uid,
                src_host: self.sessions[idx].cfg.host.clone(),
                src_port: self.sessions[idx].cfg.port,
                src_label: self.sessions[idx].title.clone(),
            },
        );
        let text = if is_cut {
            count_text(("已剪切 ", " 项（粘贴时移动）"), ("Cut ", " item(s)"), self.lang, n)
        } else {
            count_text(("已复制 ", " 项到剪贴板"), ("Copied ", " item(s)"), self.lang, n)
        };
        self.say(idx, text);
        proof {
            if before.wf() {
                lemma_wf_kept(before, *self);
            }
        }
    }

    /// Pastes the clipboard into a directory of a session. A paste across servers is asked about
    /// first, with the way through this machine as the default; one on the same server is carried
    /// out at once.
    pub fn start_paste(&mut self, idx: usize, dest_dir: String, env: &PasteEnv)
        ensures
            start_paste_ok(*old(self), *final(self), idx as int, dest_dir@, *env),
            old(self).wf() ==> final(self).wf(),
    {
        if idx >= self.sessions.len() {
            return;
        }
        let plan = match &self.xfer.file_clip {
            None => {
                return;
            },
            Some(clip) => {
                let dest = &self.sessions[idx];
                let cross = !same(clip.src_host.as_str(), dest.cfg.host.as_str()) || clip.src_port
                    != dest.cfg.port;
                let src_dir = if clip.items.len() > 0 {
                    parent_dir(clip.items[0].0.as_str())
                } else {
                    let s = String::new();
                    assert(s@ =~= Seq::<char>::empty());
                    s
                };
                PendingPaste {
                    items: copy_items(&clip.items),
                    is_cut: clip.is_cut,
                    cross,
                    src_uid: clip.src_uid,
                    dest_uid: dest.uid,
                    src_dir,
                    dest_dir,
                    src_label: clip.src_label.clone(),
                    dest_label: dest.title.clone(),
                    direct: false,
                }
            },
        };
        assert(plan@ == plan_of(
            old(self).xfer.file_clip->0,
            old(self).sessions@[idx as int],
            dest_dir@,
        ));
        if plan.cross {
            self.xfer.confirm_direct = false;
            self.xfer.pending_paste = Some(plan);
        } else {
            self.execute_paste(plan, env);
        }
    }

    fn use_clip(&mut self, is_cut: bool)
        ensures
            clip_used(*old(self), *final(self), is_cut),
    {
        if is_cut {
            self.xfer.file_clip = None;
        }
    }

    fn paste_locally(&mut self, plan: &PendingPaste)
        ensures
            pasted_locally(*old(self), *final(self), plan@),
            same_uids(old(self).sessions@, final(self).sessions@),
    {
        let srcs = item_paths(&plan.items);
        match self.session_idx_by_uid(plan.dest_uid) {
            Some(d) => {
                let n: usize = plan.items.len();
                let _ = self.sessions[d].link.send(
                    UiCommand::CopyMove {
                        srcs,
                        dest_dir: plan.dest_dir.clone(),
                        do_move: plan.is_cut,
                    },
                );
                self.sessions[d].status = if plan.is_cut {
                    count_text(("移动 ", " 项 …"), ("Moving ", " …"), self.lang, n)
                } else {
                    count_text(("复制 ", " 项 …"), ("Copying ", " …"), self.lang, n)
                };
                assert(self.sessions@ =~= old(self).sessions@.update(
                    d as int,
                    self.sessions@[d as int],
                ));
            },
            None => {},
        }
    }

    fn relay_item(&mut self, plan: &PendingPaste, env: &PasteEnv, si: usize, di: usize, k: usize)
        requires
            si < old(self).sessions@.len(),
            di < old(self).sessions@.len(),
            k < plan.items@.len(),
            paste_room(*old(self), 1),
        ensures
            item_relayed(
                *old(self),
                *final(self),
                plan@,
                *env,
                si as int,
                di as int,
                plan@.items[k as int],
            ),
            same_uids(old(self).sessions@, final(self).sessions@),
            forall|i: int|
                0 <= i < old(self).sessions@.len() ==> (#[trigger] final(self).sessions@[i]).next_xfer <= old(self).sessions@[i].next_xfer + 2,
    {
        let lang = self.lang;
        let ghost s0 = self.sessions@;
        let path = plan.items[k].0.as_str();
        let name = item_name_of(path);
        let number: u64 = self.xfer.relay_seq + 1;
        self.xfer.relay_seq = number;
        let tmp = relay_tmp(env, number, name.as_str());
        assert(s0[si as int].next_xfer + 2 <= u64::MAX);
        assert(s0[di as int].next_xfer + 2 <= u64::MAX);
        let down: u64 = self.sessions[si].ask_download(path, tmp.as_str());
        let ghost mid = self.sessions@;
        assert(mid =~= s0.update(si as int, mid[si as int]));
        let up_id: u64 = self.sessions[di].queue_upload(name, lang);
        let ghost s2 = self.sessions@;
        assert(s2 =~= mid.update(di as int, s2[di as int]));
        self.xfer.relays.push(
            Relay {
                src_path: plan.items[k].0.clone(),
                is_dir: plan.items[k].1,
                src_uid: plan.src_uid,
                dest_uid: plan.dest_uid,
                dest_dir: plan.dest_dir.clone(),
                is_cut: plan.is_cut,
                tmp,
                phase: RelayPhase::Down(down),
                up_id,
            },
        );
        proof {
            assert(self.xfer.relays@.drop_last() =~= old(self).xfer.relays@);
            let item = plan@.items[k as int];
            assert(item == (path@, plan.items@[k as int].1));
            let r = self.xfer.relays@.last();
            assert(download_asked(
                old(self).sessions@[si as int],
                mid[si as int],
                item.0,
                r.tmp@,
            ));
            assert(upload_queued(
                mid[di as int],
                self.sessions@[di as int],
                item_name(item.0),
                old(self).lang,
            ));
            assert(is_relay_tmp(r.tmp@, *env, self.xfer.relay_seq, item_name(item.0)));
            assert(r.up_id == mid[di as int].next_xfer);
        }
    }

    fn paste_by_relay(&mut self, plan: &PendingPaste, env: &PasteEnv, si: usize, di: usize)
        requires
            si < old(self).sessions@.len(),
            di < old(self).sessions@.len(),
            paste_room(*old(self), plan.items@.len() as int),
        ensures
            pasted_by_relay(*old(self), *final(self), plan@, *env, si as int, di as int),
            same_uids(old(self).sessions@, final(self).sessions@),
            final(self).active == old(self).active,
            final(self).next_uid == old(self).next_uid,
    {
        let ghost s0 = self.sessions@;
        let ghost items = plan@.items;
        let ghost mut states: Seq<App> = seq![*self];
        let n: usize = plan.items.len();
        let mut k: usize = 0;
        while k < n
            invariant
                n == plan.items@.len(),
                items == plan@.items,
                items.len() == n,
                k <= n,
                si < self.sessions@.len(),
                di < self.sessions@.len(),
                s0 == old(self).sessions@,
                paste_room(*old(self), n as int),
                same_uids(s0, self.sessions@),
                forall|i: int|
                    0 <= i < s0.len() ==> (#[trigger] self.sessions@[i]).next_xfer
                        <= s0[i].next_xfer + 2 * k,
                self.xfer.relay_seq == old(self).xfer.relay_seq + k,
                self.lang == old(self).lang,
                self.active == old(self).active,
                self.next_uid == old(self).next_uid,
                states.len() == k + 1,
                states[0] == *old(self),
                states[k as int] == *self,
                forall|j: int|
                    0 <= j < k ==> item_relayed(
                        states[j],
                        states[j + 1],
                        plan@,
                        *env,
                        si as int,
                        di as int,
                        #[trigger] items[j],
                    ),
            decreases n - k,
        {
            let ghost was = *self;
            proof {
                assert forall|i: int| 0 <= i < self.sessions@.len() implies (
                #[trigger] self.sessions@[i]).next_xfer + 2 <= u64::MAX by {
                    assert(s0[i].next_xfer + 2 * n <= u64::MAX);
                }
            }
            self.relay_item(plan, env, si, di, k);
            proof {
                let old_states = states;
                states = states.push(*self);
                assert forall|j: int| 0 <= j < k + 1 implies item_relayed(
                    states[j],
                    states[j + 1],
                    plan@,
                    *env,
                    si as int,
                    di as int,
                    #[trigger] items[j],
                ) by {
                    if j < k {
                        assert(states[j] == old_states[j] && states[j + 1] == old_states[j + 1]);
                    } else {
                        assert(states[j] == was);
                    }
                }
                assert forall|i: int| 0 <= i < s0.len() implies (
                #[trigger] self.sessions@[i]).next_xfer <= s0[i].next_xfer + 2 * (k + 1) by {
                    assert(was.sessions@[i].next_xfer <= s0[i].next_xfer + 2 * k);
                }
                assert forall|i: int| 0 <= i < s0.len() implies (
                #[trigger] self.sessions@[i]).uid == s0[i].uid by {
                    assert(was.sessions@[i].uid == s0[i].uid);
                }
            }
            k = k + 1;
        }
        let ghost last = *self;
        self.show_transfers = true;
        self.xfer_just_opened = true;
        let text = if plan.is_cut {
            count_text(
                ("跨服务器移动 ", " 项（经本地中转）…"),
                ("Cross-server move ", " (via local relay) …"),
                self.lang,
                n,
            )
        } else {
            count_text(
                ("跨服务器复制 ", " 项（经本地中转）…"),
                ("Cross-server copy ", " (via local relay) …"),
                self.lang,
                n,
            )
        };
        self.say(di, text);
        proof {
            assert(items_relayed(states, plan@, *env, si as int, di as int));
            assert forall|i: int| 0 <= i < s0.len() implies (#[trigger] self.sessions@[i]).uid
                == s0[i].uid by {
                assert(last.sessions@[i].uid == s0[i].uid);
            }
        }
    }

    /// Carries out a planned paste.
    pub fn execute_paste(&mut self, plan: PendingPaste, env: &PasteEnv)
        requires
            plan.cross && plan.direct ==> room(*old(self), 2),
            plan.cross && !plan.direct ==> paste_room(*old(self), plan@.items.len() as int),
        ensures
            paste_ok(*old(self), *final(self), plan@, *env),
            old(self).wf() ==> final(self).wf(),
    {
        let ghost before = *self;
        let ghost view = plan@;
        let is_cut: bool = plan.is_cut;
        if !plan.cross {
            self.paste_locally(&plan);
            let ghost mid = *self;
            self.use_clip(is_cut);
            proof {
                assert(pasted_locally(before, mid, view) && clip_used(mid, *self, is_cut));
                assert(paste_ok(before, *self, view, *env));
                if before.wf() {
                    lemma_wf_kept(before, *self);
                }
            }
        } else if plan.direct {
            self.execute_direct(plan, env.host_known, false);
            let ghost mid = *self;
            self.use_clip(is_cut);
            proof {
                assert(direct_ok(before, mid, view, env.host_known, false) && clip_used(
                    mid,
                    *self,
                    is_cut,
                ));
                if before.wf() {
                    lemma_wf_kept(mid, *self);
                }
            }
        } else {
            let di: usize = match self.session_idx_by_uid(plan.dest_uid) {
                Some(i) => i,
                None => {
                    return;
                },
            };
            let si: usize = match self.session_idx_by_uid(plan.src_uid) {
                Some(i) => i,
                None => {
                    let text = tr(
                        self.lang,
                        "源会话已关闭，无法跨服务器粘贴",
                        "Source session closed; cannot paste across servers",
                    ).to_owned();
                    self.say(di, text);
                    proof {
                        if before.wf() {
                            lemma_wf_kept(before, *self);
                        }
                    }
                    return;
                },
            };
            self.paste_by_relay(&plan, env, si, di);
            let ghost mid = *self;
            self.use_clip(is_cut);
            proof {
                assert(uid_pos(before.sessions@, view.dest_uid) == Some(di as int));
                assert(uid_pos(before.sessions@, view.src_uid) == Some(si as int));
                assert(pasted_by_relay(before, mid, view, *env, si as int, di as int) && clip_used(
                    mid,
                    *self,
                    is_cut,
                ));
                assert(relayed_and_used(before, *self, view, *env, si as int, di as int));
                assert(paste_ok(before, *self, view, *env));
                if before.wf() {
                    lemma_wf_kept(before, *self);
                }
            }
        }
    }

    /// The user's answer to whether a push that failed is to be carried out through this machine.
    pub fn answer_direct_fallback(&mut self, go: bool, env: &PasteEnv)
        requires
            old(self).xfer.pending_direct_fallback@.len() > 0 ==> {
                let plan = old(self).xfer.pending_direct_fallback@[0].plan@;
                &&& plan.cross && plan.direct ==> room(*old(self), 2)
                &&& plan.cross && !plan.direct ==> paste_room(
                    *old(self),
                    plan.items.len() as int,
                )
            },
        ensures
            fallback_answered(*old(self), *final(self), go, *env),
            old(self).wf() ==> final(self).wf(),
    {
        if self.xfer.pending_direct_fallback.len() == 0 {
            return;
        }
        let ghost before = *self;
        let fb = self.xfer.pending_direct_fallback.remove(0);
        let ghost mid = *self;
        assert(mid.xfer.pending_direct_fallback@ =~= before.xfer.pending_direct_fallback@.skip(1));
        assert(without_first_question(before, mid));
        if go {
            self.execute_paste(fb.plan, env);
        }
    }
}

/// The program after the first question about a failed push was closed.
pub open spec fn without_first_question(before: App, after: App) -> bool {
    &&& after.xfer.pending_direct_fallback@ == before.xfer.pending_direct_fallback@.skip(1)
    &&& after == (App {
        xfer: Transfers {
            pending_direct_fallback: after.xfer.pending_direct_fallback,
            ..before.xfer
        },
        ..before
    })
}

/// What the answer to the first question about a failed push does.
pub open spec fn fallback_answered(before: App, after: App, go: bool, env: PasteEnv) -> bool {
    if before.xfer.pending_direct_fallback@.len() == 0 {
        after == before
    } else {
        exists|mid: App|
            {
                &&& #[trigger] without_first_question(before, mid)
                &&& if go {
                    paste_ok(mid, after, before.xfer.pending_direct_fallback@[0].plan@, env)
                } else {
                    after == mid
                }
            }
    }
}

} // verus!
