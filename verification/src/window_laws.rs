//! What the windows make of what the user does in them, told by the commands that the workers get.
use vstd::prelude::*;
use vstd::string::*;
use vstd::utf8::*;

use crate::app::App;
use crate::events::{connects, forward_pos, lemma_forward_pos, readd_commands, resume_commands, EventEnv};
use crate::forwards::{
    asked_forward, form_shows, forward_added, forward_removed, forward_submitted, ForwardEntry,
    ForwardForm,
};
use crate::paths::is_loopback;
use crate::popups::{proc_clicked, proc_frame_ok, ProcClicks};
use crate::proto::{
    CommandView, ConflictPolicy, ForwardKind, ForwardSpec, ForwardSpecView, Lang, UiCommand,
};
use crate::quoting::{
    in_single_quotes, needs_quotes, posix_word, quoted_path_reads_back, shell_word,
};
use crate::request_laws::{lemma_sent_one, lemma_stands, stands_at};
use crate::saved::Transport;
use crate::session::{image_pasted, path_typed, Session};
use crate::text::{decimal, number_of, trim_end_of, trim_of, trim_start_of, u16_of, CharClass};
use crate::text_laws::decimal_is_digits;
use crate::view_state::{
    effect_ok, settings_clicked, view_clicked, MenuClick, MenuEffect, MenuSettings, ViewState,
};

verus! {

/// Nothing is trimmed off a text that starts and ends with something.
pub(crate) proof fn lemma_trim_nothing(s: Seq<char>)
    requires
        s.len() > 0,
        !crate::text::is_white(s[0]),
        !crate::text::is_white(s.last()),
    ensures
        trim_of(s) == s,
{
    assert(trim_start_of(s, CharClass::White) == s);
    assert(trim_end_of(s, CharClass::White) == s);
}

proof fn lemma_number(n: nat)
    ensures
        number_of(decimal(n)) == n,
    decreases n,
{
    let last = (n % 10) as nat;
    assert(((48 + last) as u8) as char as u32 == 48 + last);
    if n < 10 {
        assert(decimal(n).drop_last() =~= Seq::empty());
        assert(number_of(Seq::<char>::empty()) == 0);
    } else {
        lemma_number(n / 10);
        assert(decimal(n).drop_last() =~= decimal(n / 10));
    }
}

/// A port that is written in decimal is read as that port.
pub proof fn a_port_reads_back(port: u16)
    ensures
        u16_of(trim_of(decimal(port as nat))) == Some(port),
{
    let d = decimal(port as nat);
    decimal_is_digits(port as nat);
    lemma_number(port as nat);
    assert('0' <= d[0] <= '9');
    assert('0' <= d[d.len() - 1] <= '9');
    lemma_trim_nothing(d);
    assert forall|i: int| 0 <= i < d.len() implies crate::text::is_digit(#[trigger] d[i]) by {}
}

/// Whether a text is trimmed and not empty.
pub open spec fn is_word(s: Seq<char>) -> bool {
    s.len() > 0 && trim_of(s) == s
}

/// A forward that is opened to be changed, and saved without a change, is the forward that it was:
/// the same local address, and the same host and port behind the server.
pub proof fn a_forward_reads_back_from_its_form(form: ForwardForm, f: ForwardEntry)
    requires
        form_shows(form, f),
        is_word(f.bind_host@),
        f.kind is Local ==> is_word(f.kind->Local_remote_host@),
    ensures
        asked_forward(form) is Some,
        ({
            let spec = asked_forward(form)->0;
            &&& spec.bind_host == f.bind_host@
            &&& spec.bind_port == f.bind_port
            &&& spec.kind == f.kind@
        }),
{
    a_port_reads_back(f.bind_port);
    match f.kind {
        ForwardKind::Local { remote_port, .. } => {
            a_port_reads_back(remote_port);
        },
        ForwardKind::Dynamic => {},
    }
}

/// A filled-in form asks for what was typed: the local address, the loopback one where none was
/// typed, and for a forward to one host that host and port.
pub proof fn a_form_asks_for_what_was_typed(form: ForwardForm, local: u16, remote: u16)
    requires
        form.local_port@ == decimal(local as nat),
        form.kind == 0 ==> form.target_port@ == decimal(remote as nat) && is_word(form.target_host@),
        is_word(form.bind@) || form.bind@.len() == 0,
    ensures
        asked_forward(form) is Some,
        ({
            let spec = asked_forward(form)->0;
            &&& spec.bind_port == local
            &&& form.bind@.len() > 0 ==> spec.bind_host == form.bind@
            &&& form.bind@.len() == 0 ==> spec.bind_host == "127.0.0.1"@
            &&& form.kind == 0 <==> spec.kind is Local
            &&& form.kind == 0 ==> spec.kind->Local_remote_host == form.target_host@
                && spec.kind->Local_remote_port == remote
        }),
{
    a_port_reads_back(local);
    a_port_reads_back(remote);
    if form.bind@.len() == 0 {
        assert(trim_of(form.bind@).len() == 0);
    }
}

/// An order to set up a forward is for this entry of the list.
pub open spec fn sets_up(cmd: UiCommand, f: ForwardEntry) -> bool {
    &&& cmd is AddForward
    &&& cmd->AddForward_0.id == f.id
    &&& cmd->AddForward_0.bind_host@ == f.bind_host@
    &&& cmd->AddForward_0.bind_port == f.bind_port
    &&& match f.kind {
        ForwardKind::Local { remote_host, remote_port } => {
            let kind = cmd->AddForward_0.kind;
            &&& kind is Local
            &&& kind->Local_remote_host@ == remote_host@
            &&& kind->Local_remote_port == remote_port
        },
        ForwardKind::Dynamic => cmd->AddForward_0.kind is Dynamic,
    }
}

/// A forward that is added stands last in the list as it was asked for, with a number of its own, and
/// its worker is told to set up that one.
pub proof fn an_added_forward_is_set_up(
    before: Session,
    after: Session,
    spec: ForwardSpecView,
    lang: Lang,
)
    requires
        forward_added(before, after, spec, lang),
        before.link.takes > 0,
    ensures
        after.link.sent@.len() == before.link.sent@.len() + 1,
        after.forwards@.len() == before.forwards@.len() + 1,
        sets_up(after.link.sent@.last(), after.forwards@.last()),
        after.forwards@.last().id == before.next_forward,
        after.next_forward > before.next_forward,
        after.forwards@.last().bind_host@ == spec.bind_host,
        after.forwards@.last().bind_port == spec.bind_port,
        after.forwards@.last().kind@ == spec.kind,
{
    lemma_sent_one(
        before.link,
        after.link,
        CommandView::AddForward(ForwardSpecView { id: before.next_forward, ..spec }),
    );
}

/// A forward that is removed is gone from the list, every other one stays, and the worker is told to
/// take down that one.
pub proof fn a_removed_forward_is_taken_down(before: Session, after: Session, id: u64, f: ForwardEntry)
    requires
        forward_removed(before, after, id),
        before.link.takes > 0,
    ensures
        after.link.sent@.len() == before.link.sent@.len() + 1,
        after.link.sent@.last() == UiCommand::RemoveForward(id),
        f.id == id ==> !after.forwards@.contains(f),
        f.id != id ==> (after.forwards@.contains(f) <==> before.forwards@.contains(f)),
{
    lemma_sent_one(before.link, after.link, CommandView::RemoveForward(id));
    let keep = |x: ForwardEntry| x.id != id;
    let all = before.forwards@;
    broadcast use vstd::seq_lib::group_filter_ensures;

    let left = crate::forwards::without_forward(all, id);
    assert(left == all.filter(keep));
    if left.contains(f) {
        let i = choose|i: int| 0 <= i < left.len() && left[i] == f;
        crate::forwards::lemma_filtered(all, id);
        assert(crate::forwards::without_forward(all, id)[i] == f);
        assert(all.contains(f));
    }
    if f.id != id && all.contains(f) {
        let i = choose|i: int| 0 <= i < all.len() && all[i] == f;
        assert(keep(all[i]));
        assert(left.contains(all[i]));
    }
}

/// No forward that others could reach is set up before the user agreed: a form that asks for one only
/// raises the question, and one whose local address is taken only says so.
pub proof fn an_open_address_is_asked_about(
    before: App,
    after: App,
    idx: int,
    spec: ForwardSpecView,
    port_in_use: bool,
)
    requires
        forward_submitted(before, after, idx, spec, port_in_use),
        0 <= idx < before.sessions@.len(),
        before.fwd.editing is None,
        ({
            let h = trim_of(spec.bind_host);
            ||| h.len() > 0 && h != "127.0.0.1"@ && h != "localhost"@ && h != "::1"@
            ||| port_in_use
            ||| exists|i: int|
                0 <= i < before.sessions@[idx].forwards@.len() && (
                #[trigger] before.sessions@[idx].forwards@[i]).bind_port == spec.bind_port
                    && before.sessions@[idx].forwards@[i].bind_host@ == spec.bind_host
        }),
    ensures
        after.sessions == before.sessions,
        after.fwd.error is Some || (after.fwd.pending_open_bind is Some
            && after.fwd.pending_open_bind->0@ == spec),
{
    let fs = before.sessions@[idx].forwards@;
    if exists|i: int|
        0 <= i < fs.len() && (#[trigger] fs[i]).bind_port == spec.bind_port && fs[i].bind_host@
            == spec.bind_host {
        let i = choose|i: int|
            0 <= i < fs.len() && (#[trigger] fs[i]).bind_port == spec.bind_port && fs[i].bind_host@
                == spec.bind_host;
        assert(crate::forwards::same_address(fs[i], spec));
        assert(crate::forwards::is_duplicate(fs, spec, None));
    }
}

/// Every forward of a session is set up again as it was once the session is connected again.
pub proof fn every_forward_is_set_up_again(
    before: Session,
    after: Session,
    env: EventEnv,
    i: int,
)
    requires
        connects(before, after, env),
        0 <= i < before.forwards@.len(),
        before.link.takes >= before.transfers@.len() + before.forwards@.len(),
    ensures
        exists|k: int|
            before.link.sent@.len() <= k < after.link.sent@.len() && sets_up(
                #[trigger] after.link.sent@[k],
                before.forwards@[i],
            ),
        after.forwards == before.forwards,
{
    crate::transfer_laws::lemma_resume_len(before.transfers@);
    let first = resume_commands(before.transfers@);
    let all = first + readd_commands(before.forwards@);
    assert(all.take(all.len() as int) =~= all);
    let k = before.link.sent@.len() + first.len() + i;
    assert(after.link.log() == before.link.log() + all);
    assert(after.link.log().len() == after.link.sent@.len());
    assert(after.link.log()[k] == all[first.len() + i]);
    assert(after.link.log()[k] == after.link.sent@[k]@);
    assert(sets_up(after.link.sent@[k], before.forwards@[i]));
}

/// The session that the window about a process was opened for is told to kill that very process, once
/// the user agreed, and nobody else is told anything.
pub proof fn the_confirmed_process_is_killed(before: App, after: App, c: ProcClicks, i: int)
    requires
        proc_frame_ok(before, after, c),
        before.popups.proc_info is Some,
        before.popups.proc_info->0.confirm_kill,
        c.kill,
        stands_at(before, before.popups.proc_info->0.uid, i),
        before.sessions@[i].monitor_ok != Some(false),
        before.sessions@[i].link.takes > 0,
    ensures
        after.sessions@[i].link.sent@.len() == before.sessions@[i].link.sent@.len() + 1,
        after.sessions@[i].link.sent@.last() == UiCommand::KillProc(
            before.popups.proc_info->0.pid,
        ),
        after.popups.proc_info is None,
        forall|j: int|
            0 <= j < before.sessions@.len() && j != i ==> #[trigger] after.sessions@[j]
                == before.sessions@[j],
{
    lemma_stands(before, before.popups.proc_info->0.uid, i);
    lemma_sent_one(
        before.sessions@[i].link,
        after.sessions@[i].link,
        CommandView::KillProc(before.popups.proc_info->0.pid),
    );
}

/// A process that is clicked is asked about in the session that is shown, and the window that opens
/// is about that process of that session, with nothing confirmed yet.
pub proof fn the_clicked_process_is_asked_about(
    before: App,
    after: App,
    pid: u32,
    name: Option<String>,
)
    requires
        proc_clicked(before, after, pid, name),
        before.active is Some,
        before.active->0 < before.sessions@.len(),
        before.sessions@[before.active->0 as int].link.takes > 0,
    ensures
        ({
            let i = before.active->0 as int;
            &&& after.sessions@[i].link.sent@.len() == before.sessions@[i].link.sent@.len() + 1
            &&& after.sessions@[i].link.sent@.last() == UiCommand::ProcDetail(pid)
            &&& name is Some ==> {
                &&& after.popups.proc_info is Some
                &&& after.popups.proc_info->0.pid == pid
                &&& after.popups.proc_info->0.name == name->0
                &&& after.popups.proc_info->0.uid == before.sessions@[i].uid
                &&& !after.popups.proc_info->0.confirm_kill
            }
            &&& name is None ==> after.popups == before.popups
        }),
{
    let i = before.active->0 as int;
    lemma_sent_one(
        before.sessions@[i].link,
        after.sessions@[i].link,
        CommandView::ProcDetail(pid),
    );
}

/// A path is typed into the terminal as one word with a blank behind it and no line end: as it is
/// where it needs no quotes, and else so that a POSIX shell reads it back as the path.
pub proof fn a_path_is_typed_as_one_word(
    before: Session,
    after: Session,
    path: Seq<char>,
    windows: bool,
    lang: Lang,
)
    requires
        path_typed(before, after, path, windows, lang),
        before.link.takes > 0,
        before.cfg.transport != Transport::Local || !windows,
    ensures
        after.link.sent@.len() == before.link.sent@.len() + 1,
        after.link.sent@.last() is TerminalInput,
        exists|word: Seq<char>|
            {
                &&& after.link.sent@.last()->TerminalInput_0@ == #[trigger] encode_utf8(
                    word + seq![' '],
                )
                &&& needs_quotes(path, false) ==> posix_word(word, false) == Some(path)
                &&& !needs_quotes(path, false) ==> word == path
            },
{
    let word = shell_word(path, false);
    reveal_strlit(" ");
    assert(" "@ =~= seq![' ']);
    quoted_path_reads_back(path);
    lemma_sent_one(
        before.link,
        after.link,
        CommandView::TerminalInput(encode_utf8(word + " "@)),
    );
    assert(after.link.sent@.last()->TerminalInput_0@ == encode_utf8(word + seq![' ']));
}

/// An image that is pasted into a session on a server is sent to it, from the file it was saved in, to
/// a file of its own in `/tmp`, and that path is remembered to be typed once it has arrived.
pub proof fn a_pasted_image_is_sent(
    before: Session,
    after: Session,
    stamp: u64,
    local: String,
    size: u64,
    windows: bool,
    lang: Lang,
)
    requires
        image_pasted(before, after, stamp, Ok(local), size, windows, lang),
        before.cfg.transport == Transport::Ssh,
        before.link.takes > 0,
    ensures
        ({
            let cmd = after.link.sent@.last();
            let p = after.pending_paste_image@.last();
            &&& after.link.sent@.len() == before.link.sent@.len() + 1
            &&& cmd is Upload
            &&& cmd->Upload_id == before.next_xfer
            &&& cmd->Upload_local@ == local@
            &&& cmd->Upload_remote_dir@ == "/tmp"@
            &&& cmd->Upload_remote_name is Some
            &&& cmd->Upload_policy == ConflictPolicy::Overwrite
            &&& after.pending_paste_image@.len() == before.pending_paste_image@.len() + 1
            &&& p.0 == before.next_xfer
            &&& p.1@ == cmd->Upload_remote_dir@ + seq!['/'] + cmd->Upload_remote_name->0@
            &&& after.transfers@.len() == before.transfers@.len() + 1
            &&& after.transfers@.last().id == before.next_xfer
            &&& after.transfers@.last().total == size
            &&& after.next_xfer > before.next_xfer
        }),
{
    let name = crate::session::paste_name_of(stamp);
    lemma_sent_one(
        before.link,
        after.link,
        CommandView::Upload {
            id: before.next_xfer,
            local: local@,
            remote_dir: "/tmp"@,
            remote_name: Some(name),
            policy: ConflictPolicy::Overwrite,
        },
    );
    reveal_strlit("/tmp");
    reveal_strlit("/tmp/");
    assert("/tmp/"@ + name =~= "/tmp"@ + seq!['/'] + name);
}

/// Two images that are pasted at different moments get different files.
pub proof fn pasted_images_stay_apart(a: u64, b: u64)
    requires
        a != b,
    ensures
        crate::session::paste_name_of(a) != crate::session::paste_name_of(b),
{
    let x = crate::session::paste_name_of(a);
    let y = crate::session::paste_name_of(b);
    let head = "ishell-paste-"@;
    let tail = ".png"@;
    if x == y {
        assert(x.subrange(head.len() as int, x.len() - tail.len()) =~= decimal(a as nat));
        assert(y.subrange(head.len() as int, y.len() - tail.len()) =~= decimal(b as nat));
        crate::text_laws::lemma_decimal_differs(a as nat, b as nat);
    }
}

/// What the menu stores is what it now says: each switch turns one setting round, stores its new
/// value and leaves every other one alone, and the same switch turns it back.
pub proof fn a_switch_stores_what_it_shows(
    view: ViewState,
    s: MenuSettings,
    click: MenuClick,
    effect: MenuEffect,
    token: Seq<char>,
)
    requires
        effect_ok(effect, s, click, token),
    ensures
        ({
            let t = settings_clicked(s, click);
            let v = view_clicked(view, click);
            &&& t.mcp_on != s.mcp_on <==> click == MenuClick::Mcp
            &&& t.auto_approve != s.auto_approve <==> click == MenuClick::AutoApprove
            &&& t.force_x11 != s.force_x11 <==> click == MenuClick::ForceX11
            &&& t.ime_follow != s.ime_follow <==> click == MenuClick::ImeFollow
            &&& t.notify != s.notify ==> click == MenuClick::Notify(t.notify)
            &&& click is Notify ==> t.notify == click->Notify_0 && effect == MenuEffect::StoreNotify(
                t.notify,
            )
            &&& click == MenuClick::Mcp ==> effect == MenuEffect::StoreMcp(t.mcp_on)
            &&& click == MenuClick::AutoApprove ==> effect == MenuEffect::StoreAutoApprove(
                t.auto_approve,
            )
            &&& click == MenuClick::ForceX11 ==> effect == MenuEffect::StoreForceX11(t.force_x11)
            &&& click == MenuClick::ImeFollow ==> effect == MenuEffect::StoreImeFollow(t.ime_follow)
            &&& click == MenuClick::CopyToken ==> effect is Copy && effect->Copy_0@
                == "ISHELL_MCP_TOKEN="@ + token
            &&& v.sidebar_hidden != view.sidebar_hidden <==> click == MenuClick::Sidebar
            &&& v.files_hidden != view.files_hidden <==> click == MenuClick::Files
            &&& v.about == (view.about || click == MenuClick::About)
            &&& v.osc7 == view.osc7
        }),
        !(click is Notify) ==> settings_clicked(settings_clicked(s, click), click) == s,
{
}

} // verus!
