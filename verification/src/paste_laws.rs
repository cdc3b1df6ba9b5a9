//! What the file clipboard takes, and what a paste of it moves, told by the commands that the workers
//! get.
use vstd::prelude::*;
use vstd::string::*;

use crate::app::{lemma_uid_pos, uid_pos, App};
use crate::clipboard::{paths_of, PasteView};
use crate::direct::{direct_ok, plain_key, push_started, push_steps};
use crate::paste::{
    clip_set, clip_used, download_asked, item_name, item_relayed, items_relayed, paste_ok,
    pasted_by_relay, pasted_locally, relay_text, relayed_and_used, start_paste_ok, status_set,
    upload_queued, PasteEnv,
};
use crate::proto::{CommandView, UiCommand};
use crate::relays::named;
use crate::request_laws::{lemma_sent_one, lemma_stands, stands_at};
use crate::saved::AuthView;
use crate::session::Session;
use crate::text::views;

verus! {

/// What is put on the clipboard is what was chosen, with the session that it lies on.
pub proof fn the_clipboard_holds_what_was_chosen(
    before: App,
    after: App,
    idx: int,
    items: Vec<(String, bool)>,
    is_cut: bool,
)
    requires
        clip_set(before, after, idx, items, is_cut),
        0 <= idx < before.sessions@.len(),
    ensures
        after.xfer.file_clip is Some,
        ({
            let c = after.xfer.file_clip->0;
            let s = before.sessions@[idx];
            &&& c.items@ == items@
            &&& c.is_cut == is_cut
            &&& c.src_uid == s.uid
            &&& c.src_host@ == s.cfg.host@
            &&& c.src_port == s.cfg.port
        }),
        forall|j: int|
            0 <= j < before.sessions@.len() ==> (#[trigger] after.sessions@[j]).link
                == before.sessions@[j].link,
{
}

/// A paste on the server that the files lie on is one order to the session that it was asked in: it
/// names every file of the clipboard and the directory, and moves them exactly where they were cut.
/// What was cut is taken off the clipboard, and what was copied stays on it.
pub proof fn a_paste_on_one_server_copies_or_moves(
    before: App,
    after: App,
    idx: int,
    dest_dir: Seq<char>,
    env: PasteEnv,
)
    requires
        start_paste_ok(before, after, idx, dest_dir, env),
        before.xfer.file_clip is Some,
        0 <= idx < before.sessions@.len(),
        stands_at(before, before.sessions@[idx].uid, idx),
        before.xfer.file_clip->0.src_host@ == before.sessions@[idx].cfg.host@,
        before.xfer.file_clip->0.src_port == before.sessions@[idx].cfg.port,
        before.sessions@[idx].link.takes > 0,
    ensures
        ({
            let clip = before.xfer.file_clip->0;
            let sent = after.sessions@[idx].link.sent@;
            let cmd = sent.last();
            &&& sent.len() == before.sessions@[idx].link.sent@.len() + 1
            &&& cmd is CopyMove
            &&& cmd->CopyMove_do_move == clip.is_cut
            &&& cmd->CopyMove_dest_dir@ == dest_dir
            &&& cmd->CopyMove_srcs@.len() == clip.items@.len()
            &&& forall|k: int|
                0 <= k < clip.items@.len() ==> (#[trigger] cmd->CopyMove_srcs@[k])@
                    == clip.items@[k].0@
            &&& clip.is_cut ==> after.xfer.file_clip is None
            &&& !clip.is_cut ==> after.xfer.file_clip == before.xfer.file_clip
        }),
        forall|j: int|
            0 <= j < before.sessions@.len() && j != idx ==> #[trigger] after.sessions@[j]
                == before.sessions@[j],
{
    let clip = before.xfer.file_clip->0;
    let plan = crate::paste::plan_of(clip, before.sessions@[idx], dest_dir);
    lemma_stands(before, before.sessions@[idx].uid, idx);
    let mid = choose|mid: App| #[trigger]
        pasted_locally(before, mid, plan) && clip_used(mid, after, plan.is_cut);
    let cmd = CommandView::CopyMove {
        srcs: paths_of(plan.items),
        dest_dir: plan.dest_dir,
        do_move: plan.is_cut,
    };
    lemma_sent_one(before.sessions@[idx].link, mid.sessions@[idx].link, cmd);
    let raw = after.sessions@[idx].link.sent@.last();
    let srcs = raw->CopyMove_srcs@;
    assert(views(srcs) == paths_of(named(clip.items@)));
    assert(views(srcs).len() == srcs.len());
    assert forall|k: int| 0 <= k < clip.items@.len() implies (#[trigger] srcs[k])@
        == clip.items@[k].0@ by {
        assert(views(srcs)[k] == srcs[k]@);
    }
}

/// A paste on another server does nothing yet: the user is asked about it, with the files, the two
/// ends and the directory as they were chosen, and the way through this machine preset.
pub proof fn a_paste_across_servers_is_asked_about(
    before: App,
    after: App,
    idx: int,
    dest_dir: Seq<char>,
    env: PasteEnv,
)
    requires
        start_paste_ok(before, after, idx, dest_dir, env),
        before.xfer.file_clip is Some,
        0 <= idx < before.sessions@.len(),
        before.xfer.file_clip->0.src_host@ != before.sessions@[idx].cfg.host@
            || before.xfer.file_clip->0.src_port != before.sessions@[idx].cfg.port,
    ensures
        after.sessions == before.sessions,
        after.xfer.file_clip == before.xfer.file_clip,
        after.xfer.relays == before.xfer.relays,
        after.xfer.direct_jobs == before.xfer.direct_jobs,
        after.xfer.pending_paste is Some,
        !after.xfer.confirm_direct,
        ({
            let clip = before.xfer.file_clip->0;
            let p = after.xfer.pending_paste->0;
            &&& p.items@.len() == clip.items@.len()
            &&& forall|k: int|
                0 <= k < clip.items@.len() ==> (#[trigger] p.items@[k]).0@ == clip.items@[k].0@
                    && p.items@[k].1 == clip.items@[k].1
            &&& p.is_cut == clip.is_cut
            &&& p.cross && !p.direct
            &&& p.src_uid == clip.src_uid
            &&& p.dest_uid == before.sessions@[idx].uid
            &&& p.dest_dir@ == dest_dir
        }),
{
    let clip = before.xfer.file_clip->0;
    let p = after.xfer.pending_paste->0;
    assert(named(p.items@) == named(clip.items@));
    assert(named(p.items@).len() == p.items@.len());
    assert(named(clip.items@).len() == clip.items@.len());
    assert forall|k: int| 0 <= k < clip.items@.len() implies (#[trigger] p.items@[k]).0@
        == clip.items@[k].0@ && p.items@[k].1 == clip.items@[k].1 by {
        assert(named(p.items@)[k] == named(clip.items@)[k]);
    }
}

/// Nothing that a link had is taken back, and what it has more takes no file away but for a cut.
pub open spec fn spares_files(a: Seq<CommandView>, b: Seq<CommandView>, is_cut: bool) -> bool {
    &&& a.len() <= b.len()
    &&& forall|k: int| 0 <= k < a.len() ==> #[trigger] b[k] == a[k]
    &&& forall|k: int|
        a.len() <= k < b.len() ==> {
            let cmd = #[trigger] b[k];
            &&& !(cmd is DeleteMany)
            &&& cmd is CopyMove ==> cmd->CopyMove_do_move == is_cut
        }
}

/// The same of all sessions.
spec fn spares_all(a: Seq<Session>, b: Seq<Session>, is_cut: bool) -> bool {
    &&& a.len() == b.len()
    &&& forall|i: int|
        0 <= i < a.len() ==> spares_files(
            a[i].link.log(),
            (#[trigger] b[i]).link.log(),
            is_cut,
        )
}

proof fn lemma_spares_trans(a: Seq<Session>, b: Seq<Session>, c: Seq<Session>, is_cut: bool)
    requires
        spares_all(a, b, is_cut),
        spares_all(b, c, is_cut),
    ensures
        spares_all(a, c, is_cut),
{
    assert forall|i: int| 0 <= i < a.len() implies spares_files(
        a[i].link.log(),
        (#[trigger] c[i]).link.log(),
        is_cut,
    ) by {
        let x = a[i].link.log();
        let y = b[i].link.log();
        let z = c[i].link.log();
        assert(spares_files(x, y, is_cut));
        assert(spares_files(y, z, is_cut));
        assert forall|k: int| 0 <= k < x.len() implies #[trigger] z[k] == x[k] by {
            assert(y[k] == x[k]);
        }
        assert forall|k: int| x.len() <= k < z.len() implies {
            let cmd = #[trigger] z[k];
            &&& !(cmd is DeleteMany)
            &&& cmd is CopyMove ==> cmd->CopyMove_do_move == is_cut
        } by {
            if k < y.len() {
                assert(z[k] == y[k]);
            }
        }
    }
}

proof fn lemma_item_spares(
    before: App,
    after: App,
    plan: PasteView,
    env: PasteEnv,
    si: int,
    di: int,
    item: (Seq<char>, bool),
)
    requires
        item_relayed(before, after, plan, env, si, di, item),
        0 <= si < before.sessions@.len(),
        0 <= di < before.sessions@.len(),
    ensures
        spares_all(before.sessions@, after.sessions@, plan.is_cut),
{
    let r = after.xfer.relays@.last();
    let mid = choose|mid: Seq<Session>|
        {
            &&& mid == before.sessions@.update(si, mid[si])
            &&& #[trigger] download_asked(before.sessions@[si], mid[si], item.0, r.tmp@)
            &&& r.up_id == mid[di].next_xfer
            &&& after.sessions@ == mid.update(di, after.sessions@[di])
            &&& #[trigger] upload_queued(mid[di], after.sessions@[di], item_name(item.0), before.lang)
        };
    assert(spares_all(before.sessions@, mid, plan.is_cut));
    assert(spares_all(mid, after.sessions@, plan.is_cut));
    lemma_spares_trans(before.sessions@, mid, after.sessions@, plan.is_cut);
}

proof fn lemma_items_spare(
    states: Seq<App>,
    plan: PasteView,
    env: PasteEnv,
    si: int,
    di: int,
    n: int,
)
    requires
        items_relayed(states, plan, env, si, di),
        0 <= n <= plan.items.len(),
        0 <= si < states[0].sessions@.len(),
        0 <= di < states[0].sessions@.len(),
    ensures
        spares_all(states[0].sessions@, states[n].sessions@, plan.is_cut),
        states[n].xfer.relays@.len() == states[0].xfer.relays@.len() + n,
        forall|k: int|
            0 <= k < n ==> {
                let r = #[trigger] states[n].xfer.relays@[states[0].xfer.relays@.len() + k];
                &&& r.src_path@ == plan.items[k].0
                &&& r.is_dir == plan.items[k].1
                &&& r.src_uid == plan.src_uid && r.dest_uid == plan.dest_uid
                &&& r.dest_dir@ == plan.dest_dir
                &&& r.is_cut == plan.is_cut
                &&& r.phase is Down
            },
    decreases n,
{
    if n > 0 {
        lemma_items_spare(states, plan, env, si, di, n - 1);
        let item = plan.items[n - 1];
        let a = states[n - 1];
        let b = states[n];
        assert(item_relayed(states[n - 1], states[n - 1 + 1], plan, env, si, di, plan.items[n - 1]));
        lemma_item_spares(a, b, plan, env, si, di, item);
        lemma_spares_trans(states[0].sessions@, a.sessions@, b.sessions@, plan.is_cut);
        let base = states[0].xfer.relays@.len();
        assert forall|k: int| 0 <= k < n implies {
            let r = #[trigger] b.xfer.relays@[base + k];
            &&& r.src_path@ == plan.items[k].0
            &&& r.is_dir == plan.items[k].1
            &&& r.src_uid == plan.src_uid && r.dest_uid == plan.dest_uid
            &&& r.dest_dir@ == plan.dest_dir
            &&& r.is_cut == plan.is_cut
            &&& r.phase is Down
        } by {
            if k < n - 1 {
                assert(b.xfer.relays@.drop_last()[base + k] == b.xfer.relays@[base + k]);
                assert(a.xfer.relays@[base + k] == b.xfer.relays@[base + k]);
            } else {
                assert(b.xfer.relays@[base + k] == b.xfer.relays@.last());
            }
        }
    }
}

/// A paste through this machine starts one copy for every file, in order, each from its own path to
/// the directory that was chosen, and a move is remembered as one.
pub proof fn every_pasted_file_is_relayed(
    before: App,
    after: App,
    plan: PasteView,
    env: PasteEnv,
    si: int,
    di: int,
    k: int,
)
    requires
        paste_ok(before, after, plan, env),
        plan.cross && !plan.direct,
        stands_at(before, plan.src_uid, si),
        stands_at(before, plan.dest_uid, di),
        0 <= k < plan.items.len(),
    ensures
        after.xfer.relays@.len() == before.xfer.relays@.len() + plan.items.len(),
        ({
            let r = after.xfer.relays@[before.xfer.relays@.len() + k];
            &&& r.src_path@ == plan.items[k].0
            &&& r.is_dir == plan.items[k].1
            &&& r.src_uid == plan.src_uid && r.dest_uid == plan.dest_uid
            &&& r.dest_dir@ == plan.dest_dir
            &&& r.is_cut == plan.is_cut
            &&& r.phase is Down
        }),
{
    lemma_stands(before, plan.src_uid, si);
    lemma_stands(before, plan.dest_uid, di);
    assert(relayed_and_used(before, after, plan, env, si, di));
    let mid = choose|mid: App| #[trigger]
        pasted_by_relay(before, mid, plan, env, si, di) && clip_used(mid, after, plan.is_cut);
    let states = lemma_relay_states(before, mid, plan, env, si, di);
    lemma_items_spare(states, plan, env, si, di, plan.items.len() as int);
    assert(after.xfer.relays@ == states[plan.items.len() as int].xfer.relays@);
}

proof fn lemma_relay_states(
    before: App,
    after: App,
    plan: PasteView,
    env: PasteEnv,
    si: int,
    di: int,
) -> (states: Seq<App>)
    requires
        pasted_by_relay(before, after, plan, env, si, di),
    ensures
        items_relayed(states, plan, env, si, di),
        states[0] == before,
        status_set(
            states[plan.items.len() as int].sessions@,
            after.sessions@,
            di,
            relay_text(plan.is_cut, before.lang, plan.items.len()),
        ),
        after == (App {
            sessions: after.sessions,
            show_transfers: true,
            xfer_just_opened: true,
            ..states[plan.items.len() as int]
        }),
{
    choose|states: Seq<App>|
        {
            &&& #[trigger] items_relayed(states, plan, env, si, di)
            &&& states[0] == before
            &&& {
                let last = states[plan.items.len() as int];
                &&& status_set(
                    last.sessions@,
                    after.sessions@,
                    di,
                    relay_text(plan.is_cut, before.lang, plan.items.len()),
                )
                &&& after == (App {
                    sessions: after.sessions,
                    show_transfers: true,
                    xfer_just_opened: true,
                    ..last
                })
            }
        }
}

proof fn lemma_push_spares(
    before: App,
    after: App,
    plan: PasteView,
    host_known: bool,
)
    requires
        direct_ok(before, after, plan, host_known, false),
    ensures
        spares_all(before.sessions@, after.sessions@, plan.is_cut),
{
    lemma_uid_pos(before.sessions@, plan.src_uid);
    lemma_uid_pos(before.sessions@, plan.dest_uid);
    let s = uid_pos(before.sessions@, plan.src_uid);
    let d = uid_pos(before.sessions@, plan.dest_uid);
    if s is Some && d is Some && plain_key(before.sessions@[d->0].cfg.auth@) is Some && host_known {
        let si = s->0;
        let di = d->0;
        let key = plain_key(before.sessions@[di].cfg.auth@)->0;
        assert(push_started(before, after, plan, si, di, key, host_known));
        lemma_push_started_spares(before, after, plan, si, di, key, host_known);
    }
}

proof fn lemma_push_started_spares(
    before: App,
    after: App,
    plan: PasteView,
    si: int,
    di: int,
    key: Seq<char>,
    host_known: bool,
)
    requires
        push_started(before, after, plan, si, di, key, host_known),
        0 <= si < before.sessions@.len(),
        0 <= di < before.sessions@.len(),
    ensures
        spares_all(before.sessions@, after.sessions@, plan.is_cut),
{
    let steps = choose|steps: Seq<Seq<Session>>|
        {
            &&& #[trigger] push_steps(steps, plan, si, di, key, host_known, before.lang)
            &&& steps[0] == before.sessions@
            &&& steps[4] == after.sessions@
            &&& after.xfer.direct_jobs@.len() == before.xfer.direct_jobs@.len() + 1
            &&& after.xfer.direct_jobs@.drop_last() == before.xfer.direct_jobs@
            &&& crate::direct::is_job(
                after.xfer.direct_jobs@.last(),
                plan,
                steps[0][si].next_xfer,
                steps[1][di].next_xfer,
            )
            &&& after == (App {
                sessions: after.sessions,
                xfer: crate::clipboard::Transfers {
                    direct_jobs: after.xfer.direct_jobs,
                    ..before.xfer
                },
                show_transfers: true,
                xfer_just_opened: true,
                ..before
            })
        };
    assert(spares_all(steps[0], steps[1], plan.is_cut));
    assert(spares_all(steps[1], steps[2], plan.is_cut));
    assert(spares_all(steps[2], steps[3], plan.is_cut));
    assert(spares_all(steps[3], steps[4], plan.is_cut));
    lemma_spares_trans(steps[0], steps[1], steps[2], plan.is_cut);
    lemma_spares_trans(steps[0], steps[2], steps[3], plan.is_cut);
    lemma_spares_trans(steps[0], steps[3], steps[4], plan.is_cut);
}

/// A file leaves its place only for a cut: whatever a paste is planned to do, no worker is told to
/// delete anything when it starts, and one that is told to move files is so for a cut alone.
pub proof fn a_file_leaves_its_place_only_for_a_cut(
    before: App,
    after: App,
    plan: PasteView,
    env: PasteEnv,
    i: int,
    n: int,
)
    requires
        paste_ok(before, after, plan, env),
        0 <= i < before.sessions@.len(),
        before.sessions@[i].link.sent@.len() <= n < after.sessions@[i].link.sent@.len(),
    ensures
        !(after.sessions@[i].link.sent@[n] is DeleteMany),
        after.sessions@[i].link.sent@[n] is CopyMove
            ==> after.sessions@[i].link.sent@[n]->CopyMove_do_move == plan.is_cut,
{
    lemma_uid_pos(before.sessions@, plan.src_uid);
    lemma_uid_pos(before.sessions@, plan.dest_uid);
    if !plan.cross {
        let mid = choose|mid: App| #[trigger]
            pasted_locally(before, mid, plan) && clip_used(mid, after, plan.is_cut);
        assert(spares_all(before.sessions@, mid.sessions@, plan.is_cut));
    } else if plan.direct {
        let mid = choose|mid: App| #[trigger]
            direct_ok(before, mid, plan, env.host_known, false) && clip_used(
                mid,
                after,
                plan.is_cut,
            );
        lemma_push_spares(before, mid, plan, env.host_known);
    } else {
        let s = uid_pos(before.sessions@, plan.src_uid);
        let d = uid_pos(before.sessions@, plan.dest_uid);
        if s is Some && d is Some {
            let si = s->0;
            let di = d->0;
            let mid = choose|mid: App| #[trigger]
                pasted_by_relay(before, mid, plan, env, si, di) && clip_used(
                    mid,
                    after,
                    plan.is_cut,
                );
            let states = lemma_relay_states(before, mid, plan, env, si, di);
            let last = states[plan.items.len() as int];
            lemma_items_spare(states, plan, env, si, di, plan.items.len() as int);
            assert(spares_all(last.sessions@, mid.sessions@, plan.is_cut));
            lemma_spares_trans(before.sessions@, last.sessions@, mid.sessions@, plan.is_cut);
        }
    }
    assert(spares_all(before.sessions@, after.sessions@, plan.is_cut));
    let a = before.sessions@[i].link.log();
    let b = after.sessions@[i].link.log();
    assert(spares_files(a, b, plan.is_cut));
    assert(b[n] == after.sessions@[i].link.sent@[n]@);
}

/// A target is pushed to only with a key file that needs no passphrase, and with that very file.
pub proof fn a_push_needs_a_plain_key(auth: AuthView)
    ensures
        plain_key(auth) is Some <==> auth is KeyFile && (auth->KeyFile_passphrase is None
            || auth->KeyFile_passphrase->0.len() == 0),
        plain_key(auth) is Some ==> plain_key(auth)->0 == auth->KeyFile_path,
{
}

} // verus!
