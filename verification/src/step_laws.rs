//! What the windows and the frames make of one click or one step, and what they leave alone.
use vstd::prelude::*;
use vstd::string::*;

use crate::app::{lemma_uid_pos, uid_pos, App};
use crate::clipboard::{DirectJob, Relay, RelayPhase};
use crate::direct::push_moves;
use crate::forwards::{
    forward_committed, forward_frames, forward_removed, forward_submitted, forward_window_ok,
    ForwardClicks,
};
use crate::frame::frame_begun;
use crate::image_view::file_name_of;
use crate::paste::{fallback_answered, paste_ok, without_first_question, PasteEnv};
use crate::paste_laws::every_pasted_file_is_relayed;
use crate::proto::{ForwardSpecView, Lang, UiCommand};
use crate::relays::{relay_after, relays_advance, relays_left, relays_move, temps_done};
use crate::request_laws::stands_at;
use crate::session::Session;
use crate::tab_strip::drop_target;
use crate::tabs::due_uids;
use crate::text::last_index_of;
use crate::transfer_list::{
    row_cancelled, row_removed, row_resumed, server_cancelled, server_cleared, server_retried,
    transfer_frames, transfer_window_ok, XferClicks,
};
use crate::transfers::{lemma_transfer_pos, transfer_pos, Transfer};
use crate::window_laws::{a_removed_forward_is_taken_down, an_added_forward_is_set_up, sets_up};

verus! {

/// Session `uid` stands at `s` and its transfer `id` at `t`.
pub open spec fn row_at(ss: Seq<Session>, uid: u64, id: u64, s: int, t: int) -> bool {
    &&& 0 <= s < ss.len() && ss[s].uid == uid
    &&& forall|j: int| 0 <= j < s ==> (#[trigger] ss[j]).uid != uid
    &&& 0 <= t < ss[s].transfers@.len() && ss[s].transfers@[t].id == id
    &&& forall|j: int| 0 <= j < t ==> (#[trigger] ss[s].transfers@[j]).id != id
}

pub(crate) proof fn lemma_row_at(ss: Seq<Session>, uid: u64, id: u64, s: int, t: int)
    requires
        row_at(ss, uid, id, s, t),
    ensures
        uid_pos(ss, uid) == Some(s),
        transfer_pos(ss[s].transfers@, id) == Some(t),
{
    lemma_uid_pos(ss, uid);
    lemma_transfer_pos(ss[s].transfers@, id);
}

/// A copy through this machine waits while its half runs, goes from the download to the upload once the
/// file is here, and is over once the file was sent or a half failed.
pub proof fn a_relayed_copy_ends_when_it_is_sent(ss: Seq<Session>, r: Relay, s: int, t: int)
    requires
        match r.phase {
            RelayPhase::Down(id) => row_at(ss, r.src_uid, id, s, t),
            RelayPhase::Up(id) => row_at(ss, r.dest_uid, id, s, t),
        },
    ensures
        ss[s].transfers@[t].ok is None ==> relay_after(ss, r) == Some(r),
        ss[s].transfers@[t].ok == Some(false) ==> relay_after(ss, r) is None,
        ss[s].transfers@[t].ok == Some(true) && r.phase is Up ==> relay_after(ss, r) is None,
        ss[s].transfers@[t].ok == Some(true) && r.phase is Down && (exists|d: int|
            0 <= d < ss.len() && (#[trigger] ss[d]).uid == r.dest_uid) ==> relay_after(ss, r) is Some
            && relay_after(ss, r)->0.phase == RelayPhase::Up(r.up_id),
{
    match r.phase {
        RelayPhase::Down(id) => {
            lemma_row_at(ss, r.src_uid, id, s, t);
        },
        RelayPhase::Up(id) => {
            lemma_row_at(ss, r.dest_uid, id, s, t);
        },
    }
    lemma_uid_pos(ss, r.dest_uid);
}

/// The same copy, whatever half is under way.
pub open spec fn same_copy(a: Relay, b: Relay) -> bool {
    &&& a.src_path == b.src_path && a.dest_dir == b.dest_dir && a.tmp == b.tmp
    &&& a.src_uid == b.src_uid && a.dest_uid == b.dest_uid && a.up_id == b.up_id
    &&& a.is_dir == b.is_dir && a.is_cut == b.is_cut
}

proof fn lemma_left(rs: Seq<Relay>, states: Seq<Seq<Session>>, k: int)
    requires
        states.len() >= rs.len(),
        0 <= k < rs.len(),
    ensures
        (exists|n: int|
            0 <= n < relays_left(rs, states).len() && same_copy(
                #[trigger] relays_left(rs, states)[n],
                rs[k],
            )) || temps_done(rs, states).contains((rs[k].tmp@, rs[k].is_dir)),
    decreases rs.len(),
{
    let d = rs.drop_last();
    let e = states.drop_last();
    let left = relays_left(rs, states);
    let done = temps_done(rs, states);
    let now = relay_after(states[rs.len() - 1], rs.last());
    if k < d.len() {
        lemma_left(d, e, k);
        let left2 = relays_left(d, e);
        let done2 = temps_done(d, e);
        if done2.contains((rs[k].tmp@, rs[k].is_dir)) {
            let n = choose|n: int| 0 <= n < done2.len() && done2[n] == (rs[k].tmp@, rs[k].is_dir);
            assert(done[n] == done2[n]);
        } else {
            let n = choose|n: int|
                0 <= n < left2.len() && same_copy(#[trigger] left2[n], d[k]);
            assert(left[n] == left2[n]);
            assert(same_copy(left[n], rs[k]));
        }
    } else {
        match now {
            Some(q) => {
                assert(left[left.len() - 1] == q);
                assert(same_copy(left[left.len() - 1], rs[k]));
            },
            None => {
                assert(done[done.len() - 1] == (rs[k].tmp@, rs[k].is_dir));
            },
        }
    }
}

proof fn lemma_temps(rs: Seq<Relay>, states: Seq<Seq<Session>>, n: int)
    requires
        states.len() >= rs.len(),
        0 <= n < temps_done(rs, states).len(),
    ensures
        exists|k: int|
            0 <= k < rs.len() && temps_done(rs, states)[n] == (
                (#[trigger] rs[k]).tmp@,
                rs[k].is_dir,
            ),
    decreases rs.len(),
{
    if rs.len() > 0 {
        let d = rs.drop_last();
        let rest = temps_done(d, states.drop_last());
        if n < rest.len() {
            lemma_temps(d, states.drop_last(), n);
            let k = choose|k: int|
                0 <= k < d.len() && rest[n] == ((#[trigger] d[k]).tmp@, d[k].is_dir);
            assert(rs[k] == d[k]);
        } else {
            assert(rs[rs.len() - 1] == rs.last());
        }
    }
}

/// No copy through this machine is lost: it goes on as the copy that it is, or its temporary file is
/// handed back to be deleted; and nothing but temporary files of copies is handed back.
pub proof fn a_relayed_copy_goes_on_or_is_cleaned_up(
    before: App,
    after: App,
    percents: Seq<u32>,
    temps: Seq<(Seq<char>, bool)>,
    k: int,
    n: int,
)
    requires
        relays_advance(before, after, percents, temps),
        0 <= k < before.xfer.relays@.len(),
    ensures
        (exists|m: int|
            0 <= m < after.xfer.relays@.len() && same_copy(
                #[trigger] after.xfer.relays@[m],
                before.xfer.relays@[k],
            )) || temps.contains((before.xfer.relays@[k].tmp@, before.xfer.relays@[k].is_dir)),
        0 <= n < temps.len() ==> exists|j: int|
            0 <= j < before.xfer.relays@.len() && temps[n] == (
                (#[trigger] before.xfer.relays@[j]).tmp@,
                before.xfer.relays@[j].is_dir,
            ),
{
    let rs = before.xfer.relays@;
    let states = choose|states: Seq<Seq<Session>>|
        {
            &&& #[trigger] relays_move(rs, states, percents, before.lang)
            &&& states[0] == before.sessions@
            &&& states[rs.len() as int] == after.sessions@
            &&& after.xfer.relays@ == relays_left(rs, states)
            &&& temps == temps_done(rs, states)
        };
    lemma_left(rs, states, k);
    if 0 <= n < temps.len() {
        lemma_temps(rs, states, n);
    }
}

/// While a push runs, its row at the target shows how far the source is: the same bytes done, the same
/// bytes in all.
pub proof fn a_push_shows_how_far_it_is(
    ss: Seq<Session>,
    after: Seq<Session>,
    job: DirectJob,
    lang: Lang,
    s: int,
    t: int,
    d: int,
    u: int,
)
    requires
        push_moves(ss, after, job, lang),
        row_at(ss, job.src_uid, job.id, s, t),
        ss[s].transfers@[t].ok is None,
        row_at(ss, job.dest_uid, job.mir_id, d, u),
        ss[d].transfers@[u].ok is None,
    ensures
        after[d].transfers@[u].done == ss[s].transfers@[t].done,
        after[d].transfers@[u].total == ss[s].transfers@[t].total,
        after[d].transfers@[u].id == job.mir_id,
        after[d].link == ss[d].link,
        s != d ==> after[s] == ss[s],
{
    lemma_row_at(ss, job.src_uid, job.id, s, t);
    lemma_row_at(ss, job.dest_uid, job.mir_id, d, u);
    lemma_running_pos(ss[d].transfers@, job.mir_id, u);
}

proof fn lemma_running_pos(ts: Seq<Transfer>, id: u64, u: int)
    requires
        0 <= u < ts.len(),
        ts[u].id == id && ts[u].ok is None,
        forall|j: int| 0 <= j < u ==> (#[trigger] ts[j]).id != id,
    ensures
        crate::transfers::running_pos(ts, id) == Some(u),
    decreases ts.len(),
{
    let f = |t: Transfer| t.id == id && t.ok is None;
    let d = ts.drop_last();
    if u < d.len() {
        assert(forall|j: int| 0 <= j < d.len() ==> d[j] == ts[j]);
        lemma_running_pos(d, id, u);
        assert(crate::transfers::pos_where(d, f) == Some(u));
    } else {
        lemma_no_row(d, id);
        assert(f(ts.last()));
    }
}

proof fn lemma_no_row(ts: Seq<Transfer>, id: u64)
    requires
        forall|j: int| 0 <= j < ts.len() ==> (#[trigger] ts[j]).id != id,
    ensures
        crate::transfers::pos_where(ts, |t: Transfer| t.id == id && t.ok is None) is None,
    decreases ts.len(),
{
    if ts.len() > 0 {
        assert forall|j: int| 0 <= j < ts.drop_last().len() implies (
        #[trigger] ts.drop_last()[j]).id != id by {
            assert(ts[j] == ts.drop_last()[j]);
        }
        lemma_no_row(ts.drop_last(), id);
        assert(ts[ts.len() - 1].id != id);
    }
}

/// A push that failed is done through this machine only where the user says so: then every file of it
/// is. The question is closed either way, and the others stay.
pub proof fn a_failed_push_is_relayed_only_on_request(
    before: App,
    after: App,
    go: bool,
    env: PasteEnv,
    si: int,
    di: int,
    k: int,
)
    requires
        fallback_answered(before, after, go, env),
        before.xfer.pending_direct_fallback@.len() > 0,
        ({
            let plan = before.xfer.pending_direct_fallback@[0].plan;
            &&& stands_at(before, plan.src_uid, si)
            &&& stands_at(before, plan.dest_uid, di)
            &&& plan.cross && !plan.direct
            &&& 0 <= k < plan.items@.len()
        }),
    ensures
        !go ==> after.sessions == before.sessions && after.xfer.relays == before.xfer.relays
            && after.xfer.pending_direct_fallback@ == before.xfer.pending_direct_fallback@.skip(1),
        go ==> {
            let plan = before.xfer.pending_direct_fallback@[0].plan;
            let r = after.xfer.relays@[before.xfer.relays@.len() + k];
            &&& after.xfer.relays@.len() == before.xfer.relays@.len() + plan.items@.len()
            &&& r.src_path@ == plan.items@[k].0@ && r.is_dir == plan.items@[k].1
            &&& r.src_uid == plan.src_uid && r.dest_uid == plan.dest_uid
            &&& r.dest_dir@ == plan.dest_dir@ && r.is_cut == plan.is_cut
        },
{
    let plan = before.xfer.pending_direct_fallback@[0].plan;
    let mid = choose|mid: App|
        {
            &&& #[trigger] without_first_question(before, mid)
            &&& if go {
                paste_ok(mid, after, plan@, env)
            } else {
                after == mid
            }
        };
    if go {
        assert(stands_at(mid, plan.src_uid, si));
        assert(stands_at(mid, plan.dest_uid, di));
        assert(plan@.items.len() == plan.items@.len());
        every_pasted_file_is_relayed(mid, after, plan@, env, si, di, k);
    }
}

/// A forward that is changed is taken down and set up anew as it was asked for.
pub proof fn a_changed_forward_takes_the_place_of_the_old(
    before: App,
    after: App,
    idx: int,
    spec: ForwardSpecView,
    old_id: u64,
)
    requires
        forward_committed(before, after, idx, spec, Some(old_id)),
        0 <= idx < before.sessions@.len(),
        before.sessions@[idx].link.takes > 1,
    ensures
        ({
            let s = before.sessions@[idx];
            let t = after.sessions@[idx];
            &&& t.link.sent@.len() == s.link.sent@.len() + 2
            &&& t.link.sent@[s.link.sent@.len() as int] == UiCommand::RemoveForward(old_id)
            &&& sets_up(t.link.sent@.last(), t.forwards@.last())
            &&& t.forwards@.last().bind_host@ == spec.bind_host
            &&& t.forwards@.last().bind_port == spec.bind_port
            &&& t.forwards@.last().kind@ == spec.kind
        }),
{
    let s = before.sessions@[idx];
    let t = after.sessions@[idx];
    let mid = choose|mid: Session| #[trigger]
        forward_removed(s, mid, old_id) && crate::forwards::forward_added(
            mid,
            t,
            spec,
            before.lang,
        );
    a_removed_forward_is_taken_down(s, mid, old_id, t.forwards@.last());
    an_added_forward_is_set_up(mid, t, spec, before.lang);
    assert(t.link.log().len() == t.link.sent@.len());
    assert(mid.link.log().len() == mid.link.sent@.len());
    let n = s.link.sent@.len() as int;
    assert(t.link.log()[n] == mid.link.log()[n]);
    assert(t.link.log()[n] == t.link.sent@[n]@);
    assert(mid.link.log()[n] == mid.link.sent@[n]@);
}

/// Two forwards of a session never listen on one address, and none on a port that is in use: such a
/// wish is refused, and nothing is sent.
pub proof fn a_taken_address_is_refused(
    before: App,
    after: App,
    idx: int,
    spec: ForwardSpecView,
    port_in_use: bool,
    i: int,
)
    requires
        forward_submitted(before, after, idx, spec, port_in_use),
        0 <= idx < before.sessions@.len(),
        before.fwd.editing is None,
        port_in_use || (0 <= i < before.sessions@[idx].forwards@.len()
            && before.sessions@[idx].forwards@[i].bind_host@ == spec.bind_host
            && before.sessions@[idx].forwards@[i].bind_port == spec.bind_port),
    ensures
        after.sessions == before.sessions,
        after.fwd.error is Some,
        after.fwd.pending_open_bind == before.fwd.pending_open_bind,
{
    let fs = before.sessions@[idx].forwards@;
    if !port_in_use {
        assert(crate::forwards::same_address(fs[i], spec));
    }
}

/// The window of the forwards does nothing by itself: while it is not shown nothing happens at all,
/// and without a click no worker is told anything.
pub proof fn the_forward_window_does_nothing_by_itself(
    before: App,
    after: App,
    clicks: ForwardClicks,
    port_in_use: bool,
)
    requires
        forward_window_ok(before, after, clicks, port_in_use),
    ensures
        !before.fwd.show ==> after == before,
        !clicks.submit && !clicks.accept_open && clicks.remove is None ==> after.sessions
            == before.sessions,
{
}

/// A removal that was confirmed takes down that forward of the session that is shown.
pub proof fn the_confirmed_forward_is_removed(
    before: App,
    after: App,
    clicks: ForwardClicks,
    port_in_use: bool,
    idx: int,
    id: u64,
)
    requires
        forward_window_ok(before, after, clicks, port_in_use),
        before.fwd.show,
        before.active is Some && before.active->0 == idx && 0 <= idx < before.sessions@.len(),
        clicks.remove == Some(id),
        !clicks.submit && !clicks.accept_open,
        before.sessions@[idx].link.takes > 0,
    ensures
        after.sessions@[idx].link.sent@.len() == before.sessions@[idx].link.sent@.len() + 1,
        after.sessions@[idx].link.sent@.last() == UiCommand::RemoveForward(id),
        after.fwd.confirm_del is None,
{
    let states = choose|states: Seq<App>|
        {
            &&& #[trigger] forward_frames(states, idx, clicks, port_in_use)
            &&& states[0] == before
            &&& states[6] == after
        };
    assert(states[5].sessions == before.sessions);
    let s = before.sessions@[idx];
    if s.forwards@.len() > 0 {
        a_removed_forward_is_taken_down(s, after.sessions@[idx], id, s.forwards@[0]);
    } else {
        crate::request_laws::lemma_sent_one(
            s.link,
            after.sessions@[idx].link,
            crate::proto::CommandView::RemoveForward(id),
        );
    }
}

/// No row and no server button was clicked.
pub open spec fn no_button(c: XferClicks) -> bool {
    &&& !c.clear && !c.cancel_all && !c.retry_all
    &&& c.cancel is None && c.resume is None && c.toggle_err is None && c.remove is None
}

/// The window of the transfers does nothing by itself, shows what the filter is set to, and is closed
/// by its button, or by a click outside that hit nothing in it.
pub proof fn the_transfer_window_does_nothing_by_itself(before: App, after: App, c: XferClicks)
    requires
        transfer_window_ok(before, after, c),
        before.show_transfers && before.active is Some,
    ensures
        no_button(c) ==> after.sessions == before.sessions && after.xfer == before.xfer,
        no_button(c) && c.filter is Some ==> after.xfer_filter == c.filter->0,
        no_button(c) && c.filter is None ==> after.xfer_filter == before.xfer_filter,
        no_button(c) && !c.cycle_policy ==> after.conflict_policy == before.conflict_policy,
        c.close ==> !after.show_transfers,
        no_button(c) && !c.close && !c.outside ==> after.show_transfers,
        no_button(c) && c.outside && !before.xfer_just_opened && !c.picked_dir && !c.cycle_policy
            ==> !after.show_transfers,
{
    let s = choose|s: Seq<App>|
        {
            &&& #[trigger] transfer_frames(s, before.active->0 as int, c)
            &&& s[0] == before
            &&& s[9] == after
        };
    assert(transfer_frames(s, before.active->0 as int, c));
}

/// Each button of the window does what it is for, and that alone: of the one that was clicked, the
/// sessions and the transfers between them are as that action leaves them.
pub proof fn the_clicked_button_is_obeyed(before: App, after: App, c: XferClicks, uid: u64, id: u64)
    requires
        transfer_window_ok(before, after, c),
        before.show_transfers && before.active is Some,
    ensures
        no_button(XferClicks { cancel: None, ..c }) && c.cancel == Some((uid, id)) ==> exists|
            a: App,
            b: App,
        |
            #[trigger] row_cancelled(a, b, uid, id) && a.sessions == before.sessions && a.xfer
                == before.xfer && b.sessions == after.sessions && b.xfer == after.xfer,
        no_button(XferClicks { resume: None, ..c }) && c.resume == Some((uid, id)) ==> exists|
            a: App,
            b: App,
        |
            #[trigger] row_resumed(a, b, uid, id) && a.sessions == before.sessions && b.sessions
                == after.sessions,
        no_button(XferClicks { remove: None, ..c }) && c.remove == Some((uid, id)) ==> exists|
            a: App,
            b: App,
        |
            #[trigger] row_removed(a, b, uid, id) && a.sessions == before.sessions && b.sessions
                == after.sessions,
        no_button(XferClicks { clear: false, ..c }) && c.clear ==> exists|a: App, b: App|
            #[trigger] server_cleared(a, b, before.active->0 as int) && a.sessions
                == before.sessions && b.sessions == after.sessions,
        no_button(XferClicks { retry_all: false, ..c }) && c.retry_all ==> exists|a: App, b: App|
            #[trigger] server_retried(a, b, before.active->0 as int) && a.sessions
                == before.sessions && b.sessions == after.sessions,
        no_button(XferClicks { cancel_all: false, ..c }) && c.cancel_all ==> exists|
            a: App,
            b: App,
        |
            #[trigger] server_cancelled(a, b, before.active->0 as int) && a.sessions
                == before.sessions && b.sessions == after.sessions,
{
    let s = choose|s: Seq<App>|
        {
            &&& #[trigger] transfer_frames(s, before.active->0 as int, c)
            &&& s[0] == before
            &&& s[9] == after
        };
    assert(transfer_frames(s, before.active->0 as int, c));
}

/// Where another session is shown than in the last frame, nothing that was begun for the last one is
/// carried out for this one: a removal, a change and the window of a process are forgotten. Nothing
/// else ever changes at the start of a frame.
pub proof fn nothing_is_carried_over_to_another_tab(before: App, uid: u64)
    requires
        before.active is Some && before.active->0 < before.sessions@.len(),
        before.sessions@[before.active->0 as int].uid == uid,
    ensures
        frame_begun(before).sessions == before.sessions,
        frame_begun(before).active == before.active,
        frame_begun(before).active_uid_prev == Some(uid),
        before.active_uid_prev == Some(uid) ==> frame_begun(before) == before,
        before.active_uid_prev != Some(uid) ==> {
            &&& frame_begun(before).fwd.confirm_del is None
            &&& frame_begun(before).fwd.editing is None
            &&& frame_begun(before).fwd.error is None
            &&& frame_begun(before).popups.proc_info is None
        },
{
}

/// A dragged tab goes one place at a time, to the side on which it passed its neighbour, and never
/// over the end.
pub proof fn a_dragged_tab_goes_one_place(from: int, n: int, left: bool, right: bool)
    requires
        0 <= from < n,
    ensures
        0 <= drop_target(from, n, left, right) < n,
        left && from > 0 ==> drop_target(from, n, left, right) == from - 1,
        !left && right && from + 1 < n ==> drop_target(from, n, left, right) == from + 1,
        !left && !right ==> drop_target(from, n, left, right) == from,
{
}

/// A session is tried again exactly when its time has come.
pub proof fn a_session_is_tried_again_when_it_is_due(ss: Seq<Session>, now: u64, uid: u64)
    ensures
        due_uids(ss, now).contains(uid) <==> exists|i: int|
            {
                &&& 0 <= i < ss.len()
                &&& (#[trigger] ss[i]).uid == uid
                &&& ss[i].reconnect_at is Some
                &&& ss[i].reconnect_at->0 <= now
            },
    decreases ss.len(),
{
    let all = due_uids(ss, now);
    if ss.len() > 0 {
        let d = ss.drop_last();
        let rest = due_uids(d, now);
        a_session_is_tried_again_when_it_is_due(d, now, uid);
        assert(forall|j: int| 0 <= j < d.len() ==> d[j] == ss[j]);
        assert(ss[ss.len() - 1] == ss.last());
        if rest.contains(uid) {
            let k = choose|k: int| 0 <= k < rest.len() && rest[k] == uid;
            assert(all[k] == uid);
            let i = choose|i: int|
                {
                    &&& 0 <= i < d.len()
                    &&& (#[trigger] d[i]).uid == uid
                    &&& d[i].reconnect_at is Some
                    &&& d[i].reconnect_at->0 <= now
                };
            assert(ss[i].uid == uid);
        }
        if crate::tabs::is_due(ss.last(), now) && ss.last().uid == uid {
            assert(all[all.len() - 1] == uid);
        }
        if all.contains(uid) && !rest.contains(uid) {
            let k = choose|k: int| 0 <= k < all.len() && all[k] == uid;
            if k < rest.len() {
                assert(rest[k] == uid);
            }
        }
        if exists|i: int|
            {
                &&& 0 <= i < ss.len()
                &&& (#[trigger] ss[i]).uid == uid
                &&& ss[i].reconnect_at is Some
                &&& ss[i].reconnect_at->0 <= now
            } {
            let i = choose|i: int|
                {
                    &&& 0 <= i < ss.len()
                    &&& (#[trigger] ss[i]).uid == uid
                    &&& ss[i].reconnect_at is Some
                    &&& ss[i].reconnect_at->0 <= now
                };
            if i < d.len() {
                assert(d[i].uid == uid);
            }
        }
    } else {
        assert(!all.contains(uid));
    }
}

/// What a file is called is the part of its path behind the last slash.
pub proof fn a_file_name_ends_the_path(path: Seq<char>)
    ensures
        file_name_of(path).is_suffix_of(path),
        !file_name_of(path).contains('/'),
        file_name_of(path).len() < path.len() ==> path[path.len() - file_name_of(path).len() - 1]
            == '/',
{
    lemma_last(path, '/');
    let f = file_name_of(path);
    assert(path.skip(path.len() - f.len()) =~= f);
    if f.contains('/') {
        let i = choose|i: int| 0 <= i < f.len() && f[i] == '/';
        assert(path[path.len() - f.len() + i] == '/');
    }
}

proof fn lemma_last(s: Seq<char>, c: char)
    ensures
        match last_index_of(s, c) {
            Some(i) => 0 <= i < s.len() && s[i] == c && forall|j: int| i < j < s.len() ==> s[j] != c,
            None => forall|j: int| 0 <= j < s.len() ==> s[j] != c,
        },
    decreases s.len(),
{
    if s.len() > 0 && s.last() != c {
        lemma_last(s.drop_last(), c);
        assert(forall|j: int| 0 <= j < s.len() - 1 ==> s.drop_last()[j] == s[j]);
    }
}

} // verus!
