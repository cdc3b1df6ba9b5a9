//! What a proxy on the control channel can learn and do, and what it cannot.
use vstd::prelude::*;
use vstd::string::*;

use crate::connection::{step_ok, Conn, ConnAction, ConnEvent};
use crate::handshake::{Carry, DownloadEnd, Instance};
use crate::protocol::{Reply, ReqKind, ReqResult, Request};
use crate::tickets::{
    actor_of, fresh_entries, lemma_ticket_pos, recorded, ticket_pos, well_formed, with_room,
    without_ticket, Entry, Tickets,
};

verus! {

/// What a reply says of the program: who it is, and never the pairing token.
pub open spec fn tells_who(r: ReqResult, inst: Instance) -> bool {
    &&& r is Instance
    &&& r->Instance_id@ == inst.id@
    &&& r->Instance_host@ == inst.host@
    &&& r->Instance_proto_version == inst.proto_version
    &&& r->Instance_token@.len() == 0
}

/// Whoever asks who this is gets told, without a ticket; one who shows a pairing token is told only
/// where it is the right one, and else hears nothing at all. No ticket changes by it.
pub proof fn asking_who_this_is_gives_nothing_away(
    inst: Instance,
    chan: u64,
    req: Request,
    token: String,
    has_room: bool,
    now: u64,
    before: Tickets,
    after: Tickets,
    next: Conn,
    action: ConnAction,
)
    requires
        step_ok(
            inst,
            chan,
            Conn::Fresh,
            ConnEvent::Line(Ok(req)),
            has_room,
            now,
            before,
            after,
            next,
            action,
        ),
        req.kind == ReqKind::Identify || req.kind == (ReqKind::IdentifyPair { token }),
        req.instance is None,
    ensures
        after == before,
        next is Over,
        req.kind is IdentifyPair && token@ != inst.token@ ==> action is Close,
        req.kind is Identify || token@ == inst.token@ ==> {
            let r = action->reply;
            &&& action is Finish
            &&& r.chan == chan && r.id == req.id
            &&& r.result is Ok
            &&& tells_who(r.result->Ok_0, inst)
            &&& r.result->Ok_0->Instance_ticket@.len() == 0
        },
{
}

/// A request that names another program is refused, whatever it asks for and whatever ticket it has,
/// and so is one that names none and is not about finding or pairing.
pub proof fn another_programs_request_is_refused(
    inst: Instance,
    chan: u64,
    req: Request,
    has_room: bool,
    now: u64,
    before: Tickets,
    after: Tickets,
    next: Conn,
    action: ConnAction,
)
    requires
        step_ok(
            inst,
            chan,
            Conn::Fresh,
            ConnEvent::Line(Ok(req)),
            has_room,
            now,
            before,
            after,
            next,
            action,
        ),
        req.instance is Some && req.instance->0@ != inst.id@ || (req.instance is None && !(
        req.kind is Identify || req.kind is IdentifyPair || req.kind is PairHello
            || req.kind is PairProve)),
    ensures
        after == before,
        next is Over,
        action is Finish,
        action->reply.chan == chan && action->reply.id == req.id,
        action->reply.result is Err,
{
}

/// A request that is let through is handed on whole, as one of the process that its ticket was issued
/// to, whatever process it says that it is; its reply is waited for under its own number.
pub proof fn a_request_is_handed_on_whole(
    inst: Instance,
    chan: u64,
    req: Request,
    has_room: bool,
    now: u64,
    before: Tickets,
    after: Tickets,
    next: Conn,
    action: ConnAction,
    i: int,
)
    requires
        step_ok(
            inst,
            chan,
            Conn::Fresh,
            ConnEvent::Line(Ok(req)),
            has_room,
            now,
            before,
            after,
            next,
            action,
        ),
        has_room,
        well_formed(before),
        req.instance is Some && req.instance->0@ == inst.id@,
        !(req.kind is Identify || req.kind is IdentifyPair || req.kind is PairHello
            || req.kind is PairProve),
        req.ticket is Some,
        0 <= i < before.entries@.len(),
        before.entries@[i].ticket@ == req.ticket->0@,
        now - before.entries@[i].last_used < 604_800_000,
    ensures
        action is Pass,
        action->req.kind == req.kind,
        action->req.id == req.id,
        action->req.origin == req.origin,
        action->req.actor is Some && action->req.actor->0@ == before.entries@[i].actor@,
        next is Working,
        next->Working_id == req.id,
        action->Pass_carry == Carry::Upload <==> req.kind is CopyToRemoteFromCaller,
        action->Pass_carry == Carry::Download <==> req.kind is CopyFromRemoteToCaller,
        next->carry == action->Pass_carry,
        req.kind is CopyFromRemoteToCaller ==> next->path@
            == req.kind->CopyFromRemoteToCaller_remote_path@,
        after.entries@.len() == before.entries@.len(),
        after.entries@[i].last_used == now,
        after.entries@[i].ticket@ == req.ticket->0@ && after.entries@[i].actor@
            == before.entries@[i].actor@,
{
    lemma_pos_is(before, req.ticket->0@, i);
}

proof fn lemma_pos_is(t: Tickets, ticket: Seq<char>, i: int)
    requires
        well_formed(t),
        0 <= i < t.entries@.len(),
        t.entries@[i].ticket@ == ticket,
    ensures
        ticket_pos(t.entries@, ticket) == Some(i),
{
    let es = t.entries@;
    lemma_ticket_pos(es, ticket);
    let p = ticket_pos(es, ticket);
    if p is None {
        assert(es[i].ticket@ != ticket);
    } else if p->0 < i {
        assert(es[p->0].ticket@ != es[i].ticket@);
    } else if p->0 > i {
        assert(es[i].ticket@ != es[p->0].ticket@);
    }
}

/// A ticket stands for a process exactly where it was issued to that process and was used within the
/// last seven days.
pub proof fn a_ticket_is_good_for_seven_idle_days(
    t: Tickets,
    ticket: Seq<char>,
    actor: Seq<char>,
    now: u64,
)
    requires
        well_formed(t),
    ensures
        actor_of(t, ticket, now) == Some(actor) <==> exists|i: int|
            {
                &&& 0 <= i < t.entries@.len()
                &&& (#[trigger] t.entries@[i]).ticket@ == ticket
                &&& t.entries@[i].actor@ == actor
                &&& now - t.entries@[i].last_used < 604_800_000
            },
{
    lemma_ticket_pos(t.entries@, ticket);
    if exists|i: int|
        {
            &&& 0 <= i < t.entries@.len()
            &&& (#[trigger] t.entries@[i]).ticket@ == ticket
            &&& t.entries@[i].actor@ == actor
            &&& now - t.entries@[i].last_used < 604_800_000
        } {
        let i = choose|i: int|
            {
                &&& 0 <= i < t.entries@.len()
                &&& (#[trigger] t.entries@[i]).ticket@ == ticket
                &&& t.entries@[i].actor@ == actor
                &&& now - t.entries@[i].last_used < 604_800_000
            };
        lemma_pos_is(t, ticket, i);
    }
}

proof fn lemma_fresh_has(es: Seq<Entry>, now: u64, i: int) -> (j: int)
    requires
        0 <= i < es.len(),
        now - es[i].last_used < 604_800_000,
    ensures
        0 <= j < fresh_entries(es, now).len(),
        fresh_entries(es, now)[j] == es[i],
    decreases es.len(),
{
    if i == es.len() - 1 {
        fresh_entries(es, now).len() - 1
    } else {
        let j = lemma_fresh_has(es.drop_last(), now, i);
        assert(fresh_entries(es, now)[j] == fresh_entries(es.drop_last(), now)[j]);
        j
    }
}

proof fn lemma_fresh_len(es: Seq<Entry>, now: u64)
    ensures
        fresh_entries(es, now).len() <= es.len(),
    decreases es.len(),
{
    if es.len() > 0 {
        lemma_fresh_len(es.drop_last(), now);
    }
}

/// A ticket that is issued takes no other one away while there is room: every good ticket stays good,
/// for the process that it was issued to.
pub proof fn a_new_ticket_takes_no_other_away(
    before: Tickets,
    after: Tickets,
    ticket: Seq<char>,
    actor: Seq<char>,
    now: u64,
    i: int,
)
    requires
        well_formed(before),
        well_formed(after),
        recorded(before, after, ticket, actor, now),
        before.entries@.len() < 4096,
        0 <= i < before.entries@.len(),
        before.entries@[i].ticket@ != ticket,
        now - before.entries@[i].last_used < 604_800_000,
    ensures
        actor_of(after, before.entries@[i].ticket@, now) == Some(before.entries@[i].actor@),
        actor_of(after, ticket, now) == Some(actor),
{
    let fresh = fresh_entries(before.entries@, now);
    lemma_fresh_len(before.entries@, now);
    let j = lemma_fresh_has(before.entries@, now, i);
    let kept = without_ticket(with_room(fresh), ticket);
    lemma_ticket_pos(fresh, ticket);
    let e = before.entries@[i];
    let n = match ticket_pos(fresh, ticket) {
        Some(p) => if j < p {
            j
        } else {
            j - 1
        },
        None => j,
    };
    assert(kept[n] == e);
    assert(after.entries@.drop_last()[n] == after.entries@[n]);
    lemma_pos_is(after, e.ticket@, n);
    lemma_pos_is(after, ticket, after.entries@.len() - 1);
}

/// A proxy that is challenged gets this side's own proof and the number it has to answer for, and its
/// proof is looked at against the two numbers of that challenge.
pub proof fn a_challenge_tells_its_own_numbers(
    inst: Instance,
    chan: u64,
    conn: Conn,
    own: String,
    has_room: bool,
    now: u64,
    before: Tickets,
    after: Tickets,
    next: Conn,
    action: ConnAction,
)
    requires
        conn is Proving,
        step_ok(
            inst,
            chan,
            conn,
            ConnEvent::OwnProof(own),
            has_room,
            now,
            before,
            after,
            next,
            action,
        ),
    ensures
        after == before,
        action is Challenge,
        ({
            let r = action->Challenge_0;
            let res = r.result->Ok_0;
            &&& r.chan == chan && r.id == conn->Proving_id
            &&& r.result is Ok && res is PairChallenge
            &&& res->PairChallenge_id@ == inst.id@
            &&& res->PairChallenge_proto_version == inst.proto_version
            &&& res->PairChallenge_nonce_s@ == conn->Proving_nonce_s@
            &&& res->PairChallenge_server_proof@ == own@
        }),
        next is Challenged,
        next->Challenged_nonce_s == conn->Proving_nonce_s,
        next->Challenged_nonce_c == conn->Proving_nonce_c,
        next->Challenged_actor == conn->Proving_actor,
{
}

/// A wrong proof earns nothing: no ticket is issued, and the proxy is refused.
pub proof fn a_wrong_proof_earns_nothing(
    inst: Instance,
    chan: u64,
    conn: Conn,
    has_room: bool,
    now: u64,
    before: Tickets,
    after: Tickets,
    next: Conn,
    action: ConnAction,
)
    requires
        conn is Examined,
        step_ok(
            inst,
            chan,
            conn,
            ConnEvent::Verified(false),
            has_room,
            now,
            before,
            after,
            next,
            action,
        ),
    ensures
        after == before,
        next is Over,
        action is Finish,
        action->reply.id == conn->Examined_id,
        action->reply.result is Err,
{
}

/// A right proof earns the ticket that is then recorded, told to nobody but the one who proved it, or
/// a refusal where there is no randomness to make one of.
pub proof fn a_right_proof_earns_the_recorded_ticket(
    inst: Instance,
    chan: u64,
    conn: Conn,
    has_room: bool,
    now: u64,
    before: Tickets,
    after: Tickets,
    next: Conn,
    action: ConnAction,
)
    requires
        conn is Examined,
        conn->Examined_actor is Some,
        step_ok(
            inst,
            chan,
            conn,
            ConnEvent::Verified(true),
            has_room,
            now,
            before,
            after,
            next,
            action,
        ),
    ensures
        action is Finish,
        action->reply.chan == chan && action->reply.id == conn->Examined_id,
        action->reply.result is Err ==> after == before,
        action->reply.result is Ok ==> {
            let r = action->reply.result->Ok_0;
            &&& tells_who(r, inst)
            &&& after.entries@.len() > 0
            &&& after.entries@.last().ticket@ == r->Instance_ticket@
            &&& after.entries@.last().actor@ == conn->Examined_actor->0@
            &&& after.entries@.last().last_used == now
        },
{
    if action->reply.result is Ok {
        let r = action->reply@;
        assert(r.result is Ok);
    }
}

/// A download is announced with its own path and the size that the worker told, and its end is a
/// success only where the worker said that it was complete.
pub proof fn a_download_ends_well_only_when_complete(
    inst: Instance,
    chan: u64,
    conn: Conn,
    ev: ConnEvent,
    has_room: bool,
    now: u64,
    before: Tickets,
    after: Tickets,
    next: Conn,
    action: ConnAction,
)
    requires
        step_ok(inst, chan, conn, ev, has_room, now, before, after, next, action),
        conn is Working || conn is Streaming,
    ensures
        after == before,
        conn is Working && ev is Download ==> {
            &&& ev->Download_0 is Ok ==> {
                let r = action->Stream_0;
                &&& action is Stream
                &&& r.chan == chan && r.id == conn->Working_id
                &&& r.result is Ok && r.result->Ok_0 is CopyStreamHeader
                &&& r.result->Ok_0->CopyStreamHeader_path@ == conn->path@
                &&& r.result->Ok_0->CopyStreamHeader_size == ev->Download_0->Ok_0
            }
            &&& ev->Download_0 is Err ==> action is Finish && action->reply.result is Err
                && action->reply.result->Err_0@ == ev->Download_0->Err_0@
        },
        conn is Streaming && ev is Ended ==> {
            &&& action is Finish
            &&& action->reply.id == conn->Streaming_id
            &&& action->reply.result is Ok <==> ev->Ended_0 is Complete
            &&& ev->Ended_0 is Failed ==> action->reply.result->Err_0@ == ev->Ended_0->Failed_0@
        },
        conn is Working && ev is Replied && ev->Replied_0 is Some ==> action is Finish
            && action->reply == ev->Replied_0->0,
        conn is Working && ev is Replied && ev->Replied_0 is None ==> action is Finish
            && action->reply.result is Err && action->reply.id == conn->Working_id,
{
}

/// A right proof of one who did not say which process it is earns nothing either: one refusal, and no
/// ticket changes.
pub proof fn a_proof_without_a_name_earns_nothing(
    inst: Instance,
    chan: u64,
    conn: Conn,
    right: bool,
    has_room: bool,
    now: u64,
    before: Tickets,
    after: Tickets,
    next: Conn,
    action: ConnAction,
)
    requires
        conn is Examined,
        conn->Examined_actor is None,
        step_ok(
            inst,
            chan,
            conn,
            ConnEvent::Verified(right),
            has_room,
            now,
            before,
            after,
            next,
            action,
        ),
    ensures
        after == before,
        next is Over,
        action is Finish,
        action->reply.id == conn->Examined_id,
        action->reply.result is Err,
{
}

} // verus!
