//! One connection of the control channel from its first line to its end: a step takes what happened
//! and says what is to be done next.
use vstd::prelude::*;
use vstd::string::*;

use crate::handshake::{
    bad_request, carry_of, challenge, download_end, download_header, download_refusal, first_step,
    hello, second_step, second_step_refusal, ticket_actor, ticket_refusal, unhandled, work_gate,
    Carry, DownloadEnd, FirstStep, Gate, Instance, SecondLine, BAD_JSON, NOT_A_PROOF,
    NOT_ADDRESSED, NOT_STARTED, NO_HANDSHAKE_ENTROPY, NO_TICKET_ENTROPY, TOO_BUSY, UNEXPECTED_REPLY,
    UNHANDLED, WORKER_GONE, WORKER_LATE,
};
use crate::keys::pair_nonce;
use crate::protocol::{
    answer, refusal, Reply, ReplyView, ReqKind, ReqResult, Request, ResultView,
};
use crate::text::{hex_of, opt_view};
use crate::tickets::{is_ticket, recorded, touched, well_formed, Tickets};

verus! {

/// Where a connection stands.
pub enum Conn {
    /// Nothing was read yet.
    Fresh,
    /// A proxy wants to pair, and this side's proof is being worked out.
    Proving { id: u64, nonce_c: String, nonce_s: String, actor: Option<String> },
    /// The challenge is sent, and the proxy's proof is due.
    Challenged { nonce_c: String, nonce_s: String, actor: Option<String> },
    /// The proxy's proof is being looked at.
    Examined { id: u64, actor: Option<String> },
    /// The request is with the program; `path` is that of a download.
    Working { id: u64, carry: Carry, path: String },
    /// The bytes of a download are on their way.
    Streaming { id: u64 },
    /// Nothing is left to do.
    Over,
}

/// What happened to a connection.
pub enum ConnEvent {
    /// A line came in: a request, or why it is none.
    Line(Result<Request, String>),
    /// No line came in time, or the other side or the program is gone.
    Silence,
    /// This side's proof.
    OwnProof(String),
    /// Whether the proxy's proof is right.
    Verified(bool),
    /// The program's reply; none where it dropped the request.
    Replied(Option<Reply>),
    /// What the worker said of a download: how many bytes there are, or why there are none.
    Download(Result<u64, String>),
    /// The worker never heard of the download: the program's own reply.
    NoDownload(Option<Result<ReqResult, String>>),
    /// The bytes of a download were sent.
    BytesSent,
    /// How a download ended.
    Ended(DownloadEnd),
}

/// What is to be done next.
pub enum ConnAction {
    Close,
    /// Write the reply and close, after reading what is left of an upload where `drain` says so.
    Finish { reply: Reply, drain: bool },
    /// Work out this side's proof.
    Prove { nonce_c: String, nonce_s: String },
    /// Write the reply, then read another line.
    Challenge(Reply),
    /// Look at the proxy's proof.
    Verify { nonce_c: String, nonce_s: String, client_proof: String },
    /// Hand the request to the program.
    Pass { req: Request, carry: Carry },
    /// Write the reply, then the bytes of the download.
    Stream(Reply),
    /// Wait for how the download ended.
    AwaitEnd,
}

/// The path of a download.
pub open spec fn download_path(kind: ReqKind) -> Seq<char> {
    match kind {
        ReqKind::CopyFromRemoteToCaller { remote_path, .. } => remote_path@,
        _ => Seq::empty(),
    }
}

/// A number that a random source made: 32 bytes in hexadecimal.
pub open spec fn is_nonce(s: Seq<char>) -> bool {
    exists|b: Seq<u8>| b.len() == 32 && s == #[trigger] hex_of(b)
}

/// The connection ends with this reply.
pub open spec fn finishes(
    after: Conn,
    action: ConnAction,
    reply: ReplyView,
    drain: bool,
) -> bool {
    &&& after is Over
    &&& action is Finish
    &&& action->reply@ == reply
    &&& action->drain == drain
}

/// The connection ends without a word.
pub open spec fn closes(after: Conn, action: ConnAction) -> bool {
    after is Over && action is Close
}

/// What becomes of a connection's first request: it must be meant for this instance; anyone may ask
/// who this is; one who asks with the wrong token learns nothing; one who wants to pair is
/// challenged; a proof without a challenge is refused; whatever is left needs room and a ticket, and
/// counts as sent by the process that the ticket stands for.
pub open spec fn first_line_ok(
    inst: Instance,
    chan: u64,
    req: Request,
    has_room: bool,
    now: u64,
    before: Tickets,
    after: Tickets,
    conn: Conn,
    action: ConnAction,
) -> bool {
    let id = req.id;
    if !req.addresses(inst.id@) {
        finishes(conn, action, refusal(chan, id, NOT_ADDRESSED@), false) && after == before
    } else {
        match req.kind {
            ReqKind::Identify => {
                &&& finishes(conn, action, answer(chan, id, hello(inst, Seq::empty())), false)
                &&& after == before
            },
            ReqKind::IdentifyPair { token } => {
                &&& if token@ == inst.token@ {
                    finishes(conn, action, answer(chan, id, hello(inst, Seq::empty())), false)
                } else {
                    closes(conn, action)
                }
                &&& after == before
            },
            ReqKind::PairHello { nonce_c } => {
                &&& after == before
                &&& if conn is Proving {
                    &&& conn->Proving_id == id
                    &&& conn->Proving_nonce_c@ == nonce_c@
                    &&& is_nonce(conn->Proving_nonce_s@)
                    &&& opt_view(conn->Proving_actor) == opt_view(req.actor)
                    &&& action is Prove
                    &&& action->Prove_nonce_c@ == nonce_c@
                    &&& action->Prove_nonce_s@ == conn->Proving_nonce_s@
                } else {
                    finishes(conn, action, refusal(chan, id, NO_HANDSHAKE_ENTROPY@), false)
                }
            },
            ReqKind::PairProve { .. } => {
                &&& finishes(conn, action, refusal(chan, id, NOT_STARTED@), false)
                &&& after == before
            },
            _ => if !has_room {
                finishes(conn, action, refusal(chan, id, TOO_BUSY@), false) && after == before
            } else if ticket_actor(before, req, now) is None {
                &&& finishes(
                    conn,
                    action,
                    refusal(chan, id, ticket_refusal(inst)),
                    carry_of(req.kind) == Carry::Upload,
                )
                &&& after == before
            } else {
                &&& conn is Working
                &&& conn->Working_id == id
                &&& conn->carry == carry_of(req.kind)
                &&& conn->path@ == download_path(req.kind)
                &&& action is Pass
                &&& action->Pass_carry == carry_of(req.kind)
                &&& opt_view(action->req.actor) == ticket_actor(before, req, now)
                &&& action->req == (Request { actor: action->req.actor, ..req })
                &&& touched(before, after, req.ticket->0@, now)
            },
        }
    }
}

/// What becomes of a challenged proxy's proof: the right one of a proxy that said which process it
/// is earns a ticket for that process.
pub open spec fn verified_ok(
    inst: Instance,
    chan: u64,
    id: u64,
    actor: Option<String>,
    right: bool,
    now: u64,
    before: Tickets,
    after: Tickets,
    conn: Conn,
    action: ConnAction,
) -> bool {
    match second_step_refusal(chan, actor, SecondLine::Proof { id, matches: right }) {
        Some(reply) => finishes(conn, action, reply, false) && after == before,
        None => {
            ||| finishes(conn, action, refusal(chan, id, NO_TICKET_ENTROPY@), false) && after
                == before
            ||| exists|ticket: Seq<char>|
                {
                    &&& finishes(conn, action, answer(chan, id, #[trigger] hello(inst, ticket)), false)
                    &&& is_ticket(ticket)
                    &&& recorded(before, after, ticket, actor->0@, now)
                }
        },
    }
}

/// What a step makes of a connection. What cannot happen where it stands ends it.
pub open spec fn step_ok(
    inst: Instance,
    chan: u64,
    conn: Conn,
    ev: ConnEvent,
    has_room: bool,
    now: u64,
    before: Tickets,
    after: Tickets,
    next: Conn,
    action: ConnAction,
) -> bool {
    match (conn, ev) {
        (Conn::Fresh, ConnEvent::Line(Ok(req))) => first_line_ok(
            inst,
            chan,
            req,
            has_room,
            now,
            before,
            after,
            next,
            action,
        ),
        (Conn::Examined { id, actor }, ConnEvent::Verified(right)) => verified_ok(
            inst,
            chan,
            id,
            actor,
            right,
            now,
            before,
            after,
            next,
            action,
        ),
        _ => after == before && quiet_step_ok(inst, chan, conn, ev, next, action),
    }
}

/// The steps that no ticket has a part in.
pub open spec fn quiet_step_ok(
    inst: Instance,
    chan: u64,
    conn: Conn,
    ev: ConnEvent,
    next: Conn,
    action: ConnAction,
) -> bool {
    match (conn, ev) {
        (Conn::Fresh, ConnEvent::Line(Err(error))) => finishes(
            next,
            action,
            refusal(chan, 0, BAD_JSON@ + error@),
            false,
        ),
        (Conn::Proving { id, nonce_c, nonce_s, actor }, ConnEvent::OwnProof(proof)) => {
            &&& next == Conn::Challenged { nonce_c, nonce_s, actor }
            &&& action is Challenge
            &&& action->Challenge_0@ == answer(
                chan,
                id,
                ResultView::PairChallenge {
                    id: inst.id@,
                    proto_version: inst.proto_version,
                    nonce_s: nonce_s@,
                    server_proof: proof@,
                },
            )
        },
        (Conn::Challenged { nonce_c, nonce_s, actor }, ConnEvent::Line(line)) => match line {
            Ok(Request { id, kind: ReqKind::PairProve { client_proof }, .. }) => {
                &&& next == Conn::Examined { id, actor }
                &&& action == ConnAction::Verify { nonce_c, nonce_s, client_proof }
            },
            _ => finishes(next, action, refusal(chan, 0, NOT_A_PROOF@), false),
        },
        (Conn::Working { id, carry, path }, ConnEvent::Replied(reply)) => match reply {
            Some(r) => {
                &&& next is Over
                &&& action == ConnAction::Finish {
                    reply: r,
                    drain: carry == Carry::Upload && r.result is Err,
                }
            },
            None => finishes(
                next,
                action,
                refusal(chan, id, UNHANDLED@),
                carry == Carry::Upload,
            ),
        },
        (Conn::Working { id, carry, path }, ConnEvent::Download(Ok(size))) => {
            &&& next == Conn::Streaming { id }
            &&& action is Stream
            &&& action->Stream_0@ == answer(
                chan,
                id,
                ResultView::CopyStreamHeader { path: path@, size },
            )
        },
        (Conn::Working { id, .. }, ConnEvent::Download(Err(msg))) => finishes(
            next,
            action,
            refusal(chan, id, msg@),
            false,
        ),
        (Conn::Working { id, .. }, ConnEvent::NoDownload(reply)) => finishes(
            next,
            action,
            refusal(
                chan,
                id,
                match reply {
                    Some(Err(msg)) => msg@,
                    Some(Ok(_)) => UNEXPECTED_REPLY@,
                    None => UNHANDLED@,
                },
            ),
            false,
        ),
        (Conn::Streaming { id }, ConnEvent::BytesSent) => {
            &&& next == Conn::Streaming { id }
            &&& action is AwaitEnd
        },
        (Conn::Streaming { id }, ConnEvent::Ended(end)) => finishes(
            next,
            action,
            match end {
                DownloadEnd::Complete => answer(chan, id, ResultView::Done),
                DownloadEnd::Failed(msg) => refusal(chan, id, msg@),
                DownloadEnd::Gone => refusal(chan, id, WORKER_GONE@),
                DownloadEnd::Late => refusal(chan, id, WORKER_LATE@),
            },
            false,
        ),
        _ => closes(next, action),
    }
}

fn finish(reply: Reply) -> (r: (Conn, ConnAction))
    ensures
        r.0 is Over,
        r.1 == (ConnAction::Finish { reply, drain: false }),
{
    (Conn::Over, ConnAction::Finish { reply, drain: false })
}

fn path_of(kind: &ReqKind) -> (r: String)
    ensures
        r@ == download_path(*kind),
{
    match kind {
        ReqKind::CopyFromRemoteToCaller { remote_path, .. } => remote_path.clone(),
        _ => {
            let none = String::new();
            assert(none@ =~= Seq::<char>::empty());
            none
        },
    }
}

fn first_line(
    inst: &Instance,
    chan: u64,
    req: Request,
    has_room: bool,
    now: u64,
    tickets: &mut Tickets,
) -> (r: (Conn, ConnAction))
    ensures
        well_formed(*old(tickets)) ==> well_formed(*final(tickets)),
        first_line_ok(
            *inst,
            chan,
            req,
            has_room,
            now,
            *old(tickets),
            *final(tickets),
            r.0,
            r.1,
        ),
{
    let id: u64 = req.id;
    match first_step(inst, chan, &req) {
        FirstStep::Answer(reply) => finish(reply),
        FirstStep::Close => (Conn::Over, ConnAction::Close),
        FirstStep::Challenge { nonce_c, actor } => match pair_nonce() {
            None => finish(challenge(inst, chan, id, None, String::new())),
            Some(nonce_s) => {
                let action = ConnAction::Prove {
                    nonce_c: nonce_c.clone(),
                    nonce_s: nonce_s.clone(),
                };
                (Conn::Proving { id, nonce_c, nonce_s, actor }, action)
            },
        },
        FirstStep::Work => {
            let path = path_of(&req.kind);
            match work_gate(inst, tickets, chan, req, has_room, now) {
                Gate::Refuse { reply, drain } => (Conn::Over, ConnAction::Finish { reply, drain }),
                Gate::Pass { req, carry } => (
                    Conn::Working { id, carry, path },
                    ConnAction::Pass { req, carry },
                ),
            }
        },
    }
}

fn quiet_step(inst: &Instance, chan: u64, conn: Conn, ev: ConnEvent) -> (r: (Conn, ConnAction))
    ensures
        quiet_step_ok(*inst, chan, conn, ev, r.0, r.1),
{
    match (conn, ev) {
        (Conn::Fresh, ConnEvent::Line(Err(error))) => finish(bad_request(chan, error.as_str())),
        (Conn::Proving { id, nonce_c, nonce_s, actor }, ConnEvent::OwnProof(proof)) => {
            let reply = challenge(inst, chan, id, Some(nonce_s.clone()), proof);
            (Conn::Challenged { nonce_c, nonce_s, actor }, ConnAction::Challenge(reply))
        },
        (Conn::Challenged { nonce_c, nonce_s, actor }, ConnEvent::Line(line)) => match line {
            Ok(Request { id, kind: ReqKind::PairProve { client_proof }, .. }) => (
                Conn::Examined { id, actor },
                ConnAction::Verify { nonce_c, nonce_s, client_proof },
            ),
            _ => finish(Reply { chan, id: 0, result: Err(NOT_A_PROOF.to_owned()) }),
        },
        (Conn::Working { id, carry, path }, ConnEvent::Replied(reply)) => {
            let upload: bool = matches!(carry, Carry::Upload);
            match reply {
                Some(r) => {
                    let drain: bool = upload && r.result.is_err();
                    (Conn::Over, ConnAction::Finish { reply: r, drain })
                },
                None => (
                    Conn::Over,
                    ConnAction::Finish { reply: unhandled(chan, id), drain: upload },
                ),
            }
        },
        (Conn::Working { id, carry, path }, ConnEvent::Download(Ok(size))) => (
            Conn::Streaming { id },
            ConnAction::Stream(download_header(chan, id, path, size)),
        ),
        (Conn::Working { id, .. }, ConnEvent::Download(Err(msg))) => finish(
            Reply { chan, id, result: Err(msg) },
        ),
        (Conn::Working { id, .. }, ConnEvent::NoDownload(reply)) => finish(
            Reply { chan, id, result: Err(download_refusal(reply)) },
        ),
        (Conn::Streaming { id }, ConnEvent::BytesSent) => (
            Conn::Streaming { id },
            ConnAction::AwaitEnd,
        ),
        (Conn::Streaming { id }, ConnEvent::Ended(end)) => finish(download_end(chan, id, end)),
        _ => (Conn::Over, ConnAction::Close),
    }
}

/// Takes what happened to a connection and says what is to be done next.
pub fn step(
    inst: &Instance,
    tickets: &mut Tickets,
    chan: u64,
    conn: Conn,
    ev: ConnEvent,
    has_room: bool,
    now: u64,
) -> (r: (Conn, ConnAction))
    requires
        well_formed(*old(tickets)),
    ensures
        well_formed(*final(tickets)),
        step_ok(
            *inst,
            chan,
            conn,
            ev,
            has_room,
            now,
            *old(tickets),
            *final(tickets),
            r.0,
            r.1,
        ),
{
    match (conn, ev) {
        (Conn::Fresh, ConnEvent::Line(Ok(req))) => first_line(
            inst,
            chan,
            req,
            has_room,
            now,
            tickets,
        ),
        (Conn::Examined { id, actor }, ConnEvent::Verified(right)) => finish(
            second_step(inst, tickets, chan, actor, SecondLine::Proof { id, matches: right }, now),
        ),
        (conn, ev) => quiet_step(inst, chan, conn, ev),
    }
}

/// A request gets through to the program only as the first line of a connection, only with a good
/// ticket, and as one of the process that the ticket stands for.
pub proof fn only_a_first_line_with_a_ticket_works(
    inst: Instance,
    chan: u64,
    conn: Conn,
    ev: ConnEvent,
    has_room: bool,
    now: u64,
    before: Tickets,
    after: Tickets,
    next: Conn,
    action: ConnAction,
)
    requires
        step_ok(inst, chan, conn, ev, has_room, now, before, after, next, action),
        action is Pass,
    ensures
        conn is Fresh,
        has_room,
        ev is Line && ev->Line_0 is Ok,
        ticket_actor(before, ev->Line_0->Ok_0, now) is Some,
        opt_view(action->req.actor) == ticket_actor(before, ev->Line_0->Ok_0, now),
{
}

/// A connection serves one request: no step makes it fresh again, so a proxy that was challenged,
/// or whose request was passed on, gets no other one through.
pub proof fn a_connection_serves_one_request(
    inst: Instance,
    chan: u64,
    conn: Conn,
    ev: ConnEvent,
    has_room: bool,
    now: u64,
    before: Tickets,
    after: Tickets,
    next: Conn,
    action: ConnAction,
)
    requires
        step_ok(inst, chan, conn, ev, has_room, now, before, after, next, action),
    ensures
        !(next is Fresh),
        !(conn is Fresh) ==> !(action is Pass),
        conn is Over ==> closes(next, action),
{
}

/// A ticket is earned only by a proof that was found right after this connection's own challenge,
/// is two 32-byte numbers long, and stands for the process that asked for that challenge.
pub proof fn a_ticket_takes_a_proof(
    inst: Instance,
    chan: u64,
    conn: Conn,
    ev: ConnEvent,
    has_room: bool,
    now: u64,
    before: Tickets,
    after: Tickets,
    next: Conn,
    action: ConnAction,
)
    requires
        step_ok(inst, chan, conn, ev, has_room, now, before, after, next, action),
        !(conn is Fresh),
        after != before,
    ensures
        conn is Examined,
        ev == ConnEvent::Verified(true),
        conn->Examined_actor is Some,
        exists|ticket: Seq<char>|
            {
                &&& action is Finish && action->reply@ == answer(
                    chan,
                    conn->Examined_id,
                    #[trigger] hello(inst, ticket),
                )
                &&& is_ticket(ticket)
                &&& recorded(before, after, ticket, conn->Examined_actor->0@, now)
            },
{
}

/// A proof is looked at only against the numbers of this connection's own challenge.
pub proof fn a_proof_answers_its_own_challenge(
    inst: Instance,
    chan: u64,
    conn: Conn,
    ev: ConnEvent,
    has_room: bool,
    now: u64,
    before: Tickets,
    after: Tickets,
    next: Conn,
    action: ConnAction,
)
    requires
        step_ok(inst, chan, conn, ev, has_room, now, before, after, next, action),
    ensures
        action is Verify ==> conn is Challenged && action->Verify_nonce_c
            == conn->Challenged_nonce_c && action->Verify_nonce_s == conn->Challenged_nonce_s,
        next is Challenged ==> conn is Proving && next->Challenged_nonce_c
            == conn->Proving_nonce_c && next->Challenged_nonce_s == conn->Proving_nonce_s,
        next is Examined ==> conn is Challenged && next->Examined_actor == conn->Challenged_actor,
{
}

} // verus!
