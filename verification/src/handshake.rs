//! One connection of the control channel: who is answered, how a proxy proves that it knows the
//! pairing token, and which requests get through to the program.
use vstd::prelude::*;
use vstd::string::*;

use crate::protocol::{answer, refusal, Reply, ReplyView, ReqKind, ReqResult, Request, ResultView};
use crate::text::{clone_opt, decimal, opt_view, push_decimal, same};
use crate::tickets::{actor_of, is_ticket, recorded, touched, well_formed, Tickets};

verus! {

/// Who this program is to the proxies.
pub struct Instance {
    /// Its id, chosen anew with every start.
    pub id: String,
    /// The name of the machine.
    pub host: String,
    /// The pairing token, known to the proxies that may drive it.
    pub token: String,
    pub proto_version: u32,
    /// What the refusal of a ticket starts with, by which a proxy knows to pair again.
    pub ticket_rejected: String,
}

/// The answer to one who asks who this is. The pairing token is never in it.
pub open spec fn hello(inst: Instance, ticket: Seq<char>) -> ResultView {
    ResultView::Instance {
        id: inst.id@,
        proto_version: inst.proto_version,
        token: Seq::empty(),
        ticket,
        host: inst.host@,
    }
}

/// Says who this is, with a ticket where one was earned.
pub fn instance_hello(inst: &Instance, ticket: String) -> (r: ReqResult)
    ensures
        r@ == hello(*inst, ticket@),
{
    ReqResult::Instance {
        id: inst.id.clone(),
        proto_version: inst.proto_version,
        token: String::new(),
        ticket,
        host: inst.host.clone(),
    }
}

pub const BAD_JSON: &'static str = "请求 JSON 解析失败：";

pub const NOT_ADDRESSED: &'static str = "这条请求点名的是另一个 iShell 实例（或没有点名）。请重新发起 MCP 连接：\
                 绑定的那个 iShell 可能已经退出或重启；代理会在只剩一个匹配实例时改绑，\
                 多开时仍不会静默换到别的窗口——命令落到你没预期的机器上更糟";

pub const NOT_STARTED: &'static str = "配对握手未开始（应先发 PairHello）";

pub const NO_HANDSHAKE_ENTROPY: &'static str = "本机熵源不可用，无法完成配对握手";

pub const NO_TICKET_ENTROPY: &'static str = "本机熵源不可用，无法签发连接凭据";

pub const NO_ACTOR: &'static str = "配对握手缺少 actor（代理进程标识），不签发连接凭据";

pub const BAD_PROOF: &'static str = "配对证明不符";

pub const NOT_A_PROOF: &'static str = "配对握手第二步应当是 PairProve";

pub const TOO_BUSY: &'static str = "iShell MCP 并发已达上限，请稍后重试";

pub const UNHANDLED: &'static str = "iShell 未能处理该请求（可能已关闭）";

pub const UNEXPECTED_REPLY: &'static str = "iShell 返回了意料之外的响应";

pub const WORKER_GONE: &'static str = "iShell 未能给出这次传输的最终判定（worker 已退出）";

pub const WORKER_LATE: &'static str = "iShell 未能在字节流发完后及时给出传输判定（worker 可能已卡死）";

fn refuse(chan: u64, id: u64, msg: &str) -> (r: Reply)
    ensures
        r@ == refusal(chan, id, msg@),
{
    Reply { chan, id, result: Err(msg.to_owned()) }
}

/// Answers a line that is no request.
pub fn bad_request(chan: u64, error: &str) -> (r: Reply)
    ensures
        r@ == refusal(chan, 0, BAD_JSON@ + error@),
{
    let mut msg = BAD_JSON.to_owned();
    msg.append(error);
    Reply { chan, id: 0, result: Err(msg) }
}

/// What becomes of a connection's first request.
pub enum FirstStep {
    /// Answer it and close.
    Answer(Reply),
    /// Close without a word.
    Close,
    /// Challenge the proxy, then read its proof.
    Challenge { nonce_c: String, actor: Option<String> },
    /// Let it in where its ticket is good.
    Work,
}

/// What becomes of a connection's first request: it must be meant for this instance; anyone may ask
/// who this is; one who asks with the wrong token learns nothing; a proof without a challenge is
/// refused; whatever is left needs a ticket.
pub open spec fn first_step_ok(inst: Instance, chan: u64, req: Request, step: FirstStep) -> bool {
    if !req.addresses(inst.id@) {
        step is Answer && step->Answer_0@ == refusal(chan, req.id, NOT_ADDRESSED@)
    } else {
        match req.kind {
            ReqKind::Identify => step is Answer && step->Answer_0@ == answer(
                chan,
                req.id,
                hello(inst, Seq::empty()),
            ),
            ReqKind::IdentifyPair { token } => if token@ == inst.token@ {
                step is Answer && step->Answer_0@ == answer(chan, req.id, hello(inst, Seq::empty()))
            } else {
                step is Close
            },
            ReqKind::PairHello { nonce_c } => {
                &&& step is Challenge
                &&& step->nonce_c@ == nonce_c@
                &&& opt_view(step->actor) == opt_view(req.actor)
            },
            ReqKind::PairProve { .. } => step is Answer && step->Answer_0@ == refusal(
                chan,
                req.id,
                NOT_STARTED@,
            ),
            _ => step is Work,
        }
    }
}

/// Decides what becomes of a connection's first request.
pub fn first_step(inst: &Instance, chan: u64, req: &Request) -> (r: FirstStep)
    ensures
        first_step_ok(*inst, chan, *req, r),
{
    if !req.is_addressed_to(inst.id.as_str()) {
        return FirstStep::Answer(refuse(chan, req.id, NOT_ADDRESSED));
    }
    match &req.kind {
        ReqKind::Identify => {
            let none = String::new();
            assert(none@ =~= Seq::<char>::empty());
            FirstStep::Answer(
                Reply { chan, id: req.id, result: Ok(instance_hello(inst, none)) },
            )
        },
        ReqKind::IdentifyPair { token } => {
            if !same(token.as_str(), inst.token.as_str()) {
                return FirstStep::Close;
            }
            let none = String::new();
            assert(none@ =~= Seq::<char>::empty());
            FirstStep::Answer(
                Reply { chan, id: req.id, result: Ok(instance_hello(inst, none)) },
            )
        },
        ReqKind::PairHello { nonce_c } => FirstStep::Challenge {
            nonce_c: nonce_c.clone(),
            actor: clone_opt(&req.actor),
        },
        ReqKind::PairProve { .. } => FirstStep::Answer(refuse(chan, req.id, NOT_STARTED)),
        _ => FirstStep::Work,
    }
}

/// The challenge to a proxy: a fresh number and the proof of this side. Without a random source
/// there is none.
pub fn challenge(
    inst: &Instance,
    chan: u64,
    id: u64,
    nonce_s: Option<String>,
    server_proof: String,
) -> (r: Reply)
    ensures
        r@ == (match nonce_s {
            Some(n) => answer(
                chan,
                id,
                ResultView::PairChallenge {
                    id: inst.id@,
                    proto_version: inst.proto_version,
                    nonce_s: n@,
                    server_proof: server_proof@,
                },
            ),
            None => refusal(chan, id, NO_HANDSHAKE_ENTROPY@),
        }),
{
    match nonce_s {
        Some(n) => Reply {
            chan,
            id,
            result: Ok(
                ReqResult::PairChallenge {
                    id: inst.id.clone(),
                    proto_version: inst.proto_version,
                    nonce_s: n,
                    server_proof,
                },
            ),
        },
        None => refuse(chan, id, NO_HANDSHAKE_ENTROPY),
    }
}

/// What a challenged proxy sent.
#[derive(Clone, Copy)]
pub enum SecondLine {
    /// A proof, and whether it is right.
    Proof { id: u64, matches: bool },
    /// Anything else.
    Other,
}

/// What a challenged proxy is answered, apart from its ticket: only a right proof of one who said
/// which process it is earns a ticket.
pub open spec fn second_step_refusal(
    chan: u64,
    actor: Option<String>,
    line: SecondLine,
) -> Option<ReplyView> {
    match line {
        SecondLine::Other => Some(refusal(chan, 0, NOT_A_PROOF@)),
        SecondLine::Proof { id, matches } => if !matches {
            Some(refusal(chan, id, BAD_PROOF@))
        } else if actor is None {
            Some(refusal(chan, id, NO_ACTOR@))
        } else {
            None
        },
    }
}

/// Answers a challenged proxy, with a ticket for the process that it said it is where its proof is
/// right.
pub fn second_step(
    inst: &Instance,
    tickets: &mut Tickets,
    chan: u64,
    actor: Option<String>,
    line: SecondLine,
    now: u64,
) -> (r: Reply)
    requires
        well_formed(*old(tickets)),
    ensures
        well_formed(*final(tickets)),
        match second_step_refusal(chan, actor, line) {
            Some(reply) => r@ == reply && *final(tickets) == *old(tickets),
            None => match r@.result {
                Ok(res) => exists|ticket: Seq<char>|
                    {
                        &&& res == #[trigger] hello(*inst, ticket)
                        &&& is_ticket(ticket)
                        &&& recorded(*old(tickets), *final(tickets), ticket, actor->0@, now)
                    },
                Err(msg) => msg == NO_TICKET_ENTROPY@ && *final(tickets) == *old(tickets),
            },
        },
        r.chan == chan,
        line is Proof ==> r.id == line->id,
{
    match line {
        SecondLine::Other => refuse(chan, 0, NOT_A_PROOF),
        SecondLine::Proof { id, matches } => {
            if !matches {
                return refuse(chan, id, BAD_PROOF);
            }
            match actor {
                None => refuse(chan, id, NO_ACTOR),
                Some(a) => match tickets.issue(a, now) {
                    Some(t) => {
                        let ghost ticket = t@;
                        let res = instance_hello(inst, t);
                        assert(res@ == hello(*inst, ticket));
                        Reply { chan, id, result: Ok(res) }
                    },
                    None => refuse(chan, id, NO_TICKET_ENTROPY),
                },
            }
        },
    }
}

pub const TICKET_TAIL_1: &'static str = "：这台 iShell 只接受完成配对握手的请求（需要与它配对 token 一致的 \
                     ishell-mcp，协议 v";

pub const TICKET_TAIL_2: &'static str = "）。代理会自动重新握手；仍失败请重新连接 MCP";

/// What one without a good ticket is told.
pub open spec fn ticket_refusal(inst: Instance) -> Seq<char> {
    inst.ticket_rejected@ + TICKET_TAIL_1@ + decimal(inst.proto_version as nat) + TICKET_TAIL_2@
}

/// How a request is carried on.
#[derive(Clone, Copy, PartialEq, Eq, Structural)]
pub enum Carry {
    /// One request, one reply.
    Plain,
    /// The bytes of a file follow the request.
    Upload,
    /// The bytes of a file follow the reply.
    Download,
}

/// How a request is carried on.
pub open spec fn carry_of(kind: ReqKind) -> Carry {
    match kind {
        ReqKind::CopyToRemoteFromCaller { .. } => Carry::Upload,
        ReqKind::CopyFromRemoteToCaller { .. } => Carry::Download,
        _ => Carry::Plain,
    }
}

/// What becomes of a request that needs a ticket.
pub enum Gate {
    /// Answer it and close, after reading what is left of an upload.
    Refuse { reply: Reply, drain: bool },
    /// Hand it to the program.
    Pass { req: Request, carry: Carry },
}

/// The process that a request's ticket stands for.
pub open spec fn ticket_actor(tickets: Tickets, req: Request, now: u64) -> Option<Seq<char>> {
    match req.ticket {
        Some(t) => actor_of(tickets, t@, now),
        None => None,
    }
}

/// Lets a request through to the program where there is room for it and its ticket is good. From
/// then on it counts as sent by the process that the ticket stands for, whatever it says itself.
pub fn work_gate(
    inst: &Instance,
    tickets: &mut Tickets,
    chan: u64,
    req: Request,
    has_room: bool,
    now: u64,
) -> (r: Gate)
    ensures
        well_formed(*old(tickets)) ==> well_formed(*final(tickets)),
        match r {
            Gate::Pass { req: passed, carry } => {
                &&& has_room
                &&& ticket_actor(*old(tickets), req, now) is Some
                &&& opt_view(passed.actor) == ticket_actor(*old(tickets), req, now)
                &&& passed == (Request { actor: passed.actor, ..req })
                &&& carry == carry_of(req.kind)
                &&& touched(*old(tickets), *final(tickets), req.ticket->0@, now)
            },
            Gate::Refuse { reply, drain } => if !has_room {
                &&& reply@ == refusal(chan, req.id, TOO_BUSY@)
                &&& !drain
                &&& *final(tickets) == *old(tickets)
            } else {
                &&& ticket_actor(*old(tickets), req, now) is None
                &&& reply@ == refusal(chan, req.id, ticket_refusal(*inst))
                &&& drain == (carry_of(req.kind) == Carry::Upload)
                &&& *final(tickets) == *old(tickets)
            },
        },
{
    if !has_room {
        return Gate::Refuse { reply: refuse(chan, req.id, TOO_BUSY), drain: false };
    }
    let carry = match &req.kind {
        ReqKind::CopyToRemoteFromCaller { .. } => Carry::Upload,
        ReqKind::CopyFromRemoteToCaller { .. } => Carry::Download,
        _ => Carry::Plain,
    };
    let actor: Option<String> = match &req.ticket {
        Some(t) => tickets.redeem(t.as_str(), now),
        None => None,
    };
    match actor {
        Some(a) => {
            let mut passed = req;
            passed.actor = Some(a);
            Gate::Pass { req: passed, carry }
        },
        None => {
            let mut msg = inst.ticket_rejected.clone();
            msg.append(TICKET_TAIL_1);
            push_decimal(&mut msg, inst.proto_version as u64);
            msg.append(TICKET_TAIL_2);
            Gate::Refuse {
                reply: Reply { chan, id: req.id, result: Err(msg) },
                drain: matches!(carry, Carry::Upload),
            }
        },
    }
}

/// The reply to a request that the program dropped without one.
pub fn unhandled(chan: u64, id: u64) -> (r: Reply)
    ensures
        r@ == refusal(chan, id, UNHANDLED@),
{
    refuse(chan, id, UNHANDLED)
}

/// Why a download has no byte stream, from the program's own reply: `None` where it gave none.
pub fn download_refusal(reply: Option<Result<ReqResult, String>>) -> (r: String)
    ensures
        r@ == (match reply {
            Some(Err(msg)) => msg@,
            Some(Ok(_)) => UNEXPECTED_REPLY@,
            None => UNHANDLED@,
        }),
{
    match reply {
        Some(Err(msg)) => msg,
        Some(Ok(_)) => UNEXPECTED_REPLY.to_owned(),
        None => UNHANDLED.to_owned(),
    }
}

/// The line in front of the bytes of a download.
pub fn download_header(chan: u64, id: u64, path: String, size: u64) -> (r: Reply)
    ensures
        r@ == answer(chan, id, ResultView::CopyStreamHeader { path: path@, size }),
{
    Reply { chan, id, result: Ok(ReqResult::CopyStreamHeader { path, size }) }
}

/// What a worker says of a download whose bytes are all sent.
pub enum DownloadEnd {
    Complete,
    Failed(String),
    /// The worker is gone.
    Gone,
    /// The worker said nothing in time.
    Late,
}

/// The line behind the bytes of a download: anything but a plain success counts as a failure.
pub fn download_end(chan: u64, id: u64, end: DownloadEnd) -> (r: Reply)
    ensures
        r@ == (match end {
            DownloadEnd::Complete => answer(chan, id, ResultView::Done),
            DownloadEnd::Failed(msg) => refusal(chan, id, msg@),
            DownloadEnd::Gone => refusal(chan, id, WORKER_GONE@),
            DownloadEnd::Late => refusal(chan, id, WORKER_LATE@),
        }),
{
    match end {
        DownloadEnd::Complete => Reply { chan, id, result: Ok(ReqResult::Done) },
        DownloadEnd::Failed(msg) => Reply { chan, id, result: Err(msg) },
        DownloadEnd::Gone => refuse(chan, id, WORKER_GONE),
        DownloadEnd::Late => refuse(chan, id, WORKER_LATE),
    }
}

/// Nobody gets a request through without a ticket: before any ticket was issued, every request that
/// is not answered on the connection itself is refused.
pub proof fn no_ticket_no_work(tickets: Tickets, req: Request, now: u64)
    requires
        tickets.entries@.len() == 0,
    ensures
        ticket_actor(tickets, req, now) is None,
{
}

} // verus!
