//! The requests that an agent's proxy sends over the control channel, and the replies to them.
use vstd::prelude::*;

use crate::text::{opt_view, same};

verus! {

/// What a request asks for.
pub enum ReqKind {
    /// Who are you?
    Identify,
    /// Who are you, for one who already knows the pairing token?
    IdentifyPair { token: String },
    /// The first step of the pairing handshake.
    PairHello { nonce_c: String },
    /// The second step of the pairing handshake.
    PairProve { client_proof: String },
    /// May I drive this window?
    Bind,
    ListSessions,
    RunCommand { session_uid: u64, command: String, timeout_ms: u64 },
    PollRun { session_uid: u64, run_id: Option<u64>, timeout_ms: u64 },
    ReadScreen { session_uid: u64 },
    ReadHistory { session_uid: u64, max_lines: u32 },
    Interrupt { session_uid: u64 },
    OpenSession { name: String },
    CloseSession { session_uid: u64 },
    ListSavedConnections,
    SendInput { session_uid: u64, text: String },
    WriteFile { session_uid: u64, path: String, content: String, timeout_ms: u64 },
    ReadFile { session_uid: u64, path: String, force: bool, timeout_ms: u64 },
    CopyToRemote { session_uid: u64, local_path: String, remote_path: String, timeout_ms: u64 },
    CopyToRemoteFromCaller { session_uid: u64, remote_path: String, size: u64, timeout_ms: u64 },
    CopyFromRemoteToCaller { session_uid: u64, remote_path: String, timeout_ms: u64 },
    CopyBetweenSessions {
        src_session_uid: u64,
        src_remote_path: String,
        dest_session_uid: u64,
        dest_remote_path: String,
        timeout_ms: u64,
    },
}

impl ReqKind {
    /// Whether the request belongs to discovery or to the pairing handshake, which come before a
    /// proxy is bound to an instance.
    pub open spec fn is_discovery(self) -> bool {
        self is Identify || self is IdentifyPair || self is PairHello || self is PairProve
    }

    /// The sessions that a request reads or writes.
    pub open spec fn targets(self) -> Seq<u64> {
        match self {
            ReqKind::RunCommand { session_uid, .. } => seq![session_uid],
            ReqKind::PollRun { session_uid, .. } => seq![session_uid],
            ReqKind::ReadScreen { session_uid } => seq![session_uid],
            ReqKind::ReadHistory { session_uid, .. } => seq![session_uid],
            ReqKind::Interrupt { session_uid } => seq![session_uid],
            ReqKind::CloseSession { session_uid } => seq![session_uid],
            ReqKind::SendInput { session_uid, .. } => seq![session_uid],
            ReqKind::WriteFile { session_uid, .. } => seq![session_uid],
            ReqKind::ReadFile { session_uid, .. } => seq![session_uid],
            ReqKind::CopyToRemote { session_uid, .. } => seq![session_uid],
            ReqKind::CopyToRemoteFromCaller { session_uid, .. } => seq![session_uid],
            ReqKind::CopyFromRemoteToCaller { session_uid, .. } => seq![session_uid],
            ReqKind::CopyBetweenSessions { src_session_uid, dest_session_uid, .. } => seq![
                src_session_uid,
                dest_session_uid,
            ],
            _ => seq![],
        }
    }

    /// Lists the sessions that a request reads or writes.
    pub fn session_target_uids(&self) -> (r: Vec<u64>)
        ensures
            r@ == self.targets(),
    {
        let mut out: Vec<u64> = Vec::new();
        match self {
            ReqKind::RunCommand { session_uid, .. } => out.push(*session_uid),
            ReqKind::PollRun { session_uid, .. } => out.push(*session_uid),
            ReqKind::ReadScreen { session_uid } => out.push(*session_uid),
            ReqKind::ReadHistory { session_uid, .. } => out.push(*session_uid),
            ReqKind::Interrupt { session_uid } => out.push(*session_uid),
            ReqKind::CloseSession { session_uid } => out.push(*session_uid),
            ReqKind::SendInput { session_uid, .. } => out.push(*session_uid),
            ReqKind::WriteFile { session_uid, .. } => out.push(*session_uid),
            ReqKind::ReadFile { session_uid, .. } => out.push(*session_uid),
            ReqKind::CopyToRemote { session_uid, .. } => out.push(*session_uid),
            ReqKind::CopyToRemoteFromCaller { session_uid, .. } => out.push(*session_uid),
            ReqKind::CopyFromRemoteToCaller { session_uid, .. } => out.push(*session_uid),
            ReqKind::CopyBetweenSessions { src_session_uid, dest_session_uid, .. } => {
                out.push(*src_session_uid);
                out.push(*dest_session_uid);
            },
            _ => {},
        }
        assert(out@ =~= self.targets());
        out
    }
}

/// One request.
pub struct Request {
    pub id: u64,
    /// The instance that the request is meant for.
    pub instance: Option<String>,
    /// Where the request comes from, in words for the user.
    pub origin: Option<String>,
    /// The proxy process that sends it.
    pub actor: Option<String>,
    /// The ticket that the handshake gave it.
    pub ticket: Option<String>,
    pub kind: ReqKind,
}

impl Request {
    /// Whether the request is meant for instance `own`: it names it, or it names none and belongs
    /// to discovery.
    pub open spec fn addresses(self, own: Seq<char>) -> bool {
        match self.instance {
            Some(i) => i@ == own,
            None => self.kind.is_discovery(),
        }
    }

    /// Decides [`Request::addresses`].
    pub fn is_addressed_to(&self, own: &str) -> (r: bool)
        ensures
            r == self.addresses(own@),
    {
        match &self.instance {
            Some(i) => same(i.as_str(), own),
            None => matches!(
                self.kind,
                ReqKind::Identify | ReqKind::IdentifyPair { .. } | ReqKind::PairHello { .. }
                    | ReqKind::PairProve { .. }
            ),
        }
    }
}

/// What an agent learns of a session of its own.
pub struct SessionInfo {
    pub uid: u64,
    pub title: String,
    pub host: String,
    pub connected: bool,
    pub cwd: Option<String>,
    pub ai_owned: bool,
    pub ai_owner: Option<String>,
    pub mine: bool,
    pub token_injected: bool,
}

/// A [`SessionInfo`] with its strings as characters.
pub struct SessionInfoView {
    pub uid: u64,
    pub title: Seq<char>,
    pub host: Seq<char>,
    pub connected: bool,
    pub cwd: Option<Seq<char>>,
    pub ai_owned: bool,
    pub ai_owner: Option<Seq<char>>,
    pub mine: bool,
    pub token_injected: bool,
}

impl View for SessionInfo {
    type V = SessionInfoView;

    open spec fn view(&self) -> SessionInfoView {
        SessionInfoView {
            uid: self.uid,
            title: self.title@,
            host: self.host@,
            connected: self.connected,
            cwd: opt_view(self.cwd),
            ai_owned: self.ai_owned,
            ai_owner: opt_view(self.ai_owner),
            mine: self.mine,
            token_injected: self.token_injected,
        }
    }
}

/// What an agent learns of a saved connection.
pub struct SavedConn {
    pub name: String,
    pub host: String,
    pub username: String,
    pub port: u16,
}

/// A [`SavedConn`] with its strings as characters.
pub struct SavedConnView {
    pub name: Seq<char>,
    pub host: Seq<char>,
    pub username: Seq<char>,
    pub port: u16,
}

impl View for SavedConn {
    type V = SavedConnView;

    open spec fn view(&self) -> SavedConnView {
        SavedConnView {
            name: self.name@,
            host: self.host@,
            username: self.username@,
            port: self.port,
        }
    }
}

/// What a request that succeeded is answered.
pub enum ReqResult {
    /// Done, with nothing to report.
    Done,
    Instance { id: String, proto_version: u32, token: String, ticket: String, host: String },
    PairChallenge { id: String, proto_version: u32, nonce_s: String, server_proof: String },
    Sessions(Vec<SessionInfo>),
    Opened(SessionInfo),
    SavedConnections(Vec<SavedConn>),
    Run { run_id: u64, finished: bool, output: String, exit_code: Option<i32> },
    /// What the session's screen shows when the reply is written.
    Screen { session_uid: u64 },
    /// The last lines of the session's terminal when the reply is written.
    History { session_uid: u64, max_lines: u32 },
    FileWritten { path: String, mtime: u32 },
    FileContent { path: String, content: String },
    Copied { path: String },
    CopiedBetweenSessions { path: String, method: String },
    /// The bytes of a file follow.
    CopyStreamHeader { path: String, size: u64 },
}

/// A [`ReqResult`] with its strings as characters.
pub enum ResultView {
    Done,
    Instance {
        id: Seq<char>,
        proto_version: u32,
        token: Seq<char>,
        ticket: Seq<char>,
        host: Seq<char>,
    },
    PairChallenge {
        id: Seq<char>,
        proto_version: u32,
        nonce_s: Seq<char>,
        server_proof: Seq<char>,
    },
    Sessions(Seq<SessionInfoView>),
    Opened(SessionInfoView),
    SavedConnections(Seq<SavedConnView>),
    Run { run_id: u64, finished: bool, output: Seq<char>, exit_code: Option<i32> },
    Screen { session_uid: u64 },
    History { session_uid: u64, max_lines: u32 },
    FileWritten { path: Seq<char>, mtime: u32 },
    FileContent { path: Seq<char>, content: Seq<char> },
    Copied { path: Seq<char> },
    CopiedBetweenSessions { path: Seq<char>, method: Seq<char> },
    CopyStreamHeader { path: Seq<char>, size: u64 },
}

/// Sessions with their strings as characters.
pub open spec fn info_views(v: Seq<SessionInfo>) -> Seq<SessionInfoView> {
    Seq::new(v.len(), |i: int| v[i]@)
}

/// Saved connections with their strings as characters.
pub open spec fn saved_views(v: Seq<SavedConn>) -> Seq<SavedConnView> {
    Seq::new(v.len(), |i: int| v[i]@)
}

impl View for ReqResult {
    type V = ResultView;

    open spec fn view(&self) -> ResultView {
        match *self {
            ReqResult::Done => ResultView::Done,
            ReqResult::Instance { id, proto_version, token, ticket, host } => ResultView::Instance {
                id: id@,
                proto_version,
                token: token@,
                ticket: ticket@,
                host: host@,
            },
            ReqResult::PairChallenge { id, proto_version, nonce_s, server_proof } =>
                ResultView::PairChallenge {
                    id: id@,
                    proto_version,
                    nonce_s: nonce_s@,
                    server_proof: server_proof@,
                },
            ReqResult::Sessions(v) => ResultView::Sessions(info_views(v@)),
            ReqResult::Opened(i) => ResultView::Opened(i@),
            ReqResult::SavedConnections(v) => ResultView::SavedConnections(saved_views(v@)),
            ReqResult::Run { run_id, finished, output, exit_code } => ResultView::Run {
                run_id,
                finished,
                output: output@,
                exit_code,
            },
            ReqResult::Screen { session_uid } => ResultView::Screen { session_uid },
            ReqResult::History { session_uid, max_lines } => ResultView::History {
                session_uid,
                max_lines,
            },
            ReqResult::FileWritten { path, mtime } => ResultView::FileWritten { path: path@, mtime },
            ReqResult::FileContent { path, content } => ResultView::FileContent {
                path: path@,
                content: content@,
            },
            ReqResult::Copied { path } => ResultView::Copied { path: path@ },
            ReqResult::CopiedBetweenSessions { path, method } => ResultView::CopiedBetweenSessions {
                path: path@,
                method: method@,
            },
            ReqResult::CopyStreamHeader { path, size } => ResultView::CopyStreamHeader {
                path: path@,
                size,
            },
        }
    }
}

/// A reply to the request `id` that came in on connection `chan`.
pub struct Reply {
    pub chan: u64,
    pub id: u64,
    pub result: Result<ReqResult, String>,
}

/// A [`Reply`] with its strings as characters.
pub struct ReplyView {
    pub chan: u64,
    pub id: u64,
    pub result: Result<ResultView, Seq<char>>,
}

impl View for Reply {
    type V = ReplyView;

    open spec fn view(&self) -> ReplyView {
        ReplyView {
            chan: self.chan,
            id: self.id,
            result: match self.result {
                Ok(r) => Ok(r@),
                Err(e) => Err(e@),
            },
        }
    }
}

/// A reply that refuses.
pub open spec fn refusal(chan: u64, id: u64, msg: Seq<char>) -> ReplyView {
    ReplyView { chan, id, result: Err(msg) }
}

/// A reply that grants.
pub open spec fn answer(chan: u64, id: u64, result: ResultView) -> ReplyView {
    ReplyView { chan, id, result: Ok(result) }
}

/// Replies with their strings as characters.
pub open spec fn reply_views(v: Seq<Reply>) -> Seq<ReplyView> {
    Seq::new(v.len(), |i: int| v[i]@)
}

/// An optional reply with its strings as characters.
pub open spec fn reply_view(r: Option<Reply>) -> Option<ReplyView> {
    match r {
        Some(x) => Some(x@),
        None => None,
    }
}

/// One who waits for a reply on connection `chan`. It is marked closed once the connection is
/// found hung up.
#[derive(Clone, Copy, PartialEq, Eq, Structural)]
pub struct Waiter {
    pub chan: u64,
    pub closed: bool,
}

} // verus!
