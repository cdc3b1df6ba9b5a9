//! What an agent's requests do: the guard that keeps it to its own sessions, and each request
//! behind it.
use vstd::prelude::*;
use vstd::string::*;

use crate::agent_files::{
    between_refusal, file_op_ok, marker_of, read_refusal, relay_marker, start_cross_copy_ok,
    stream_refusal, upload_refusal, write_refusal, NO_SINK, NO_UPLOAD,
};
use crate::agent_open::{bind_ok, close_ok, list_saved_connections, open_session_ok, saved_infos};
use crate::agent_runs::{interrupt_ok, poll_run_ok, run_command_ok, send_input_ok};
use crate::app::{lemma_uid_pos, uid_pos, App};
use crate::file_ops::FileOpKind;
use crate::keys::{
    generate_temp_keypair, is_marker_suffix, is_temp_keypair, rand_marker_suffix,
};
use crate::ownership::{
    first_foreign_session, foreign_refusal, foreign_session_refusal, lookup_passes, lookup_refuses,
    owned_by, session_owned_by, str_view,
};
use crate::paths::{basename_of, parent_of};
use crate::proto::{CommandView, ConflictPolicy, Eol};
use crate::protocol::{
    answer, info_views, refusal, reply_views, Reply, ReqKind, ReqResult, Request, ResultView,
    SessionInfo, SessionInfoView, Waiter,
};
use crate::runs::{clamped, CLOCK_LIMIT_MS};
use crate::saved::SavedConnection;
use crate::session::Session;
use crate::text::{clone_opt, decimal, join, join_of, opt_view, push_decimal, views};

verus! {

/// How long the user may take to answer a question, in milliseconds.
pub const CONSENT_MS: u64 = 300_000;

/// A request that came in on connection `chan`.
pub struct McpCall {
    pub req: Request,
    pub chan: u64,
    /// Whether the bytes of a file follow it.
    pub has_upload: bool,
    /// Whether the connection can take the bytes of a file.
    pub has_sink: bool,
}

/// What a request is handled with: the clock, a number that is never used twice, and the settings.
#[derive(Clone, Copy)]
pub struct Moment {
    /// In milliseconds.
    pub now: u64,
    pub nonce: u64,
    /// Whether the user lets agents in at all.
    pub consent: bool,
    /// Whether agents may open connections without being confirmed each time.
    pub auto_approve: bool,
    /// What a marker is made of where the random source fails.
    pub fallback: u64,
}

/// Nothing changed but the session at `i`.
pub open spec fn only_session(before: App, after: App, i: int) -> bool {
    &&& 0 <= i < before.sessions@.len()
    &&& after.sessions@ == before.sessions@.update(i, after.sessions@[i])
    &&& after == (App { sessions: after.sessions, ..before })
}

/// The request was refused, and nothing changed.
pub open spec fn refused(
    before: App,
    after: App,
    replies: Seq<Reply>,
    chan: u64,
    id: u64,
    msg: Seq<char>,
) -> bool {
    after == before && reply_views(replies) == seq![refusal(chan, id, msg)]
}

/// One reply that refuses.
pub fn refuse(chan: u64, id: u64, msg: String) -> (r: Vec<Reply>)
    ensures
        reply_views(r@) == seq![refusal(chan, id, msg@)],
{
    let mut v: Vec<Reply> = Vec::new();
    v.push(Reply { chan, id, result: Err(msg) });
    assert(reply_views(v@) =~= seq![refusal(chan, id, msg@)]);
    v
}

/// One reply that grants.
pub fn grant(chan: u64, id: u64, result: ReqResult) -> (r: Vec<Reply>)
    ensures
        reply_views(r@) == seq![answer(chan, id, result@)],
{
    let mut v: Vec<Reply> = Vec::new();
    v.push(Reply { chan, id, result: Ok(result) });
    assert(reply_views(v@) =~= seq![answer(chan, id, result@)]);
    v
}

/// Whether a session belongs to the agent process `actor`.
pub open spec fn session_is_mine(s: Session, actor: Option<String>) -> bool {
    owned_by(s.ai_owned, opt_view(s.ai_owner), opt_view(actor))
}

/// Decides [`session_is_mine`].
pub fn is_mine(s: &Session, actor: &Option<String>) -> (r: bool)
    ensures
        r == session_is_mine(*s, *actor),
{
    match &s.ai_owner {
        Some(o) => match actor {
            Some(a) => session_owned_by(s.ai_owned, Some(o.as_str()), Some(a.as_str())),
            None => false,
        },
        None => false,
    }
}

/// `uid:title` of each session of the agent process `actor`.
pub open spec fn own_entries(ss: Seq<Session>, actor: Option<String>) -> Seq<Seq<char>>
    decreases ss.len(),
{
    if ss.len() == 0 {
        Seq::empty()
    } else {
        let rest = own_entries(ss.drop_last(), actor);
        let s = ss.last();
        if session_is_mine(s, actor) {
            rest.push(decimal(s.uid as nat) + ":"@ + s.title@)
        } else {
            rest
        }
    }
}

pub const NO_SUCH_SESSION: &'static str = "会话不存在（uid=";

pub const NONE_OF_YOURS: &'static str = "）：你当前没有自己开的会话（iShell 重启后 uid 会重新分配）。\
                 用 open_session 开一个";

pub const SOME_OF_YOURS: &'static str = "）：可能是 iShell 已重启（重启后 uid 会重新分配）或这个会话\
             已被关闭。你自己的会话（uid:标题）：";

/// What an agent that names a session that does not exist is told: which sessions it does have.
pub open spec fn not_found(ss: Seq<Session>, uid: u64, actor: Option<String>) -> Seq<char> {
    if own_entries(ss, actor).len() == 0 {
        NO_SUCH_SESSION@ + decimal(uid as nat) + NONE_OF_YOURS@
    } else {
        NO_SUCH_SESSION@ + decimal(uid as nat) + SOME_OF_YOURS@ + join_of(
            own_entries(ss, actor),
            ", "@,
        )
    }
}

/// What an agent learns of a session of its own.
pub open spec fn info_of(s: Session) -> SessionInfoView {
    SessionInfoView {
        uid: s.uid,
        title: s.title@,
        host: s.cfg.host@,
        connected: s.connected,
        cwd: opt_view(s.terminal.cwd),
        ai_owned: s.ai_owned,
        ai_owner: opt_view(s.ai_owner_label),
        mine: true,
        token_injected: s.mcp_token_injected,
    }
}

/// Tells an agent of a session of its own.
pub fn session_info(s: &Session) -> (r: SessionInfo)
    ensures
        r@ == info_of(*s),
{
    SessionInfo {
        uid: s.uid,
        title: s.title.clone(),
        host: s.cfg.host.clone(),
        connected: s.connected,
        cwd: clone_opt(&s.terminal.cwd),
        ai_owned: s.ai_owned,
        ai_owner: clone_opt(&s.ai_owner_label),
        mine: true,
        token_injected: s.mcp_token_injected,
    }
}

/// The sessions of the agent process `actor`, in the order of the tabs.
pub open spec fn own_infos(ss: Seq<Session>, actor: Option<String>) -> Seq<SessionInfoView>
    decreases ss.len(),
{
    if ss.len() == 0 {
        Seq::empty()
    } else {
        let rest = own_infos(ss.drop_last(), actor);
        if session_is_mine(ss.last(), actor) {
            rest.push(info_of(ss.last()))
        } else {
            rest
        }
    }
}

/// Whether the agent process `actor` may touch session `uid`. One that does not exist is let
/// through, to be answered by name.
pub open spec fn may_reach(ss: Seq<Session>, uid: u64, actor: Option<String>) -> bool {
    match uid_pos(ss, uid) {
        Some(i) => session_is_mine(ss[i], actor),
        None => true,
    }
}

/// The first of these sessions that the agent process `actor` may not touch.
pub open spec fn first_out_of_reach(
    ss: Seq<Session>,
    uids: Seq<u64>,
    actor: Option<String>,
) -> Option<u64>
    decreases uids.len(),
{
    if uids.len() == 0 {
        None
    } else if !may_reach(ss, uids[0], actor) {
        Some(uids[0])
    } else {
        first_out_of_reach(ss, uids.skip(1), actor)
    }
}

/// The guard refuses nothing exactly where every session of the request that exists was opened by
/// the one who asks.
pub proof fn gate_passes_only_own_sessions(ss: Seq<Session>, uids: Seq<u64>, actor: Option<String>)
    ensures
        first_out_of_reach(ss, uids, actor) is None <==> forall|k: int|
            0 <= k < uids.len() ==> may_reach(ss, #[trigger] uids[k], actor),
    decreases uids.len(),
{
    if uids.len() > 0 {
        let rest = uids.skip(1);
        gate_passes_only_own_sessions(ss, rest, actor);
        assert(forall|k: int| 0 <= k < rest.len() ==> rest[k] == uids[k + 1]);
        if first_out_of_reach(ss, uids, actor) is None {
            assert forall|k: int| 0 <= k < uids.len() implies may_reach(
                ss,
                #[trigger] uids[k],
                actor,
            ) by {
                if k > 0 {
                    assert(rest[k - 1] == uids[k]);
                }
            }
        } else if forall|k: int| 0 <= k < uids.len() ==> may_reach(ss, #[trigger] uids[k], actor) {
            assert(may_reach(ss, uids[0], actor));
            assert forall|k: int| 0 <= k < rest.len() implies may_reach(
                ss,
                #[trigger] rest[k],
                actor,
            ) by {
                assert(rest[k] == uids[k + 1]);
            }
        }
    }
}

/// Which of these sessions the guard names.
proof fn lemma_guard_names(
    ss: Seq<Session>,
    uids: Seq<u64>,
    actor: Option<String>,
    k: int,
)
    requires
        0 <= k < uids.len(),
        !may_reach(ss, uids[k], actor),
        forall|j: int| 0 <= j < k ==> may_reach(ss, #[trigger] uids[j], actor),
    ensures
        first_out_of_reach(ss, uids, actor) == Some(uids[k]),
    decreases uids.len(),
{
    if k > 0 {
        let rest = uids.skip(1);
        assert(may_reach(ss, uids[0], actor));
        assert forall|j: int| 0 <= j < k - 1 implies may_reach(ss, #[trigger] rest[j], actor) by {
            assert(rest[j] == uids[j + 1]);
        }
        assert(rest[k - 1] == uids[k]);
        lemma_guard_names(ss, rest, actor, k - 1);
    }
}

/// What a lookup of a session finds: whether an agent opened it, and which one.
pub open spec fn is_owner(
    ss: Seq<Session>,
    uid: u64,
    found: Option<(bool, Option<&str>)>,
) -> bool {
    match uid_pos(ss, uid) {
        Some(i) => {
            &&& found is Some
            &&& (found->0).0 == ss[i].ai_owned
            &&& str_view((found->0).1) == opt_view(ss[i].ai_owner)
        },
        None => found is None,
    }
}

fn as_str<'a>(s: &'a Option<String>) -> (r: Option<&'a str>)
    ensures
        str_view(r) == opt_view(*s),
{
    match s {
        Some(x) => Some(x.as_str()),
        None => None,
    }
}

/// Without an actor no session can be touched.
pub proof fn anonymous_reaches_nothing(ss: Seq<Session>, uid: u64)
    requires
        uid_pos(ss, uid) is Some,
    ensures
        !may_reach(ss, uid, None),
{
}

impl App {
    /// Says which sessions an agent does have.
    pub fn session_not_found_msg(&self, uid: u64, actor: &Option<String>) -> (r: String)
        ensures
            r@ == not_found(self.sessions@, uid, *actor),
    {
        let mut list: Vec<String> = Vec::new();
        let mut i: usize = 0;
        let ghost ss = self.sessions@;
        while i < self.sessions.len()
            invariant
                ss == self.sessions@,
                i <= ss.len(),
                views(list@) =~= own_entries(ss.take(i as int), *actor),
            decreases ss.len() - i,
        {
            assert(ss.take(i + 1).drop_last() =~= ss.take(i as int));
            if is_mine(&self.sessions[i], actor) {
                let ghost before = list@;
                let mut e = String::new();
                push_decimal(&mut e, self.sessions[i].uid);
                e.append(":");
                e.append(self.sessions[i].title.as_str());
                assert(e@ =~= decimal(ss[i as int].uid as nat) + ":"@ + ss[i as int].title@);
                list.push(e);
                assert(views(list@) =~= views(before).push(e@));
            }
            i = i + 1;
        }
        assert(ss.take(ss.len() as int) =~= ss);
        let mut msg = NO_SUCH_SESSION.to_owned();
        push_decimal(&mut msg, uid);
        if list.len() == 0 {
            msg.append(NONE_OF_YOURS);
        } else {
            msg.append(SOME_OF_YOURS);
            let all = join(&list, ", ");
            msg.append(all.as_str());
        }
        msg
    }

    /// Lists the sessions of the agent process `actor`.
    pub fn own_sessions(&self, actor: &Option<String>) -> (r: Vec<SessionInfo>)
        ensures
            info_views(r@) == own_infos(self.sessions@, *actor),
    {
        let mut list: Vec<SessionInfo> = Vec::new();
        let mut i: usize = 0;
        let ghost ss = self.sessions@;
        while i < self.sessions.len()
            invariant
                ss == self.sessions@,
                i <= ss.len(),
                info_views(list@) =~= own_infos(ss.take(i as int), *actor),
            decreases ss.len() - i,
        {
            assert(ss.take(i + 1).drop_last() =~= ss.take(i as int));
            if is_mine(&self.sessions[i], actor) {
                let ghost before = list@;
                list.push(session_info(&self.sessions[i]));
                assert(info_views(list@) =~= info_views(before).push(info_of(ss[i as int])));
            }
            i = i + 1;
        }
        assert(ss.take(ss.len() as int) =~= ss);
        list
    }

    /// The guard in front of every request: all sessions that it names must have been opened by the
    /// one who asks. It hands such a request on as it is, and answers any other with one refusal. No
    /// setting opens it.
    pub fn gate_foreign_sessions(&self, call: McpCall) -> (r: Result<McpCall, Vec<Reply>>)
        ensures
            match first_out_of_reach(self.sessions@, call.req.kind.targets(), call.req.actor) {
                None => r == Ok::<McpCall, Vec<Reply>>(call),
                Some(uid) => r is Err && reply_views(r->Err_0@) == seq![
                    refusal(call.chan, call.req.id, foreign_refusal(uid)),
                ],
            },
    {
        let uids = call.req.kind.session_target_uids();
        match self.foreign_target(&uids, &call.req.actor) {
            Some(uid) => Err(refuse(call.chan, call.req.id, foreign_session_refusal(uid))),
            None => Ok(call),
        }
    }

    fn foreign_target(&self, uids: &Vec<u64>, actor: &Option<String>) -> (r: Option<u64>)
        ensures
            r == first_out_of_reach(self.sessions@, uids@, *actor),
    {
        let lookup = |uid: u64| -> (found: Option<(bool, Option<&str>)>)
            ensures
                is_owner(self.sessions@, uid, found),
            {
                match self.session_idx_by_uid(uid) {
                    Some(i) => Some((self.sessions[i].ai_owned, as_str(&self.sessions[i].ai_owner))),
                    None => None,
                }
            };
        let r = first_foreign_session(uids.as_slice(), lookup, as_str(actor));
        proof {
            let ss = self.sessions@;
            let who = opt_view(*actor);
            assert forall|uid: u64| lookup_passes(lookup, uid, who) implies #[trigger] may_reach(
                ss,
                uid,
                *actor,
            ) by {}
            assert forall|uid: u64| lookup_refuses(lookup, uid, who) implies !(
            #[trigger] may_reach(ss, uid, *actor)) by {}
            match r {
                Some(uid) => {
                    let k = choose|k: int|
                        0 <= k < uids@.len() && #[trigger] uids@[k] == uid && forall|j: int|
                            0 <= j < k ==> lookup_passes(lookup, #[trigger] uids@[j], who);
                    assert forall|j: int| 0 <= j < k implies may_reach(
                        ss,
                        #[trigger] uids@[j],
                        *actor,
                    ) by {
                        assert(lookup_passes(lookup, uids@[j], who));
                    }
                    lemma_guard_names(ss, uids@, *actor, k);
                },
                None => {
                    assert forall|j: int| 0 <= j < uids@.len() implies may_reach(
                        ss,
                        #[trigger] uids@[j],
                        *actor,
                    ) by {
                        assert(lookup_passes(lookup, uids@[j], who));
                    }
                    gate_passes_only_own_sessions(ss, uids@, *actor);
                },
            }
        }
        r
    }
}

pub const CONSENT_OFF: &'static str = "用户已在设置里关闭「允许 AI 通过 MCP 控制终端」，本次请求未执行。\
                     请在设置里重新打开该开关（本次启动时监听已在跑的话，不必重启 iShell）。";

pub const NOT_FOR_APP: &'static str = "Identify/配对握手 不应该到达 App 层";

/// The request was granted, and nothing changed.
pub open spec fn granted(
    before: App,
    after: App,
    replies: Seq<Reply>,
    chan: u64,
    id: u64,
    result: ResultView,
) -> bool {
    after == before && reply_views(replies) == seq![answer(chan, id, result)]
}

/// A request that only reads a session: it must exist.
pub open spec fn reads_session(
    before: App,
    after: App,
    replies: Seq<Reply>,
    chan: u64,
    id: u64,
    uid: u64,
    actor: Option<String>,
    result: ResultView,
) -> bool {
    match uid_pos(before.sessions@, uid) {
        None => refused(
            before,
            after,
            replies,
            chan,
            id,
            not_found(before.sessions@, uid, actor),
        ),
        Some(_) => granted(before, after, replies, chan, id, result),
    }
}

/// What a request to copy between two sessions does: it is refused, or it starts with some key.
pub open spec fn copy_between_ok(
    before: App,
    after: App,
    replies: Seq<Reply>,
    chan: u64,
    id: u64,
    src_uid: u64,
    src_path: Seq<char>,
    dest_uid: u64,
    dest_path: Seq<char>,
    timeout_ms: u64,
    actor: Option<String>,
    m: Moment,
) -> bool {
    match between_refusal(before, src_uid, src_path, dest_uid, dest_path, actor) {
        Some(msg) => refused(before, after, replies, chan, id, msg),
        None => exists|suffix: Seq<char>, keys: Result<(Vec<u8>, String), String>|
            {
                &&& is_marker_suffix(suffix)
                &&& #[trigger] is_temp_keypair(marker_of(m.nonce, suffix), keys)
                &&& start_cross_copy_ok(
                    before,
                    after,
                    replies,
                    chan,
                    id,
                    src_uid,
                    src_path,
                    dest_uid,
                    dest_path,
                    timeout_ms,
                    m,
                    marker_of(m.nonce, suffix),
                    keys,
                )
            },
    }
}

/// What a request that passed the guard does.
pub open spec fn request_ok(
    before: App,
    after: App,
    replies: Seq<Reply>,
    call: McpCall,
    saved: Seq<SavedConnection>,
    m: Moment,
) -> bool {
    let chan = call.chan;
    let id = call.req.id;
    let actor = call.req.actor;
    let me = Some(Waiter { chan, closed: false });
    match call.req.kind {
        ReqKind::Identify => refused(before, after, replies, chan, id, NOT_FOR_APP@),
        ReqKind::IdentifyPair { .. } => refused(before, after, replies, chan, id, NOT_FOR_APP@),
        ReqKind::PairHello { .. } => refused(before, after, replies, chan, id, NOT_FOR_APP@),
        ReqKind::PairProve { .. } => refused(before, after, replies, chan, id, NOT_FOR_APP@),
        ReqKind::Bind => bind_ok(before, after, replies, chan, id, call.req.origin, m),
        ReqKind::ListSessions => granted(
            before,
            after,
            replies,
            chan,
            id,
            ResultView::Sessions(own_infos(before.sessions@, actor)),
        ),
        ReqKind::RunCommand { session_uid, command, timeout_ms } => run_command_ok(
            before,
            after,
            replies,
            chan,
            id,
            session_uid,
            command@,
            timeout_ms,
            actor,
            m,
        ),
        ReqKind::PollRun { session_uid, run_id, timeout_ms } => poll_run_ok(
            before,
            after,
            replies,
            chan,
            id,
            session_uid,
            run_id,
            timeout_ms,
            actor,
            m,
        ),
        ReqKind::ReadScreen { session_uid } => reads_session(
            before,
            after,
            replies,
            chan,
            id,
            session_uid,
            actor,
            ResultView::Screen { session_uid },
        ),
        ReqKind::ReadHistory { session_uid, max_lines } => reads_session(
            before,
            after,
            replies,
            chan,
            id,
            session_uid,
            actor,
            ResultView::History { session_uid, max_lines },
        ),
        ReqKind::Interrupt { session_uid } => interrupt_ok(
            before,
            after,
            replies,
            chan,
            id,
            session_uid,
            actor,
        ),
        ReqKind::OpenSession { name } => open_session_ok(
            before,
            after,
            replies,
            chan,
            id,
            name@,
            actor,
            call.req.origin,
            saved,
            m,
        ),
        ReqKind::CloseSession { session_uid } => close_ok(
            before,
            after,
            replies,
            chan,
            id,
            session_uid,
            actor,
        ),
        ReqKind::ListSavedConnections => granted(
            before,
            after,
            replies,
            chan,
            id,
            ResultView::SavedConnections(saved_infos(saved)),
        ),
        ReqKind::SendInput { session_uid, text } => send_input_ok(
            before,
            after,
            replies,
            chan,
            id,
            session_uid,
            text@,
            actor,
        ),
        ReqKind::WriteFile { session_uid, path, content, timeout_ms } => file_op_ok(
            before,
            after,
            replies,
            chan,
            id,
            session_uid,
            write_refusal(before, session_uid, path@, actor),
            CommandView::WriteFile {
                id: m.nonce,
                path: path@,
                content: content@,
                encoding: "UTF-8"@,
                eol: Eol::Lf,
                expect_mtime: 0,
                force: true,
            },
            FileOpKind::Write { op_id: m.nonce },
            path@,
            me,
            m.now + clamped(timeout_ms),
        ),
        ReqKind::ReadFile { session_uid, path, force, timeout_ms } => file_op_ok(
            before,
            after,
            replies,
            chan,
            id,
            session_uid,
            read_refusal(before, session_uid, path@, actor),
            CommandView::ReadFile { id: m.nonce, path: path@, force },
            FileOpKind::Read { op_id: m.nonce },
            path@,
            me,
            m.now + clamped(timeout_ms),
        ),
        ReqKind::CopyToRemote { session_uid, local_path, remote_path, timeout_ms } => file_op_ok(
            before,
            after,
            replies,
            chan,
            id,
            session_uid,
            upload_refusal(before, session_uid, local_path@, remote_path@, actor),
            CommandView::Upload {
                id: m.nonce,
                local: local_path@,
                remote_dir: parent_of(remote_path@),
                remote_name: Some(basename_of(remote_path@)),
                policy: ConflictPolicy::Overwrite,
            },
            FileOpKind::Copy { op_id: m.nonce },
            remote_path@,
            me,
            m.now + clamped(timeout_ms),
        ),
        ReqKind::CopyToRemoteFromCaller { session_uid, remote_path, size, timeout_ms } =>
            file_op_ok(
                before,
                after,
                replies,
                chan,
                id,
                session_uid,
                stream_refusal(
                    before,
                    session_uid,
                    remote_path@,
                    call.has_upload,
                    NO_UPLOAD@,
                    actor,
                ),
                CommandView::UploadFromMcp {
                    id: m.nonce,
                    source: chan,
                    size,
                    remote_path: remote_path@,
                },
                FileOpKind::Copy { op_id: m.nonce },
                remote_path@,
                me,
                m.now + clamped(timeout_ms),
            ),
        ReqKind::CopyFromRemoteToCaller { session_uid, remote_path, timeout_ms } => file_op_ok(
            before,
            after,
            replies,
            chan,
            id,
            session_uid,
            stream_refusal(before, session_uid, remote_path@, call.has_sink, NO_SINK@, actor),
            CommandView::DownloadToMcp { id: m.nonce, remote_path: remote_path@, sink: chan },
            FileOpKind::Copy { op_id: m.nonce },
            remote_path@,
            None,
            m.now + clamped(timeout_ms),
        ),
        ReqKind::CopyBetweenSessions {
            src_session_uid,
            src_remote_path,
            dest_session_uid,
            dest_remote_path,
            timeout_ms,
        } => copy_between_ok(
            before,
            after,
            replies,
            chan,
            id,
            src_session_uid,
            src_remote_path@,
            dest_session_uid,
            dest_remote_path@,
            timeout_ms,
            actor,
            m,
        ),
    }
}

/// What a request does: nothing where the user shut agents out, nothing where it names a session
/// of somebody else, and else what it asks for.
pub open spec fn call_ok(
    before: App,
    after: App,
    replies: Seq<Reply>,
    call: McpCall,
    saved: Seq<SavedConnection>,
    m: Moment,
) -> bool {
    if !m.consent {
        refused(before, after, replies, call.chan, call.req.id, CONSENT_OFF@)
    } else {
        match first_out_of_reach(before.sessions@, call.req.kind.targets(), call.req.actor) {
            Some(uid) => refused(
                before,
                after,
                replies,
                call.chan,
                call.req.id,
                foreign_refusal(uid),
            ),
            None => request_ok(before, after, replies, call, saved, m),
        }
    }
}

/// Whether two states have the same tabs in the same order.
pub open spec fn same_tabs(before: App, after: App) -> bool {
    &&& after.next_uid == before.next_uid
    &&& after.active == before.active
    &&& after.sessions@.len() == before.sessions@.len()
    &&& forall|i: int|
        0 <= i < before.sessions@.len() ==> (#[trigger] after.sessions@[i]).uid
            == before.sessions@[i].uid
}

proof fn lemma_same_tabs_wf(before: App, after: App)
    requires
        before.wf(),
        same_tabs(before, after),
    ensures
        after.wf(),
{
    assert forall|i: int, j: int| 0 <= i < j < after.sessions@.len() implies (
    #[trigger] after.sessions@[i]).uid != (#[trigger] after.sessions@[j]).uid by {
        assert(before.sessions@[i].uid != before.sessions@[j].uid);
    }
    assert forall|i: int| 0 <= i < after.sessions@.len() implies (
    #[trigger] after.sessions@[i]).uid <= after.next_uid by {
        assert(before.sessions@[i].uid <= before.next_uid);
    }
}

impl App {
    fn copy_between(
        &mut self,
        chan: u64,
        id: u64,
        src_uid: u64,
        src_path: String,
        dest_uid: u64,
        dest_path: String,
        timeout_ms: u64,
        actor: &Option<String>,
        m: Moment,
    ) -> (replies: Vec<Reply>)
        requires
            old(self).wf(),
            m.now <= CLOCK_LIMIT_MS,
        ensures
            final(self).wf(),
            copy_between_ok(
                *old(self),
                *final(self),
                replies@,
                chan,
                id,
                src_uid,
                src_path@,
                dest_uid,
                dest_path@,
                timeout_ms,
                *actor,
                m,
            ),
    {
        match self.copy_between_refusal(
            src_uid,
            src_path.as_str(),
            dest_uid,
            dest_path.as_str(),
            actor,
        ) {
            Some(msg) => {
                return refuse(chan, id, msg);
            },
            None => {},
        }
        let suffix = rand_marker_suffix(m.fallback);
        let marker = relay_marker(m.nonce, suffix.as_str());
        let keys = generate_temp_keypair(marker.as_str());
        assert(is_temp_keypair(marker_of(m.nonce, suffix@), keys));
        let replies = self.start_cross_copy(
            chan,
            id,
            src_uid,
            src_path,
            dest_uid,
            dest_path,
            timeout_ms,
            m,
            marker,
            keys,
        );
        proof {
            lemma_uid_pos(old(self).sessions@, src_uid);
            lemma_uid_pos(old(self).sessions@, dest_uid);
            lemma_same_tabs_wf(*old(self), *self);
        }
        replies
    }

    /// Handles one request of an agent.
    #[verifier::rlimit(60)]
    pub fn handle_mcp_call(
        &mut self,
        call: McpCall,
        saved: &Vec<SavedConnection>,
        m: Moment,
    ) -> (replies: Vec<Reply>)
        requires
            old(self).wf(),
            old(self).next_uid < u64::MAX,
            m.now <= CLOCK_LIMIT_MS,
        ensures
            final(self).wf(),
            call_ok(*old(self), *final(self), replies@, call, saved@, m),
            final(self).next_uid <= old(self).next_uid + 1,
    {
        let ghost before = *self;
        let chan: u64 = call.chan;
        let id: u64 = call.req.id;
        if !m.consent {
            return refuse(chan, id, CONSENT_OFF.to_owned());
        }
        let passed = match self.gate_foreign_sessions(call) {
            Ok(passed) => passed,
            Err(replies) => {
                return replies;
            },
        };
        let McpCall { req, chan: _, has_upload, has_sink } = passed;
        let Request { id: _, instance: _, origin, actor, ticket: _, kind } = req;
        let replies = match kind {
            ReqKind::Identify => refuse(chan, id, NOT_FOR_APP.to_owned()),
            ReqKind::IdentifyPair { .. } => refuse(chan, id, NOT_FOR_APP.to_owned()),
            ReqKind::PairHello { .. } => refuse(chan, id, NOT_FOR_APP.to_owned()),
            ReqKind::PairProve { .. } => refuse(chan, id, NOT_FOR_APP.to_owned()),
            ReqKind::Bind => self.bind(chan, id, &origin, m),
            ReqKind::ListSessions => {
                let list = self.own_sessions(&actor);
                grant(chan, id, ReqResult::Sessions(list))
            },
            ReqKind::RunCommand { session_uid, command, timeout_ms } => self.run_command(
                chan,
                id,
                session_uid,
                command.as_str(),
                timeout_ms,
                &actor,
                m,
            ),
            ReqKind::PollRun { session_uid, run_id, timeout_ms } => self.poll_run(
                chan,
                id,
                session_uid,
                run_id,
                timeout_ms,
                &actor,
                m,
            ),
            ReqKind::ReadScreen { session_uid } => match self.session_idx_by_uid(session_uid) {
                Some(_) => grant(chan, id, ReqResult::Screen { session_uid }),
                None => refuse(chan, id, self.session_not_found_msg(session_uid, &actor)),
            },
            ReqKind::ReadHistory { session_uid, max_lines } => match self.session_idx_by_uid(
                session_uid,
            ) {
                Some(_) => grant(chan, id, ReqResult::History { session_uid, max_lines }),
                None => refuse(chan, id, self.session_not_found_msg(session_uid, &actor)),
            },
            ReqKind::Interrupt { session_uid } => self.interrupt(chan, id, session_uid, &actor),
            ReqKind::OpenSession { name } => {
                return self.open_session(chan, id, name.as_str(), actor, origin, saved, m);
            },
            ReqKind::CloseSession { session_uid } => {
                return self.close_for_agent(chan, id, session_uid, &actor);
            },
            ReqKind::ListSavedConnections => {
                let list = list_saved_connections(saved);
                grant(chan, id, ReqResult::SavedConnections(list))
            },
            ReqKind::SendInput { session_uid, text } => self.send_input(
                chan,
                id,
                session_uid,
                text.as_str(),
                &actor,
            ),
            ReqKind::WriteFile { session_uid, path, content, timeout_ms } => self.write_file(
                chan,
                id,
                session_uid,
                path,
                content,
                timeout_ms,
                &actor,
                m,
            ),
            ReqKind::ReadFile { session_uid, path, force, timeout_ms } => self.read_file(
                chan,
                id,
                session_uid,
                path,
                force,
                timeout_ms,
                &actor,
                m,
            ),
            ReqKind::CopyToRemote { session_uid, local_path, remote_path, timeout_ms } =>
                self.copy_to_remote(
                    chan,
                    id,
                    session_uid,
                    local_path,
                    remote_path,
                    timeout_ms,
                    &actor,
                    m,
                ),
            ReqKind::CopyToRemoteFromCaller { session_uid, remote_path, size, timeout_ms } =>
                self.copy_to_remote_from_caller(
                    chan,
                    id,
                    session_uid,
                    remote_path,
                    size,
                    has_upload,
                    timeout_ms,
                    &actor,
                    m,
                ),
            ReqKind::CopyFromRemoteToCaller { session_uid, remote_path, timeout_ms } =>
                self.copy_from_remote_to_caller(
                    chan,
                    id,
                    session_uid,
                    remote_path,
                    has_sink,
                    timeout_ms,
                    &actor,
                    m,
                ),
            ReqKind::CopyBetweenSessions {
                src_session_uid,
                src_remote_path,
                dest_session_uid,
                dest_remote_path,
                timeout_ms,
            } => {
                return self.copy_between(
                    chan,
                    id,
                    src_session_uid,
                    src_remote_path,
                    dest_session_uid,
                    dest_remote_path,
                    timeout_ms,
                    &actor,
                    m,
                );
            },
        };
        assert(call_ok(before, *self, replies@, call, saved@, m));
        proof {
            lemma_same_tabs_wf(before, *self);
        }
        replies
    }
}

/// Nobody reaches a session of somebody else, whatever the settings and whatever the user approved
/// before: a request that names one changes nothing and gets one reply, a refusal that tells nothing
/// of the session but the number that was asked for.
pub proof fn foreign_request_changes_nothing(
    before: App,
    after: App,
    replies: Seq<Reply>,
    call: McpCall,
    saved: Seq<SavedConnection>,
    m: Moment,
    k: int,
)
    requires
        call_ok(before, after, replies, call, saved, m),
        m.consent,
        0 <= k < call.req.kind.targets().len(),
        !may_reach(before.sessions@, call.req.kind.targets()[k], call.req.actor),
    ensures
        after == before,
        ({
            let uids = call.req.kind.targets();
            let named = first_out_of_reach(before.sessions@, uids, call.req.actor);
            &&& named is Some
            &&& uids.contains(named->0)
            &&& !may_reach(before.sessions@, named->0, call.req.actor)
            &&& reply_views(replies) == seq![
                refusal(call.chan, call.req.id, foreign_refusal(named->0)),
            ]
        }),
{
    let uids = call.req.kind.targets();
    gate_passes_only_own_sessions(before.sessions@, uids, call.req.actor);
    assert(!may_reach(before.sessions@, uids[k], call.req.actor));
    let j = lemma_first_out_of_reach(before.sessions@, uids, call.req.actor);
    assert(uids[j] == first_out_of_reach(before.sessions@, uids, call.req.actor)->0);
}

/// A request that names no session of somebody else passes the guard unchanged: what is done and
/// answered is what it asks for.
pub proof fn own_request_passes_the_guard(
    before: App,
    after: App,
    replies: Seq<Reply>,
    call: McpCall,
    saved: Seq<SavedConnection>,
    m: Moment,
)
    requires
        call_ok(before, after, replies, call, saved, m),
        m.consent,
        forall|k: int|
            0 <= k < call.req.kind.targets().len() ==> may_reach(
                before.sessions@,
                #[trigger] call.req.kind.targets()[k],
                call.req.actor,
            ),
    ensures
        request_ok(before, after, replies, call, saved, m),
{
    gate_passes_only_own_sessions(before.sessions@, call.req.kind.targets(), call.req.actor);
}

proof fn lemma_first_out_of_reach(ss: Seq<Session>, uids: Seq<u64>, actor: Option<String>) -> (j:
    int)
    requires
        first_out_of_reach(ss, uids, actor) is Some,
    ensures
        0 <= j < uids.len(),
        uids[j] == first_out_of_reach(ss, uids, actor)->0,
        !may_reach(ss, uids[j], actor),
    decreases uids.len(),
{
    if !may_reach(ss, uids[0], actor) {
        0
    } else {
        let j = lemma_first_out_of_reach(ss, uids.skip(1), actor);
        assert(uids.skip(1)[j] == uids[j + 1]);
        j + 1
    }
}

/// Where the user shut agents out, no request does anything.
pub proof fn shut_out_requests_change_nothing(
    before: App,
    after: App,
    replies: Seq<Reply>,
    call: McpCall,
    saved: Seq<SavedConnection>,
    m: Moment,
)
    requires
        call_ok(before, after, replies, call, saved, m),
        !m.consent,
    ensures
        after == before,
{
}

} // verus!
