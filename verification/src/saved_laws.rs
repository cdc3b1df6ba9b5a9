//! What a saved connection is opened with, and by whom.
use vstd::prelude::*;
use vstd::string::*;

use crate::agent_calls::{call_ok, McpCall, Moment};
use crate::agent_open::{open_consent_ok, opened_for};
use crate::app::App;
use crate::protocol::{reply_views, Reply, ReqKind};
use crate::saved::{
    config_of, open_refusal, AuthMethod, ConnectConfig, SavedConnection, Transport,
};
use crate::session::Session;
use crate::text::{trim_of, views};

verus! {

/// How one logs in with a stored kind and its secrets: a key file with its passphrase where one is
/// stored, the agent, by answering questions, or else the stored password.
pub open spec fn logs_in_with(
    auth: AuthMethod,
    kind: Seq<char>,
    password: Seq<char>,
    key_path: Seq<char>,
    passphrase: Seq<char>,
) -> bool {
    &&& kind == "key"@ <==> auth is KeyFile
    &&& kind == "agent"@ <==> auth is Agent
    &&& kind == "interactive"@ <==> auth is Interactive
    &&& auth is Password ==> auth->Password_0@ == password
    &&& auth is KeyFile ==> {
        &&& auth->KeyFile_path@ == key_path
        &&& auth->KeyFile_passphrase is Some <==> passphrase.len() > 0
        &&& auth->KeyFile_passphrase is Some ==> auth->KeyFile_passphrase->0@ == passphrase
    }
}

/// What is connected to is what was saved: the host, the port and the user, by the stored login,
/// through the jump host exactly where one is to be used, and by that one's own login.
pub open spec fn connects_to(cfg: ConnectConfig, c: SavedConnection) -> bool {
    &&& cfg.host@ == c.host@
    &&& cfg.port == c.port
    &&& cfg.username@ == c.username@
    &&& cfg.label@ == c.name@
    &&& cfg.forward_agent == c.forward_agent
    &&& cfg.transport == Transport::Ssh
    &&& logs_in_with(cfg.auth, c.auth_kind@, c.password@, c.key_path@, c.passphrase@)
    &&& cfg.jump is Some <==> c.use_jump
    &&& cfg.jump is Some ==> {
        &&& cfg.jump->0.host@ == c.jump_host@
        &&& cfg.jump->0.port == c.jump_port
        &&& cfg.jump->0.username@ == c.jump_username@
        &&& logs_in_with(
            cfg.jump->0.auth,
            c.jump_auth_kind@,
            c.jump_password@,
            c.jump_key_path@,
            c.jump_passphrase@,
        )
    }
}

proof fn lemma_kinds()
    ensures
        "key"@ != "agent"@,
        "key"@ != "interactive"@,
        "agent"@ != "interactive"@,
{
    reveal_strlit("key");
    reveal_strlit("agent");
    reveal_strlit("interactive");
    assert("key"@.len() != "agent"@.len());
    assert("key"@.len() != "interactive"@.len());
    assert("agent"@.len() != "interactive"@.len());
}

/// A saved connection that can be opened is opened as it was saved.
pub proof fn a_connection_is_opened_as_it_was_saved(c: SavedConnection, cfg: ConnectConfig)
    requires
        cfg@ == config_of(c),
    ensures
        connects_to(cfg, c),
{
    lemma_kinds();
}

/// A saved connection can be opened exactly where every secret that its login uses could be
/// decrypted and every key login knows its key; the jump host counts only where it is used, and a
/// secret that is not used is no reason.
pub proof fn only_a_missing_secret_keeps_a_connection_shut(c: SavedConnection)
    ensures
        open_refusal(c) is None <==> {
            &&& c.auth_kind@ != "key"@ && c.auth_kind@ != "agent"@ && c.auth_kind@ != "interactive"@
                ==> !c.password_decrypt_failed
            &&& c.auth_kind@ == "key"@ ==> !c.passphrase_decrypt_failed && trim_of(
                c.key_path@,
            ).len() > 0
            &&& c.use_jump ==> {
                &&& c.jump_auth_kind@ != "key"@ && c.jump_auth_kind@ != "agent"@ && c.jump_auth_kind@
                    != "interactive"@ ==> !c.jump_password_decrypt_failed
                &&& c.jump_auth_kind@ == "key"@ ==> !c.jump_passphrase_decrypt_failed && trim_of(
                    c.jump_key_path@,
                ).len() > 0
            }
        },
{
    lemma_kinds();
}

/// A tab that was opened for an agent: it stands last, connects to what was saved, belongs to the
/// one who asked, and has a number that was never given out; every other tab stays, and so does the
/// one that is shown.
pub open spec fn opened_as_saved(
    before: App,
    after: App,
    c: SavedConnection,
    owner: Option<String>,
    label: Option<String>,
) -> bool {
    let s = after.sessions@.last();
    &&& after.sessions@.len() == before.sessions@.len() + 1
    &&& forall|j: int|
        0 <= j < before.sessions@.len() ==> #[trigger] after.sessions@[j] == before.sessions@[j]
    &&& connects_to(s.cfg, c)
    &&& s.ai_owned && s.ai_owner == owner && s.ai_owner_label == label
    &&& s.uid == before.next_uid + 1
    &&& !s.connected
    &&& after.next_uid == s.uid
    &&& after.active == before.active
}

proof fn lemma_opened(
    before: App,
    after: App,
    c: SavedConnection,
    owner: Option<String>,
    label: Option<String>,
)
    requires
        opened_for(before, after, c, owner, label),
        before.next_uid < u64::MAX,
    ensures
        opened_as_saved(before, after, c, owner, label),
{
    a_connection_is_opened_as_it_was_saved(c, after.sessions@.last().cfg);
    assert forall|j: int| 0 <= j < before.sessions@.len() implies #[trigger] after.sessions@[j]
        == before.sessions@[j] by {
        assert(after.sessions@.drop_last()[j] == after.sessions@[j]);
    }
}

/// The first saved connection with this name.
pub open spec fn is_named(saved: Seq<SavedConnection>, name: Seq<char>, k: int) -> bool {
    &&& 0 <= k < saved.len()
    &&& saved[k].name@ == name
    &&& forall|j: int| 0 <= j < k ==> (#[trigger] saved[j]).name@ != name
}

proof fn lemma_named(saved: Seq<SavedConnection>, name: Seq<char>, k: int)
    requires
        is_named(saved, name, k),
    ensures
        crate::agent_open::saved_pos(saved, name) == Some(k),
    decreases saved.len(),
{
    if k < saved.len() - 1 {
        assert(saved.drop_last()[k] == saved[k]);
        assert forall|j: int| 0 <= j < k implies (#[trigger] saved.drop_last()[j]).name@ != name by {
            assert(saved[j].name@ != name);
        }
        lemma_named(saved.drop_last(), name, k);
    } else {
        lemma_unnamed(saved.drop_last(), name);
    }
}

proof fn lemma_unnamed(saved: Seq<SavedConnection>, name: Seq<char>)
    requires
        forall|j: int| 0 <= j < saved.len() ==> (#[trigger] saved[j]).name@ != name,
    ensures
        crate::agent_open::saved_pos(saved, name) is None,
    decreases saved.len(),
{
    if saved.len() > 0 {
        assert forall|j: int| 0 <= j < saved.len() - 1 implies (#[trigger] saved.drop_last()[j]).name@
            != name by {
            assert(saved[j].name@ != name);
        }
        lemma_unnamed(saved.drop_last(), name);
        assert(saved[saved.len() - 1].name@ != name);
    }
}

/// An agent that asks for a saved connection gets that one opened where the user let agents open it
/// before, or need not be asked; else no tab is opened, and the user is asked about that connection
/// for the one who asked.
pub proof fn the_connection_that_was_named_is_opened(
    before: App,
    after: App,
    replies: Seq<Reply>,
    call: McpCall,
    saved: Seq<SavedConnection>,
    m: Moment,
    name: String,
    k: int,
)
    requires
        call_ok(before, after, replies, call, saved, m),
        m.consent,
        call.req.kind == (ReqKind::OpenSession { name }),
        is_named(saved, name@, k),
        open_refusal(saved[k]) is None,
        before.next_uid < u64::MAX,
    ensures
        m.auto_approve || views(before.mcp_open_approved@).contains(name@) ==> {
            &&& opened_as_saved(before, after, saved[k], call.req.actor, call.req.origin)
            &&& replies.len() == 1
            &&& replies[0].chan == call.chan && replies[0].id == call.req.id
            &&& replies[0].result is Ok && replies[0].result->Ok_0 is Opened
            &&& replies[0].result->Ok_0->Opened_0.uid == before.next_uid + 1
            &&& replies[0].result->Ok_0->Opened_0.host@ == saved[k].host@
        },
        !m.auto_approve && !views(before.mcp_open_approved@).contains(name@) ==> {
            &&& after.sessions == before.sessions && after.next_uid == before.next_uid
            &&& after.mcp_open_approved == before.mcp_open_approved
            &&& before.pending_open_consent is None ==> {
                &&& replies.len() == 0
                &&& after.pending_open_consent is Some
                &&& after.pending_open_consent->0.conn == saved[k]
                &&& after.pending_open_consent->0.req_id == call.req.id
                &&& after.pending_open_consent->0.actor == call.req.actor
                &&& after.pending_open_consent->0.waiter is Some
                &&& after.pending_open_consent->0.waiter->0.chan == call.chan
            }
        },
{
    lemma_named(saved, name@, k);
    assert(call.req.kind.targets() =~= seq![]);
    assert(reply_views(replies).len() == replies.len());
    if m.auto_approve || views(before.mcp_open_approved@).contains(name@) {
        let mid = App { mcp_open_approved: after.mcp_open_approved, ..before };
        lemma_opened(mid, after, saved[k], call.req.actor, call.req.origin);
        assert(reply_views(replies)[0] == replies[0]@);
    }
}

/// The user's word is kept: a connection is opened for the one who asked where they agree, and no
/// tab is opened where they do not. Either way the question is gone and the one who asked is told.
pub proof fn the_users_word_about_a_connection_is_kept(
    before: App,
    after: App,
    replies: Seq<Reply>,
    allow: bool,
)
    requires
        open_consent_ok(before, after, replies, allow),
        before.pending_open_consent is Some,
        before.pending_open_consent->0.waiter is Some,
        open_refusal(before.pending_open_consent->0.conn) is None,
        before.next_uid < u64::MAX,
    ensures
        after.pending_open_consent is None,
        replies.len() == 1,
        replies[0].chan == before.pending_open_consent->0.waiter->0.chan,
        replies[0].id == before.pending_open_consent->0.req_id,
        replies[0].result is Ok <==> allow,
        allow ==> opened_as_saved(
            before,
            after,
            before.pending_open_consent->0.conn,
            before.pending_open_consent->0.actor,
            before.pending_open_consent->0.origin,
        ),
        !allow ==> after.sessions == before.sessions && after.mcp_open_approved
            == before.mcp_open_approved,
{
    let p = before.pending_open_consent->0;
    assert(reply_views(replies).len() == replies.len());
    assert(reply_views(replies)[0] == replies[0]@);
    if allow {
        let asked = App { pending_open_consent: None, ..before };
        let mid = App { mcp_open_approved: after.mcp_open_approved, ..asked };
        lemma_opened(mid, after, p.conn, p.actor, p.origin);
    }
}

} // verus!
