//! Saved connections: what they hold, how they authenticate, and when one can be opened without
//! asking the user for a secret.
use vstd::prelude::*;
use vstd::string::*;

use crate::text::{join, join_of, opt_view, same, trim, trim_of, views};

verus! {

/// How to authenticate to a host.
pub enum AuthMethod {
    Password(String),
    KeyFile { path: String, passphrase: Option<String> },
    Agent,
    Interactive,
}

/// An [`AuthMethod`] with its strings as characters.
pub enum AuthView {
    Password(Seq<char>),
    KeyFile { path: Seq<char>, passphrase: Option<Seq<char>> },
    Agent,
    Interactive,
}

impl View for AuthMethod {
    type V = AuthView;

    open spec fn view(&self) -> AuthView {
        match *self {
            AuthMethod::Password(p) => AuthView::Password(p@),
            AuthMethod::KeyFile { path, passphrase } => AuthView::KeyFile {
                path: path@,
                passphrase: opt_view(passphrase),
            },
            AuthMethod::Agent => AuthView::Agent,
            AuthMethod::Interactive => AuthView::Interactive,
        }
    }
}

/// A host that a connection goes through.
pub struct JumpHost {
    pub host: String,
    pub port: u16,
    pub username: String,
    pub auth: AuthMethod,
}

/// A [`JumpHost`] with its strings as characters.
pub struct JumpView {
    pub host: Seq<char>,
    pub port: u16,
    pub username: Seq<char>,
    pub auth: AuthView,
}

impl View for JumpHost {
    type V = JumpView;

    open spec fn view(&self) -> JumpView {
        JumpView {
            host: self.host@,
            port: self.port,
            username: self.username@,
            auth: self.auth@,
        }
    }
}

/// What carries a session.
#[derive(Clone, Copy, PartialEq, Eq, Structural)]
pub enum Transport {
    Ssh,
    /// A terminal on this machine, without any host.
    Local,
}

/// Everything a worker needs to connect.
pub struct ConnectConfig {
    pub host: String,
    pub port: u16,
    pub username: String,
    pub auth: AuthMethod,
    pub label: String,
    pub jump: Option<JumpHost>,
    pub forward_agent: bool,
    pub transport: Transport,
}

/// A [`ConnectConfig`] with its strings as characters.
pub struct ConnectView {
    pub host: Seq<char>,
    pub port: u16,
    pub username: Seq<char>,
    pub auth: AuthView,
    pub label: Seq<char>,
    pub jump: Option<JumpView>,
    pub forward_agent: bool,
    pub transport: Transport,
}

impl View for ConnectConfig {
    type V = ConnectView;

    open spec fn view(&self) -> ConnectView {
        ConnectView {
            host: self.host@,
            port: self.port,
            username: self.username@,
            auth: self.auth@,
            label: self.label@,
            jump: match self.jump {
                Some(j) => Some(j@),
                None => None,
            },
            forward_agent: self.forward_agent,
            transport: self.transport,
        }
    }
}

impl ConnectConfig {
    /// Whether the session runs on this machine.
    pub fn is_local(&self) -> (r: bool)
        ensures
            r == (self.transport == Transport::Local),
    {
        matches!(self.transport, Transport::Local)
    }
}

/// A connection as the user saved it. A secret that could not be decrypted when it was loaded is
/// empty and marked.
pub struct SavedConnection {
    pub name: String,
    pub host: String,
    pub port: u16,
    pub username: String,
    pub auth_kind: String,
    pub password: String,
    pub key_path: String,
    pub passphrase: String,
    pub password_decrypt_failed: bool,
    pub passphrase_decrypt_failed: bool,
    pub use_jump: bool,
    pub jump_host: String,
    pub jump_port: u16,
    pub jump_username: String,
    pub jump_auth_kind: String,
    pub jump_password: String,
    pub jump_key_path: String,
    pub jump_passphrase: String,
    pub jump_password_decrypt_failed: bool,
    pub jump_passphrase_decrypt_failed: bool,
    pub forward_agent: bool,
}

impl Default for SavedConnection {
    fn default() -> (r: SavedConnection)
        ensures
            r.name@.len() == 0 && r.host@.len() == 0 && r.username@.len() == 0,
            r.auth_kind@.len() == 0 && r.password@.len() == 0,
            r.key_path@.len() == 0 && r.passphrase@.len() == 0,
            r.jump_host@.len() == 0 && r.jump_username@.len() == 0,
            r.jump_auth_kind@.len() == 0 && r.jump_password@.len() == 0,
            r.jump_key_path@.len() == 0 && r.jump_passphrase@.len() == 0,
            r.port == 0 && r.jump_port == 0,
            !r.use_jump && !r.forward_agent,
            !r.password_decrypt_failed && !r.passphrase_decrypt_failed,
            !r.jump_password_decrypt_failed && !r.jump_passphrase_decrypt_failed,
    {
        SavedConnection {
            name: String::new(),
            host: String::new(),
            port: 0,
            username: String::new(),
            auth_kind: String::new(),
            password: String::new(),
            key_path: String::new(),
            passphrase: String::new(),
            password_decrypt_failed: false,
            passphrase_decrypt_failed: false,
            use_jump: false,
            jump_host: String::new(),
            jump_port: 0,
            jump_username: String::new(),
            jump_auth_kind: String::new(),
            jump_password: String::new(),
            jump_key_path: String::new(),
            jump_passphrase: String::new(),
            jump_password_decrypt_failed: false,
            jump_passphrase_decrypt_failed: false,
            forward_agent: false,
        }
    }
}

/// A secret that a connection needs and that could not be decrypted.
#[derive(Clone, Copy, PartialEq, Eq, Structural)]
pub enum BlockedSecret {
    Password,
    Passphrase,
    JumpPassword,
    JumpPassphrase,
}

/// Whether an authentication kind uses the stored password: every kind but the three others.
pub open spec fn uses_password(kind: Seq<char>) -> bool {
    kind != "key"@ && kind != "agent"@ && kind != "interactive"@
}

/// The secrets that keep a connection from being opened directly: those that its authentication
/// uses, the jump host's only where there is one, and that could not be decrypted.
pub open spec fn blocked_of(c: SavedConnection) -> Seq<BlockedSecret> {
    (if uses_password(c.auth_kind@) && c.password_decrypt_failed {
        seq![BlockedSecret::Password]
    } else if c.auth_kind@ == "key"@ && c.passphrase_decrypt_failed {
        seq![BlockedSecret::Passphrase]
    } else {
        seq![]
    }) + (if !c.use_jump {
        seq![]
    } else if uses_password(c.jump_auth_kind@) && c.jump_password_decrypt_failed {
        seq![BlockedSecret::JumpPassword]
    } else if c.jump_auth_kind@ == "key"@ && c.jump_passphrase_decrypt_failed {
        seq![BlockedSecret::JumpPassphrase]
    } else {
        seq![]
    })
}

fn password_kind(kind: &str) -> (r: bool)
    ensures
        r == uses_password(kind@),
{
    !same(kind, "key") && !same(kind, "agent") && !same(kind, "interactive")
}

impl SavedConnection {
    /// A copy.
    pub fn copy(&self) -> (r: SavedConnection)
        ensures
            r == *self,
    {
        SavedConnection {
            name: self.name.clone(),
            host: self.host.clone(),
            port: self.port,
            username: self.username.clone(),
            auth_kind: self.auth_kind.clone(),
            password: self.password.clone(),
            key_path: self.key_path.clone(),
            passphrase: self.passphrase.clone(),
            password_decrypt_failed: self.password_decrypt_failed,
            passphrase_decrypt_failed: self.passphrase_decrypt_failed,
            use_jump: self.use_jump,
            jump_host: self.jump_host.clone(),
            jump_port: self.jump_port,
            jump_username: self.jump_username.clone(),
            jump_auth_kind: self.jump_auth_kind.clone(),
            jump_password: self.jump_password.clone(),
            jump_key_path: self.jump_key_path.clone(),
            jump_passphrase: self.jump_passphrase.clone(),
            jump_password_decrypt_failed: self.jump_password_decrypt_failed,
            jump_passphrase_decrypt_failed: self.jump_passphrase_decrypt_failed,
            forward_agent: self.forward_agent,
        }
    }

    /// Lists the secrets that keep the connection from being opened directly.
    pub fn blocked_secrets(&self) -> (r: Vec<BlockedSecret>)
        ensures
            r@ == blocked_of(*self),
    {
        let mut out: Vec<BlockedSecret> = Vec::new();
        if password_kind(self.auth_kind.as_str()) && self.password_decrypt_failed {
            out.push(BlockedSecret::Password);
        } else if same(self.auth_kind.as_str(), "key") && self.passphrase_decrypt_failed {
            out.push(BlockedSecret::Passphrase);
        }
        if self.use_jump {
            if password_kind(self.jump_auth_kind.as_str()) && self.jump_password_decrypt_failed {
                out.push(BlockedSecret::JumpPassword);
            } else if same(self.jump_auth_kind.as_str(), "key")
                && self.jump_passphrase_decrypt_failed {
                out.push(BlockedSecret::JumpPassphrase);
            }
        }
        assert(out@ =~= blocked_of(*self));
        out
    }
}

/// What a blocked secret is called.
pub open spec fn secret_name(s: BlockedSecret) -> Seq<char> {
    match s {
        BlockedSecret::Password => "登录密码"@,
        BlockedSecret::Passphrase => "私钥口令"@,
        BlockedSecret::JumpPassword => "跳板密码"@,
        BlockedSecret::JumpPassphrase => "跳板私钥口令"@,
    }
}

/// The names of blocked secrets.
pub open spec fn secret_names(s: Seq<BlockedSecret>) -> Seq<Seq<char>> {
    Seq::new(s.len(), |i: int| secret_name(s[i]))
}

pub const BLOCKED_TAIL: &'static str = "解不开（主密钥与密文不匹配），不能直接连接。请让用户在 iShell 的连接编辑里重新填写，保存后再试 open_session。不要猜测或编造密码。";

/// Why a connection cannot be opened directly, `None` where nothing is blocked.
pub open spec fn direct_refusal(c: SavedConnection) -> Option<Seq<char>> {
    if blocked_of(c).len() == 0 {
        None
    } else {
        Some(
            "连接「"@ + c.name@ + "」的"@ + join_of(secret_names(blocked_of(c)), "、"@)
                + BLOCKED_TAIL@,
        )
    }
}

/// Says why a connection cannot be opened directly: it names every secret that the user has to
/// enter again.
pub fn direct_connect_refusal(c: &SavedConnection) -> (r: Option<String>)
    ensures
        opt_view(r) == direct_refusal(*c),
{
    let blocked = c.blocked_secrets();
    if blocked.len() == 0 {
        return None;
    }
    let mut names: Vec<String> = Vec::new();
    let mut i: usize = 0;
    while i < blocked.len()
        invariant
            i <= blocked@.len(),
            views(names@) =~= secret_names(blocked@).take(i as int),
        decreases blocked@.len() - i,
    {
        let name = match blocked[i] {
            BlockedSecret::Password => "登录密码",
            BlockedSecret::Passphrase => "私钥口令",
            BlockedSecret::JumpPassword => "跳板密码",
            BlockedSecret::JumpPassphrase => "跳板私钥口令",
        };
        let ghost before = names@;
        names.push(name.to_owned());
        assert(views(names@) =~= views(before).push(name@));
        i = i + 1;
    }
    assert(views(names@) =~= secret_names(blocked@));
    let mut msg = "连接「".to_owned();
    msg.append(c.name.as_str());
    msg.append("」的");
    let list = join(&names, "、");
    msg.append(list.as_str());
    msg.append(BLOCKED_TAIL);
    Some(msg)
}

/// The authentication that a kind and the stored secrets stand for. An empty passphrase is none.
pub open spec fn auth_of(
    kind: Seq<char>,
    password: Seq<char>,
    key_path: Seq<char>,
    passphrase: Seq<char>,
) -> AuthView {
    if kind == "key"@ {
        AuthView::KeyFile {
            path: key_path,
            passphrase: if passphrase.len() == 0 {
                None
            } else {
                Some(passphrase)
            },
        }
    } else if kind == "agent"@ {
        AuthView::Agent
    } else if kind == "interactive"@ {
        AuthView::Interactive
    } else {
        AuthView::Password(password)
    }
}

/// Builds the authentication of a saved connection.
pub fn auth_method(kind: &str, password: &str, key_path: &str, passphrase: &str) -> (r: AuthMethod)
    ensures
        r@ == auth_of(kind@, password@, key_path@, passphrase@),
{
    if same(kind, "key") {
        AuthMethod::KeyFile {
            path: key_path.to_owned(),
            passphrase: if passphrase.is_empty() {
                None
            } else {
                Some(passphrase.to_owned())
            },
        }
    } else if same(kind, "agent") {
        AuthMethod::Agent
    } else if same(kind, "interactive") {
        AuthMethod::Interactive
    } else {
        AuthMethod::Password(password.to_owned())
    }
}

pub const NO_KEY_PATH: &'static str = "这条连接用私钥登录，但没有私钥路径。请让用户在 iShell 的连接编辑里补上后再试 open_session。";

pub const NO_JUMP_KEY_PATH: &'static str = "这条连接的跳板用私钥登录，但没有跳板私钥路径。请让用户在 iShell 的连接编辑里补上后再试 open_session。";

/// Why a saved connection cannot be opened, `None` where it can: a secret is blocked, or a key
/// login lacks the path of its key. An empty password is no reason.
pub open spec fn open_refusal(c: SavedConnection) -> Option<Seq<char>> {
    if direct_refusal(c) is Some {
        direct_refusal(c)
    } else if c.auth_kind@ == "key"@ && trim_of(c.key_path@).len() == 0 {
        Some(NO_KEY_PATH@)
    } else if c.use_jump && c.jump_auth_kind@ == "key"@ && trim_of(c.jump_key_path@).len() == 0 {
        Some(NO_JUMP_KEY_PATH@)
    } else {
        None
    }
}

/// The configuration that a saved connection stands for.
pub open spec fn config_of(c: SavedConnection) -> ConnectView {
    ConnectView {
        host: c.host@,
        port: c.port,
        username: c.username@,
        auth: auth_of(c.auth_kind@, c.password@, c.key_path@, c.passphrase@),
        label: c.name@,
        jump: if c.use_jump {
            Some(
                JumpView {
                    host: c.jump_host@,
                    port: c.jump_port,
                    username: c.jump_username@,
                    auth: auth_of(
                        c.jump_auth_kind@,
                        c.jump_password@,
                        c.jump_key_path@,
                        c.jump_passphrase@,
                    ),
                },
            )
        } else {
            None
        },
        forward_agent: c.forward_agent,
        transport: Transport::Ssh,
    }
}

/// Turns a saved connection into the configuration to connect with.
pub fn connect_config_from_saved(c: &SavedConnection) -> (r: Result<ConnectConfig, String>)
    ensures
        match r {
            Ok(cfg) => open_refusal(*c) is None && cfg@ == config_of(*c),
            Err(msg) => open_refusal(*c) == Some(msg@),
        },
{
    match direct_connect_refusal(c) {
        Some(msg) => {
            return Err(msg);
        },
        None => {},
    }
    if same(c.auth_kind.as_str(), "key") && trim(c.key_path.as_str()).is_empty() {
        return Err(NO_KEY_PATH.to_owned());
    }
    if c.use_jump && same(c.jump_auth_kind.as_str(), "key") && trim(
        c.jump_key_path.as_str(),
    ).is_empty() {
        return Err(NO_JUMP_KEY_PATH.to_owned());
    }
    let jump = if c.use_jump {
        Some(
            JumpHost {
                host: c.jump_host.clone(),
                port: c.jump_port,
                username: c.jump_username.clone(),
                auth: auth_method(
                    c.jump_auth_kind.as_str(),
                    c.jump_password.as_str(),
                    c.jump_key_path.as_str(),
                    c.jump_passphrase.as_str(),
                ),
            },
        )
    } else {
        None
    };
    Ok(
        ConnectConfig {
            host: c.host.clone(),
            port: c.port,
            username: c.username.clone(),
            auth: auth_method(
                c.auth_kind.as_str(),
                c.password.as_str(),
                c.key_path.as_str(),
                c.passphrase.as_str(),
            ),
            label: c.name.clone(),
            jump,
            forward_agent: c.forward_agent,
            transport: Transport::Ssh,
        },
    )
}

} // verus!
