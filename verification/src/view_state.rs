//! What is shown of the main window, and the menu that changes it.
use vstd::prelude::*;
use vstd::string::*;

use crate::proto::{tr, tr_of, Lang};

verus! {

/// What makes a shell report its working directory with every prompt, for this session alone.
pub const OSC7_SNIPPET: &'static str = r#" __ishell_cwd(){ printf '\033]7;file://localhost%s\007' "$PWD"; }; if [ -n "$ZSH_VERSION" ]; then autoload -Uz add-zsh-hook 2>/dev/null && add-zsh-hook precmd __ishell_cwd 2>/dev/null; else case "$PROMPT_COMMAND" in *__ishell_cwd*) ;; *) PROMPT_COMMAND="__ishell_cwd${PROMPT_COMMAND:+;$PROMPT_COMMAND}";; esac; fi; __ishell_cwd"#;

/// What makes a shell also report when a command starts, when it ends, and its exit code.
pub const AI_SESSION_SNIPPET: &'static str = r#" __ishell_cwd(){ printf '\033]7;file://localhost%s\007' "$PWD"; }; __ishell_end(){ __ishell_e=$?; printf '\033]133;D;%d\007' "$__ishell_e"; return $__ishell_e; }; if [ -n "$ZSH_VERSION" ]; then autoload -Uz add-zsh-hook 2>/dev/null; __ishell_pre(){ printf '\033]133;C\007'; }; __ishell_post(){ __ishell_end; __ishell_cwd; }; add-zsh-hook preexec __ishell_pre 2>/dev/null; add-zsh-hook precmd __ishell_post 2>/dev/null; else PS0=$'\033]133;C\007'; case "$PROMPT_COMMAND" in *__ishell_end*) ;; *) PROMPT_COMMAND="__ishell_end; __ishell_cwd${PROMPT_COMMAND:+;$PROMPT_COMMAND}";; esac; fi; __ishell_cwd"#;

/// What is shown, and what the user agreed to.
pub struct ViewState {
    /// Whether the shell may be made to report its working directory.
    pub osc7: bool,
    pub about: bool,
    pub sidebar_hidden: bool,
    pub files_hidden: bool,
}

/// Everything is shown; what the user agreed to is as it was stored.
pub fn init_view_state(osc7_stored: bool) -> (r: ViewState)
    ensures
        r == (ViewState {
            osc7: osc7_stored,
            about: false,
            sidebar_hidden: false,
            files_hidden: false,
        }),
{
    ViewState { osc7: osc7_stored, about: false, sidebar_hidden: false, files_hidden: false }
}

impl ViewState {
    /// Whether the shell may be made to report its working directory.
    pub fn osc7_consent(&self) -> (r: bool)
        ensures
            r == self.osc7,
    {
        self.osc7
    }

    /// Sets whether the shell may be made to report its working directory; gives what to store.
    pub fn set_osc7_consent(&mut self, v: bool) -> (store: bool)
        ensures
            store == v,
            *final(self) == (ViewState { osc7: v, ..*old(self) }),
    {
        self.osc7 = v;
        v
    }

    /// Whether the window about the program is open.
    pub fn about_open(&self) -> (r: bool)
        ensures
            r == self.about,
    {
        self.about
    }

    /// Opens or closes the window about the program.
    pub fn set_about_open(&mut self, v: bool)
        ensures
            *final(self) == (ViewState { about: v, ..*old(self) }),
    {
        self.about = v;
    }

    /// Whether the monitor is hidden.
    pub fn sidebar_collapsed(&self) -> (r: bool)
        ensures
            r == self.sidebar_hidden,
    {
        self.sidebar_hidden
    }

    /// Hides or shows the monitor.
    pub fn set_sidebar_collapsed(&mut self, v: bool)
        ensures
            *final(self) == (ViewState { sidebar_hidden: v, ..*old(self) }),
    {
        self.sidebar_hidden = v;
    }

    /// Whether the files are hidden.
    pub fn files_collapsed(&self) -> (r: bool)
        ensures
            r == self.files_hidden,
    {
        self.files_hidden
    }

    /// Hides or shows the files.
    pub fn set_files_collapsed(&mut self, v: bool)
        ensures
            *final(self) == (ViewState { files_hidden: v, ..*old(self) }),
    {
        self.files_hidden = v;
    }
}

/// When an agent's call for attention is shown.
#[derive(Clone, Copy, PartialEq, Eq, Structural)]
pub enum AiNotifyMode {
    /// When it waits for the user.
    NeedsInput,
    /// Also when it is done.
    All,
    Off,
}

/// What a mode is called.
pub open spec fn notify_name(m: AiNotifyMode, lang: Lang) -> Seq<char> {
    match m {
        AiNotifyMode::NeedsInput => tr_of(lang, "仅需要我处理时"@, "Only when it needs me"@),
        AiNotifyMode::All => tr_of(lang, "含任务完成"@, "Incl. task done"@),
        AiNotifyMode::Off => tr_of(lang, "关闭"@, "Off"@),
    }
}

/// What a mode is called.
pub fn notify_label(m: AiNotifyMode, lang: Lang) -> (r: &'static str)
    ensures
        r@ == notify_name(m, lang),
{
    match m {
        AiNotifyMode::NeedsInput => tr(lang, "仅需要我处理时", "Only when it needs me"),
        AiNotifyMode::All => tr(lang, "含任务完成", "Incl. task done"),
        AiNotifyMode::Off => tr(lang, "关闭", "Off"),
    }
}

/// What the menu shows and changes besides the view.
#[derive(Clone, Copy)]
pub struct MenuSettings {
    pub notify: AiNotifyMode,
    /// Whether agents may control the program.
    pub mcp_on: bool,
    /// Whether what an agent does needs no confirmation.
    pub auto_approve: bool,
    pub force_x11: bool,
    pub ime_follow: bool,
}

/// A click in the menu.
#[derive(Clone, Copy, PartialEq, Eq, Structural)]
pub enum MenuClick {
    Sidebar,
    Files,
    Notify(AiNotifyMode),
    Mcp,
    AutoApprove,
    CopyToken,
    ForceX11,
    ImeFollow,
    About,
}

/// What has to be done outside after a click.
pub enum MenuEffect {
    Nothing,
    StoreNotify(AiNotifyMode),
    StoreMcp(bool),
    StoreAutoApprove(bool),
    StoreForceX11(bool),
    StoreImeFollow(bool),
    Copy(String),
}

/// Whether the menu has an entry: what only matters to agents is shown only where they are let in,
/// and what only matters to X11 only on Linux.
pub open spec fn menu_has(click: MenuClick, s: MenuSettings, linux: bool) -> bool {
    match click {
        MenuClick::AutoApprove => s.mcp_on,
        MenuClick::CopyToken => s.mcp_on,
        MenuClick::ForceX11 => linux,
        MenuClick::ImeFollow => linux,
        _ => true,
    }
}

/// Whether the menu has an entry.
pub fn menu_shows(click: MenuClick, s: &MenuSettings, linux: bool) -> (r: bool)
    ensures
        r == menu_has(click, *s, linux),
{
    match click {
        MenuClick::AutoApprove => s.mcp_on,
        MenuClick::CopyToken => s.mcp_on,
        MenuClick::ForceX11 => linux,
        MenuClick::ImeFollow => linux,
        _ => true,
    }
}

/// The line that pairs an agent with this program.
pub open spec fn pairing_line(token: Seq<char>) -> Seq<char> {
    "ISHELL_MCP_TOKEN="@ + token
}

/// The view after a click.
pub open spec fn view_clicked(v: ViewState, click: MenuClick) -> ViewState {
    match click {
        MenuClick::Sidebar => ViewState { sidebar_hidden: !v.sidebar_hidden, ..v },
        MenuClick::Files => ViewState { files_hidden: !v.files_hidden, ..v },
        MenuClick::About => ViewState { about: true, ..v },
        _ => v,
    }
}

/// The settings after a click.
pub open spec fn settings_clicked(s: MenuSettings, click: MenuClick) -> MenuSettings {
    match click {
        MenuClick::Notify(m) => MenuSettings { notify: m, ..s },
        MenuClick::Mcp => MenuSettings { mcp_on: !s.mcp_on, ..s },
        MenuClick::AutoApprove => MenuSettings { auto_approve: !s.auto_approve, ..s },
        MenuClick::ForceX11 => MenuSettings { force_x11: !s.force_x11, ..s },
        MenuClick::ImeFollow => MenuSettings { ime_follow: !s.ime_follow, ..s },
        _ => s,
    }
}

/// What has to be done outside after a click.
pub open spec fn effect_ok(
    effect: MenuEffect,
    s: MenuSettings,
    click: MenuClick,
    token: Seq<char>,
) -> bool {
    match click {
        MenuClick::Notify(m) => effect == MenuEffect::StoreNotify(m),
        MenuClick::Mcp => effect == MenuEffect::StoreMcp(!s.mcp_on),
        MenuClick::AutoApprove => effect == MenuEffect::StoreAutoApprove(!s.auto_approve),
        MenuClick::ForceX11 => effect == MenuEffect::StoreForceX11(!s.force_x11),
        MenuClick::ImeFollow => effect == MenuEffect::StoreImeFollow(!s.ime_follow),
        MenuClick::CopyToken => effect matches MenuEffect::Copy(t) && t@ == pairing_line(token),
        _ => effect is Nothing,
    }
}

/// What the entry that hides or shows the monitor says.
pub fn sidebar_label(hidden: bool, lang: Lang) -> (r: &'static str)
    ensures
        r@ == (if hidden {
            tr_of(lang, "显示系统监控栏"@, "Show monitor sidebar"@)
        } else {
            tr_of(lang, "隐藏系统监控栏"@, "Hide monitor sidebar"@)
        }),
{
    if hidden {
        tr(lang, "显示系统监控栏", "Show monitor sidebar")
    } else {
        tr(lang, "隐藏系统监控栏", "Hide monitor sidebar")
    }
}

/// What the entry that hides or shows the files says.
pub fn files_label(hidden: bool, lang: Lang) -> (r: &'static str)
    ensures
        r@ == (if hidden {
            tr_of(lang, "显示文件栏"@, "Show file panel"@)
        } else {
            tr_of(lang, "隐藏文件栏"@, "Hide file panel"@)
        }),
{
    if hidden {
        tr(lang, "显示文件栏", "Show file panel")
    } else {
        tr(lang, "隐藏文件栏", "Hide file panel")
    }
}

/// Takes in a click in the menu.
pub fn view_context_menu(
    view: &mut ViewState,
    settings: &mut MenuSettings,
    click: MenuClick,
    token: &str,
) -> (effect: MenuEffect)
    ensures
        *final(view) == view_clicked(*old(view), click),
        *final(settings) == settings_clicked(*old(settings), click),
        effect_ok(effect, *old(settings), click, token@),
{
    match click {
        MenuClick::Sidebar => {
            let hidden: bool = view.sidebar_collapsed();
            view.set_sidebar_collapsed(!hidden);
            MenuEffect::Nothing
        },
        MenuClick::Files => {
            let hidden: bool = view.files_collapsed();
            view.set_files_collapsed(!hidden);
            MenuEffect::Nothing
        },
        MenuClick::About => {
            view.set_about_open(true);
            MenuEffect::Nothing
        },
        MenuClick::Notify(m) => {
            settings.notify = m;
            MenuEffect::StoreNotify(m)
        },
        MenuClick::Mcp => {
            settings.mcp_on = !settings.mcp_on;
            MenuEffect::StoreMcp(settings.mcp_on)
        },
        MenuClick::AutoApprove => {
            settings.auto_approve = !settings.auto_approve;
            MenuEffect::StoreAutoApprove(settings.auto_approve)
        },
        MenuClick::ForceX11 => {
            settings.force_x11 = !settings.force_x11;
            MenuEffect::StoreForceX11(settings.force_x11)
        },
        MenuClick::ImeFollow => {
            settings.ime_follow = !settings.ime_follow;
            MenuEffect::StoreImeFollow(settings.ime_follow)
        },
        MenuClick::CopyToken => {
            let mut line = "ISHELL_MCP_TOKEN=".to_owned();
            line.append(token);
            MenuEffect::Copy(line)
        },
    }
}

/// The title of the window about the program.
pub fn about_title(version: &str, lang: Lang) -> (r: String)
    ensures
        r@ == tr_of(lang, "关于 iShell  ·  v"@, "About iShell  ·  v"@) + version@,
{
    let mut s = tr(lang, "关于 iShell  ·  v", "About iShell  ·  v").to_owned();
    s.append(version);
    s
}

/// One frame of the window about the program: its two ways to close it.
pub fn about_window(view: &mut ViewState, closed: bool, crossed: bool)
    ensures
        *final(view) == (ViewState {
            about: old(view).about && !closed && !crossed,
            ..*old(view)
        }),
{
    if view.about_open() && (closed || crossed) {
        view.set_about_open(false);
    }
}

/// One colour channel of a border: a third of the window's, two thirds of the terminal's.
pub open spec fn mixed(x: u8, y: u8) -> u8 {
    ((x + 2 * y) / 3) as u8
}

fn mix(x: u8, y: u8) -> (r: u8)
    ensures
        r == mixed(x, y),
{
    ((x as u16 + 2 * (y as u16)) / 3) as u8
}

/// The border between the window's colour and the terminal's, as red, green, blue.
pub fn blend_color(a: (u8, u8, u8), b: (u8, u8, u8)) -> (r: (u8, u8, u8))
    ensures
        r == (mixed(a.0, b.0), mixed(a.1, b.1), mixed(a.2, b.2)),
{
    (mix(a.0, b.0), mix(a.1, b.1), mix(a.2, b.2))
}

/// Each channel of the border lies between those of its two colours.
pub proof fn border_lies_between(x: u8, y: u8)
    ensures
        x <= y ==> x <= mixed(x, y) <= y,
        y <= x ==> y <= mixed(x, y) <= x,
{
}

/// How a notice over everything looks after so many milliseconds.
#[derive(Clone, Copy, PartialEq, Eq, Structural)]
pub enum ToastLook {
    Solid,
    /// So many milliseconds are left of the time in which it fades.
    Fading { left: u64 },
    Gone,
}

/// How long a notice is shown, in milliseconds.
pub const TOAST_MS: u64 = 3_500;

/// How long it takes to fade at the end, in milliseconds.
pub const TOAST_FADE_MS: u64 = 600;

/// How a notice looks after `age` milliseconds.
pub fn toast_look(age: u64) -> (r: ToastLook)
    ensures
        r == (if age >= TOAST_MS {
            ToastLook::Gone
        } else if age > TOAST_MS - TOAST_FADE_MS {
            ToastLook::Fading { left: (TOAST_MS - age) as u64 }
        } else {
            ToastLook::Solid
        }),
{
    if age >= TOAST_MS {
        ToastLook::Gone
    } else if age > TOAST_MS - TOAST_FADE_MS {
        ToastLook::Fading { left: TOAST_MS - age }
    } else {
        ToastLook::Solid
    }
}

} // verus!
