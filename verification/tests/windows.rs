use ishell::app::App;
use ishell::forwards::{ForwardClicks, ForwardForm};
use ishell::image_view::{save_message, ImageClicks, ImageTab, ImageView};
use ishell::notices::{AiNotice, NoticeClicks};
use ishell::popups::{kill_question, ProcClicks};
use ishell::proto::{ConflictPolicy, ForwardKind, Lang, UiCommand};
use ishell::saved::{AuthMethod, ConnectConfig, Transport};
use ishell::startup::{autoconnect, gradient, shot_secs};
use ishell::tab_strip::{cut_label, draggable_tabs, next_cut, TabInput};
use ishell::view_state::{
    about_title, about_window, blend_color, files_label, init_view_state, menu_shows, notify_label,
    sidebar_label, toast_look, view_context_menu, AiNotifyMode, MenuClick, MenuEffect, MenuSettings,
    ToastLook, AI_SESSION_SNIPPET, OSC7_SNIPPET,
};

fn app(n: usize) -> App {
    let mut app = App::new(Lang::En, ConflictPolicy::Overwrite);
    for _ in 0..n {
        app.spawn_session(ConnectConfig {
            host: "h".to_string(),
            port: 22,
            username: "me".to_string(),
            auth: AuthMethod::Agent,
            label: String::new(),
            jump: None,
            forward_agent: false,
            transport: Transport::Ssh,
        });
    }
    app
}

fn no_forward_clicks() -> ForwardClicks {
    ForwardClicks {
        arm_del: None,
        cancel_del: false,
        remove: None,
        edit: None,
        cancel_edit: false,
        submit: false,
        accept_open: false,
        reject_open: false,
        close: false,
        outside: false,
    }
}

fn fill(app: &mut App, bind: &str, port: &str, host: &str, target: &str) {
    app.fwd.form = ForwardForm {
        kind: 0,
        bind: bind.to_string(),
        local_port: port.to_string(),
        target_host: host.to_string(),
        target_port: target.to_string(),
    };
}

#[test]
fn a_form_is_read_only_where_it_is_filled_in() {
    let mut f = ForwardForm::default();
    assert!(f.asked().is_none());
    f.local_port = " 8080 ".to_string();
    assert!(f.asked().is_none());
    f.kind = 1;
    let s = f.asked().expect("a SOCKS forward");
    assert!(matches!(s.kind, ForwardKind::Dynamic));
    assert_eq!((s.bind_host.as_str(), s.bind_port), ("127.0.0.1", 8080));
    f.kind = 0;
    f.bind = "  ".to_string();
    f.target_host = " db ".to_string();
    f.target_port = "5432".to_string();
    let s = f.asked().expect("a local forward");
    assert_eq!(s.bind_host, "127.0.0.1");
    assert!(matches!(s.kind, ForwardKind::Local { remote_host, remote_port: 5432 } if remote_host == "db"));
    f.target_port = "70000".to_string();
    assert!(f.asked().is_none());
}

#[test]
fn a_forward_is_added_changed_and_removed() {
    let mut a = app(1);
    a.fwd.show = true;
    fill(&mut a, "127.0.0.1", "8080", "db", "5432");
    a.forward_window(&ForwardClicks { submit: true, ..no_forward_clicks() }, false);
    assert_eq!(a.sessions[0].forwards.len(), 1);
    assert_eq!(a.sessions[0].forwards[0].label, "127.0.0.1:8080 → db:5432");
    assert!(matches!(a.sessions[0].link.sent.last(), Some(UiCommand::AddForward(f)) if f.id == 1));
    assert_eq!(a.fwd.form.local_port, "");
    a.forward_window(&ForwardClicks { edit: Some(1), ..no_forward_clicks() }, false);
    assert_eq!((a.fwd.editing, a.fwd.form.local_port.as_str()), (Some(1), "8080"));
    let spec = a.fwd.form.asked().expect("a forward");
    assert!(!a.needs_port_probe(0, &spec), "the changed forward listens there itself");
    a.fwd.form.target_host = "other".to_string();
    a.forward_window(&ForwardClicks { submit: true, ..no_forward_clicks() }, true);
    assert_eq!(a.sessions[0].forwards.len(), 1);
    assert_eq!(a.sessions[0].forwards[0].id, 2);
    assert_eq!(a.fwd.editing, None);
    a.forward_window(&ForwardClicks { arm_del: Some(2), ..no_forward_clicks() }, false);
    assert_eq!(a.fwd.confirm_del, Some(2));
    a.forward_window(&ForwardClicks { remove: Some(2), ..no_forward_clicks() }, false);
    assert!(a.sessions[0].forwards.is_empty());
    assert!(matches!(a.sessions[0].link.sent.last(), Some(UiCommand::RemoveForward(2))));
    assert_eq!(a.fwd.confirm_del, None);
}

#[test]
fn a_taken_address_is_refused() {
    let mut a = app(1);
    a.fwd.show = true;
    fill(&mut a, "", "8080", "db", "1");
    a.forward_window(&ForwardClicks { submit: true, ..no_forward_clicks() }, true);
    assert_eq!(a.fwd.error.as_deref(), Some("Local port 8080 is already in use"));
    assert!(a.sessions[0].forwards.is_empty());
    a.forward_window(&ForwardClicks { submit: true, ..no_forward_clicks() }, false);
    fill(&mut a, "", "8080", "db", "2");
    a.forward_window(&ForwardClicks { submit: true, ..no_forward_clicks() }, false);
    assert_eq!(a.sessions[0].forwards.len(), 1, "the list has it already");
}

#[test]
fn an_address_that_others_reach_is_confirmed_first() {
    let mut a = app(1);
    a.fwd.show = true;
    fill(&mut a, "0.0.0.0", "8080", "db", "1");
    a.forward_window(&ForwardClicks { submit: true, ..no_forward_clicks() }, false);
    assert!(a.fwd.pending_open_bind.is_some() && a.sessions[0].forwards.is_empty());
    a.forward_window(&ForwardClicks { reject_open: true, ..no_forward_clicks() }, false);
    assert!(a.fwd.pending_open_bind.is_none());
    a.forward_window(&ForwardClicks { submit: true, accept_open: true, ..no_forward_clicks() }, false);
    assert_eq!(a.sessions[0].forwards.len(), 1);
    a.forward_window(&ForwardClicks { outside: true, ..no_forward_clicks() }, false);
    assert!(a.fwd.show, "opened in this very frame");
    a.forward_window(&ForwardClicks { outside: true, ..no_forward_clicks() }, false);
    assert!(!a.fwd.show);
}

fn images(n: usize) -> ImageView {
    let mut v = ImageView::new();
    for i in 0..n {
        v.tabs.push(ImageTab {
            server: "s".to_string(),
            uid: 1,
            path: format!("/p/{i}.png"),
            data: vec![i as u8],
        });
    }
    v
}

fn no_image_clicks() -> ImageClicks {
    ImageClicks {
        tab_next: false,
        tab_prev: false,
        reorder: None,
        activate: None,
        right: false,
        left: false,
        close_tab: None,
        close_all: false,
    }
}

#[test]
fn the_viewer_steps_through_its_images() {
    let mut v = images(3);
    assert_eq!(v.title(Lang::En), "iShell Image — s·0.png");
    v.image_window(&ImageClicks { left: true, ..no_image_clicks() });
    assert_eq!(v.active, 2);
    v.image_window(&ImageClicks { right: true, ..no_image_clicks() });
    assert_eq!(v.active, 0);
    v.image_window(&ImageClicks { tab_prev: true, ..no_image_clicks() });
    assert_eq!(v.active, 2);
    v.image_window(&ImageClicks { reorder: Some((2, 0)), ..no_image_clicks() });
    assert_eq!((v.active, v.tabs[0].path.as_str(), v.tabs[2].path.as_str()), (0, "/p/2.png", "/p/0.png"));
    v.image_window(&ImageClicks { activate: Some(1), ..no_image_clicks() });
    assert_eq!(v.active, 1);
    assert!(v.image_window(&ImageClicks { close_tab: Some(0), ..no_image_clicks() }));
    assert_eq!((v.active, v.tabs[0].path.as_str()), (1, "/p/1.png"));
    assert!(v.image_window(&ImageClicks { close_tab: Some(0), ..no_image_clicks() }));
    assert_eq!((v.active, v.tabs[0].path.as_str()), (0, "/p/0.png"));
    assert!(v.image_window(&ImageClicks { close_all: true, ..no_image_clicks() }));
    assert!(v.tabs.is_empty());
    assert!(!v.image_window(&no_image_clicks()));
    assert_eq!(v.title(Lang::En), "iShell Image");
    let mut v = images(2);
    v.active = 1;
    assert!(v.remove_tab_at(0));
    assert_eq!(v.active, 0);
    assert!(!v.remove_tab_at(4));
    assert_eq!(save_message(Ok("/x"), Lang::En), "Saved to /x");
    assert_eq!(save_message(Err("no"), Lang::Zh), "保存失败：no");
}

fn no_proc_clicks() -> ProcClicks {
    ProcClicks { close: false, outside: false, arm_kill: false, cancel_kill: false, kill: false }
}

#[test]
fn only_a_confirmed_process_is_killed() {
    let mut a = app(2);
    a.active = Some(0);
    a.click_proc(42, Some("make".to_string()));
    assert!(matches!(a.sessions[0].link.sent.last(), Some(UiCommand::ProcDetail(42))));
    a.proc_popup_window(&ProcClicks { kill: true, outside: true, ..no_proc_clicks() });
    assert!(a.popups.proc_info.is_some());
    assert_eq!(a.sessions[0].link.sent.len(), 1, "it was not confirmed");
    a.proc_popup_window(&ProcClicks { arm_kill: true, ..no_proc_clicks() });
    a.active = Some(1);
    a.proc_popup_window(&ProcClicks { kill: true, ..no_proc_clicks() });
    assert!(matches!(a.sessions[0].link.sent.last(), Some(UiCommand::KillProc(42))));
    assert!(a.sessions[1].link.sent.is_empty());
    assert!(a.popups.proc_info.is_none());
    a.click_proc(7, Some("x".to_string()));
    a.sessions[1].monitor_ok = Some(false);
    a.proc_popup_window(&ProcClicks { arm_kill: true, ..no_proc_clicks() });
    a.proc_popup_window(&ProcClicks { kill: true, ..no_proc_clicks() });
    assert_eq!(a.toast.as_deref(), Some("Remote does not support process control"));
    assert_eq!(kill_question(7, "x", Lang::En), "Kill PID 7 (x)? This cannot be undone.");
}

#[test]
fn the_window_about_the_cards_closes_by_a_click_outside() {
    let mut a = app(1);
    a.click_gpu();
    a.popups.gpu_popup_window(true, false, true);
    assert!(a.popups.gpu);
    a.popups.gpu_popup_window(true, false, true);
    assert!(!a.popups.gpu);
    a.click_gpu();
    a.popups.gpu_popup_window(false, false, false);
    assert!(!a.popups.gpu);
}

#[test]
fn a_notice_leads_to_its_session() {
    let mut a = app(2);
    for uid in [1, 2] {
        a.ai_notices.push(AiNotice {
            session_uid: uid,
            session_title: String::new(),
            text: String::new(),
        });
    }
    let c = NoticeClicks { clear_all: false, dismiss: Some(0), jump_to: Some(1) };
    assert_eq!(a.ai_notice_overlay(&c), Some(0));
    assert_eq!((a.active, a.ai_notices.len()), (Some(0), 1));
    let c = NoticeClicks { clear_all: true, dismiss: Some(0), jump_to: Some(9) };
    assert_eq!(a.ai_notice_overlay(&c), None);
    assert!(a.ai_notices.is_empty());
}

fn settings() -> MenuSettings {
    MenuSettings {
        notify: AiNotifyMode::NeedsInput,
        mcp_on: false,
        auto_approve: true,
        force_x11: false,
        ime_follow: true,
    }
}

#[test]
fn the_menu_changes_the_view_and_says_what_to_store() {
    let mut v = init_view_state(true);
    let mut s = settings();
    assert!(v.osc7_consent() && !v.about_open() && !v.sidebar_collapsed() && !v.files_collapsed());
    assert!(matches!(view_context_menu(&mut v, &mut s, MenuClick::Sidebar, ""), MenuEffect::Nothing));
    view_context_menu(&mut v, &mut s, MenuClick::Files, "");
    view_context_menu(&mut v, &mut s, MenuClick::About, "");
    assert!(v.sidebar_collapsed() && v.files_collapsed() && v.about_open());
    assert!(!menu_shows(MenuClick::CopyToken, &s, true));
    assert!(matches!(view_context_menu(&mut v, &mut s, MenuClick::Mcp, ""), MenuEffect::StoreMcp(true)));
    assert!(menu_shows(MenuClick::CopyToken, &s, true));
    assert!(!menu_shows(MenuClick::ForceX11, &s, false));
    assert!(matches!(
        view_context_menu(&mut v, &mut s, MenuClick::AutoApprove, ""),
        MenuEffect::StoreAutoApprove(false)
    ));
    assert!(matches!(
        view_context_menu(&mut v, &mut s, MenuClick::Notify(AiNotifyMode::Off), ""),
        MenuEffect::StoreNotify(AiNotifyMode::Off)
    ));
    assert!(matches!(
        view_context_menu(&mut v, &mut s, MenuClick::ForceX11, ""),
        MenuEffect::StoreForceX11(true)
    ));
    assert!(matches!(
        view_context_menu(&mut v, &mut s, MenuClick::ImeFollow, ""),
        MenuEffect::StoreImeFollow(false)
    ));
    assert!(matches!(
        view_context_menu(&mut v, &mut s, MenuClick::CopyToken, "t0"),
        MenuEffect::Copy(l) if l == "ISHELL_MCP_TOKEN=t0"
    ));
    assert!(!v.set_osc7_consent(false) && !v.osc7_consent());
    v.set_sidebar_collapsed(false);
    v.set_files_collapsed(false);
    assert_eq!(sidebar_label(false, Lang::En), "Hide monitor sidebar");
    assert_eq!(files_label(true, Lang::Zh), "显示文件栏");
    assert_eq!(notify_label(AiNotifyMode::All, Lang::En), "Incl. task done");
    assert_eq!(about_title("1.2", Lang::En), "About iShell  ·  v1.2");
    about_window(&mut v, false, false);
    assert!(v.about_open());
    about_window(&mut v, false, true);
    assert!(!v.about_open());
    v.set_about_open(true);
    about_window(&mut v, true, false);
    assert!(!v.about_open());
}

#[test]
fn the_snippets_start_with_a_space() {
    assert!(OSC7_SNIPPET.starts_with(" __ishell_cwd()"));
    assert!(AI_SESSION_SNIPPET.contains("133;D;%d"));
    assert!(AI_SESSION_SNIPPET.ends_with("__ishell_cwd"));
}

#[test]
fn a_border_lies_between_its_two_colours() {
    assert_eq!(blend_color((0, 255, 9), (255, 0, 9)), (170, 85, 9));
    assert_eq!(blend_color((1, 1, 1), (2, 2, 2)), (1, 1, 1));
}

#[test]
fn a_notice_over_everything_fades_at_the_end() {
    assert!(toast_look(0) == ToastLook::Solid);
    assert!(toast_look(2_900) == ToastLook::Solid);
    assert!(toast_look(3_000) == ToastLook::Fading { left: 500 });
    assert!(toast_look(3_500) == ToastLook::Gone);
}

#[test]
fn a_dragged_tab_trades_places_with_a_neighbour() {
    let none = TabInput { cross: false, click: false, middle: false, drag_started: false };
    let tabs = vec![none; 3];
    let r = draggable_tabs(Some(1), &tabs, true, Some((true, true)));
    assert_eq!((r.reorder, r.drag), (Some((1, 0)), Some(0)));
    let r = draggable_tabs(Some(1), &tabs, true, Some((false, true)));
    assert_eq!(r.reorder, Some((1, 2)));
    let r = draggable_tabs(Some(2), &tabs, true, Some((false, true)));
    assert_eq!((r.reorder, r.drag), (None, Some(2)));
    let r = draggable_tabs(Some(0), &tabs, true, None);
    assert_eq!((r.reorder, r.drag), (None, Some(0)));
    let r = draggable_tabs(Some(1), &tabs, false, Some((true, true)));
    assert_eq!((r.reorder, r.drag), (None, None));
    let tabs = vec![
        TabInput { click: true, ..none },
        TabInput { middle: true, ..none },
        TabInput { cross: true, click: true, drag_started: true, ..none },
    ];
    let r = draggable_tabs(None, &tabs, true, None);
    assert_eq!((r.activate, r.close, r.drag), (Some(0), Some(2), Some(2)));
}

#[test]
fn a_long_label_is_cut_step_by_step() {
    assert_eq!(cut_label("ünterwegs", 4), "ünte…");
    assert_eq!(next_cut(9, 9, false), Some(7));
    assert_eq!(next_cut(5, 9, false), Some(4));
    assert_eq!(next_cut(4, 9, false), None);
    assert_eq!(next_cut(7, 9, true), None);
}

#[test]
fn the_environment_can_ask_for_a_connection() {
    let c = autoconnect("host|2222|me|/key", Some("jump|x|you|/k2")).expect("a connection");
    assert_eq!((c.host.as_str(), c.port, c.username.as_str()), ("host", 2222, "me"));
    assert!(matches!(&c.auth, AuthMethod::KeyFile { path, passphrase: None } if path == "/key"));
    let j = c.jump.expect("a jump host");
    assert_eq!((j.host.as_str(), j.port), ("jump", 22));
    let c = autoconnect("host|22|me|agent", Some("too|few")).expect("a connection");
    assert!(matches!(c.auth, AuthMethod::Agent) && c.jump.is_none());
    assert!(autoconnect("host|22|me", None).is_none());
    assert!(autoconnect("host|port|me|/key", None).is_none());
    assert_eq!(shot_secs(Some("12")), 12);
    assert_eq!(shot_secs(Some("x")), 5);
    assert_eq!(shot_secs(None), 5);
}

#[test]
fn the_test_picture_is_a_gradient() {
    let px = gradient(240, 160);
    assert_eq!(px.len(), 240 * 160 * 4);
    assert_eq!(&px[..4], &[0, 0, 128, 255]);
    let last = px.len() - 4;
    assert_eq!(&px[last..], &[(239 * 255 / 240) as u8, (159 * 255 / 160) as u8, 128, 255]);
}

#[test]
fn the_windows_can_be_filled_to_look_at_them() {
    let mut a = app(0);
    a.demo_forward();
    a.demo_transfers();
    a.demo_process();
    assert!(a.fwd.show && a.show_transfers);
    assert_eq!(a.popups.proc_info.as_ref().map(|p| p.uid), Some(0));
    a.demo_tabs();
    assert_eq!((a.sessions.len(), a.active), (12, Some(11)));
    assert_eq!((a.sessions[0].title.as_str(), a.sessions[11].title.as_str()), ("srv-01", "srv-12"));
    assert_eq!(a.sessions[8].tip, "srv-09@127.0.0.1:9");
    a.demo_forward();
    assert_eq!(a.sessions[0].forwards[0].label, "127.0.0.1:18022 → 127.0.0.1:22");
    assert_eq!(a.sessions[0].link.sent.len(), 1);
    a.demo_transfers();
    let t = &a.sessions[0].transfers;
    assert_eq!((t.len(), t[0].done, t[1].ok), (15, 73_400_320, Some(true)));
    assert_eq!(t[2].local.as_deref(), Some("/root/Downloads/huge.bin"));
    assert_eq!((t[14].name.as_str(), t[14].done, t[14].ok), ("file_15.dat", 15_000, Some(true)));
    assert_eq!((t[3].name.as_str(), t[3].ok), ("file_4.dat", None));
    assert_eq!((a.alloc_editor_id(), a.alloc_editor_id()), (0, 1));
}

#[test]
fn nothing_is_open_at_the_start() {
    let a = App::new(Lang::En, ConflictPolicy::Skip);
    assert!(a.image.tabs.is_empty() && !a.image.focus && a.image.tab_drag.is_none());
    assert_eq!((a.image.active, a.image.shown), (0, 0));
    assert!(a.popups.proc_info.is_none() && !a.popups.proc_just_opened);
    assert!(!a.popups.gpu && !a.popups.gpu_just_opened);
    assert!(!a.fwd.show && !a.show_transfers && a.active.is_none());
}
