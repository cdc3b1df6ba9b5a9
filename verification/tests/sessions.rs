use std::collections::VecDeque;

use ishell::app::App;
use ishell::editor::{EditorState, EditorTab, SaveRev, SaveState};
use ishell::events::{reconnect_backoff, recorded_nic, EventEnv, WorkerEvent, EVENT_BUDGET, TERM_BUDGET};
use ishell::forwards::ForwardEntry;
use ishell::notices::visible_range;
use ishell::pending::SessionPending;
use ishell::proto::{ConflictPolicy, Eol, ForwardKind, Lang, TransferDir, UiCommand};
use ishell::saved::{AuthMethod, ConnectConfig, Transport};
use ishell::session::{cwd_restore_decision, paste_name, CwdRestore, Session};
use ishell::transfers::{Transfer, XferSpec};

fn config(host: &str) -> ConnectConfig {
    ConnectConfig {
        host: host.to_string(),
        port: 22,
        username: "me".to_string(),
        auth: AuthMethod::Agent,
        label: " web ".to_string(),
        jump: None,
        forward_agent: false,
        transport: Transport::Ssh,
    }
}

fn app(n: usize) -> App {
    let mut app = App::new(Lang::En, ConflictPolicy::Overwrite);
    for i in 0..n {
        app.spawn_session(config(&format!("h{i}")));
    }
    app
}

fn session() -> Session {
    app(1).sessions.remove(0)
}

fn env(now: u64) -> EventEnv {
    EventEnv { now, lang: Lang::En, cwd_window_ms: 60_000, windows: false }
}

#[test]
fn default_pending_is_empty() {
    let p = SessionPending::default();
    assert!(p.is_empty());
    let mut p = SessionPending::default();
    p.warn.push("x".into());
    assert!(!p.is_empty());
    p.warn.clear();
    assert!(p.is_empty());
}

#[test]
fn injects_only_once_the_shell_is_actually_idle() {
    assert_eq!(cwd_restore_decision(true, false, false), CwdRestore::Wait);
    assert_eq!(cwd_restore_decision(true, true, false), CwdRestore::Inject);
}

#[test]
fn gives_up_as_soon_as_the_user_starts_typing() {
    assert_eq!(cwd_restore_decision(false, true, false), CwdRestore::GiveUp);
    assert_eq!(cwd_restore_decision(false, false, false), CwdRestore::GiveUp);
}

#[test]
fn gives_up_after_the_deadline() {
    assert_eq!(cwd_restore_decision(true, false, true), CwdRestore::GiveUp);
    assert_eq!(cwd_restore_decision(true, true, true), CwdRestore::Inject);
}

#[test]
fn keeps_newest_when_over_capacity() {
    assert_eq!(visible_range(0, 6), 0..0);
    assert_eq!(visible_range(3, 6), 0..3);
    assert_eq!(visible_range(6, 6), 0..6);
    assert_eq!(visible_range(8, 6), 2..8);
    assert_eq!(visible_range(100, 6), 94..100);
}

fn tab() -> EditorTab {
    EditorTab {
        path: "/t.txt".into(),
        caret_line: 3,
        server: String::new(),
        uid: 1,
        tid: 1,
        load_id: None,
        load_done: 0,
        load_total: 0,
        save: SaveState::Idle,
        save_done: 0,
        save_total: 0,
        save_op: 0,
        save_deadline: None,
        is_doc: false,
    }
}

fn rev() -> SaveRev {
    SaveRev { version: 1, encoding: "UTF-8".into(), eol: Eol::Lf }
}

#[test]
fn save_state_transitions() {
    let mut t = tab();
    let mut next_op = 1;
    assert!(!t.is_saving() && !t.is_conflict() && !t.wants_close());
    t.begin_save(rev(), false, &mut next_op, 0);
    assert!(t.is_saving() && !t.is_conflict() && !t.wants_close());
    t.request_close_on_saved();
    assert!(t.wants_close());
    t.save = SaveState::Idle;
    t.request_close_on_saved();
    assert!(!t.wants_close() && !t.is_saving());
    t.begin_save(rev(), true, &mut next_op, 0);
    t.save = SaveState::Conflict;
    assert!(t.is_conflict() && !t.is_saving() && !t.wants_close());
}

#[test]
fn every_save_has_a_number_and_a_deadline_of_its_own() {
    let mut t = tab();
    let mut next_op = 1;
    t.begin_save(rev(), false, &mut next_op, 1_000);
    assert_eq!((t.save_op, t.save_deadline), (1, Some(31_000)));
    t.begin_save(rev(), false, &mut next_op, 2_000);
    assert_eq!((t.save_op, t.save_deadline), (2, Some(32_000)));
}

#[test]
fn closing_an_editor_tab_keeps_the_shown_one() {
    let mut ed = EditorState::new();
    for i in 0..3 {
        ed.tabs.push(EditorTab { tid: i, server: "s".into(), ..tab() });
    }
    ed.active = 2;
    let closed = ed.remove_tab_at(0).expect("it was there");
    assert_eq!(closed.tid, 0);
    assert_eq!(closed.cursor_note(), Some(("s|/t.txt".to_string(), 3)));
    assert_eq!(ed.tabs[ed.active].tid, 2);
    assert!(ed.trim_request);
    assert!(ed.remove_tab_at(1).is_some());
    assert_eq!(ed.active, 0);
    assert!(ed.remove_tab_at(5).is_none());
    ed.close_confirm = true;
    assert_eq!(ed.close_all().len(), 1);
    assert!(ed.tabs.is_empty() && !ed.close_confirm);
    assert_eq!(EditorTab { is_doc: true, ..tab() }.cursor_note(), None);
    assert_eq!(EditorTab { load_id: Some(1), ..tab() }.cursor_note(), None);
}

#[test]
fn a_lost_connection_is_tried_again_with_growing_pauses() {
    assert_eq!((0..6).map(reconnect_backoff).collect::<Vec<_>>(), vec![2, 4, 8, 16, 30, 30]);
    let mut s = session();
    s.on_event(WorkerEvent::Connected, env(1));
    s.on_event(WorkerEvent::Disconnected("gone".into()), env(1_000));
    assert_eq!(s.reconnect_at, Some(3_000));
    assert_eq!(s.status, "gone · reconnect in 2s");
    let mut s = session();
    s.was_connected = true;
    s.reconnect_tries = 5;
    s.on_event(WorkerEvent::Disconnected("gone".into()), env(1_000));
    assert_eq!(s.reconnect_at, None);
    assert_eq!(s.pending.warn.len(), 1);
    let mut s = session();
    s.on_event(WorkerEvent::Disconnected("refused".into()), env(1_000));
    assert_eq!((s.reconnect_at, s.status.as_str()), (None, "refused"));
}

#[test]
fn an_interrupted_transfer_is_resumed_after_the_reconnect() {
    let mut s = session();
    s.on_event(WorkerEvent::Connected, env(1));
    let spec = XferSpec::Download { remote: "/r".into(), local: "/l".into() };
    s.transfers.push(Transfer::new(4, "r".into(), TransferDir::Download, 9, None, Some(spec)));
    let mut done = Transfer::new(5, "d".into(), TransferDir::Upload, 9, None, None);
    done.ok = Some(true);
    s.transfers.push(done);
    s.on_event(WorkerEvent::Disconnected("gone".into()), env(2));
    assert!(s.transfers[0].paused && !s.transfers[1].paused);
    s.forwards.push(ForwardEntry {
        id: 1,
        label: String::new(),
        status: String::new(),
        ok: true,
        bind_host: "127.0.0.1".into(),
        bind_port: 1080,
        kind: ForwardKind::Dynamic,
    });
    s.on_event(WorkerEvent::Connected, env(3));
    assert!(!s.transfers[0].paused);
    assert_eq!(s.transfers[0].message, "Resuming …");
    assert_eq!(s.link.sent.len(), 2);
    assert!(matches!(&s.link.sent[0], UiCommand::Download { id: 4, .. }));
    assert!(matches!(&s.link.sent[1], UiCommand::AddForward(f) if f.bind_port == 1080));
}

#[test]
fn the_way_back_to_a_directory_waits_for_an_idle_shell() {
    let mut s = session();
    s.last_cwd = "/it's".into();
    s.restore_cwd = true;
    s.on_event(WorkerEvent::Connected, env(1_000));
    assert_eq!(s.restore_cwd_until, Some(61_000));
    assert!(s.link.sent.is_empty());
    s.step_cwd_restore(true, 2_000);
    assert!(s.link.sent.is_empty());
    s.terminal.output_idle_ms = 2_000;
    s.terminal.input_idle_ms = 2_000;
    s.step_cwd_restore(true, 3_000);
    assert!(matches!(
        &s.link.sent[0],
        UiCommand::TerminalInput(b) if b == b"cd '/it'\\''s'\r"
    ));
    assert_eq!(s.restore_cwd_until, None);
}

#[test]
fn reports_fill_what_the_windows_pick_up() {
    let mut s = session();
    s.on_event(WorkerEvent::Status("⚠ lossy".into()), env(1));
    s.on_event(WorkerEvent::Status("fine".into()), env(1));
    assert_eq!(s.pending.warn, vec!["⚠ lossy".to_string()]);
    assert_eq!(s.status, "fine");
    s.on_event(WorkerEvent::MonitorSupport(false), env(1));
    assert_eq!(s.monitor_ok, Some(false));
    assert_eq!(s.pending.warn.len(), 2);
    let prompts = vec![("code".to_string(), false)];
    s.on_event(
        WorkerEvent::KbdPrompt { name: "n".into(), instructions: "i".into(), prompts },
        env(1),
    );
    assert_eq!(s.kbd_prompt.as_ref().map(|k| k.answers.clone()), Some(vec![String::new()]));
    s.on_event(
        WorkerEvent::HostKeyPrompt { host: "h".into(), fingerprint: "f".into(), changed: true },
        env(1),
    );
    assert_eq!(s.status, "Awaiting host key …");
    s.on_event(WorkerEvent::FileLoadFailed { id: 1, message: "no".into() }, env(1));
    assert_eq!(s.status, "Open failed: no");
    s.on_event(WorkerEvent::ImageOpened { path: "/p".into(), data: vec![1] }, env(1));
    assert_eq!(s.pending.image.len(), 1);
    s.on_event(WorkerEvent::OpDone { message: "ok".into(), refresh_dir: Some("/d".into()) }, env(1));
    assert!(matches!(s.link.sent.last(), Some(UiCommand::ListDir(d)) if d == "/d"));
    assert_eq!(s.files.loading, vec!["/d".to_string()]);
    s.on_event(WorkerEvent::TerminalData { len: 1, cwd: Some("/w".into()) }, env(1));
    assert_eq!(s.last_cwd, "/w");
    s.on_event(WorkerEvent::Error("boom".into()), env(1));
    assert_eq!(s.status, "boom");
}

#[test]
fn a_transfer_is_followed_from_start_to_end() {
    let mut s = session();
    s.connected = true;
    s.on_event(
        WorkerEvent::TransferStart {
            id: 1,
            name: "a".into(),
            total: 10,
            dir: TransferDir::Upload,
            local: None,
        },
        env(1),
    );
    s.transfers[0].spec = Some(XferSpec::Upload { local: "/l".into(), remote_dir: "/d".into() });
    s.on_event(WorkerEvent::TransferNote { id: 1, note: "packing".into() }, env(1));
    s.on_event(WorkerEvent::TransferProgress { id: 1, done: 7 }, env(1));
    assert_eq!((s.transfers[0].done, s.transfers[0].note.as_str()), (7, "packing"));
    s.on_event(
        WorkerEvent::TransferDone { id: 1, ok: true, message: "done".into(), refresh_dir: None },
        env(1),
    );
    assert_eq!(s.transfers[0].ok, Some(true));
    assert_eq!(s.transfers[0].note, "");
    assert_eq!(s.files.pending_select, Some(("/d".to_string(), vec!["a".to_string()])));
    s.connected = false;
    s.transfers[0].ok = None;
    s.on_event(
        WorkerEvent::TransferDone { id: 1, ok: false, message: "lost".into(), refresh_dir: None },
        env(1),
    );
    assert!(s.transfers[0].paused && s.transfers[0].ok.is_none());
}

#[test]
fn one_frame_takes_in_only_so_much() {
    let mut s = session();
    let mut queue: VecDeque<WorkerEvent> = VecDeque::new();
    for _ in 0..EVENT_BUDGET + 1 {
        queue.push_back(WorkerEvent::Status("x".into()));
    }
    assert!(s.drain_events(&mut queue, env(1)).0);
    assert_eq!(queue.len(), 1);
    assert!(!s.drain_events(&mut queue, env(1)).0);
    queue.push_back(WorkerEvent::TerminalData { len: TERM_BUDGET, cwd: None });
    queue.push_back(WorkerEvent::Status("late".into()));
    assert!(s.drain_events(&mut queue, env(1)).0);
    assert_eq!(s.status, "x");
    assert!(!s.drain_events(&mut queue, env(1)).0);
    assert_eq!(s.status, "late");
}

#[test]
fn the_chosen_card_is_recorded_where_it_is_there() {
    let names = vec!["lo".to_string(), "eth0".to_string()];
    assert_eq!(recorded_nic(&names, "eth0"), Some(1));
    assert_eq!(recorded_nic(&names, ""), None);
    assert_eq!(recorded_nic(&names, "wlan0"), None);
}

#[test]
fn a_pasted_image_is_uploaded_and_its_path_typed() {
    assert_eq!(paste_name(7), "ishell-paste-7.png");
    let mut s = session();
    s.paste_image(7, Ok("/l/x.png".into()), 3, false, Lang::En);
    assert!(matches!(&s.link.sent[0], UiCommand::Upload { remote_dir, .. } if remote_dir == "/tmp"));
    let id = s.transfers[0].id;
    s.on_event(
        WorkerEvent::TransferDone { id, ok: true, message: "ok".into(), refresh_dir: None },
        env(1),
    );
    assert!(matches!(
        s.link.sent.last(),
        Some(UiCommand::TerminalInput(b)) if b == b"/tmp/ishell-paste-7.png "
    ));
    assert!(s.pending_paste_image.is_empty());
    s.paste_image(8, Err("disk full".into()), 3, false, Lang::En);
    assert_eq!(s.status, "Could not save the pasted image locally: disk full");
}

#[test]
fn a_new_session_is_shown_and_named() {
    let a = app(2);
    assert_eq!(a.active, Some(1));
    assert_eq!(a.sessions[0].title, "web");
    assert_eq!(a.sessions[0].tip, "me@h0:22");
    assert_eq!((a.sessions[0].uid, a.sessions[1].uid), (1, 2));
}

#[test]
fn moving_a_tab_keeps_all_of_them_and_the_shown_one() {
    let mut a = app(4);
    a.active = Some(2);
    a.reorder_session(0, 3);
    assert_eq!(a.sessions.iter().map(|s| s.uid).collect::<Vec<_>>(), vec![2, 3, 4, 1]);
    assert_eq!(a.sessions[a.active.unwrap()].uid, 3);
    a.reorder_session(9, 0);
    a.reorder_session(1, 1);
    assert_eq!(a.sessions.len(), 4);
}

#[test]
fn closing_a_tab_keeps_the_shown_one_where_it_can() {
    let mut a = app(3);
    a.active = Some(2);
    let gone = a.close_session(0).expect("it was there");
    assert!(matches!(gone.link.sent.last(), Some(UiCommand::Disconnect)));
    assert_eq!(a.sessions[a.active.unwrap()].uid, 3);
    a.close_session(1);
    assert_eq!(a.active, Some(0));
    a.close_session(0);
    assert_eq!(a.active, None);
    assert!(a.close_session(0).is_none());
}

#[test]
fn stepping_through_the_tabs_goes_round() {
    let mut a = app(3);
    assert_eq!(a.switch_tab(1), Some(0));
    assert_eq!(a.switch_tab(-1), Some(2));
    assert_eq!(a.switch_tab(-5), Some(0));
    assert_eq!(App::new(Lang::Zh, ConflictPolicy::Skip).switch_tab(1), None);
}

#[test]
fn a_reconnect_keeps_the_tab_and_starts_over() {
    let mut a = app(1);
    a.sessions[0].connected = true;
    a.sessions[0].last_cwd = "/w".into();
    a.reconnect_session(0);
    assert!(!a.sessions[0].connected && a.sessions[0].restore_cwd);
    assert_eq!(a.sessions[0].last_cwd, "/w");
    assert_eq!(a.sessions[0].status, "Reconnecting …");
    a.reconnect_session(7);
}

#[test]
fn a_lost_session_is_tried_again_when_it_is_due() {
    let mut a = app(3);
    for s in &mut a.sessions {
        s.connected = true;
        s.was_connected = true;
    }
    a.sessions[0].reconnect_at = Some(100);
    a.sessions[2].reconnect_at = Some(101);
    assert!(a.reconnect_due(99).is_empty());
    assert_eq!(a.reconnect_due(100), vec![1]);
    assert_eq!((a.sessions[0].reconnect_tries, a.sessions[0].reconnect_at), (1, None));
    assert!(!a.sessions[0].connected && a.sessions[1].connected && a.sessions[2].connected);
    assert_eq!(a.sessions[0].status, "Reconnecting …");
    assert_eq!(a.reconnect_due(200), vec![3]);
    assert!(a.reconnect_due(300).is_empty());
}

#[test]
fn automatic_tries_come_to_an_end() {
    let mut a = app(1);
    a.sessions[0].was_connected = true;
    let mut now = 0;
    for tries in 1..=5 {
        let mut queue = VecDeque::from([WorkerEvent::Disconnected("lost".to_string())]);
        a.sessions[0].drain_events(&mut queue, env(now));
        now = a.sessions[0].reconnect_at.expect("one more try");
        assert_eq!(a.reconnect_due(now), vec![1]);
        assert_eq!(a.sessions[0].reconnect_tries, tries);
    }
    let mut queue = VecDeque::from([WorkerEvent::Disconnected("lost".to_string())]);
    a.sessions[0].drain_events(&mut queue, env(now));
    assert_eq!(a.sessions[0].reconnect_at, None);
    assert!(a.reconnect_due(u64::MAX).is_empty());
}

#[test]
fn tabs_of_one_server_go_together() {
    let mut a = app(3);
    a.sessions[2].cfg.host = "h0".to_string();
    assert_eq!(a.same_server_idxs(2), vec![2, 0]);
    assert_eq!(a.same_server_idxs(1), vec![1]);
    assert_eq!(a.same_server_idxs(9), Vec::<usize>::new());
}

#[test]
fn removals_and_edits_stay_with_their_session() {
    let mut a = app(2);
    a.begin_frame();
    a.fwd.confirm_del = Some(1);
    a.fwd.editing = Some(1);
    a.begin_frame();
    assert_eq!(a.fwd.confirm_del, Some(1));
    a.switch_tab(1);
    a.begin_frame();
    assert_eq!((a.fwd.confirm_del, a.fwd.editing), (None, None));
    assert_eq!(a.active_uid_prev, Some(1));
    assert_eq!(a.body(), Some(0));
    a.active = None;
    assert_eq!(a.body(), None);
}

#[test]
fn the_file_tree_starts_at_the_root() {
    let mut s = session();
    s.init_files();
    s.init_files();
    assert_eq!((s.files.root.as_str(), s.files.expanded.len()), ("/", 1));
    assert!(matches!(&s.link.sent[0], UiCommand::ListDir(d) if d == "."));
}

#[test]
fn a_forward_comes_back_after_a_reconnect() {
    let mut a = app(1);
    a.demo_forward();
    a.sessions[0].link.sent.clear();
    a.sessions[0].last_cwd = "/w".into();
    a.reconnect_session(0);
    assert_eq!(a.sessions[0].forwards[0].status, "Reconnecting …");
    a.sessions[0].on_event(WorkerEvent::Connected, env(5));
    assert!(matches!(
        &a.sessions[0].link.sent[0],
        UiCommand::AddForward(f) if f.id == 1 && f.bind_port == 18022
    ));
    assert_eq!(a.sessions[0].restore_cwd_until, Some(60_005));
    a.sessions[0].step_cwd_restore(false, 6);
    assert_eq!((a.sessions[0].restore_cwd_until, a.sessions[0].link.sent.len()), (None, 1));
}
