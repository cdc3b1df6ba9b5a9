use ishell::app::App;
use ishell::clipboard::{PendingPaste, RelayPhase};
use ishell::paste::PasteEnv;
use ishell::proto::{ConflictPolicy, Lang, TransferDir, UiCommand};
use ishell::saved::{AuthMethod, ConnectConfig, Transport};
use ishell::transfer_list::{policy_label, RowState, XferClicks, XferFilter};
use ishell::transfers::{Transfer, XferSpec};

fn config(host: &str) -> ConnectConfig {
    ConnectConfig {
        host: host.to_string(),
        port: 22,
        username: "me".to_string(),
        auth: AuthMethod::KeyFile { path: "/key".to_string(), passphrase: None },
        label: host.to_string(),
        jump: None,
        forward_agent: false,
        transport: Transport::Ssh,
    }
}

fn app(hosts: &[&str]) -> App {
    let mut app = App::new(Lang::En, ConflictPolicy::Overwrite);
    for h in hosts {
        app.spawn_session(config(h));
    }
    app
}

fn env(host_known: bool) -> PasteEnv {
    PasteEnv { relay_root: "/tmp/ishell-relay".to_string(), pid: 7, windows: false, host_known }
}

fn items(paths: &[&str]) -> Vec<(String, bool)> {
    paths.iter().map(|p| (p.to_string(), false)).collect()
}

fn row(id: u64, ok: Option<bool>) -> Transfer {
    let mut t = Transfer::new(id, format!("f{id}"), TransferDir::Download, 10, None, None);
    t.ok = ok;
    t
}

fn no_clicks() -> XferClicks {
    XferClicks {
        filter: None,
        clear: false,
        cancel_all: false,
        retry_all: false,
        cancel: None,
        resume: None,
        toggle_err: None,
        remove: None,
        picked_dir: false,
        cycle_policy: false,
        close: false,
        outside: false,
    }
}

fn deletes(app: &App, s: usize) -> usize {
    app.sessions[s].link.sent.iter().filter(|c| matches!(c, UiCommand::DeleteMany { .. })).count()
}

#[test]
fn a_paste_on_one_server_is_done_there() {
    let mut a = app(&["h", "h"]);
    a.set_clip(0, items(&["/a/x", "/a/y"]), true);
    assert_eq!(a.sessions[0].status, "Cut 2 item(s)");
    a.start_paste(1, "/b".to_string(), &env(true));
    assert!(matches!(
        a.sessions[1].link.sent.last(),
        Some(UiCommand::CopyMove { srcs, dest_dir, do_move: true }) if srcs.len() == 2 && dest_dir == "/b"
    ));
    assert_eq!(a.sessions[1].status, "Moving 2 …");
    assert!(a.xfer.file_clip.is_none(), "a move empties the clipboard");
}

#[test]
fn a_paste_across_servers_is_asked_about_first() {
    let mut a = app(&["h", "g"]);
    a.set_clip(0, items(&["/a/x"]), false);
    a.xfer.confirm_direct = true;
    a.start_paste(1, "/b".to_string(), &env(true));
    let plan = a.xfer.pending_paste.take().expect("a question");
    assert!(plan.cross && !plan.direct && !a.xfer.confirm_direct);
    assert_eq!((plan.src_dir.as_str(), plan.dest_label.as_str()), ("/a", "g"));
    assert!(a.sessions.iter().all(|s| s.link.sent.is_empty()));
    a.start_paste(9, "/b".to_string(), &env(true));
    assert!(a.xfer.pending_paste.is_none());
}

fn relay(a: &mut App, is_cut: bool) {
    a.set_clip(0, items(&["/a/x"]), is_cut);
    a.start_paste(1, "/b".to_string(), &env(true));
    let plan = a.xfer.pending_paste.take().expect("a question");
    a.execute_paste(plan, &env(true));
}

#[test]
fn a_copy_goes_down_and_then_up() {
    let mut a = app(&["h", "g"]);
    relay(&mut a, true);
    assert!(a.show_transfers && a.xfer_just_opened);
    assert_eq!(a.sessions[1].status, "Cross-server move 1 (via local relay) …");
    let (down, tmp) = match a.sessions[0].link.sent.last() {
        Some(UiCommand::Download { id, local, .. }) => (*id, local.clone()),
        _ => panic!("a download was expected"),
    };
    assert!(tmp.starts_with("/tmp/ishell-relay/7-1-"), "{tmp}");
    assert!(tmp.ends_with("/x"));
    assert_eq!(tmp.len(), "/tmp/ishell-relay/7-1-".len() + 16 + 2);
    assert!(a.sessions[1].transfers[0].queued);
    a.sessions[0].transfers.push(row(down, None));
    assert!(a.process_relays(&vec![42]).is_empty());
    assert_eq!(a.sessions[1].transfers[0].note, "Waiting for source 42%…");
    a.sessions[0].transfers[0].ok = Some(true);
    assert!(a.process_relays(&vec![100]).is_empty());
    let up = match a.sessions[1].link.sent.last() {
        Some(UiCommand::Upload { id, local, remote_dir, .. }) => {
            assert_eq!((local, remote_dir.as_str()), (&tmp, "/b"));
            *id
        }
        _ => panic!("an upload was expected"),
    };
    assert!(a.xfer.relays[0].phase == RelayPhase::Up(up));
    assert!(!a.sessions[1].transfers[0].queued);
    assert_eq!(deletes(&a, 0), 0, "the source stays until the upload succeeded");
    a.sessions[1].transfers[0].ok = Some(true);
    assert_eq!(a.process_relays(&vec![0]), vec![(tmp, false)]);
    assert_eq!(deletes(&a, 0), 1);
    assert!(a.xfer.relays.is_empty());
}

#[test]
fn a_failed_copy_deletes_nothing_and_cleans_up() {
    let mut a = app(&["h", "g"]);
    relay(&mut a, true);
    a.sessions[0].transfers.push(row(1, Some(false)));
    assert_eq!(a.process_relays(&vec![0]).len(), 1);
    assert_eq!(deletes(&a, 0), 0);
    assert_eq!(a.sessions[1].transfers[0].ok, Some(false));
    assert_eq!(a.sessions[1].transfers[0].message, "Source download failed");
    let mut a = app(&["h", "g"]);
    relay(&mut a, true);
    a.close_session(0);
    assert_eq!(a.process_relays(&vec![0]).len(), 1);
    assert!(a.xfer.relays.is_empty());
}

#[test]
fn a_copy_without_its_source_says_so() {
    let mut a = app(&["h", "g"]);
    a.set_clip(0, items(&["/a/x"]), false);
    a.start_paste(1, "/b".to_string(), &env(true));
    let plan = a.xfer.pending_paste.take().expect("a question");
    a.close_session(0);
    a.execute_paste(plan, &env(true));
    assert_eq!(a.sessions[0].status, "Source session closed; cannot paste across servers");
}

fn direct_plan(a: &App, is_cut: bool) -> PendingPaste {
    PendingPaste {
        items: items(&["/a/x", "/a/y"]),
        is_cut,
        cross: true,
        src_uid: a.sessions[0].uid,
        dest_uid: a.sessions[1].uid,
        src_dir: "/a".to_string(),
        dest_dir: "/b".to_string(),
        src_label: "h".to_string(),
        dest_label: "g".to_string(),
        direct: true,
    }
}

#[test]
fn a_push_shows_its_progress_at_both_ends() {
    let mut a = app(&["h", "g"]);
    let plan = direct_plan(&a, true);
    a.execute_paste(plan, &env(true));
    match a.sessions[0].link.sent.last() {
        Some(UiCommand::DirectTransfer(d)) => {
            assert_eq!(d.label, "x +1");
            assert_eq!((d.dest_host.as_str(), d.key_path.as_str()), ("g", "/key"));
            assert!(d.dest_host_known);
        }
        _ => panic!("a push was expected"),
    }
    assert_eq!(a.sessions[1].status, "Direct transfer of 2 item(s) into this folder…");
    a.sessions[0].transfers[0].done = 3;
    a.sessions[0].transfers[0].total = 9;
    a.process_direct_jobs();
    assert_eq!((a.sessions[1].transfers[0].done, a.sessions[1].transfers[0].total), (3, 9));
    assert_eq!(deletes(&a, 0), 0);
    a.sessions[0].transfers[0].ok = Some(true);
    a.process_direct_jobs();
    assert_eq!(a.sessions[1].transfers[0].ok, Some(true));
    assert_eq!(a.sessions[1].transfers[0].done, 9);
    assert_eq!(deletes(&a, 0), 1);
    assert!(matches!(a.sessions[1].link.sent.last(), Some(UiCommand::ListDir(d)) if d == "/b"));
    assert!(a.xfer.direct_jobs.is_empty());
}

#[test]
fn a_push_to_an_unknown_host_has_to_be_confirmed() {
    let mut a = app(&["h", "g"]);
    let plan = direct_plan(&a, false);
    a.execute_direct(plan, false, false);
    assert!(a.xfer.pending_direct_hostkey.is_some());
    assert!(a.sessions[0].link.sent.is_empty());
    a.answer_direct_hostkey(true, false);
    assert!(a.xfer.pending_direct_hostkey.is_none());
    assert!(matches!(
        a.sessions[0].link.sent.last(),
        Some(UiCommand::DirectTransfer(d)) if !d.dest_host_known
    ));
}

#[test]
fn a_target_without_a_plain_key_cannot_be_pushed_to() {
    let mut a = app(&["h", "g"]);
    a.sessions[1].cfg.auth = AuthMethod::Password("p".to_string());
    let plan = direct_plan(&a, false);
    a.execute_direct(plan, true, false);
    assert_eq!(a.xfer.pending_direct_fallback.len(), 1);
    assert!(!a.xfer.pending_direct_fallback[0].plan.direct);
    a.answer_direct_fallback(true, &env(true));
    assert!(a.xfer.pending_direct_fallback.is_empty());
    assert_eq!(a.xfer.relays.len(), 2);
}

#[test]
fn a_failed_push_is_asked_about_and_a_cancelled_one_is_not() {
    for cancelled in [false, true] {
        let mut a = app(&["h", "g"]);
        let plan = direct_plan(&a, true);
        a.execute_direct(plan, true, false);
        let mirror = (a.sessions[1].uid, a.sessions[1].transfers[0].id);
        if cancelled {
            a.cancel_transfer(mirror.0, mirror.1);
            assert!(matches!(
                a.sessions[0].link.sent.last(),
                Some(UiCommand::CancelTransfer(id)) if *id == a.sessions[0].transfers[0].id
            ));
        }
        a.sessions[0].transfers[0].ok = Some(false);
        a.process_direct_jobs();
        assert_eq!(a.xfer.pending_direct_fallback.len(), if cancelled { 0 } else { 1 });
        assert_eq!(deletes(&a, 0), 0);
        let said = if cancelled { "Canceled" } else { "Direct failed" };
        assert_eq!(a.sessions[1].transfers[0].message, said);
    }
}

#[test]
fn the_list_shows_the_newest_rows_of_the_server_first() {
    let mut a = app(&["h", "g", "h"]);
    a.sessions[0].transfers = vec![row(1, None), row(2, Some(true))];
    a.sessions[1].transfers = vec![row(3, None)];
    a.sessions[2].transfers = vec![row(4, Some(false))];
    assert_eq!(a.transfer_rows(2), vec![(2, 0), (0, 1), (0, 0)]);
    a.xfer_filter = XferFilter::Active;
    assert_eq!(a.transfer_rows(2), vec![(0, 0)]);
    a.xfer_filter = XferFilter::Done;
    assert_eq!(a.transfer_rows(2), vec![(0, 1)]);
    a.xfer_filter = XferFilter::Failed;
    assert_eq!(a.transfer_rows(2), vec![(2, 0)]);
    let c = a.transfer_counts(2);
    assert_eq!((c.all, c.active, c.done, c.failed, c.retryable), (3, 1, 1, 1, 0));
    a.xfer_filter = XferFilter::All;
    a.sessions[1].transfers = (0..60).map(|i| row(i, None)).collect();
    let rows = a.transfer_rows(1);
    assert_eq!((rows.len(), rows[0], rows[49]), (50, (1, 59), (1, 10)));
    assert!(a.transfer_rows(9).is_empty());
}

#[test]
fn a_row_offers_what_its_transfer_can_do() {
    let mut t = row(1, None);
    assert!(t.row_state() == RowState::Running);
    t.queued = true;
    assert!(t.row_state() == RowState::Queued);
    t.paused = true;
    assert!(t.row_state() == RowState::Paused);
    assert!(!t.row_menu().remove);
    t.ok = Some(false);
    assert!(t.row_state() == RowState::Failed { retry: false });
    t.ok = Some(true);
    t.local = Some("/l".to_string());
    assert!(t.row_state() == RowState::Done { reveal: true });
    let m = t.row_menu();
    assert!(m.reveal && m.remove && m.delete_file);
}

#[test]
fn the_buttons_of_the_list_do_what_they_say() {
    let mut a = app(&["h", "h", "g"]);
    a.active = Some(0);
    a.show_transfers = true;
    let mut failed = row(1, Some(false));
    failed.spec = Some(XferSpec::Upload { local: "/l".to_string(), remote_dir: "/d".to_string() });
    let mut waiting = row(3, None);
    waiting.queued = true;
    a.sessions[0].transfers = vec![failed, row(2, None), waiting];
    a.sessions[1].transfers = vec![row(5, Some(true))];
    a.sessions[2].transfers = vec![row(6, Some(true))];
    a.transfer_window(&XferClicks { retry_all: true, outside: true, ..no_clicks() });
    assert!(a.show_transfers, "a click on a button is no click outside");
    assert_eq!((a.sessions[0].transfers[0].ok, a.sessions[0].transfers[0].message.as_str()), (None, "Retrying …"));
    assert!(matches!(a.sessions[0].link.sent.last(), Some(UiCommand::Upload { id: 1, .. })));
    a.transfer_window(&XferClicks { cancel_all: true, ..no_clicks() });
    let cancelled: Vec<u64> = a.sessions[0]
        .link
        .sent
        .iter()
        .filter_map(|c| match c {
            UiCommand::CancelTransfer(id) => Some(*id),
            _ => None,
        })
        .collect();
    assert_eq!(cancelled, vec![1, 2], "what only waits is not cancelled");
    a.transfer_window(&XferClicks { clear: true, ..no_clicks() });
    assert_eq!((a.sessions[1].transfers.len(), a.sessions[2].transfers.len()), (0, 1));
    a.transfer_window(&XferClicks { toggle_err: Some((1, 2)), ..no_clicks() });
    assert!(a.sessions[0].transfers[1].show_err);
    a.transfer_window(&XferClicks { resume: Some((1, 1)), ..no_clicks() });
    assert_eq!(a.sessions[0].transfers[0].message, "Resuming …");
    a.transfer_window(&XferClicks { remove: Some((1, 2)), ..no_clicks() });
    assert_eq!(a.sessions[0].transfers.len(), 2);
    a.transfer_window(&XferClicks { filter: Some(XferFilter::Done), cycle_policy: true, ..no_clicks() });
    assert!(a.xfer_filter == XferFilter::Done && a.conflict_policy == ConflictPolicy::Skip);
    a.transfer_window(&XferClicks { outside: true, ..no_clicks() });
    assert!(!a.show_transfers);
}

#[test]
fn the_ways_to_deal_with_a_target_come_round() {
    let mut a = app(&["h"]);
    a.show_transfers = true;
    let mut seen = Vec::new();
    for _ in 0..3 {
        seen.push(policy_label(a.conflict_policy, Lang::En));
        a.transfer_window(&XferClicks { cycle_policy: true, ..no_clicks() });
    }
    assert_eq!(seen, vec!["Overwrite", "Skip", "Rename"]);
    assert!(a.conflict_policy == ConflictPolicy::Overwrite);
}
