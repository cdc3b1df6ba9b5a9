use ishell::connection::{step, Conn, ConnAction, ConnEvent};
use ishell::handshake::{Carry, DownloadEnd, Instance};
use ishell::protocol::{Reply, ReqKind, ReqResult, Request};
use ishell::tickets::Tickets;

const TEST_ACTOR: &str = "test-actor";
const TOKEN: &str = "the-token";
const REJECTED: &str = "ticket rejected";

fn instance() -> Instance {
    Instance {
        id: "instance-1".to_string(),
        host: "box".to_string(),
        token: TOKEN.to_string(),
        proto_version: 7,
        ticket_rejected: REJECTED.to_string(),
    }
}

fn pair_proof(token: &str, nonce_c: &str, nonce_s: &str, role: &str) -> String {
    format!("{token}|{nonce_c}|{nonce_s}|{role}")
}

fn request(id: u64, kind: ReqKind) -> Request {
    Request {
        id,
        instance: None,
        origin: None,
        actor: Some(TEST_ACTOR.to_string()),
        ticket: None,
        kind,
    }
}

/// Carries a connection on with one line, and works out and looks at proofs as they are asked for.
fn line(tickets: &mut Tickets, conn: Conn, req: Request) -> (Conn, ConnAction) {
    let inst = instance();
    let (mut conn, mut action) =
        step(&inst, tickets, 1, conn, ConnEvent::Line(Ok(req)), true, 10);
    loop {
        let ev = match &action {
            ConnAction::Prove { nonce_c, nonce_s } => {
                ConnEvent::OwnProof(pair_proof(TOKEN, nonce_c, nonce_s, "server"))
            }
            ConnAction::Verify { nonce_c, nonce_s, client_proof } => {
                ConnEvent::Verified(*client_proof == pair_proof(TOKEN, nonce_c, nonce_s, "client"))
            }
            _ => return (conn, action),
        };
        (conn, action) = step(&inst, tickets, 1, conn, ev, true, 10);
    }
}

fn result(action: ConnAction) -> Result<ReqResult, String> {
    match action {
        ConnAction::Finish { reply, .. } | ConnAction::Challenge(reply) => reply.result,
        _ => panic!("a reply was expected"),
    }
}

fn handshake_with(tickets: &mut Tickets, token: &str) -> Result<ReqResult, String> {
    let hello = ReqKind::PairHello { nonce_c: "c".to_string() };
    let (conn, action) = line(tickets, Conn::Fresh, request(1, hello));
    let nonce_s = match result(action)? {
        ReqResult::PairChallenge { nonce_s, server_proof, .. } => {
            assert_eq!(server_proof, pair_proof(TOKEN, "c", &nonce_s, "server"));
            nonce_s
        }
        _ => panic!("the first step is answered with a challenge"),
    };
    let prove = ReqKind::PairProve { client_proof: pair_proof(token, "c", &nonce_s, "client") };
    result(line(tickets, conn, request(2, prove)).1)
}

fn ticket_of(tickets: &mut Tickets) -> String {
    match handshake_with(tickets, TOKEN) {
        Ok(ReqResult::Instance { ticket, .. }) => ticket,
        _ => panic!("a right proof earns a ticket"),
    }
}

fn business_request(tickets: &mut Tickets, ticket: Option<String>, actor: &str) -> ConnAction {
    let req = Request {
        instance: Some("instance-1".to_string()),
        actor: Some(actor.to_string()),
        ticket,
        ..request(1, ReqKind::ListSessions)
    };
    line(tickets, Conn::Fresh, req).1
}

#[test]
fn correct_token_completes_the_handshake() {
    match handshake_with(&mut Tickets::new(), TOKEN) {
        Ok(ReqResult::Instance { id, .. }) => assert_eq!(id, "instance-1"),
        _ => panic!("the right token completes the handshake"),
    }
}

#[test]
fn wrong_token_is_refused() {
    let err = handshake_with(&mut Tickets::new(), "definitely-not-the-token").err();
    assert!(err.expect("a wrong token is refused").contains("证明不符"));
}

#[test]
fn each_connection_gets_a_fresh_server_nonce() {
    let mut nonces = Vec::new();
    for _ in 0..2 {
        let hello = ReqKind::PairHello { nonce_c: "fixed".to_string() };
        match result(line(&mut Tickets::new(), Conn::Fresh, request(1, hello)).1) {
            Ok(ReqResult::PairChallenge { nonce_s, .. }) => nonces.push(nonce_s),
            _ => panic!("a challenge was expected"),
        }
    }
    assert_ne!(nonces[0], nonces[1]);
}

#[test]
fn prove_without_hello_is_refused() {
    let prove = ReqKind::PairProve { client_proof: "whatever".to_string() };
    let err = result(line(&mut Tickets::new(), Conn::Fresh, request(1, prove)).1).err();
    assert!(err.expect("a proof needs a challenge").contains("未开始"));
}

#[test]
fn switching_to_another_request_mid_handshake_is_refused() {
    let mut tickets = Tickets::new();
    let hello = ReqKind::PairHello { nonce_c: "c".to_string() };
    let (conn, _) = line(&mut tickets, Conn::Fresh, request(1, hello));
    let (conn, action) = line(&mut tickets, conn, request(2, ReqKind::ListSessions));
    assert!(result(action).err().expect("only a proof is taken").contains("PairProve"));
    assert!(matches!(conn, Conn::Over));
}

#[test]
fn a_request_without_a_valid_ticket_is_refused_even_with_the_right_instance() {
    let mut tickets = Tickets::new();
    for ticket in [None, Some("f".repeat(128))] {
        let err = result(business_request(&mut tickets, ticket, TEST_ACTOR)).err();
        assert!(err.expect("no ticket, no work").starts_with(REJECTED));
    }
    let ticket = ticket_of(&mut tickets);
    assert!(!ticket.is_empty());
    let action = business_request(&mut tickets, Some(ticket), TEST_ACTOR);
    assert!(matches!(action, ConnAction::Pass { .. }));
}

#[test]
fn the_ticket_pins_the_actor_declared_at_handshake() {
    let mut tickets = Tickets::new();
    let ticket = ticket_of(&mut tickets);
    match business_request(&mut tickets, Some(ticket), "impostor") {
        ConnAction::Pass { req, carry } => {
            assert_eq!(req.actor.as_deref(), Some(TEST_ACTOR));
            assert!(carry == Carry::Plain);
        }
        _ => panic!("a good ticket lets a request through"),
    }
}

#[test]
fn anonymous_identify_beacons_version_but_pair_probe_requires_the_token() {
    let mut tickets = Tickets::new();
    match result(line(&mut tickets, Conn::Fresh, request(1, ReqKind::Identify)).1) {
        Ok(ReqResult::Instance { id, proto_version, .. }) => {
            assert_eq!((id.as_str(), proto_version), ("instance-1", 7));
        }
        _ => panic!("anyone may ask who this is"),
    }
    let wrong = ReqKind::IdentifyPair { token: "definitely-not-the-token".to_string() };
    let (_, action) = line(&mut tickets, Conn::Fresh, request(1, wrong));
    assert!(matches!(action, ConnAction::Close));
    let right = ReqKind::IdentifyPair { token: TOKEN.to_string() };
    match result(line(&mut tickets, Conn::Fresh, request(1, right)).1) {
        Ok(ReqResult::Instance { id, token, .. }) => {
            assert_eq!((id.as_str(), token.as_str()), ("instance-1", ""));
        }
        _ => panic!("the right token is answered"),
    }
    match handshake_with(&mut tickets, TOKEN) {
        Ok(ReqResult::Instance { id, .. }) => assert_eq!(id, "instance-1"),
        _ => panic!("the handshake is open to all who know the token"),
    }
}

fn next(conn: Conn, ev: ConnEvent) -> (Conn, ConnAction) {
    step(&instance(), &mut Tickets::new(), 1, conn, ev, true, 10)
}

#[test]
fn a_line_that_is_no_request_is_answered() {
    let (conn, action) = next(Conn::Fresh, ConnEvent::Line(Err("bad".to_string())));
    assert!(matches!(conn, Conn::Over));
    match action {
        ConnAction::Finish { reply, drain } => {
            assert_eq!((reply.id, drain), (0, false));
            assert_eq!(reply.result.err().unwrap(), "请求 JSON 解析失败：bad");
        }
        _ => panic!("a reply was expected"),
    }
    assert!(matches!(next(Conn::Fresh, ConnEvent::Silence).1, ConnAction::Close));
    assert!(matches!(next(Conn::Over, ConnEvent::BytesSent).1, ConnAction::Close));
}

#[test]
fn a_refused_upload_is_read_to_its_end() {
    let working = || Conn::Working { id: 5, carry: Carry::Upload, path: String::new() };
    let (_, action) = next(working(), ConnEvent::Replied(None));
    assert!(matches!(action, ConnAction::Finish { drain: true, .. }));
    let ok = Reply { chan: 1, id: 5, result: Ok(ReqResult::Done) };
    let (_, action) = next(working(), ConnEvent::Replied(Some(ok)));
    assert!(matches!(action, ConnAction::Finish { drain: false, .. }));
    let err = Reply { chan: 1, id: 5, result: Err("no".to_string()) };
    let (_, action) = next(working(), ConnEvent::Replied(Some(err)));
    assert!(matches!(action, ConnAction::Finish { drain: true, .. }));
}

#[test]
fn a_download_ends_with_a_word_on_how_it_went() {
    let working = || Conn::Working { id: 5, carry: Carry::Download, path: "/p".to_string() };
    let (conn, action) = next(working(), ConnEvent::Download(Ok(9)));
    match action {
        ConnAction::Stream(r) => assert!(matches!(
            r.result,
            Ok(ReqResult::CopyStreamHeader { path, size: 9 }) if path == "/p"
        )),
        _ => panic!("the bytes follow a header"),
    }
    let (conn, action) = next(conn, ConnEvent::BytesSent);
    assert!(matches!(action, ConnAction::AwaitEnd));
    let (conn, action) = next(conn, ConnEvent::Ended(DownloadEnd::Complete));
    assert!(matches!(result(action), Ok(ReqResult::Done)));
    assert!(matches!(conn, Conn::Over));
    let (_, action) = next(working(), ConnEvent::Download(Err("gone".to_string())));
    assert_eq!(result(action).err().unwrap(), "gone");
    let (_, action) = next(working(), ConnEvent::NoDownload(Some(Err("refused".to_string()))));
    assert_eq!(result(action).err().unwrap(), "refused");
    let (_, action) = next(Conn::Streaming { id: 5 }, ConnEvent::Ended(DownloadEnd::Gone));
    assert!(result(action).is_err());
}
