use rust_chat::auth::{enc_auth_at, pwd_hash};
use rust_chat::broadcast::{Recv, RoomLog};
use rust_chat::chat::{parse_member_list, parse_text_img};
use rust_chat::client::{on_inbound, on_outbound, Outbound};
use rust_chat::envelope::{server_open, server_seal};
use rust_chat::handshake::{ClientHandshake, HandshakeError, Stage};
use rust_chat::registry::{Registry, RoomError};
use rust_chat::room_cipher::{credential_tag, room_digest, room_key};
use rust_chat::server::{parse_command, render, Action, Reply, ServerSession};

const NOW: i64 = 1_700_000_000;

fn s(x: &str) -> String {
    x.to_string()
}

/// Writes what a session would put on the wire, one line per element.
fn wire(replies: &[Reply], key: &[u8; 32]) -> Vec<String> {
    replies
        .iter()
        .map(|r| render(r, key).unwrap())
        .flat_map(|l| l.split_inclusive('\n').map(|x| x.trim_end_matches('\n').to_string()).collect::<Vec<_>>())
        .collect()
}

fn drain(sess: &mut ServerSession, rooms: &Registry) -> Vec<String> {
    let mut out = Vec::new();
    while let Some(Reply::Sealed(t)) = sess.poll(rooms) {
        out.push(t);
    }
    out
}

#[test]
fn create_then_join_with_other_credential_is_bad_credential() {
    let mut rooms = Registry::new();
    assert_eq!(rooms.create(&s("R"), &s("X"), &s("alice")), Ok(()));
    assert_eq!(rooms.join(&s("R"), &s("Y"), &s("bob")), Err(RoomError::BadCredential));
    assert_eq!(rooms.members(&s("R")), Some(vec![s("alice")]));
}

#[test]
fn room_lifecycle_two_sessions_then_both_leave() {
    let mut rooms = Registry::new();
    assert_eq!(rooms.create(&s("R"), &s("X"), &s("a")), Ok(()));
    assert_eq!(rooms.join(&s("R"), &s("X"), &s("b")), Ok(()));
    assert_eq!(rooms.members(&s("R")), Some(vec![s("a"), s("b")]));
    rooms.leave(&s("R"), &s("a"));
    assert_eq!(rooms.room_ids(), vec![s("R")]);
    rooms.leave(&s("R"), &s("b"));
    assert_eq!(rooms.room_ids(), Vec::<String>::new());
    assert_eq!(rooms.members(&s("R")), None);
}

#[test]
fn registry_errors() {
    let mut rooms = Registry::new();
    assert_eq!(rooms.join(&s("nope"), &s("X"), &s("a")), Err(RoomError::NoSuchRoom));
    assert_eq!(rooms.create(&s("R"), &s("X"), &s("a")), Ok(()));
    assert_eq!(rooms.create(&s("R"), &s("X"), &s("b")), Err(RoomError::RoomExists));
}

#[test]
fn rejoin_with_same_nickname_is_idempotent() {
    let mut rooms = Registry::new();
    rooms.create(&s("R"), &s("X"), &s("a")).unwrap();
    rooms.join(&s("R"), &s("X"), &s("a")).unwrap();
    assert_eq!(rooms.members(&s("R")), Some(vec![s("a")]));
}

#[test]
fn parse_command_cases() {
    let c = parse_command("CREATE MyRoom tag Alice").unwrap();
    assert_eq!(c.action, Action::Create);
    assert_eq!((c.room_id.as_str(), c.credential.as_str(), c.nickname.as_str()), ("MyRoom", "tag", "Alice"));
    let c = parse_command("  JOIN\tR  t   n extra").unwrap();
    assert_eq!(c.action, Action::Join);
    assert_eq!(c.nickname, "n");
    assert_eq!(parse_command("JOIN R t").err(), Some(RoomError::InvalidCmd));
    assert_eq!(parse_command("").err(), Some(RoomError::InvalidCmd));
    assert_eq!(parse_command("LEAVE R t n").err(), Some(RoomError::UnknownAction));
    assert_eq!(RoomError::BadCredential.name(), "BadCredential");
}

#[test]
fn broadcast_log_fans_out_in_order_to_every_subscriber() {
    let mut log = RoomLog::new(500);
    log.publish(s("before"));
    let mut cursors: Vec<u64> = (0..5).map(|_| log.subscribe()).collect();
    for m in ["m1", "m2", "m3"] {
        log.publish(s(m));
    }
    for c in cursors.iter_mut() {
        let mut got = Vec::new();
        loop {
            match log.recv(*c) {
                (Recv::Message(m), n) => {
                    got.push(m);
                    *c = n;
                }
                _ => break,
            }
        }
        assert_eq!(got, vec![s("m1"), s("m2"), s("m3")]);
    }
}

#[test]
fn broadcast_log_reports_lag() {
    let mut log = RoomLog::new(2);
    let c = log.subscribe();
    for m in ["a", "b", "c"] {
        log.publish(s(m));
    }
    match log.recv(c) {
        (Recv::Lagged(n), next) => {
            assert_eq!(n, 1);
            assert!(matches!(log.recv(next).0, Recv::Message(ref m) if m == "b"));
        }
        _ => panic!("expected lag"),
    }
}

#[test]
fn server_needs_auth_and_rejects_bad_token() {
    let key = pwd_hash("Vrepol");
    let mut rooms = Registry::new();
    let mut sess = ServerSession::new(key);
    let line = server_seal(s("HELLO"), &key);
    let step = sess.on_line(&mut rooms, &line, NOW);
    assert!(step.close);
    let lines = wire(&step.replies, &key);
    assert_eq!(lines.len(), 1);
    assert_eq!(server_open(&lines[0], &key), Some(s("ERR NeedAUTH")));

    let mut sess = ServerSession::new(key);
    let tok = enc_auth_at("wrong", NOW);
    let line = server_seal(format!("AUTH {tok}"), &key);
    let step = sess.on_line(&mut rooms, &line, NOW);
    assert!(step.close);
    let lines = wire(&step.replies, &key);
    assert_eq!(lines.len(), 1);
    assert_eq!(server_open(&lines[0], &key), Some(s("ERR BadAuth")));
}

#[test]
fn server_drops_unopenable_first_line() {
    let key = pwd_hash("Vrepol");
    let mut rooms = Registry::new();
    let mut sess = ServerSession::new(key);
    let step = sess.on_line(&mut rooms, "garbage", NOW);
    assert!(step.close);
    assert!(step.replies.is_empty());
}

/// Drives one client handshake against one server session: by invitation, or choosing
/// the room as a user would.
fn handshake(
    rooms: &mut Registry,
    key: [u8; 32],
    nick: &str,
    room: &str,
    pwd: &str,
    invited: bool,
) -> (ServerSession, Result<ClientHandshake, HandshakeError>) {
    let mut sess = ServerSession::new(key);
    let invite = if invited { Some((s(room), s(pwd))) } else { None };
    let (mut hs, auth) = ClientHandshake::start(key, s(nick), invite, NOW);
    let mut to_server: Vec<String> = vec![auth];
    while let Some(line) = to_server.pop() {
        let step = sess.on_line(rooms, &server_seal(line, &key), NOW);
        for l in wire(&step.replies, &key) {
            match hs.on_line(&l) {
                Ok(Some(cmd)) => to_server.push(cmd),
                Ok(None) => {}
                Err(e) => return (sess, Err(e)),
            }
            if hs.stage == Stage::ChooseRoom {
                to_server.push(hs.choose_room(s(room), s(pwd)));
            }
        }
    }
    (sess, Ok(hs))
}

fn connect(
    rooms: &mut Registry,
    key: [u8; 32],
    nick: &str,
    room: &str,
    pwd: &str,
) -> (ServerSession, Result<ClientHandshake, HandshakeError>) {
    handshake(rooms, key, nick, room, pwd, false)
}

#[test]
fn end_to_end_create_join_chat() {
    let key = pwd_hash("Vrepol");
    let mut rooms = Registry::new();
    // a first client makes the Public room
    let (_p, _) = connect(&mut rooms, key, "Carol", "Public", "");

    // Alice authenticates and sees the room list
    let mut alice = ServerSession::new(key);
    let tok = enc_auth_at("Vrepol", NOW);
    let step = alice.on_line(&mut rooms, &server_seal(format!("AUTH {tok}"), &key), NOW);
    assert!(!step.close);
    let lines = wire(&step.replies, &key);
    assert_eq!(server_open(&lines[0], &key), Some(s("OK")));
    assert_eq!(server_open(&lines[1], &key), Some(s("ROOMS Public\n")));

    // Alice creates MyRoom
    let tag = credential_tag(&room_digest("MyRoom", "secret"));
    let step = alice.on_line(&mut rooms, &server_seal(format!("CREATE MyRoom {tag} Alice"), &key), NOW);
    assert_eq!(server_open(&wire(&step.replies, &key)[0], &key), Some(s("OK")));
    assert_eq!(drain(&mut alice, &rooms), vec![s("/member_list Alice")]);

    // Bob joins by invitation through the handshake machine
    let (mut bob, hs) = handshake(&mut rooms, key, "Bob", "MyRoom", "secret", true);
    let hs = hs.ok().unwrap();
    assert_eq!(hs.stage, Stage::Done);
    assert_eq!(drain(&mut bob, &rooms), vec![s("/member_list Alice,Bob")]);
    assert_eq!(
        drain(&mut alice, &rooms),
        vec![s("\u{26a1} [Bob] joined."), s("/member_list Alice,Bob")]
    );

    // Alice sends a chat line sealed in both envelopes
    let rk = room_key(&room_digest("MyRoom", "secret"));
    let out = match on_outbound("hello Bob", &rk, &key) {
        Some(Outbound::Send(l)) => l,
        _ => panic!("expected a line"),
    };
    let step = alice.on_line(&mut rooms, out.trim_end_matches('\n'), NOW);
    assert!(step.replies.is_empty());
    let got = drain(&mut bob, &rooms);
    assert_eq!(got.len(), 1);
    assert!(got[0].starts_with("[Alice] ENC:"));
    // Bob's client opens the transport layer, then the room layer
    let frame = render(&Reply::Sealed(got[0].clone()), &key).unwrap();
    let plain = on_inbound(frame.trim_end_matches('\n'), &key).unwrap();
    let (sender, body) = parse_text_img(&plain, &rk);
    assert_eq!(sender, "Alice");
    assert_eq!(body, "hello Bob");

    // Bob leaves; Alice sees it and the room survives
    bob.on_close(&mut rooms);
    assert_eq!(
        drain(&mut alice, &rooms),
        vec![got[0].clone(), s("\u{26a1} [Bob] left."), s("/member_list Alice")]
    );
    alice.on_close(&mut rooms);
    assert_eq!(rooms.room_ids(), vec![s("Public")]);
}

#[test]
fn joining_with_wrong_password_is_refused() {
    let key = pwd_hash("k");
    let mut rooms = Registry::new();
    let (_a, r) = connect(&mut rooms, key, "A", "R", "right");
    assert!(r.is_ok());
    let (_b, r) = connect(&mut rooms, key, "B", "R", "wrong");
    assert!(matches!(r, Err(HandshakeError::Room(RoomError::BadCredential))));
}

#[test]
fn keepalive_is_answered_and_not_broadcast() {
    let key = pwd_hash("k");
    let mut rooms = Registry::new();
    let (mut a, _) = connect(&mut rooms, key, "A", "R", "p");
    let _ = drain(&mut a, &rooms);
    let step = a.on_line(&mut rooms, "$$ping$$", NOW);
    assert_eq!(wire(&step.replies, &key), vec![s("/ping_ack")]);
    assert!(drain(&mut a, &rooms).is_empty());
    assert_eq!(on_inbound("/ping_ack", &key), None);
    assert_eq!(on_inbound("$$ping$$", &key), None);
}

#[test]
fn invalid_command_gets_error_and_blank_line() {
    let key = pwd_hash("k");
    let mut rooms = Registry::new();
    let mut sess = ServerSession::new(key);
    let tok = enc_auth_at("k", NOW);
    sess.on_line(&mut rooms, &server_seal(format!("AUTH {tok}"), &key), NOW);
    let step = sess.on_line(&mut rooms, &server_seal(s("JOIN onlyroom"), &key), NOW);
    assert!(step.close);
    assert_eq!(wire(&step.replies, &key), vec![s("ERR InvalidCmd"), s("")]);
}

#[test]
fn member_list_parsing() {
    assert_eq!(parse_member_list("/member_list a, b,,c "), Some(vec![s("a"), s("b"), s("c")]));
    assert_eq!(parse_member_list("/member_list "), Some(vec![]));
    assert_eq!(parse_member_list("hello"), None);
}

#[test]
fn shutdown_sentinel_stops_the_loop() {
    let k = [0u8; 32];
    assert!(matches!(on_outbound("//~``~//", &k, &k), Some(Outbound::Shutdown)));
}

#[test]
fn unopened_command_line_closes_without_reply() {
    let key = pwd_hash("k");
    let mut rooms = Registry::new();
    let mut sess = ServerSession::new(key);
    let tok = enc_auth_at("k", NOW);
    sess.on_line(&mut rooms, &server_seal(format!("AUTH {tok}"), &key), NOW);
    let step = sess.on_line(&mut rooms, "CREATE R tag Alice", NOW);
    assert!(step.close);
    assert!(step.replies.is_empty());
    assert!(step.opened.is_none());
    assert!(rooms.room_ids().is_empty());
}

#[test]
fn unopened_chat_line_closes_and_publishes_nothing() {
    let key = pwd_hash("k");
    let mut rooms = Registry::new();
    let (mut a, _) = connect(&mut rooms, key, "A", "R", "p");
    let (mut b, _) = connect(&mut rooms, key, "B", "R", "p");
    let _ = drain(&mut a, &rooms);
    let _ = drain(&mut b, &rooms);
    let step = a.on_line(&mut rooms, "plain text", NOW);
    assert!(step.close);
    assert!(step.replies.is_empty());
    assert!(drain(&mut b, &rooms).is_empty());
    // the session still cleans up when the connection goes
    a.on_close(&mut rooms);
    assert_eq!(drain(&mut b, &rooms), vec![s("\u{26a1} [A] left."), s("/member_list B")]);
}

#[test]
fn invitation_always_joins() {
    let key = pwd_hash("k");
    let mut rooms = Registry::new();
    // the invited room does not exist: the client still sends JOIN, and is refused
    let (_a, r) = handshake(&mut rooms, key, "A", "Gone", "p", true);
    assert!(matches!(r, Err(HandshakeError::Room(RoomError::NoSuchRoom))));
    assert!(rooms.room_ids().is_empty());
}

#[test]
fn sealed_auth_refusal_is_classified() {
    let key = pwd_hash("k");
    let (mut hs, _) = ClientHandshake::start(key, s("n"), None, NOW);
    assert!(matches!(hs.on_line(&server_seal(s("ERR BadAuth"), &key)), Err(HandshakeError::BadAuth)));
    let (mut hs, _) = ClientHandshake::start(key, s("n"), None, NOW);
    assert!(matches!(hs.on_line(&server_seal(s("ERR NeedAUTH"), &key)), Err(HandshakeError::NeedAuth)));
}
