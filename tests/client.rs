use rust_chat::auth::pwd_hash;
use rust_chat::chat::{follow_selection, parse_name_body, parse_text_img, retain_recent, stamp_text_line, ChatMessage};
use rust_chat::client::{classify_body, encode_rgba_as_png, heartbeat_line, image_payload, Body, PngError};
use rust_chat::editor::{nth_grapheme_byte_idx, OpKind, UndoMgr};
use rust_chat::envelope::server_seal;
use rust_chat::handshake::{split_server_entry, ClientHandshake, HandshakeError, Stage};
use rust_chat::registry::RoomError;
use rust_chat::room_cipher::{room_digest, room_key, seal};

fn s(x: &str) -> String {
    x.to_string()
}

fn rk() -> [u8; 32] {
    room_key(&room_digest("R", "pw"))
}

#[test]
fn parse_text_img_opens_room_frames() {
    let k = rk();
    let line = format!("[Alice]   {}", seal("hi there", &k));
    assert_eq!(parse_text_img(&line, &k), (s("Alice"), s("hi there")));
    assert_eq!(parse_text_img("[Bob] plain", &k), (s("Bob"), s("plain")));
    assert_eq!(parse_text_img("no name", &k), (s("???"), s("no name")));
    assert_eq!(parse_text_img("[open only", &k), (s("???"), s("[open only")));
}

#[test]
fn parse_name_body_text_and_image() {
    let k = rk();
    let m = ChatMessage::Text(format!("[Alice] [12:00:01] {}", seal("yo", &k)));
    assert_eq!(parse_name_body(&m, &k), (s("Alice"), s("12:00:01"), s("yo")));
    let m = ChatMessage::Text(s("[Alice] hello"));
    assert_eq!(parse_name_body(&m, &k), (s("Alice"), s("??:??:??"), s("hello")));
    let m = ChatMessage::Image { path: s("/tmp/x/img_0a1b2c3d.png"), sender: s("Bob"), ts: s("10:00:00") };
    assert_eq!(parse_name_body(&m, &k), (s("Bob"), s("10:00:00"), s("[\u{56fe}\u{7247}_c3d]")));
    let m = ChatMessage::Image { path: s("/tmp/x/img_ab.png"), sender: s("Bob"), ts: s("t") };
    assert_eq!(parse_name_body(&m, &k).2, s("[\u{56fe}\u{7247}_ab]"));
    let m = ChatMessage::Image { path: s("/tmp/x/plain.png"), sender: s("Bob"), ts: s("t") };
    assert_eq!(parse_name_body(&m, &k).2, s("[\u{56fe}\u{7247}_]"));
}

#[test]
fn stamp_text_line_inserts_time() {
    assert_eq!(stamp_text_line("[Alice] hi", "12:00:00"), "[Alice] [12:00:00] hi");
    assert_eq!(stamp_text_line("no name", "12:00:00"), "[12:00:00] no name");
}

#[test]
fn split_server_entry_at_first_ampersand() {
    assert_eq!(split_server_entry("127.0.0.1:6655&pw&x"), (s("127.0.0.1:6655"), s("pw&x")));
    assert_eq!(split_server_entry("host:1"), (s("host:1"), s("")));
    assert_eq!(split_server_entry("&"), (s(""), s("")));
}

#[test]
fn grapheme_offsets() {
    let t = "e\u{301}x\u{4f60}";
    assert_eq!(nth_grapheme_byte_idx(t, 0), 0);
    assert_eq!(nth_grapheme_byte_idx(t, 1), 3);
    assert_eq!(nth_grapheme_byte_idx(t, 2), 4);
    assert_eq!(nth_grapheme_byte_idx(t, 3), 7);
    assert_eq!(nth_grapheme_byte_idx(t, 9), 7);
}

#[test]
fn undo_history() {
    let mut u = UndoMgr::new_at(0);
    let mut input = s("abc");
    let mut cursor = 3usize;
    // a change of kind always saves
    u.maybe_push_at(&input, cursor, OpKind::Insert, 10);
    input.push('d');
    cursor = 4;
    // same kind within 500 ms: no new snapshot
    u.maybe_push_at(&input, cursor, OpKind::Insert, 400);
    input.push('e');
    cursor = 5;
    // after a pause: new snapshot
    u.maybe_push_at(&input, cursor, OpKind::Insert, 1000);
    input.push('f');
    cursor = 6;
    u.undo(&mut input, &mut cursor);
    assert_eq!((input.as_str(), cursor), ("abcde", 5));
    u.undo(&mut input, &mut cursor);
    assert_eq!((input.as_str(), cursor), ("abc", 3));
    u.undo(&mut input, &mut cursor);
    assert_eq!((input.as_str(), cursor), ("abc", 3));
}

#[test]
fn undo_keeps_cursor_within_graphemes() {
    let mut u = UndoMgr::new_at(0);
    let snap = s("e\u{301}");
    u.maybe_push_at(&snap, 5, OpKind::Other, 1000);
    let mut input = s("zzz");
    let mut cursor = 3usize;
    u.undo(&mut input, &mut cursor);
    assert_eq!(input, snap);
    assert_eq!(cursor, 1);
}

#[test]
fn undo_depth_is_bounded() {
    let mut u = UndoMgr::new();
    for i in 0..250 {
        let kind = if i % 2 == 0 { OpKind::Insert } else { OpKind::Other };
        u.maybe_push_at(&format!("{i}"), 0, kind, 0);
    }
    let mut input = s("");
    let mut cursor = 0usize;
    u.undo(&mut input, &mut cursor);
    assert_eq!(input, "249");
    for _ in 1..200 {
        u.undo(&mut input, &mut cursor);
    }
    // only the newest 200 snapshots were kept
    assert_eq!(input, "50");
    input = s("after");
    u.undo(&mut input, &mut cursor);
    assert_eq!(input, "after");
}

#[test]
fn png_encoding() {
    let px = vec![255u8; 4 * 2 * 3];
    let png = encode_rgba_as_png(&px, 2, 3).unwrap();
    assert_eq!(&png[..8], &[0x89, b'P', b'N', b'G', 0x0d, 0x0a, 0x1a, 0x0a]);
    assert_eq!(encode_rgba_as_png(&px, 3, 3), Err(PngError::SizeMismatch));
}

#[test]
fn image_payload_and_classification() {
    let p = image_payload(&[1, 2, 3]);
    assert_eq!(p, "/IMGDATAAQID");
    assert!(matches!(classify_body(&p), Body::Image(ref v) if v == &vec![1u8, 2, 3]));
    assert!(matches!(classify_body("/IMGDATA%%%"), Body::BadImage));
    assert!(matches!(classify_body("hello"), Body::Text));
    assert_eq!(heartbeat_line(), "$$ping$$\n");
}

#[test]
fn handshake_failures_are_classified() {
    let key = pwd_hash("k");
    let (mut hs, auth) = ClientHandshake::start(key, s("n"), None, 1_700_000_000);
    assert!(auth.starts_with("AUTH "));
    assert!(matches!(hs.on_line("ERR BadAuth"), Err(HandshakeError::BadAuth)));
    assert_eq!(hs.stage, Stage::Failed);

    let (mut hs, _) = ClientHandshake::start(key, s("n"), None, 1_700_000_000);
    assert!(matches!(hs.on_line("ERR NeedAUTH"), Err(HandshakeError::NeedAuth)));

    let (mut hs, _) = ClientHandshake::start(key, s("n"), None, 1_700_000_000);
    assert!(matches!(hs.on_line("whatever"), Err(HandshakeError::Declined(ref d)) if d == "whatever"));

    let (mut hs, _) = ClientHandshake::start(key, s("n"), None, 1_700_000_000);
    assert!(matches!(hs.on_line(&server_seal(s("OK"), &key)), Ok(None)));
    assert!(matches!(hs.on_line(&server_seal(s("HELLO"), &key)), Err(HandshakeError::UnexpectedBanner(ref b)) if b == "HELLO"));

    let (mut hs, _) = ClientHandshake::start(key, s("n"), None, 1_700_000_000);
    hs.on_line(&server_seal(s("OK"), &key)).ok();
    assert!(matches!(hs.on_line(&server_seal(s("ROOMS a b\n"), &key)), Ok(None)));
    assert_eq!(hs.stage, Stage::ChooseRoom);
    assert_eq!(hs.rooms, vec![s("a"), s("b")]);
    let cmd = hs.choose_room(s("a"), s("pw"));
    assert!(cmd.starts_with("JOIN a "));
    assert!(cmd.ends_with(" n"));
    assert!(matches!(hs.on_line("ERR RoomExists"), Err(HandshakeError::Room(RoomError::RoomExists))));

    let (mut hs, _) = ClientHandshake::start(key, s("n"), None, 1_700_000_000);
    hs.on_line(&server_seal(s("OK"), &key)).ok();
    hs.on_line(&server_seal(s("ROOMS\n"), &key)).ok();
    let cmd = hs.choose_room(s("new"), s(""));
    assert!(cmd.starts_with("CREATE new "));
    assert!(matches!(hs.on_line("something else"), Err(HandshakeError::Refused(ref r)) if r == "something else"));
}

#[test]
fn message_list_is_bounded() {
    let mut m: Vec<ChatMessage> = (0..500).map(|i| ChatMessage::Text(format!("{i}"))).collect();
    retain_recent(&mut m);
    assert_eq!(m.len(), 500);
    m.push(ChatMessage::Text(s("500")));
    retain_recent(&mut m);
    assert_eq!(m.len(), 401);
    assert!(matches!(&m[0], ChatMessage::Text(t) if t == "100"));
}

#[test]
fn selection_follows_the_bottom_only() {
    assert_eq!(follow_selection(None, 0), Some(0));
    assert_eq!(follow_selection(Some(4), 5), Some(5));
    assert_eq!(follow_selection(Some(2), 5), Some(2));
}

#[test]
fn handshake_line_has_one_newline_at_the_end() {
    let key = pwd_hash("k");
    let bytes = rust_chat::handshake::handshake_writeall_macro(s("JOIN R tag n"), &key);
    assert_eq!(bytes.last(), Some(&b'\n'));
    let body = std::str::from_utf8(&bytes[..bytes.len() - 1]).unwrap();
    assert!(!body.contains('\n'));
    assert_eq!(rust_chat::envelope::server_open(body, &key), Some(s("JOIN R tag n")));
}
