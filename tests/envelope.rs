use base64::Engine;
use rust_chat::auth::{
    auth_token_at, chacha_once, chacha_salt_open, dec_auth_at, enc_auth, enc_auth_at, enc_invite_pwd, pwd_hash,
};
use rust_chat::envelope::{key_for_period, period_key, server_open, server_seal, server_seal_with};
use rust_chat::invite::{derive_invite_key, inviation_clear, invitation_code_with, open_invitation, seal_invitation};
use rust_chat::room_cipher::{credential_tag, open, room_digest, room_key, seal, seal_with};

fn key() -> [u8; 32] {
    pwd_hash("Vrepol")
}

#[test]
fn period_key_tiles_big_endian_period_number() {
    // 95 / 30 = 3
    let k = period_key(95);
    let mut expected = [0u8; 32];
    for i in 0..4 {
        expected[i * 8 + 7] = 3;
    }
    assert_eq!(k, expected);
}

#[test]
fn period_key_rounds_negative_timestamps_toward_zero() {
    // -45 / 30 rounds to -1: all bytes 0xff
    assert_eq!(period_key(-45), [0xffu8; 32]);
    // -29 / 30 rounds to 0
    assert_eq!(period_key(-29), [0u8; 32]);
    assert_eq!(period_key(0), [0u8; 32]);
}

#[test]
fn period_key_changes_at_period_boundary() {
    assert_eq!(period_key(30), period_key(59));
    assert_ne!(period_key(59), period_key(60));
    assert_eq!(key_for_period(1000, 500), key_for_period(1499, 500));
    assert_ne!(key_for_period(1499, 500), key_for_period(1500, 500));
    assert_eq!(derive_invite_key(1000), key_for_period(1000, 500));
}

#[test]
fn pwd_hash_is_sha256() {
    let h = pwd_hash("abc");
    let hex: String = h.iter().map(|b| format!("{:02x}", b)).collect();
    assert_eq!(hex, "ba7816bf8f01cfea414140de5dae2223b00361a396177a9cb410ff61f20015ad");
}

#[test]
fn transport_round_trip() {
    let k = key();
    for p in ["", "OK", "hello, world", "\u{26a1} [Alice] joined.", "ROOMS a b\n"] {
        let f = server_seal(p.to_string(), &k);
        assert_eq!(server_open(&f, &k), Some(p.to_string()));
        assert_ne!(f, p);
    }
}

#[test]
fn transport_frames_are_fresh() {
    let k = key();
    let a = server_seal("same".to_string(), &k);
    let b = server_seal("same".to_string(), &k);
    assert_ne!(a, b);
}

#[test]
fn transport_open_fails_under_another_key() {
    let f = server_seal("secret".to_string(), &key());
    assert_eq!(server_open(&f, &pwd_hash("other")), None);
}

#[test]
fn transport_open_rejects_garbage() {
    let k = key();
    assert_eq!(server_open("not base64!", &k), None);
    assert_eq!(server_open("AAAA", &k), None);
    assert_eq!(server_open("", &k), None);
}

#[test]
fn transport_tamper_detection() {
    let k = key();
    let f = server_seal("tamper me please".to_string(), &k);
    let raw = base64::engine::general_purpose::STANDARD.decode(&f).unwrap();
    // salt (16) and nonce (12) come first; every byte after them is ciphertext or tag
    for i in 28..raw.len() {
        for bit in [0x01u8, 0x80u8] {
            let mut t = raw.clone();
            t[i] ^= bit;
            let line = base64::engine::general_purpose::STANDARD.encode(&t);
            assert_eq!(server_open(&line, &k), None, "flip at byte {i}");
        }
    }
}

#[test]
fn transport_seal_with_is_deterministic() {
    let k = key();
    let salt = [7u8; 16];
    let nonce = [9u8; 12];
    let a = server_seal_with("x", &k, &salt, &nonce);
    let b = server_seal_with("x", &k, &salt, &nonce);
    assert_eq!(a, b);
    assert_eq!(server_open(&a, &k), Some("x".to_string()));
}

#[test]
fn room_round_trip() {
    let d = room_digest("R", "pw");
    let rk = room_key(&d);
    for p in ["", "hi", "/IMGDATAabcd", "\u{4f60}\u{597d}"] {
        let f = seal(p, &rk);
        assert!(f.starts_with("ENC:"));
        assert_eq!(open(&f, &rk), Some(p.to_string()));
    }
}

#[test]
fn room_open_needs_marker() {
    let rk = room_key(&room_digest("R", "pw"));
    assert_eq!(open("plain text", &rk), None);
    assert_eq!(open("ENC:", &rk), None);
    assert_eq!(open("ENC:!!!", &rk), None);
}

#[test]
fn room_seal_with_known_nonce_differs_from_plaintext() {
    let rk = room_key(&room_digest("R", "pw"));
    let a = seal_with("hello", &rk, &[0u8; 12]);
    let b = seal_with("hello", &rk, &[1u8; 12]);
    assert_ne!(a, b);
    assert_eq!(open(&a, &rk), Some("hello".to_string()));
}

#[test]
fn room_key_is_digest_twice() {
    let d = room_digest("Public", "");
    // md5("Public")
    let hex: String = d.iter().map(|b| format!("{:02x}", b)).collect();
    assert_eq!(hex, "3d067bedfe2f4677470dd6ccf64d05ed");
    let k = room_key(&d);
    assert_eq!(&k[..16], &d[..]);
    assert_eq!(&k[16..], &d[..]);
}

#[test]
fn credential_tag_is_deterministic_hex() {
    let t1 = credential_tag(&room_digest("R", "X"));
    let t2 = credential_tag(&room_digest("R", "X"));
    let t3 = credential_tag(&room_digest("R", "Y"));
    assert_eq!(t1, t2);
    assert_ne!(t1, t3);
    assert_eq!(t1.len(), 64);
    assert_eq!(
        credential_tag(&room_digest("MyRoom", "secret")),
        "200944f53aec23408d2eb1d3b18d5aaff474d9624ed39fe3044e212d318797ee"
    );
    assert!(t1.chars().all(|c| c.is_ascii_hexdigit() && !c.is_ascii_uppercase()));
}

#[test]
fn auth_window_accepts_neighbouring_periods() {
    let t: i64 = 1_700_000_000;
    let tok = enc_auth_at("Vrepol", t);
    let h = pwd_hash("Vrepol");
    assert!(dec_auth_at(&tok, &h, t - 30));
    assert!(dec_auth_at(&tok, &h, t));
    assert!(dec_auth_at(&tok, &h, t + 30));
}

#[test]
fn auth_window_rejects_two_periods_earlier() {
    let t: i64 = 1_700_000_000;
    let tok = enc_auth_at("Vrepol", t);
    let h = pwd_hash("Vrepol");
    assert!(!dec_auth_at(&tok, &h, t - 60));
    assert!(!dec_auth_at(&tok, &h, t + 90));
}

#[test]
fn auth_rejects_wrong_password_and_garbage() {
    let t: i64 = 1_700_000_000;
    let tok = enc_auth_at("right", t);
    assert!(!dec_auth_at(&tok, &pwd_hash("wrong"), t));
    assert!(!dec_auth_at("%%%", &pwd_hash("right"), t));
    assert!(!dec_auth_at("", &pwd_hash("right"), t));
}

#[test]
fn auth_token_from_hash_matches_password_token() {
    let t: i64 = 1_700_000_123;
    let h = pwd_hash("pw");
    let tok = auth_token_at(&h, t);
    assert!(dec_auth_at(&tok, &h, t));
    let now_tok = enc_auth("pw");
    assert!(rust_chat::auth::dec_auth(&now_tok, &h));
}

#[test]
fn salted_layer_round_trip() {
    let k = [3u8; 32];
    let c = chacha_once(b"payload", &k);
    assert_eq!(c.len(), 7 + 16);
    assert_eq!(chacha_salt_open(&c, &k), Some(b"payload".to_vec()));
    assert_eq!(chacha_salt_open(&[1u8; 15], &k), None);
    assert_eq!(chacha_salt_open(&[1u8; 16], &k), Some(vec![]));
}

#[test]
fn invite_password_layer_opens_with_its_hash() {
    let enc = enc_invite_pwd("pw");
    let raw = base64::engine::general_purpose::STANDARD.decode(enc).unwrap();
    assert_eq!(chacha_salt_open(&raw, &pwd_hash("pw")), Some(b"pw".to_vec()));
}

#[test]
fn invitation_round_trip_in_same_window() {
    let payload = br#"{"server":"127.0.0.1:6655"}"#;
    let t: i64 = 1_700_000_000; // period 3_400_000 spans [1_700_000_000, 1_700_000_499]
    let code = seal_invitation(payload, t);
    let inv = format!("/INVITE:{code}");
    assert_eq!(open_invitation(&inv, t), Some(payload.to_vec()));
    assert_eq!(open_invitation(&inv, t + 499), Some(payload.to_vec()));
    assert_ne!(open_invitation(&inv, t + 500), Some(payload.to_vec()));
}

#[test]
fn invitation_accepts_hex_codes() {
    // hex digits are Base64 characters too: the hex reading applies only to codes that
    // URL-safe Base64 rejects, such as one of odd byte length whose last digit leaves
    // trailing bits set
    let payload = b"hello invit";
    let t: i64 = 1_000;
    let mut tried = 0;
    for n in 0u8..=255 {
        let nonce = [n; 12];
        let code = invitation_code_with(payload, t, &nonce);
        let bytes = base64::engine::general_purpose::URL_SAFE_NO_PAD.decode(&code).unwrap();
        let hex_code: String = bytes.iter().map(|b| format!("{:02x}", b)).collect();
        if base64::engine::general_purpose::URL_SAFE_NO_PAD.decode(&hex_code).is_ok() {
            continue;
        }
        tried += 1;
        assert_eq!(open_invitation(&format!("/INVITE:{hex_code}"), t), Some(payload.to_vec()));
    }
    assert!(tried > 0);
}

#[test]
fn invitation_rejects_bad_text() {
    assert_eq!(open_invitation("INVITE:abc", 0), None);
    assert_eq!(open_invitation("/INVITE:", 0), None);
    assert_eq!(open_invitation("/INVITE:***", 0), None);
    assert_eq!(open_invitation("/INVITE:abc", 0), None);
}

#[test]
fn inviation_clear_drops_invitations_only() {
    assert_eq!(inviation_clear("/INVITE:xyz"), "");
    assert_eq!(inviation_clear("hello"), "hello");
    assert_eq!(inviation_clear(" /INVITE:xyz"), " /INVITE:xyz");
}

#[test]
fn transport_frame_known_answer() {
    let f = server_seal_with("OK", &key(), &[7u8; 16], &[9u8; 12]);
    assert_eq!(f, "BwcHBwcHBwcHBwcHBwcHBwkJCQkJCQkJCQkJCTG0KcXTt1LO0eslPFK+MuxAHw==");
}

#[test]
fn room_frame_known_answer() {
    let rk = room_key(&room_digest("R", "pw"));
    assert_eq!(seal_with("hello", &rk, &[0u8; 12]), "ENC:AAAAAAAAAAAAAAAAbZ3Dg2o=");
}

#[test]
fn auth_token_known_answer() {
    let t = rust_chat::auth::auth_token_with(&key(), 1_700_000_000, &[1u8; 16], &[2u8; 16]);
    assert_eq!(t, "AgICAgICAgICAgICAgICAh0RtbxkzQ15D8J/Ln/CFUOcp8C0dxl3whI259K/KLQ=");
    assert!(dec_auth_at(&t, &key(), 1_700_000_000));
}

#[test]
fn invitation_code_known_answer() {
    let code = invitation_code_with(b"hello invite", 1_700_000_000, &[5u8; 12]);
    assert_eq!(code, "BQUFBQUFBQUFBQUFreLymylicuG9b9yS");
}

#[test]
fn transport_frame_length_and_alphabet() {
    let k = key();
    for p in ["", "a", "hello", "\u{4f60}\u{597d}"] {
        let f = server_seal(p.to_string(), &k);
        assert_eq!(f.len(), 4 * ((44 + p.len() + 2) / 3));
        assert!(f.chars().all(|c| c.is_ascii_alphanumeric() || c == '+' || c == '/' || c == '='));
        let raw = base64::engine::general_purpose::STANDARD.decode(&f).unwrap();
        assert_eq!(raw.len(), 44 + p.len());
    }
}

#[test]
fn transport_open_refuses_frames_shorter_than_salt_nonce_tag() {
    let k = key();
    for n in [0usize, 16, 28, 30, 43] {
        let line = base64::engine::general_purpose::STANDARD.encode(vec![0u8; n]);
        assert_eq!(server_open(&line, &k), None, "{n} bytes");
    }
}
