//! The room envelope (`ENC:` + Base64 of nonce and ChaCha20 ciphertext) and the key
//! material that room members derive from the room id and password.

use vstd::prelude::*;
use vstd::utf8::*;
use crate::bytes::{chars_of, concat_bytes, has_prefix, join2, string_of, sub_bytes};
use crate::envelope::sealable;
use crate::primitives::{base64_decode, base64_encode, base64_std, chacha20_apply, chacha20_of, hex_encode, hex_lower, hmac_sha256, hmac_sha256_of, md5, md5_of, random_bytes, utf8_decode};

verus! {

/// The marker that starts every room frame.
pub open spec fn enc_prefix() -> Seq<char> {
    seq!['E', 'N', 'C', ':']
}

/// Whether `line` is a room frame of `plain` under `key`: the marker, then Base64 of a
/// 12-byte nonce and a ciphertext as long as `plain`'s UTF-8 bytes, which the keystream
/// of `key` and that nonce turns into those bytes.
pub open spec fn is_room_frame(key: Seq<u8>, line: Seq<char>, plain: Seq<char>) -> bool {
    exists|iv: Seq<u8>, ct: Seq<u8>|
        iv.len() == 12 && ct.len() == encode_utf8(plain).len() && #[trigger] chacha20_of(key, iv, ct)
            == encode_utf8(plain) && line == enc_prefix() + base64_std(iv + ct)
}

fn enc_marker() -> (r: Vec<char>)
    ensures
        r@ == enc_prefix(),
{
    let r: Vec<char> = vec!['E', 'N', 'C', ':'];
    assert(r@ =~= enc_prefix());
    r
}

/// Seals `plain` in the room layer with a given nonce.
pub fn seal_with(plain: &str, key: &[u8; 32], iv: &[u8]) -> (r: String)
    requires
        iv@.len() == 12,
        sealable(plain@),
    ensures
        exists|ct: Seq<u8>|
            ct.len() == encode_utf8(plain@).len() && #[trigger] chacha20_of(key@, iv@, ct) == encode_utf8(plain@)
                && r@ == enc_prefix() + base64_std(iv@ + ct),
        is_ascii_chars(r@),
        r@.len() == 4 + 4 * ((encode_utf8(plain@).len() + 14) / 3),
{
    let ct = chacha20_apply(key.as_slice(), iv, plain.as_bytes());
    let all = concat_bytes(iv, ct.as_slice());
    let body = base64_encode(all.as_slice());
    let m = enc_marker();
    let head = string_of(m.as_slice(), 0, 4);
    assert(m@.subrange(0, 4) =~= enc_prefix());
    let r = join2(head.as_str(), body.as_str());
    assert(chacha20_of(key@, iv@, ct@) == encode_utf8(plain@));
    assert(is_ascii_chars(r@)) by {
        assert forall|i: int| 0 <= i < r@.len() implies '\0' <= #[trigger] r@[i] <= '\u{7f}' by {
            if i >= 4 {
                assert(r@[i] == body@[i - 4]);
            }
        }
    }
    r
}

/// Seals `plain` in the room layer under `key`, with a fresh random nonce.
pub fn seal(plain: &str, key: &[u8; 32]) -> (r: String)
    requires
        sealable(plain@),
    ensures
        is_room_frame(key@, r@, plain@),
        is_ascii_chars(r@),
        r@.len() == 4 + 4 * ((encode_utf8(plain@).len() + 14) / 3),
{
    let iv = random_bytes(12);
    seal_with(plain, key, iv.as_slice())
}

/// Opens a room frame: the text it seals under `key`, or `None` when `line` is not a
/// room frame under `key` (in particular when it lacks the `ENC:` marker).
pub fn open(line: &str, key: &[u8; 32]) -> (r: Option<String>)
    ensures
        forall|p: Seq<char>| sealable(p) && is_room_frame(key@, line@, p) ==> r is Some && r->0@ == p,
        r matches Some(s) ==> is_room_frame(key@, line@, s@),
{
    let cs = chars_of(line);
    let m = enc_marker();
    if !has_prefix(cs.as_slice(), m.as_slice()) {
        proof {
            assert forall|p: Seq<char>| is_room_frame(key@, line@, p) implies false by {
                let (iv, ct) = choose|iv: Seq<u8>, ct: Seq<u8>|
                    iv.len() == 12 && ct.len() == encode_utf8(p).len() && #[trigger] chacha20_of(key@, iv, ct)
                        == encode_utf8(p) && line@ == enc_prefix() + base64_std(iv + ct);
                assert(cs@.subrange(0, 4) =~= enc_prefix());
            }
        }
        return None;
    }
    let rest = string_of(cs.as_slice(), 4, cs.len());
    let decoded = match base64_decode(rest.as_str()) {
        Some(d) => d,
        None => {
            proof { lemma_room_frame_body(key@, line@, rest@); }
            return None;
        }
    };
    let n = decoded.len();
    if n < 12 || (n - 12) as u64 > 274_877_906_816u64 {
        proof { lemma_room_frame_body(key@, line@, rest@); }
        return None;
    }
    let iv = sub_bytes(decoded.as_slice(), 0, 12);
    let ct = sub_bytes(decoded.as_slice(), 12, n);
    assert(decoded@ =~= iv@ + ct@);
    let pt = chacha20_apply(key.as_slice(), iv.as_slice(), ct.as_slice());
    let ghost bytes = pt@;
    let r = utf8_decode(pt);
    proof {
        lemma_room_frame_body(key@, line@, rest@);
        if r is Some {
            decode_utf8_encode_utf8(bytes);
            assert(line@ =~= enc_prefix() + rest@);
        }
        assert forall|p: Seq<char>| sealable(p) && is_room_frame(key@, line@, p) implies r is Some && r->0@ == p by {
            let (iv2, ct2) = choose|iv2: Seq<u8>, ct2: Seq<u8>|
                iv2.len() == 12 && ct2.len() == encode_utf8(p).len() && #[trigger] chacha20_of(key@, iv2, ct2)
                    == encode_utf8(p) && rest@ == base64_std(iv2 + ct2);
            assert(decoded@ == iv2 + ct2);
            assert(iv@ =~= iv2);
            assert(ct@ =~= ct2);
            assert(bytes == encode_utf8(p));
            encode_utf8_valid_utf8(p);
            encode_utf8_decode_utf8(p);
        }
    }
    r
}

proof fn lemma_room_frame_body(key: Seq<u8>, line: Seq<char>, rest: Seq<char>)
    requires
        line.len() >= 4,
        line.subrange(0, 4) == enc_prefix(),
        rest == line.subrange(4, line.len() as int),
    ensures
        forall|p: Seq<char>| #[trigger] is_room_frame(key, line, p) ==> exists|iv: Seq<u8>, ct: Seq<u8>|
            iv.len() == 12 && ct.len() == encode_utf8(p).len() && #[trigger] chacha20_of(key, iv, ct)
                == encode_utf8(p) && rest == base64_std(iv + ct),
{
    assert forall|p: Seq<char>| #[trigger] is_room_frame(key, line, p) implies exists|iv: Seq<u8>, ct: Seq<u8>|
        iv.len() == 12 && ct.len() == encode_utf8(p).len() && #[trigger] chacha20_of(key, iv, ct)
            == encode_utf8(p) && rest == base64_std(iv + ct) by {
        let (iv, ct) = choose|iv: Seq<u8>, ct: Seq<u8>|
            iv.len() == 12 && ct.len() == encode_utf8(p).len() && #[trigger] chacha20_of(key, iv, ct)
                == encode_utf8(p) && line == enc_prefix() + base64_std(iv + ct);
        assert(rest =~= base64_std(iv + ct));
    }
}

/// The bytes of "Hello", the message whose keyed hash is a room's credential tag.
pub open spec fn hello_bytes() -> Seq<u8> {
    seq![72u8, 101u8, 108u8, 108u8, 111u8]
}

/// The room digest: MD5 of the room id followed by the room password.
pub fn room_digest(room_id: &str, pwd: &str) -> (r: [u8; 16])
    ensures
        r@ == md5_of(encode_utf8(room_id@ + pwd@)),
{
    let joined = join2(room_id, pwd);
    md5(joined.as_str().as_bytes())
}

/// The room's stream-cipher key: its 16-byte digest written twice.
pub fn room_key(digest: &[u8; 16]) -> (r: [u8; 32])
    ensures
        r@ == digest@ + digest@,
{
    let mut key: [u8; 32] = [0u8; 32];
    let mut i: usize = 0;
    while i < 32
        invariant
            0 <= i <= 32,
            forall|j: int| 0 <= j < i ==> key@[j] == digest@[j % 16],
        decreases 32 - i,
    {
        key[i] = digest[i % 16];
        i = i + 1;
    }
    assert(key@ =~= digest@ + digest@);
    key
}

/// The credential tag of a room: lower-case hex of HMAC-SHA-256 of "Hello" keyed by the
/// room digest. Equal ids and passwords always give equal tags.
pub fn credential_tag(digest: &[u8; 16]) -> (r: String)
    ensures
        r@ == hex_lower(hmac_sha256_of(digest@, hello_bytes())),
{
    let msg: Vec<u8> = vec![72u8, 101u8, 108u8, 108u8, 111u8];
    assert(msg@ =~= hello_bytes());
    let tag = hmac_sha256(digest.as_slice(), msg.as_slice());
    hex_encode(tag.as_slice())
}

/// What `open` guarantees of its result `opened` for `line` under `key`.
pub open spec fn room_opens_as(key: Seq<u8>, line: Seq<char>, opened: Option<Seq<char>>) -> bool {
    &&& forall|p: Seq<char>| sealable(p) && is_room_frame(key, line, p) ==> opened == Some(p)
    &&& opened matches Some(o) ==> is_room_frame(key, line, o)
}

/// Room round trip: whatever `seal` returns for a text under a room key, `open` opens
/// under that key to the same text.
pub proof fn lemma_room_round_trip(key: Seq<u8>, plain: Seq<char>, frame: Seq<char>, opened: Option<Seq<char>>)
    requires
        sealable(plain),
        is_room_frame(key, frame, plain),
        room_opens_as(key, frame, opened),
    ensures
        opened == Some(plain),
{
}

} // verus!
