use vstd::prelude::*;
use vstd::utf8::*;
use crate::bytes::{concat_bytes, sub_bytes};
use crate::text::trim_end_spec;
use crate::primitives::{
    aead_decrypt, aead_encrypt, aead_seal_of, base64_decode, base64_encode, base64_std,
    base64_std_decoded, cipher_input_ok, hkdf_sha256, is_base64_std_char, hkdf_sha256_of, random_bytes, utf8_decode,
};

verus! {

/// Length of the authentication period in seconds.
pub const PERIOD: i64 = 30;

/// The period number of a timestamp: the timestamp divided by the period length,
/// rounded toward zero.
pub open spec fn period_id(ts: int, period: int) -> int {
    if ts >= 0 {
        ts / period
    } else {
        -((-ts) / period)
    }
}

/// The eight big-endian bytes of the two's-complement form of `x`.
pub open spec fn be_bytes(x: i64) -> Seq<u8> {
    let u = if x >= 0 { x as int } else { x + 0x1_0000_0000_0000_0000int };
    Seq::new(8, |j: int| ((u / pow256(7 - j)) % 256) as u8)
}

pub open spec fn pow256(n: int) -> int
    decreases n,
{
    if n <= 0 { 1 } else { 256 * pow256(n - 1) }
}

/// A 32-byte key made by repeating the eight bytes of a period number four times.
pub open spec fn period_key_of(ts: int, period: int) -> Seq<u8> {
    let b = be_bytes(period_id(ts, period) as i64);
    Seq::new(32, |i: int| b[i % 8])
}

fn quotient_toward_zero(ts: i64, period: i64) -> (q: i64)
    requires
        period >= 2,
    ensures
        q == period_id(ts as int, period as int),
{
    if ts >= 0 {
        ts / period
    } else {
        let m: u64 = (-(ts + 1)) as u64 + 1;
        assert(m == -(ts as int));
        let q: u64 = m / (period as u64);
        assert(q <= m / 2) by {
            vstd::arithmetic::div_mod::lemma_div_is_ordered_by_denominator(m as int, 2, period as int);
        }
        -(q as i64)
    }
}

/// Two's-complement big-endian bytes of `x`.
fn i64_to_be_bytes(x: i64) -> (r: Vec<u8>)
    ensures
        r@ == be_bytes(x),
{
    let mut u: u64 = if x >= 0 { x as u64 } else { ((x + 1) + i64::MAX) as u64 + 0x8000_0000_0000_0000u64 };
    let ghost u0: int = u as int;
    let mut rev: Vec<u8> = Vec::new();
    let mut k: usize = 0;
    while k < 8
        invariant
            0 <= k <= 8,
            rev.len() == k,
            0 <= u0,
            u as int == u0 / pow256(k as int),
            forall|j: int| 0 <= j < k ==> rev@[j] == ((u0 / pow256(j)) % 256) as u8,
        decreases 8 - k,
    {
        proof {
            assert(pow256(k as int + 1) == 256 * pow256(k as int));
            lemma_pow256_pos(k as int);
            vstd::arithmetic::div_mod::lemma_div_denominator(u0, pow256(k as int), 256);
        }
        rev.push((u % 256) as u8);
        u = u / 256;
        k = k + 1;
    }
    let mut r: Vec<u8> = Vec::new();
    let mut i: usize = 0;
    while i < 8
        invariant
            0 <= i <= 8,
            rev.len() == 8,
            r.len() == i,
            forall|j: int| 0 <= j < 8 ==> rev@[j] == ((u0 / pow256(j)) % 256) as u8,
            forall|j: int| 0 <= j < i ==> r@[j] == rev@[7 - j],
        decreases 8 - i,
    {
        r.push(rev[7 - i]);
        i = i + 1;
    }
    assert(r@ =~= be_bytes(x));
    r
}

proof fn lemma_pow256_pos(n: int)
    ensures
        pow256(n) > 0,
    decreases n,
{
    if n > 0 {
        lemma_pow256_pos(n - 1);
    }
}

/// The key of the period of length `period` that holds `ts`: the period number, as
/// eight big-endian bytes, repeated to fill 32 bytes.
pub fn key_for_period(ts: i64, period: i64) -> (key: [u8; 32])
    requires
        period >= 2,
    ensures
        key@ == period_key_of(ts as int, period as int),
{
    let pid = quotient_toward_zero(ts, period);
    let bytes = i64_to_be_bytes(pid);
    let mut key: [u8; 32] = [0u8; 32];
    let mut i: usize = 0;
    while i < 32
        invariant
            0 <= i <= 32,
            bytes@ == be_bytes(pid),
            pid == period_id(ts as int, period as int),
            forall|j: int| 0 <= j < i ==> key@[j] == bytes@[j % 8],
        decreases 32 - i,
    {
        key[i] = bytes[i % 8];
        i = i + 1;
    }
    assert(key@ =~= period_key_of(ts as int, period as int));
    key
}

/// The key of the authentication period that holds timestamp `ts`.
pub fn period_key(ts: i64) -> (key: [u8; 32])
    ensures
        key@ == period_key_of(ts as int, PERIOD as int),
{
    key_for_period(ts, PERIOD)
}

// ------------------------------------------------------------------------------------
// Transport envelope: authenticated, with a one-time key per frame.
// ------------------------------------------------------------------------------------

/// The HKDF `info` label of transport keys: the bytes of "enc".
pub open spec fn enc_info() -> Seq<u8> {
    seq![101u8, 110u8, 99u8]
}

/// Whether a text is short enough, in UTF-8, to be sealed in one frame.
pub open spec fn sealable(plain: Seq<char>) -> bool {
    cipher_input_ok(encode_utf8(plain).len() as int)
}

/// The transport frame of `plain` under the server key `key`, with the given salt and
/// nonce: Base64 of salt, nonce, and the AEAD sealing under the key that HKDF derives
/// from `key` and the salt.
pub open spec fn transport_frame(key: Seq<u8>, salt: Seq<u8>, nonce: Seq<u8>, plain: Seq<char>) -> Seq<char> {
    base64_std(salt + nonce + aead_seal_of(hkdf_sha256_of(salt, key, enc_info()), nonce, encode_utf8(plain)))
}

/// Whether `line` is a transport frame of `plain` under `key`, for some 16-byte salt and
/// 12-byte nonce.
pub open spec fn is_transport_frame(key: Seq<u8>, line: Seq<char>, plain: Seq<char>) -> bool {
    exists|salt: Seq<u8>, nonce: Seq<u8>|
        salt.len() == 16 && nonce.len() == 12 && #[trigger] transport_frame(key, salt, nonce, plain) == line
            && sealing_len_ok(key, salt, nonce, plain)
}

/// The sealing in a frame is the text's UTF-8 bytes and a 16-byte tag.
pub open spec fn sealing_len_ok(key: Seq<u8>, salt: Seq<u8>, nonce: Seq<u8>, plain: Seq<char>) -> bool {
    aead_seal_of(hkdf_sha256_of(salt, key, enc_info()), nonce, encode_utf8(plain)).len() == encode_utf8(plain).len() + 16
}

fn enc_info_bytes() -> (r: Vec<u8>)
    ensures
        r@ == enc_info(),
{
    let r: Vec<u8> = vec![101u8, 110u8, 99u8];
    assert(r@ =~= enc_info());
    r
}

/// Seals `plain` for the transport with a given salt and nonce.
pub fn server_seal_with(plain: &str, key: &[u8; 32], salt: &[u8], nonce: &[u8]) -> (r: String)
    requires
        salt@.len() == 16,
        nonce@.len() == 12,
        sealable(plain@),
    ensures
        r@ == transport_frame(key@, salt@, nonce@, plain@),
        sealing_len_ok(key@, salt@, nonce@, plain@),
        base64_std_decoded(r@) matches Some(d) && d.len() == 44 + encode_utf8(plain@).len(),
        r@.len() == 4 * ((44 + encode_utf8(plain@).len() + 2) / 3),
        forall|i: int| 0 <= i < r@.len() ==> is_base64_std_char(#[trigger] r@[i]),
        trim_end_spec(r@) == r@,
{
    let info = enc_info_bytes();
    let k = hkdf_sha256(salt, key.as_slice(), info.as_slice());
    let sealed = aead_encrypt(k.as_slice(), nonce, plain.as_bytes());
    let head = concat_bytes(salt, nonce);
    let all = concat_bytes(head.as_slice(), sealed.as_slice());
    let r = base64_encode(all.as_slice());
    proof {
        assert(base64_std_decoded(r@) == Some(all@)) by {
            let b = choose|b: Seq<u8>| base64_std(b) == r@;
            assert(base64_std(b) == r@);
        }
        if r@.len() > 0 {
            assert(is_base64_std_char(r@[r@.len() - 1]));
        }
    }
    r
}

/// Seals `plain` for the transport under the server key, with a fresh random salt and
/// nonce.
pub fn server_seal(plain: String, key: &[u8; 32]) -> (r: String)
    requires
        sealable(plain@),
    ensures
        is_transport_frame(key@, r@, plain@),
        base64_std_decoded(r@) matches Some(d) && d.len() == 44 + encode_utf8(plain@).len(),
        r@.len() == 4 * ((44 + encode_utf8(plain@).len() + 2) / 3),
        forall|i: int| 0 <= i < r@.len() ==> is_base64_std_char(#[trigger] r@[i]),
        trim_end_spec(r@) == r@,
{
    let salt = random_bytes(16);
    let nonce = random_bytes(12);
    let r = server_seal_with(plain.as_str(), key, salt.as_slice(), nonce.as_slice());
    assert(transport_frame(key@, salt@, nonce@, plain@) == r@);
    r
}

/// Opens a transport frame: the text it seals under `key`, or `None` when `line` is not
/// a transport frame under `key`.
pub fn server_open(line: &str, key: &[u8; 32]) -> (r: Option<String>)
    ensures
        forall|p: Seq<char>| sealable(p) && is_transport_frame(key@, line@, p) ==> r is Some && r->0@ == p,
        r matches Some(s) ==> is_transport_frame(key@, line@, s@),
        base64_std_decoded(line@) matches Some(d) && d.len() < 44 ==> r is None,
{
    let decoded = match base64_decode(line) {
        Some(d) => d,
        None => return None,
    };
    assert(base64_std_decoded(line@) == Some(decoded@)) by {
        let b = choose|b: Seq<u8>| base64_std(b) == line@;
        assert(base64_std(b) == line@);
    }
    let n = decoded.len();
    if n < 44 {
        proof { lemma_transport_frame_parts(key@, line@, decoded@); }
        return None;
    }
    let salt = sub_bytes(decoded.as_slice(), 0, 16);
    let nonce = sub_bytes(decoded.as_slice(), 16, 28);
    let sealed = sub_bytes(decoded.as_slice(), 28, n);
    assert(decoded@ =~= salt@ + nonce@ + sealed@);
    let info = enc_info_bytes();
    let k = hkdf_sha256(salt.as_slice(), key.as_slice(), info.as_slice());
    let opened = match aead_decrypt(k.as_slice(), nonce.as_slice(), sealed.as_slice()) {
        Some(v) => v,
        None => {
            proof { lemma_transport_frame_parts(key@, line@, decoded@); }
            return None;
        }
    };
    let ghost bytes = opened@;
    let r = utf8_decode(opened);
    proof {
        lemma_transport_frame_parts(key@, line@, decoded@);
        if r is Some {
            decode_utf8_encode_utf8(bytes);
            assert(transport_frame(key@, salt@, nonce@, r->0@) == line@);
        }
        assert forall|p: Seq<char>| sealable(p) && is_transport_frame(key@, line@, p) implies r is Some && r->0@ == p by {
            encode_utf8_valid_utf8(p);
            encode_utf8_decode_utf8(p);
        }
    }
    r
}

/// Every transport frame of a text decodes to 16 bytes of salt, 12 of nonce and the sealing.
proof fn lemma_transport_frame_parts(key: Seq<u8>, line: Seq<char>, decoded: Seq<u8>)
    requires
        base64_std(decoded) == line,
        forall|b: Seq<u8>| #[trigger] base64_std(b) == line ==> b == decoded,
    ensures
        forall|p: Seq<char>| #[trigger] is_transport_frame(key, line, p) ==> {
            let salt = decoded.subrange(0, 16);
            let nonce = decoded.subrange(16, 28);
            &&& decoded.len() == 44 + encode_utf8(p).len()
            &&& decoded.subrange(28, decoded.len() as int) == aead_seal_of(
                hkdf_sha256_of(salt, key, enc_info()),
                nonce,
                encode_utf8(p),
            )
        },
{
    assert forall|p: Seq<char>| #[trigger] is_transport_frame(key, line, p) implies {
        let salt = decoded.subrange(0, 16);
        let nonce = decoded.subrange(16, 28);
        &&& decoded.len() == 44 + encode_utf8(p).len()
        &&& decoded.subrange(28, decoded.len() as int) == aead_seal_of(
            hkdf_sha256_of(salt, key, enc_info()),
            nonce,
            encode_utf8(p),
        )
    } by {
        let (salt, nonce) = choose|salt: Seq<u8>, nonce: Seq<u8>|
            salt.len() == 16 && nonce.len() == 12 && #[trigger] transport_frame(key, salt, nonce, p) == line
                && sealing_len_ok(key, salt, nonce, p);
        let sealed = aead_seal_of(hkdf_sha256_of(salt, key, enc_info()), nonce, encode_utf8(p));
        assert(base64_std(salt + nonce + sealed) == line);
        assert(salt + nonce + sealed == decoded);
        assert(decoded.subrange(0, 16) =~= salt);
        assert(decoded.subrange(16, 28) =~= nonce);
        assert(decoded.subrange(28, decoded.len() as int) =~= sealed);
    }
}

/// What `server_open` guarantees of its result `opened` for `line` under `key`.
pub open spec fn opens_as(key: Seq<u8>, line: Seq<char>, opened: Option<Seq<char>>) -> bool {
    &&& forall|p: Seq<char>| sealable(p) && is_transport_frame(key, line, p) ==> opened == Some(p)
    &&& opened matches Some(o) ==> is_transport_frame(key, line, o)
}

/// Transport round trip: whatever `server_seal` returns for a text under a key,
/// `server_open` opens under that key to the same text.
pub proof fn lemma_transport_round_trip(key: Seq<u8>, plain: Seq<char>, frame: Seq<char>, opened: Option<Seq<char>>)
    requires
        sealable(plain),
        is_transport_frame(key, frame, plain),
        opens_as(key, frame, opened),
    ensures
        opened == Some(plain),
{
}

} // verus!
