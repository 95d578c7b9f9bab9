//! The outside functions the protocol is built from: randomness, the clock, Base64 and
//! hex text, digests, key derivation and the two ciphers. Each is a small wrapper whose
//! contract states what the called crate's documentation and source give.

use vstd::prelude::*;
use vstd::utf8::*;
use base64::Engine;
use chacha20::cipher::{KeyIvInit, StreamCipher};
use chacha20poly1305::aead::{Aead, KeyInit};
use hmac::Mac;
use rand::RngCore;
use sha2::Digest;

verus! {

/// The largest input that either cipher accepts from a fresh key and nonce: below
/// 2^32 - 1 blocks of 64 bytes.
pub open spec fn cipher_input_ok(len: int) -> bool {
    len <= 274_877_906_816
}

/// Standard Base64 (with padding) of `bytes`, as produced by `base64`'s `STANDARD` engine.
pub uninterp spec fn base64_std(bytes: Seq<u8>) -> Seq<char>;

/// A character of the standard Base64 alphabet, or its padding `=`.
pub open spec fn is_base64_std_char(c: char) -> bool {
    ('A' <= c && c <= 'Z') || ('a' <= c && c <= 'z') || ('0' <= c && c <= '9') || c == '+' || c == '/' || c == '='
}

/// URL-safe Base64 without padding of `bytes` (`base64`'s `URL_SAFE_NO_PAD` engine).
pub uninterp spec fn base64_url(bytes: Seq<u8>) -> Seq<char>;

/// SHA-256 digest of `bytes`.
pub uninterp spec fn sha256_of(bytes: Seq<u8>) -> Seq<u8>;

/// MD5 digest of `bytes`.
pub uninterp spec fn md5_of(bytes: Seq<u8>) -> Seq<u8>;

/// HMAC-SHA-256 of `msg` under `key`.
pub uninterp spec fn hmac_sha256_of(key: Seq<u8>, msg: Seq<u8>) -> Seq<u8>;

/// The first 32 bytes that HKDF-SHA-256 expands from `ikm`, salted by `salt`, for `info`.
pub uninterp spec fn hkdf_sha256_of(salt: Seq<u8>, ikm: Seq<u8>, info: Seq<u8>) -> Seq<u8>;

/// ChaCha20-Poly1305 ciphertext followed by its 16-byte tag, with empty associated data.
pub uninterp spec fn aead_seal_of(key: Seq<u8>, nonce: Seq<u8>, plain: Seq<u8>) -> Seq<u8>;

/// `data` XORed with the ChaCha20 keystream of `key` and `nonce`, from block 0.
pub uninterp spec fn chacha20_of(key: Seq<u8>, nonce: Seq<u8>, data: Seq<u8>) -> Seq<u8>;

/// The decoding of `s` as standard Base64, where `s` is the encoding of some bytes.
pub open spec fn base64_std_decoded(s: Seq<char>) -> Option<Seq<u8>> {
    if exists|b: Seq<u8>| base64_std(b) == s {
        Some(choose|b: Seq<u8>| base64_std(b) == s)
    } else {
        None
    }
}

/// The decoding of `s` as URL-safe unpadded Base64, where `s` is the encoding of some bytes.
pub open spec fn base64_url_decoded(s: Seq<char>) -> Option<Seq<u8>> {
    if exists|b: Seq<u8>| base64_url(b) == s {
        Some(choose|b: Seq<u8>| base64_url(b) == s)
    } else {
        None
    }
}

pub open spec fn hex_char(v: int) -> char {
    if v < 10 {
        ((v + 48) as u8) as char
    } else {
        ((v + 87) as u8) as char
    }
}

/// Lower-case hex text of `b`: two digits per byte, high nibble first.
pub open spec fn hex_lower(b: Seq<u8>) -> Seq<char> {
    Seq::new(
        2 * b.len(),
        |i: int|
            if i % 2 == 0 {
                hex_char(b[i / 2] as int / 16)
            } else {
                hex_char(b[i / 2] as int % 16)
            },
    )
}

pub open spec fn is_hex_digit(c: char) -> bool {
    ('0' <= c && c <= '9') || ('a' <= c && c <= 'f') || ('A' <= c && c <= 'F')
}

pub open spec fn hex_value(c: char) -> int {
    if '0' <= c && c <= '9' {
        c as int - 48
    } else if 'a' <= c && c <= 'f' {
        c as int - 87
    } else {
        c as int - 55
    }
}

/// The bytes that the hex digits `s` spell, two digits per byte.
pub open spec fn hex_bytes(s: Seq<char>) -> Seq<u8> {
    Seq::new(s.len() / 2, |i: int| (hex_value(s[2 * i]) * 16 + hex_value(s[2 * i + 1])) as u8)
}

/// Relies on `rand::rng().fill_bytes`: `n` bytes from the thread-local generator.
#[verifier::external_body]
pub(crate) fn random_bytes(n: usize) -> (r: Vec<u8>)
    ensures
        r@.len() == n,
{
    let mut v = vec![0u8; n];
    rand::rng().fill_bytes(&mut v);
    v
}

/// Relies on `chrono::Utc::now().timestamp()`: the current Unix time in seconds.
#[verifier::external_body]
pub(crate) fn unix_now() -> (r: i64) {
    chrono::Utc::now().timestamp()
}

/// Relies on `base64`'s `STANDARD.encode`: four characters of the standard alphabet
/// (`A-Z a-z 0-9 + /`, padded with `=`) per started group of three bytes; distinct
/// inputs have distinct encodings.
#[verifier::external_body]
pub(crate) fn base64_encode(b: &[u8]) -> (r: String)
    ensures
        r@ == base64_std(b@),
        r@.len() == 4 * ((b@.len() + 2) / 3),
        is_ascii_chars(r@),
        forall|i: int| 0 <= i < r@.len() ==> is_base64_std_char(#[trigger] r@[i]),
        forall|b2: Seq<u8>| #[trigger] base64_std(b2) == r@ ==> b2 == b@,
{
    base64::engine::general_purpose::STANDARD.encode(b)
}

/// Relies on `base64`'s `STANDARD.decode`, which accepts exactly the canonical padded
/// encodings and returns the bytes they encode.
#[verifier::external_body]
pub(crate) fn base64_decode(s: &str) -> (r: Option<Vec<u8>>)
    ensures
        forall|b: Seq<u8>| #[trigger] base64_std(b) == s@ ==> r is Some && r->0@ == b,
        r matches Some(v) ==> base64_std(v@) == s@,
{
    base64::engine::general_purpose::STANDARD.decode(s).ok()
}

/// Relies on `base64`'s `URL_SAFE_NO_PAD.encode`; distinct inputs have distinct encodings.
#[verifier::external_body]
pub(crate) fn base64_url_encode(b: &[u8]) -> (r: String)
    ensures
        r@ == base64_url(b@),
        forall|b2: Seq<u8>| #[trigger] base64_url(b2) == r@ ==> b2 == b@,
{
    base64::engine::general_purpose::URL_SAFE_NO_PAD.encode(b)
}

/// Relies on `base64`'s `URL_SAFE_NO_PAD.decode`, which accepts exactly the canonical
/// unpadded encodings and returns the bytes they encode.
#[verifier::external_body]
pub(crate) fn base64_url_decode(s: &str) -> (r: Option<Vec<u8>>)
    ensures
        forall|b: Seq<u8>| #[trigger] base64_url(b) == s@ ==> r is Some && r->0@ == b,
        r matches Some(v) ==> base64_url(v@) == s@,
{
    base64::engine::general_purpose::URL_SAFE_NO_PAD.decode(s).ok()
}

/// Relies on `hex::encode`: lower-case digits, two per byte.
#[verifier::external_body]
pub(crate) fn hex_encode(b: &[u8]) -> (r: String)
    ensures
        r@ == hex_lower(b@),
{
    hex::encode(b)
}

/// Relies on `hex::decode` on text made of hex digits only: it fails exactly on an odd
/// length, and otherwise reads two digits per byte.
#[verifier::external_body]
pub(crate) fn hex_decode(s: &str) -> (r: Option<Vec<u8>>)
    requires
        forall|i: int| 0 <= i < s@.len() ==> is_hex_digit(#[trigger] s@[i]),
    ensures
        r is Some <==> s@.len() % 2 == 0,
        r matches Some(v) ==> v@ == hex_bytes(s@),
{
    hex::decode(s).ok()
}

/// Relies on `sha2::Sha256::digest`.
#[verifier::external_body]
pub(crate) fn sha256(b: &[u8]) -> (r: [u8; 32])
    ensures
        r@ == sha256_of(b@),
{
    sha2::Sha256::digest(b).into()
}

/// Relies on `md5::Md5::digest` (package `md-5`).
#[verifier::external_body]
pub(crate) fn md5(b: &[u8]) -> (r: [u8; 16])
    ensures
        r@ == md5_of(b@),
{
    md5::Md5::digest(b).into()
}

/// Relies on `hmac::Hmac<Sha256>`: `new_from_slice` takes a key of any length, then
/// `update` and `finalize`.
#[verifier::external_body]
pub(crate) fn hmac_sha256(key: &[u8], msg: &[u8]) -> (r: [u8; 32])
    ensures
        r@ == hmac_sha256_of(key@, msg@),
{
    let mut mac = <hmac::Hmac<sha2::Sha256> as Mac>::new_from_slice(key).unwrap();
    mac.update(msg);
    mac.finalize().into_bytes().into()
}

/// Relies on `hkdf::Hkdf::<Sha256>::new` and `expand`, which never fails for 32 bytes of
/// output.
#[verifier::external_body]
pub(crate) fn hkdf_sha256(salt: &[u8], ikm: &[u8], info: &[u8]) -> (r: [u8; 32])
    ensures
        r@ == hkdf_sha256_of(salt@, ikm@, info@),
{
    let hk = hkdf::Hkdf::<sha2::Sha256>::new(Some(salt), ikm);
    let mut okm = [0u8; 32];
    hk.expand(info, &mut okm).unwrap();
    okm
}

/// Relies on `chacha20poly1305::ChaCha20Poly1305::encrypt`: the ciphertext, as long as
/// the plaintext, then the 16-byte tag; the plaintext is the only one that seals to it.
#[verifier::external_body]
pub(crate) fn aead_encrypt(key: &[u8], nonce: &[u8], plain: &[u8]) -> (r: Vec<u8>)
    requires
        key@.len() == 32,
        nonce@.len() == 12,
        cipher_input_ok(plain@.len() as int),
    ensures
        r@ == aead_seal_of(key@, nonce@, plain@),
        r@.len() == plain@.len() + 16,
        forall|p: Seq<u8>| #[trigger] aead_seal_of(key@, nonce@, p) == r@ ==> p == plain@,
{
    let cipher = chacha20poly1305::ChaCha20Poly1305::new(chacha20poly1305::Key::from_slice(key));
    cipher.encrypt(chacha20poly1305::Nonce::from_slice(nonce), plain).unwrap()
}

/// Relies on `chacha20poly1305::ChaCha20Poly1305::decrypt`: it succeeds exactly on the
/// sealings under `key` and `nonce`, and returns what was sealed; on an input beyond the
/// cipher's limit it returns an error rather than panicking.
#[verifier::external_body]
pub(crate) fn aead_decrypt(key: &[u8], nonce: &[u8], sealed: &[u8]) -> (r: Option<Vec<u8>>)
    requires
        key@.len() == 32,
        nonce@.len() == 12,
    ensures
        forall|p: Seq<u8>| cipher_input_ok(p.len() as int) && #[trigger] aead_seal_of(key@, nonce@, p) == sealed@ ==> r is Some && r->0@ == p,
        r matches Some(v) ==> aead_seal_of(key@, nonce@, v@) == sealed@,
        r matches Some(v) ==> sealed@.len() == v@.len() + 16,
{
    let cipher = chacha20poly1305::ChaCha20Poly1305::new(chacha20poly1305::Key::from_slice(key));
    cipher.decrypt(chacha20poly1305::Nonce::from_slice(nonce), sealed).ok()
}

/// Relies on `chacha20::ChaCha20::apply_keystream`: XOR with the keystream, which keeps
/// the length and is undone by applying it again.
#[verifier::external_body]
pub(crate) fn chacha20_apply(key: &[u8], nonce: &[u8], data: &[u8]) -> (r: Vec<u8>)
    requires
        key@.len() == 32,
        nonce@.len() == 12,
        cipher_input_ok(data@.len() as int),
    ensures
        r@ == chacha20_of(key@, nonce@, data@),
        r@.len() == data@.len(),
        chacha20_of(key@, nonce@, r@) == data@,
        forall|d: Seq<u8>| #[trigger] chacha20_of(key@, nonce@, d) == data@ ==> d == r@,
{
    let mut buf = data.to_vec();
    chacha20::ChaCha20::new(chacha20::Key::from_slice(key), chacha20::Nonce::from_slice(nonce))
        .apply_keystream(&mut buf);
    buf
}

/// Relies on `String::from_utf8`: it succeeds exactly on valid UTF-8.
#[verifier::external_body]
pub(crate) fn utf8_decode(b: Vec<u8>) -> (r: Option<String>)
    ensures
        r is Some <==> valid_utf8(b@),
        r matches Some(s) ==> s@ == decode_utf8(b@),
{
    String::from_utf8(b).ok()
}

/// Relies on `String::push`: appends one character.
#[verifier::external_body]
pub(crate) fn push_char(s: &mut String, c: char)
    ensures
        final(s)@ == old(s)@.push(c),
{
    s.push(c)
}

} // verus!
