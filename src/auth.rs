//! The time-windowed authentication token: a fixed marker under two salted ChaCha20
//! layers, the inner keyed by the server credential, the outer by the current period.

use vstd::prelude::*;
use vstd::utf8::*;
use crate::bytes::{concat_bytes, sub_bytes};
use crate::envelope::{period_id, period_key, period_key_of, PERIOD};
use crate::primitives::{
    base64_decode, base64_encode, base64_std, base64_std_decoded, chacha20_apply, chacha20_of,
    cipher_input_ok, hmac_sha256, hmac_sha256_of, random_bytes, sha256, sha256_of, unix_now,
};

verus! {

/// The bytes of "OKYOUARECORRECT", the plaintext of every authentication token.
pub open spec fn auth_marker() -> Seq<u8> {
    seq![79u8, 75u8, 89u8, 79u8, 85u8, 65u8, 82u8, 69u8, 67u8, 79u8, 82u8, 82u8, 69u8, 67u8, 84u8]
}

pub open spec fn zero_nonce() -> Seq<u8> {
    Seq::new(12, |i: int| 0u8)
}

/// One salted layer: the salt, then `data` under the keystream of the sub-key
/// HMAC-SHA-256(key, salt) with an all-zero nonce.
pub open spec fn salted_layer(key: Seq<u8>, salt: Seq<u8>, data: Seq<u8>) -> Seq<u8> {
    salt + chacha20_of(hmac_sha256_of(key, salt), zero_nonce(), data)
}

/// Removing one salted layer: `None` when `full` is shorter than a salt.
pub open spec fn peel_layer(key: Seq<u8>, full: Seq<u8>) -> Option<Seq<u8>> {
    if full.len() < 16 {
        None
    } else {
        Some(
            chacha20_of(
                hmac_sha256_of(key, full.subrange(0, 16)),
                zero_nonce(),
                full.subrange(16, full.len() as int),
            ),
        )
    }
}

/// Whether peeling the period layer and then the credential layer yields the marker.
pub open spec fn peels_to_marker(bytes: Seq<u8>, hash: Seq<u8>, pkey: Seq<u8>) -> bool {
    match peel_layer(pkey, bytes) {
        Some(inner) => peel_layer(hash, inner) == Some(auth_marker()),
        None => false,
    }
}

pub open spec fn fits_i64(t: int) -> bool {
    i64::MIN <= t <= i64::MAX
}

/// Whether the token bytes peel to the marker with the key of the period of `now + d`.
pub open spec fn accepted_at(bytes: Seq<u8>, hash: Seq<u8>, now: int, d: int) -> bool {
    fits_i64(now + d) && peels_to_marker(bytes, hash, period_key_of(now + d, PERIOD as int))
}

/// Whether a server with credential `hash` accepts `token` at time `now`: the token is
/// Base64 of bytes that peel to the marker under the key of the period of `now - 30`,
/// `now` or `now + 30`.
pub open spec fn auth_accepted(token: Seq<char>, hash: Seq<u8>, now: int) -> bool {
    match base64_std_decoded(token) {
        Some(bytes) => cipher_input_ok(bytes.len() - 16) && (accepted_at(bytes, hash, now, -30)
            || accepted_at(bytes, hash, now, 0) || accepted_at(bytes, hash, now, 30)),
        None => false,
    }
}

/// The token made at time `now` for credential `hash`, with salts `s1` (inner layer) and
/// `s2` (outer layer).
pub open spec fn auth_token(hash: Seq<u8>, now: int, s1: Seq<u8>, s2: Seq<u8>) -> Seq<char> {
    base64_std(
        salted_layer(period_key_of(now, PERIOD as int), s2, salted_layer(hash, s1, auth_marker())),
    )
}

fn zero_nonce_bytes() -> (r: Vec<u8>)
    ensures
        r@ == zero_nonce(),
{
    let r: Vec<u8> = vec![0u8; 12];
    assert(r@ =~= zero_nonce());
    r
}

fn marker_bytes() -> (r: Vec<u8>)
    ensures
        r@ == auth_marker(),
{
    let r: Vec<u8> = vec![79u8, 75u8, 89u8, 79u8, 85u8, 65u8, 82u8, 69u8, 67u8, 79u8, 82u8, 82u8, 69u8, 67u8, 84u8];
    assert(r@ =~= auth_marker());
    r
}

/// The server credential: SHA-256 of the password's UTF-8 bytes.
pub fn pwd_hash(pwd: &str) -> (r: [u8; 32])
    ensures
        r@ == sha256_of(encode_utf8(pwd@)),
{
    sha256(pwd.as_bytes())
}

/// Adds one salted layer with a given salt.
pub fn chacha_once_with(data: &[u8], key: &[u8], salt: &[u8]) -> (r: Vec<u8>)
    requires
        salt@.len() == 16,
        cipher_input_ok(data@.len() as int),
    ensures
        r@ == salted_layer(key@, salt@, data@),
        r@.len() == data@.len() + 16,
        peel_layer(key@, r@) == Some(data@),
{
    let sub = hmac_sha256(key, salt);
    let zero = zero_nonce_bytes();
    let ct = chacha20_apply(sub.as_slice(), zero.as_slice(), data);
    let r = concat_bytes(salt, ct.as_slice());
    assert(r@.subrange(0, 16) =~= salt@);
    assert(r@.subrange(16, r@.len() as int) =~= ct@);
    r
}

/// Adds one salted layer under `key`, with a fresh random salt.
pub fn chacha_once(data: &[u8], key: &[u8; 32]) -> (r: Vec<u8>)
    requires
        cipher_input_ok(data@.len() as int),
    ensures
        exists|salt: Seq<u8>| salt.len() == 16 && r@ == salted_layer(key@, salt, data@),
        r@.len() == data@.len() + 16,
        peel_layer(key@, r@) == Some(data@),
{
    let salt = random_bytes(16);
    chacha_once_with(data, key.as_slice(), salt.as_slice())
}

/// Removes one salted layer under `key`; `None` when `full` is shorter than a salt.
pub fn chacha_salt_open(full: &[u8], key: &[u8]) -> (r: Option<Vec<u8>>)
    requires
        cipher_input_ok(full@.len() - 16),
    ensures
        match r {
            Some(v) => peel_layer(key@, full@) == Some(v@),
            None => peel_layer(key@, full@) is None,
        },
        r matches Some(v) ==> v@.len() == full@.len() - 16,
{
    if full.len() < 16 {
        return None;
    }
    let salt = sub_bytes(full, 0, 16);
    let ct = sub_bytes(full, 16, full.len());
    let sub = hmac_sha256(key, salt.as_slice());
    let zero = zero_nonce_bytes();
    Some(chacha20_apply(sub.as_slice(), zero.as_slice(), ct.as_slice()))
}

fn bytes_equal(a: &[u8], b: &[u8]) -> (r: bool)
    ensures
        r == (a@ == b@),
{
    if a.len() != b.len() {
        return false;
    }
    let mut i: usize = 0;
    while i < a.len()
        invariant
            a@.len() == b@.len(),
            i <= a@.len(),
            forall|j: int| 0 <= j < i ==> a@[j] == b@[j],
        decreases a@.len() - i,
    {
        if a[i] != b[i] {
            return false;
        }
        i = i + 1;
    }
    assert(a@ =~= b@);
    true
}

/// Whether the token bytes peel to the marker in the period of `now + d`.
fn accepts_at(bytes: &[u8], hash: &[u8; 32], now: i64, d: i64) -> (r: bool)
    requires
        cipher_input_ok(bytes@.len() - 16),
    ensures
        r == accepted_at(bytes@, hash@, now as int, d as int),
{
    let t: i128 = now as i128 + d as i128;
    if t < i64::MIN as i128 || t > i64::MAX as i128 {
        return false;
    }
    let pk = period_key(t as i64);
    let inner = match chacha_salt_open(bytes, pk.as_slice()) {
        Some(v) => v,
        None => return false,
    };
    let plain = match chacha_salt_open(inner.as_slice(), hash.as_slice()) {
        Some(v) => v,
        None => return false,
    };
    let marker = marker_bytes();
    bytes_equal(plain.as_slice(), marker.as_slice())
}

/// Checks an authentication token at time `now` against the server credential,
/// allowing one period of clock skew either way.
pub fn dec_auth_at(auth_b64: &str, pwd_hash: &[u8; 32], now: i64) -> (r: bool)
    ensures
        r == auth_accepted(auth_b64@, pwd_hash@, now as int),
{
    let bytes = match base64_decode(auth_b64) {
        Some(b) => b,
        None => return false,
    };
    assert(base64_std_decoded(auth_b64@) == Some(bytes@)) by {
        let b = choose|b: Seq<u8>| base64_std(b) == auth_b64@;
        assert(base64_std(b) == auth_b64@);
    }
    if bytes.len() as u64 > 274_877_906_832u64 {
        return false;
    }
    accepts_at(bytes.as_slice(), pwd_hash, now, -PERIOD) || accepts_at(bytes.as_slice(), pwd_hash, now, 0)
        || accepts_at(bytes.as_slice(), pwd_hash, now, PERIOD)
}

/// Checks an authentication token at the current time.
pub fn dec_auth(auth_b64: &str, pwd_hash: &[u8; 32]) -> (r: bool)
    ensures
        exists|now: int| fits_i64(now) && r == auth_accepted(auth_b64@, pwd_hash@, now),
{
    let now = unix_now();
    let r = dec_auth_at(auth_b64, pwd_hash, now);
    assert(fits_i64(now as int) && r == auth_accepted(auth_b64@, pwd_hash@, now as int));
    r
}

/// The token for credential `hash` at time `now`, with given salts. A server holding the
/// same credential accepts it at `now - 30`, `now` and `now + 30`.
pub fn auth_token_with(hash: &[u8; 32], now: i64, s1: &[u8], s2: &[u8]) -> (r: String)
    requires
        s1@.len() == 16,
        s2@.len() == 16,
    ensures
        r@ == auth_token(hash@, now as int, s1@, s2@),
        auth_accepted(r@, hash@, now - 30),
        auth_accepted(r@, hash@, now as int),
        auth_accepted(r@, hash@, now + 30),
{
    let marker = marker_bytes();
    let inner = chacha_once_with(marker.as_slice(), hash.as_slice(), s1);
    let pk = period_key(now);
    let outer = chacha_once_with(inner.as_slice(), pk.as_slice(), s2);
    let r = base64_encode(outer.as_slice());
    proof {
        assert(base64_std_decoded(r@) == Some(outer@)) by {
            let b = choose|b: Seq<u8>| base64_std(b) == r@;
            assert(base64_std(b) == r@);
        }
        assert(peels_to_marker(outer@, hash@, period_key_of(now as int, PERIOD as int)));
        assert((now - 30) + 30 == now);
        assert((now + 30) - 30 == now);
    }
    r
}

/// The token for credential `hash` at time `now`, with fresh random salts.
pub fn auth_token_at(hash: &[u8; 32], now: i64) -> (r: String)
    ensures
        exists|s1: Seq<u8>, s2: Seq<u8>| s1.len() == 16 && s2.len() == 16 && r@ == auth_token(hash@, now as int, s1, s2),
        auth_accepted(r@, hash@, now - 30),
        auth_accepted(r@, hash@, now as int),
        auth_accepted(r@, hash@, now + 30),
{
    let s1 = random_bytes(16);
    let s2 = random_bytes(16);
    auth_token_with(hash, now, s1.as_slice(), s2.as_slice())
}

/// The token for password `pwd` at time `now`: accepted with `pwd_hash(pwd)` at `now - 30`,
/// `now` and `now + 30`.
pub fn enc_auth_at(pwd: &str, now: i64) -> (r: String)
    ensures
        exists|s1: Seq<u8>, s2: Seq<u8>|
            s1.len() == 16 && s2.len() == 16 && r@ == auth_token(sha256_of(encode_utf8(pwd@)), now as int, s1, s2),
        auth_accepted(r@, sha256_of(encode_utf8(pwd@)), now - 30),
        auth_accepted(r@, sha256_of(encode_utf8(pwd@)), now as int),
        auth_accepted(r@, sha256_of(encode_utf8(pwd@)), now + 30),
{
    let h = pwd_hash(pwd);
    auth_token_at(&h, now)
}

/// The token for password `pwd` at the current time: accepted with `pwd_hash(pwd)` at
/// that time and one period before or after it.
pub fn enc_auth(pwd: &str) -> (r: String)
    ensures
        exists|now: int, s1: Seq<u8>, s2: Seq<u8>|
            fits_i64(now) && s1.len() == 16 && s2.len() == 16 && r@ == auth_token(
                sha256_of(encode_utf8(pwd@)),
                now,
                s1,
                s2,
            ) && auth_accepted(r@, sha256_of(encode_utf8(pwd@)), now - 30) && auth_accepted(
                r@,
                sha256_of(encode_utf8(pwd@)),
                now,
            ) && auth_accepted(r@, sha256_of(encode_utf8(pwd@)), now + 30),
{
    let now = unix_now();
    let r = enc_auth_at(pwd, now);
    assert(fits_i64(now as int));
    r
}

/// The password under one salted layer keyed by its own credential, in Base64.
pub fn enc_invite_pwd(pwd: &str) -> (r: String)
    requires
        cipher_input_ok(encode_utf8(pwd@).len() as int),
    ensures
        exists|salt: Seq<u8>|
            salt.len() == 16 && r@ == base64_std(
                salted_layer(sha256_of(encode_utf8(pwd@)), salt, encode_utf8(pwd@)),
            ),
{
    let h = pwd_hash(pwd);
    let layer = chacha_once(pwd.as_bytes(), &h);
    base64_encode(layer.as_slice())
}

/// A token made in one period is never checked, at two periods earlier, with its own
/// period's key: none of the three periods tried then is the token's period (timestamps
/// from 1 to 29 excepted, where rounding toward zero merges periods -1 and 0).
pub proof fn lemma_stale_token_period(t: int)
    requires
        !(1 <= t <= 29),
    ensures
        period_id(t - 60 - 30, PERIOD as int) != period_id(t, PERIOD as int),
        period_id(t - 60, PERIOD as int) != period_id(t, PERIOD as int),
        period_id(t - 60 + 30, PERIOD as int) != period_id(t, PERIOD as int),
{
}

} // verus!
