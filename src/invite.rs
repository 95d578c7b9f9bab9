//! Invitation codes: a payload under ChaCha20 keyed only by the current 500-second
//! period, in URL-safe Base64 (hex is accepted too when reading). The payload itself is
//! the serialized invitation record.

use vstd::prelude::*;
use crate::bytes::{chars_of, concat_bytes, has_prefix, string_of, sub_bytes};
use crate::envelope::{key_for_period, period_id, period_key_of};
use crate::primitives::{
    base64_url, base64_url_decode, base64_url_decoded, base64_url_encode, chacha20_apply,
    chacha20_of, cipher_input_ok, hex_bytes, hex_decode, is_hex_digit, random_bytes,
};

verus! {

/// Length in seconds of the period that keys invitation codes.
pub const PERIOD_SECS: i64 = 500;

/// The marker that starts an invitation in text.
pub open spec fn invite_prefix() -> Seq<char> {
    seq!['/', 'I', 'N', 'V', 'I', 'T', 'E', ':']
}

/// The code of `payload` made at `now` with `nonce`: URL-safe Base64 of the nonce and the
/// payload under the keystream of the period key.
pub open spec fn invitation_code(payload: Seq<u8>, now: int, nonce: Seq<u8>) -> Seq<char> {
    base64_url(nonce + chacha20_of(period_key_of(now, PERIOD_SECS as int), nonce, payload))
}

pub open spec fn all_hex(s: Seq<char>) -> bool {
    forall|i: int| 0 <= i < s.len() ==> is_hex_digit(#[trigger] s[i])
}

/// The bytes a code spells: its URL-safe Base64 decoding, or else its hex decoding.
pub open spec fn code_bytes(code: Seq<char>) -> Option<Seq<u8>> {
    match base64_url_decoded(code) {
        Some(b) => Some(b),
        None => if all_hex(code) && code.len() % 2 == 0 {
            Some(hex_bytes(code))
        } else {
            None
        },
    }
}

/// The payload that invitation text `inv` carries when read at `now`.
pub open spec fn invitation_payload(inv: Seq<char>, now: int) -> Option<Seq<u8>> {
    if inv.len() >= 8 && inv.subrange(0, 8) == invite_prefix() {
        match code_bytes(inv.subrange(8, inv.len() as int)) {
            Some(b) => if b.len() < 12 || !cipher_input_ok(b.len() - 12) {
                None
            } else {
                Some(chacha20_of(period_key_of(now, PERIOD_SECS as int), b.subrange(0, 12), b.subrange(12, b.len() as int)))
            },
            None => None,
        }
    } else {
        None
    }
}

fn invite_marker() -> (r: Vec<char>)
    ensures
        r@ == invite_prefix(),
{
    let r: Vec<char> = vec!['/', 'I', 'N', 'V', 'I', 'T', 'E', ':'];
    assert(r@ =~= invite_prefix());
    r
}

/// The invitation key of the 500-second period that holds `now`.
pub fn derive_invite_key(now: i64) -> (key: [u8; 32])
    ensures
        key@ == period_key_of(now as int, PERIOD_SECS as int),
{
    key_for_period(now, PERIOD_SECS)
}

/// The code of `payload` at `now` with a given nonce. Read back in the same period, it
/// gives the payload again.
pub fn invitation_code_with(payload: &[u8], now: i64, nonce: &[u8]) -> (r: String)
    requires
        nonce@.len() == 12,
        cipher_input_ok(payload@.len() as int),
    ensures
        r@ == invitation_code(payload@, now as int, nonce@),
        forall|t: int| period_id(t, PERIOD_SECS as int) == period_id(now as int, PERIOD_SECS as int)
            ==> #[trigger] invitation_payload(invite_prefix() + r@, t) == Some(payload@),
{
    let key = derive_invite_key(now);
    let ct = chacha20_apply(key.as_slice(), nonce, payload);
    let all = concat_bytes(nonce, ct.as_slice());
    let r = base64_url_encode(all.as_slice());
    proof {
        assert(base64_url_decoded(r@) == Some(all@)) by {
            let b = choose|b: Seq<u8>| base64_url(b) == r@;
            assert(base64_url(b) == r@);
        }
        assert(all@.subrange(0, 12) =~= nonce@);
        assert(all@.subrange(12, all@.len() as int) =~= ct@);
        assert forall|t: int| period_id(t, PERIOD_SECS as int) == period_id(now as int, PERIOD_SECS as int)
            implies #[trigger] invitation_payload(invite_prefix() + r@, t) == Some(payload@) by {
            let inv = invite_prefix() + r@;
            assert(inv.subrange(0, 8) =~= invite_prefix());
            assert(inv.subrange(8, inv.len() as int) =~= r@);
            assert(period_key_of(t, PERIOD_SECS as int) == period_key_of(now as int, PERIOD_SECS as int));
        }
    }
    r
}

/// The code of `payload` at `now`, with a fresh random nonce.
pub fn seal_invitation(payload: &[u8], now: i64) -> (r: String)
    requires
        cipher_input_ok(payload@.len() as int),
    ensures
        exists|nonce: Seq<u8>| nonce.len() == 12 && r@ == invitation_code(payload@, now as int, nonce),
        forall|t: int| period_id(t, PERIOD_SECS as int) == period_id(now as int, PERIOD_SECS as int)
            ==> #[trigger] invitation_payload(invite_prefix() + r@, t) == Some(payload@),
{
    let nonce = random_bytes(12);
    invitation_code_with(payload, now, nonce.as_slice())
}

fn all_hex_digits(cs: &[char]) -> (r: bool)
    ensures
        r == all_hex(cs@),
{
    let mut i: usize = 0;
    while i < cs.len()
        invariant
            i <= cs@.len(),
            forall|j: int| 0 <= j < i ==> is_hex_digit(#[trigger] cs@[j]),
        decreases cs@.len() - i,
    {
        let c = cs[i];
        if !(('0' <= c && c <= '9') || ('a' <= c && c <= 'f') || ('A' <= c && c <= 'F')) {
            return false;
        }
        i = i + 1;
    }
    true
}

/// The payload that invitation text `inv` carries when read at `now`; `None` when it
/// lacks the `/INVITE:` marker, its code is neither URL-safe Base64 nor hex, or the
/// code is shorter than a nonce.
pub fn open_invitation(inv: &str, now: i64) -> (r: Option<Vec<u8>>)
    ensures
        match r {
            Some(v) => invitation_payload(inv@, now as int) == Some(v@),
            None => invitation_payload(inv@, now as int) is None,
        },
{
    let cs = chars_of(inv);
    let m = invite_marker();
    if !has_prefix(cs.as_slice(), m.as_slice()) {
        return None;
    }
    let code = string_of(cs.as_slice(), 8, cs.len());
    let bytes = match base64_url_decode(code.as_str()) {
        Some(b) => {
            assert(base64_url_decoded(code@) == Some(b@)) by {
                let b2 = choose|b2: Seq<u8>| base64_url(b2) == code@;
                assert(base64_url(b2) == code@);
            }
            b
        },
        None => {
            let ccs = chars_of(code.as_str());
            if !all_hex_digits(ccs.as_slice()) {
                return None;
            }
            match hex_decode(code.as_str()) {
                Some(b) => b,
                None => return None,
            }
        },
    };
    let n = bytes.len();
    if n < 12 || (n - 12) as u64 > 274_877_906_816u64 {
        return None;
    }
    let nonce = sub_bytes(bytes.as_slice(), 0, 12);
    let ct = sub_bytes(bytes.as_slice(), 12, n);
    let key = derive_invite_key(now);
    Some(chacha20_apply(key.as_slice(), nonce.as_slice(), ct.as_slice()))
}

/// The input line with an invitation removed: empty when it starts with `/INVITE:`,
/// otherwise unchanged.
pub fn inviation_clear(inv: &str) -> (r: String)
    ensures
        r@ == (if inv@.len() >= 8 && inv@.subrange(0, 8) == invite_prefix() {
            Seq::<char>::empty()
        } else {
            inv@
        }),
{
    let cs = chars_of(inv);
    let m = invite_marker();
    if has_prefix(cs.as_slice(), m.as_slice()) {
        String::new()
    } else {
        inv.to_owned()
    }
}

} // verus!
