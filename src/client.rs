//! The client's relay loop decisions: what to do with a line from the server, with a
//! message from the user, and on each heartbeat tick. The caller owns the socket, the
//! timer and the channels to the user interface.

use vstd::prelude::*;
use vstd::utf8::*;
use crate::bytes::join2;
use crate::envelope::{is_transport_frame, sealable, server_open, server_seal};
use crate::primitives::{base64_encode, base64_std};
use crate::room_cipher::{is_room_frame, seal};
use image::ImageEncoder;

verus! {

/// Seconds between two keep-alive lines.
pub const HEARTBEAT_SECS: u64 = 30;

/// The keep-alive line a client sends, outside both envelopes.
pub open spec fn ping_line() -> Seq<char> {
    "$$ping$$\n"@
}

/// The keep-alive line to write on each heartbeat tick.
pub fn heartbeat_line() -> (r: String)
    ensures
        r@ == ping_line(),
{
    "$$ping$$\n".to_owned()
}

/// Whether a line from the server is a keep-alive, which is dropped unread.
pub open spec fn is_keepalive(line: Seq<char>) -> bool {
    line == "/ping_ack"@ || line == "$$ping$$"@
}

/// A line from the server: keep-alives and lines that do not open are dropped; any other
/// line is opened and handed to the user interface.
pub fn on_inbound(line: &str, server_key: &[u8; 32]) -> (r: Option<String>)
    ensures
        is_keepalive(line@) ==> r is None,
        !is_keepalive(line@) ==> forall|p: Seq<char>| sealable(p) && is_transport_frame(server_key@, line@, p) ==> (r is Some && r->0@ == p),
        r matches Some(s) ==> is_transport_frame(server_key@, line@, s@),
{
    let l = line.to_owned();
    if l == "/ping_ack".to_owned() || l == "$$ping$$".to_owned() {
        return None;
    }
    server_open(line, server_key)
}

/// A message from the user interface.
pub enum Outbound {
    /// The shutdown sentinel: flush, close the write half, stop.
    Shutdown,
    /// The line to write: the message in the room envelope, that in the transport
    /// envelope, and a newline.
    Send(String),
}

/// The sentinel that asks the loop to shut down.
pub open spec fn shutdown_sentinel() -> Seq<char> {
    "//~``~//"@
}

/// A message from the user: the shutdown sentinel stops the loop; any other text is
/// sealed in both envelopes. `None` for a text too long to seal.
pub fn on_outbound(text: &str, room_key: &[u8; 32], server_key: &[u8; 32]) -> (r: Option<Outbound>)
    ensures
        text@ == shutdown_sentinel() ==> r matches Some(Outbound::Shutdown),
        text@ != shutdown_sentinel() ==> match r {
            Some(Outbound::Send(l)) => exists|rf: Seq<char>, tf: Seq<char>|
                is_room_frame(room_key@, rf, text@) && sealable(rf) && is_transport_frame(server_key@, tf, rf)
                    && l@ == tf + "\n"@,
            Some(Outbound::Shutdown) => false,
            None => true,
        },
        text@ != shutdown_sentinel() && encode_utf8(text@).len() <= 200_000_000_000 ==> r is Some,
{
    if text.to_owned() == "//~``~//".to_owned() {
        return Some(Outbound::Shutdown);
    }
    if text.as_bytes().len() as u64 > 274_877_906_816u64 {
        return None;
    }
    let rf = seal(text, room_key);
    proof {
        is_ascii_chars_encode_utf8(rf@);
    }
    if rf.as_str().as_bytes().len() as u64 > 274_877_906_816u64 {
        return None;
    }
    let tf = server_seal(rf.clone(), server_key);
    Some(Outbound::Send(join2(tf.as_str(), "\n")))
}

/// An image payload: `/IMGDATA` followed by the standard Base64 of the image bytes.
pub fn image_payload(data: &[u8]) -> (r: String)
    ensures
        r@ == "/IMGDATA"@ + base64_std(data@),
{
    let b = base64_encode(data);
    join2("/IMGDATA", b.as_str())
}

/// The PNG file that encodes an 8-bit RGBA image of `w` by `h` pixels.
pub uninterp spec fn png_rgba8_of(rgba: Seq<u8>, w: u32, h: u32) -> Seq<u8>;

#[verifier::external_type_specification]
#[verifier::external_body]
pub struct ExImageError(image::ImageError);

/// Relies on `image`'s `PngEncoder::write_image` with `ExtendedColorType::Rgba8`, which
/// asserts that the buffer holds four bytes per pixel.
#[verifier::external_body]
fn png_encode(rgba: &[u8], w: u32, h: u32) -> (r: Result<Vec<u8>, image::ImageError>)
    requires
        rgba@.len() == 4 * w * h,
    ensures
        r matches Ok(v) ==> v@ == png_rgba8_of(rgba@, w, h),
{
    let mut buf = Vec::new();
    match image::codecs::png::PngEncoder::new(&mut buf).write_image(rgba, w, h, image::ExtendedColorType::Rgba8) {
        Ok(()) => Ok(buf),
        Err(e) => Err(e),
    }
}

/// Why an image could not be encoded.
#[derive(PartialEq, Eq, Structural, Clone, Copy, Debug)]
pub enum PngError {
    /// The pixel data is not four bytes per pixel of the given size.
    SizeMismatch,
    /// The encoder failed.
    Encode,
}

/// PNG bytes of an 8-bit RGBA image of `w` by `h` pixels.
pub fn encode_rgba_as_png(rgba: &[u8], w: u32, h: u32) -> (r: Result<Vec<u8>, PngError>)
    ensures
        rgba@.len() != 4 * w * h ==> r == Err::<Vec<u8>, PngError>(PngError::SizeMismatch),
        r matches Ok(v) ==> v@ == png_rgba8_of(rgba@, w, h),
        r matches Err(e) ==> (e == PngError::SizeMismatch) == (rgba@.len() != 4 * w * h),
{
    proof {
        assert((w as int) * (h as int) <= 0xffff_ffff_ffff_ffff_ffff_ffffint) by (nonlinear_arith)
            requires
                w <= 0xffff_ffffu32,
                h <= 0xffff_ffffu32,
        ;
        assert(4 * w * h == 4 * ((w as int) * (h as int))) by (nonlinear_arith);
    }
    let wh: u128 = (w as u128) * (h as u128);
    if rgba.len() as u128 != 4 * wh {
        return Err(PngError::SizeMismatch);
    }
    match png_encode(rgba, w, h) {
        Ok(v) => Ok(v),
        Err(_) => Err(PngError::Encode),
    }
}

/// What a received chat body carries.
pub enum Body {
    Text,
    Image(Vec<u8>),
    BadImage,
}

/// A body that starts with `/IMGDATA` is an image, whose bytes follow in standard
/// Base64 (`BadImage` when they do not decode); any other body is text.
pub fn classify_body(body: &str) -> (r: Body)
    ensures
        match r {
            Body::Text => !(body@.len() >= 8 && body@.subrange(0, 8) == "/IMGDATA"@),
            Body::Image(v) => body@.len() >= 8 && body@.subrange(0, 8) == "/IMGDATA"@
                && crate::primitives::base64_std(v@) == body@.subrange(8, body@.len() as int),
            Body::BadImage => body@.len() >= 8 && body@.subrange(0, 8) == "/IMGDATA"@
                && crate::primitives::base64_std_decoded(body@.subrange(8, body@.len() as int)) is None,
        },
{
    proof {
        reveal_strlit("/IMGDATA");
    }
    let cs = crate::bytes::chars_of(body);
    let p = crate::bytes::chars_of("/IMGDATA");
    if !crate::bytes::has_prefix(cs.as_slice(), p.as_slice()) {
        return Body::Text;
    }
    let rest = crate::bytes::string_of(cs.as_slice(), 8, cs.len());
    match crate::primitives::base64_decode(rest.as_str()) {
        Some(v) => Body::Image(v),
        None => Body::BadImage,
    }
}

} // verus!
