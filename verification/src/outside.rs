//! What JSON bodies and QR codes are left to: the crates that read the one and
//! draw the other.

use vstd::prelude::*;
use vstd::utf8::encode_utf8;

use crate::limits::Quantity;
use crate::scpi::{failure, failure_text};

verus! {

/// The boolean that `serde_json` finds in a JSON text as the member `key` of
/// the object that the text is.
pub uninterp spec fn json_bool_of(text: Seq<u8>, key: Seq<char>) -> Option<bool>;

/// The number that `serde_json` finds in a JSON text as the member `key` of
/// the object that the text is: its double precision bit pattern, and the text
/// in which it is shown.
pub uninterp spec fn json_number_of(text: Seq<u8>, key: Seq<char>) -> Option<(u64, Seq<char>)>;

/// The image that `qrcode` draws for a text, or the text of its error.
pub uninterp spec fn qr_image_of(text: Seq<char>) -> Result<Seq<char>, Seq<char>>;

/// `serde_json::from_slice` into a `Value`, `Value::get` with the key, and
/// `Value::as_bool`: there is a result where the text is JSON, is an object,
/// and has that member as a boolean. It depends on the text and the key alone.
/// Which texts are JSON is not said.
#[verifier::external_body]
pub(crate) fn json_bool(text: &[u8], key: &str) -> (r: Option<bool>)
    ensures
        r == json_bool_of(text@, key@),
{
    let value: Option<serde_json::Value> = serde_json::from_slice(text).ok();
    value.and_then(|v| v.get(key).and_then(|m| m.as_bool()))
}

/// `serde_json::from_slice` into a `Value`, `Value::get` with the key, and
/// `Value::as_f64`: there is a result where the text is JSON, is an object,
/// and has that member as a number. It depends on the text and the key alone.
/// Which texts are JSON, and which number is read from one, is not said.
#[verifier::external_body]
pub(crate) fn json_number(text: &[u8], key: &str) -> (r: Option<Quantity>)
    ensures
        match r {
            Some(q) => json_number_of(text@, key@) == Some((q.bits, q.shown@)),
            None => json_number_of(text@, key@) is None,
        },
{
    let value: Option<serde_json::Value> = serde_json::from_slice(text).ok();
    let number = value.and_then(|v| v.get(key).and_then(|m| m.as_f64()));
    number.map(|x| Quantity { bits: x.to_bits(), shown: x.to_string() })
}

/// The longest text that is drawn, in bytes. A text of so many bytes takes at
/// most 1440 bits, and so a code of at most 53 modules on each side, whose
/// penalty scores stay below the 65536 that the crate can count to. The scores
/// of a larger code might not.
pub const QR_BYTE_LIMIT: usize = 72;

/// The beginning of every image that is drawn.
pub const SVG_START: &'static str = "<?xml version=\"1.0\" standalone=\"yes\"?><svg xmlns=\"http://www.w3.org/2000/svg\"";

/// `qrcode::QrCode::new` and, on the code that it gives, `render` in SVG and
/// `build`: an SVG image that depends on the text alone. There is one for every
/// text within the limit: the crate splits a text into segments that it can
/// encode, so that it fails only where there is no room, and the ninth of its
/// forty sizes of codes has room for 1456 bits. What the image holds after its
/// beginning is not said.
#[verifier::external_body]
pub(crate) fn qr_image(text: &str) -> (r: Result<String, String>)
    requires
        encode_utf8(text@).len() <= QR_BYTE_LIMIT,
    ensures
        r is Ok,
        match r {
            Ok(s) => qr_image_of(text@) == Ok::<Seq<char>, Seq<char>>(s@) && SVG_START@.is_prefix_of(
                s@,
            ),
            Err(e) => qr_image_of(text@) == Err::<Seq<char>, Seq<char>>(e@),
        },
{
    match qrcode::QrCode::new(text) {
        Ok(code) => Ok(code.render::<qrcode::render::svg::Color>().build()),
        Err(e) => Err(e.to_string()),
    }
}

/// What is told of an attempt to draw: the image, or a message.
pub open spec fn drawn(r: Result<Seq<char>, Seq<char>>) -> Result<Seq<char>, Seq<char>> {
    match r {
        Ok(svg) => Ok(svg),
        Err(e) => Err(failure("qr"@, e)),
    }
}

/// The texts of a result.
pub open spec fn texts(r: Result<String, String>) -> Result<Seq<char>, Seq<char>> {
    match r {
        Ok(s) => Ok(s@),
        Err(e) => Err(e@),
    }
}

/// What is told of an attempt to draw: the image, or a message.
pub fn drawn_or_message(r: Result<String, String>) -> (m: Result<String, String>)
    ensures
        texts(m) == drawn(texts(r)),
{
    match r {
        Ok(s) => Ok(s),
        Err(e) => Err(failure_text("qr", &e)),
    }
}

/// The QR code of an address, as an SVG image.
pub fn qr_svg(url: &str) -> (r: Result<String, String>)
    requires
        encode_utf8(url@).len() <= QR_BYTE_LIMIT,
    ensures
        texts(r) == drawn(qr_image_of(url@)),
        r matches Ok(s) && SVG_START@.is_prefix_of(s@),
{
    drawn_or_message(qr_image(url))
}

/// An image that was drawn is told as it is. An error is told with what failed.
pub proof fn law_what_is_told_of_drawing(svg: Seq<char>, error: Seq<char>, s: String)
    ensures
        drawn(Ok(svg)) == Ok::<Seq<char>, Seq<char>>(svg),
        drawn(Err(error)) == Err::<Seq<char>, Seq<char>>("qr: "@ + error),
        texts(Ok(s)) == Ok::<Seq<char>, Seq<char>>(s@),
        texts(Err(s)) == Err::<Seq<char>, Seq<char>>(s@),
{
    reveal_strlit("qr");
    reveal_strlit(": ");
    reveal_strlit("qr: ");
    assert("qr"@ + ": "@ =~= "qr: "@);
}

} // verus!
