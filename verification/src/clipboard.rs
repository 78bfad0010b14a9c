//! The terminal escape sequence (OSC 52) that puts text on the clipboard.

use vstd::prelude::*;

use crate::text::{chars_of, string_of};
use vstd::string::StringSliceAdditionalSpecFns;
use vstd::utf8::encode_utf8;

verus! {

broadcast use vstd::string::group_string_axioms;

/// The digit of the standard base64 alphabet for a 6-bit value.
pub open spec fn b64_digit(v: int) -> char {
    if v < 26 {
        (('A' as u32) + v) as char
    } else if v < 52 {
        (('a' as u32) + v - 26) as char
    } else if v < 62 {
        (('0' as u32) + v - 52) as char
    } else if v == 62 {
        '+'
    } else {
        '/'
    }
}

/// Standard base64 with padding (RFC 4648, section 4): every three bytes
/// become four digits; a final one or two bytes become four digits ending
/// in `==` or `=`.
pub open spec fn base64(b: Seq<u8>) -> Seq<char>
    decreases b.len(),
{
    if b.len() == 0 {
        Seq::empty()
    } else if b.len() == 1 {
        seq![b64_digit(b[0] as int / 4), b64_digit((b[0] % 4) * 16), '=', '=']
    } else if b.len() == 2 {
        seq![
            b64_digit(b[0] as int / 4),
            b64_digit((b[0] % 4) * 16 + b[1] / 16),
            b64_digit((b[1] % 16) * 4),
            '=',
        ]
    } else {
        seq![
            b64_digit(b[0] as int / 4),
            b64_digit((b[0] % 4) * 16 + b[1] / 16),
            b64_digit((b[1] % 16) * 4 + b[2] / 64),
            b64_digit(b[2] as int % 64),
        ] + base64(b.skip(3))
    }
}

/// `bytes` in standard base64.
///
/// Trusted: calls `Engine::encode` of the `base64` crate on
/// `base64::engine::general_purpose::STANDARD` (the standard alphabet with
/// padding), which panics only when the encoded length overflows `usize`.
#[verifier::external_body]
fn base64_standard(bytes: &[u8]) -> (s: String)
    requires
        bytes@.len() <= usize::MAX / 2,
    ensures
        s@ == base64(bytes@),
{
    base64::Engine::encode(&base64::engine::general_purpose::STANDARD, bytes)
}

/// The escape sequence that asks the terminal to put `text` on the
/// clipboard: `ESC ] 52 ; c ;`, the UTF-8 bytes of `text` in base64, `BEL`.
pub open spec fn spec_clipboard_sequence(text: Seq<char>) -> Seq<char> {
    seq!['\x1b', ']', '5', '2', ';', 'c', ';'] + base64(encode_utf8(text)) + seq!['\x07']
}

pub fn clipboard_sequence(text: &str) -> (r: String)
    requires
        text.spec_bytes().len() <= usize::MAX / 2,
    ensures
        r@ == spec_clipboard_sequence(text@),
{
    let encoded = base64_standard(text.as_bytes());
    let enc = chars_of(encoded.as_str());
    let mut out: Vec<char> = Vec::new();
    out.push('\x1b');
    out.push(']');
    out.push('5');
    out.push('2');
    out.push(';');
    out.push('c');
    out.push(';');
    let ghost head = out@;
    let mut i: usize = 0;
    while i < enc.len()
        invariant
            0 <= i <= enc@.len(),
            out@ == head + enc@.take(i as int),
        decreases enc@.len() - i,
    {
        out.push(enc[i]);
        assert(enc@.take(i + 1) == enc@.take(i as int).push(enc@[i as int]));
        i = i + 1;
    }
    assert(enc@.take(enc@.len() as int) == enc@);
    out.push('\x07');
    assert(out@ =~= spec_clipboard_sequence(text@));
    string_of(out.as_slice())
}

} // verus!
