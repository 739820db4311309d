//! Framing of the OSC 7717 channel: `ESC ] 7717 ; verb ; action ; payload BEL`
//! with the payload in standard Base64.
use base64::Engine;
use crate::text::{concat, string_of};
use vstd::prelude::*;
use vstd::utf8::encode_utf8;

verus! {

/// The standard Base64 alphabet.
pub open spec fn b64_char(v: nat) -> char {
    if v < 26 {
        ((65 + v) as u32) as char
    } else if v < 52 {
        ((97 + (v - 26)) as u32) as char
    } else if v < 62 {
        ((48 + (v - 52)) as u32) as char
    } else if v == 62 {
        '+'
    } else {
        '/'
    }
}

/// Standard Base64 (RFC 4648, with `=` padding) of a byte sequence.
pub open spec fn base64(b: Seq<u8>) -> Seq<char>
    decreases b.len(),
{
    if b.len() == 0 {
        Seq::<char>::empty()
    } else if b.len() == 1 {
        seq![b64_char((b[0] / 4) as nat), b64_char(((b[0] % 4) * 16) as nat), '=', '=']
    } else if b.len() == 2 {
        seq![
            b64_char((b[0] / 4) as nat),
            b64_char(((b[0] % 4) * 16 + b[1] / 16) as nat),
            b64_char(((b[1] % 16) * 4) as nat),
            '=',
        ]
    } else {
        seq![
            b64_char((b[0] / 4) as nat),
            b64_char(((b[0] % 4) * 16 + b[1] / 16) as nat),
            b64_char(((b[1] % 16) * 4 + b[2] / 64) as nat),
            b64_char((b[2] % 64) as nat),
        ] + base64(b.skip(3))
    }
}

/// `base64::engine::general_purpose::STANDARD.encode(payload)`: the standard
/// alphabet with padding, over the UTF-8 bytes of `payload`.
#[verifier::external_body]
fn encode_standard(payload: &str) -> (r: String)
    ensures
        r@ == base64(encode_utf8(payload@)),
{
    base64::engine::general_purpose::STANDARD.encode(payload)
}

/// The escape sequence that carries `payload` for `verb ; action`.
pub open spec fn osc_frame_of(verb: Seq<char>, action: Seq<char>, payload: Seq<char>) -> Seq<char> {
    seq!['\u{1b}', ']', '7', '7', '1', '7', ';'] + verb + seq![';'] + action + seq![';'] + base64(
        encode_utf8(payload),
    ) + seq!['\u{7}']
}

/// Frames `payload` for the channel.
pub fn osc_frame(verb: &str, action: &str, payload: &str) -> (r: String)
    ensures
        r@ == osc_frame_of(verb@, action@, payload@),
{
    let mut v: Vec<char> = Vec::new();
    v.push('\u{1b}');
    v.push(']');
    v.push('7');
    v.push('7');
    v.push('1');
    v.push('7');
    v.push(';');
    let head = string_of(&v);
    let a = concat(head.as_str(), verb);
    let b = concat(a.as_str(), ";");
    let c = concat(b.as_str(), action);
    let d = concat(c.as_str(), ";");
    let enc = encode_standard(payload);
    let e = concat(d.as_str(), enc.as_str());
    let f = concat(e.as_str(), "\u{7}");
    proof {
        reveal_strlit(";");
        reveal_strlit("\u{7}");
        assert(v@ =~= seq!['\u{1b}', ']', '7', '7', '1', '7', ';']);
        assert(f@ =~= osc_frame_of(verb@, action@, payload@));
    }
    f
}

} // verus!
