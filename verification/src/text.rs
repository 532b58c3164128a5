use vstd::prelude::*;
use vstd::string::StrSliceExecFns;
use vstd::utf8::{decode_utf8, decode_utf8_encode_utf8, valid_utf8};

verus! {

/// The hexadecimal digit of a value below sixteen.
pub open spec fn hex_digit(value: int) -> char {
    "0123456789abcdef"@[value]
}

/// The bytes in hexadecimal: two digits for each byte, the high half first.
pub open spec fn hex_text(raw: Seq<u8>) -> Seq<char> {
    Seq::new(
        2 * raw.len(),
        |i: int|
            hex_digit(
                if i % 2 == 0 {
                    raw[i / 2] as int / 16
                } else {
                    raw[i / 2] as int % 16
                },
            ),
    )
}

/// The text that shows the bytes: the text that they spell in UTF-8, and
/// their hexadecimal form where they spell none.
pub open spec fn shown_text(raw: Seq<u8>) -> Seq<char> {
    if valid_utf8(raw) {
        decode_utf8(raw)
    } else {
        hex_text(raw)
    }
}

/// `core::str::from_utf8`, with its error dropped: the bytes as a text where
/// they are valid UTF-8, and nothing where they are not. This is what the
/// standard library documents; it is not proved here.
#[verifier::external_body]
pub(crate) fn utf8_text(raw: &[u8]) -> (r: Option<&str>)
    ensures
        r is Some <==> valid_utf8(raw@),
        r matches Some(text) ==> text@ == decode_utf8(raw@),
{
    core::str::from_utf8(raw).ok()
}

/// `String::push`: the character is added at the end of the text.
#[verifier::external_body]
pub(crate) fn push_char(text: &mut String, c: char)
    ensures
        final(text)@ == old(text)@.push(c),
{
    text.push(c)
}

/// Writes the bytes in hexadecimal.
pub fn hex(raw: &Vec<u8>) -> (text: String)
    ensures
        text@ == hex_text(raw@),
{
    let digits = "0123456789abcdef";
    proof {
        reveal_strlit("0123456789abcdef");
    }
    let mut text = String::new();
    for i in 0..raw.len()
        invariant
            digits@ == "0123456789abcdef"@,
            digits@.len() == 16,
            text@ == hex_text(raw@.take(i as int)),
    {
        let byte: u8 = raw[i];
        let high: usize = (byte / 16) as usize;
        let low: usize = (byte % 16) as usize;
        push_char(&mut text, digits.get_char(high));
        push_char(&mut text, digits.get_char(low));
        assert(text@ =~= hex_text(raw@.take(i + 1)));
    }
    assert(raw@.take(raw@.len() as int) =~= raw@);
    text
}

/// Shows the bytes as a text: the text that they spell in UTF-8, and their
/// hexadecimal form where they spell none.
pub fn text_of(raw: &Vec<u8>) -> (text: String)
    ensures
        text@ == shown_text(raw@),
{
    match utf8_text(raw.as_slice()) {
        Some(text) => text.to_owned(),
        None => hex(raw),
    }
}

/// The text shown for some bytes is empty only where there are no bytes.
pub proof fn shown_text_is_empty_for_no_bytes_only(raw: Seq<u8>)
    ensures
        shown_text(raw).len() == 0 <==> raw.len() == 0,
{
    if valid_utf8(raw) && raw.len() > 0 {
        assert(decode_utf8(raw).len() > 0);
    }
}

/// Where the two digits of a byte stand in the hexadecimal form.
pub proof fn hex_text_at(raw: Seq<u8>, k: int)
    requires
        0 <= k < raw.len(),
    ensures
        hex_text(raw).len() == 2 * raw.len(),
        hex_text(raw)[2 * k] == hex_digit(raw[k] as int / 16),
        hex_text(raw)[2 * k + 1] == hex_digit(raw[k] as int % 16),
{
    assert((2 * k) % 2 == 0 && (2 * k) / 2 == k);
    assert((2 * k + 1) % 2 == 1 && (2 * k + 1) / 2 == k);
}

/// No two values below sixteen have the same hexadecimal digit.
pub proof fn hex_digits_differ(p: int, q: int)
    requires
        0 <= p < 16,
        0 <= q < 16,
        hex_digit(p) == hex_digit(q),
    ensures
        p == q,
{
    reveal_strlit("0123456789abcdef");
    let d = "0123456789abcdef"@;
    assert(d[0] == '0' && d[1] == '1' && d[2] == '2' && d[3] == '3');
    assert(d[4] == '4' && d[5] == '5' && d[6] == '6' && d[7] == '7');
    assert(d[8] == '8' && d[9] == '9' && d[10] == 'a' && d[11] == 'b');
    assert(d[12] == 'c' && d[13] == 'd' && d[14] == 'e' && d[15] == 'f');
}

/// The hexadecimal form tells the bytes: no two lists of bytes have the same.
pub proof fn hex_text_tells_the_bytes(a: Seq<u8>, b: Seq<u8>)
    requires
        hex_text(a) == hex_text(b),
    ensures
        a == b,
{
    assert(hex_text(a).len() == 2 * a.len());
    assert(hex_text(b).len() == 2 * b.len());
    assert forall|k: int| 0 <= k < a.len() implies a[k] == b[k] by {
        hex_text_at(a, k);
        hex_text_at(b, k);
        hex_digits_differ(a[k] as int / 16, b[k] as int / 16);
        hex_digits_differ(a[k] as int % 16, b[k] as int % 16);
    }
    assert(a =~= b);
}

/// The text shown tells the bytes, once it is known whether they are valid
/// UTF-8: among the valid, and among the others, no two lists of bytes are
/// shown as the same text.
pub proof fn shown_text_tells_the_bytes(a: Seq<u8>, b: Seq<u8>)
    requires
        valid_utf8(a) == valid_utf8(b),
        shown_text(a) == shown_text(b),
    ensures
        a == b,
{
    if valid_utf8(a) {
        decode_utf8_encode_utf8(a);
        decode_utf8_encode_utf8(b);
    } else {
        hex_text_tells_the_bytes(a, b);
    }
}

} // verus!
