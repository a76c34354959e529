//! Lowercase hex helpers for the textual encodings of fixed-size binary
//! values (identities, hashes, keys, signatures).

use vstd::prelude::*;

use crate::text::{chars_of, digit_char, digit_str};

verus! {

/// The value of a hexadecimal digit, lowercase or uppercase.
pub open spec fn hex_value(c: char) -> Option<int> {
    if '0' <= c <= '9' {
        Some(c as int - '0' as int)
    } else if 'a' <= c <= 'f' {
        Some(c as int - 'a' as int + 10)
    } else if 'A' <= c <= 'F' {
        Some(c as int - 'A' as int + 10)
    } else {
        None
    }
}

/// A text of pairs of hexadecimal digits.
pub open spec fn is_hex(text: Seq<char>) -> bool {
    &&& text.len() % 2 == 0
    &&& forall|i: int| 0 <= i < text.len() ==> hex_value(#[trigger] text[i]) is Some
}

/// The bytes that a hexadecimal text denotes.
pub open spec fn hex_bytes(text: Seq<char>) -> Seq<u8> {
    Seq::new(
        text.len() / 2,
        |i: int|
            (16 * hex_value(text[2 * i]).unwrap() + hex_value(text[2 * i + 1]).unwrap()) as u8,
    )
}

/// The lowercase hexadecimal text of some bytes, two digits for each.
pub open spec fn hex_text(bytes: Seq<u8>) -> Seq<char> {
    Seq::new(
        2 * bytes.len(),
        |i: int|
            if i % 2 == 0 {
                digit_char(bytes[i / 2] as int / 16)
            } else {
                digit_char(bytes[i / 2] as int % 16)
            },
    )
}

/// The `n` bytes of a text that is their hexadecimal form, if it is one.
pub open spec fn hex_array(text: Seq<char>, n: nat) -> Option<Seq<u8>> {
    if is_hex(text) && text.len() == 2 * n {
        Some(hex_bytes(text))
    } else {
        None
    }
}

/// Encode bytes as lowercase hex.
pub fn encode(bytes: &[u8]) -> (r: String)
    ensures
        r@ == hex_text(bytes@),
{
    let mut out: String = String::new();
    let mut i: usize = 0;
    while i < bytes.len()
        invariant
            i <= bytes@.len(),
            out@ == hex_text(bytes@.take(i as int)),
        decreases bytes@.len() - i,
    {
        let byte: u8 = bytes[i];
        out.append(digit_str(byte / 16));
        out.append(digit_str(byte % 16));
        assert(out@ =~= hex_text(bytes@.take(i + 1)));
        i = i + 1;
    }
    assert(bytes@.take(i as int) =~= bytes@);
    out
}

/// The value of a hexadecimal digit character.
fn digit_value(c: char) -> (r: Option<u8>)
    ensures
        r matches Some(v) ==> hex_value(c) == Some(v as int) && v < 16,
        r is None ==> hex_value(c) is None,
{
    if '0' <= c && c <= '9' {
        Some((c as u32 - '0' as u32) as u8)
    } else if 'a' <= c && c <= 'f' {
        Some((c as u32 - 'a' as u32 + 10) as u8)
    } else if 'A' <= c && c <= 'F' {
        Some((c as u32 - 'A' as u32 + 10) as u8)
    } else {
        None
    }
}

/// Decode the hex characters `chars[from..]`.
pub(crate) fn decode_chars(chars: &Vec<char>, from: usize) -> (r: Option<Vec<u8>>)
    requires
        from <= chars@.len(),
    ensures
        r matches Some(v) ==> is_hex(chars@.skip(from as int)) && v@ == hex_bytes(
            chars@.skip(from as int),
        ),
        r is None ==> !is_hex(chars@.skip(from as int)),
{
    let ghost text = chars@.skip(from as int);
    if (chars.len() - from) % 2 != 0 {
        return None;
    }
    let mut out: Vec<u8> = Vec::new();
    let mut i: usize = from;
    while i < chars.len()
        invariant
            from <= i <= chars@.len(),
            (chars@.len() - from) % 2 == 0,
            (i - from) % 2 == 0,
            text == chars@.skip(from as int),
            out@ == hex_bytes(text.take(i - from)),
            forall|j: int| 0 <= j < i - from ==> hex_value(#[trigger] text[j]) is Some,
        decreases chars@.len() - i,
    {
        assert(text[i - from] == chars@[i as int]);
        assert(text[i - from + 1] == chars@[i + 1]);
        let high: u8 = match digit_value(chars[i]) {
            Some(v) => v,
            None => {
                return None;
            },
        };
        let low: u8 = match digit_value(chars[i + 1]) {
            Some(v) => v,
            None => {
                return None;
            },
        };
        out.push(16 * high + low);
        assert(out@ =~= hex_bytes(text.take(i - from + 2)));
        i = i + 2;
    }
    assert(text.take(i - from) =~= text);
    Some(out)
}

/// Decode lowercase or uppercase hex into bytes. Returns `None` on any
/// malformed input.
pub fn decode(text: &str) -> (r: Option<Vec<u8>>)
    ensures
        r matches Some(v) ==> is_hex(text@) && v@ == hex_bytes(text@),
        r is None ==> !is_hex(text@),
{
    let chars: Vec<char> = chars_of(text);
    assert(chars@.skip(0) =~= text@);
    decode_chars(&chars, 0)
}

/// The bytes as an array, if there are exactly `N` of them.
pub fn to_array<const N: usize>(bytes: &Vec<u8>) -> (r: Option<[u8; N]>)
    ensures
        r matches Some(a) ==> a@ == bytes@,
        (r is Some) == (bytes@.len() == N),
{
    if bytes.len() != N {
        return None;
    }
    let mut out: [u8; N] = [0u8; N];
    let mut i: usize = 0;
    while i < N
        invariant
            i <= N,
            bytes@.len() == N,
            out@.len() == N,
            forall|j: int| 0 <= j < i ==> out@[j] == bytes@[j],
        decreases N - i,
    {
        out[i] = bytes[i];
        i = i + 1;
    }
    assert(out@ =~= bytes@);
    Some(out)
}

/// Decode hex into an exact-size array.
pub fn decode_array<const N: usize>(text: &str) -> (r: Option<[u8; N]>)
    ensures
        r matches Some(a) ==> hex_array(text@, N as nat) == Some(a@),
        r is None ==> hex_array(text@, N as nat) is None,
{
    match decode(text) {
        Some(bytes) => to_array::<N>(&bytes),
        None => None,
    }
}

/// Decoding what was encoded gives the bytes back.
pub proof fn decode_encode(bytes: Seq<u8>)
    ensures
        is_hex(hex_text(bytes)),
        hex_bytes(hex_text(bytes)) == bytes,
        hex_array(hex_text(bytes), bytes.len()) == Some(bytes),
{
    let text = hex_text(bytes);
    assert forall|i: int| 0 <= i < text.len() implies hex_value(#[trigger] text[i]) is Some by {
        digit_values(bytes[i / 2] as int / 16);
        digit_values(bytes[i / 2] as int % 16);
    }
    assert forall|i: int| 0 <= i < bytes.len() implies #[trigger] bytes[i] == hex_bytes(
        text,
    )[i] by {
        digit_values(bytes[i] as int / 16);
        digit_values(bytes[i] as int % 16);
        assert((2 * i) / 2 == i);
        assert((2 * i + 1) / 2 == i);
    }
    assert(hex_bytes(text) =~= bytes);
}

/// A hexadecimal digit in lowercase.
pub open spec fn lower_digit(c: char) -> char {
    if 'A' <= c <= 'F' {
        (c as int - 'A' as int + 'a' as int) as char
    } else {
        c
    }
}

/// A text with its hexadecimal digits in lowercase.
pub open spec fn lowercase(text: Seq<char>) -> Seq<char> {
    text.map_values(|c: char| lower_digit(c))
}

/// Encoding what was decoded gives the text back, in lowercase digits.
pub proof fn encode_decode(text: Seq<char>)
    requires
        is_hex(text),
    ensures
        hex_text(hex_bytes(text)) == lowercase(text),
{
    let bytes = hex_bytes(text);
    assert forall|i: int| 0 <= i < text.len() implies hex_text(bytes)[i] == lower_digit(
        #[trigger] text[i],
    ) by {
        let k = i / 2;
        let high = hex_value(text[2 * k]).unwrap();
        let low = hex_value(text[2 * k + 1]).unwrap();
        assert(bytes[k] == (16 * high + low) as u8);
        assert(bytes[k] as int / 16 == high);
        assert(bytes[k] as int % 16 == low);
        if i % 2 == 0 {
            assert(i == 2 * k);
        } else {
            assert(i == 2 * k + 1);
        }
    }
    assert(hex_text(bytes) =~= lowercase(text));
}

proof fn digit_values(d: int)
    requires
        0 <= d < 16,
    ensures
        hex_value(digit_char(d)) == Some(d),
{
}

} // verus!
