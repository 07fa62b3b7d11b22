//! Bytes as hexadecimal text, and the SHA-256 digest.
use vstd::prelude::*;

use crate::text;

verus! {

/// The hexadecimal digit, in small letters, for a value below sixteen.
pub open spec fn hex_digit(value: int) -> char {
    if value < 10 {
        ((48 + value) as u32) as char
    } else {
        ((87 + value) as u32) as char
    }
}

/// The bytes as hexadecimal text, two small digits for each.
pub open spec fn hex_text(bytes: Seq<u8>) -> Seq<char> {
    Seq::new(
        2 * bytes.len(),
        |i: int|
            if i % 2 == 0 {
                hex_digit(bytes[i / 2] as int / 16)
            } else {
                hex_digit(bytes[i / 2] as int % 16)
            },
    )
}

/// Whether `c` is a hexadecimal digit, small or capital.
pub open spec fn is_hex_digit(c: char) -> bool {
    '0' <= c <= '9' || 'a' <= c <= 'f' || 'A' <= c <= 'F'
}

/// The value of a hexadecimal digit.
pub open spec fn hex_value(c: char) -> int {
    if '0' <= c <= '9' {
        c as int - 48
    } else if 'a' <= c <= 'f' {
        c as int - 87
    } else {
        c as int - 55
    }
}

/// The bytes that hexadecimal text stands for: an even number of digits and nothing else.
pub open spec fn hex_bytes(text: Seq<char>) -> Option<Seq<u8>> {
    if text.len() % 2 == 0 && forall|i: int| 0 <= i < text.len() ==> is_hex_digit(#[trigger] text[i]) {
        Some(
            Seq::new(
                text.len() / 2,
                |i: int| (16 * hex_value(text[2 * i]) + hex_value(text[2 * i + 1])) as u8,
            ),
        )
    } else {
        None
    }
}

/// Reading back hexadecimal text gives the bytes that it was made of.
pub proof fn hex_round_trip(bytes: Seq<u8>)
    ensures
        hex_bytes(hex_text(bytes)) == Some(bytes),
{
    let text = hex_text(bytes);
    assert forall|i: int| 0 <= i < text.len() implies is_hex_digit(#[trigger] text[i]) by {}
    assert forall|i: int| 0 <= i < bytes.len() implies (16 * hex_value(text[2 * i]) + hex_value(
        text[2 * i + 1],
    )) as u8 == #[trigger] bytes[i] by {
        assert(hex_value(text[2 * i]) == bytes[i] as int / 16);
        assert(hex_value(text[2 * i + 1]) == bytes[i] as int % 16);
    }
    assert(hex_bytes(text)->0 =~= bytes);
}

/// Every character of hexadecimal text is ASCII.
pub proof fn lemma_hex_text_ascii(bytes: Seq<u8>)
    ensures
        vstd::utf8::is_ascii_chars(hex_text(bytes)),
{
    assert forall|i: int| 0 <= i < hex_text(bytes).len() implies '\0' <= #[trigger] hex_text(
        bytes,
    )[i] <= '\u{7f}' by {}
}

/// The hexadecimal digit, in small letters, for a value below sixteen.
fn digit_of(value: u8) -> (digit: char)
    requires
        value < 16,
    ensures
        digit == hex_digit(value as int),
{
    if value < 10 {
        let code: u8 = 48 + value;
        code as char
    } else {
        let code: u8 = 87 + value;
        code as char
    }
}

/// The bytes as hexadecimal text.
pub fn to_hex(bytes: &Vec<u8>) -> (out: String)
    ensures
        out@ == hex_text(bytes@),
{
    let mut out = String::new();
    let mut i: usize = 0;
    while i < bytes.len()
        invariant
            i <= bytes@.len(),
            out@ == hex_text(bytes@.take(i as int)),
        decreases bytes@.len() - i,
    {
        let ghost before = out@;
        out.push(digit_of(bytes[i] / 16));
        out.push(digit_of(bytes[i] % 16));
        i += 1;
        proof {
            let taken = bytes@.take(i as int);
            assert forall|k: int| 0 <= k < out@.len() implies #[trigger] out@[k] == hex_text(
                taken,
            )[k] by {
                if k < before.len() {
                    assert(before[k] == hex_text(bytes@.take(i - 1))[k]);
                    assert(bytes@.take(i - 1)[k / 2] == taken[k / 2]);
                }
            }
            assert(out@ =~= hex_text(taken));
        }
    }
    assert(bytes@.take(bytes@.len() as int) =~= bytes@);
    out
}

/// The value of a hexadecimal digit.
fn value_of(c: char) -> (value: Option<u8>)
    ensures
        value is Some <==> is_hex_digit(c),
        value matches Some(inner) ==> inner == hex_value(c) && inner < 16,
{
    if '0' <= c && c <= '9' {
        Some(c as u8 - 48)
    } else if 'a' <= c && c <= 'f' {
        Some(c as u8 - 87)
    } else if 'A' <= c && c <= 'F' {
        Some(c as u8 - 55)
    } else {
        None
    }
}

/// The bytes that hexadecimal text stands for.
pub fn from_hex(text: &str) -> (bytes: Option<Vec<u8>>)
    ensures
        match bytes {
            Some(inner) => hex_bytes(text@) == Some(inner@),
            None => hex_bytes(text@) is None,
        },
{
    let chars = text::characters(text);
    if chars.len() % 2 != 0 {
        return None;
    }
    let mut bytes: Vec<u8> = Vec::new();
    let mut i: usize = 0;
    while i < chars.len()
        invariant
            chars@ == text@,
            text@.len() % 2 == 0,
            i <= chars@.len(),
            i % 2 == 0,
            bytes@.len() == i / 2,
            forall|k: int| 0 <= k < i ==> is_hex_digit(#[trigger] text@[k]),
            forall|k: int|
                0 <= k < i / 2 ==> #[trigger] bytes@[k] == (16 * hex_value(text@[2 * k]) + hex_value(
                    text@[2 * k + 1],
                )) as u8,
        decreases chars@.len() - i,
    {
        match (value_of(chars[i]), value_of(chars[i + 1])) {
            (Some(high), Some(low)) => {
                bytes.push(16 * high + low);
            },
            _ => {
                assert(!is_hex_digit(text@[i as int]) || !is_hex_digit(text@[i + 1]));
                return None;
            },
        }
        i += 2;
    }
    assert(hex_bytes(text@)->0 =~= bytes@);
    Some(bytes)
}

/// What `Sha256::digest` makes of bytes.
pub uninterp spec fn sha256_digest(bytes: Seq<u8>) -> Seq<u8>;

/// `sha2::Sha256::digest`: the 32 bytes of the digest, a function of the bytes alone.
#[verifier::external_body]
fn sha256(bytes: &[u8]) -> (digest: Vec<u8>)
    ensures
        digest@ == sha256_digest(bytes@),
        digest@.len() == 32,
{
    <sha2::Sha256 as sha2::Digest>::digest(bytes).to_vec()
}

/// The SHA-256 digest of bytes, as hexadecimal text.
pub open spec fn sha256_text(bytes: Seq<u8>) -> Seq<char> {
    hex_text(sha256_digest(bytes))
}

/// The SHA-256 digest of bytes, as 64 small hexadecimal digits.
pub fn sha256_hex(bytes: &[u8]) -> (out: String)
    ensures
        out@ == sha256_text(bytes@),
        out@.len() == 64,
        vstd::utf8::is_ascii_chars(out@),
{
    let digest = sha256(bytes);
    proof {
        lemma_hex_text_ascii(digest@);
    }
    to_hex(&digest)
}

/// Hexadecimal text has no white space around it.
pub proof fn lemma_hex_text_trimmed(bytes: Seq<u8>)
    ensures
        text::trimmed(hex_text(bytes)) == hex_text(bytes),
{
    let content = hex_text(bytes);
    if content.len() > 0 {
        assert(is_hex_digit(content[0]));
        assert(is_hex_digit(content[content.len() - 1]));
        assert(text::trim_start(content) == content);
    } else {
        assert(text::trimmed(content) =~= content);
    }
}

} // verus!
