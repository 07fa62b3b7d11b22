//! What a token (JWT) says of its owner and its end.
use base64::Engine;
use vstd::prelude::*;

use crate::json;
use crate::json::{Json, JsonView};
use crate::text;
use crate::time;
use crate::time::Timestamp;

verus! {

/// The value of a digit of the URL-safe base64 alphabet (RFC 4648).
pub open spec fn base64_value(c: char) -> Option<int> {
    if 'A' <= c <= 'Z' {
        Some(c as int - 65)
    } else if 'a' <= c <= 'z' {
        Some(c as int - 71)
    } else if '0' <= c <= '9' {
        Some(c as int + 4)
    } else if c == '-' {
        Some(62)
    } else if c == '_' {
        Some(63)
    } else {
        None
    }
}

/// The values of the digits of a text, where it holds nothing else.
pub open spec fn base64_values(text: Seq<char>) -> Option<Seq<int>> {
    if forall|i: int| 0 <= i < text.len() ==> base64_value(#[trigger] text[i]) is Some {
        Some(text.map_values(|c: char| base64_value(c)->0))
    } else {
        None
    }
}

/// The bytes that six-bit values stand for, four values for three bytes. The bits that fill up the
/// last value have to be zero.
pub open spec fn base64_groups(values: Seq<int>) -> Option<Seq<u8>>
    decreases values.len(),
{
    if values.len() == 0 {
        Some(Seq::empty())
    } else if values.len() == 1 {
        None
    } else {
        let first = (values[0] * 4 + values[1] / 16) as u8;
        if values.len() == 2 {
            if values[1] % 16 == 0 {
                Some(seq![first])
            } else {
                None
            }
        } else {
            let second = (values[1] % 16 * 16 + values[2] / 4) as u8;
            if values.len() == 3 {
                if values[2] % 4 == 0 {
                    Some(seq![first, second])
                } else {
                    None
                }
            } else {
                let third = (values[2] % 4 * 64 + values[3]) as u8;
                match base64_groups(values.skip(4)) {
                    Some(rest) => Some(seq![first, second, third] + rest),
                    None => None,
                }
            }
        }
    }
}

/// The bytes that a text in URL-safe base64 without padding stands for.
pub open spec fn base64_bytes(text: Seq<char>) -> Option<Seq<u8>> {
    match base64_values(text) {
        Some(values) => base64_groups(values),
        None => None,
    }
}

/// What was decoded, as a sequence.
pub open spec fn decoded(bytes: Option<Vec<u8>>) -> Option<Seq<u8>> {
    match bytes {
        Some(inner) => Some(inner@),
        None => None,
    }
}

/// `base64::engine::general_purpose::URL_SAFE_NO_PAD.decode` yields the bytes that the text stands
/// for, and reports an error on any other text: on padding, on other characters, on a digit too
/// many, and where bits beyond the last byte are set.
#[verifier::external_body]
fn decode_base64(encoded: &str) -> (bytes: Option<Vec<u8>>)
    ensures
        decoded(bytes) == base64_bytes(encoded@),
{
    base64::engine::general_purpose::URL_SAFE_NO_PAD.decode(encoded).ok()
}

/// The bytes of the second part of a token, its parts being separated by full stops.
pub open spec fn payload_bytes(token: Seq<char>) -> Option<Seq<u8>> {
    let parts = text::split_at_each(token, '.');
    if parts.len() < 2 {
        None
    } else {
        base64_bytes(parts[1])
    }
}

/// The bytes of the second part of a token.
pub fn jwt_payload_bytes(token: &str) -> (bytes: Option<Vec<u8>>)
    ensures
        decoded(bytes) == payload_bytes(token@),
{
    let parts = text::split(token, '.');
    assert(text::texts(parts@).len() == parts@.len());
    if parts.len() < 2 {
        return None;
    }
    assert(text::texts(parts@)[1] == parts@[1]@);
    decode_base64(parts[1].as_str())
}

/// The claims that a token makes.
pub open spec fn claims_of(token: Seq<char>) -> Option<JsonView> {
    match payload_bytes(token) {
        Some(bytes) => json::json_from_bytes(bytes),
        None => None,
    }
}

/// The claims that a token makes.
pub fn jwt_payload(token: &str) -> (claims: Option<Json>)
    ensures
        json::read(claims) == claims_of(token@),
{
    match jwt_payload_bytes(token) {
        Some(bytes) => Json::from_bytes(bytes.as_slice()),
        None => None,
    }
}

/// The end that claims state, where the calendar has it.
pub open spec fn claimed_expiry(claims: JsonView) -> Option<Timestamp> {
    match json::i64_in(json::member(claims, "exp"@)) {
        Some(secs) => if time::in_calendar(secs, 0) {
            Some(Timestamp { secs, nanos: 0 })
        } else {
            None
        },
        None => None,
    }
}

/// The end that claims state.
pub fn expiry_in(claims: &Json) -> (expiry: Option<Timestamp>)
    ensures
        expiry == claimed_expiry(claims@),
        expiry matches Some(inner) ==> inner.valid(),
{
    match claims.get("exp") {
        Some(value) => match value.as_i64() {
            Some(secs) => Timestamp::new(secs, 0),
            None => None,
        },
        None => None,
    }
}

/// The end of a token.
pub open spec fn expiry_of(token: Seq<char>) -> Option<Timestamp> {
    match claims_of(token) {
        Some(claims) => claimed_expiry(claims),
        None => None,
    }
}

/// The end of a token.
pub fn jwt_expiry(token: &str) -> (expiry: Option<Timestamp>)
    ensures
        expiry == expiry_of(token@),
        expiry matches Some(inner) ==> inner.valid(),
{
    match jwt_payload(token) {
        Some(claims) => expiry_in(&claims),
        None => None,
    }
}

/// A text trimmed and in small letters, where anything is left of it.
pub open spec fn lower_nonempty(value: Seq<char>) -> Option<Seq<char>> {
    if text::trimmed(value).len() == 0 {
        None
    } else {
        Some(text::lower(text::trimmed(value)))
    }
}

/// A text trimmed and in small letters, where anything is left of it.
pub fn nonempty_lowercase(value: &str) -> (out: Option<String>)
    ensures
        text::string_view(out) == lower_nonempty(value@),
{
    let value = text::trim(value);
    if text::is_empty_text(value.as_str()) {
        None
    } else {
        Some(text::ascii_lowercase(value.as_str()))
    }
}

/// A text that may be missing, trimmed and in small letters, where anything is left of it.
pub open spec fn lower_nonempty_of(value: Option<Seq<char>>) -> Option<Seq<char>> {
    match value {
        Some(inner) => lower_nonempty(inner),
        None => None,
    }
}

/// The account that claims name: under the member for authentication or else at the top.
pub open spec fn claimed_account(claims: JsonView) -> Option<Seq<char>> {
    let named = match json::pointed(
        claims,
        "/https:~1~1api.openai.com~1auth/chatgpt_account_id"@,
    ) {
        Some(inner) => Some(inner),
        None => json::member(claims, "chatgpt_account_id"@),
    };
    lower_nonempty_of(json::text_in(named))
}

/// The account that claims name.
pub fn account_in(claims: &Json) -> (account: Option<String>)
    ensures
        text::string_view(account) == claimed_account(claims@),
{
    let named = match claims.pointer("/https:~1~1api.openai.com~1auth/chatgpt_account_id") {
        Some(inner) => Some(inner),
        None => claims.get("chatgpt_account_id"),
    };
    match json::text_of_json(named) {
        Some(value) => nonempty_lowercase(value),
        None => None,
    }
}

/// The first of two texts that is there.
pub open spec fn either(first: Option<Seq<char>>, second: Option<Seq<char>>) -> Option<Seq<char>> {
    if first is Some {
        first
    } else {
        second
    }
}

/// The account that claims name, where there are claims.
pub open spec fn account_claimed(claims: Option<JsonView>) -> Option<Seq<char>> {
    match claims {
        Some(inner) => claimed_account(inner),
        None => None,
    }
}

/// The account that credentials belong to: by their account number, by the claims of their identity
/// token, or by the claims of their access token.
pub open spec fn account_by(
    account_id: Option<Seq<char>>,
    id_claims: Option<JsonView>,
    access_claims: Option<JsonView>,
) -> Option<Seq<char>> {
    either(
        lower_nonempty_of(account_id),
        either(account_claimed(id_claims), account_claimed(access_claims)),
    )
}

/// The account that credentials belong to, by what they and their tokens say.
pub fn account_named(
    account_id: Option<&str>,
    id_claims: Option<&Json>,
    access_claims: Option<&Json>,
) -> (account: Option<String>)
    ensures
        text::string_view(account) == account_by(
            text::text_view(account_id),
            json::found(id_claims),
            json::found(access_claims),
        ),
{
    if let Some(value) = account_id {
        if let Some(account) = nonempty_lowercase(value) {
            return Some(account);
        }
    }
    if let Some(claims) = id_claims {
        if let Some(account) = account_in(claims) {
            return Some(account);
        }
    }
    match access_claims {
        Some(claims) => account_in(claims),
        None => None,
    }
}

} // verus!
