//! Whom credentials belong to, and when they need a refresh.
use vstd::prelude::*;

use crate::accounts;
use crate::auth;
use crate::auth::AuthView;
use crate::auth_laws;
use crate::digest;
use crate::json;
use crate::json::JsonView;
use crate::pointers;
use crate::text;
use crate::text_laws;
use crate::time;
use crate::time::Timestamp;
use crate::token;

verus! {

/// The account that a text names: the text without the blanks around it, in small letters.
pub open spec fn names_account(value: Option<JsonView>, account: Seq<char>) -> bool {
    match json::text_in(value) {
        Some(inner) => text::trimmed(inner).len() > 0 && account == text::lower(
            text::trimmed(inner),
        ),
        None => false,
    }
}

/// Where claims name an account: `chatgpt_account_id` in the member for authentication, else at the
/// top.
pub open spec fn account_member(claims: JsonView) -> Option<JsonView> {
    let nested = json::member_of(
        json::member(claims, "https://api.openai.com/auth"@),
        "chatgpt_account_id"@,
    );
    if nested is Some {
        nested
    } else {
        json::member(claims, "chatgpt_account_id"@)
    }
}

/// What a name that starts with no digit leads to.
proof fn lemma_step_by_name(json: JsonView, name: Seq<char>)
    requires
        name.len() > 0,
        !('0' <= name[0] <= '9'),
    ensures
        json::step(json, name) == json::member(json, name),
{
    if json is List {
        let items = json->List_0;
        assert forall|i: int| 0 <= i < items.len() implies #[trigger] text::decimal(i as nat)
            != name by {
            pointers::lemma_decimal_start(i as nat);
        }
    }
}

/// The name of the member for authentication, as a pointer writes it.
proof fn lemma_escaped_name()
    ensures
        json::unescaped("https:~1~1api.openai.com~1auth"@) == "https://api.openai.com/auth"@,
{
    reveal_strlit("https:~1~1api.openai.com~1auth");
    reveal_strlit("https://api.openai.com/auth");
    reveal_strlit("https:");
    reveal_strlit("api.openai.com");
    reveal_strlit("auth");
    let name = "https:~1~1api.openai.com~1auth"@;
    lemma_unescaped_prefix("https:"@, name.skip(6));
    assert("https:"@ + name.skip(6) =~= name);
    let second = name.skip(6);
    assert(second[0] == '~' && second[1] == '1');
    let third = second.skip(2);
    assert(third[0] == '~' && third[1] == '1');
    let fourth = third.skip(2);
    let rest = fourth.skip(14);
    assert("api.openai.com"@ + rest =~= fourth);
    lemma_unescaped_prefix("api.openai.com"@, rest);
    assert(rest[0] == '~' && rest[1] == '1');
    let last = rest.skip(2);
    assert(last =~= "auth"@);
    pointers::lemma_unescaped_plain(last);
    assert(json::unescaped(rest) =~= seq!['/'] + "auth"@);
    assert(json::unescaped(fourth) =~= "api.openai.com"@ + (seq!['/'] + "auth"@));
    assert(json::unescaped(third) =~= seq!['/'] + ("api.openai.com"@ + (seq!['/'] + "auth"@)));
    assert(json::unescaped(second) =~= seq!['/'] + json::unescaped(third));
    assert(json::unescaped(name) =~= "https://api.openai.com/auth"@);
}

/// Characters before an escape stay.
proof fn lemma_unescaped_prefix(plain: Seq<char>, rest: Seq<char>)
    requires
        forall|i: int| 0 <= i < plain.len() ==> #[trigger] plain[i] != '~',
    ensures
        json::unescaped(plain + rest) == plain + json::unescaped(rest),
    decreases plain.len(),
{
    let all = plain + rest;
    if plain.len() == 0 {
        assert(all =~= rest);
        assert(plain + json::unescaped(rest) =~= json::unescaped(rest));
    } else {
        assert(plain[0] != '~');
        let less = plain.skip(1);
        assert forall|i: int| 0 <= i < less.len() implies #[trigger] less[i] != '~' by {
            assert(less[i] == plain[i + 1]);
        }
        lemma_unescaped_prefix(less, rest);
        assert(all.skip(1) =~= less + rest);
        assert(seq![plain[0]] + (less + json::unescaped(rest)) =~= plain + json::unescaped(rest));
    }
}

/// What the pointer to the account leads to.
proof fn lemma_account_pointer(claims: JsonView)
    ensures
        json::pointed(claims, "/https:~1~1api.openai.com~1auth/chatgpt_account_id"@)
            == json::member_of(
            json::member(claims, "https://api.openai.com/auth"@),
            "chatgpt_account_id"@,
        ),
{
    let pointer = "/https:~1~1api.openai.com~1auth/chatgpt_account_id"@;
    let first = "https:~1~1api.openai.com~1auth"@;
    let second = "chatgpt_account_id"@;
    reveal_strlit("/https:~1~1api.openai.com~1auth/chatgpt_account_id");
    reveal_strlit("https:~1~1api.openai.com~1auth");
    reveal_strlit("chatgpt_account_id");
    reveal_strlit("https://api.openai.com/auth");
    let none = Seq::<char>::empty();
    assert(pointer =~= none + seq!['/'] + (first + seq!['/'] + second));
    text_laws::pieces_end_at_separators(none, first + seq!['/'] + second, '/');
    assert(!text_laws::holds_char(first, '/'));
    assert(!text_laws::holds_char(second, '/'));
    text_laws::pieces_end_at_separators(first, second, '/');
    text_laws::pieces_end_at_separators(second, none, '/');
    let pieces = text::split_at_each(pointer, '/');
    assert(pieces =~= seq![none, first, second]);
    let names = pieces.drop_first();
    assert(names =~= seq![first, second]);
    assert(names.drop_first() =~= seq![second]);
    assert(names.drop_first().drop_first() =~= Seq::<Seq<char>>::empty());
    lemma_escaped_name();
    pointers::lemma_unescaped_plain(second);
    lemma_step_by_name(claims, "https://api.openai.com/auth"@);
    if let Some(inner) = json::member(claims, "https://api.openai.com/auth"@) {
        lemma_step_by_name(inner, second);
    }
    reveal_with_fuel(json::walk, 3);
}

/// Claims name the account under `chatgpt_account_id`, in the member for authentication or, where
/// that has none, at the top.
pub proof fn claims_name_the_account(claims: JsonView)
    ensures
        match token::claimed_account(claims) {
            Some(account) => names_account(account_member(claims), account),
            None => forall|account: Seq<char>| !names_account(account_member(claims), account),
        },
{
    lemma_account_pointer(claims);
    if token::claimed_account(claims) is None {
        assert forall|account: Seq<char>| !names_account(account_member(claims), account) by {}
    }
}

/// The claims of the identity token in a document.
pub open spec fn identity_claims(document: JsonView) -> Option<JsonView> {
    match json::text_in(json::member_of(json::member(document, "tokens"@), "id_token"@)) {
        Some(inner) => token::claims_of(inner),
        None => None,
    }
}

/// Whether claims that may be missing name an account.
pub open spec fn claims_name(claims: Option<JsonView>, account: Seq<char>) -> bool {
    claims matches Some(inner) && names_account(account_member(inner), account)
}

/// Whether claims that may be missing name no account.
pub open spec fn claims_name_none(claims: Option<JsonView>) -> bool {
    claims matches Some(inner) ==> forall|account: Seq<char>|
        !names_account(account_member(inner), account)
}

/// Credentials belong to the account that they state; where they state none, to the account that
/// the claims of their identity token name; where those name none, to the one that the claims of
/// their access token name.
pub proof fn credentials_belong_to_this_account(state: AuthView)
    ensures
        ({
            let identity = auth::identity_of(state);
            let stated = state.account_id matches Some(inner) && text::trimmed(inner).len() > 0;
            let by_identity = identity_claims(state.document);
            let by_access = token::claims_of(state.access_token);
            &&& stated ==> identity == Some(text::lower(text::trimmed(state.account_id->0)))
            &&& !stated && !claims_name_none(by_identity) ==> (identity matches Some(account)
                && claims_name(by_identity, account))
            &&& !stated && claims_name_none(by_identity) && !claims_name_none(by_access) ==> (
            identity matches Some(account) && claims_name(by_access, account))
            &&& !stated && claims_name_none(by_identity) && claims_name_none(by_access)
                ==> identity is None
        }),
{
    if let Some(claims) = identity_claims(state.document) {
        claims_name_the_account(claims);
    }
    if let Some(claims) = token::claims_of(state.access_token) {
        claims_name_the_account(claims);
    }
}

/// The claims of a token are the JSON in its second part: what stands between its first two full
/// stops, in base64.
pub proof fn claims_stand_in_the_second_part(
    header: Seq<char>,
    payload: Seq<char>,
    rest: Seq<char>,
)
    requires
        !text_laws::holds_char(header, '.'),
        !text_laws::holds_char(payload, '.'),
    ensures
        ({
            let claims = match token::base64_bytes(payload) {
                Some(bytes) => json::json_from_bytes(bytes),
                None => None,
            };
            &&& token::claims_of(header + seq!['.'] + (payload + seq!['.'] + rest)) == claims
            &&& token::claims_of(header + seq!['.'] + payload) == claims
            &&& token::claims_of(header) is None
        }),
{
    text_laws::pieces_end_at_separators(header, payload + seq!['.'] + rest, '.');
    text_laws::pieces_end_at_separators(header, payload, '.');
    text_laws::pieces_end_at_separators(payload, rest, '.');
}

/// A token ends at the second that its claims state under `exp`, where the calendar has it.
pub proof fn a_token_ends_at_the_second_it_states(token_text: Seq<char>)
    ensures
        ({
            let claims = token::claims_of(token_text);
            let stated = json::i64_in(json::member_of(claims, "exp"@));
            match token::expiry_of(token_text) {
                Some(end) => stated == Some(end.secs) && end.nanos == 0,
                None => stated matches Some(second) ==> second < -8_334_601_228_800 || second
                    > 8_210_266_876_799,
            }
        }),
{
}

/// The nanoseconds of an instant since the start of 1970.
pub open spec fn in_nanos(instant: Timestamp) -> int {
    instant.secs * 1_000_000_000 + instant.nanos
}

/// A token with an end is refreshed in the last five minutes before it and afterwards, to the
/// second; a token without one, where the last refresh is nine days back; and one without either,
/// never. This is stated of instants outside leap seconds.
pub proof fn a_refresh_is_due_five_minutes_before_the_end(
    expiry: Option<Timestamp>,
    refreshed: Option<Timestamp>,
    now: Timestamp,
)
    requires
        auth_laws::is_regular(now),
        expiry matches Some(end) ==> auth_laws::is_regular(end),
        refreshed matches Some(before) ==> auth_laws::is_regular(before),
    ensures
        auth::refresh_due(expiry, refreshed, now) == (match (expiry, refreshed) {
            (Some(end), _) => in_nanos(end) - in_nanos(now) < 301 * 1_000_000_000,
            (None, Some(before)) => in_nanos(now) - in_nanos(before) >= 9 * 86_400 * 1_000_000_000,
            (None, None) => false,
        }),
{
}

/// The time of the last refresh is the instant that the credentials state.
pub proof fn the_last_refresh_is_the_stated_one(state: AuthView)
    ensures
        match auth::refreshed_at(state) {
            Some(instant) => state.last_refresh is Some && time::rfc3339_instant(
                state.last_refresh->0,
            ) == Some((instant.secs, instant.nanos)),
            None => state.last_refresh is None || time::rfc3339_instant(
                state.last_refresh->0,
            ) is None,
        },
{
}

/// A stamp is the digest of the name of the account, whatever case its letters of ASCII are in, as
/// hexadecimal digits.
pub proof fn a_stamp_is_the_digest_of_the_name(name: Seq<char>, other: Seq<char>)
    ensures
        text::lower(name) == text::lower(other) ==> accounts::stamp_of(name) == accounts::stamp_of(
            other,
        ),
        digest::hex_bytes(accounts::stamp_of(name)) == Some(
            digest::sha256_digest(vstd::utf8::encode_utf8(text::lower(name))),
        ),
{
    digest::hex_round_trip(digest::sha256_digest(vstd::utf8::encode_utf8(text::lower(name))));
}

/// Hexadecimal digits: two of them make a byte, the first for its upper half, and small letters and
/// capitals count alike.
pub proof fn two_digits_make_a_byte(upper: char, lower: char, high: int, low: int)
    requires
        0 <= high < 16,
        0 <= low < 16,
        high < 10 ==> upper as int == 48 + high,
        high >= 10 ==> upper as int == 87 + high || upper as int == 55 + high,
        low < 10 ==> lower as int == 48 + low,
        low >= 10 ==> lower as int == 87 + low || lower as int == 55 + low,
    ensures
        digest::hex_bytes(seq![upper, lower]) == Some(seq![(16 * high + low) as u8]),
{
    let pair = seq![upper, lower];
    assert(digest::is_hex_digit(pair[0]) && digest::is_hex_digit(pair[1]));
    assert(digest::hex_bytes(pair)->0 =~= seq![(16 * high + low) as u8]);
}

/// The account of a source is that of the first of its credentials that belong to one.
pub proof fn a_source_has_the_account_of_its_first_credentials(
    source: accounts::CodexSourceView,
    stored: crate::stored::StoredView,
    at: int,
)
    requires
        auth::source_states(source, stored) is Ok,
        0 <= at < auth::source_states(source, stored)->Ok_0.len(),
        auth::identity_of(auth::source_states(source, stored)->Ok_0[at]) is Some,
        forall|i: int|
            0 <= i < at ==> auth::identity_of(
                #[trigger] auth::source_states(source, stored)->Ok_0[i],
            ) is None,
    ensures
        accounts::source_identity(source, stored) == auth::identity_of(
            auth::source_states(source, stored)->Ok_0[at],
        ),
{
    lemma_first_account(auth::source_states(source, stored)->Ok_0, at);
}

/// The first account of credentials.
proof fn lemma_first_account(states: Seq<AuthView>, at: int)
    requires
        0 <= at < states.len(),
        auth::identity_of(states[at]) is Some,
        forall|i: int| 0 <= i < at ==> auth::identity_of(#[trigger] states[i]) is None,
    ensures
        auth::first_identity(states) == auth::identity_of(states[at]),
    decreases states.len(),
{
    let before = states.drop_last();
    if at < before.len() {
        assert(before[at] == states[at]);
        assert forall|i: int| 0 <= i < at implies auth::identity_of(#[trigger] before[i]) is None by {
            assert(before[i] == states[i]);
        }
        lemma_first_account(before, at);
    } else {
        lemma_no_account(before);
    }
}

/// Credentials that belong to no one have no account.
proof fn lemma_no_account(states: Seq<AuthView>)
    requires
        forall|i: int| 0 <= i < states.len() ==> auth::identity_of(#[trigger] states[i]) is None,
    ensures
        auth::first_identity(states) is None,
    decreases states.len(),
{
    if states.len() > 0 {
        let before = states.drop_last();
        assert forall|i: int| 0 <= i < before.len() implies auth::identity_of(
            #[trigger] before[i],
        ) is None by {
            assert(before[i] == states[i]);
        }
        lemma_no_account(before);
        assert(auth::identity_of(states[states.len() - 1]) is None);
    }
}

/// A source without credentials, or whose credentials belong to no one, has no account.
pub proof fn a_source_without_an_account_has_none(
    source: accounts::CodexSourceView,
    stored: crate::stored::StoredView,
)
    requires
        auth::source_states(source, stored) matches Ok(states) ==> forall|i: int|
            0 <= i < states.len() ==> auth::identity_of(#[trigger] states[i]) is None,
    ensures
        accounts::source_identity(source, stored) is None,
{
    if let Ok(states) = auth::source_states(source, stored) {
        lemma_no_account(states);
    }
}

} // verus!
