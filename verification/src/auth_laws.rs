//! What holds of loaded credentials.
use vstd::prelude::*;

use crate::auth;
use crate::auth::AuthView;
use crate::digest;
use crate::json;
use crate::text;
use crate::time;
use crate::time::Timestamp;

verus! {

/// A credential text in hexadecimal digits is read as the bytes that they stand for, where it is
/// not JSON by itself.
pub proof fn hexadecimal_documents_are_read(bytes: Seq<u8>)
    requires
        json::json_from_text(digest::hex_text(bytes)) is None,
    ensures
        auth::document_in(digest::hex_text(bytes)) == json::json_from_bytes(bytes),
{
    digest::hex_round_trip(bytes);
    digest::lemma_hex_text_trimmed(bytes);
}

/// An account is named by a text that is not empty and has no capital letters of ASCII.
pub proof fn accounts_are_named_in_small_letters(state: AuthView)
    requires
        auth::identity_of(state) is Some,
    ensures
        auth::identity_of(state)->0.len() > 0,
        text::lower(auth::identity_of(state)->0) == auth::identity_of(state)->0,
{
    lemma_identity_source(state);
    let name = auth::identity_of(state)->0;
    let source = choose|source: Seq<char>|
        text::trimmed(source).len() > 0 && name == #[trigger] text::lower(text::trimmed(source));
    assert(text::lower(name) =~= name);
}

/// Where the name of an account comes from.
proof fn lemma_identity_source(state: AuthView)
    requires
        auth::identity_of(state) is Some,
    ensures
        exists|source: Seq<char>|
            text::trimmed(source).len() > 0 && auth::identity_of(state)->0 == #[trigger] text::lower(
                text::trimmed(source),
            ),
{
}

/// Whether an instant lies outside leap seconds.
pub open spec fn is_regular(instant: Timestamp) -> bool {
    instant.nanos < 1_000_000_000
}

/// A refresh that is due stays due as time goes on.
pub proof fn a_due_refresh_stays_due(
    expiry: Option<Timestamp>,
    refreshed: Option<Timestamp>,
    now: Timestamp,
    later: Timestamp,
)
    requires
        is_regular(now),
        is_regular(later),
        expiry matches Some(end) ==> is_regular(end),
        refreshed matches Some(before) ==> is_regular(before),
        time::elapsed_nanos(later, now) >= 0,
        auth::refresh_due(expiry, refreshed, now),
    ensures
        auth::refresh_due(expiry, refreshed, later),
{
    match expiry {
        Some(end) => {
            lemma_whole_seconds_grow(time::elapsed_nanos(end, later), time::elapsed_nanos(end, now));
        },
        None => {
            if let Some(before) = refreshed {
                lemma_whole_seconds_grow(
                    time::elapsed_nanos(now, before),
                    time::elapsed_nanos(later, before),
                );
            }
        },
    }
}

/// More nanoseconds are not fewer whole seconds.
proof fn lemma_whole_seconds_grow(less: int, more: int)
    requires
        less <= more,
    ensures
        time::whole_seconds(less) <= time::whole_seconds(more),
{
}

/// New tokens without an end do not need a refresh at once.
pub proof fn fresh_tokens_are_not_due(now: Timestamp)
    ensures
        !auth::refresh_due(None, Some(now), now),
{
}

} // verus!
