//! What new tokens change, and what they leave as it was.
use vstd::prelude::*;

use crate::auth;
use crate::auth::{AuthSourceView, AuthView};
use crate::credential_laws;
use crate::error::CodexError;
use crate::json;
use crate::json::JsonView;
use crate::json_text;
use crate::paths::PathView;
use crate::refresh;
use crate::refresh::TokensView;
use crate::stored::StoredView;
use crate::time;

verus! {

/// The member under two names, one in the other.
pub open spec fn member_under(document: JsonView, outer: Seq<char>, inner: Seq<char>) -> Option<
    JsonView,
> {
    json::member_of(json::member(document, outer), inner)
}

/// Whether a document can take tokens: it is an object, and its tokens are an object or missing.
pub open spec fn has_room_for_tokens(document: JsonView) -> bool {
    &&& document is Object
    &&& json::member(document, "tokens"@) matches Some(tokens) ==> tokens is Object
}

/// The names in a credential document differ.
proof fn lemma_names_differ()
    ensures
        "tokens"@ != "last_refresh"@,
        "access_token"@ != "refresh_token"@,
        "access_token"@ != "id_token"@,
        "access_token"@ != "last_refresh"@,
        "refresh_token"@ != "id_token"@,
        "refresh_token"@ != "last_refresh"@,
        "id_token"@ != "last_refresh"@,
        "id"@ != "access_token"@,
        "id"@ != "refresh_token"@,
        "id"@ != "last_refresh"@,
        "credential_pool"@ != "tokens"@,
{
    reveal_strlit("tokens");
    reveal_strlit("access_token");
    reveal_strlit("refresh_token");
    reveal_strlit("id_token");
    reveal_strlit("last_refresh");
    reveal_strlit("id");
    reveal_strlit("credential_pool");
    assert("tokens"@.len() == 6 && "access_token"@.len() == 12 && "refresh_token"@.len() == 13);
    assert("id_token"@.len() == 8 && "last_refresh"@.len() == 12 && "id"@.len() == 2);
    assert("access_token"@[0] == 'a' && "last_refresh"@[0] == 'l');
    assert("credential_pool"@.len() == 15);
}

/// What one new token changes in a document.
proof fn lemma_one_token(document: JsonView, name: Seq<char>, value: Seq<char>)
    ensures
        ({
            let changed = json::with_text_at(document, seq!["tokens"@, name], value);
            &&& changed is Some == has_room_for_tokens(document)
            &&& changed matches Some(after) ==> {
                &&& has_room_for_tokens(after)
                &&& member_under(after, "tokens"@, name) == Some(JsonView::Text(value))
                &&& forall|other: Seq<char>|
                    other != name ==> #[trigger] member_under(after, "tokens"@, other)
                        == member_under(document, "tokens"@, other)
                &&& forall|other: Seq<char>|
                    other != "tokens"@ ==> #[trigger] json::member(after, other) == json::member(
                        document,
                        other,
                    )
            }
        }),
{
    let path = seq!["tokens"@, name];
    assert(path.drop_first() =~= seq![name]);
    reveal_with_fuel(json::with_text_at, 3);
}

/// What new tokens change in a credential document.
proof fn lemma_document(document: JsonView, tokens: TokensView)
    ensures
        ({
            let changed = refresh::refreshed_document(document, tokens);
            &&& changed is Some == has_room_for_tokens(document)
            &&& changed matches Some(after) ==> {
                &&& member_under(after, "tokens"@, "access_token"@) == Some(
                    JsonView::Text(tokens.access_token),
                )
                &&& member_under(after, "tokens"@, "refresh_token"@) == (
                match tokens.refresh_token {
                    Some(value) => Some(JsonView::Text(value)),
                    None => member_under(document, "tokens"@, "refresh_token"@),
                })
                &&& member_under(after, "tokens"@, "id_token"@) == (match tokens.id_token {
                    Some(value) => Some(JsonView::Text(value)),
                    None => member_under(document, "tokens"@, "id_token"@),
                })
                &&& json::member(after, "last_refresh"@) == Some(
                    JsonView::Text(time::rfc3339_text(tokens.issued.secs, tokens.issued.nanos)),
                )
                &&& forall|other: Seq<char>|
                    other != "access_token"@ && other != "refresh_token"@ && other != "id_token"@
                        ==> #[trigger] member_under(after, "tokens"@, other) == member_under(
                        document,
                        "tokens"@,
                        other,
                    )
                &&& forall|other: Seq<char>|
                    other != "tokens"@ && other != "last_refresh"@ ==> #[trigger] json::member(
                        after,
                        other,
                    ) == json::member(document, other)
            }
        }),
{
    lemma_names_differ();
    lemma_one_token(document, "access_token"@, tokens.access_token);
    if has_room_for_tokens(document) {
        let d1 = json::with_text_at(
            document,
            seq!["tokens"@, "access_token"@],
            tokens.access_token,
        )->0;
        let d2 = match tokens.refresh_token {
            Some(value) => {
                lemma_one_token(d1, "refresh_token"@, value);
                json::with_text_at(d1, seq!["tokens"@, "refresh_token"@], value)->0
            },
            None => d1,
        };
        let d3 = match tokens.id_token {
            Some(value) => {
                lemma_one_token(d2, "id_token"@, value);
                json::with_text_at(d2, seq!["tokens"@, "id_token"@], value)->0
            },
            None => d2,
        };
        let written = refresh::issue_text(tokens);
        let d4 = json::with_text_at(d3, seq!["last_refresh"@], written)->0;
        assert(refresh::refreshed_document(document, tokens) == Some(d4));
        assert(d4->Object_0 == d3->Object_0.insert("last_refresh"@, JsonView::Text(written)));
        assert forall|other: Seq<char>| other != "last_refresh"@ implies #[trigger] json::member(
            d4,
            other,
        ) == json::member(d3, other) by {}
        assert(json::member(d4, "tokens"@) == json::member(d3, "tokens"@));
        assert forall|other: Seq<char>| #[trigger] member_under(d4, "tokens"@, other)
            == member_under(d3, "tokens"@, other) by {}
    }
}

/// New tokens go into the document where they are read: the access token, and the refresh and
/// identity tokens as far as there are new ones, among the tokens, and the time of issue as that of
/// the last refresh. Everything else in the document stays. A document that has no room for them is
/// invalid.
pub proof fn new_tokens_go_into_the_document(state: AuthView, tokens: TokensView)
    requires
        !(state.source is Hermes),
    ensures
        match refresh::refreshed(state, tokens) {
            Ok(after) => {
                &&& has_room_for_tokens(state.document)
                &&& after.source == state.source
                &&& after.account_id == state.account_id
                &&& after.access_token == tokens.access_token
                &&& after.refresh_token == (if tokens.refresh_token is Some {
                    tokens.refresh_token
                } else {
                    state.refresh_token
                })
                &&& after.last_refresh == Some(
                    time::rfc3339_text(tokens.issued.secs, tokens.issued.nanos),
                )
                &&& member_under(after.document, "tokens"@, "access_token"@) == Some(
                    JsonView::Text(tokens.access_token),
                )
                &&& tokens.refresh_token matches Some(value) ==> member_under(
                    after.document,
                    "tokens"@,
                    "refresh_token"@,
                ) == Some(JsonView::Text(value))
                &&& tokens.refresh_token is None ==> member_under(
                    after.document,
                    "tokens"@,
                    "refresh_token"@,
                ) == member_under(state.document, "tokens"@, "refresh_token"@)
                &&& tokens.id_token matches Some(value) ==> member_under(
                    after.document,
                    "tokens"@,
                    "id_token"@,
                ) == Some(JsonView::Text(value))
                &&& tokens.id_token is None ==> member_under(
                    after.document,
                    "tokens"@,
                    "id_token"@,
                ) == member_under(state.document, "tokens"@, "id_token"@)
                &&& json::member(after.document, "last_refresh"@) == Some(
                    JsonView::Text(time::rfc3339_text(tokens.issued.secs, tokens.issued.nanos)),
                )
                &&& forall|other: Seq<char>|
                    other != "access_token"@ && other != "refresh_token"@ && other != "id_token"@
                        ==> #[trigger] member_under(after.document, "tokens"@, other)
                        == member_under(state.document, "tokens"@, other)
                &&& forall|other: Seq<char>|
                    other != "tokens"@ && other != "last_refresh"@ ==> #[trigger] json::member(
                        after.document,
                        other,
                    ) == json::member(state.document, other)
            },
            Err(error) => error == CodexError::InvalidAuth && !has_room_for_tokens(state.document),
        },
{
    lemma_document(state.document, tokens);
}

/// Whether the entry of a pool at `at` has the new tokens and is otherwise as it was.
pub open spec fn has_new_tokens(before: JsonView, after: JsonView, tokens: TokensView) -> bool {
    &&& json::member(after, "access_token"@) == Some(JsonView::Text(tokens.access_token))
    &&& tokens.refresh_token matches Some(value) ==> json::member(after, "refresh_token"@) == Some(
        JsonView::Text(value),
    )
    &&& tokens.refresh_token is None ==> json::member(after, "refresh_token"@) == json::member(
        before,
        "refresh_token"@,
    )
    &&& json::member(after, "last_refresh"@) == Some(
        JsonView::Text(time::rfc3339_text(tokens.issued.secs, tokens.issued.nanos)),
    )
    &&& forall|other: Seq<char>|
        other != "access_token"@ && other != "refresh_token"@ && other != "last_refresh"@
            ==> #[trigger] json::member(after, other) == json::member(before, other)
}

/// Whether new tokens went into the entry of a pool at `at`, and nothing else changed.
pub open spec fn went_into_entry(
    state: AuthView,
    after: AuthView,
    tokens: TokensView,
    pool: Seq<JsonView>,
    at: int,
) -> bool {
    let entry = pool_after(after.document)[at];
    &&& after.source == state.source
    &&& after.account_id == state.account_id
    &&& after.access_token == tokens.access_token
    &&& after.refresh_token == (if tokens.refresh_token is Some {
        tokens.refresh_token
    } else {
        state.refresh_token
    })
    &&& after.last_refresh == Some(time::rfc3339_text(tokens.issued.secs, tokens.issued.nanos))
    &&& credential_laws::keeps_in_pool(after.document, pool.update(at, entry))
    &&& has_new_tokens(pool[at], entry, tokens)
    &&& forall|other: Seq<char>|
        other != "openai-codex"@ ==> #[trigger] member_under(
            after.document,
            "credential_pool"@,
            other,
        ) == member_under(state.document, "credential_pool"@, other)
    &&& forall|other: Seq<char>|
        other != "credential_pool"@ ==> #[trigger] json::member(after.document, other)
            == json::member(state.document, other)
}

/// New tokens of an account in a pool go into the first entry with its number. The other entries,
/// and everything else in the document, stay. Where no entry has the number, nothing can be written.
pub proof fn new_tokens_go_into_the_entry_of_the_pool(
    state: AuthView,
    path: PathView,
    id: Seq<char>,
    tokens: TokensView,
    pool: Seq<JsonView>,
)
    requires
        state.source == AuthSourceView::Hermes(path, id),
        credential_laws::keeps_in_pool(state.document, pool),
    ensures
        forall|at: int| #[trigger]
            credential_laws::is_first_with_number(pool, id, at) ==> (refresh::refreshed(
                state,
                tokens,
            ) matches Ok(after) && went_into_entry(state, after, tokens, pool, at)),
        (forall|i: int| 0 <= i < pool.len() ==> !credential_laws::has_number(#[trigger] pool[i], id))
            ==> refresh::refreshed(state, tokens) == Err::<AuthView, CodexError>(
            CodexError::AuthWrite,
        ),
{
    lemma_names_differ();
    assert(auth::pool_in(state.document) == Some(pool));
    if forall|i: int| 0 <= i < pool.len() ==> !credential_laws::has_number(#[trigger] pool[i], id) {
        assert forall|i: int| 0 <= i < pool.len() implies auth::credential_text(
            #[trigger] pool[i],
            "id"@,
        ) != Some(id) by {
            assert(!credential_laws::has_number(pool[i], id));
        }
        auth::lemma_first_credential(pool, id, pool.len() as int);
    }
    assert forall|at: int| #[trigger]
        credential_laws::is_first_with_number(pool, id, at) implies (refresh::refreshed(
        state,
        tokens,
    ) matches Ok(after) && went_into_entry(state, after, tokens, pool, at)) by {
        assert forall|i: int| 0 <= i < at implies auth::credential_text(
            #[trigger] pool[i],
            "id"@,
        ) != Some(id) by {
            assert(!credential_laws::has_number(pool[i], id));
        }
        auth::lemma_first_credential(pool, id, at);
        let changed = refresh::refreshed_credential(pool[at], tokens);
        let after = refresh::refreshed(state, tokens)->Ok_0;
        let later = pool.update(at, changed);
        assert(credential_laws::keeps_in_pool(after.document, later));
        assert(pool_after(after.document) == later);
        assert(later[at] == changed);
        assert(pool.update(at, later[at]) =~= later);
        assert(has_new_tokens(pool[at], changed, tokens));
    }
}

/// The entries in the pool of a document that keeps one.
pub open spec fn pool_after(document: JsonView) -> Seq<JsonView> {
    member_under(document, "credential_pool"@, "openai-codex"@)->0->List_0
}

/// New tokens of an account in a pool cannot be written where the document keeps no list of
/// credentials.
pub proof fn tokens_need_their_pool(
    state: AuthView,
    path: PathView,
    id: Seq<char>,
    tokens: TokensView,
)
    requires
        state.source == AuthSourceView::Hermes(path, id),
        forall|pool: Seq<JsonView>| !(#[trigger] credential_laws::keeps_in_pool(
            state.document,
            pool,
        )),
    ensures
        refresh::refreshed(state, tokens) == Err::<AuthView, CodexError>(CodexError::AuthWrite),
{
    if let Some(pool) = auth::pool_in(state.document) {
        assert(credential_laws::keeps_in_pool(state.document, pool));
    }
}

/// Documents without doubles count as equal only where they are the same.
pub proof fn only_the_same_document_counts_as_equal(left: JsonView, right: JsonView)
    requires
        json_text::holds_integers(left),
        json::same_json(left, right),
    ensures
        left == right,
    decreases left,
{
    match (left, right) {
        (JsonView::List(a), JsonView::List(b)) => {
            assert forall|i: int| 0 <= i < a.len() implies a[i] == #[trigger] b[i] by {
                assert(json_text::holds_integers(left->List_0[i]));
                assert(json::same_json(left->List_0[i], right->List_0[i]));
                only_the_same_document_counts_as_equal(left->List_0[i], right->List_0[i]);
            }
            assert(a =~= b);
        },
        (JsonView::Object(a), JsonView::Object(b)) => {
            assert forall|key: Seq<char>| a.contains_key(key) implies a[key] == #[trigger] b[key] by {
                assert(json_text::holds_integers(left->Object_0[key]));
                assert(json::same_json(left->Object_0[key], right->Object_0[key]));
                only_the_same_document_counts_as_equal(left->Object_0[key], right->Object_0[key]);
            }
            assert(a =~= b);
        },
        _ => {},
    }
}

/// A document without doubles counts as equal to itself.
pub proof fn a_document_counts_as_equal_to_itself(document: JsonView)
    requires
        json_text::holds_integers(document),
    ensures
        json::same_json(document, document),
    decreases document,
{
    match document {
        JsonView::List(items) => {
            assert forall|i: int| 0 <= i < items.len() implies json::same_json(
                #[trigger] document->List_0[i],
                document->List_0[i],
            ) by {
                assert(json_text::holds_integers(document->List_0[i]));
                a_document_counts_as_equal_to_itself(document->List_0[i]);
            }
        },
        JsonView::Object(members) => {
            assert forall|key: Seq<char>| members.contains_key(key) implies json::same_json(
                #[trigger] document->Object_0[key],
                document->Object_0[key],
            ) by {
                assert(json_text::holds_integers(document->Object_0[key]));
                a_document_counts_as_equal_to_itself(document->Object_0[key]);
            }
        },
        _ => {},
    }
}

/// New tokens are taken exactly where the place that the credentials came from still holds their
/// document: then they change as without the test, and otherwise the account counts as changed.
/// This is stated of documents without doubles.
pub proof fn new_tokens_are_taken_where_nothing_changed(
    state: AuthView,
    stored: StoredView,
    tokens: TokensView,
)
    requires
        json_text::holds_integers(state.document),
        auth::reloaded_from(
            state.source,
            auth::source_content(state.source, stored),
        ) matches Ok(current) ==> json_text::holds_integers(current.document),
    ensures
        ({
            let again = auth::reloaded_from(
                state.source,
                auth::source_content(state.source, stored),
            );
            let is_unchanged = again matches Ok(current) && current.document == state.document;
            &&& is_unchanged ==> refresh::refreshed_if_current(state, stored, tokens)
                == refresh::refreshed(state, tokens)
            &&& !is_unchanged ==> refresh::refreshed_if_current(state, stored, tokens) == Err::<
                AuthView,
                CodexError,
            >(CodexError::AccountChanged)
        }),
{
    a_document_counts_as_equal_to_itself(state.document);
    if let Ok(current) = auth::reloaded_from(
        state.source,
        auth::source_content(state.source, stored),
    ) {
        if json::same_json(current.document, state.document) {
            only_the_same_document_counts_as_equal(current.document, state.document);
        }
    }
}

/// What is stored is one line in the keychain and, in a file, indented text with a line feed behind
/// it.
pub proof fn files_are_stored_in_lines(source: AuthSourceView, document: JsonView)
    ensures
        source is Keychain ==> refresh::stored_text(source, document) == json_text::compact_json(
            document,
        ),
        !(source is Keychain) ==> refresh::stored_text(source, document)
            == json_text::pretty_json(document).push('\n'),
{
    reveal_strlit("\n");
    assert(json_text::pretty_json(document) + "\n"@ =~= json_text::pretty_json(document).push(
        '\n',
    ));
}

} // verus!
