//! Where credentials are found, what they hold and whom they belong to.
use vstd::prelude::*;

use crate::accounts::CodexSourceView;
use crate::auth;
use crate::auth::{AuthSourceView, AuthView};
use crate::digest;
use crate::error::CodexError;
use crate::json;
use crate::json::JsonView;
use crate::paths;
use crate::paths::{PathView, RootView};
use crate::stored;
use crate::stored::StoredView;
use crate::text;

verus! {

/// The text under two names, one in the other.
pub open spec fn text_under(document: JsonView, outer: Seq<char>, inner: Seq<char>) -> Option<
    Seq<char>,
> {
    json::text_in(json::member_of(json::member(document, outer), inner))
}

/// Whether a text holds a document: as JSON, or, where it is no JSON, as the hexadecimal digits of
/// JSON.
pub open spec fn holds_document(content: Seq<char>, document: JsonView) -> bool {
    ||| json::json_from_text(content) == Some(document)
    ||| json::json_from_text(content) is None && digest::hex_bytes(text::trimmed(content)) is Some
        && json::json_from_bytes(digest::hex_bytes(text::trimmed(content))->0) == Some(document)
}

/// Whether a text holds an access token that is more than white space.
pub open spec fn holds_usable_token(content: Seq<char>) -> bool {
    exists|document: JsonView|
        #![trigger holds_document(content, document)]
        holds_document(content, document) && text_under(
            document,
            "tokens"@,
            "access_token"@,
        ) is Some && text::trimmed(text_under(document, "tokens"@, "access_token"@)->0).len() > 0
}

/// The file `auth.json` below the home directory of the user, in a directory.
pub open spec fn home_auth_file(directory: Seq<Seq<char>>) -> PathView {
    PathView { root: RootView::Home, parts: directory.push("auth.json"@) }
}

/// The file `auth.json` in a directory that is written out.
pub open spec fn written_auth_file(directory: Seq<char>) -> PathView {
    PathView { root: RootView::Text(directory), parts: seq!["auth.json"@] }
}

/// Whether a file is one of those in which the standard credentials may lie: that of the directory
/// in the setting, or, without a setting, `~/.config/codex/auth.json` or `~/.codex/auth.json`.
pub open spec fn is_standard_file(setting: Option<Seq<char>>, file: PathView) -> bool {
    match setting {
        Some(value) if value.len() > 0 => file == written_auth_file(value),
        _ => file == home_auth_file(seq![".config"@, "codex"@]) || file == home_auth_file(
            seq![".codex"@],
        ),
    }
}

/// Whether a file was read and holds a usable token.
pub open spec fn has_usable_file(stored: StoredView, file: PathView) -> bool {
    stored.files.contains_key(file) && holds_usable_token(stored.files[file])
}

/// Whether usable credentials are on the machine: in one of the standard files or in the keychain.
pub open spec fn has_usable_credentials(stored: StoredView) -> bool {
    ||| exists|file: PathView| #[trigger]
        has_usable_file(stored, file) && is_standard_file(stored.configured_home, file)
    ||| stored.keychain matches Some(content) && holds_usable_token(content)
}

/// What a text holds.
proof fn lemma_document(content: Seq<char>)
    ensures
        forall|document: JsonView| #[trigger]
            holds_document(content, document) == (auth::document_in(content) == Some(document)),
        holds_usable_token(content) == (auth::document_in(content) is Some && auth::has_credentials(
            auth::document_in(content)->0,
        )),
{
    if auth::document_in(content) is Some {
        assert(holds_document(content, auth::document_in(content)->0));
    }
}

/// The standard files are these.
proof fn lemma_standard_files(setting: Option<Seq<char>>, file: PathView)
    ensures
        is_standard_file(setting, file) == paths::standard_auth_files(setting).contains(file),
{
    let files = paths::standard_auth_files(setting);
    let in_config = home_auth_file(seq![".config"@, "codex"@]);
    let in_codex = home_auth_file(seq![".codex"@]);
    assert(paths::auth_file(
        paths::joined_path(paths::joined_path(paths::home_view(), ".config"@), "codex"@),
    ).parts =~= in_config.parts);
    assert(paths::auth_file(paths::joined_path(paths::home_view(), ".codex"@)).parts
        =~= in_codex.parts);
    match setting {
        Some(value) if value.len() > 0 => {
            assert(paths::auth_file(paths::written_path(value)).parts =~= written_auth_file(
                value,
            ).parts);
            assert(files[0] == written_auth_file(value));
        },
        _ => {
            assert(files[0] == in_config);
            assert(files[1] == in_codex);
        },
    }
}

/// Usable credentials are seen wherever they lie: in any of the standard files or in the keychain,
/// and nowhere else.
pub proof fn usable_credentials_are_seen(stored: StoredView)
    ensures
        (auth::any_credentials(stored, paths::standard_auth_files(stored.configured_home))
            || auth::keychain_has_credentials(stored)) == has_usable_credentials(stored),
{
    let files = paths::standard_auth_files(stored.configured_home);
    if auth::any_credentials(stored, files) {
        let i = choose|i: int|
            0 <= i < files.len() && auth::has_credentials_at(stored, #[trigger] files[i]);
        lemma_standard_files(stored.configured_home, files[i]);
        lemma_document(stored.files[files[i]]);
        assert(files.contains(files[i]));
        assert(has_usable_file(stored, files[i]));
    }
    if exists|file: PathView| #[trigger]
        has_usable_file(stored, file) && is_standard_file(stored.configured_home, file) {
        let file = choose|file: PathView| #[trigger]
            has_usable_file(stored, file) && is_standard_file(stored.configured_home, file);
        lemma_standard_files(stored.configured_home, file);
        lemma_document(stored.files[file]);
        let i = choose|i: int| 0 <= i < files.len() && files[i] == file;
        assert(auth::has_credentials_at(stored, files[i]));
    }
    if let Some(content) = stored.keychain {
        lemma_document(content);
    }
}

/// Whether credentials are those that a document of its own holds: the access, refresh and account
/// texts among its tokens, the time of its last refresh, and the document itself.
pub open spec fn are_those_of(state: AuthView, source: AuthSourceView, document: JsonView) -> bool {
    &&& state.source == source
    &&& state.document == document
    &&& text_under(document, "tokens"@, "access_token"@) == Some(state.access_token)
    &&& state.refresh_token == text_under(document, "tokens"@, "refresh_token"@)
    &&& state.account_id == text_under(document, "tokens"@, "account_id"@)
    &&& state.last_refresh == json::text_in(json::member(document, "last_refresh"@))
}

/// Whether a text holds a document with an access token that is not empty.
pub open spec fn is_signed_in(content: Seq<char>) -> bool {
    exists|document: JsonView|
        #![trigger holds_document(content, document)]
        holds_document(content, document) && (text_under(
            document,
            "tokens"@,
            "access_token"@,
        ) matches Some(value) && value.len() > 0)
}

/// A file gives the credentials of the document that its text holds. One that cannot be read or
/// holds no document is invalid, and one without an access token is not signed in.
pub proof fn a_file_gives_the_credentials_it_holds(path: PathView, content: Option<Seq<char>>)
    ensures
        match auth::file_state(path, content) {
            Ok(state) => content is Some && is_signed_in(content->0) && holds_document(
                content->0,
                state.document,
            ) && are_those_of(state, AuthSourceView::File(path), state.document)
                && state.access_token.len() > 0,
            Err(error) => {
                &&& content is Some ==> !is_signed_in(content->0)
                &&& error == CodexError::NotLoggedIn || error == CodexError::InvalidAuth
                &&& (error == CodexError::NotLoggedIn) == (content is Some
                    && exists|document: JsonView|
                    holds_document(content->0, document))
            },
        },
{
    if let Some(inner) = content {
        lemma_document(inner);
        if auth::document_in(inner) is Some {
            assert(holds_document(inner, auth::document_in(inner)->0));
        }
    }
}

/// The keychain gives the credentials of the document that its text holds, where it holds an access
/// token.
pub proof fn the_keychain_gives_the_credentials_it_holds(content: Option<Seq<char>>)
    ensures
        match auth::keychain_state(content) {
            Some(state) => content is Some && is_signed_in(content->0) && holds_document(
                content->0,
                state.document,
            ) && are_those_of(state, AuthSourceView::Keychain, state.document)
                && state.access_token.len() > 0,
            None => content is Some ==> !is_signed_in(content->0),
        },
{
    if let Some(inner) = content {
        lemma_document(inner);
        if auth::document_in(inner) is Some {
            assert(holds_document(inner, auth::document_in(inner)->0));
        }
    }
}

/// Whether a file was read and holds an access token that is not empty.
pub open spec fn is_signed_in_file(stored: StoredView, file: PathView) -> bool {
    stored.files.contains_key(file) && is_signed_in(stored.files[file])
}

/// Whether a file was read and holds an API key that is not empty and no access token.
pub open spec fn is_key_file(stored: StoredView, file: PathView) -> bool {
    &&& stored.files.contains_key(file)
    &&& !is_signed_in(stored.files[file])
    &&& exists|document: JsonView|
        #![trigger holds_document(stored.files[file], document)]
        holds_document(stored.files[file], document) && (json::text_in(
            json::member(document, "OPENAI_API_KEY"@),
        ) matches Some(key) && key.len() > 0)
}

/// Whether credentials were loaded from a file.
pub open spec fn is_from_file(state: AuthView, file: PathView) -> bool {
    state.source == AuthSourceView::File(file)
}

/// The standard credentials are those in the standard files, `~/.config/codex` before `~/.codex`,
/// and behind them those in the keychain: every signed-in place gives one, and no other does. Where
/// there are none, a file with an API key alone makes the difference between the two reasons.
pub proof fn every_standard_place_gives_its_credentials(stored: StoredView)
    ensures
        match auth::standard_states(stored) {
            Ok(states) => {
                let in_config = home_auth_file(seq![".config"@, "codex"@]);
                let in_codex = home_auth_file(seq![".codex"@]);
                let is_set = stored.configured_home matches Some(value) && value.len() > 0;
                let setting = written_auth_file(stored.configured_home->0);
                let files = if is_set {
                    if is_signed_in_file(stored, setting) {
                        seq![setting]
                    } else {
                        Seq::empty()
                    }
                } else if is_signed_in_file(stored, in_config) && is_signed_in_file(
                    stored,
                    in_codex,
                ) {
                    seq![in_config, in_codex]
                } else if is_signed_in_file(stored, in_config) {
                    seq![in_config]
                } else if is_signed_in_file(stored, in_codex) {
                    seq![in_codex]
                } else {
                    Seq::empty()
                };
                let has_keychain = stored.keychain matches Some(content) && is_signed_in(content);
                &&& states.len() > 0
                &&& states.len() == files.len() + (if has_keychain {
                    1int
                } else {
                    0
                })
                &&& forall|i: int|
                    0 <= i < files.len() ==> is_from_file(#[trigger] states[i], files[i])
                        && holds_document(stored.files[files[i]], states[i].document)
                        && are_those_of(
                        states[i],
                        AuthSourceView::File(files[i]),
                        states[i].document,
                    )
                &&& has_keychain ==> {
                    let last = states.last();
                    are_those_of(last, AuthSourceView::Keychain, last.document)
                        && holds_document(stored.keychain->0, last.document)
                }
            },
            Err(error) => {
                &&& forall|file: PathView|
                    is_standard_file(stored.configured_home, file) ==> !(
                    #[trigger] is_signed_in_file(stored, file))
                &&& stored.keychain matches Some(content) ==> !is_signed_in(content)
                &&& (exists|file: PathView| #[trigger]
                    is_key_file(stored, file) && is_standard_file(stored.configured_home, file))
                    ==> error == CodexError::ApiKeyOnly
                &&& !(exists|file: PathView| #[trigger]
                    is_key_file(stored, file) && is_standard_file(stored.configured_home, file))
                    ==> error == CodexError::NotLoggedIn
            },
        },
{
    let files = paths::standard_auth_files(stored.configured_home);
    let in_config = home_auth_file(seq![".config"@, "codex"@]);
    let in_codex = home_auth_file(seq![".codex"@]);
    assert(paths::auth_file(
        paths::joined_path(paths::joined_path(paths::home_view(), ".config"@), "codex"@),
    ).parts =~= in_config.parts);
    assert(paths::auth_file(paths::joined_path(paths::home_view(), ".codex"@)).parts
        =~= in_codex.parts);
    the_keychain_gives_the_credentials_it_holds(stored.keychain);
    let is_set = stored.configured_home matches Some(value) && value.len() > 0;
    if is_set {
        let file = written_auth_file(stored.configured_home->0);
        assert(paths::auth_file(paths::written_path(stored.configured_home->0)).parts
            =~= file.parts);
        assert(files =~= seq![file]);
        lemma_one_file(stored, file);
        lemma_key_file(stored, file);
        assert(files[0] == file);
        assert forall|other: PathView| #[trigger]
            is_key_file(stored, other) && is_standard_file(
                stored.configured_home,
                other,
            ) implies auth::is_api_key_file(stored, files[0]) by {}
    } else {
        assert(files =~= seq![in_config, in_codex]);
        lemma_two_files(stored, in_config, in_codex);
        lemma_key_file(stored, in_config);
        lemma_key_file(stored, in_codex);
        assert(files[0] == in_config && files[1] == in_codex);
    }
}

/// Whether a file gives an API key alone.
pub proof fn lemma_key_file(stored: StoredView, file: PathView)
    ensures
        is_key_file(stored, file) == auth::is_api_key_file(stored, file),
        is_signed_in_file(stored, file) == (auth::file_state(
            file,
            stored::content_of(stored, file),
        ) is Ok),
{
    if stored.files.contains_key(file) {
        let content = stored.files[file];
        lemma_document(content);
        a_file_gives_the_credentials_it_holds(file, Some(content));
        if auth::document_in(content) is Some {
            assert(holds_document(content, auth::document_in(content)->0));
        }
    }
}

/// The credentials in one file.
proof fn lemma_one_file(stored: StoredView, file: PathView)
    ensures
        auth::states_at(stored, seq![file]) == (match auth::file_state(
            file,
            stored::content_of(stored, file),
        ) {
            Ok(state) => seq![state],
            Err(_) => Seq::<AuthView>::empty(),
        }),
        auth::file_state(file, stored::content_of(stored, file)) matches Ok(state)
            ==> is_signed_in_file(stored, file) && holds_document(
            stored.files[file],
            state.document,
        ) && are_those_of(state, AuthSourceView::File(file), state.document),
        is_signed_in_file(stored, file) == (auth::file_state(
            file,
            stored::content_of(stored, file),
        ) is Ok),
{
    assert(seq![file].drop_last() =~= Seq::<PathView>::empty());
    reveal_with_fuel(auth::states_at, 2);
    a_file_gives_the_credentials_it_holds(file, stored::content_of(stored, file));
    lemma_key_file(stored, file);
    if let Ok(state) = auth::file_state(file, stored::content_of(stored, file)) {
        assert(auth::states_at(stored, seq![file]) =~= seq![state]);
    }
}

/// The credentials in two files.
proof fn lemma_two_files(stored: StoredView, first: PathView, second: PathView)
    ensures
        auth::states_at(stored, seq![first, second]) == auth::states_at(stored, seq![first])
            + auth::states_at(stored, seq![second]),
        ({
            let one = auth::file_state(first, stored::content_of(stored, first));
            let other = auth::file_state(second, stored::content_of(stored, second));
            &&& is_signed_in_file(stored, first) == one is Ok
            &&& is_signed_in_file(stored, second) == other is Ok
            &&& auth::states_at(stored, seq![first]) == (match one {
                Ok(state) => seq![state],
                Err(_) => Seq::<AuthView>::empty(),
            })
            &&& auth::states_at(stored, seq![second]) == (match other {
                Ok(state) => seq![state],
                Err(_) => Seq::<AuthView>::empty(),
            })
            &&& one matches Ok(state) ==> holds_document(stored.files[first], state.document)
                && are_those_of(state, AuthSourceView::File(first), state.document)
            &&& other matches Ok(state) ==> holds_document(stored.files[second], state.document)
                && are_those_of(state, AuthSourceView::File(second), state.document)
        }),
{
    lemma_one_file(stored, first);
    lemma_one_file(stored, second);
    let both = seq![first, second];
    assert(both.drop_last() =~= seq![first]);
    assert(auth::states_at(stored, both) =~= auth::states_at(stored, seq![first])
        + auth::states_at(stored, seq![second]));
}

/// Whether a credential of a pool has a number.
pub open spec fn has_number(credential: JsonView, id: Seq<char>) -> bool {
    json::text_in(json::member(credential, "id"@)) == Some(id)
}

/// Whether the first credential with a number in the pool of a document stands at `at`.
pub open spec fn is_first_with_number(pool: Seq<JsonView>, id: Seq<char>, at: int) -> bool {
    &&& 0 <= at < pool.len()
    &&& has_number(pool[at], id)
    &&& forall|i: int| 0 <= i < at ==> !has_number(#[trigger] pool[i], id)
}

/// Whether a document keeps those credentials in its pool.
pub open spec fn keeps_in_pool(document: JsonView, pool: Seq<JsonView>) -> bool {
    json::member_of(json::member(document, "credential_pool"@), "openai-codex"@) == Some(
        JsonView::List(pool),
    )
}

/// A pool gives the credentials of the first entry with the number, by the texts of that entry. It
/// is invalid where the document keeps no list of them, and no one is signed in where no entry has
/// the number or that entry has no access token.
pub proof fn a_pool_gives_the_credentials_of_the_number(
    path: PathView,
    id: Seq<char>,
    document: JsonView,
)
    ensures
        forall|pool: Seq<JsonView>, at: int|
            #![trigger keeps_in_pool(document, pool), is_first_with_number(pool, id, at)]
            keeps_in_pool(document, pool) && is_first_with_number(pool, id, at) ==> {
                let entry = pool[at];
                let access_token = json::text_in(json::member(entry, "access_token"@));
                match auth::hermes_state_in(path, id, document) {
                    Ok(state) => {
                        &&& access_token == Some(state.access_token)
                        &&& state.access_token.len() > 0
                        &&& state.source == AuthSourceView::Hermes(path, id)
                        &&& state.document == document
                        &&& state.refresh_token == json::text_in(
                            json::member(entry, "refresh_token"@),
                        )
                        &&& state.last_refresh == json::text_in(
                            json::member(entry, "last_refresh"@),
                        )
                        &&& state.account_id is None
                    },
                    Err(error) => error == CodexError::NotLoggedIn && (access_token matches Some(
                        value,
                    ) ==> value.len() == 0),
                }
            },
        forall|pool: Seq<JsonView>|
            #![trigger keeps_in_pool(document, pool)]
            keeps_in_pool(document, pool) && (forall|i: int|
                0 <= i < pool.len() ==> !has_number(#[trigger] pool[i], id))
                ==> auth::hermes_state_in(path, id, document) == Err::<AuthView, CodexError>(
                CodexError::NotLoggedIn,
            ),
        (forall|pool: Seq<JsonView>| !(#[trigger] keeps_in_pool(document, pool)))
            ==> auth::hermes_state_in(path, id, document) == Err::<AuthView, CodexError>(
            CodexError::InvalidAuth,
        ),
{
    assert forall|pool: Seq<JsonView>, at: int|
        #![trigger keeps_in_pool(document, pool), is_first_with_number(pool, id, at)]
        keeps_in_pool(document, pool) && is_first_with_number(
            pool,
            id,
            at,
        ) implies auth::pool_in(document) == Some(pool) && auth::credential_place(pool, id)
        == Some(at) by {
        assert forall|i: int| 0 <= i < at implies auth::credential_text(
            #[trigger] pool[i],
            "id"@,
        ) != Some(id) by {
            assert(!has_number(pool[i], id));
        }
        auth::lemma_first_credential(pool, id, at);
    }
    assert forall|pool: Seq<JsonView>|
        #![trigger keeps_in_pool(document, pool)]
        keeps_in_pool(document, pool) && (forall|i: int|
            0 <= i < pool.len() ==> !has_number(#[trigger] pool[i], id)) implies
        auth::credential_place(pool, id) is None && auth::pool_in(document) == Some(pool) by {
        assert forall|i: int| 0 <= i < pool.len() implies auth::credential_text(
            #[trigger] pool[i],
            "id"@,
        ) != Some(id) by {
            assert(!has_number(pool[i], id));
        }
        auth::lemma_first_credential(pool, id, pool.len() as int);
    }
    if let Some(pool) = auth::pool_in(document) {
        assert(keeps_in_pool(document, pool));
    }
}

/// The credentials that a source stands for are those in `auth.json` of its directory: the ones of a
/// file of its own, or those with the number in its pool. A file with a pool is read as JSON alone.
pub proof fn a_source_stands_for_the_file_of_its_directory(
    directory: PathView,
    id: Seq<char>,
    stored: StoredView,
)
    ensures
        ({
            let file = PathView {
                root: directory.root,
                parts: directory.parts.push("auth.json"@),
            };
            let content = if stored.files.contains_key(file) {
                Some(stored.files[file])
            } else {
                None
            };
            &&& match auth::source_states(CodexSourceView::Home(directory), stored) {
                Ok(states) => states.len() == 1 && auth::file_state(file, content) == Ok::<
                    AuthView,
                    CodexError,
                >(states[0]),
                Err(error) => auth::file_state(file, content) == Err::<AuthView, CodexError>(error),
            }
            &&& match auth::source_states(CodexSourceView::Hermes(directory, id), stored) {
                Ok(states) => states.len() == 1 && content is Some && json::json_from_text(
                    content->0,
                ) is Some && auth::hermes_state_in(
                    file,
                    id,
                    json::json_from_text(content->0)->0,
                ) == Ok::<AuthView, CodexError>(states[0]),
                Err(error) => if content is Some && json::json_from_text(content->0) is Some {
                    auth::hermes_state_in(file, id, json::json_from_text(content->0)->0) == Err::<
                        AuthView,
                        CodexError,
                    >(error)
                } else {
                    error == CodexError::InvalidAuth
                },
            }
            &&& auth::source_states(CodexSourceView::Standard, stored) == auth::standard_states(
                stored,
            )
        }),
{
}

/// Credentials are loaded again from where they came from: from the file they were in, by their
/// number where the file keeps a pool, or from the keychain.
pub proof fn credentials_are_loaded_again_from_their_place(
    path: PathView,
    id: Seq<char>,
    stored: StoredView,
)
    ensures
        ({
            let content = if stored.files.contains_key(path) {
                Some(stored.files[path])
            } else {
                None
            };
            let file = AuthSourceView::File(path);
            let pooled = AuthSourceView::Hermes(path, id);
            let keychain = AuthSourceView::Keychain;
            &&& auth::reloaded_from(file, auth::source_content(file, stored)) == auth::file_state(
                path,
                content,
            )
            &&& auth::reloaded_from(pooled, auth::source_content(pooled, stored))
                == auth::hermes_state(path, id, content)
            &&& match auth::keychain_state(stored.keychain) {
                Some(state) => auth::reloaded_from(
                    keychain,
                    auth::source_content(keychain, stored),
                ) == Ok::<AuthView, CodexError>(state),
                None => auth::reloaded_from(keychain, auth::source_content(keychain, stored))
                    == Err::<AuthView, CodexError>(CodexError::NotLoggedIn),
            }
        }),
{
}

} // verus!
