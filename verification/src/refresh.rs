//! What a refresh changes in credentials and in the document they stand in.
use vstd::prelude::*;

use crate::auth;
use crate::auth::{AuthSource, AuthSourceView, AuthView, CodexAuthState};
use crate::error::CodexError;
use crate::json;
use crate::json::{Json, JsonView};
use crate::json_text;
use crate::pointers;
use crate::refresh_laws;
use crate::stored::StoredCredentials;
use crate::stored::StoredView;
use crate::text;
use crate::time;
use crate::time::Timestamp;

verus! {

/// The document with a text under a name among its tokens.
pub open spec fn with_token(document: JsonView, name: Seq<char>, value: Seq<char>) -> Option<
    JsonView,
> {
    json::with_text_at(document, seq!["tokens"@, name], value)
}

/// The document with a text under a name among its tokens, where there is a text.
pub open spec fn with_new_token(
    document: Option<JsonView>,
    name: Seq<char>,
    value: Option<Seq<char>>,
) -> Option<JsonView> {
    match (document, value) {
        (Some(inner), Some(text)) => with_token(inner, name, text),
        _ => document,
    }
}

/// New tokens, and when they were issued.
pub struct TokensView {
    pub access_token: Seq<char>,
    pub refresh_token: Option<Seq<char>>,
    pub id_token: Option<Seq<char>>,
    pub issued: Timestamp,
}

/// The time of issue as it is written down.
pub open spec fn issue_text(tokens: TokensView) -> Seq<char> {
    time::rfc3339_text(tokens.issued.secs, tokens.issued.nanos)
}

/// A credential document with new tokens. There is none where the document or its tokens are not an
/// object.
pub open spec fn refreshed_document(document: JsonView, tokens: TokensView) -> Option<JsonView> {
    let with_access = with_token(document, "access_token"@, tokens.access_token);
    let with_refresh = with_new_token(with_access, "refresh_token"@, tokens.refresh_token);
    let with_id = with_new_token(with_refresh, "id_token"@, tokens.id_token);
    match with_id {
        Some(inner) => json::with_text_at(inner, seq!["last_refresh"@], issue_text(tokens)),
        None => None,
    }
}

/// A credential of a pool with new tokens. An identity token has no place there.
pub open spec fn refreshed_credential(credential: JsonView, tokens: TokensView) -> JsonView {
    let members = credential->Object_0.insert(
        "access_token"@,
        JsonView::Text(tokens.access_token),
    );
    let with_refresh = match tokens.refresh_token {
        Some(value) => members.insert("refresh_token"@, JsonView::Text(value)),
        None => members,
    };
    JsonView::Object(with_refresh.insert("last_refresh"@, JsonView::Text(issue_text(tokens))))
}

/// A document with new tokens for one credential of its pool. There is none where the pool does not
/// hold the credential.
pub open spec fn refreshed_pool(document: JsonView, id: Seq<char>, tokens: TokensView) -> Option<
    JsonView,
> {
    match auth::pool_in(document) {
        Some(pool) => match auth::credential_place(pool, id) {
            Some(at) => {
                let members = document->Object_0;
                let holder = members["credential_pool"@]->Object_0;
                let changed = pool.update(at, refreshed_credential(pool[at], tokens));
                Some(
                    JsonView::Object(
                        members.insert(
                            "credential_pool"@,
                            JsonView::Object(
                                holder.insert("openai-codex"@, JsonView::List(changed)),
                            ),
                        ),
                    ),
                )
            },
            None => None,
        },
        None => None,
    }
}

/// Credentials with new tokens, or why the document they stand in cannot take them.
pub open spec fn refreshed(state: AuthView, tokens: TokensView) -> Result<AuthView, CodexError> {
    let changed = match state.source {
        AuthSourceView::Hermes(_, id) => refreshed_pool(state.document, id, tokens),
        _ => refreshed_document(state.document, tokens),
    };
    match changed {
        Some(document) => Ok(
            AuthView {
                source: state.source,
                document,
                access_token: tokens.access_token,
                refresh_token: if tokens.refresh_token is Some {
                    tokens.refresh_token
                } else {
                    state.refresh_token
                },
                account_id: state.account_id,
                last_refresh: Some(issue_text(tokens)),
            },
        ),
        None => if state.source is Hermes {
            Err(CodexError::AuthWrite)
        } else {
            Err(CodexError::InvalidAuth)
        },
    }
}

/// Puts new tokens into the credential with that number in the pool of a document. Where the pool
/// does not hold it, the document stays as it was.
pub fn update_hermes_credential(
    document: &mut Json,
    hermes_id: &str,
    access_token: &str,
    refresh_token: Option<&str>,
    issued: Timestamp,
) -> (done: Result<(), CodexError>)
    requires
        issued.valid(),
    ensures
        match refreshed_pool(
            old(document)@,
            hermes_id@,
            (TokensView {
                access_token: access_token@,
                refresh_token: text::text_view(refresh_token),
                id_token: None,
                issued,
            }),
        ) {
            Some(changed) => done is Ok && final(document)@ == changed,
            None => done == Err::<(), CodexError>(CodexError::AuthWrite) && final(document)@ == old(
                document,
            )@,
        },
{
    let ghost tokens = TokensView {
        access_token: access_token@,
        refresh_token: text::text_view(refresh_token),
        id_token: None,
        issued,
    };
    let ghost before = document@;
    let mut holder = match document.get("credential_pool") {
        Some(inner) => inner.copy(),
        None => {
            return Err(CodexError::AuthWrite);
        },
    };
    let mut pool = match holder.get("openai-codex") {
        Some(inner) => match inner.copy() {
            Json::List(items) => items,
            _ => {
                return Err(CodexError::AuthWrite);
            },
        },
        None => {
            return Err(CodexError::AuthWrite);
        },
    };
    let ghost views = json::list_view(pool@);
    assert(auth::pool_in(before) == Some(views));
    let at: usize = match auth::find_credential(&pool, hermes_id) {
        Some(at) => at,
        None => {
            return Err(CodexError::AuthWrite);
        },
    };
    proof {
        auth::lemma_credential_place(views, hermes_id@);
        json::lemma_list_view(pool@);
    }
    let mut credential = pool[at].copy();
    assert(credential@ == views[at as int]);
    match &mut credential {
        Json::Object(members) => {
            json::put_member(members, "access_token", Json::Text(access_token.to_owned()));
            if let Some(value) = refresh_token {
                json::put_member(members, "refresh_token", Json::Text(value.to_owned()));
            }
            json::put_member(members, "last_refresh", Json::Text(issued.to_rfc3339()));
        },
        _ => {
            return Err(CodexError::AuthWrite);
        },
    }
    assert(credential@ == refreshed_credential(views[at as int], tokens));
    let ghost known = pool@;
    pool.set(at, credential);
    proof {
        json::lemma_list_view(known);
        json::lemma_list_view(pool@);
        assert(json::list_view(pool@) =~= views.update(at as int, credential@));
    }
    match &mut holder {
        Json::Object(members) => json::put_member(members, "openai-codex", Json::List(pool)),
        _ => {
            return Err(CodexError::AuthWrite);
        },
    }
    match document {
        Json::Object(members) => json::put_member(members, "credential_pool", holder),
        _ => {
            return Err(CodexError::AuthWrite);
        },
    }
    Ok(())
}

/// The members of the tokens of a document.
pub open spec fn token_members(document: JsonView) -> Map<Seq<char>, JsonView> {
    if document->Object_0.contains_key("tokens"@) {
        document->Object_0["tokens"@]->Object_0
    } else {
        Map::empty()
    }
}

/// Whether a document is an object whose tokens are an object or are missing.
pub open spec fn takes_tokens(document: JsonView) -> bool {
    &&& document is Object
    &&& document->Object_0.contains_key("tokens"@) ==> document->Object_0["tokens"@] is Object
}

/// What putting a text among the tokens of a document comes to.
proof fn lemma_with_token(document: JsonView, name: Seq<char>, value: Seq<char>)
    ensures
        with_token(document, name, value) == (if takes_tokens(document) {
            Some(
                JsonView::Object(
                    document->Object_0.insert(
                        "tokens"@,
                        JsonView::Object(
                            token_members(document).insert(name, JsonView::Text(value)),
                        ),
                    ),
                ),
            )
        } else {
            None
        }),
{
    let path = seq!["tokens"@, name];
    assert(path.drop_first() =~= seq![name]);
    reveal_with_fuel(json::with_text_at, 3);
}

/// What putting a text at the top of a document comes to.
proof fn lemma_with_time(document: JsonView, value: Seq<char>)
    ensures
        json::with_text_at(document, seq!["last_refresh"@], value) == (if document is Object {
            Some(
                JsonView::Object(
                    document->Object_0.insert("last_refresh"@, JsonView::Text(value)),
                ),
            )
        } else {
            None
        }),
{
}

/// The names that the pointers to the parts of a credential document lead through.
proof fn lemma_pointer_names()
    ensures
        auth::pointer_names("/tokens/access_token"@) == seq!["tokens"@, "access_token"@],
        auth::pointer_names("/tokens/refresh_token"@) == seq!["tokens"@, "refresh_token"@],
        auth::pointer_names("/tokens/id_token"@) == seq!["tokens"@, "id_token"@],
        auth::pointer_names("/last_refresh"@) == seq!["last_refresh"@],
{
    auth::lemma_pointer_texts();
    lemma_two_pointer_names("/tokens/access_token"@, "tokens"@, "access_token"@);
    lemma_two_pointer_names("/tokens/refresh_token"@, "tokens"@, "refresh_token"@);
    lemma_two_pointer_names("/tokens/id_token"@, "tokens"@, "id_token"@);
    pointers::lemma_one_name("/last_refresh"@, "last_refresh"@);
    let pieces = text::split_at_each("/last_refresh"@, '/').drop_first();
    assert(pieces =~= seq!["last_refresh"@]);
    reveal_with_fuel(Seq::filter, 2);
    assert(pieces.drop_last() =~= Seq::empty());
    assert(auth::pointer_names("/last_refresh"@) =~= seq!["last_refresh"@]);
}

/// The names of a pointer with two plain names.
proof fn lemma_two_pointer_names(pointer: Seq<char>, first: Seq<char>, second: Seq<char>)
    requires
        pointers::is_plain(first),
        pointers::is_plain(second),
        pointer == seq!['/'] + first + seq!['/'] + second,
    ensures
        auth::pointer_names(pointer) == seq![first, second],
{
    pointers::lemma_two_names(pointer, first, second);
    let pieces = text::split_at_each(pointer, '/').drop_first();
    assert(pieces =~= seq![first, second]);
    assert(pieces.drop_last() =~= seq![first]);
    assert(pieces.drop_last().drop_last() =~= Seq::empty());
    reveal_with_fuel(Seq::filter, 3);
    assert(auth::pointer_names(pointer) =~= seq![first, second]);
}

/// Puts new tokens into a credential document. Where it cannot take them, it stays as it was.
fn update_document(
    document: &mut Json,
    access_token: &str,
    refresh_token: Option<&str>,
    id_token: Option<&str>,
    issued: Timestamp,
) -> (done: Result<(), CodexError>)
    requires
        issued.valid(),
    ensures
        match refreshed_document(
            old(document)@,
            (TokensView {
                access_token: access_token@,
                refresh_token: text::text_view(refresh_token),
                id_token: text::text_view(id_token),
                issued,
            }),
        ) {
            Some(changed) => done is Ok && final(document)@ == changed,
            None => done == Err::<(), CodexError>(CodexError::InvalidAuth) && final(document)@
                == old(document)@,
        },
{
    let written = issued.to_rfc3339();
    proof {
        lemma_pointer_names();
        lemma_with_token(document@, "access_token"@, access_token@);
    }
    auth::set_string(document, "/tokens/access_token", access_token)?;
    if let Some(value) = refresh_token {
        proof {
            lemma_with_token(document@, "refresh_token"@, value@);
        }
        auth::set_string(document, "/tokens/refresh_token", value)?;
    }
    if let Some(value) = id_token {
        proof {
            lemma_with_token(document@, "id_token"@, value@);
        }
        auth::set_string(document, "/tokens/id_token", value)?;
    }
    proof {
        lemma_with_time(document@, written@);
    }
    auth::set_string(document, "/last_refresh", written.as_str())
}

impl CodexAuthState {
    /// Puts new tokens into these credentials and the document they stand in. Where the document
    /// cannot take them, everything stays as it was.
    pub fn update(
        &mut self,
        access_token: String,
        refresh_token: Option<String>,
        id_token: Option<String>,
        now: Timestamp,
    ) -> (done: Result<(), CodexError>)
        requires
            now.valid(),
        ensures
            match refreshed(
                old(self)@,
                (TokensView {
                    access_token: access_token@,
                    refresh_token: text::string_view(refresh_token),
                    id_token: text::string_view(id_token),
                    issued: now,
                }),
            ) {
                Ok(state) => done is Ok && final(self)@ == state,
                Err(error) => done == Err::<(), CodexError>(error) && final(self)@ == old(self)@,
            },
            done is Ok && time::has_four_digit_year(now.secs) ==> auth::refreshed_at(final(self)@)
                == Some(now),
            done is Ok ==> {
                &&& final(self)@.access_token == access_token@
                &&& final(self)@.refresh_token == (if refresh_token is Some {
                    text::string_view(refresh_token)
                } else {
                    old(self)@.refresh_token
                })
                &&& final(self)@.account_id == old(self)@.account_id
                &&& final(self)@.source == old(self)@.source
                &&& final(self)@.last_refresh == Some(time::rfc3339_text(now.secs, now.nanos))
                &&& !(old(self)@.source is Hermes) && id_token is Some ==> auth::token_in(
                    final(self)@.document,
                    "id_token"@,
                ) == text::string_view(id_token)
            },
    {
        proof {
            if !(self@.source is Hermes) {
                refresh_laws::new_tokens_go_into_the_document(
                    self@,
                    TokensView {
                        access_token: access_token@,
                        refresh_token: text::string_view(refresh_token),
                        id_token: text::string_view(id_token),
                        issued: now,
                    },
                );
            }
        }
        let changed = match &self.source {
            AuthSource::Hermes(_, id) => update_hermes_credential(
                &mut self.document,
                id.as_str(),
                access_token.as_str(),
                text::borrowed(&refresh_token),
                now,
            ),
            _ => update_document(
                &mut self.document,
                access_token.as_str(),
                text::borrowed(&refresh_token),
                text::borrowed(&id_token),
                now,
            ),
        };
        if let Err(error) = changed {
            return Err(error);
        }
        self.access_token = access_token;
        if refresh_token.is_some() {
            self.refresh_token = refresh_token;
        }
        self.last_refresh = Some(now.to_rfc3339());
        Ok(())
    }
}

/// Credentials with new tokens, where the place they were loaded from still holds their document.
pub open spec fn refreshed_if_current(
    state: AuthView,
    stored: StoredView,
    tokens: TokensView,
) -> Result<AuthView, CodexError> {
    match auth::reloaded_from(state.source, auth::source_content(state.source, stored)) {
        Ok(current) if json::same_json(current.document, state.document) => refreshed(state, tokens),
        _ => Err(CodexError::AccountChanged),
    }
}

impl CodexAuthState {
    /// Puts new tokens into these credentials, where the place they were loaded from still holds
    /// their document. Otherwise everything stays as it was.
    pub fn update_if_current(
        &mut self,
        stored: &StoredCredentials,
        access_token: String,
        refresh_token: Option<String>,
        id_token: Option<String>,
        now: Timestamp,
    ) -> (done: Result<(), CodexError>)
        requires
            now.valid(),
        ensures
            match refreshed_if_current(
                old(self)@,
                stored@,
                (TokensView {
                    access_token: access_token@,
                    refresh_token: text::string_view(refresh_token),
                    id_token: text::string_view(id_token),
                    issued: now,
                }),
            ) {
                Ok(state) => done is Ok && final(self)@ == state,
                Err(error) => done == Err::<(), CodexError>(error) && final(self)@ == old(self)@,
            },
            done is Ok && time::has_four_digit_year(now.secs) ==> auth::refreshed_at(final(self)@)
                == Some(now),
            done is Ok ==> {
                &&& final(self)@.access_token == access_token@
                &&& final(self)@.refresh_token == (if refresh_token is Some {
                    text::string_view(refresh_token)
                } else {
                    old(self)@.refresh_token
                })
                &&& final(self)@.account_id == old(self)@.account_id
                &&& final(self)@.source == old(self)@.source
                &&& final(self)@.last_refresh == Some(time::rfc3339_text(now.secs, now.nanos))
                &&& !(old(self)@.source is Hermes) && id_token is Some ==> auth::token_in(
                    final(self)@.document,
                    "id_token"@,
                ) == text::string_view(id_token)
            },
    {
        proof {
            if !(self@.source is Hermes) {
                refresh_laws::new_tokens_go_into_the_document(
                    self@,
                    TokensView {
                        access_token: access_token@,
                        refresh_token: text::string_view(refresh_token),
                        id_token: text::string_view(id_token),
                        issued: now,
                    },
                );
            }
        }
        let current = match self.reload(stored) {
            Ok(current) => current,
            Err(_) => {
                return Err(CodexError::AccountChanged);
            },
        };
        if !current.document.same(&self.document) {
            return Err(CodexError::AccountChanged);
        }
        self.update(access_token, refresh_token, id_token, now)
    }
}

/// Whether credentials are those that their document holds.
pub open spec fn is_current(state: AuthView) -> bool {
    match state.source {
        AuthSourceView::Hermes(path, id) => auth::hermes_state_in(path, id, state.document) == Ok::<
            AuthView,
            CodexError,
        >(state),
        _ => auth::state_in(state.source, state.document) == Some(state),
    }
}

/// The text that holds a document in the place that credentials were loaded from: one line in the
/// keychain, several with a line feed at the end in a file.
pub open spec fn stored_text(source: AuthSourceView, document: JsonView) -> Seq<char> {
    if source is Keychain {
        json_text::compact_json(document)
    } else {
        json_text::pretty_json(document) + "\n"@
    }
}

impl CodexAuthState {
    /// The text to store in the place that these credentials were loaded from. Loading the text
    /// yields these credentials, where they are those of their document and it has no doubles and is
    /// nested no deeper than the parser reads.
    pub fn text_to_store(&self) -> (content: String)
        ensures
            content@ == stored_text(self@.source, self@.document),
            is_current(self@) && json_text::holds_integers(self@.document) && json::is_readable(
                self@.document,
            ) ==> auth::reloaded_from(self@.source, Some(content@)) == Ok::<AuthView, CodexError>(
                self@,
            ),
    {
        match &self.source {
            AuthSource::Keychain => json_text::line_text(&self.document),
            _ => json_text::file_text(&self.document),
        }
    }
}

/// Credentials that are those of their document are those of the new document after a refresh with
/// an access token.
pub proof fn a_refresh_keeps_credentials_current(state: AuthView, tokens: TokensView)
    requires
        is_current(state),
        tokens.access_token.len() > 0,
        refreshed(state, tokens) is Ok,
    ensures
        is_current(refreshed(state, tokens)->Ok_0),
{
    if state.source is Hermes {
        lemma_pool_refreshed(state, tokens);
    } else {
        lemma_document_refreshed(state, tokens);
    }
}

/// The texts under other names among the tokens stay.
proof fn lemma_other_tokens(document: JsonView, name: Seq<char>, value: Seq<char>)
    requires
        with_token(document, name, value) is Some,
        name != "last_refresh"@,
        "tokens"@ != "last_refresh"@,
    ensures
        takes_tokens(with_token(document, name, value)->0),
        auth::token_in(with_token(document, name, value)->0, name) == Some(value),
        auth::refresh_time_in(with_token(document, name, value)->0) == auth::refresh_time_in(
            document,
        ),
        forall|other: Seq<char>|
            other != name ==> #[trigger] auth::token_in(
                with_token(document, name, value)->0,
                other,
            ) == auth::token_in(document, other),
{
    lemma_with_token(document, name, value);
    let changed = with_token(document, name, value)->0;
    assert forall|other: Seq<char>| other != name implies #[trigger] auth::token_in(changed, other)
        == auth::token_in(document, other) by {
        if !document->Object_0.contains_key("tokens"@) {
            assert(!token_members(document).contains_key(other));
        }
    }
}

/// What a refreshed document holds.
proof fn lemma_document_refreshed(state: AuthView, tokens: TokensView)
    requires
        is_current(state),
        !(state.source is Hermes),
        tokens.access_token.len() > 0,
        refreshed(state, tokens) is Ok,
    ensures
        is_current(refreshed(state, tokens)->Ok_0),
{
    reveal_strlit("tokens");
    reveal_strlit("access_token");
    reveal_strlit("refresh_token");
    reveal_strlit("account_id");
    reveal_strlit("id_token");
    reveal_strlit("last_refresh");
    assert("tokens"@.len() != "last_refresh"@.len());
    assert("access_token"@[0] != "last_refresh"@[0]);
    assert("refresh_token"@.len() != "last_refresh"@.len());
    assert("id_token"@.len() != "last_refresh"@.len());
    assert("access_token"@.len() != "refresh_token"@.len());
    assert("access_token"@.len() != "account_id"@.len());
    assert("access_token"@.len() != "id_token"@.len());
    assert("refresh_token"@.len() != "account_id"@.len());
    assert("refresh_token"@.len() != "id_token"@.len());
    assert("account_id"@.len() != "id_token"@.len());
    let d1 = with_token(state.document, "access_token"@, tokens.access_token)->0;
    lemma_other_tokens(state.document, "access_token"@, tokens.access_token);
    let d2 = with_new_token(Some(d1), "refresh_token"@, tokens.refresh_token)->0;
    if let Some(value) = tokens.refresh_token {
        lemma_with_token(d1, "refresh_token"@, value);
        lemma_other_tokens(d1, "refresh_token"@, value);
    }
    let d3 = with_new_token(Some(d2), "id_token"@, tokens.id_token)->0;
    if let Some(value) = tokens.id_token {
        lemma_with_token(d2, "id_token"@, value);
        lemma_other_tokens(d2, "id_token"@, value);
    }
    lemma_with_time(d3, issue_text(tokens));
    let d4 = refreshed_document(state.document, tokens)->0;
    assert(auth::token_in(d4, "access_token"@) == auth::token_in(d3, "access_token"@));
    assert(auth::token_in(d4, "refresh_token"@) == auth::token_in(d3, "refresh_token"@));
    assert(auth::token_in(d4, "account_id"@) == auth::token_in(d3, "account_id"@));
}

/// What a refreshed pool holds.
proof fn lemma_pool_refreshed(state: AuthView, tokens: TokensView)
    requires
        is_current(state),
        state.source is Hermes,
        tokens.access_token.len() > 0,
        refreshed(state, tokens) is Ok,
    ensures
        is_current(refreshed(state, tokens)->Ok_0),
{
    reveal_strlit("access_token");
    reveal_strlit("refresh_token");
    reveal_strlit("last_refresh");
    reveal_strlit("id");
    assert("access_token"@[0] != "last_refresh"@[0]);
    assert("refresh_token"@.len() != "last_refresh"@.len());
    assert("access_token"@.len() != "refresh_token"@.len());
    let id = state.source->Hermes_1;
    let pool = auth::pool_in(state.document)->0;
    let at = auth::credential_place(pool, id)->0;
    let changed = pool.update(at, refreshed_credential(pool[at], tokens));
    auth::lemma_credential_place(pool, id);
    let after = refreshed(state, tokens)->Ok_0;
    assert(auth::pool_in(after.document) == Some(changed));
    assert(auth::credential_text(changed[at], "id"@) == Some(id));
    assert forall|i: int| 0 <= i < at implies auth::credential_text(#[trigger] changed[i], "id"@)
        != Some(id) by {
        assert(changed[i] == pool[i]);
    }
    auth::lemma_first_credential(changed, id, at);
}

/// A document that can be stored and read again can be so after a refresh.
pub proof fn a_refresh_keeps_documents_storable(state: AuthView, tokens: TokensView)
    requires
        json_text::holds_integers(state.document),
        json::is_readable(state.document),
        refreshed(state, tokens) is Ok,
    ensures
        json_text::holds_integers(refreshed(state, tokens)->Ok_0.document),
        json::is_readable(refreshed(state, tokens)->Ok_0.document),
{
    let depth = json::READABLE_DEPTH as nat;
    if state.source is Hermes {
        lemma_pool_storable(state.document, state.source->Hermes_1, tokens, depth);
    } else {
        let d1 = with_token(state.document, "access_token"@, tokens.access_token)->0;
        json_text::lemma_text_keeps_writable(
            state.document,
            seq!["tokens"@, "access_token"@],
            tokens.access_token,
            depth,
        );
        let d2 = with_new_token(Some(d1), "refresh_token"@, tokens.refresh_token)->0;
        if let Some(value) = tokens.refresh_token {
            json_text::lemma_text_keeps_writable(
                d1,
                seq!["tokens"@, "refresh_token"@],
                value,
                depth,
            );
        }
        let d3 = with_new_token(Some(d2), "id_token"@, tokens.id_token)->0;
        if let Some(value) = tokens.id_token {
            json_text::lemma_text_keeps_writable(d2, seq!["tokens"@, "id_token"@], value, depth);
        }
        json_text::lemma_text_keeps_writable(d3, seq!["last_refresh"@], issue_text(tokens), depth);
    }
}

/// A new member that can be stored leaves an object storable.
proof fn lemma_member_storable(
    members: Map<Seq<char>, JsonView>,
    key: Seq<char>,
    value: JsonView,
    depth: nat,
)
    requires
        json_text::holds_integers(JsonView::Object(members)),
        json::nested_within(JsonView::Object(members), depth),
        json_text::holds_integers(value),
        json::nested_within(value, (depth - 1) as nat),
    ensures
        json_text::holds_integers(JsonView::Object(members.insert(key, value))),
        json::nested_within(JsonView::Object(members.insert(key, value)), depth),
{
    let before = JsonView::Object(members);
    let after = JsonView::Object(members.insert(key, value));
    assert forall|name: Seq<char>| after->Object_0.contains_key(name) implies
        json_text::holds_integers(#[trigger] after->Object_0[name]) && json::nested_within(
        after->Object_0[name],
        (depth - 1) as nat,
    ) by {
        if name != key {
            assert(before->Object_0[name] == after->Object_0[name]);
        }
    }
}

/// A refreshed pool can be stored.
proof fn lemma_pool_storable(document: JsonView, id: Seq<char>, tokens: TokensView, depth: nat)
    requires
        json_text::holds_integers(document),
        json::nested_within(document, depth),
        refreshed_pool(document, id, tokens) is Some,
    ensures
        json_text::holds_integers(refreshed_pool(document, id, tokens)->0),
        json::nested_within(refreshed_pool(document, id, tokens)->0, depth),
{
    let members = document->Object_0;
    let holder = members["credential_pool"@];
    let list = holder->Object_0["openai-codex"@];
    let pool = list->List_0;
    let at = auth::credential_place(pool, id)->0;
    auth::lemma_credential_place(pool, id);
    let credential = list->List_0[at];
    let below = (depth - 1) as nat;
    let inner = (depth - 2) as nat;
    let deepest = (depth - 3) as nat;
    assert(json_text::holds_integers(document->Object_0["credential_pool"@]));
    assert(json::nested_within(document->Object_0["credential_pool"@], below));
    assert(json_text::holds_integers(holder->Object_0["openai-codex"@]));
    assert(json::nested_within(holder->Object_0["openai-codex"@], inner));
    assert(json_text::holds_integers(credential));
    assert(json::nested_within(credential, deepest));
    let first = credential->Object_0.insert("access_token"@, JsonView::Text(tokens.access_token));
    lemma_member_storable(
        credential->Object_0,
        "access_token"@,
        JsonView::Text(tokens.access_token),
        deepest,
    );
    let second = match tokens.refresh_token {
        Some(value) => {
            lemma_member_storable(first, "refresh_token"@, JsonView::Text(value), deepest);
            first.insert("refresh_token"@, JsonView::Text(value))
        },
        None => first,
    };
    lemma_member_storable(
        second,
        "last_refresh"@,
        JsonView::Text(issue_text(tokens)),
        deepest,
    );
    let changed = JsonView::List(pool.update(at, refreshed_credential(pool[at], tokens)));
    assert forall|i: int| 0 <= i < changed->List_0.len() implies json_text::holds_integers(
        #[trigger] changed->List_0[i],
    ) && json::nested_within(changed->List_0[i], deepest) by {
        if i != at {
            assert(changed->List_0[i] == list->List_0[i]);
        }
    }
    lemma_member_storable(holder->Object_0, "openai-codex"@, changed, below);
    lemma_member_storable(
        members,
        "credential_pool"@,
        JsonView::Object(holder->Object_0.insert("openai-codex"@, changed)),
        depth,
    );
}

/// New tokens do not go into credentials that were changed or removed meanwhile.
pub proof fn changed_credentials_are_not_overwritten(
    state: AuthView,
    stored: StoredView,
    tokens: TokensView,
)
    requires
        match auth::reloaded_from(state.source, auth::source_content(state.source, stored)) {
            Ok(current) => !json::same_json(current.document, state.document),
            Err(_) => true,
        },
    ensures
        refreshed_if_current(state, stored, tokens) == Err::<AuthView, CodexError>(
            CodexError::AccountChanged,
        ),
{
}

/// A refresh does not change which account the credentials state by its number.
pub proof fn a_refresh_keeps_the_stated_account(state: AuthView, tokens: TokensView)
    requires
        state.account_id matches Some(account) && text::trimmed(account).len() > 0,
        refreshed(state, tokens) is Ok,
    ensures
        auth::identity_of(refreshed(state, tokens)->Ok_0) == auth::identity_of(state),
        auth::identity_of(state) == Some(text::lower(text::trimmed(state.account_id->0))),
{
}

impl CodexAuthState {
    /// Puts new tokens into these credentials, where the place they were loaded from still holds
    /// their document, and gives the text to save there. Where the credentials are those of their
    /// document, the access token is not empty, and the document has no doubles and is nested no
    /// deeper than the parser reads, loading that text yields the new credentials.
    pub fn update_and_save_if_current(
        &mut self,
        stored: &StoredCredentials,
        access_token: String,
        refresh_token: Option<String>,
        id_token: Option<String>,
        now: Timestamp,
    ) -> (content: Result<String, CodexError>)
        requires
            now.valid(),
        ensures
            match refreshed_if_current(
                old(self)@,
                stored@,
                (TokensView {
                    access_token: access_token@,
                    refresh_token: text::string_view(refresh_token),
                    id_token: text::string_view(id_token),
                    issued: now,
                }),
            ) {
                Ok(state) => {
                    &&& final(self)@ == state
                    &&& content matches Ok(written) && written@ == stored_text(
                        state.source,
                        state.document,
                    )
                },
                Err(error) => content == Err::<String, CodexError>(error) && final(self)@ == old(
                    self,
                )@,
            },
            content is Ok && is_current(old(self)@) && access_token@.len() > 0
                && json_text::holds_integers(old(self)@.document) && json::is_readable(
                old(self)@.document,
            ) ==> auth::reloaded_from(old(self)@.source, Some(content->Ok_0@)) == Ok::<
                AuthView,
                CodexError,
            >(final(self)@),
            content is Ok ==> {
                &&& final(self)@.access_token == access_token@
                &&& final(self)@.refresh_token == (if refresh_token is Some {
                    text::string_view(refresh_token)
                } else {
                    old(self)@.refresh_token
                })
                &&& final(self)@.account_id == old(self)@.account_id
                &&& final(self)@.source == old(self)@.source
                &&& final(self)@.last_refresh == Some(time::rfc3339_text(now.secs, now.nanos))
                &&& !(old(self)@.source is Hermes) && id_token is Some ==> auth::token_in(
                    final(self)@.document,
                    "id_token"@,
                ) == text::string_view(id_token)
            },
    {
        let ghost before = self@;
        let ghost tokens = TokensView {
            access_token: access_token@,
            refresh_token: text::string_view(refresh_token),
            id_token: text::string_view(id_token),
            issued: now,
        };
        if let Err(error) = self.update_if_current(
            stored,
            access_token,
            refresh_token,
            id_token,
            now,
        ) {
            return Err(error);
        }
        proof {
            if is_current(before) && tokens.access_token.len() > 0 {
                a_refresh_keeps_credentials_current(before, tokens);
            }
            if json_text::holds_integers(before.document) && json::is_readable(before.document) {
                a_refresh_keeps_documents_storable(before, tokens);
            }
        }
        Ok(self.text_to_store())
    }
}

/// Loaded credentials are those of their document.
pub proof fn loaded_credentials_are_current(source: AuthSourceView, content: Option<Seq<char>>)
    requires
        auth::reloaded_from(source, content) is Ok,
    ensures
        is_current(auth::reloaded_from(source, content)->Ok_0),
        auth::reloaded_from(source, content)->Ok_0.source == source,
{
}

} // verus!
