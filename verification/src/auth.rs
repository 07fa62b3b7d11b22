//! Credentials of an account: how they are loaded, whom they belong to, when they need a refresh
//! and how a refresh changes them.
use vstd::prelude::*;

use crate::accounts;
use crate::accounts::CodexAuthSource;
use crate::credential_laws;
use crate::digest;
use crate::error::CodexError;
use crate::identity_laws;
use crate::json;
use crate::json::{Json, JsonView};
use crate::paths;
use crate::paths::{PathPlan, PathView};
use crate::pointers;
use crate::stored;
use crate::stored::{StoredCredentials, StoredView};
use crate::text;
use crate::time;
use crate::time::Timestamp;
use crate::token;

verus! {

/// Where credentials were loaded from.
#[derive(Debug)]
pub enum AuthSource {
    /// A credential file of its own.
    File(PathPlan),
    /// One credential of the pool in a file.
    Hermes(PathPlan, String),
    /// The keychain of the system.
    Keychain,
}

/// Where credentials were loaded from.
pub enum AuthSourceView {
    File(PathView),
    Hermes(PathView, Seq<char>),
    Keychain,
}

impl View for AuthSource {
    type V = AuthSourceView;

    open spec fn view(&self) -> AuthSourceView {
        match self {
            AuthSource::File(path) => AuthSourceView::File(path@),
            AuthSource::Hermes(path, id) => AuthSourceView::Hermes(path@, id@),
            AuthSource::Keychain => AuthSourceView::Keychain,
        }
    }
}

/// The credentials of an account, with the document they stand in.
#[derive(Debug)]
pub struct CodexAuthState {
    pub source: AuthSource,
    pub document: Json,
    pub access_token: String,
    pub refresh_token: Option<String>,
    pub account_id: Option<String>,
    pub last_refresh: Option<String>,
}

/// What credentials hold.
pub struct AuthView {
    pub source: AuthSourceView,
    pub document: JsonView,
    pub access_token: Seq<char>,
    pub refresh_token: Option<Seq<char>>,
    pub account_id: Option<Seq<char>>,
    pub last_refresh: Option<Seq<char>>,
}

impl View for CodexAuthState {
    type V = AuthView;

    open spec fn view(&self) -> AuthView {
        AuthView {
            source: self.source@,
            document: self.document@,
            access_token: self.access_token@,
            refresh_token: text::string_view(self.refresh_token),
            account_id: text::string_view(self.account_id),
            last_refresh: text::string_view(self.last_refresh),
        }
    }
}

/// What the credentials of a list hold.
pub open spec fn auth_views(states: Seq<CodexAuthState>) -> Seq<AuthView> {
    states.map_values(|state: CodexAuthState| state@)
}

/// What was loaded, as a view.
pub open spec fn loaded(state: Result<CodexAuthState, CodexError>) -> Result<AuthView, CodexError> {
    match state {
        Ok(inner) => Ok(inner@),
        Err(error) => Err(error),
    }
}

/// What was found, as a view.
pub open spec fn state_found(state: Option<CodexAuthState>) -> Option<AuthView> {
    match state {
        Some(inner) => Some(inner@),
        None => None,
    }
}

/// What was loaded, as views.
pub open spec fn all_loaded(states: Result<Vec<CodexAuthState>, CodexError>) -> Result<
    Seq<AuthView>,
    CodexError,
> {
    match states {
        Ok(inner) => Ok(auth_views(inner@)),
        Err(error) => Err(error),
    }
}

/// Whether the document of what was loaded is nested no deeper than the parser reads.
pub open spec fn loaded_is_readable(state: Result<CodexAuthState, CodexError>) -> bool {
    state matches Ok(inner) ==> json::is_readable(inner@.document)
}

/// Whether the documents of what was loaded are nested no deeper than the parser reads.
pub open spec fn all_loaded_are_readable(states: Result<Vec<CodexAuthState>, CodexError>) -> bool {
    states matches Ok(inner) ==> are_readable(inner@)
}

/// Whether the documents of credentials are nested no deeper than the parser reads.
pub open spec fn are_readable(states: Seq<CodexAuthState>) -> bool {
    forall|i: int| 0 <= i < states.len() ==> json::is_readable((#[trigger] states[i])@.document)
}

/// The document that a credential text holds: JSON, or JSON in hexadecimal digits.
pub open spec fn document_in(content: Seq<char>) -> Option<JsonView> {
    match json::json_from_text(content) {
        Some(document) => Some(document),
        None => match digest::hex_bytes(text::trimmed(content)) {
            Some(bytes) => json::json_from_bytes(bytes),
            None => None,
        },
    }
}

/// The document that a credential text holds. Hexadecimal digits of the bytes of a text that are not
/// JSON by themselves are read as that text, and so are those of a text that starts with a brace.
pub fn parse_auth_document(content: &str) -> (document: Option<Json>)
    ensures
        json::read(document) == document_in(content@),
        json::read_is_readable(document),
        forall|plain: Seq<char>|
            json::json_from_text(content@) is None && digest::hex_bytes(text::trimmed(content@))
                == Some(#[trigger] vstd::utf8::encode_utf8(plain)) ==> json::read(document)
                == json::json_from_text(plain),
        forall|plain: Seq<char>|
            plain.len() > 0 && plain[0] == '{' && content@ == digest::hex_text(
                #[trigger] vstd::utf8::encode_utf8(plain),
            ) ==> json::read(document) == json::json_from_text(plain),
{
    proof {
        assert forall|plain: Seq<char>|
            plain.len() > 0 && plain[0] == '{' && content@ == digest::hex_text(
                #[trigger] vstd::utf8::encode_utf8(plain),
            ) implies json::is_broken_number(content@) && digest::hex_bytes(
            text::trimmed(content@),
        ) == Some(vstd::utf8::encode_utf8(plain)) by {
            lemma_brace_in_hex(plain);
        }
    }
    if let Some(document) = Json::from_text(content) {
        return Some(document);
    }
    match digest::from_hex(text::trim(content).as_str()) {
        Some(bytes) => {
            proof {
                assert forall|plain: Seq<char>|
                    bytes@ == #[trigger] vstd::utf8::encode_utf8(plain) implies
                    vstd::utf8::valid_utf8(bytes@) && vstd::utf8::decode_utf8(bytes@) == plain by {
                    vstd::utf8::encode_utf8_valid_utf8(plain);
                    vstd::utf8::encode_utf8_decode_utf8(plain);
                }
            }
            Json::from_bytes(bytes.as_slice())
        },
        None => None,
    }
}

/// The hexadecimal digits of a text that starts with a brace start with `7b`, and have no white space
/// around them.
proof fn lemma_brace_in_hex(plain: Seq<char>)
    requires
        plain.len() > 0,
        plain[0] == '{',
    ensures
        json::is_broken_number(digest::hex_text(vstd::utf8::encode_utf8(plain))),
        digest::hex_bytes(text::trimmed(digest::hex_text(vstd::utf8::encode_utf8(plain)))) == Some(
            vstd::utf8::encode_utf8(plain),
        ),
{
    let bytes = vstd::utf8::encode_utf8(plain);
    let content = digest::hex_text(bytes);
    assert(bytes[0] == 0x7b) by {
        assert(vstd::utf8::encode_scalar('{' as u32) =~= seq![0x7bu8]) by {
            assert(vstd::utf8::leading_byte_width_1(0x7bu32) == 0x7bu8) by (bit_vector);
        }
    }
    assert(content[0] == digest::hex_digit(7));
    assert(content[1] == digest::hex_digit(11));
    digest::lemma_hex_text_trimmed(bytes);
    digest::hex_round_trip(bytes);
}

/// The document that a credential text holds, where there is a text.
pub open spec fn document_of(content: Option<Seq<char>>) -> Option<JsonView> {
    match content {
        Some(inner) => document_in(inner),
        None => None,
    }
}

/// The document that a credential text holds, where there is a text.
fn parse_content(content: Option<&str>) -> (document: Option<Json>)
    ensures
        json::read(document) == document_of(text::text_view(content)),
        json::read_is_readable(document),
{
    match content {
        Some(inner) => parse_auth_document(inner),
        None => None,
    }
}

/// The text that a pointer leads to in a document, where it leads to one.
pub fn string_at(document: &Json, pointer: &str) -> (value: Option<String>)
    ensures
        text::string_view(value) == json::text_in(json::pointed(document@, pointer@)),
{
    match json::text_of_json(document.pointer(pointer)) {
        Some(value) => Some(value.to_owned()),
        None => None,
    }
}

/// The text under a name among the tokens of a document.
pub open spec fn token_in(document: JsonView, name: Seq<char>) -> Option<Seq<char>> {
    json::text_in(json::member_of(json::member(document, "tokens"@), name))
}

/// The time of the last refresh that a document states.
pub open spec fn refresh_time_in(document: JsonView) -> Option<Seq<char>> {
    json::text_in(json::member(document, "last_refresh"@))
}

/// The names in a pointer that does not lead through empty names.
pub open spec fn pointer_names(pointer: Seq<char>) -> Seq<Seq<char>> {
    text::split_at_each(pointer, '/').drop_first().filter(|name: Seq<char>| name.len() > 0)
}

/// What the pointers to the parts of a credential document lead through.
pub proof fn lemma_auth_pointers(document: JsonView)
    ensures
        json::text_in(json::pointed(document, "/tokens/access_token"@)) == token_in(
            document,
            "access_token"@,
        ),
        json::text_in(json::pointed(document, "/tokens/refresh_token"@)) == token_in(
            document,
            "refresh_token"@,
        ),
        json::text_in(json::pointed(document, "/tokens/account_id"@)) == token_in(
            document,
            "account_id"@,
        ),
        json::text_in(json::pointed(document, "/tokens/id_token"@)) == token_in(
            document,
            "id_token"@,
        ),
        json::text_in(json::pointed(document, "/last_refresh"@)) == refresh_time_in(document),
{
    lemma_pointer_texts();
    pointers::lemma_pointed_two(
        document,
        "/tokens/access_token"@,
        "tokens"@,
        "access_token"@,
    );
    pointers::lemma_pointed_two(
        document,
        "/tokens/refresh_token"@,
        "tokens"@,
        "refresh_token"@,
    );
    pointers::lemma_pointed_two(document, "/tokens/account_id"@, "tokens"@, "account_id"@);
    pointers::lemma_pointed_two(document, "/tokens/id_token"@, "tokens"@, "id_token"@);
    pointers::lemma_pointed_one(document, "/last_refresh"@, "last_refresh"@);
}

/// How the pointers to the parts of a credential document are composed.
pub proof fn lemma_pointer_texts()
    ensures
        pointers::is_plain("tokens"@),
        pointers::is_plain("access_token"@),
        pointers::is_plain("refresh_token"@),
        pointers::is_plain("account_id"@),
        pointers::is_plain("id_token"@),
        pointers::is_plain("last_refresh"@),
        "/tokens/access_token"@ == seq!['/'] + "tokens"@ + seq!['/'] + "access_token"@,
        "/tokens/refresh_token"@ == seq!['/'] + "tokens"@ + seq!['/'] + "refresh_token"@,
        "/tokens/account_id"@ == seq!['/'] + "tokens"@ + seq!['/'] + "account_id"@,
        "/tokens/id_token"@ == seq!['/'] + "tokens"@ + seq!['/'] + "id_token"@,
        "/last_refresh"@ == seq!['/'] + "last_refresh"@,
{
    reveal_strlit("tokens");
    reveal_strlit("access_token");
    reveal_strlit("refresh_token");
    reveal_strlit("account_id");
    reveal_strlit("id_token");
    reveal_strlit("last_refresh");
    reveal_strlit("/tokens/access_token");
    reveal_strlit("/tokens/refresh_token");
    reveal_strlit("/tokens/account_id");
    reveal_strlit("/tokens/id_token");
    reveal_strlit("/last_refresh");
    assert("/tokens/access_token"@ =~= seq!['/'] + "tokens"@ + seq!['/'] + "access_token"@);
    assert("/tokens/refresh_token"@ =~= seq!['/'] + "tokens"@ + seq!['/'] + "refresh_token"@);
    assert("/tokens/account_id"@ =~= seq!['/'] + "tokens"@ + seq!['/'] + "account_id"@);
    assert("/tokens/id_token"@ =~= seq!['/'] + "tokens"@ + seq!['/'] + "id_token"@);
    assert("/last_refresh"@ =~= seq!['/'] + "last_refresh"@);
}

/// Whether a document holds an access token that is more than white space.
pub open spec fn has_credentials(document: JsonView) -> bool {
    token_in(document, "access_token"@) matches Some(value) && text::trimmed(value).len() > 0
}

/// Whether a document holds an access token that is more than white space.
pub fn auth_document_has_credentials(document: &Json) -> (has: bool)
    ensures
        has == has_credentials(document@),
{
    proof {
        lemma_auth_pointers(document@);
    }
    match string_at(document, "/tokens/access_token") {
        Some(value) => !text::is_empty_text(text::trim(value.as_str()).as_str()),
        None => false,
    }
}

/// The credentials that a document holds, where it has an access token.
pub open spec fn state_in(source: AuthSourceView, document: JsonView) -> Option<AuthView> {
    match token_in(document, "access_token"@) {
        Some(access_token) if access_token.len() > 0 => Some(
            AuthView {
                source,
                document,
                access_token,
                refresh_token: token_in(document, "refresh_token"@),
                account_id: token_in(document, "account_id"@),
                last_refresh: refresh_time_in(document),
            },
        ),
        _ => None,
    }
}

/// The credentials that a document holds, where it has an access token.
pub fn state_from_document(source: AuthSource, document: Json) -> (state: Option<CodexAuthState>)
    ensures
        state_found(state) == state_in(source@, document@),
{
    proof {
        lemma_auth_pointers(document@);
    }
    match string_at(&document, "/tokens/access_token") {
        Some(access_token) => {
            if text::is_empty_text(access_token.as_str()) {
                return None;
            }
            let refresh_token = string_at(&document, "/tokens/refresh_token");
            let account_id = string_at(&document, "/tokens/account_id");
            let last_refresh = string_at(&document, "/last_refresh");
            Some(
                CodexAuthState {
                    source,
                    document,
                    access_token,
                    refresh_token,
                    account_id,
                    last_refresh,
                },
            )
        },
        None => None,
    }
}

/// The credentials in a credential file, `content` being its text where it could be read.
pub open spec fn file_state(path: PathView, content: Option<Seq<char>>) -> Result<
    AuthView,
    CodexError,
> {
    match document_of(content) {
        Some(document) => match state_in(AuthSourceView::File(path), document) {
            Some(state) => Ok(state),
            None => Err(CodexError::NotLoggedIn),
        },
        None => Err(CodexError::InvalidAuth),
    }
}

/// The credentials in a credential file, `content` being its text where it could be read.
pub fn load_from_path(path: &PathPlan, content: Option<&str>) -> (state: Result<
    CodexAuthState,
    CodexError,
>)
    ensures
        loaded(state) == file_state(path@, text::text_view(content)),
        loaded_is_readable(state),
{
    let document = match parse_content(content) {
        Some(document) => document,
        None => {
            return Err(CodexError::InvalidAuth);
        },
    };
    match state_from_document(AuthSource::File(path.copy()), document) {
        Some(state) => Ok(state),
        None => Err(CodexError::NotLoggedIn),
    }
}

/// The credentials in the keychain, `content` being the text there.
pub open spec fn keychain_state(content: Option<Seq<char>>) -> Option<AuthView> {
    match document_of(content) {
        Some(document) => state_in(AuthSourceView::Keychain, document),
        None => None,
    }
}

/// The credentials in the keychain, `content` being the text there.
pub fn load_keychain_candidate(content: Option<&str>) -> (state: Option<CodexAuthState>)
    ensures
        state_found(state) == keychain_state(text::text_view(content)),
        state matches Some(inner) ==> json::is_readable(inner@.document),
{
    match parse_content(content) {
        Some(document) => state_from_document(AuthSource::Keychain, document),
        None => None,
    }
}

/// The credentials in the keychain, or that there are none.
pub open spec fn keychain_loaded(content: Option<Seq<char>>) -> Result<AuthView, CodexError> {
    match keychain_state(content) {
        Some(state) => Ok(state),
        None => Err(CodexError::NotLoggedIn),
    }
}

/// The credentials in the keychain, or that there are none.
pub fn load_from_keychain(content: Option<&str>) -> (state: Result<CodexAuthState, CodexError>)
    ensures
        loaded(state) == keychain_loaded(text::text_view(content)),
        loaded_is_readable(state),
{
    match load_keychain_candidate(content) {
        Some(state) => Ok(state),
        None => Err(CodexError::NotLoggedIn),
    }
}

/// The credentials in the pool of a document.
pub open spec fn pool_in(document: JsonView) -> Option<Seq<JsonView>> {
    match json::member_of(json::member(document, "credential_pool"@), "openai-codex"@) {
        Some(JsonView::List(credentials)) => Some(credentials),
        _ => None,
    }
}

/// The credentials in the pool of a document.
pub fn pool_of(document: &Json) -> (pool: Option<&Vec<Json>>)
    ensures
        match pool {
            Some(inner) => pool_in(document@) == Some(json::list_view(inner@)),
            None => pool_in(document@) is None,
        },
{
    proof {
        lemma_pool_pointer(document@);
    }
    match document.pointer("/credential_pool/openai-codex") {
        Some(Json::List(credentials)) => Some(credentials),
        _ => None,
    }
}

/// What the pointer to the pool leads to.
proof fn lemma_pool_pointer(document: JsonView)
    ensures
        json::pointed(document, "/credential_pool/openai-codex"@) == json::member_of(
            json::member(document, "credential_pool"@),
            "openai-codex"@,
        ),
{
    reveal_strlit("/credential_pool/openai-codex");
    reveal_strlit("credential_pool");
    reveal_strlit("openai-codex");
    assert("/credential_pool/openai-codex"@ =~= seq!['/'] + "credential_pool"@ + seq!['/']
        + "openai-codex"@);
    pointers::lemma_pointed_two(
        document,
        "/credential_pool/openai-codex"@,
        "credential_pool"@,
        "openai-codex"@,
    );
}

/// The text under a name of a pooled credential.
pub open spec fn credential_text(credential: JsonView, name: Seq<char>) -> Option<Seq<char>> {
    json::text_in(json::member(credential, name))
}

/// The place of the first credential with that number.
pub open spec fn credential_place(pool: Seq<JsonView>, id: Seq<char>) -> Option<int>
    decreases pool.len(),
{
    if pool.len() == 0 {
        None
    } else {
        match credential_place(pool.drop_last(), id) {
            Some(at) => Some(at),
            None => if credential_text(pool.last(), "id"@) == Some(id) {
                Some(pool.len() - 1)
            } else {
                None
            },
        }
    }
}

/// Where a first credential with that number is, and that none before it has the number.
pub proof fn lemma_credential_place(pool: Seq<JsonView>, id: Seq<char>)
    ensures
        match credential_place(pool, id) {
            Some(at) => {
                &&& 0 <= at < pool.len()
                &&& credential_text(pool[at], "id"@) == Some(id)
                &&& forall|i: int| 0 <= i < at ==> credential_text(#[trigger] pool[i], "id"@) != Some(id)
            },
            None => forall|i: int|
                0 <= i < pool.len() ==> credential_text(#[trigger] pool[i], "id"@) != Some(id),
        },
    decreases pool.len(),
{
    if pool.len() > 0 {
        let before = pool.drop_last();
        lemma_credential_place(before, id);
        match credential_place(before, id) {
            Some(at) => {
                assert(pool[at] == before[at]);
                assert forall|i: int| 0 <= i < at implies credential_text(
                    #[trigger] pool[i],
                    "id"@,
                ) != Some(id) by {
                    assert(before[i] == pool[i]);
                }
            },
            None => {
                assert forall|i: int| 0 <= i < before.len() implies credential_text(
                    #[trigger] pool[i],
                    "id"@,
                ) != Some(id) by {
                    assert(before[i] == pool[i]);
                }
            },
        }
    }
}

/// A credential found after credentials with other numbers is the first.
pub proof fn lemma_first_credential(pool: Seq<JsonView>, id: Seq<char>, at: int)
    requires
        0 <= at <= pool.len(),
        at < pool.len() ==> credential_text(pool[at], "id"@) == Some(id),
        forall|i: int| 0 <= i < at ==> credential_text(#[trigger] pool[i], "id"@) != Some(id),
    ensures
        credential_place(pool, id) == (if at < pool.len() {
            Some(at)
        } else {
            None
        }),
    decreases pool.len(),
{
    if pool.len() > 0 {
        let before = pool.drop_last();
        if at == pool.len() {
            assert(credential_text(pool[pool.len() - 1], "id"@) != Some(id));
            assert forall|i: int| 0 <= i < before.len() implies credential_text(
                #[trigger] before[i],
                "id"@,
            ) != Some(id) by {
                assert(before[i] == pool[i]);
            }
            lemma_first_credential(before, id, at - 1);
        } else {
            assert forall|i: int| 0 <= i < at implies credential_text(
                #[trigger] before[i],
                "id"@,
            ) != Some(id) by {
                assert(before[i] == pool[i]);
            }
            lemma_first_credential(before, id, at);
        }
    }
}

/// The text under a name of a pooled credential.
pub fn text_under<'a>(credential: &'a Json, name: &str) -> (value: Option<&'a str>)
    ensures
        text::text_view(value) == credential_text(credential@, name@),
{
    json::text_of_json(credential.get(name))
}

/// The place of the first credential with that number.
pub fn find_credential(pool: &Vec<Json>, id: &str) -> (place: Option<usize>)
    ensures
        match place {
            Some(at) => {
                &&& at < pool@.len()
                &&& credential_place(json::list_view(pool@), id@) == Some(at as int)
            },
            None => credential_place(json::list_view(pool@), id@) is None,
        },
{
    let ghost views = json::list_view(pool@);
    proof {
        json::lemma_list_view(pool@);
    }
    let mut i: usize = 0;
    while i < pool.len()
        invariant
            views == json::list_view(pool@),
            views.len() == pool@.len(),
            forall|j: int| 0 <= j < pool@.len() ==> #[trigger] views[j] == pool@[j]@,
            i <= pool@.len(),
            forall|j: int| 0 <= j < i ==> credential_text(#[trigger] views[j], "id"@) != Some(id@),
        decreases pool@.len() - i,
    {
        assert(views[i as int] == pool@[i as int]@);
        if let Some(number) = text_under(&pool[i], "id") {
            if text::same_text(number, id) {
                proof {
                    lemma_first_credential(views, id@, i as int);
                }
                return Some(i);
            }
        }
        i += 1;
    }
    proof {
        lemma_first_credential(views, id@, i as int);
    }
    None
}

/// The credentials that one credential of a pool holds, where it has an access token.
pub open spec fn pooled_state(
    path: PathView,
    id: Seq<char>,
    document: JsonView,
    credential: JsonView,
) -> Option<AuthView> {
    match credential_text(credential, "access_token"@) {
        Some(access_token) if access_token.len() > 0 => Some(
            AuthView {
                source: AuthSourceView::Hermes(path, id),
                document,
                access_token,
                refresh_token: credential_text(credential, "refresh_token"@),
                account_id: None,
                last_refresh: credential_text(credential, "last_refresh"@),
            },
        ),
        _ => None,
    }
}

/// A copy of an optional text.
fn owned(value: Option<&str>) -> (out: Option<String>)
    ensures
        text::string_view(out) == text::text_view(value),
{
    match value {
        Some(inner) => Some(inner.to_owned()),
        None => None,
    }
}

/// The credentials that one credential of a pool holds, where it has an access token.
pub fn state_from_credential(
    path: &PathPlan,
    id: &str,
    document: &Json,
    credential: &Json,
) -> (state: Option<CodexAuthState>)
    ensures
        state_found(state) == pooled_state(path@, id@, document@, credential@),
{
    match text_under(credential, "access_token") {
        Some(access_token) => {
            if text::is_empty_text(access_token) {
                return None;
            }
            Some(
                CodexAuthState {
                    source: AuthSource::Hermes(path.copy(), id.to_owned()),
                    document: document.copy(),
                    access_token: access_token.to_owned(),
                    refresh_token: owned(text_under(credential, "refresh_token")),
                    account_id: None,
                    last_refresh: owned(text_under(credential, "last_refresh")),
                },
            )
        },
        None => None,
    }
}

/// The credentials with that number in the pool of a document.
pub open spec fn hermes_state_in(path: PathView, id: Seq<char>, document: JsonView) -> Result<
    AuthView,
    CodexError,
> {
    match pool_in(document) {
        Some(pool) => match credential_place(pool, id) {
            Some(at) => match pooled_state(path, id, document, pool[at]) {
                Some(state) => Ok(state),
                None => Err(CodexError::NotLoggedIn),
            },
            None => Err(CodexError::NotLoggedIn),
        },
        None => Err(CodexError::InvalidAuth),
    }
}

/// The credentials with that number in the pool of a document.
pub fn hermes_state_from_document(path: &PathPlan, id: &str, document: &Json) -> (state: Result<
    CodexAuthState,
    CodexError,
>)
    ensures
        loaded(state) == hermes_state_in(path@, id@, document@),
{
    let pool = match pool_of(document) {
        Some(pool) => pool,
        None => {
            return Err(CodexError::InvalidAuth);
        },
    };
    proof {
        json::lemma_list_view(pool@);
    }
    match find_credential(pool, id) {
        Some(at) => match state_from_credential(path, id, document, &pool[at]) {
            Some(state) => Ok(state),
            None => Err(CodexError::NotLoggedIn),
        },
        None => Err(CodexError::NotLoggedIn),
    }
}

/// The credentials with that number in the pool of a file, `content` being its text where it could
/// be read.
pub open spec fn hermes_state(path: PathView, id: Seq<char>, content: Option<Seq<char>>) -> Result<
    AuthView,
    CodexError,
> {
    match content {
        Some(inner) => match json::json_from_text(inner) {
            Some(document) => hermes_state_in(path, id, document),
            None => Err(CodexError::InvalidAuth),
        },
        None => Err(CodexError::InvalidAuth),
    }
}

/// The credentials with that number in the pool of a file, `content` being its text where it could
/// be read.
pub fn load_hermes_from_path(path: &PathPlan, hermes_id: &str, content: Option<&str>) -> (state:
    Result<CodexAuthState, CodexError>)
    ensures
        loaded(state) == hermes_state(path@, hermes_id@, text::text_view(content)),
        loaded_is_readable(state),
{
    let content = match content {
        Some(content) => content,
        None => {
            return Err(CodexError::InvalidAuth);
        },
    };
    match Json::from_text(content) {
        Some(document) => hermes_state_from_document(path, hermes_id, &document),
        None => Err(CodexError::InvalidAuth),
    }
}

/// The account that credentials belong to.
pub open spec fn identity_of(state: AuthView) -> Option<Seq<char>> {
    token::account_by(
        state.account_id,
        match token_in(state.document, "id_token"@) {
            Some(id_token) => token::claims_of(id_token),
            None => None,
        },
        token::claims_of(state.access_token),
    )
}

/// A borrowed document.
fn as_found(json: &Option<Json>) -> (out: Option<&Json>)
    ensures
        json::found(out) == json::read(*json),
{
    match json {
        Some(inner) => Some(inner),
        None => None,
    }
}

impl CodexAuthState {
    /// The account that these credentials belong to.
    pub fn account_identity(&self) -> (identity: Option<String>)
        ensures
            text::string_view(identity) == identity_of(self@),
    {
        proof {
            lemma_auth_pointers(self.document@);
        }
        let id_claims = match string_at(&self.document, "/tokens/id_token") {
            Some(id_token) => token::jwt_payload(id_token.as_str()),
            None => None,
        };
        let access_claims = token::jwt_payload(self.access_token.as_str());
        token::account_named(
            text::borrowed(&self.account_id),
            as_found(&id_claims),
            as_found(&access_claims),
        )
    }
}

/// The document in one of the files, where it could be read.
pub open spec fn document_at(stored: StoredView, path: PathView) -> Option<JsonView> {
    document_of(stored::content_of(stored, path))
}

/// The credentials in the files, in order.
pub open spec fn states_at(stored: StoredView, files: Seq<PathView>) -> Seq<AuthView>
    decreases files.len(),
{
    if files.len() == 0 {
        Seq::empty()
    } else {
        let before = states_at(stored, files.drop_last());
        match file_state(files.last(), stored::content_of(stored, files.last())) {
            Ok(state) => before.push(state),
            Err(_) => before,
        }
    }
}

/// Whether a document holds an API key.
pub open spec fn has_api_key(document: JsonView) -> bool {
    json::text_in(json::member(document, "OPENAI_API_KEY"@)) matches Some(key) && key.len() > 0
}

/// Whether one of the files holds an API key and no access token.
pub open spec fn any_api_key(stored: StoredView, files: Seq<PathView>) -> bool {
    exists|i: int| 0 <= i < files.len() && is_api_key_file(stored, #[trigger] files[i])
}

/// Whether a file holds an API key and no access token.
pub open spec fn is_api_key_file(stored: StoredView, file: PathView) -> bool {
    match document_at(stored, file) {
        Some(document) => state_in(AuthSourceView::File(file), document) is None && has_api_key(
            document,
        ),
        None => false,
    }
}

/// The credentials of the standard account, those in its files first and then those in the keychain,
/// or why there are none.
pub open spec fn standard_states(stored: StoredView) -> Result<Seq<AuthView>, CodexError> {
    let files = paths::standard_auth_files(stored.configured_home);
    let in_files = states_at(stored, files);
    let all = match keychain_state(stored.keychain) {
        Some(state) => in_files.push(state),
        None => in_files,
    };
    if all.len() > 0 {
        Ok(all)
    } else if any_api_key(stored, files) {
        Err(CodexError::ApiKeyOnly)
    } else {
        Err(CodexError::NotLoggedIn)
    }
}

/// Whether one of the files holds usable credentials.
pub open spec fn any_credentials(stored: StoredView, files: Seq<PathView>) -> bool {
    exists|i: int| 0 <= i < files.len() && has_credentials_at(stored, #[trigger] files[i])
}

/// Whether a file holds usable credentials.
pub open spec fn has_credentials_at(stored: StoredView, file: PathView) -> bool {
    document_at(stored, file) matches Some(document) && has_credentials(document)
}

/// Whether the keychain holds usable credentials.
pub open spec fn keychain_has_credentials(stored: StoredView) -> bool {
    document_of(stored.keychain) matches Some(document) && has_credentials(document)
}

/// The account of the first credentials that belong to one.
pub open spec fn first_identity(states: Seq<AuthView>) -> Option<Seq<char>>
    decreases states.len(),
{
    if states.len() == 0 {
        None
    } else {
        token::either(first_identity(states.drop_last()), identity_of(states.last()))
    }
}

/// The account that the standard credentials belong to.
pub open spec fn standard_identity(stored: StoredView) -> Option<Seq<char>> {
    match standard_states(stored) {
        Ok(states) => first_identity(states),
        Err(_) => None,
    }
}

/// The credentials that a source stands for.
pub open spec fn source_states(source: accounts::CodexSourceView, stored: StoredView) -> Result<
    Seq<AuthView>,
    CodexError,
> {
    match source {
        accounts::CodexSourceView::Standard => standard_states(stored),
        accounts::CodexSourceView::Home(directory) => {
            let file = paths::auth_file(directory);
            match file_state(file, stored::content_of(stored, file)) {
                Ok(state) => Ok(seq![state]),
                Err(error) => Err(error),
            }
        },
        accounts::CodexSourceView::Hermes(directory, id) => {
            let file = paths::auth_file(directory);
            match hermes_state(file, id, stored::content_of(stored, file)) {
                Ok(state) => Ok(seq![state]),
                Err(error) => Err(error),
            }
        },
    }
}

impl CodexAuthState {
    /// Whether the standard places hold usable credentials.
    pub fn has_local_credentials(stored: &StoredCredentials) -> (has: bool)
        ensures
            has == (any_credentials(
                stored@,
                paths::standard_auth_files(stored@.configured_home),
            ) || keychain_has_credentials(stored@)),
            has == credential_laws::has_usable_credentials(stored@),
    {
        proof {
            credential_laws::usable_credentials_are_seen(stored@);
        }
        let files = stored.standard_paths();
        let ghost views = paths::path_views(files@);
        let mut i: usize = 0;
        while i < files.len()
            invariant
                views == paths::path_views(files@),
                views == paths::standard_auth_files(stored@.configured_home),
                i <= files@.len(),
                forall|j: int| 0 <= j < i ==> !has_credentials_at(stored@, #[trigger] views[j]),
            decreases files@.len() - i,
        {
            assert(views[i as int] == files@[i as int]@);
            if let Some(document) = parse_content(stored.content(&files[i])) {
                if auth_document_has_credentials(&document) {
                    assert(has_credentials_at(stored@, views[i as int]));
                    proof {
                        credential_laws::usable_credentials_are_seen(stored@);
                    }
                    return true;
                }
            }
            i += 1;
        }
        match parse_content(text::borrowed(&stored.keychain)) {
            Some(document) => auth_document_has_credentials(&document),
            None => false,
        }
    }

    /// The credentials of the standard account, or why there are none.
    pub fn load_candidates(stored: &StoredCredentials) -> (states: Result<
        Vec<CodexAuthState>,
        CodexError,
    >)
        ensures
            all_loaded(states) == standard_states(stored@),
            all_loaded_are_readable(states),
    {
        let files = stored.standard_paths();
        let ghost views = paths::path_views(files@);
        let mut candidates: Vec<CodexAuthState> = Vec::new();
        let mut api_key_only = false;
        let mut i: usize = 0;
        assert(auth_views(candidates@) =~= states_at(stored@, views.take(0)));
        while i < files.len()
            invariant
                views == paths::path_views(files@),
                i <= files@.len(),
                auth_views(candidates@) == states_at(stored@, views.take(i as int)),
                are_readable(candidates@),
                api_key_only == any_api_key(stored@, views.take(i as int)),
            decreases files@.len() - i,
        {
            let ghost done = views.take(i as int);
            let ghost next = views.take(i + 1);
            let ghost before = auth_views(candidates@);
            assert(next.drop_last() =~= done);
            assert(next.last() == files@[i as int]@);
            proof {
                lemma_any_api_key_next(stored@, next);
            }
            if let Some(document) = parse_content(stored.content(&files[i])) {
                let has_key = match json::text_of_json(document.get("OPENAI_API_KEY")) {
                    Some(key) => !text::is_empty_text(key),
                    None => false,
                };
                match state_from_document(AuthSource::File(files[i].copy()), document) {
                    Some(state) => {
                        candidates.push(state);
                        assert(auth_views(candidates@) =~= before.push(state@));
                    },
                    None => {
                        api_key_only = api_key_only || has_key;
                    },
                }
            }
            i += 1;
        }
        assert(views.take(views.len() as int) =~= views);
        let ghost in_files = auth_views(candidates@);
        if let Some(state) = load_keychain_candidate(text::borrowed(&stored.keychain)) {
            candidates.push(state);
            assert(auth_views(candidates@) =~= in_files.push(state@));
        }
        assert(auth_views(candidates@).len() == candidates@.len());
        if candidates.len() > 0 {
            Ok(candidates)
        } else if api_key_only {
            Err(CodexError::ApiKeyOnly)
        } else {
            Err(CodexError::NotLoggedIn)
        }
    }

    /// The account that the standard credentials belong to.
    pub fn observed_account_identity(stored: &StoredCredentials) -> (identity: Option<String>)
        ensures
            text::string_view(identity) == standard_identity(stored@),
    {
        let states = match Self::load_candidates(stored) {
            Ok(states) => states,
            Err(_) => {
                return None;
            },
        };
        let ghost views = auth_views(states@);
        let mut i: usize = 0;
        while i < states.len()
            invariant
                views == auth_views(states@),
                standard_states(stored@) == Ok::<Seq<AuthView>, CodexError>(views),
                i <= states@.len(),
                first_identity(views.take(i as int)) is None,
            decreases states@.len() - i,
        {
            let ghost next = views.take(i + 1);
            assert(next.drop_last() =~= views.take(i as int));
            assert(next.last() == states@[i as int]@);
            if let Some(identity) = states[i].account_identity() {
                proof {
                    lemma_first_identity(views, i + 1);
                }
                return Some(identity);
            }
            i += 1;
        }
        assert(views.take(views.len() as int) =~= views);
        None
    }

    /// The credentials that a source stands for.
    pub fn load_candidates_scoped(source: &CodexAuthSource, stored: &StoredCredentials) -> (states:
        Result<Vec<CodexAuthState>, CodexError>)
        ensures
            all_loaded(states) == source_states(source@, stored@),
            all_loaded_are_readable(states),
    {
        let state = match source {
            CodexAuthSource::Standard => {
                return Self::load_candidates(stored);
            },
            CodexAuthSource::Home(directory) => {
                let file = directory.join("auth.json");
                load_from_path(&file, stored.content(&file))
            },
            CodexAuthSource::Hermes(directory, id) => {
                let file = directory.join("auth.json");
                load_hermes_from_path(&file, id.as_str(), stored.content(&file))
            },
        };
        match state {
            Ok(state) => {
                let mut states: Vec<CodexAuthState> = Vec::new();
                states.push(state);
                assert(auth_views(states@) =~= seq![state@]);
                Ok(states)
            },
            Err(error) => Err(error),
        }
    }

    /// Whether a source stands for any credentials.
    pub fn has_local_credentials_scoped(source: &CodexAuthSource, stored: &StoredCredentials) -> (has:
        bool)
        ensures
            has == source_states(source@, stored@) is Ok,
            source@ matches accounts::CodexSourceView::Home(directory) ==> has
                == credential_laws::is_signed_in_file(stored@, paths::auth_file(directory)),
    {
        proof {
            if let accounts::CodexSourceView::Home(directory) = source@ {
                credential_laws::lemma_key_file(stored@, paths::auth_file(directory));
            }
        }
        match Self::load_candidates_scoped(source, stored) {
            Ok(_) => true,
            Err(_) => false,
        }
    }
}

/// One more file adds its API key.
proof fn lemma_any_api_key_next(stored: StoredView, files: Seq<PathView>)
    requires
        files.len() > 0,
    ensures
        any_api_key(stored, files) == (any_api_key(stored, files.drop_last()) || is_api_key_file(
            stored,
            files.last(),
        )),
{
    let before = files.drop_last();
    if any_api_key(stored, files) {
        let i = choose|i: int|
            0 <= i < files.len() && is_api_key_file(stored, #[trigger] files[i]);
        if i < before.len() {
            assert(is_api_key_file(stored, before[i]));
        }
    }
    if any_api_key(stored, before) {
        let i = choose|i: int|
            0 <= i < before.len() && is_api_key_file(stored, #[trigger] before[i]);
        assert(is_api_key_file(stored, files[i]));
    }
    if is_api_key_file(stored, files.last()) {
        assert(is_api_key_file(stored, files[files.len() - 1]));
    }
}

/// The first account that is found stays the first.
proof fn lemma_first_identity(states: Seq<AuthView>, upto: int)
    requires
        0 <= upto <= states.len(),
        first_identity(states.take(upto)) is Some,
    ensures
        first_identity(states) == first_identity(states.take(upto)),
    decreases states.len(),
{
    if upto < states.len() {
        assert(states.drop_last().take(upto) =~= states.take(upto));
        lemma_first_identity(states.drop_last(), upto);
    } else {
        assert(states.take(upto) =~= states);
    }
}

/// The credentials as the place they were loaded from holds them, `content` being its text.
pub open spec fn reloaded_from(source: AuthSourceView, content: Option<Seq<char>>) -> Result<
    AuthView,
    CodexError,
> {
    match source {
        AuthSourceView::File(path) => file_state(path, content),
        AuthSourceView::Hermes(path, id) => hermes_state(path, id, content),
        AuthSourceView::Keychain => keychain_loaded(content),
    }
}

/// The text in the place that credentials were loaded from.
pub open spec fn source_content(source: AuthSourceView, stored: StoredView) -> Option<Seq<char>> {
    match source {
        AuthSourceView::File(path) => stored::content_of(stored, path),
        AuthSourceView::Hermes(path, _) => stored::content_of(stored, path),
        AuthSourceView::Keychain => stored.keychain,
    }
}

impl CodexAuthState {
    /// The credentials as the place they were loaded from holds them now.
    pub fn reload(&self, stored: &StoredCredentials) -> (state: Result<CodexAuthState, CodexError>)
        ensures
            loaded(state) == reloaded_from(self.source@, source_content(self.source@, stored@)),
            loaded_is_readable(state),
    {
        match &self.source {
            AuthSource::File(path) => load_from_path(path, stored.content(path)),
            AuthSource::Hermes(path, id) => load_hermes_from_path(
                path,
                id.as_str(),
                stored.content(path),
            ),
            AuthSource::Keychain => load_from_keychain(text::borrowed(&stored.keychain)),
        }
    }
}

/// The seconds before the end of a token in which it is refreshed.
pub const REFRESH_WINDOW: i64 = 300;

/// The seconds since the last refresh, of a token without an end, from which it is refreshed again:
/// nine days.
pub const REFRESH_AGE: i64 = 777_600;

/// Whether a token needs a refresh: its end is near or past, or it has no end and its last refresh
/// lies more than eight whole days back.
pub open spec fn refresh_due(
    expiry: Option<Timestamp>,
    refreshed: Option<Timestamp>,
    now: Timestamp,
) -> bool {
    match expiry {
        Some(end) => time::seconds_between(end, now) <= REFRESH_WINDOW,
        None => match refreshed {
            Some(then) => time::seconds_between(now, then) >= REFRESH_AGE,
            None => false,
        },
    }
}

/// Whether a token needs a refresh.
pub fn is_refresh_due(
    expiry: Option<Timestamp>,
    refreshed: Option<Timestamp>,
    now: Timestamp,
) -> (due: bool)
    requires
        now.valid(),
        expiry matches Some(end) ==> end.valid(),
        refreshed matches Some(then_) ==> then_.valid(),
    ensures
        due == refresh_due(expiry, refreshed, now),
{
    if let Some(end) = expiry {
        return end.seconds_since(now) <= REFRESH_WINDOW;
    }
    match refreshed {
        Some(before) => now.seconds_since(before) >= REFRESH_AGE,
        None => false,
    }
}

/// The last refresh that credentials state, as an instant.
pub open spec fn refreshed_at(state: AuthView) -> Option<Timestamp> {
    match state.last_refresh {
        Some(written) => time::instant_of(written),
        None => None,
    }
}

impl CodexAuthState {
    /// Whether the access token needs a refresh.
    pub fn needs_refresh(&self, now: Timestamp) -> (due: bool)
        requires
            now.valid(),
        ensures
            due == refresh_due(token::expiry_of(self@.access_token), refreshed_at(self@), now),
            now.nanos < 1_000_000_000 ==> (token::expiry_of(self@.access_token) matches Some(end)
                ==> due == (identity_laws::in_nanos(end) - identity_laws::in_nanos(now) < 301
                * 1_000_000_000)),
            token::expiry_of(self@.access_token) is None && self@.last_refresh is None ==> !due,
            token::expiry_of(self@.access_token) is None ==> (refreshed_at(self@) matches Some(
                before,
            ) ==> (now.nanos < 1_000_000_000 && before.nanos < 1_000_000_000 ==> due == (
            identity_laws::in_nanos(now) - identity_laws::in_nanos(before) >= 777_600
                * 1_000_000_000))),
    {
        let expiry = token::jwt_expiry(self.access_token.as_str());
        let refreshed = match &self.last_refresh {
            Some(written) => Timestamp::from_rfc3339(written.as_str()),
            None => None,
        };
        is_refresh_due(expiry, refreshed, now)
    }
}

/// Puts a text where a pointer leads to, creating objects on the way. Where something else than an
/// object stands on the way, or the pointer has no names, the document stays as it was.
pub fn set_string(document: &mut Json, pointer: &str, value: &str) -> (done: Result<(), CodexError>)
    ensures
        match json::with_text_at(old(document)@, pointer_names(pointer@), value@) {
            Some(changed) => done is Ok && final(document)@ == changed,
            None => done == Err::<(), CodexError>(CodexError::InvalidAuth) && final(document)@
                == old(document)@,
        },
{
    let pieces = text::split(pointer, '/');
    let ghost names = text::texts(pieces@).drop_first();
    let mut path: Vec<String> = Vec::new();
    let mut i: usize = 1;
    assert(text::texts(path@) =~= names.take(0).filter(|name: Seq<char>| name.len() > 0)) by {
        reveal(Seq::filter);
    }
    while i < pieces.len()
        invariant
            pieces@.len() > 0,
            names == text::texts(pieces@).drop_first(),
            1 <= i <= pieces@.len(),
            text::texts(path@) == names.take(i - 1).filter(|name: Seq<char>| name.len() > 0),
        decreases pieces@.len() - i,
    {
        let ghost next = names.take(i as int);
        let ghost before = text::texts(path@);
        proof {
            reveal(Seq::filter);
            assert(next.drop_last() =~= names.take(i - 1));
            assert(next.last() == pieces@[i as int]@);
        }
        if !text::is_empty_text(pieces[i].as_str()) {
            path.push(pieces[i].clone());
            assert(text::texts(path@) =~= before.push(pieces@[i as int]@));
        }
        i += 1;
    }
    assert(names.take(names.len() as int) =~= names);
    assert(text::texts(path@).skip(0) =~= text::texts(path@));
    if json::put_text_at(document, &path, 0, value) {
        Ok(())
    } else {
        Err(CodexError::InvalidAuth)
    }
}

} // verus!
