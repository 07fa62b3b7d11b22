//! Credentials: how they are read, whom they belong to, when they are refreshed, and how a refresh
//! changes them.
use base64::engine::general_purpose::URL_SAFE_NO_PAD;
use base64::Engine;
use chrono::{Duration, TimeZone, Utc};
use openquota_codex::accounts::CodexAuthSource;
use openquota_codex::auth::{
    auth_document_has_credentials, hermes_state_from_document, is_refresh_due,
    load_from_keychain, load_from_path, load_hermes_from_path, load_keychain_candidate,
    parse_auth_document, set_string, state_from_document, string_at, AuthSource, CodexAuthState,
};
use openquota_codex::error::{log_cache_error, CodexError, LogCacheFault};
use openquota_codex::json::Json;
use openquota_codex::json_text::{file_text, has_only_integers, line_text};
use openquota_codex::paths::PathPlan;
use openquota_codex::refresh::update_hermes_credential;
use openquota_codex::stored::{StoredCredentials, StoredFile};
use openquota_codex::time::Timestamp;
use openquota_codex::token::{
    account_in, account_named, expiry_in, jwt_expiry, jwt_payload, jwt_payload_bytes,
    nonempty_lowercase,
};

fn json(text: &str) -> Json {
    Json::from_text(text).unwrap()
}

fn timestamp(instant: chrono::DateTime<Utc>) -> Timestamp {
    Timestamp::new(instant.timestamp(), instant.timestamp_subsec_nanos()).unwrap()
}

fn token(claims: &str) -> String {
    format!("header.{}.signature", URL_SAFE_NO_PAD.encode(claims))
}

fn file() -> PathPlan {
    PathPlan::written("/codex").join("auth.json")
}

fn state(document: &str, access_token: &str, account_id: Option<&str>) -> CodexAuthState {
    CodexAuthState {
        source: AuthSource::File(file()),
        document: json(document),
        access_token: access_token.to_owned(),
        refresh_token: None,
        account_id: account_id.map(str::to_owned),
        last_refresh: None,
    }
}

fn stored_at(path: PathPlan, content: &str) -> StoredCredentials {
    StoredCredentials {
        configured_home: Some("/codex".to_owned()),
        files: vec![StoredFile {
            path,
            content: content.to_owned(),
        }],
        keychain: None,
    }
}

fn empty() -> StoredCredentials {
    StoredCredentials {
        configured_home: None,
        files: Vec::new(),
        keychain: None,
    }
}

fn error_of<T>(result: Result<T, CodexError>) -> Option<CodexError> {
    result.err()
}

#[test]
fn parses_hex_encoded_auth_without_exposing_tokens() {
    let raw = r#"{"tokens":{"access_token":"placeholder"}}"#;
    let hex = raw
        .bytes()
        .map(|byte| format!("{byte:02x}"))
        .collect::<String>();
    assert_eq!(
        parse_auth_document(&hex)
            .unwrap()
            .pointer("/tokens/access_token")
            .and_then(|value| value.as_text()),
        Some("placeholder")
    );
}

#[test]
fn hexadecimal_documents_may_be_surrounded_by_white_space() {
    let hex = b"[7]".iter().map(|byte| format!("{byte:02X}")).collect::<String>();
    assert!(parse_auth_document(&format!(" {hex}\n")).unwrap().same(&json("[7]")));
    assert!(parse_auth_document("5b375").is_none());
    assert!(parse_auth_document("zz").is_none());
    assert!(parse_auth_document("").is_none());
}

#[test]
fn jwt_expiry_controls_refresh_window() {
    let now = Utc.timestamp_opt(1_800_000_000, 0).unwrap();
    let payload = URL_SAFE_NO_PAD.encode(format!(
        r#"{{"exp":{}}}"#,
        (now + Duration::minutes(1)).timestamp()
    ));
    let state = CodexAuthState {
        source: AuthSource::File(PathPlan::written("auth.json")),
        document: json("{}"),
        access_token: format!("header.{payload}.signature"),
        refresh_token: None,
        account_id: None,
        last_refresh: None,
    };
    assert!(state.needs_refresh(timestamp(now)));
}

#[test]
fn a_token_is_refreshed_from_five_minutes_before_its_end() {
    let now = timestamp(Utc.timestamp_opt(1_800_000_000, 0).unwrap());
    let ending = |seconds: i64| {
        state("{}", &token(&format!(r#"{{"exp":{}}}"#, 1_800_000_000 + seconds)), None)
    };
    assert!(ending(300).needs_refresh(now));
    assert!(!ending(301).needs_refresh(now));
    assert!(ending(-5).needs_refresh(now));
    let later = Timestamp::new(1_800_000_000, 1).unwrap();
    assert!(ending(301).needs_refresh(later));
}

#[test]
fn a_token_without_an_end_is_refreshed_after_more_than_eight_days() {
    let now = timestamp(Utc.with_ymd_and_hms(2026, 7, 10, 8, 0, 0).unwrap());
    let refreshed = |at: &str| {
        let mut one = state("{}", "opaque", None);
        one.last_refresh = Some(at.to_owned());
        one
    };
    assert!(refreshed("2026-07-01T08:00:00Z").needs_refresh(now));
    assert!(!refreshed("2026-07-01T08:00:01Z").needs_refresh(now));
    assert!(!refreshed("2026-08-01T08:00:00Z").needs_refresh(now));
    assert!(!refreshed("yesterday").needs_refresh(now));
    assert!(!state("{}", "opaque", None).needs_refresh(now));
    let before = Timestamp::from_rfc3339("2026-07-01T10:00:00+02:00");
    assert!(is_refresh_due(None, before, now));
}

#[test]
fn local_detection_only_accepts_a_usable_access_token() {
    assert!(auth_document_has_credentials(&json(
        r#"{"tokens":{"access_token":"placeholder"}}"#
    )));
    assert!(!auth_document_has_credentials(&json(
        r#"{"OPENAI_API_KEY":"placeholder"}"#
    )));
    assert!(!auth_document_has_credentials(&json(
        r#"{"tokens":{"refresh_token":"placeholder"}}"#
    )));
    assert!(!auth_document_has_credentials(&json(
        r#"{"tokens":{"access_token":""}}"#
    )));
}

#[test]
fn account_identity_prefers_the_explicit_id_and_falls_back_to_the_id_token() {
    let explicit = CodexAuthState {
        source: AuthSource::File(PathPlan::written("auth.json")),
        document: json("{}"),
        access_token: "access".into(),
        refresh_token: None,
        account_id: Some("  ACCOUNT-A  ".into()),
        last_refresh: None,
    };
    assert_eq!(explicit.account_identity().as_deref(), Some("account-a"));

    let payload = URL_SAFE_NO_PAD
        .encode(r#"{"https://api.openai.com/auth":{"chatgpt_account_id":"Account-B"}}"#);
    let fallback = CodexAuthState {
        source: AuthSource::File(PathPlan::written("auth.json")),
        document: json(&format!(
            r#"{{"tokens":{{"id_token":"header.{payload}.signature"}}}}"#
        )),
        access_token: "access".into(),
        refresh_token: None,
        account_id: None,
        last_refresh: None,
    };
    assert_eq!(fallback.account_identity().as_deref(), Some("account-b"));
}

#[test]
fn account_identity_falls_back_to_the_access_token() {
    let access = token(r#"{"chatgpt_account_id":" Account-C "}"#);
    let one = state(r#"{"tokens":{"id_token":"a.b.c"}}"#, &access, Some("  "));
    assert_eq!(one.account_identity().as_deref(), Some("account-c"));
    assert!(state("{}", "opaque", None).account_identity().is_none());
}

#[test]
fn claims_name_an_account_in_one_of_two_places() {
    assert_eq!(
        account_in(&json(
            r#"{"https://api.openai.com/auth":{"chatgpt_account_id":"A"},"chatgpt_account_id":"B"}"#
        ))
        .as_deref(),
        Some("a")
    );
    // What stands in the first place decides, even where it is no text.
    assert!(account_in(&json(
        r#"{"https://api.openai.com/auth":{"chatgpt_account_id":5},"chatgpt_account_id":"B"}"#
    ))
    .is_none());
    assert_eq!(
        account_named(None, None, Some(&json(r#"{"chatgpt_account_id":"B"}"#))).as_deref(),
        Some("b")
    );
    assert_eq!(nonempty_lowercase(" ÄB ").as_deref(), Some("Äb"));
    assert!(nonempty_lowercase(" \u{2003}").is_none());
}

#[test]
fn tokens_are_decoded_strictly() {
    assert_eq!(jwt_payload_bytes("a.AQID.c"), Some(vec![1, 2, 3]));
    assert_eq!(jwt_payload_bytes("a._-8.c"), Some(vec![0xff, 0xef]));
    assert_eq!(jwt_payload_bytes("a.-w"), Some(vec![0xfb]));
    assert_eq!(jwt_payload_bytes("a..c"), Some(Vec::new()));
    // Padding, other alphabets, a single digit and stray bits are refused.
    assert_eq!(jwt_payload_bytes("a.-w==.c"), None);
    assert_eq!(jwt_payload_bytes("a.+w.c"), None);
    assert_eq!(jwt_payload_bytes("a.AQIDA.c"), None);
    assert_eq!(jwt_payload_bytes("a.-x.c"), None);
    assert_eq!(jwt_payload_bytes("a.__9.c"), None);
    assert_eq!(jwt_payload_bytes("AQID"), None);
}

#[test]
fn tokens_state_their_end() {
    assert!(jwt_payload(&token("{}")).unwrap().same(&json("{}")));
    assert!(jwt_payload(&token("{")).is_none());
    assert_eq!(
        jwt_expiry(&token(r#"{"exp":1800000000}"#)),
        Timestamp::new(1_800_000_000, 0)
    );
    assert_eq!(expiry_in(&json(r#"{"exp":"1800000000"}"#)), None);
    assert_eq!(expiry_in(&json(r#"{"exp":1.5}"#)), None);
    assert_eq!(expiry_in(&json(r#"{"exp":9223372036854775807}"#)), None);
    assert_eq!(expiry_in(&json("{}")), None);
}

#[test]
fn credential_files_are_loaded() {
    let content = r#"{"tokens":{"access_token":"a","refresh_token":"r","account_id":"i"},"last_refresh":"t"}"#;
    let loaded = load_from_path(&file(), Some(content)).unwrap();
    assert_eq!(loaded.access_token, "a");
    assert_eq!(loaded.refresh_token.as_deref(), Some("r"));
    assert_eq!(loaded.account_id.as_deref(), Some("i"));
    assert_eq!(loaded.last_refresh.as_deref(), Some("t"));
    assert_eq!(error_of(load_from_path(&file(), None)), Some(CodexError::InvalidAuth));
    assert_eq!(error_of(load_from_path(&file(), Some("{"))), Some(CodexError::InvalidAuth));
    assert_eq!(
        error_of(load_from_path(&file(), Some(r#"{"tokens":{"access_token":""}}"#))),
        Some(CodexError::NotLoggedIn)
    );
    assert!(state_from_document(AuthSource::Keychain, json("[]")).is_none());
    assert!(load_keychain_candidate(Some(content)).is_some());
    assert!(load_keychain_candidate(None).is_none());
    assert_eq!(error_of(load_from_keychain(Some("{}"))), Some(CodexError::NotLoggedIn));
    assert_eq!(load_from_keychain(Some(content)).unwrap().access_token, "a");
}

#[test]
fn candidates_come_from_the_files_and_then_from_the_keychain() {
    let home = |name: &str| PathPlan::home().join(name);
    let all = StoredCredentials {
        configured_home: None,
        files: vec![
            StoredFile {
                path: home(".codex").join("auth.json"),
                content: r#"{"tokens":{"access_token":"second"}}"#.to_owned(),
            },
            StoredFile {
                path: home(".config").join("codex").join("auth.json"),
                content: r#"{"tokens":{"access_token":"first"}}"#.to_owned(),
            },
        ],
        keychain: Some(r#"{"tokens":{"access_token":"third"}}"#.to_owned()),
    };
    let found = CodexAuthState::load_candidates(&all).unwrap();
    let tokens: Vec<&str> = found.iter().map(|one| one.access_token.as_str()).collect();
    assert_eq!(tokens, ["first", "second", "third"]);
    assert!(matches!(found[2].source, AuthSource::Keychain));
    assert!(CodexAuthState::has_local_credentials(&all));
}

#[test]
fn missing_candidates_are_told_apart() {
    let key = stored_at(file(), r#"{"OPENAI_API_KEY":"placeholder"}"#);
    assert_eq!(
        error_of(CodexAuthState::load_candidates(&key)),
        Some(CodexError::ApiKeyOnly)
    );
    let blank = stored_at(file(), r#"{"OPENAI_API_KEY":""}"#);
    assert_eq!(
        error_of(CodexAuthState::load_candidates(&blank)),
        Some(CodexError::NotLoggedIn)
    );
    assert_eq!(
        error_of(CodexAuthState::load_candidates(&empty())),
        Some(CodexError::NotLoggedIn)
    );
    assert!(!CodexAuthState::has_local_credentials(&key));
    assert!(!CodexAuthState::has_local_credentials_scoped(
        &CodexAuthSource::Standard,
        &key
    ));
}

#[test]
fn the_first_account_is_observed() {
    let mut all = stored_at(file(), r#"{"tokens":{"access_token":"a"}}"#);
    assert!(CodexAuthState::observed_account_identity(&all).is_none());
    all.keychain = Some(r#"{"tokens":{"access_token":"k","account_id":"Key"}}"#.to_owned());
    assert_eq!(
        CodexAuthState::observed_account_identity(&all).as_deref(),
        Some("key")
    );
}

#[test]
fn sources_stand_for_their_own_credentials() {
    let pool = r#"{"credential_pool":{"openai-codex":[{"id":"x","access_token":"one","refresh_token":"r"},{"id":"x","access_token":"two"},{"id":"y"}]}}"#;
    let all = stored_at(file(), pool);
    let directory = || PathPlan::written("/codex");
    let hermes = |id: &str| CodexAuthSource::Hermes(directory(), id.to_owned());
    let found = CodexAuthState::load_candidates_scoped(&hermes("x"), &all).unwrap();
    assert_eq!(found.len(), 1);
    assert_eq!(found[0].access_token, "one");
    assert_eq!(found[0].refresh_token.as_deref(), Some("r"));
    assert!(found[0].account_id.is_none());
    assert_eq!(
        error_of(CodexAuthState::load_candidates_scoped(&hermes("y"), &all)),
        Some(CodexError::NotLoggedIn)
    );
    assert_eq!(
        error_of(CodexAuthState::load_candidates_scoped(&hermes("z"), &all)),
        Some(CodexError::NotLoggedIn)
    );
    assert_eq!(
        error_of(CodexAuthState::load_candidates_scoped(
            &CodexAuthSource::Home(directory()),
            &all
        )),
        Some(CodexError::NotLoggedIn)
    );
    assert_eq!(
        error_of(load_hermes_from_path(&file(), "x", Some("{}"))),
        Some(CodexError::InvalidAuth)
    );
    assert_eq!(
        error_of(load_hermes_from_path(&file(), "x", None)),
        Some(CodexError::InvalidAuth)
    );
    assert!(hermes_state_from_document(&file(), "x", &json(pool)).is_ok());
    let home = stored_at(file(), r#"{"tokens":{"access_token":"plain"}}"#);
    assert!(CodexAuthState::has_local_credentials_scoped(
        &CodexAuthSource::Home(directory()),
        &home
    ));
}

#[test]
fn texts_are_set_where_pointers_lead() {
    let mut document = json(r#"{"tokens":{"other":1}}"#);
    set_string(&mut document, "/tokens/access_token", "new").unwrap();
    set_string(&mut document, "/a//b/c", "deep").unwrap();
    assert!(document.same(&json(
        r#"{"a":{"b":{"c":"deep"}},"tokens":{"access_token":"new","other":1}}"#
    )));
    assert_eq!(string_at(&document, "/a/b/c").as_deref(), Some("deep"));
    assert!(string_at(&document, "/tokens/other").is_none());
    set_string(&mut document, "/a/0/1x", "digits").unwrap();
    assert_eq!(string_at(&document, "/a/0/1x").as_deref(), Some("digits"));
}

#[test]
fn a_text_that_cannot_be_set_changes_nothing() {
    let mut document = json(r#"{"tokens":[1],"a":{}}"#);
    assert_eq!(
        set_string(&mut document, "/tokens/access_token", "new"),
        Err(CodexError::InvalidAuth)
    );
    assert_eq!(set_string(&mut document, "//", "new"), Err(CodexError::InvalidAuth));
    assert_eq!(set_string(&mut document, "", "new"), Err(CodexError::InvalidAuth));
    assert!(document.same(&json(r#"{"tokens":[1],"a":{}}"#)));
}

#[test]
fn refreshed_tokens_are_loaded_again() {
    let now = timestamp(Utc.with_ymd_and_hms(2026, 7, 10, 8, 0, 0).unwrap());
    let content = r#"{"tokens":{"access_token":"old","account_id":"me"},"count":[1,-2]}"#;
    let mut one = load_from_path(&file(), Some(content)).unwrap();
    one.update("new".into(), Some("again".into()), Some("who".into()), now)
        .unwrap();
    assert_eq!(one.access_token, "new");
    assert_eq!(one.refresh_token.as_deref(), Some("again"));
    assert_eq!(one.account_id.as_deref(), Some("me"));
    assert_eq!(one.last_refresh.as_deref(), Some("2026-07-10T08:00:00+00:00"));
    let text = one.text_to_store();
    assert_eq!(
        text,
        "{\n  \"count\": [\n    1,\n    -2\n  ],\n  \"last_refresh\": \"2026-07-10T08:00:00+00:00\",\n  \"tokens\": {\n    \"access_token\": \"new\",\n    \"account_id\": \"me\",\n    \"id_token\": \"who\",\n    \"refresh_token\": \"again\"\n  }\n}\n"
    );
    let again = one.reload(&stored_at(file(), &text)).unwrap();
    assert!(again.document.same(&one.document));
    assert_eq!(again.access_token, one.access_token);
    assert_eq!(again.refresh_token, one.refresh_token);
    assert_eq!(again.account_id, one.account_id);
    assert_eq!(again.last_refresh, one.last_refresh);
    assert!(!again.needs_refresh(now));
}

#[test]
fn a_refresh_of_a_pooled_credential_leaves_the_others() {
    let now = timestamp(Utc.with_ymd_and_hms(2026, 7, 10, 8, 0, 0).unwrap());
    let content = r#"{"version":1,"credential_pool":{"openai-codex":[{"id":"a","access_token":"1","refresh_token":"r"},{"id":"b","access_token":"2"}]}}"#;
    let mut one = load_hermes_from_path(&file(), "b", Some(content)).unwrap();
    one.update("new".into(), None, Some("unused".into()), now).unwrap();
    assert!(one.document.same(&json(
        r#"{"version":1,"credential_pool":{"openai-codex":[{"id":"a","access_token":"1","refresh_token":"r"},{"id":"b","access_token":"new","last_refresh":"2026-07-10T08:00:00+00:00"}]}}"#
    )));
    let text = one.text_to_store();
    let again = one.reload(&stored_at(file(), &text)).unwrap();
    assert_eq!(again.access_token, "new");
    let mut document = json(content);
    assert_eq!(
        update_hermes_credential(&mut document, "c", "x", None, now),
        Err(CodexError::AuthWrite)
    );
    update_hermes_credential(&mut document, "a", "x", Some("y"), now).unwrap();
    assert_eq!(
        string_at(&document, "/credential_pool/openai-codex/0/refresh_token").as_deref(),
        Some("y")
    );
}

#[test]
fn a_document_that_cannot_take_tokens_stays() {
    let now = timestamp(Utc.with_ymd_and_hms(2026, 7, 10, 8, 0, 0).unwrap());
    let mut plain = state(r#"{"tokens":"none"}"#, "old", None);
    assert_eq!(
        plain.update("new".into(), None, None, now),
        Err(CodexError::InvalidAuth)
    );
    assert_eq!(plain.access_token, "old");
    assert!(plain.document.same(&json(r#"{"tokens":"none"}"#)));
    let mut pooled = state("{}", "old", None);
    pooled.source = AuthSource::Hermes(file(), "x".to_owned());
    assert_eq!(
        pooled.update("new".into(), None, None, now),
        Err(CodexError::AuthWrite)
    );
    assert_eq!(pooled.access_token, "old");
    assert!(pooled.last_refresh.is_none());
}

#[test]
fn refreshed_tokens_do_not_overwrite_credentials_changed_during_refresh() {
    let now = timestamp(Utc::now());
    let original = r#"{"tokens":{"access_token":"account-a-access","refresh_token":"account-a-refresh","account_id":"account-a"}}"#;
    let replacement = r#"{"tokens":{"access_token":"account-b-access","refresh_token":"account-b-refresh","account_id":"account-b"}}"#;
    let mut state = load_from_path(&file(), Some(original)).unwrap();

    let error = state
        .update_and_save_if_current(
            &stored_at(file(), replacement),
            "rotated-account-a-access".into(),
            Some("rotated-account-a-refresh".into()),
            None,
            now,
        )
        .unwrap_err();

    assert!(matches!(error, CodexError::AccountChanged));
    assert_eq!(state.access_token, "account-a-access");
    assert!(state.document.same(&json(original)));
    assert_eq!(
        state.update_if_current(&empty(), "x".into(), None, None, now),
        Err(CodexError::AccountChanged)
    );
    // Another order of the members is the same document.
    let reordered = r#"{"tokens":{"account_id":"account-a","refresh_token":"account-a-refresh","access_token":"account-a-access"}}"#;
    assert_eq!(
        state.update_if_current(&stored_at(file(), reordered), "x".into(), None, None, now),
        Ok(())
    );
    assert_eq!(state.access_token, "x");
}

#[test]
fn the_keychain_holds_one_line() {
    let content = r#"{"tokens":{"access_token":"old"}}"#;
    let mut one = load_from_keychain(Some(content)).unwrap();
    let now = timestamp(Utc.with_ymd_and_hms(2026, 7, 10, 8, 0, 0).unwrap());
    one.update("new".into(), None, None, now).unwrap();
    assert_eq!(
        one.text_to_store(),
        r#"{"last_refresh":"2026-07-10T08:00:00+00:00","tokens":{"access_token":"new"}}"#
    );
}

#[test]
fn documents_are_written_as_text() {
    let document = json(r#"{"b":[null,true,18446744073709551615,-9223372036854775808],"a":"\u0001ü\""}"#);
    let line = line_text(&document);
    assert_eq!(
        line,
        r#"{"a":"\u0001ü\"","b":[null,true,18446744073709551615,-9223372036854775808]}"#
    );
    assert!(json(&line).same(&document));
    assert!(json(&file_text(&document)).same(&document));
    assert_eq!(line_text(&json("[1.5,-0.0,0.1]")), "[1.5,-0.0,0.1]");
    assert!(has_only_integers(&document));
    assert!(!has_only_integers(&json(r#"{"a":[1,{"b":0.5}]}"#)));
    assert_eq!(file_text(&json("[0.25]")), "[\n  0.25\n]\n");
}

#[test]
fn faults_of_kept_logs_are_told_apart() {
    assert_eq!(log_cache_error(LogCacheFault::Storage), CodexError::Storage);
    assert_eq!(log_cache_error(LogCacheFault::Encode), CodexError::LocalUsage);
}

#[test]
fn what_is_saved_is_loaded() {
    let now = timestamp(Utc.with_ymd_and_hms(2026, 7, 10, 8, 0, 0).unwrap());
    let content = r#"{"tokens":{"access_token":"old","refresh_token":"r","account_id":"me"}}"#;
    let mut one = load_from_path(&file(), Some(content)).unwrap();
    let text = one
        .update_and_save_if_current(&stored_at(file(), content), "new".into(), None, None, now)
        .unwrap();
    let again = load_from_path(&file(), Some(&text)).unwrap();
    assert_eq!(again.access_token, "new");
    assert_eq!(again.refresh_token.as_deref(), Some("r"));
    assert_eq!(again.last_refresh, one.last_refresh);
    assert!(again.document.same(&one.document));
    assert_eq!(
        one.update_and_save_if_current(&stored_at(file(), content), "x".into(), None, None, now),
        Err(CodexError::AccountChanged)
    );
    let doubles = r#"{"tokens":{"access_token":"old"},"rate":0.5}"#;
    let mut other = load_from_path(&file(), Some(doubles)).unwrap();
    let saved = other
        .update_and_save_if_current(&stored_at(file(), doubles), "x".into(), None, None, now)
        .unwrap();
    assert!(saved.contains("\"rate\": 0.5,"));
    assert_eq!(other.access_token, "x");
}
