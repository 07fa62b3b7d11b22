//! Accounts: which are found, how they are numbered and how they are shown.
use base64::engine::general_purpose::URL_SAFE_NO_PAD;
use base64::Engine;
use openquota_codex::accounts::{
    discover_accounts, discover_from_configured, discover_from_multiple_homes,
    discover_from_standard, discover_identities_from_path, identities_from_document,
    identity_for_source, identity_stamp, CodexAuthSource, DiscoveredCodexAccount,
    DiscoveredCodexAccounts,
};
use openquota_codex::json::Json;
use openquota_codex::naming::{
    account_display_name_for_id, allocate_account_id, try_allocate_account_id,
};
use openquota_codex::paths::{PathPlan, PathRoot};
use openquota_codex::reconcile::{
    discover, order_accounts, reconcile_account, reconcile_accounts, CodexAccount,
    CodexAccountDiscovery, StoredAccountRecord,
};
use openquota_codex::stored::{StoredCredentials, StoredFile};

fn standard(name: &str) -> DiscoveredCodexAccount {
    DiscoveredCodexAccount {
        identity: identity_stamp(name),
        auth_source: CodexAuthSource::Standard,
        session_roots: Vec::new(),
    }
}

fn at_home(name: &str, directory: &str) -> DiscoveredCodexAccount {
    DiscoveredCodexAccount {
        identity: identity_stamp(name),
        auth_source: CodexAuthSource::Home(PathPlan::written(directory)),
        session_roots: vec![PathPlan::written(directory)],
    }
}

fn save(records: &mut Vec<StoredAccountRecord>, found: &CodexAccountDiscovery) {
    for account in found.default_account.iter().chain(found.accounts.iter()) {
        records.retain(|record| record.identity != account.identity);
        records.push(StoredAccountRecord {
            identity: account.identity.clone(),
            provider_id: account.id.clone(),
            label: account.label.clone(),
        });
    }
}

fn record(identity: &str, provider_id: &str, label: Option<&str>) -> StoredAccountRecord {
    StoredAccountRecord {
        identity: identity.to_owned(),
        provider_id: provider_id.to_owned(),
        label: label.map(str::to_owned),
    }
}

fn token_for(account: &str) -> String {
    let claims = format!(r#"{{"chatgpt_account_id":"{account}"}}"#);
    format!("header.{}.signature", URL_SAFE_NO_PAD.encode(claims))
}

fn written(directory: &str) -> PathPlan {
    PathPlan::written(directory)
}

fn stored(configured: Option<&str>, files: Vec<(PathPlan, String)>) -> StoredCredentials {
    StoredCredentials {
        configured_home: configured.map(str::to_owned),
        files: files
            .into_iter()
            .map(|(path, content)| StoredFile { path, content })
            .collect(),
        keychain: None,
    }
}

fn plain_file(account: &str) -> String {
    format!(r#"{{"tokens":{{"access_token":"access","account_id":"{account}"}}}}"#)
}

fn pool_file(accounts: &[(&str, &str)]) -> String {
    let credentials = accounts
        .iter()
        .map(|(id, account)| {
            format!(r#"{{"id":"{id}","access_token":"{}"}}"#, token_for(account))
        })
        .collect::<Vec<_>>()
        .join(",");
    format!(r#"{{"version":1,"credential_pool":{{"openai-codex":[{credentials}]}}}}"#)
}

fn directory_of(source: &CodexAuthSource) -> Option<String> {
    match source {
        CodexAuthSource::Home(path) | CodexAuthSource::Hermes(path, _) => match &path.root {
            PathRoot::Text(text) if path.parts.is_empty() => Some(text.clone()),
            _ => None,
        },
        CodexAuthSource::Standard => None,
    }
}

#[test]
fn default_account_claims_bare_id() {
    let discovery = DiscoveredCodexAccounts {
        default_account: Some(standard("account-a")),
        accounts: Vec::new(),
    };

    let result = reconcile_accounts(&Vec::new(), discovery).unwrap();

    assert_eq!(result.default_account.as_ref().unwrap().id, "codex");
    assert!(result.accounts.is_empty());
}

#[test]
fn extra_accounts_receive_hashed_ids() {
    let discovery = DiscoveredCodexAccounts {
        default_account: Some(standard("account-a")),
        accounts: vec![at_home("account-b", "/tmp/codex-work")],
    };

    let result = reconcile_accounts(&Vec::new(), discovery).unwrap();

    assert_eq!(result.default_account.as_ref().unwrap().id, "codex");
    assert_eq!(result.accounts.len(), 1);
    assert!(result.accounts[0].id.starts_with("codex@"));
    assert_eq!(result.accounts[0].id.len(), "codex@".len() + 8);
}

#[test]
fn stable_ids_across_restarts() {
    let mut records = Vec::new();
    let discovery = DiscoveredCodexAccounts {
        default_account: Some(standard("account-a")),
        accounts: vec![at_home("account-b", "/tmp/codex-work")],
    };
    let first = reconcile_accounts(&records, discovery).unwrap();
    save(&mut records, &first);
    let first_extra_id = first.accounts[0].id.clone();

    let discovery2 = DiscoveredCodexAccounts {
        default_account: Some(standard("account-a")),
        accounts: vec![at_home("account-b", "/tmp/codex-work")],
    };
    let second = reconcile_accounts(&records, discovery2).unwrap();

    assert_eq!(
        first.default_account.unwrap().id,
        second.default_account.unwrap().id
    );
    assert_eq!(first_extra_id, second.accounts[0].id);
}

#[test]
fn allocate_avoids_collisions() {
    let mut occupied = Vec::new();
    let stamp = identity_stamp("test");
    let first = allocate_account_id(&stamp, &occupied);
    occupied.push(first.clone());
    let second = allocate_account_id(&stamp, &occupied);

    assert_ne!(first, second);
    assert!(first.starts_with("codex@"));
    assert!(second.starts_with("codex@"));
}

#[test]
fn display_name_for_default_and_extra_accounts() {
    assert_eq!(account_display_name_for_id(None, "codex"), "Codex");
    assert_eq!(
        account_display_name_for_id(Some("Work"), "codex@12345678"),
        "Codex — Work"
    );
    assert_eq!(
        account_display_name_for_id(None, "codex@12345678"),
        "codex@12345678"
    );
}

#[test]
fn labels_are_trimmed_and_the_default_number_needs_none() {
    assert_eq!(
        account_display_name_for_id(Some("  Work \t"), "codex@12345678"),
        "Codex — Work"
    );
    assert_eq!(
        account_display_name_for_id(Some("  "), "codex@12345678"),
        "codex@12345678"
    );
    assert_eq!(account_display_name_for_id(Some("Work"), "codex"), "Codex");
}

#[test]
fn stamps_are_digests_of_small_letters() {
    // The digest of "test".
    let expected = "9f86d081884c7d659a2feaa0c55ad015a3bf4f1b2b0b822cd15d6c15b0f00a08";
    assert_eq!(identity_stamp("test"), expected);
    assert_eq!(identity_stamp("TeSt"), expected);
    assert_eq!(
        allocate_account_id(expected, &Vec::new()),
        "codex@9f86d081"
    );
}

#[test]
fn a_taken_number_is_salted() {
    let stamp = identity_stamp("test");
    let mut occupied = vec!["codex@9f86d081".to_owned()];
    // The digest of the stamp followed by ":1".
    let salted = identity_stamp(&format!("{stamp}:1"));
    let second = try_allocate_account_id(&stamp, &occupied).unwrap();
    assert_eq!(second, format!("codex@{}", &salted[..8]));
    occupied.push(second);
    let third = try_allocate_account_id(&stamp, &occupied).unwrap();
    let salted_again = identity_stamp(&format!("{stamp}:2"));
    assert_eq!(third, format!("codex@{}", &salted_again[..8]));
}

#[test]
fn the_default_number_goes_to_the_account_that_has_it_on_record() {
    let stamp_b = identity_stamp("account-b");
    let records = vec![record(&stamp_b, "codex", Some(" Work "))];
    let discovery = DiscoveredCodexAccounts {
        default_account: Some(standard("account-a")),
        accounts: vec![at_home("account-b", "/tmp/codex-work")],
    };
    let result = reconcile_accounts(&records, discovery).unwrap();
    let default_account = result.default_account.unwrap();
    assert_eq!(
        default_account.id,
        format!("codex@{}", &identity_stamp("account-a")[..8])
    );
    assert_eq!(default_account.display_name, default_account.id);
    assert_eq!(result.accounts[0].id, "codex");
    assert_eq!(result.accounts[0].display_name, "Codex");
    assert_eq!(result.accounts[0].label.as_deref(), Some(" Work "));
}

#[test]
fn a_number_on_record_of_an_absent_account_stays_taken() {
    let records = vec![record("someone", "codex", None)];
    let discovery = DiscoveredCodexAccounts {
        default_account: Some(standard("account-a")),
        accounts: Vec::new(),
    };
    let result = reconcile_accounts(&records, discovery).unwrap();
    assert_ne!(result.default_account.unwrap().id, "codex");
}

#[test]
fn the_last_record_of_an_account_counts() {
    let stamp = identity_stamp("account-a");
    let records = vec![
        record(&stamp, "codex@11111111", Some("Old")),
        record(&stamp, "codex@22222222", Some("New")),
    ];
    let discovery = DiscoveredCodexAccounts {
        default_account: Some(standard("account-a")),
        accounts: Vec::new(),
    };
    let result = reconcile_accounts(&records, discovery).unwrap();
    let account = result.default_account.unwrap();
    assert_eq!(account.id, "codex@22222222");
    assert_eq!(account.display_name, "Codex — New");
}

#[test]
fn one_account_takes_its_number() {
    let mut occupied = vec!["codex".to_owned()];
    let account =
        reconcile_account(standard("test"), &Vec::new(), &mut occupied, true).unwrap();
    assert_eq!(account.id, "codex@9f86d081");
    assert_eq!(occupied, ["codex", "codex@9f86d081"]);
}

#[test]
fn accounts_are_ordered_by_number() {
    let account = |id: &str, identity: &str| CodexAccount {
        id: id.to_owned(),
        display_name: id.to_owned(),
        label: None,
        identity: identity.to_owned(),
        auth_source: CodexAuthSource::Standard,
        session_roots: Vec::new(),
    };
    let ordered = order_accounts(vec![
        account("codex@b", "1"),
        account("codex@a", "2"),
        account("codex", "3"),
        account("codex@a", "4"),
    ]);
    let identities: Vec<&str> = ordered.iter().map(|one| one.identity.as_str()).collect();
    assert_eq!(identities, ["3", "2", "4", "1"]);
}

#[test]
fn accounts_in_several_directories_are_found_once() {
    let files = vec![
        (written("/a").join("auth.json"), plain_file("One")),
        (written("/b").join("auth.json"), plain_file("Two")),
        (written("/c").join("auth.json"), plain_file("one")),
    ];
    let all = stored(Some("/a, /b,/c,,"), files);
    let found = discover_accounts(&all);
    let first = found.default_account.unwrap();
    assert_eq!(first.identity, identity_stamp("one"));
    assert_eq!(directory_of(&first.auth_source).as_deref(), Some("/a"));
    assert_eq!(first.session_roots.len(), 1);
    assert_eq!(found.accounts.len(), 1);
    assert_eq!(found.accounts[0].identity, identity_stamp("two"));
    assert_eq!(
        directory_of(&found.accounts[0].auth_source).as_deref(),
        Some("/b")
    );
}

#[test]
fn found_accounts_load_under_their_source() {
    let files = vec![
        (written("/a").join("auth.json"), plain_file("One")),
        (
            written("/b").join("auth.json"),
            pool_file(&[("x", "Two"), ("y", "Three")]),
        ),
    ];
    let all = stored(Some("/a,/b"), files);
    let found = discover_accounts(&all);
    let first = found.default_account.unwrap();
    assert_eq!(found.accounts.len(), 2);
    for account in std::iter::once(&first).chain(found.accounts.iter()) {
        assert_eq!(
            identity_for_source(&account.auth_source, &all).as_deref(),
            Some(account.identity.as_str())
        );
    }
}

#[test]
fn a_single_directory_is_one_of_the_standard_places() {
    let files = vec![(written("/a").join("auth.json"), plain_file("One"))];
    let all = stored(Some("/a"), files);
    let found = discover_accounts(&all);
    let account = found.default_account.unwrap();
    assert!(matches!(account.auth_source, CodexAuthSource::Standard));
    assert_eq!(account.identity, identity_stamp("one"));
    assert_eq!(account.session_roots.len(), 1);
    assert!(account.session_roots[0].same(&written("/a")));
    assert!(found.accounts.is_empty());
    assert_eq!(
        identity_for_source(&account.auth_source, &all),
        Some(account.identity)
    );
}

#[test]
fn a_single_directory_that_is_no_standard_place_is_the_source_itself() {
    for (setting, directory) in [
        ("~/c", PathPlan::home().join("c")),
        ("~", PathPlan::home()),
        (" /w ", written("/w")),
        ("/w,", written("/w")),
    ] {
        let files = vec![(directory.join("auth.json"), plain_file("One"))];
        let all = stored(Some(setting), files);
        let found = discover_from_configured(&all).unwrap();
        let account = found.default_account.unwrap();
        assert!(
            matches!(&account.auth_source, CodexAuthSource::Home(home) if home.same(&directory)),
            "{setting}"
        );
        assert!(account.session_roots[0].same(&directory));
        assert_eq!(
            identity_for_source(&account.auth_source, &all),
            Some(account.identity)
        );
    }
}

#[test]
fn a_single_directory_without_an_account_leaves_the_standard_places() {
    let all = stored(Some("/a"), Vec::new());
    assert!(discover_from_configured(&all).is_none());
    assert!(discover_accounts(&all).default_account.is_none());
}

#[test]
fn a_single_directory_with_a_pool_gives_all_its_accounts() {
    let files = vec![(
        written("/h").join("auth.json"),
        pool_file(&[("x", "One"), ("y", "Two"), ("z", "one")]),
    )];
    let all = stored(Some("/h"), files);
    let found = discover_accounts(&all);
    let first = found.default_account.unwrap();
    assert!(matches!(&first.auth_source, CodexAuthSource::Hermes(_, id) if id == "x"));
    assert_eq!(found.accounts.len(), 1);
    assert!(matches!(&found.accounts[0].auth_source, CodexAuthSource::Hermes(_, id) if id == "y"));
}

#[test]
fn without_a_setting_the_standard_account_is_found() {
    let home_file = PathPlan::home().join(".codex").join("auth.json");
    let all = stored(None, vec![(home_file, plain_file("Me"))]);
    let found = discover_from_standard(&all);
    assert_eq!(
        found.default_account.unwrap().identity,
        identity_stamp("me")
    );
    assert!(discover_from_multiple_homes(&Vec::new(), &all)
        .default_account
        .is_none());
}

#[test]
fn nothing_is_found_where_nothing_is_stored() {
    let all = stored(Some(" , "), Vec::new());
    let found = discover(&all, &Vec::new()).unwrap();
    assert!(found.default_account.is_none());
    assert!(found.accounts.is_empty());
    assert!(identity_for_source(&CodexAuthSource::Standard, &all).is_none());
}

#[test]
fn discovery_numbers_what_it_finds() {
    let files = vec![
        (written("/a").join("auth.json"), plain_file("One")),
        (written("/b").join("auth.json"), plain_file("Two")),
    ];
    let all = stored(Some("/a,/b"), files);
    let found = discover(&all, &Vec::new()).unwrap();
    assert_eq!(found.default_account.unwrap().id, "codex");
    assert_eq!(
        found.accounts[0].id,
        format!("codex@{}", &identity_stamp("two")[..8])
    );
}

#[test]
fn pooled_credentials_need_a_number_a_token_and_an_account() {
    let content = format!(
        r#"{{"version":1,"credential_pool":{{"openai-codex":[
            {{"access_token":"{0}"}},
            {{"id":"a","access_token":""}},
            {{"id":"b","access_token":"opaque"}},
            {{"id":"c","access_token":"{0}"}}]}}}}"#,
        token_for("Four")
    );
    let found = discover_identities_from_path(&written("/h"), Some(&content));
    assert_eq!(found.len(), 1);
    assert_eq!(found[0].identity, "four");
    assert!(matches!(&found[0].auth_source, CodexAuthSource::Hermes(_, id) if id == "c"));
    let document = Json::from_text(&content).unwrap();
    assert_eq!(identities_from_document(&written("/h"), document).len(), 1);
}

#[test]
fn a_file_without_json_gives_no_accounts() {
    assert!(discover_identities_from_path(&written("/h"), None).is_empty());
    assert!(discover_identities_from_path(&written("/h"), Some("{")).is_empty());
    assert!(discover_identities_from_path(&written("/h"), Some(r#"{"version":1,"credential_pool":{}}"#)).is_empty());
}

#[test]
fn no_number_is_given_twice() {
    let taken = format!("codex@{}", &identity_stamp("account-b")[..8]);
    let records = vec![
        record("someone", &taken, None),
        record(&identity_stamp("account-c"), "codex@00000000", None),
    ];
    let discovery = DiscoveredCodexAccounts {
        default_account: Some(standard("account-a")),
        accounts: vec![
            at_home("account-b", "/b"),
            at_home("account-c", "/c"),
            at_home("account-d", "/d"),
        ],
    };
    let result = reconcile_accounts(&records, discovery).unwrap();
    let mut ids: Vec<String> = result.accounts.iter().map(|one| one.id.clone()).collect();
    ids.push(result.default_account.unwrap().id);
    assert!(ids.iter().all(|id| *id != taken));
    let mut distinct = ids.clone();
    distinct.sort();
    distinct.dedup();
    assert_eq!(distinct.len(), ids.len());
    assert!(ids.contains(&"codex@00000000".to_owned()));
}
