//! Accounts: where their credentials are stored, which accounts there are, and how they are named.
use vstd::prelude::*;

use crate::account_laws;
use crate::auth;
use crate::auth::{AuthSourceView, CodexAuthState};
use crate::digest;
use crate::json;
use crate::json::{Json, JsonView};
use crate::naming;
use crate::paths;
use crate::paths::{PathPlan, PathView};
use crate::stored;
use crate::stored::{StoredCredentials, StoredView};
use crate::text;

verus! {

/// Where the credentials of an account are stored.
#[derive(Debug)]
pub enum CodexAuthSource {
    /// The default places: the standard paths and the keychain. Used where `CODEX_HOME` is not set
    /// or has a single value, as far as these places hold the account.
    Standard,
    /// A directory that holds `auth.json`. Used where `CODEX_HOME` lists several directories, or one
    /// that the default places do not look into.
    Home(PathPlan),
    /// A directory that holds a pool of credentials in `auth.json`, and which credential it is.
    Hermes(PathPlan, String),
}

/// Where the credentials of an account are stored.
pub enum CodexSourceView {
    Standard,
    Home(PathView),
    Hermes(PathView, Seq<char>),
}

impl View for CodexAuthSource {
    type V = CodexSourceView;

    open spec fn view(&self) -> CodexSourceView {
        match self {
            CodexAuthSource::Standard => CodexSourceView::Standard,
            CodexAuthSource::Home(directory) => CodexSourceView::Home(directory@),
            CodexAuthSource::Hermes(directory, id) => CodexSourceView::Hermes(directory@, id@),
        }
    }
}

impl CodexAuthSource {
    /// A copy of this source.
    pub fn copy(&self) -> (source: CodexAuthSource)
        ensures
            source@ == self@,
    {
        match self {
            CodexAuthSource::Standard => CodexAuthSource::Standard,
            CodexAuthSource::Home(directory) => CodexAuthSource::Home(directory.copy()),
            CodexAuthSource::Hermes(directory, id) => CodexAuthSource::Hermes(
                directory.copy(),
                id.clone(),
            ),
        }
    }
}

/// The stamp of an account, which does not show the account: the digest of its name in small letters
/// of ASCII.
pub open spec fn stamp_of(identity: Seq<char>) -> Seq<char> {
    digest::sha256_text(vstd::utf8::encode_utf8(text::lower(identity)))
}

/// The stamp of an account: 64 hexadecimal digits.
pub fn identity_stamp(identity: &str) -> (stamp: String)
    ensures
        stamp@ == stamp_of(identity@),
        stamp@.len() == 64,
        vstd::utf8::is_ascii_chars(stamp@),
        naming::has_eight_bytes(stamp@),
{
    let stamp = digest::sha256_hex(text::ascii_lowercase(identity).as_str().as_bytes());
    proof {
        naming::lemma_ascii_has_eight_bytes(stamp@);
    }
    stamp
}

/// The stamp of an account that may be unknown.
pub open spec fn stamp_of_known(identity: Option<Seq<char>>) -> Option<Seq<char>> {
    match identity {
        Some(inner) => Some(stamp_of(inner)),
        None => None,
    }
}

/// The account that the credentials of a source belong to.
pub open spec fn source_identity(source: CodexSourceView, stored: StoredView) -> Option<Seq<char>> {
    match auth::source_states(source, stored) {
        Ok(states) => auth::first_identity(states),
        Err(_) => None,
    }
}

/// The stamp of the account that the credentials of a source belong to: for the source of an account
/// that was found, the stamp of that account.
pub fn identity_for_source(source: &CodexAuthSource, stored: &StoredCredentials) -> (stamp: Option<
    String,
>)
    ensures
        text::string_view(stamp) == stamp_of_known(source_identity(source@, stored@)),
        stamp matches Some(inner) ==> inner@.len() == 64 && vstd::utf8::is_ascii_chars(inner@),
        forall|account: DiscoveredView| #[trigger]
            account_laws::has_its_credentials(account, stored@) && account.auth_source == source@
                ==> text::string_view(stamp) == Some(account.identity),
{
    let state = match source {
        CodexAuthSource::Standard => {
            return match CodexAuthState::observed_account_identity(stored) {
                Some(identity) => Some(identity_stamp(identity.as_str())),
                None => None,
            };
        },
        CodexAuthSource::Home(directory) => {
            let file = directory.join("auth.json");
            auth::load_from_path(&file, stored.content(&file))
        },
        CodexAuthSource::Hermes(directory, id) => {
            let file = directory.join("auth.json");
            auth::load_hermes_from_path(&file, id.as_str(), stored.content(&file))
        },
    };
    match state {
        Ok(state) => {
            proof {
                let states = seq![state@];
                assert(states.drop_last() =~= Seq::empty());
                reveal_with_fuel(auth::first_identity, 2);
            }
            match state.account_identity() {
                Some(identity) => Some(identity_stamp(identity.as_str())),
                None => None,
            }
        },
        Err(_) => None,
    }
}

/// An account and where its credentials are stored.
#[derive(Debug)]
pub struct FoundIdentity {
    pub identity: String,
    pub auth_source: CodexAuthSource,
}

/// An account and where its credentials are stored.
pub struct FoundView {
    pub identity: Seq<char>,
    pub auth_source: CodexSourceView,
}

impl View for FoundIdentity {
    type V = FoundView;

    open spec fn view(&self) -> FoundView {
        FoundView { identity: self.identity@, auth_source: self.auth_source@ }
    }
}

/// The accounts of a list.
pub open spec fn found_views(found: Seq<FoundIdentity>) -> Seq<FoundView> {
    found.map_values(|one: FoundIdentity| one@)
}

/// The account of one credential in the pool of a document, where it has a number, an access token
/// and an account.
pub open spec fn pooled_identity(
    directory: PathView,
    document: JsonView,
    credential: JsonView,
) -> Option<FoundView> {
    match auth::credential_text(credential, "id"@) {
        Some(id) => match auth::pooled_state(paths::auth_file(directory), id, document, credential) {
            Some(state) => match auth::identity_of(state) {
                Some(identity) => Some(
                    FoundView { identity, auth_source: CodexSourceView::Hermes(directory, id) },
                ),
                None => None,
            },
            None => None,
        },
        None => None,
    }
}

/// The accounts of the credentials in the pool of a document, in order.
pub open spec fn pooled_identities(
    directory: PathView,
    document: JsonView,
    pool: Seq<JsonView>,
) -> Seq<FoundView>
    decreases pool.len(),
{
    if pool.len() == 0 {
        Seq::empty()
    } else {
        let before = pooled_identities(directory, document, pool.drop_last());
        match pooled_identity(directory, document, pool.last()) {
            Some(one) => before.push(one),
            None => before,
        }
    }
}

/// Whether a document keeps a pool of credentials.
pub open spec fn keeps_pool(document: JsonView) -> bool {
    json::member(document, "version"@) is Some && json::member(document, "credential_pool"@) is Some
}

/// The accounts whose credentials a document in a directory holds.
pub open spec fn identities_in(directory: PathView, document: JsonView) -> Seq<FoundView> {
    if keeps_pool(document) {
        match auth::pool_in(document) {
            Some(pool) => pooled_identities(directory, document, pool),
            None => Seq::empty(),
        }
    } else {
        match auth::state_in(AuthSourceView::File(paths::auth_file(directory)), document) {
            Some(state) => match auth::identity_of(state) {
                Some(identity) => seq![
                    FoundView { identity, auth_source: CodexSourceView::Home(directory) },
                ],
                None => Seq::empty(),
            },
            None => Seq::empty(),
        }
    }
}

/// The accounts whose credentials a document in a directory holds.
pub fn identities_from_document(directory: &PathPlan, document: Json) -> (found: Vec<FoundIdentity>)
    ensures
        found_views(found@) == identities_in(directory@, document@),
{
    let mut found: Vec<FoundIdentity> = Vec::new();
    let file = directory.join("auth.json");
    assert(found_views(found@) =~= Seq::empty());
    if document.get("version").is_some() && document.get("credential_pool").is_some() {
        let pool = match auth::pool_of(&document) {
            Some(pool) => pool,
            None => {
                return found;
            },
        };
        let ghost views = json::list_view(pool@);
        proof {
            json::lemma_list_view(pool@);
        }
        let mut i: usize = 0;
        assert(views.take(0) =~= Seq::empty());
        while i < pool.len()
            invariant
                views == json::list_view(pool@),
                views.len() == pool@.len(),
                forall|j: int| 0 <= j < pool@.len() ==> #[trigger] views[j] == pool@[j]@,
                file@ == paths::auth_file(directory@),
                i <= pool@.len(),
                found_views(found@) == pooled_identities(
                    directory@,
                    document@,
                    views.take(i as int),
                ),
            decreases pool@.len() - i,
        {
            let ghost next = views.take(i + 1);
            let ghost before = found_views(found@);
            assert(next.drop_last() =~= views.take(i as int));
            assert(next.last() == pool@[i as int]@);
            if let Some(id) = auth::text_under(&pool[i], "id") {
                if let Some(state) = auth::state_from_credential(&file, id, &document, &pool[i]) {
                    if let Some(identity) = state.account_identity() {
                        found.push(
                            FoundIdentity {
                                identity,
                                auth_source: CodexAuthSource::Hermes(
                                    directory.copy(),
                                    id.to_owned(),
                                ),
                            },
                        );
                        assert(found_views(found@) =~= before.push(found@.last()@));
                    }
                }
            }
            i += 1;
        }
        assert(views.take(views.len() as int) =~= views);
        return found;
    }
    if let Some(state) = auth::state_from_document(auth::AuthSource::File(file), document) {
        if let Some(identity) = state.account_identity() {
            found.push(
                FoundIdentity { identity, auth_source: CodexAuthSource::Home(directory.copy()) },
            );
            assert(found_views(found@) =~= seq![found@[0]@]);
        }
    }
    found
}

/// The accounts whose credentials the file of a directory holds, `content` being its text where it
/// could be read.
pub open spec fn identities_at(directory: PathView, content: Option<Seq<char>>) -> Seq<FoundView> {
    match content {
        Some(inner) => match json::json_from_text(inner) {
            Some(document) => identities_in(directory, document),
            None => Seq::empty(),
        },
        None => Seq::empty(),
    }
}

/// The accounts whose credentials the file of a directory holds, `content` being its text where it
/// could be read.
pub fn discover_identities_from_path(directory: &PathPlan, content: Option<&str>) -> (found: Vec<
    FoundIdentity,
>)
    ensures
        found_views(found@) == identities_at(directory@, text::text_view(content)),
{
    if let Some(inner) = content {
        if let Some(document) = Json::from_text(inner) {
            return identities_from_document(directory, document);
        }
    }
    let found: Vec<FoundIdentity> = Vec::new();
    assert(found_views(found@) =~= Seq::empty());
    found
}

/// An account that was found: its stamp, where its credentials are stored, and in which directories
/// its sessions are logged.
#[derive(Debug)]
pub struct DiscoveredCodexAccount {
    pub identity: String,
    pub auth_source: CodexAuthSource,
    pub session_roots: Vec<PathPlan>,
}

/// An account that was found.
pub struct DiscoveredView {
    pub identity: Seq<char>,
    pub auth_source: CodexSourceView,
    pub session_roots: Seq<PathView>,
}

impl View for DiscoveredCodexAccount {
    type V = DiscoveredView;

    open spec fn view(&self) -> DiscoveredView {
        DiscoveredView {
            identity: self.identity@,
            auth_source: self.auth_source@,
            session_roots: paths::path_views(self.session_roots@),
        }
    }
}

/// The accounts of a list.
pub open spec fn discovered_views(accounts: Seq<DiscoveredCodexAccount>) -> Seq<DiscoveredView> {
    accounts.map_values(|account: DiscoveredCodexAccount| account@)
}

/// The accounts that were found: the default account and the others.
#[derive(Debug)]
pub struct DiscoveredCodexAccounts {
    pub default_account: Option<DiscoveredCodexAccount>,
    pub accounts: Vec<DiscoveredCodexAccount>,
}

/// The accounts that were found.
pub struct DiscoveredAllView {
    pub default_account: Option<DiscoveredView>,
    pub accounts: Seq<DiscoveredView>,
}

impl View for DiscoveredCodexAccounts {
    type V = DiscoveredAllView;

    open spec fn view(&self) -> DiscoveredAllView {
        DiscoveredAllView {
            default_account: match self.default_account {
                Some(account) => Some(account@),
                None => None,
            },
            accounts: discovered_views(self.accounts@),
        }
    }
}

/// Whether account numbers can be made of the stamps of all accounts.
pub open spec fn can_be_numbered(found: DiscoveredAllView) -> bool {
    &&& found.default_account matches Some(account) ==> naming::has_eight_bytes(account.identity)
    &&& forall|i: int|
        0 <= i < found.accounts.len() ==> naming::has_eight_bytes(
            (#[trigger] found.accounts[i]).identity,
        )
}

/// The account of the standard credentials, by its stamp.
pub open spec fn standard_account(identity: Option<Seq<char>>) -> DiscoveredAllView {
    DiscoveredAllView {
        default_account: match identity {
            Some(inner) => Some(
                DiscoveredView {
                    identity: stamp_of(inner),
                    auth_source: CodexSourceView::Standard,
                    session_roots: Seq::empty(),
                },
            ),
            None => None,
        },
        accounts: Seq::empty(),
    }
}

/// The account of the standard credentials.
pub fn discover_from_standard(stored: &StoredCredentials) -> (found: DiscoveredCodexAccounts)
    ensures
        found@ == standard_account(auth::standard_identity(stored@)),
        can_be_numbered(found@),
{
    let default_account = match CodexAuthState::observed_account_identity(stored) {
        Some(identity) => {
            let account = DiscoveredCodexAccount {
                identity: identity_stamp(identity.as_str()),
                auth_source: CodexAuthSource::Standard,
                session_roots: Vec::new(),
            };
            assert(account@.session_roots =~= Seq::empty());
            Some(account)
        },
        None => None,
    };
    let found = DiscoveredCodexAccounts { default_account, accounts: Vec::new() };
    assert(found@.accounts =~= Seq::empty());
    found
}

/// Whether one of the accounts has the stamp.
pub open spec fn is_discovered(accounts: Seq<DiscoveredView>, identity: Seq<char>) -> bool {
    exists|i: int| 0 <= i < accounts.len() && (#[trigger] accounts[i]).identity == identity
}

/// The accounts with those found in a directory, each account once.
pub open spec fn with_found(
    accounts: Seq<DiscoveredView>,
    home: PathView,
    found: Seq<FoundView>,
) -> Seq<DiscoveredView>
    decreases found.len(),
{
    if found.len() == 0 {
        accounts
    } else {
        let before = with_found(accounts, home, found.drop_last());
        let one = found.last();
        if is_discovered(before, stamp_of(one.identity)) {
            before
        } else {
            before.push(
                DiscoveredView {
                    identity: stamp_of(one.identity),
                    auth_source: one.auth_source,
                    session_roots: seq![home],
                },
            )
        }
    }
}

/// The accounts that are found in directories, each account once, where it is found first.
pub open spec fn accounts_in(homes: Seq<PathView>, stored: StoredView) -> Seq<DiscoveredView>
    decreases homes.len(),
{
    if homes.len() == 0 {
        Seq::empty()
    } else {
        let home = homes.last();
        with_found(
            accounts_in(homes.drop_last(), stored),
            home,
            identities_at(home, stored::content_of(stored, paths::auth_file(home))),
        )
    }
}

/// The first account as the default, and the others.
pub open spec fn first_as_default(accounts: Seq<DiscoveredView>) -> DiscoveredAllView {
    if accounts.len() == 0 {
        DiscoveredAllView { default_account: None, accounts }
    } else {
        DiscoveredAllView {
            default_account: Some(accounts[0]),
            accounts: accounts.drop_first(),
        }
    }
}

/// Whether one of the accounts has the stamp.
fn has_identity(accounts: &Vec<DiscoveredCodexAccount>, identity: &str) -> (has: bool)
    ensures
        has == is_discovered(discovered_views(accounts@), identity@),
{
    let ghost views = discovered_views(accounts@);
    let mut i: usize = 0;
    while i < accounts.len()
        invariant
            views == discovered_views(accounts@),
            i <= accounts@.len(),
            forall|j: int| 0 <= j < i ==> (#[trigger] views[j]).identity != identity@,
        decreases accounts@.len() - i,
    {
        assert(views[i as int] == accounts@[i as int]@);
        if text::same_text(accounts[i].identity.as_str(), identity) {
            assert(views[i as int].identity == identity@);
            return true;
        }
        i += 1;
    }
    false
}

/// The accounts that are found in directories, the first as the default.
pub fn discover_from_multiple_homes(homes: &Vec<PathPlan>, stored: &StoredCredentials) -> (found:
    DiscoveredCodexAccounts)
    ensures
        found@ == first_as_default(accounts_in(paths::path_views(homes@), stored@)),
        can_be_numbered(found@),
{
    let ghost places = paths::path_views(homes@);
    let mut accounts: Vec<DiscoveredCodexAccount> = Vec::new();
    let mut index: usize = 0;
    assert(discovered_views(accounts@) =~= accounts_in(places.take(0), stored@));
    while index < homes.len()
        invariant
            places == paths::path_views(homes@),
            index <= homes@.len(),
            discovered_views(accounts@) == accounts_in(places.take(index as int), stored@),
            forall|j: int|
                0 <= j < accounts@.len() ==> naming::has_eight_bytes(
                    (#[trigger] accounts@[j]).identity@,
                ),
        decreases homes@.len() - index,
    {
        let home = &homes[index];
        let file = home.join("auth.json");
        let found = discover_identities_from_path(home, stored.content(&file));
        let ghost views = found_views(found@);
        let ghost known = discovered_views(accounts@);
        assert(places.take(index + 1).drop_last() =~= places.take(index as int));
        assert(places.take(index + 1).last() == home@);
        assert(views.take(0) =~= Seq::empty());
        let mut i: usize = 0;
        while i < found.len()
            invariant
                views == found_views(found@),
                i <= found@.len(),
                discovered_views(accounts@) == with_found(known, home@, views.take(i as int)),
                forall|j: int|
                    0 <= j < accounts@.len() ==> naming::has_eight_bytes(
                        (#[trigger] accounts@[j]).identity@,
                    ),
            decreases found@.len() - i,
        {
            let ghost before = discovered_views(accounts@);
            let ghost next = views.take(i + 1);
            assert(next.drop_last() =~= views.take(i as int));
            assert(next.last() == found@[i as int]@);
            let identity = identity_stamp(found[i].identity.as_str());
            if !has_identity(&accounts, identity.as_str()) {
                let mut session_roots: Vec<PathPlan> = Vec::new();
                session_roots.push(home.copy());
                assert(paths::path_views(session_roots@) =~= seq![home@]);
                accounts.push(
                    DiscoveredCodexAccount {
                        identity,
                        auth_source: found[i].auth_source.copy(),
                        session_roots,
                    },
                );
                assert(discovered_views(accounts@) =~= before.push(accounts@.last()@));
            }
            i += 1;
        }
        assert(views.take(views.len() as int) =~= views);
        index += 1;
    }
    assert(places.take(places.len() as int) =~= places);
    let ghost all = discovered_views(accounts@);
    if accounts.len() == 0 {
        let found = DiscoveredCodexAccounts { default_account: None, accounts };
        assert(found@ == first_as_default(all));
        found
    } else {
        let first = accounts.remove(0);
        assert(discovered_views(accounts@) =~= all.drop_first());
        DiscoveredCodexAccounts { default_account: Some(first), accounts }
    }
}

/// The account of the single directory of `CODEX_HOME`: where the standard places hold credentials
/// of the same account, those are the source. The standard places take the setting as it is written,
/// so they do not where blanks or a comma stand by the directory, or where it starts with a `~`: the
/// directory itself is then the source.
pub open spec fn single_account(account: DiscoveredView, stored: StoredView) -> DiscoveredView {
    DiscoveredView {
        auth_source: if stamp_of_known(auth::standard_identity(stored)) == Some(account.identity) {
            CodexSourceView::Standard
        } else {
            account.auth_source
        },
        ..account
    }
}

/// The accounts that the directories of `CODEX_HOME` hold, where the setting lists directories and
/// they hold accounts. Where it lists a single directory without a pool of credentials, the standard
/// places are the source as far as they hold that account.
pub open spec fn listed_accounts(stored: StoredView) -> Option<Seq<DiscoveredView>> {
    match paths::configured_directories(stored.configured_home) {
        Some(homes) => {
            let accounts = accounts_in(homes, stored);
            if accounts.len() == 0 {
                None
            } else if homes.len() == 1 && accounts[0].auth_source is Home {
                Some(accounts.update(0, single_account(accounts[0], stored)))
            } else {
                Some(accounts)
            }
        },
        None => None,
    }
}

/// The accounts that the directories of `CODEX_HOME` hold, where they hold any.
pub fn discover_from_configured(stored: &StoredCredentials) -> (found: Option<
    DiscoveredCodexAccounts,
>)
    ensures
        match found {
            Some(inner) => {
                &&& listed_accounts(stored@) matches Some(accounts) && inner@ == first_as_default(
                    accounts,
                )
                &&& can_be_numbered(inner@)
            },
            None => listed_accounts(stored@) is None,
        },
{
    let homes = match paths::configured_homes(text::borrowed(&stored.configured_home)) {
        Some(homes) => homes,
        None => {
            return None;
        },
    };
    let found = discover_from_multiple_homes(&homes, stored);
    let ghost all = accounts_in(paths::path_views(homes@), stored@);
    assert(paths::path_views(homes@).len() == homes@.len());
    let account = match found.default_account {
        Some(account) => account,
        None => {
            return None;
        },
    };
    let ghost first = account@;
    let is_plain = match &account.auth_source {
        CodexAuthSource::Home(_) => true,
        _ => false,
    };
    let mut auth_source = account.auth_source;
    if homes.len() == 1 && is_plain {
        if let Some(identity) = CodexAuthState::observed_account_identity(stored) {
            let stamp = identity_stamp(identity.as_str());
            if text::same_text(stamp.as_str(), account.identity.as_str()) {
                auth_source = CodexAuthSource::Standard;
            }
        }
        assert(all.update(0, single_account(first, stored@)).drop_first() =~= all.drop_first());
    }
    let default_account = DiscoveredCodexAccount {
        identity: account.identity,
        auth_source,
        session_roots: account.session_roots,
    };
    Some(
        DiscoveredCodexAccounts {
            default_account: Some(default_account),
            accounts: found.accounts,
        },
    )
}

/// The accounts that are found: those in the directories of `CODEX_HOME`, or else that of the
/// standard credentials.
pub open spec fn all_accounts(stored: StoredView) -> DiscoveredAllView {
    match listed_accounts(stored) {
        Some(accounts) => first_as_default(accounts),
        None => standard_account(auth::standard_identity(stored)),
    }
}

/// The accounts that are found.
pub fn discover_accounts(stored: &StoredCredentials) -> (found: DiscoveredCodexAccounts)
    ensures
        found@ == all_accounts(stored@),
        can_be_numbered(found@),
{
    match discover_from_configured(stored) {
        Some(found) => found,
        None => discover_from_standard(stored),
    }
}

} // verus!
