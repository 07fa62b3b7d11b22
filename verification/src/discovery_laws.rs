//! Which directories are looked into, and which accounts are found there.
use vstd::prelude::*;

use crate::accounts;
use crate::accounts::{CodexSourceView, DiscoveredView, FoundView};
use crate::auth;
use crate::auth::{AuthSourceView, AuthView};
use crate::credential_laws;
use crate::json;
use crate::json::JsonView;
use crate::paths;
use crate::paths::{PathView, RootView};
use crate::stored;
use crate::stored::StoredView;
use crate::text;
use crate::text_laws;

verus! {

/// A path below the home directory of the user.
pub open spec fn below_home(parts: Seq<Seq<char>>) -> PathView {
    PathView { root: RootView::Home, parts }
}

/// A path that is written out.
pub open spec fn written_out(written: Seq<char>) -> PathView {
    PathView { root: RootView::Text(written), parts: Seq::empty() }
}

/// A tilde by itself, or before a slash or a backslash, stands for the home directory of the user;
/// any other text is the path that it writes out.
pub proof fn a_tilde_stands_for_the_home_directory(rest: Seq<char>)
    ensures
        paths::expanded(seq!['~']) == below_home(Seq::empty()),
        paths::expanded(seq!['~', '/'] + rest) == below_home(seq![rest]),
        paths::expanded(seq!['~', '\\'] + rest) == below_home(seq![rest]),
        rest.len() == 0 || rest[0] != '~' ==> paths::expanded(rest) == written_out(rest),
        rest.len() > 0 && rest[0] != '/' && rest[0] != '\\' ==> paths::expanded(seq!['~'] + rest)
            == written_out(seq!['~'] + rest),
{
    reveal_strlit("~");
    reveal_strlit("~/");
    reveal_strlit("~\\");
    assert("~"@ =~= seq!['~']);
    assert("~/"@ =~= seq!['~', '/']);
    assert("~\\"@ =~= seq!['~', '\\']);
    let slash = seq!['~', '/'] + rest;
    assert(slash.subrange(0, 2) =~= "~/"@);
    assert(slash.skip(2) =~= rest);
    assert(slash.len() >= 2);
    let back = seq!['~', '\\'] + rest;
    assert(back.subrange(0, 2) =~= "~\\"@);
    assert(back.skip(2) =~= rest);
    assert(back[1] == '\\' && "~/"@[1] == '/');
    assert(!("~/"@.is_prefix_of(back))) by {
        if "~/"@.is_prefix_of(back) {
            assert(back.subrange(0, 2)[1] == "~/"@[1]);
        }
    }
    assert(paths::home_view().parts.push(rest) =~= seq![rest]);
    if rest.len() == 0 || rest[0] != '~' {
        if "~/"@.is_prefix_of(rest) {
            assert(rest.subrange(0, 2)[0] == "~/"@[0]);
        }
        if "~\\"@.is_prefix_of(rest) {
            assert(rest.subrange(0, 2)[0] == "~\\"@[0]);
        }
    }
    if rest.len() > 0 && rest[0] != '/' && rest[0] != '\\' {
        let other = seq!['~'] + rest;
        assert(other.len() > 1);
        assert(other[1] == rest[0]);
        if "~/"@.is_prefix_of(other) {
            assert(other.subrange(0, 2)[1] == "~/"@[1]);
        }
        if "~\\"@.is_prefix_of(other) {
            assert(other.subrange(0, 2)[1] == "~\\"@[1]);
        }
    }
}

/// A text of which trimming leaves nothing holds no comma.
proof fn lemma_blank_has_no_comma(value: Seq<char>)
    requires
        text::trimmed(value).len() == 0,
    ensures
        !text_laws::holds_char(value, ','),
    decreases value.len(),
{
    if value.len() > 0 {
        if text::is_space(value.first()) {
            lemma_blank_has_no_comma(value.drop_first());
            if text_laws::holds_char(value, ',') {
                let i = choose|i: int| 0 <= i < value.len() && #[trigger] value[i] == ',';
                assert(value.drop_first()[i - 1] == ',');
            }
        } else {
            lemma_first_stays(value);
        }
    }
}

/// A first character that is no blank stays.
proof fn lemma_first_stays(value: Seq<char>)
    requires
        value.len() > 0,
        !text::is_space(value[0]),
    ensures
        text::trim_end(value).len() > 0,
    decreases value.len(),
{
    if text::is_space(value.last()) {
        assert(value.drop_last()[0] == value[0]);
        lemma_first_stays(value.drop_last());
    }
}

/// The entries of more pieces.
proof fn lemma_entries_behind(first: Seq<char>, pieces: Seq<Seq<char>>)
    ensures
        paths::entries_of(seq![first] + pieces) == (if text::trimmed(first).len() == 0 {
            paths::entries_of(pieces)
        } else {
            seq![text::trimmed(first)] + paths::entries_of(pieces)
        }),
    decreases pieces.len(),
{
    let all = seq![first] + pieces;
    if pieces.len() == 0 {
        assert(all =~= seq![first]);
        assert(all.drop_last() =~= Seq::<Seq<char>>::empty());
        reveal_with_fuel(paths::entries_of, 2);
        assert(paths::entries_of(pieces) =~= Seq::<Seq<char>>::empty());
        assert(paths::entries_of(all) =~= if text::trimmed(first).len() == 0 {
            Seq::<Seq<char>>::empty()
        } else {
            seq![text::trimmed(first)]
        });
    } else {
        lemma_entries_behind(first, pieces.drop_last());
        assert(all.drop_last() =~= seq![first] + pieces.drop_last());
        assert(paths::entries_of(all) =~= if text::trimmed(first).len() == 0 {
            paths::entries_of(pieces)
        } else {
            seq![text::trimmed(first)] + paths::entries_of(pieces)
        });
    }
}

/// The directories of one entry of the setting: none where it is blank.
pub open spec fn directories_of(entry: Seq<char>) -> Seq<PathView> {
    if text::trimmed(entry).len() == 0 {
        Seq::empty()
    } else {
        seq![paths::expanded(text::trimmed(entry))]
    }
}

/// The directories that a setting lists, where it lists any.
pub open spec fn listed(setting: Option<Seq<char>>) -> Seq<PathView> {
    match paths::configured_directories(setting) {
        Some(directories) => directories,
        None => Seq::empty(),
    }
}

/// The setting lists the directories between its commas, in order, without the blanks around them
/// and without blank ones. A missing or blank setting lists none.
pub proof fn the_setting_lists_directories(head: Seq<char>, tail: Seq<char>)
    requires
        !text_laws::holds_char(head, ','),
    ensures
        listed(Some(head)) == directories_of(head),
        listed(Some(head + seq![','] + tail)) == directories_of(head) + listed(Some(tail)),
        paths::configured_directories(Some(head)) is None == (text::trimmed(head).len() == 0),
        paths::configured_directories(Some(head + seq![','] + tail)) is Some,
        paths::configured_directories(None) is None,
{
    let expand = |entry: Seq<char>| paths::expanded(entry);
    let none = Seq::<Seq<char>>::empty();
    text_laws::pieces_end_at_separators(head, tail, ',');
    lemma_entries_behind(head, none);
    assert(seq![head] + none =~= seq![head]);
    assert(paths::entries_of(none) =~= none);
    let all = head + seq![','] + tail;
    let pieces = text::split_at_each(tail, ',');
    lemma_entries_behind(head, pieces);
    assert(all[head.len() as int] == ',');
    if text::trimmed(all).len() == 0 {
        lemma_blank_has_no_comma(all);
        assert(text_laws::holds_char(all, ','));
    }
    if text::trimmed(tail).len() == 0 {
        lemma_blank_has_no_comma(tail);
        text_laws::pieces_end_at_separators(tail, tail, ',');
        lemma_entries_behind(tail, none);
        assert(seq![tail] + none =~= seq![tail]);
    }
    let rest = paths::entries_of(pieces);
    assert(listed(Some(tail)) =~= rest.map_values(expand));
    if text::trimmed(head).len() == 0 {
        assert(listed(Some(all)) =~= rest.map_values(expand));
        assert(listed(Some(all)) =~= directories_of(head) + listed(Some(tail)));
        assert(listed(Some(head)) =~= directories_of(head));
    } else {
        let entry = text::trimmed(head);
        assert((seq![entry] + rest).map_values(expand) =~= seq![paths::expanded(entry)]
            + rest.map_values(expand));
        assert((seq![entry] + none) =~= seq![entry]);
        assert(seq![entry].map_values(expand) =~= seq![paths::expanded(entry)]);
        assert(listed(Some(all)) =~= directories_of(head) + listed(Some(tail)));
        assert(listed(Some(head)) =~= directories_of(head));
    }
}

/// Session logs lie in the directories that the setting lists, and without a setting in `~/.codex`.
pub proof fn logs_lie_in_the_listed_directories(setting: Option<Seq<char>>)
    ensures
        paths::configured_directories(setting) matches Some(directories)
            ==> paths::home_directories(setting) == directories,
        paths::configured_directories(setting) is None ==> paths::home_directories(setting)
            == seq![below_home(seq![".codex"@])],
{
    assert(paths::home_view().parts.push(".codex"@) =~= seq![".codex"@]);
}

/// In such a directory they lie in `sessions` and behind it in `archived_sessions`, as far as these
/// exist, and in the directory itself where neither does.
pub proof fn logs_lie_in_active_and_archived_sessions(
    home: PathView,
    has_active: bool,
    has_archived: bool,
)
    ensures
        ({
            let active = PathView { root: home.root, parts: home.parts.push("sessions"@) };
            let archived = PathView {
                root: home.root,
                parts: home.parts.push("archived_sessions"@),
            };
            let directories = paths::session_directories(home, has_active, has_archived);
            &&& directories.contains(active) <== has_active
            &&& directories.contains(archived) <== has_archived
            &&& has_active ==> directories[0] == active
            &&& has_archived ==> directories.last() == archived
            &&& !has_active && !has_archived ==> directories == seq![home]
            &&& directories.len() == (if has_active && has_archived {
                2int
            } else {
                1
            })
        }),
{
    let directories = paths::session_directories(home, has_active, has_archived);
    if has_active {
        assert(directories[0] == paths::joined_path(home, "sessions"@));
    }
    if has_archived {
        assert(directories[directories.len() - 1] == paths::joined_path(
            home,
            "archived_sessions"@,
        ));
    }
}

/// The file `auth.json` of a directory.
pub open spec fn auth_file_in(directory: PathView) -> PathView {
    PathView { root: directory.root, parts: directory.parts.push("auth.json"@) }
}

/// Whether the file of a directory was read and holds a document, as JSON.
pub open spec fn is_document_in(stored: StoredView, directory: PathView, document: JsonView) -> bool {
    &&& stored.files.contains_key(auth_file_in(directory))
    &&& json::json_from_text(stored.files[auth_file_in(directory)]) == Some(document)
}

/// Whether a document is one with a pool: it has a version and a pool of credentials.
pub open spec fn is_pool_document(document: JsonView) -> bool {
    json::member(document, "version"@) is Some && json::member(document, "credential_pool"@) is Some
}

/// Whether credentials are those of an entry of a pool.
pub open spec fn are_those_of_entry(
    state: AuthView,
    file: PathView,
    id: Seq<char>,
    document: JsonView,
    entry: JsonView,
) -> bool {
    &&& state.source == AuthSourceView::Hermes(file, id)
    &&& state.document == document
    &&& json::text_in(json::member(entry, "id"@)) == Some(id)
    &&& json::text_in(json::member(entry, "access_token"@)) == Some(state.access_token)
    &&& state.access_token.len() > 0
    &&& state.refresh_token == json::text_in(json::member(entry, "refresh_token"@))
    &&& state.account_id is None
    &&& state.last_refresh == json::text_in(json::member(entry, "last_refresh"@))
}

/// Whether the document of a directory has credentials of an account outside a pool.
pub open spec fn has_own_account(directory: PathView, document: JsonView, name: Seq<char>) -> bool {
    &&& !is_pool_document(document)
    &&& exists|state: AuthView|
        #![trigger auth::identity_of(state)]
        credential_laws::are_those_of(
            state,
            AuthSourceView::File(auth_file_in(directory)),
            document,
        ) && state.access_token.len() > 0 && auth::identity_of(state) == Some(name)
}

/// Whether an entry in the pool of the document of a directory belongs to an account.
pub open spec fn is_entry_of(
    directory: PathView,
    document: JsonView,
    entry: JsonView,
    id: Seq<char>,
    name: Seq<char>,
) -> bool {
    exists|state: AuthView|
        #![trigger auth::identity_of(state)]
        are_those_of_entry(state, auth_file_in(directory), id, document, entry)
            && auth::identity_of(state) == Some(name)
}

/// Whether the document of a directory has credentials of an account in its pool.
pub open spec fn has_pooled_account(
    directory: PathView,
    document: JsonView,
    id: Seq<char>,
    name: Seq<char>,
) -> bool {
    &&& is_pool_document(document)
    &&& exists|pool: Seq<JsonView>, at: int|
        #![trigger credential_laws::keeps_in_pool(document, pool), pool[at]]
        credential_laws::keeps_in_pool(document, pool) && 0 <= at < pool.len() && is_entry_of(
            directory,
            document,
            pool[at],
            id,
            name,
        )
}

/// Whether the credentials of an account lie in a directory, under that source.
pub open spec fn lies_in(
    stored: StoredView,
    directory: PathView,
    name: Seq<char>,
    source: CodexSourceView,
) -> bool {
    exists|document: JsonView| #[trigger]
        is_document_in(stored, directory, document) && match source {
            CodexSourceView::Home(place) => place == directory && has_own_account(
                directory,
                document,
                name,
            ),
            CodexSourceView::Hermes(place, id) => place == directory && has_pooled_account(
                directory,
                document,
                id,
                name,
            ),
            CodexSourceView::Standard => false,
        }
}

/// The account of a document outside a pool.
proof fn lemma_own_account(directory: PathView, document: JsonView, name: Seq<char>)
    requires
        !is_pool_document(document),
    ensures
        has_own_account(directory, document, name) == accounts::identities_in(
            directory,
            document,
        ).contains(FoundView { identity: name, auth_source: CodexSourceView::Home(directory) }),
{
    let file = paths::auth_file(directory);
    assert(file == auth_file_in(directory));
    let found = accounts::identities_in(directory, document);
    if has_own_account(directory, document, name) {
        let state = choose|state: AuthView|
            #![trigger auth::identity_of(state)]
            credential_laws::are_those_of(
                state,
                AuthSourceView::File(auth_file_in(directory)),
                document,
            ) && state.access_token.len() > 0 && auth::identity_of(state) == Some(name);
        assert(auth::state_in(AuthSourceView::File(file), document) == Some(state));
        assert(found[0].identity == name);
    }
    if found.len() > 0 {
        let state = auth::state_in(AuthSourceView::File(file), document)->0;
        assert(auth::identity_of(state) == Some(found[0].identity));
    }
}

/// The account of an entry of a pool.
proof fn lemma_entry(
    directory: PathView,
    document: JsonView,
    entry: JsonView,
    id: Seq<char>,
    name: Seq<char>,
)
    ensures
        is_entry_of(directory, document, entry, id, name) == (accounts::pooled_identity(
            directory,
            document,
            entry,
        ) == Some(
            FoundView { identity: name, auth_source: CodexSourceView::Hermes(directory, id) },
        )),
{
    let file = paths::auth_file(directory);
    assert(file == auth_file_in(directory));
    if is_entry_of(directory, document, entry, id, name) {
        let state = choose|state: AuthView|
            #![trigger auth::identity_of(state)]
            are_those_of_entry(state, auth_file_in(directory), id, document, entry)
                && auth::identity_of(state) == Some(name);
        assert(auth::pooled_state(file, id, document, entry) == Some(state));
    }
    if accounts::pooled_identity(directory, document, entry) is Some {
        let number = auth::credential_text(entry, "id"@)->0;
        let state = auth::pooled_state(file, number, document, entry)->0;
        assert(auth::identity_of(state) is Some);
        assert(are_those_of_entry(state, file, number, document, entry));
    }
}

/// An account is found in a pool exactly where an entry gives it.
proof fn lemma_pool(directory: PathView, document: JsonView, pool: Seq<JsonView>, one: FoundView)
    ensures
        accounts::pooled_identities(directory, document, pool).contains(one) == exists|at: int|
            0 <= at < pool.len() && accounts::pooled_identity(
                directory,
                document,
                #[trigger] pool[at],
            ) == Some(one),
    decreases pool.len(),
{
    let found = accounts::pooled_identities(directory, document, pool);
    if pool.len() > 0 {
        let before = pool.drop_last();
        let known = accounts::pooled_identities(directory, document, before);
        lemma_pool(directory, document, before, one);
        if found.contains(one) {
            let k = choose|k: int| 0 <= k < found.len() && found[k] == one;
            if k < known.len() {
                assert(known[k] == one);
                assert(known.contains(one));
                let at = choose|at: int|
                    0 <= at < before.len() && accounts::pooled_identity(
                        directory,
                        document,
                        #[trigger] before[at],
                    ) == Some(one);
                assert(pool[at] == before[at]);
            } else {
                assert(pool[pool.len() - 1] == pool.last());
            }
        }
        if exists|at: int|
            0 <= at < pool.len() && accounts::pooled_identity(
                directory,
                document,
                #[trigger] pool[at],
            ) == Some(one) {
            let at = choose|at: int|
                0 <= at < pool.len() && accounts::pooled_identity(
                    directory,
                    document,
                    #[trigger] pool[at],
                ) == Some(one);
            if at < before.len() {
                assert(before[at] == pool[at]);
                let k = choose|k: int| 0 <= k < known.len() && known[k] == one;
                assert(found[k] == one);
            } else {
                assert(found[found.len() - 1] == one);
            }
        }
    }
}

/// Accounts are found in a directory exactly where their credentials lie in it.
pub proof fn accounts_are_found_where_they_lie(
    stored: StoredView,
    directory: PathView,
    name: Seq<char>,
    source: CodexSourceView,
)
    ensures
        accounts::identities_at(
            directory,
            stored::content_of(stored, auth_file_in(directory)),
        ).contains(FoundView { identity: name, auth_source: source }) == lies_in(
            stored,
            directory,
            name,
            source,
        ),
{
    let file = auth_file_in(directory);
    let one = FoundView { identity: name, auth_source: source };
    let found = accounts::identities_at(directory, stored::content_of(stored, file));
    if stored.files.contains_key(file) && json::json_from_text(stored.files[file]) is Some {
        let document = json::json_from_text(stored.files[file])->0;
        assert(is_document_in(stored, directory, document));
        if is_pool_document(document) {
            if let Some(pool) = auth::pool_in(document) {
                assert(credential_laws::keeps_in_pool(document, pool));
                lemma_pool(directory, document, pool, one);
                if let CodexSourceView::Hermes(place, id) = source {
                    if found.contains(one) {
                        let at = choose|at: int|
                            0 <= at < pool.len() && accounts::pooled_identity(
                                directory,
                                document,
                                #[trigger] pool[at],
                            ) == Some(one);
                        lemma_entry(directory, document, pool[at], id, name);
                        assert(has_pooled_account(directory, document, id, name));
                    }
                    if has_pooled_account(directory, document, id, name) && place == directory {
                        let (other, at) = choose|other: Seq<JsonView>, at: int|
                            #![trigger credential_laws::keeps_in_pool(document, other), other[at]]
                            credential_laws::keeps_in_pool(document, other) && 0 <= at
                                < other.len() && is_entry_of(
                                directory,
                                document,
                                other[at],
                                id,
                                name,
                            );
                        assert(other == pool);
                        lemma_entry(directory, document, pool[at], id, name);
                        assert(accounts::pooled_identity(directory, document, pool[at]) == Some(
                            one,
                        ));
                    }
                }
            }
        } else {
            lemma_own_account(directory, document, name);
        }
    }
}

/// Whether an account is one whose credentials lie in a directory: its stamp, its source and its
/// directory of sessions are those of the credentials.
pub open spec fn is_account_of(
    account: DiscoveredView,
    stored: StoredView,
    directory: PathView,
) -> bool {
    &&& exists|name: Seq<char>| #[trigger]
        lies_in(stored, directory, name, account.auth_source) && accounts::stamp_of(name)
            == account.identity
    &&& account.session_roots == seq![directory]
}

/// What the accounts found in one more directory are.
proof fn lemma_with_found(
    known: Seq<DiscoveredView>,
    stored: StoredView,
    home: PathView,
    found: Seq<FoundView>,
)
    requires
        forall|k: int|
            0 <= k < found.len() ==> lies_in(
                stored,
                home,
                (#[trigger] found[k]).identity,
                found[k].auth_source,
            ),
    ensures
        ({
            let after = accounts::with_found(known, home, found);
            &&& known.is_prefix_of(after)
            &&& forall|k: int|
                known.len() <= k < after.len() ==> is_account_of(#[trigger] after[k], stored, home)
                    && !accounts::is_discovered(known, after[k].identity)
            &&& forall|k: int|
                0 <= k < found.len() ==> accounts::is_discovered(
                    after,
                    accounts::stamp_of((#[trigger] found[k]).identity),
                )
        }),
    decreases found.len(),
{
    let after = accounts::with_found(known, home, found);
    if found.len() > 0 {
        let less = found.drop_last();
        let one = found.last();
        assert(one == found[found.len() - 1]);
        assert forall|k: int| 0 <= k < less.len() implies lies_in(
            stored,
            home,
            (#[trigger] less[k]).identity,
            less[k].auth_source,
        ) by {
            assert(less[k] == found[k]);
        }
        lemma_with_found(known, stored, home, less);
        let before = accounts::with_found(known, home, less);
        let stamp = accounts::stamp_of(one.identity);
        if !accounts::is_discovered(before, stamp) {
            assert(lies_in(stored, home, one.identity, one.auth_source));
            assert(after[before.len() as int].identity == stamp);
            assert(is_account_of(after[before.len() as int], stored, home));
            if accounts::is_discovered(known, stamp) {
                let i = choose|i: int|
                    0 <= i < known.len() && (#[trigger] known[i]).identity == stamp;
                assert(before[i].identity == stamp);
            }
        }
        assert(accounts::is_discovered(after, stamp));
        assert forall|k: int| known.len() <= k < after.len() implies is_account_of(
            #[trigger] after[k],
            stored,
            home,
        ) && !accounts::is_discovered(known, after[k].identity) by {
            if k < before.len() {
                assert(after[k] == before[k]);
            }
        }
        assert forall|k: int| 0 <= k < found.len() implies accounts::is_discovered(
            after,
            accounts::stamp_of((#[trigger] found[k]).identity),
        ) by {
            if k < less.len() {
                assert(less[k] == found[k]);
                let i = choose|i: int|
                    0 <= i < before.len() && (#[trigger] before[i]).identity == accounts::stamp_of(
                        less[k].identity,
                    );
                assert(after[i].identity == before[i].identity);
            }
        }
    }
}

/// One more directory adds the accounts whose credentials lie in it and which are not known yet,
/// behind those known: each of them with its own stamp, source and directory. Every account in the
/// directory is then known.
pub proof fn one_more_directory_adds_its_accounts(
    homes: Seq<PathView>,
    stored: StoredView,
    home: PathView,
)
    ensures
        ({
            let known = accounts::accounts_in(homes, stored);
            let after = accounts::accounts_in(homes.push(home), stored);
            &&& known.is_prefix_of(after)
            &&& forall|k: int|
                known.len() <= k < after.len() ==> is_account_of(#[trigger] after[k], stored, home)
                    && !accounts::is_discovered(known, after[k].identity)
            &&& forall|name: Seq<char>, source: CodexSourceView| #[trigger]
                lies_in(stored, home, name, source) ==> accounts::is_discovered(
                    after,
                    accounts::stamp_of(name),
                )
        }),
        accounts::accounts_in(Seq::empty(), stored).len() == 0,
{
    let known = accounts::accounts_in(homes, stored);
    let after = accounts::accounts_in(homes.push(home), stored);
    assert(homes.push(home).drop_last() =~= homes);
    let file = auth_file_in(home);
    assert(paths::auth_file(home) == file);
    let found = accounts::identities_at(home, stored::content_of(stored, file));
    assert forall|k: int| 0 <= k < found.len() implies lies_in(
        stored,
        home,
        (#[trigger] found[k]).identity,
        found[k].auth_source,
    ) by {
        accounts_are_found_where_they_lie(stored, home, found[k].identity, found[k].auth_source);
        assert(found.contains(found[k]));
    }
    lemma_with_found(known, stored, home, found);
    assert forall|name: Seq<char>, source: CodexSourceView| #[trigger]
        lies_in(stored, home, name, source) implies accounts::is_discovered(
        after,
        accounts::stamp_of(name),
    ) by {
        accounts_are_found_where_they_lie(stored, home, name, source);
        let k = choose|k: int|
            0 <= k < found.len() && found[k] == (FoundView {
                identity: name,
                auth_source: source,
            });
        assert(accounts::is_discovered(after, accounts::stamp_of(found[k].identity)));
    }
}

/// The accounts of several listed directories are those found in them, the first of them as the
/// default account. Where the setting lists one directory, its accounts are the same but for the
/// source, which is the standard one where the standard credentials are of the same account. Where
/// the listed directories hold no account, or none are listed, the account of the standard
/// credentials is the only one.
pub proof fn listed_accounts_come_first(stored: StoredView)
    ensures
        ({
            let homes = listed(stored.configured_home);
            let found = accounts::accounts_in(homes, stored);
            let all = accounts::all_accounts(stored);
            let standard = auth::standard_identity(stored);
            &&& found.len() > 0 ==> {
                &&& all.default_account is Some
                &&& all.default_account->0.identity == found[0].identity
                &&& all.default_account->0.session_roots == found[0].session_roots
                &&& all.accounts == found.drop_first()
                &&& homes.len() > 1 ==> all.default_account == Some(found[0])
                &&& found[0].auth_source is Hermes ==> all.default_account == Some(found[0])
                &&& homes.len() == 1 && found[0].auth_source is Home ==> {
                    let is_standard = standard matches Some(name) && accounts::stamp_of(name)
                        == found[0].identity;
                    &&& is_standard ==> all.default_account->0.auth_source
                        == CodexSourceView::Standard
                    &&& !is_standard ==> all.default_account == Some(found[0])
                }
            }
            &&& found.len() == 0 ==> {
                &&& all.accounts.len() == 0
                &&& standard is None ==> all.default_account is None
                &&& standard matches Some(name) ==> all.default_account == Some(
                    DiscoveredView {
                        identity: accounts::stamp_of(name),
                        auth_source: CodexSourceView::Standard,
                        session_roots: Seq::empty(),
                    },
                )
            }
        }),
{
    let homes = listed(stored.configured_home);
    let found = accounts::accounts_in(homes, stored);
    if let Some(directories) = paths::configured_directories(stored.configured_home) {
        if found.len() > 0 {
            let changed = accounts::listed_accounts(stored)->0;
            assert(changed.drop_first() =~= found.drop_first());
        }
    }
}

} // verus!
