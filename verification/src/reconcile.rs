//! How found accounts keep the numbers and labels that are on record.
use vstd::prelude::*;

use crate::account_laws;
use crate::accounts;
use crate::accounts::{
    CodexAuthSource, CodexSourceView, DiscoveredAllView, DiscoveredCodexAccount,
    DiscoveredCodexAccounts, DiscoveredView,
};
use crate::naming;
use crate::paths;
use crate::paths::{PathPlan, PathView};
use crate::shown_laws;
use crate::stored::StoredCredentials;
use crate::text;

verus! {

/// What is on record of an account: its stamp, its number and its label.
#[derive(Debug)]
pub struct StoredAccountRecord {
    pub identity: String,
    pub provider_id: String,
    pub label: Option<String>,
}

/// What is on record of an account.
pub struct RecordView {
    pub identity: Seq<char>,
    pub provider_id: Seq<char>,
    pub label: Option<Seq<char>>,
}

impl View for StoredAccountRecord {
    type V = RecordView;

    open spec fn view(&self) -> RecordView {
        RecordView {
            identity: self.identity@,
            provider_id: self.provider_id@,
            label: text::string_view(self.label),
        }
    }
}

/// What the records of a list say.
pub open spec fn record_views(records: Seq<StoredAccountRecord>) -> Seq<RecordView> {
    records.map_values(|record: StoredAccountRecord| record@)
}

/// An account as it is shown.
#[derive(Debug)]
pub struct CodexAccount {
    pub id: String,
    pub display_name: String,
    pub label: Option<String>,
    pub identity: String,
    pub auth_source: CodexAuthSource,
    pub session_roots: Vec<PathPlan>,
}

/// An account as it is shown.
pub struct AccountView {
    pub id: Seq<char>,
    pub display_name: Seq<char>,
    pub label: Option<Seq<char>>,
    pub identity: Seq<char>,
    pub auth_source: CodexSourceView,
    pub session_roots: Seq<PathView>,
}

impl View for CodexAccount {
    type V = AccountView;

    open spec fn view(&self) -> AccountView {
        AccountView {
            id: self.id@,
            display_name: self.display_name@,
            label: text::string_view(self.label),
            identity: self.identity@,
            auth_source: self.auth_source@,
            session_roots: paths::path_views(self.session_roots@),
        }
    }
}

/// The accounts of a list.
pub open spec fn account_views(accounts: Seq<CodexAccount>) -> Seq<AccountView> {
    accounts.map_values(|account: CodexAccount| account@)
}

/// An account that may be missing.
pub open spec fn account_view(account: Option<CodexAccount>) -> Option<AccountView> {
    match account {
        Some(inner) => Some(inner@),
        None => None,
    }
}

/// The accounts as they are shown: the default account and the others.
#[derive(Debug)]
pub struct CodexAccountDiscovery {
    pub default_account: Option<CodexAccount>,
    pub accounts: Vec<CodexAccount>,
}

/// The accounts as they are shown.
pub struct DiscoveryView {
    pub default_account: Option<AccountView>,
    pub accounts: Seq<AccountView>,
}

impl View for CodexAccountDiscovery {
    type V = DiscoveryView;

    open spec fn view(&self) -> DiscoveryView {
        DiscoveryView {
            default_account: account_view(self.default_account),
            accounts: account_views(self.accounts@),
        }
    }
}

/// Whether a record counts: no later one is of the same account.
pub open spec fn counts(records: Seq<RecordView>, at: int) -> bool {
    &&& 0 <= at < records.len()
    &&& forall|j: int|
        at < j < records.len() ==> (#[trigger] records[j]).identity != records[at].identity
}

/// Whether the record that counts for an account stands at that place.
pub open spec fn is_record_of(records: Seq<RecordView>, identity: Seq<char>, at: int) -> bool {
    counts(records, at) && records[at].identity == identity
}

/// What is on record of an account.
pub open spec fn record_of(records: Seq<RecordView>, identity: Seq<char>) -> Option<RecordView> {
    if exists|at: int| is_record_of(records, identity, at) {
        Some(records[choose|at: int| is_record_of(records, identity, at)])
    } else {
        None
    }
}

/// The numbers that are on record.
pub open spec fn numbers_on_record(records: Seq<RecordView>) -> Set<Seq<char>> {
    Set::new(|id: Seq<char>| is_on_record(records, id))
}

/// Whether a number is on record.
pub open spec fn is_on_record(records: Seq<RecordView>, id: Seq<char>) -> bool {
    exists|at: int| counts(records, at) && (#[trigger] records[at]).provider_id == id
}

/// There is only one record that counts for an account.
pub proof fn lemma_record(records: Seq<RecordView>, identity: Seq<char>, at: int)
    requires
        is_record_of(records, identity, at),
    ensures
        record_of(records, identity) == Some(records[at]),
{
    let other = choose|other: int| is_record_of(records, identity, other);
    if other < at {
        assert(records[at].identity != records[other].identity);
    } else if at < other {
        assert(records[other].identity != records[at].identity);
    }
}

/// The record that counts for an account.
fn find_record(records: &Vec<StoredAccountRecord>, identity: &str) -> (place: Option<usize>)
    ensures
        match place {
            Some(at) => {
                &&& at < records@.len()
                &&& record_of(record_views(records@), identity@) == Some(records@[at as int]@)
                &&& is_record_of(record_views(records@), identity@, at as int)
            },
            None => record_of(record_views(records@), identity@) is None,
        },
{
    let ghost views = record_views(records@);
    let mut i: usize = records.len();
    while i > 0
        invariant
            views == record_views(records@),
            i <= records@.len(),
            forall|j: int| i <= j < views.len() ==> (#[trigger] views[j]).identity != identity@,
        decreases i,
    {
        i -= 1;
        assert(views[i as int] == records@[i as int]@);
        if text::same_text(records[i].identity.as_str(), identity) {
            proof {
                lemma_record(views, identity@, i as int);
            }
            return Some(i);
        }
    }
    None
}

/// The numbers that are on record.
fn list_numbers(records: &Vec<StoredAccountRecord>) -> (numbers: Vec<String>)
    ensures
        naming::text_set(numbers@) == numbers_on_record(record_views(records@)),
{
    let ghost views = record_views(records@);
    let mut numbers: Vec<String> = Vec::new();
    let mut i: usize = 0;
    while i < records.len()
        invariant
            views == record_views(records@),
            i <= records@.len(),
            forall|id: Seq<char>|
                text::texts(numbers@).contains(id) <==> is_among(views, i as int, id),
        decreases records@.len() - i,
    {
        let ghost before = text::texts(numbers@);
        assert(views[i as int] == records@[i as int]@);
        assert(is_record_of(views, views[i as int].identity, i as int) == counts(views, i as int));
        let decisive = match find_record(records, records[i].identity.as_str()) {
            Some(at) => at == i,
            None => false,
        };
        proof {
            if counts(views, i as int) {
                lemma_record(views, views[i as int].identity, i as int);
                lemma_only_record(views, views[i as int].identity);
            }
        }
        assert(decisive == counts(views, i as int));
        if decisive {
            numbers.push(records[i].provider_id.clone());
            assert(text::texts(numbers@) =~= before.push(views[i as int].provider_id));
        }
        proof {
            lemma_more_numbers(views, before, text::texts(numbers@), i as int);
        }
        i += 1;
    }
    assert forall|id: Seq<char>| is_among(views, views.len() as int, id) == is_on_record(
        views,
        id,
    ) by {}
    assert(naming::text_set(numbers@) =~= numbers_on_record(views));
    numbers
}

/// Two places of the record that counts for an account are the same.
proof fn lemma_only_record(records: Seq<RecordView>, identity: Seq<char>)
    ensures
        forall|a: int, b: int| #[trigger]
            is_record_of(records, identity, a) && #[trigger] is_record_of(records, identity, b)
                ==> a == b,
{
}

/// Whether one of the first records that count has the number.
spec fn is_among(records: Seq<RecordView>, upto: int, id: Seq<char>) -> bool {
    exists|at: int| at < upto && counts(records, at) && (#[trigger] records[at]).provider_id == id
}

/// The numbers of one more record.
proof fn lemma_more_numbers(
    records: Seq<RecordView>,
    numbers: Seq<Seq<char>>,
    after: Seq<Seq<char>>,
    at: int,
)
    requires
        0 <= at < records.len(),
        forall|id: Seq<char>| numbers.contains(id) <==> is_among(records, at, id),
        after == (if counts(records, at) {
            numbers.push(records[at].provider_id)
        } else {
            numbers
        }),
    ensures
        forall|id: Seq<char>| after.contains(id) <==> is_among(records, at + 1, id),
{
    assert forall|id: Seq<char>| after.contains(id) <==> is_among(records, at + 1, id) by {
        if after.contains(id) {
            let place = choose|place: int| 0 <= place < after.len() && after[place] == id;
            if place < numbers.len() {
                assert(numbers[place] == id);
                assert(numbers.contains(id));
                assert(is_among(records, at, id));
                let k = choose|k: int|
                    k < at && counts(records, k) && (#[trigger] records[k]).provider_id == id;
                assert(records[k].provider_id == id);
            } else {
                assert(records[at].provider_id == id);
            }
        }
        if is_among(records, at + 1, id) {
            let k = choose|k: int|
                k < at + 1 && counts(records, k) && (#[trigger] records[k]).provider_id == id;
            if k < at {
                assert(is_among(records, at, id));
                assert(numbers.contains(id));
                let place = choose|place: int| 0 <= place < numbers.len() && numbers[place] == id;
                assert(after[place] == id);
            } else {
                assert(after[after.len() - 1] == id);
            }
        }
    }
}

/// The number that an account gets: the one on record, or the default number where the account may
/// have it and it is free, or else the first free number of its stamp.
pub open spec fn chosen_id(
    identity: Seq<char>,
    records: Seq<RecordView>,
    occupied: Set<Seq<char>>,
    may_claim_default_id: bool,
) -> Option<Seq<char>> {
    match record_of(records, identity) {
        Some(record) => Some(record.provider_id),
        None => if may_claim_default_id && !occupied.contains("codex"@) {
            Some("codex"@)
        } else {
            naming::first_free(identity, occupied, 0)
        },
    }
}

/// Whether a number can be chosen for an account.
pub open spec fn can_choose_id(
    identity: Seq<char>,
    records: Seq<RecordView>,
    occupied: Set<Seq<char>>,
    may_claim_default_id: bool,
) -> bool {
    ||| record_of(records, identity) is Some
    ||| may_claim_default_id && !occupied.contains("codex"@)
    ||| naming::has_eight_bytes(identity)
}

/// The label that is on record of an account.
pub open spec fn label_of(identity: Seq<char>, records: Seq<RecordView>) -> Option<Seq<char>> {
    match record_of(records, identity) {
        Some(record) => record.label,
        None => None,
    }
}

/// A found account with its number and label.
pub open spec fn numbered(
    account: DiscoveredView,
    id: Seq<char>,
    records: Seq<RecordView>,
) -> AccountView {
    AccountView {
        id,
        display_name: naming::display_name(label_of(account.identity, records), id),
        label: label_of(account.identity, records),
        identity: account.identity,
        auth_source: account.auth_source,
        session_roots: account.session_roots,
    }
}

/// Whether the number of an account is one on record of it, the default number, or made of its
/// stamp: `codex@` and eight characters more, where the stamp is ASCII.
pub open spec fn has_regular_id(account: AccountView, records: Seq<RecordView>) -> bool {
    ||| record_of(records, account.identity) is Some
    ||| account.id == "codex"@
    ||| "codex@"@.is_prefix_of(account.id) && (vstd::utf8::is_ascii_chars(account.identity)
        ==> account.id.len() == naming::ACCOUNT_ID_LENGTH)
}

/// Whether all accounts have numbers on record, the default number, or numbers made of their stamps.
pub open spec fn have_regular_ids(discovery: DiscoveryView, records: Seq<RecordView>) -> bool {
    &&& discovery.default_account matches Some(account) ==> has_regular_id(account, records)
    &&& forall|i: int|
        0 <= i < discovery.accounts.len() ==> has_regular_id(
            #[trigger] discovery.accounts[i],
            records,
        )
}

/// A found account with its number and label. The number is taken from then on.
pub fn reconcile_account(
    account: DiscoveredCodexAccount,
    records: &Vec<StoredAccountRecord>,
    occupied: &mut Vec<String>,
    may_claim_default_id: bool,
) -> (reconciled: Option<CodexAccount>)
    requires
        can_choose_id(
            account@.identity,
            record_views(records@),
            naming::text_set(old(occupied)@),
            may_claim_default_id,
        ),
    ensures
        match chosen_id(
            account@.identity,
            record_views(records@),
            naming::text_set(old(occupied)@),
            may_claim_default_id,
        ) {
            Some(id) => {
                &&& reconciled matches Some(inner) && inner@ == numbered(
                    account@,
                    id,
                    record_views(records@),
                )
                &&& naming::text_set(final(occupied)@) == naming::text_set(old(occupied)@).insert(id)
            },
            None => reconciled is None && final(occupied)@ == old(occupied)@,
        },
        reconciled matches Some(inner) ==> has_regular_id(inner@, record_views(records@))
            && shown_laws::shows(inner@, account@),
{
    let record = find_record(records, account.identity.as_str());
    let label = match record {
        Some(at) => text::copy_of(&records[at].label),
        None => None,
    };
    let id = match record {
        Some(at) => records[at].provider_id.clone(),
        None => if may_claim_default_id && !text::is_listed(occupied, "codex") {
            "codex".to_owned()
        } else {
            proof {
                naming::lemma_first_free_prefix(
                    account.identity@,
                    naming::text_set(occupied@),
                    0,
                );
            }
            match naming::try_allocate_account_id(account.identity.as_str(), occupied) {
                Some(id) => id,
                None => {
                    return None;
                },
            }
        },
    };
    let ghost before = text::texts(occupied@);
    occupied.push(id.clone());
    proof {
        assert(text::texts(occupied@) =~= before.push(id@));
        lemma_one_more_text(before, id@);
    }
    let display_name = naming::account_display_name_for_id(
        text::borrowed(&label),
        id.as_str(),
    );
    Some(
        CodexAccount {
            id,
            display_name,
            label,
            identity: account.identity,
            auth_source: account.auth_source,
            session_roots: account.session_roots,
        },
    )
}

/// One more text in a list is one more in the set.
proof fn lemma_one_more_text(list: Seq<Seq<char>>, one: Seq<char>)
    ensures
        list.push(one).to_set() == list.to_set().insert(one),
{
    let after = list.push(one);
    assert forall|text: Seq<char>| after.to_set().contains(text) == list.to_set().insert(
        one,
    ).contains(text) by {
        if list.contains(text) {
            let k = choose|k: int| 0 <= k < list.len() && list[k] == text;
            assert(after[k] == text);
        }
        if text == one {
            assert(after[after.len() - 1] == text);
        }
        if after.contains(text) && text != one {
            let k = choose|k: int| 0 <= k < after.len() && after[k] == text;
            assert(list[k] == text);
        }
    }
    assert(after.to_set() =~= list.to_set().insert(one));
}

/// The numbers that accounts have.
pub open spec fn ids_of(accounts: Seq<AccountView>) -> Set<Seq<char>> {
    accounts.map_values(|account: AccountView| account.id).to_set()
}

/// Found accounts with their numbers and labels, one after another, none of them with the default
/// number unless it is on record.
pub open spec fn all_numbered(
    accounts: Seq<DiscoveredView>,
    records: Seq<RecordView>,
    occupied: Set<Seq<char>>,
) -> Option<Seq<AccountView>>
    decreases accounts.len(),
{
    if accounts.len() == 0 {
        Some(Seq::empty())
    } else {
        match all_numbered(accounts.drop_last(), records, occupied) {
            Some(before) => {
                let account = accounts.last();
                let taken = occupied.union(ids_of(before));
                match chosen_id(account.identity, records, taken, false) {
                    Some(id) => Some(before.push(numbered(account, id, records))),
                    None => None,
                }
            },
            None => None,
        }
    }
}

/// The ordered accounts with one more, behind those with the same number.
pub open spec fn put_in_order(accounts: Seq<AccountView>, account: AccountView) -> Seq<AccountView>
    decreases accounts.len(),
{
    if accounts.len() > 0 && text::comes_before(account.id, accounts.last().id) {
        put_in_order(accounts.drop_last(), account).push(accounts.last())
    } else {
        accounts.push(account)
    }
}

/// The accounts in the order of their numbers; those with the same number keep their order.
pub open spec fn ordered(accounts: Seq<AccountView>) -> Seq<AccountView>
    decreases accounts.len(),
{
    if accounts.len() == 0 {
        accounts
    } else {
        put_in_order(ordered(accounts.drop_last()), accounts.last())
    }
}

/// Whether the default number is on record of one of the accounts.
pub open spec fn has_default_number(
    accounts: Seq<DiscoveredView>,
    records: Seq<RecordView>,
) -> bool {
    exists|i: int| 0 <= i < accounts.len() && is_default_on_record(#[trigger] accounts[i], records)
}

/// Whether the default number is on record of an account.
pub open spec fn is_default_on_record(account: DiscoveredView, records: Seq<RecordView>) -> bool {
    record_of(records, account.identity) matches Some(record) && record.provider_id == "codex"@
}

/// The default account with its number and label, where there is one.
pub open spec fn default_numbered(
    found: DiscoveredAllView,
    records: Seq<RecordView>,
) -> Option<Option<AccountView>> {
    match found.default_account {
        Some(account) => match chosen_id(
            account.identity,
            records,
            numbers_on_record(records),
            !has_default_number(found.accounts, records),
        ) {
            Some(id) => Some(Some(numbered(account, id, records))),
            None => None,
        },
        None => Some(None),
    }
}

/// The numbers that are taken once the default account has its own.
pub open spec fn taken_with_default(
    records: Seq<RecordView>,
    default_account: Option<AccountView>,
) -> Set<Seq<char>> {
    match default_account {
        Some(account) => numbers_on_record(records).insert(account.id),
        None => numbers_on_record(records),
    }
}

/// The found accounts with their numbers and labels. There are none where every number that the
/// stamp of an account can give is taken.
pub open spec fn all_reconciled(
    found: DiscoveredAllView,
    records: Seq<RecordView>,
) -> Option<DiscoveryView> {
    match default_numbered(found, records) {
        Some(default_account) => match all_numbered(
            found.accounts,
            records,
            taken_with_default(records, default_account),
        ) {
            Some(accounts) => Some(
                DiscoveryView { default_account, accounts: ordered(accounts) },
            ),
            None => None,
        },
        None => None,
    }
}

/// Whether a number can be chosen for each of the found accounts.
pub open spec fn can_choose_all(found: DiscoveredAllView, records: Seq<RecordView>) -> bool {
    &&& found.default_account matches Some(account) ==> can_choose_id(
        account.identity,
        records,
        numbers_on_record(records),
        !has_default_number(found.accounts, records),
    )
    &&& forall|i: int|
        0 <= i < found.accounts.len() ==> record_of(
            records,
            (#[trigger] found.accounts[i]).identity,
        ) is Some || naming::has_eight_bytes(found.accounts[i].identity)
}

/// Where one more account goes among ordered accounts.
proof fn lemma_put_at(accounts: Seq<AccountView>, account: AccountView, at: int)
    requires
        0 <= at <= accounts.len(),
        at > 0 ==> !text::comes_before(account.id, accounts[at - 1].id),
        forall|j: int|
            at <= j < accounts.len() ==> text::comes_before(
                account.id,
                (#[trigger] accounts[j]).id,
            ),
    ensures
        put_in_order(accounts, account) == accounts.insert(at, account),
    decreases accounts.len(),
{
    if at == accounts.len() {
        assert(accounts.insert(at, account) =~= accounts.push(account));
    } else {
        let before = accounts.drop_last();
        assert(text::comes_before(account.id, accounts[accounts.len() - 1].id));
        assert forall|j: int| at <= j < before.len() implies text::comes_before(
            account.id,
            (#[trigger] before[j]).id,
        ) by {
            assert(before[j] == accounts[j]);
        }
        lemma_put_at(before, account, at);
        assert(accounts.insert(at, account) =~= before.insert(at, account).push(accounts.last()));
    }
}

/// The accounts in the order of their numbers; those with the same number keep their order.
pub fn order_accounts(accounts: Vec<CodexAccount>) -> (out: Vec<CodexAccount>)
    ensures
        account_views(out@) == ordered(account_views(accounts@)),
{
    let ghost all = accounts@;
    let ghost views = account_views(all);
    let mut out: Vec<CodexAccount> = Vec::new();
    assert(views.take(0) =~= Seq::empty());
    assert(account_views(out@) =~= Seq::empty());
    for account in it: accounts
        invariant
            it.seq() == all,
            views == account_views(all),
            account_views(out@) == ordered(views.take(it.index() as int)),
    {
        let ghost before = account_views(out@);
        let ghost next = views.take(it.index() + 1);
        assert(next.drop_last() =~= views.take(it.index() as int));
        assert(next.last() == account@);
        let mut at: usize = out.len();
        while at > 0 && text::is_before(account.id.as_str(), out[at - 1].id.as_str())
            invariant
                before == account_views(out@),
                at <= out@.len(),
                forall|j: int|
                    at <= j < before.len() ==> text::comes_before(
                        account@.id,
                        (#[trigger] before[j]).id,
                    ),
            ensures
                at <= out@.len(),
                at > 0 ==> !text::comes_before(account@.id, before[at - 1].id),
            decreases at,
        {
            at -= 1;
            assert(before[at as int] == out@[at as int]@);
        }
        proof {
            lemma_put_at(before, account@, at as int);
        }
        let ghost one = account@;
        out.insert(at, account);
        assert(account_views(out@) =~= before.insert(at as int, one));
    }
    assert(views.take(views.len() as int) =~= views);
    out
}

/// Whether the default number is on record of one of the accounts.
fn any_default_number(
    accounts: &Vec<DiscoveredCodexAccount>,
    records: &Vec<StoredAccountRecord>,
) -> (any: bool)
    ensures
        any == has_default_number(
            accounts::discovered_views(accounts@),
            record_views(records@),
        ),
{
    let ghost views = accounts::discovered_views(accounts@);
    let mut i: usize = 0;
    while i < accounts.len()
        invariant
            views == accounts::discovered_views(accounts@),
            i <= accounts@.len(),
            forall|j: int|
                0 <= j < i ==> !is_default_on_record(#[trigger] views[j], record_views(records@)),
        decreases accounts@.len() - i,
    {
        assert(views[i as int] == accounts@[i as int]@);
        if let Some(at) = find_record(records, accounts[i].identity.as_str()) {
            if text::same_text(records[at].provider_id.as_str(), "codex") {
                assert(is_default_on_record(views[i as int], record_views(records@)));
                return true;
            }
        }
        i += 1;
    }
    false
}

/// The found accounts with their numbers and labels. There are none where every number that the
/// stamp of an account can give is taken.
pub fn reconcile_accounts(
    records: &Vec<StoredAccountRecord>,
    discovery: DiscoveredCodexAccounts,
) -> (reconciled: Option<CodexAccountDiscovery>)
    requires
        can_choose_all(discovery@, record_views(records@)),
    ensures
        match reconciled {
            Some(inner) => {
                &&& all_reconciled(discovery@, record_views(records@)) == Some(inner@)
                &&& have_regular_ids(inner@, record_views(records@))
                &&& shown_laws::shows_what_was_found(inner@, discovery@)
            },
            None => all_reconciled(discovery@, record_views(records@)) is None,
        },
{
    let ghost found = discovery@;
    let ghost known = record_views(records@);
    let mut occupied = list_numbers(records);
    let may_claim_default_id = !any_default_number(&discovery.accounts, records);
    let default_account = match discovery.default_account {
        Some(account) => match reconcile_account(
            account,
            records,
            &mut occupied,
            may_claim_default_id,
        ) {
            Some(reconciled) => Some(reconciled),
            None => {
                return None;
            },
        },
        None => None,
    };
    let ghost default_view = account_view(default_account);
    let ghost taken = naming::text_set(occupied@);
    assert(default_numbered(found, known) == Some(default_view));
    assert(taken == taken_with_default(known, default_view));
    let found_accounts = discovery.accounts;
    let ghost all = found_accounts@;
    let ghost views = accounts::discovered_views(all);
    let mut accounts: Vec<CodexAccount> = Vec::new();
    assert(views.take(0) =~= Seq::empty());
    assert(account_views(accounts@) =~= Seq::empty());
    assert(taken.union(ids_of(Seq::empty())) =~= taken);
    for account in it: found_accounts
        invariant
            it.seq() == all,
            views == accounts::discovered_views(all),
            views == found.accounts,
            found == discovery@,
            known == record_views(records@),
            default_numbered(found, known) == Some(default_view),
            taken == taken_with_default(known, default_view),
            can_choose_all(found, known),
            all_numbered(views.take(it.index() as int), known, taken) == Some(
                account_views(accounts@),
            ),
            naming::text_set(occupied@) == taken.union(ids_of(account_views(accounts@))),
            default_view matches Some(account) ==> has_regular_id(account, known),
            forall|k: int|
                0 <= k < accounts@.len() ==> has_regular_id((#[trigger] accounts@[k])@, known),
    {
        let ghost at = it.index() as int;
        let ghost next = views.take(at + 1);
        let ghost before = account_views(accounts@);
        proof {
            assert(next.drop_last() =~= views.take(at));
            assert(next.last() == account@);
            assert(found.accounts[at] == account@);
        }
        match reconcile_account(account, records, &mut occupied, false) {
            Some(reconciled) => {
                accounts.push(reconciled);
                proof {
                    assert(account_views(accounts@) =~= before.push(reconciled@));
                    let ids = before.map_values(|one: AccountView| one.id);
                    assert(account_views(accounts@).map_values(|one: AccountView| one.id)
                        =~= ids.push(reconciled@.id));
                    lemma_one_more_text(ids, reconciled@.id);
                    assert(naming::text_set(occupied@) =~= taken.union(
                        ids_of(account_views(accounts@)),
                    ));
                }
            },
            None => {
                proof {
                    assert(all_numbered(next, known, taken) is None);
                    lemma_unnumbered_stays(views, known, taken, at + 1);
                }
                return None;
            },
        }
    }
    assert(views.take(views.len() as int) =~= views);
    let ghost unordered = account_views(accounts@);
    assert forall|one: AccountView| unordered.contains(one) implies has_regular_id(one, known) by {
        let k = choose|k: int| 0 <= k < unordered.len() && unordered[k] == one;
        assert(accounts@[k]@ == one);
    }
    let accounts = order_accounts(accounts);
    proof {
        account_laws::ordering_keeps_the_accounts(unordered);
        let sorted = account_views(accounts@);
        assert forall|k: int| 0 <= k < sorted.len() implies has_regular_id(
            #[trigger] sorted[k],
            known,
        ) by {
            assert(sorted.contains(sorted[k]));
        }
        shown_laws::what_is_shown_was_found(found, known);
    }
    Some(CodexAccountDiscovery { default_account, accounts })
}

/// Where some accounts cannot get numbers, they and more cannot.
proof fn lemma_unnumbered_stays(
    accounts: Seq<DiscoveredView>,
    records: Seq<RecordView>,
    occupied: Set<Seq<char>>,
    upto: int,
)
    requires
        0 <= upto <= accounts.len(),
        all_numbered(accounts.take(upto), records, occupied) is None,
    ensures
        all_numbered(accounts, records, occupied) is None,
    decreases accounts.len(),
{
    if upto < accounts.len() {
        assert(accounts.drop_last().take(upto) =~= accounts.take(upto));
        lemma_unnumbered_stays(accounts.drop_last(), records, occupied, upto);
    } else {
        assert(accounts.take(upto) =~= accounts);
    }
}

/// The accounts that are found, with their numbers and labels. There are none where every number
/// that the stamp of an account can give is taken.
pub fn discover(stored: &StoredCredentials, records: &Vec<StoredAccountRecord>) -> (found: Option<
    CodexAccountDiscovery,
>)
    ensures
        match found {
            Some(inner) => {
                &&& all_reconciled(accounts::all_accounts(stored@), record_views(records@)) == Some(
                    inner@,
                )
                &&& have_regular_ids(inner@, record_views(records@))
                &&& shown_laws::shows_what_was_found(inner@, accounts::all_accounts(stored@))
            },
            None => all_reconciled(
                accounts::all_accounts(stored@),
                record_views(records@),
            ) is None,
        },
{
    let raw = accounts::discover_accounts(stored);
    if raw.default_account.is_none() && raw.accounts.len() == 0 {
        let found = CodexAccountDiscovery { default_account: None, accounts: Vec::new() };
        proof {
            assert(raw@.accounts =~= Seq::empty());
            assert(found@.accounts =~= Seq::empty());
        }
        return Some(found);
    }
    reconcile_accounts(records, raw)
}

} // verus!
