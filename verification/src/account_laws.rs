//! What holds of found and numbered accounts.
use vstd::prelude::*;

use crate::accounts;
use crate::accounts::{CodexSourceView, DiscoveredAllView, DiscoveredView, FoundView};
use crate::auth;
use crate::auth::AuthView;
use crate::json;
use crate::json::JsonView;
use crate::naming;
use crate::paths;
use crate::paths::PathView;
use crate::pointers;
use crate::reconcile;
use crate::reconcile::{AccountView, DiscoveryView, RecordView};
use crate::stored;
use crate::stored::StoredView;
use crate::text;

verus! {

/// Whether no two of the accounts are the same.
pub open spec fn are_distinct(accounts: Seq<DiscoveredView>) -> bool {
    forall|i: int, j: int|
        0 <= i < j < accounts.len() ==> (#[trigger] accounts[i]).identity != (
        #[trigger] accounts[j]).identity
}

/// The found accounts, the default account first.
pub open spec fn in_sequence(found: DiscoveredAllView) -> Seq<DiscoveredView> {
    match found.default_account {
        Some(account) => seq![account] + found.accounts,
        None => found.accounts,
    }
}

/// No account is found twice.
pub proof fn no_account_is_found_twice(stored: StoredView)
    ensures
        are_distinct(in_sequence(accounts::all_accounts(stored))),
{
    match accounts::listed_accounts(stored) {
        Some(listed) => {
            let homes = paths::configured_directories(stored.configured_home)->0;
            let found = accounts::accounts_in(homes, stored);
            lemma_accounts_distinct(homes, stored);
            assert forall|i: int, j: int| 0 <= i < j < listed.len() implies (
            #[trigger] listed[i]).identity != (#[trigger] listed[j]).identity by {
                assert(found[i].identity != found[j].identity);
            }
            assert(in_sequence(accounts::first_as_default(listed)) =~= listed);
        },
        None => {},
    }
}

/// The accounts found in directories are distinct.
proof fn lemma_accounts_distinct(homes: Seq<PathView>, stored: StoredView)
    ensures
        are_distinct(accounts::accounts_in(homes, stored)),
    decreases homes.len(),
{
    if homes.len() > 0 {
        let home = homes.last();
        lemma_accounts_distinct(homes.drop_last(), stored);
        lemma_found_distinct(
            accounts::accounts_in(homes.drop_last(), stored),
            home,
            accounts::identities_at(
                home,
                stored::content_of(stored, paths::auth_file(home)),
            ),
        );
    }
}

/// Distinct accounts stay distinct with those found in one more directory.
proof fn lemma_found_distinct(
    known: Seq<DiscoveredView>,
    home: PathView,
    found: Seq<FoundView>,
)
    requires
        are_distinct(known),
    ensures
        are_distinct(accounts::with_found(known, home, found)),
    decreases found.len(),
{
    if found.len() > 0 {
        lemma_found_distinct(known, home, found.drop_last());
        let before = accounts::with_found(known, home, found.drop_last());
        let after = accounts::with_found(known, home, found);
        assert forall|i: int, j: int| 0 <= i < j < after.len() implies (#[trigger] after[i]).identity
            != (#[trigger] after[j]).identity by {
            if j < before.len() {
                assert(before[i].identity != before[j].identity);
            } else {
                assert(before[i].identity != after[j].identity);
            }
        }
    }
}

/// Whether no two of the accounts have the same number.
pub open spec fn have_distinct_ids(accounts: Seq<AccountView>) -> bool {
    forall|i: int, j: int|
        0 <= i < j < accounts.len() ==> (#[trigger] accounts[i]).id != (#[trigger] accounts[j]).id
}

/// Whether no two of the numbered accounts are the same.
pub open spec fn have_distinct_identities(accounts: Seq<AccountView>) -> bool {
    forall|i: int, j: int|
        0 <= i < j < accounts.len() ==> (#[trigger] accounts[i]).identity != (
        #[trigger] accounts[j]).identity
}

/// Whether the accounts stand in the order of their numbers.
pub open spec fn are_ordered(accounts: Seq<AccountView>) -> bool {
    forall|i: int, j: int|
        0 <= i < j < accounts.len() ==> !text::comes_before(
            (#[trigger] accounts[j]).id,
            (#[trigger] accounts[i]).id,
        )
}

/// What putting one more account in order keeps.
proof fn lemma_put_in_order(accounts: Seq<AccountView>, account: AccountView)
    ensures
        reconcile::put_in_order(accounts, account).len() == accounts.len() + 1,
        forall|one: AccountView| #[trigger]
            reconcile::put_in_order(accounts, account).contains(one) <==> accounts.contains(one)
                || one == account,
        have_distinct_ids(accounts) && (forall|i: int|
            0 <= i < accounts.len() ==> (#[trigger] accounts[i]).id != account.id)
            ==> have_distinct_ids(reconcile::put_in_order(accounts, account)),
        have_distinct_identities(accounts) && (forall|i: int|
            0 <= i < accounts.len() ==> (#[trigger] accounts[i]).identity != account.identity)
            ==> have_distinct_identities(reconcile::put_in_order(accounts, account)),
        are_ordered(accounts) ==> are_ordered(reconcile::put_in_order(accounts, account)),
    decreases accounts.len(),
{
    let out = reconcile::put_in_order(accounts, account);
    if accounts.len() > 0 && text::comes_before(account.id, accounts.last().id) {
        let before = accounts.drop_last();
        let inner = reconcile::put_in_order(before, account);
        lemma_put_in_order(before, account);
        assert forall|one: AccountView| #[trigger] out.contains(one) <==> accounts.contains(one)
            || one == account by {
            lemma_contains_push(inner, accounts.last(), one);
            lemma_contains_push(before, accounts.last(), one);
            assert(before.push(accounts.last()) =~= accounts);
        }
        let last = accounts.last();
        assert forall|i: int| 0 <= i < inner.len() implies before.contains(#[trigger] inner[i])
            || inner[i] == account by {
            assert(inner.contains(inner[i]));
        }
        if have_distinct_ids(accounts) && (forall|i: int|
            0 <= i < accounts.len() ==> (#[trigger] accounts[i]).id != account.id) {
            assert forall|i: int| 0 <= i < before.len() implies (#[trigger] before[i]).id
                != account.id by {
                assert(before[i] == accounts[i]);
            }
            assert forall|i: int, j: int| 0 <= i < j < before.len() implies (
            #[trigger] before[i]).id != (#[trigger] before[j]).id by {
                assert(accounts[i].id != accounts[j].id);
            }
            assert forall|i: int| 0 <= i < inner.len() implies (#[trigger] inner[i]).id
                != last.id by {
                if before.contains(inner[i]) {
                    let k = choose|k: int| 0 <= k < before.len() && before[k] == inner[i];
                    assert(accounts[k].id != accounts[accounts.len() - 1].id);
                } else {
                    assert(accounts[accounts.len() - 1].id != account.id);
                }
            }
        }
        if have_distinct_identities(accounts) && (forall|i: int|
            0 <= i < accounts.len() ==> (#[trigger] accounts[i]).identity != account.identity) {
            assert forall|i: int| 0 <= i < before.len() implies (#[trigger] before[i]).identity
                != account.identity by {
                assert(before[i] == accounts[i]);
            }
            assert forall|i: int, j: int| 0 <= i < j < before.len() implies (
            #[trigger] before[i]).identity != (#[trigger] before[j]).identity by {
                assert(accounts[i].identity != accounts[j].identity);
            }
            assert forall|i: int| 0 <= i < inner.len() implies (#[trigger] inner[i]).identity
                != last.identity by {
                if before.contains(inner[i]) {
                    let k = choose|k: int| 0 <= k < before.len() && before[k] == inner[i];
                    assert(accounts[k].identity != accounts[accounts.len() - 1].identity);
                } else {
                    assert(accounts[accounts.len() - 1].identity != account.identity);
                }
            }
        }
        if are_ordered(accounts) {
            assert forall|i: int, j: int| 0 <= i < j < before.len() implies !text::comes_before(
                (#[trigger] before[j]).id,
                (#[trigger] before[i]).id,
            ) by {
                assert(!text::comes_before(accounts[j].id, accounts[i].id));
            }
            assert forall|i: int| 0 <= i < inner.len() implies !text::comes_before(
                last.id,
                (#[trigger] inner[i]).id,
            ) by {
                if before.contains(inner[i]) {
                    let k = choose|k: int| 0 <= k < before.len() && before[k] == inner[i];
                    assert(!text::comes_before(accounts[accounts.len() - 1].id, accounts[k].id));
                } else {
                    text::lemma_order_total(last.id, account.id);
                }
            }
        }
    } else {
        assert forall|one: AccountView| #[trigger] out.contains(one) <==> accounts.contains(one)
            || one == account by {
            lemma_contains_push(accounts, account, one);
        }
        if are_ordered(accounts) && accounts.len() > 0 {
            let last = accounts.last();
            assert forall|i: int| 0 <= i < accounts.len() implies !text::comes_before(
                account.id,
                (#[trigger] accounts[i]).id,
            ) by {
                if text::comes_before(account.id, accounts[i].id) {
                    text::lemma_order_total(account.id, last.id);
                    if i < accounts.len() - 1 {
                        assert(!text::comes_before(
                            accounts[accounts.len() - 1].id,
                            accounts[i].id,
                        ));
                        text::lemma_order_total(accounts[i].id, last.id);
                        if text::comes_before(last.id, account.id) {
                            text::lemma_order_transitive(last.id, account.id, accounts[i].id);
                        }
                    }
                }
            }
        }
    }
}

/// What a sequence holds with one more item.
proof fn lemma_contains_push(accounts: Seq<AccountView>, account: AccountView, one: AccountView)
    ensures
        accounts.push(account).contains(one) == (accounts.contains(one) || one == account),
{
    let after = accounts.push(account);
    if accounts.contains(one) {
        let k = choose|k: int| 0 <= k < accounts.len() && accounts[k] == one;
        assert(after[k] == one);
    }
    if one == account {
        assert(after[accounts.len() as int] == one);
    }
    if after.contains(one) && one != account {
        let k = choose|k: int| 0 <= k < after.len() && after[k] == one;
        assert(accounts[k] == one);
    }
}

/// Ordering accounts keeps which they are, and puts them in the order of their numbers.
pub proof fn ordering_keeps_the_accounts(accounts: Seq<AccountView>)
    ensures
        are_ordered(reconcile::ordered(accounts)),
        reconcile::ordered(accounts).len() == accounts.len(),
        forall|one: AccountView| #[trigger]
            reconcile::ordered(accounts).contains(one) <==> accounts.contains(one),
        have_distinct_ids(accounts) ==> have_distinct_ids(reconcile::ordered(accounts)),
        have_distinct_identities(accounts) ==> have_distinct_identities(
            reconcile::ordered(accounts),
        ),
    decreases accounts.len(),
{
    if accounts.len() > 0 {
        let before = accounts.drop_last();
        let last = accounts.last();
        let inner = reconcile::ordered(before);
        ordering_keeps_the_accounts(before);
        lemma_put_in_order(inner, last);
        assert forall|one: AccountView| #[trigger] reconcile::ordered(accounts).contains(one)
            <==> accounts.contains(one) by {
            lemma_contains_push(before, last, one);
            assert(before.push(last) =~= accounts);
            assert(inner.contains(one) <==> before.contains(one));
        }
        assert forall|i: int| 0 <= i < inner.len() implies exists|k: int|
            0 <= k < before.len() && before[k] == #[trigger] inner[i] by {
            assert(inner.contains(inner[i]));
            assert(before.contains(inner[i]));
        }
        if have_distinct_ids(accounts) {
            assert forall|i: int, j: int| 0 <= i < j < before.len() implies (
            #[trigger] before[i]).id != (#[trigger] before[j]).id by {
                assert(accounts[i].id != accounts[j].id);
            }
            assert forall|i: int| 0 <= i < inner.len() implies (#[trigger] inner[i]).id
                != last.id by {
                let k = choose|k: int| 0 <= k < before.len() && before[k] == inner[i];
                assert(accounts[k].id != accounts[accounts.len() - 1].id);
            }
        }
        if have_distinct_identities(accounts) {
            assert forall|i: int, j: int| 0 <= i < j < before.len() implies (
            #[trigger] before[i]).identity != (#[trigger] before[j]).identity by {
                assert(accounts[i].identity != accounts[j].identity);
            }
            assert forall|i: int| 0 <= i < inner.len() implies (#[trigger] inner[i]).identity
                != last.identity by {
                let k = choose|k: int| 0 <= k < before.len() && before[k] == inner[i];
                assert(accounts[k].identity != accounts[accounts.len() - 1].identity);
            }
        }
    }
}

/// How each account got its number.
pub proof fn lemma_numbered(
    found: Seq<DiscoveredView>,
    records: Seq<RecordView>,
    occupied: Set<Seq<char>>,
)
    requires
        reconcile::all_numbered(found, records, occupied) is Some,
    ensures
        ({
            let out = reconcile::all_numbered(found, records, occupied)->0;
            &&& out.len() == found.len()
            &&& forall|i: int|
                0 <= i < out.len() ==> #[trigger] out[i] == reconcile::numbered(
                    found[i],
                    out[i].id,
                    records,
                ) && reconcile::chosen_id(
                    found[i].identity,
                    records,
                    occupied.union(reconcile::ids_of(out.take(i))),
                    false,
                ) == Some(out[i].id)
        }),
    decreases found.len(),
{
    let out = reconcile::all_numbered(found, records, occupied)->0;
    if found.len() > 0 {
        let before = reconcile::all_numbered(found.drop_last(), records, occupied)->0;
        lemma_numbered(found.drop_last(), records, occupied);
        assert forall|i: int| 0 <= i < out.len() implies #[trigger] out[i] == reconcile::numbered(
            found[i],
            out[i].id,
            records,
        ) && reconcile::chosen_id(
            found[i].identity,
            records,
            occupied.union(reconcile::ids_of(out.take(i))),
            false,
        ) == Some(out[i].id) by {
            if i < before.len() {
                assert(before[i] == out[i]);
                assert(out.take(i) =~= before.take(i));
            } else {
                assert(out.take(i) =~= before);
            }
        }
    }
}

/// An earlier account has one of the numbers that are taken.
pub proof fn lemma_earlier_id(accounts: Seq<AccountView>, upto: int, at: int)
    requires
        0 <= at < upto <= accounts.len(),
    ensures
        reconcile::ids_of(accounts.take(upto)).contains(accounts[at].id),
{
    let ids = accounts.take(upto).map_values(|account: AccountView| account.id);
    assert(ids[at] == accounts[at].id);
}

/// A number on record of an account is on record.
pub proof fn lemma_record_number(records: Seq<RecordView>, identity: Seq<char>)
    requires
        reconcile::record_of(records, identity) is Some,
    ensures
        reconcile::numbers_on_record(records).contains(
            reconcile::record_of(records, identity)->0.provider_id,
        ),
        exists|at: int|
            reconcile::is_record_of(records, identity, at) && records[at] == reconcile::record_of(
                records,
                identity,
            )->0,
{
    let at = choose|at: int| reconcile::is_record_of(records, identity, at);
    assert(reconcile::counts(records, at));
    assert(records[at].provider_id == reconcile::record_of(records, identity)->0.provider_id);
}

/// Whether no two records that count have the same number.
pub open spec fn records_have_distinct_ids(records: Seq<RecordView>) -> bool {
    forall|a: int, b: int|
        reconcile::counts(records, a) && reconcile::counts(records, b) && (
        #[trigger] records[a]).provider_id == (#[trigger] records[b]).provider_id ==> a == b
}

/// The numbers on record of two accounts differ.
proof fn lemma_record_ids_differ(
    records: Seq<RecordView>,
    first: Seq<char>,
    second: Seq<char>,
)
    requires
        records_have_distinct_ids(records),
        first != second,
        reconcile::record_of(records, first) is Some,
        reconcile::record_of(records, second) is Some,
    ensures
        reconcile::record_of(records, first)->0.provider_id != reconcile::record_of(
            records,
            second,
        )->0.provider_id,
{
    lemma_record_number(records, first);
    lemma_record_number(records, second);
    let a = choose|at: int|
        reconcile::is_record_of(records, first, at) && records[at] == reconcile::record_of(
            records,
            first,
        )->0;
    let b = choose|at: int|
        reconcile::is_record_of(records, second, at) && records[at] == reconcile::record_of(
            records,
            second,
        )->0;
    assert(records[a].identity != records[b].identity);
}

/// A number that is chosen for an account is not one that is taken, unless it is on record of it.
pub proof fn lemma_chosen_is_free(
    identity: Seq<char>,
    records: Seq<RecordView>,
    occupied: Set<Seq<char>>,
    may_claim: bool,
)
    requires
        reconcile::record_of(records, identity) is None,
        reconcile::chosen_id(identity, records, occupied, may_claim) is Some,
    ensures
        !occupied.contains(reconcile::chosen_id(identity, records, occupied, may_claim)->0),
{
    naming::lemma_first_free_is_free(identity, occupied, 0);
}

/// The numbered accounts, the default account first.
pub open spec fn numbered_in_sequence(discovery: DiscoveryView) -> Seq<AccountView> {
    match discovery.default_account {
        Some(account) => seq![account] + discovery.accounts,
        None => discovery.accounts,
    }
}

/// Where the numbers on record differ, no two accounts get the same number.
pub proof fn no_number_is_given_twice(found: DiscoveredAllView, records: Seq<RecordView>)
    requires
        are_distinct(in_sequence(found)),
        records_have_distinct_ids(records),
        reconcile::all_reconciled(found, records) is Some,
    ensures
        have_distinct_ids(
            numbered_in_sequence(reconcile::all_reconciled(found, records)->0),
        ),
{
    let default_account = reconcile::default_numbered(found, records)->0;
    let taken = reconcile::taken_with_default(records, default_account);
    let out = reconcile::all_numbered(found.accounts, records, taken)->0;
    lemma_numbered(found.accounts, records, taken);
    let numbers = reconcile::numbers_on_record(records);
    lemma_extra_accounts_distinct(found);
    assert forall|i: int, j: int| 0 <= i < j < out.len() implies (#[trigger] out[i]).id != (
    #[trigger] out[j]).id by {
        let first = found.accounts[i];
        let second = found.accounts[j];
        assert(first.identity != second.identity);
        lemma_earlier_id(out, j, i);
        if reconcile::record_of(records, second.identity) is None {
            lemma_chosen_is_free(
                second.identity,
                records,
                taken.union(reconcile::ids_of(out.take(j))),
                false,
            );
        } else {
            lemma_record_number(records, second.identity);
            if reconcile::record_of(records, first.identity) is None {
                lemma_chosen_is_free(
                    first.identity,
                    records,
                    taken.union(reconcile::ids_of(out.take(i))),
                    false,
                );
            } else {
                lemma_record_ids_differ(records, first.identity, second.identity);
            }
        }
    }
    assert(have_distinct_ids(out));
    ordering_keeps_the_accounts(out);
    if let Some(account) = default_account {
        let first = found.default_account->0;
        assert forall|j: int| 0 <= j < out.len() implies (#[trigger] out[j]).id != account.id by {
            let second = found.accounts[j];
            assert(in_sequence(found)[0] == first);
            assert(in_sequence(found)[j + 1] == second);
            assert(first.identity != second.identity);
            if reconcile::record_of(records, second.identity) is None {
                lemma_chosen_is_free(
                    second.identity,
                    records,
                    taken.union(reconcile::ids_of(out.take(j))),
                    false,
                );
            } else {
                lemma_record_number(records, second.identity);
                if reconcile::record_of(records, first.identity) is None {
                    lemma_chosen_is_free(
                        first.identity,
                        records,
                        numbers,
                        !reconcile::has_default_number(found.accounts, records),
                    );
                } else {
                    lemma_record_ids_differ(records, first.identity, second.identity);
                }
            }
        }
        let all = reconcile::ordered(out);
        let whole = seq![account] + all;
        assert forall|i: int, j: int| 0 <= i < j < whole.len() implies (#[trigger] whole[i]).id != (
        #[trigger] whole[j]).id by {
            assert(whole[j] == all[j - 1]);
            if i == 0 {
                assert(all.contains(all[j - 1]));
                assert(out.contains(all[j - 1]));
            } else {
                assert(whole[i] == all[i - 1]);
            }
        }
    }
}

/// The accounts besides the default account are distinct.
proof fn lemma_extra_accounts_distinct(found: DiscoveredAllView)
    requires
        are_distinct(in_sequence(found)),
    ensures
        are_distinct(found.accounts),
{
    let all = in_sequence(found);
    if found.default_account is Some {
        assert forall|i: int, j: int| 0 <= i < j < found.accounts.len() implies (
        #[trigger] found.accounts[i]).identity != (#[trigger] found.accounts[j]).identity by {
            assert(all[i + 1] == found.accounts[i]);
            assert(all[j + 1] == found.accounts[j]);
        }
    }
}

/// The default account gets the default number, where none is on record of it and that number is
/// not on record.
pub proof fn the_default_account_gets_the_default_number(
    found: DiscoveredAllView,
    records: Seq<RecordView>,
)
    requires
        found.default_account is Some,
        reconcile::record_of(records, found.default_account->0.identity) is None,
        !reconcile::is_on_record(records, "codex"@),
    ensures
        reconcile::default_numbered(found, records) == Some(
            Some(reconcile::numbered(found.default_account->0, "codex"@, records)),
        ),
{
    assert forall|i: int| 0 <= i < found.accounts.len() implies !reconcile::is_default_on_record(
        #[trigger] found.accounts[i],
        records,
    ) by {
        if reconcile::is_default_on_record(found.accounts[i], records) {
            lemma_record_number(records, found.accounts[i].identity);
        }
    }
}

/// Of the other accounts only one that has the default number on record gets it.
pub proof fn other_accounts_do_not_claim_the_default_number(
    found: Seq<DiscoveredView>,
    records: Seq<RecordView>,
    occupied: Set<Seq<char>>,
    at: int,
)
    requires
        reconcile::all_numbered(found, records, occupied) is Some,
        0 <= at < found.len(),
        reconcile::all_numbered(found, records, occupied)->0[at].id == "codex"@,
    ensures
        reconcile::is_default_on_record(found[at], records),
{
    lemma_numbered(found, records, occupied);
    let out = reconcile::all_numbered(found, records, occupied)->0;
    if reconcile::record_of(records, found[at].identity) is None {
        lemma_free_number_is_long(
            found[at].identity,
            occupied.union(reconcile::ids_of(out.take(at))),
            0,
        );
        reveal_strlit("codex");
    }
}

/// The numbers made of stamps are longer than the default number.
pub proof fn lemma_free_number_is_long(stamp: Seq<char>, occupied: Set<Seq<char>>, salt: nat)
    ensures
        naming::first_free(stamp, occupied, salt) matches Some(id) ==> id.len() >= 6,
    decreases u64::MAX + 1 - salt,
{
    reveal_strlit("codex@");
    if salt <= u64::MAX && occupied.contains(naming::account_id_for(stamp, salt)) {
        lemma_free_number_is_long(stamp, occupied, salt + 1);
    }
}

/// What goes on record of an account.
pub open spec fn record_for(account: AccountView) -> RecordView {
    RecordView { identity: account.identity, provider_id: account.id, label: account.label }
}

/// The records with those of the numbered accounts.
pub open spec fn records_after(records: Seq<RecordView>, discovery: DiscoveryView) -> Seq<
    RecordView,
> {
    records + numbered_in_sequence(discovery).map_values(|one: AccountView| record_for(one))
}

/// What is on record of an account that was numbered.
proof fn lemma_record_after(
    records: Seq<RecordView>,
    discovery: DiscoveryView,
    account: AccountView,
)
    requires
        have_distinct_identities(numbered_in_sequence(discovery)),
        numbered_in_sequence(discovery).contains(account),
    ensures
        reconcile::record_of(records_after(records, discovery), account.identity) == Some(
            record_for(account),
        ),
{
    let all = numbered_in_sequence(discovery);
    let added = all.map_values(|one: AccountView| record_for(one));
    let after = records_after(records, discovery);
    let k = choose|k: int| 0 <= k < all.len() && all[k] == account;
    let at = records.len() + k;
    assert(after[at] == record_for(account));
    assert forall|j: int| at < j < after.len() implies (#[trigger] after[j]).identity
        != after[at].identity by {
        assert(after[j] == added[j - records.len()]);
        assert(all[k].identity != all[j - records.len()].identity);
    }
    assert(reconcile::is_record_of(after, account.identity, at));
    reconcile::lemma_record(after, account.identity, at);
}

/// Accounts that are on record keep their numbers.
proof fn lemma_numbers_stay(
    found: Seq<DiscoveredView>,
    records: Seq<RecordView>,
    occupied: Set<Seq<char>>,
    after: Seq<RecordView>,
    later_occupied: Set<Seq<char>>,
)
    requires
        reconcile::all_numbered(found, records, occupied) is Some,
        forall|i: int|
            0 <= i < found.len() ==> reconcile::record_of(
                after,
                (#[trigger] found[i]).identity,
            ) == Some(
                record_for(reconcile::all_numbered(found, records, occupied)->0[i]),
            ),
    ensures
        reconcile::all_numbered(found, after, later_occupied) == reconcile::all_numbered(
            found,
            records,
            occupied,
        ),
    decreases found.len(),
{
    if found.len() > 0 {
        let out = reconcile::all_numbered(found, records, occupied)->0;
        let before = found.drop_last();
        let named = reconcile::all_numbered(before, records, occupied)->0;
        lemma_numbered(found, records, occupied);
        lemma_numbered(before, records, occupied);
        assert forall|i: int| 0 <= i < before.len() implies reconcile::record_of(
            after,
            (#[trigger] before[i]).identity,
        ) == Some(record_for(named[i])) by {
            assert(found[i] == before[i]);
            assert(out[i] == named[i]);
        }
        lemma_numbers_stay(before, records, occupied, after, later_occupied);
        let last = found.len() - 1;
        assert(out[last] == reconcile::numbered(found[last], out[last].id, records));
        assert(reconcile::record_of(after, found[last].identity) == Some(record_for(out[last])));
        assert(reconcile::numbered(found[last], out[last].id, after) == out[last]);
        assert(out =~= named.push(out[last]));
    }
}

/// Accounts keep their numbers, names and labels over restarts: what is put on record of them gives
/// the same accounts again.
pub proof fn accounts_stay_the_same_over_restarts(
    found: DiscoveredAllView,
    records: Seq<RecordView>,
)
    requires
        are_distinct(in_sequence(found)),
        reconcile::all_reconciled(found, records) is Some,
    ensures
        reconcile::all_reconciled(
            found,
            records_after(records, reconcile::all_reconciled(found, records)->0),
        ) == reconcile::all_reconciled(found, records),
{
    let first = reconcile::all_reconciled(found, records)->0;
    let after = records_after(records, first);
    let default_account = reconcile::default_numbered(found, records)->0;
    let taken = reconcile::taken_with_default(records, default_account);
    let out = reconcile::all_numbered(found.accounts, records, taken)->0;
    let sequence = numbered_in_sequence(first);
    lemma_numbered(found.accounts, records, taken);
    lemma_extra_accounts_distinct(found);
    assert forall|i: int, j: int| 0 <= i < j < out.len() implies (#[trigger] out[i]).identity != (
    #[trigger] out[j]).identity by {
        assert(found.accounts[i].identity != found.accounts[j].identity);
    }
    ordering_keeps_the_accounts(out);
    if let Some(account) = default_account {
        assert forall|i: int, j: int| 0 <= i < j < sequence.len() implies (
        #[trigger] sequence[i]).identity != (#[trigger] sequence[j]).identity by {
            assert(sequence[j] == first.accounts[j - 1]);
            if i == 0 {
                assert(first.accounts.contains(first.accounts[j - 1]));
                assert(out.contains(first.accounts[j - 1]));
                let k = choose|k: int| 0 <= k < out.len() && out[k] == first.accounts[j - 1];
                assert(in_sequence(found)[0].identity != in_sequence(found)[k + 1].identity);
            } else {
                assert(sequence[i] == first.accounts[i - 1]);
            }
        }
        assert(sequence[0] == account);
        assert(sequence.contains(account));
        lemma_record_after(records, first, account);
    }
    assert(have_distinct_identities(sequence));
    assert forall|i: int| 0 <= i < found.accounts.len() implies reconcile::record_of(
        after,
        (#[trigger] found.accounts[i]).identity,
    ) == Some(record_for(out[i])) by {
        assert(out.contains(out[i]));
        assert(first.accounts.contains(out[i]));
        let k = choose|k: int| 0 <= k < first.accounts.len() && first.accounts[k] == out[i];
        if default_account is Some {
            assert(sequence[k + 1] == out[i]);
        } else {
            assert(sequence[k] == out[i]);
        }
        assert(sequence.contains(out[i]));
        lemma_record_after(records, first, out[i]);
    }
    lemma_numbers_stay(
        found.accounts,
        records,
        taken,
        after,
        reconcile::taken_with_default(after, default_account),
    );
}

/// Whether no two credentials of a pool have the same number.
pub open spec fn pool_has_distinct_ids(pool: Seq<JsonView>) -> bool {
    forall|i: int, j: int|
        0 <= i < j < pool.len() && auth::credential_text(pool[i], "id"@) is Some
            ==> auth::credential_text(#[trigger] pool[i], "id"@) != auth::credential_text(
            #[trigger] pool[j],
            "id"@,
        )
}

/// Whether no two credentials in the pool of a directory have the same number.
pub open spec fn directory_has_distinct_ids(stored: StoredView, directory: PathView) -> bool {
    match stored::content_of(stored, paths::auth_file(directory)) {
        Some(content) => match json::json_from_text(content) {
            Some(document) => match auth::pool_in(document) {
                Some(pool) => pool_has_distinct_ids(pool),
                None => true,
            },
            None => true,
        },
        None => true,
    }
}

/// Which credential of a pool an account comes from.
proof fn lemma_pooled_origin(
    directory: PathView,
    document: JsonView,
    pool: Seq<JsonView>,
    at: int,
)
    requires
        0 <= at < accounts::pooled_identities(directory, document, pool).len(),
    ensures
        exists|c: int|
            0 <= c < pool.len() && accounts::pooled_identity(
                directory,
                document,
                #[trigger] pool[c],
            ) == Some(accounts::pooled_identities(directory, document, pool)[at]),
    decreases pool.len(),
{
    let before = pool.drop_last();
    let known = accounts::pooled_identities(directory, document, before);
    if at < known.len() {
        lemma_pooled_origin(directory, document, before, at);
        let c = choose|c: int|
            0 <= c < before.len() && accounts::pooled_identity(
                directory,
                document,
                #[trigger] before[c],
            ) == Some(known[at]);
        assert(pool[c] == before[c]);
    } else {
        assert(pool[pool.len() - 1] == pool.last());
    }
}

/// An account found in a directory is the account of the credentials that its source stands for.
proof fn lemma_found_loads(stored: StoredView, directory: PathView, at: int)
    requires
        directory_has_distinct_ids(stored, directory),
        0 <= at < accounts::identities_at(
            directory,
            stored::content_of(stored, paths::auth_file(directory)),
        ).len(),
    ensures
        ({
            let one = accounts::identities_at(
                directory,
                stored::content_of(stored, paths::auth_file(directory)),
            )[at];
            accounts::source_identity(one.auth_source, stored) == Some(one.identity)
        }),
{
    let file = paths::auth_file(directory);
    let content = stored::content_of(stored, file)->0;
    let document = json::json_from_text(content)->0;
    let one = accounts::identities_in(directory, document)[at];
    reveal_with_fuel(auth::first_identity, 2);
    if accounts::keeps_pool(document) {
        let pool = auth::pool_in(document)->0;
        lemma_pooled_origin(directory, document, pool, at);
        let c = choose|c: int|
            0 <= c < pool.len() && accounts::pooled_identity(
                directory,
                document,
                #[trigger] pool[c],
            ) == Some(one);
        let id = auth::credential_text(pool[c], "id"@)->0;
        assert forall|i: int| 0 <= i < c implies auth::credential_text(#[trigger] pool[i], "id"@)
            != Some(id) by {
            assert(auth::credential_text(pool[i], "id"@) is Some ==> auth::credential_text(
                pool[i],
                "id"@,
            ) != auth::credential_text(pool[c], "id"@));
        }
        auth::lemma_first_credential(pool, id, c);
        let state = auth::pooled_state(file, id, document, pool[c])->0;
        assert(seq![state].drop_last() =~= Seq::<AuthView>::empty());
        assert(auth::first_identity(seq![state]) == auth::identity_of(state));
    } else {
        let state = auth::state_in(auth::AuthSourceView::File(file), document)->0;
        assert(seq![state].drop_last() =~= Seq::<AuthView>::empty());
        assert(auth::first_identity(seq![state]) == auth::identity_of(state));
    }
}

/// Whether an account is the account of the credentials that its source stands for.
pub open spec fn has_its_credentials(account: DiscoveredView, stored: StoredView) -> bool {
    accounts::stamp_of_known(accounts::source_identity(account.auth_source, stored)) == Some(
        account.identity,
    )
}

/// Accounts found in one more directory have their credentials.
proof fn lemma_more_load(
    known: Seq<DiscoveredView>,
    stored: StoredView,
    home: PathView,
    upto: int,
)
    requires
        directory_has_distinct_ids(stored, home),
        forall|i: int| 0 <= i < known.len() ==> has_its_credentials(#[trigger] known[i], stored),
        0 <= upto <= accounts::identities_at(
            home,
            stored::content_of(stored, paths::auth_file(home)),
        ).len(),
    ensures
        ({
            let found = accounts::identities_at(
                home,
                stored::content_of(stored, paths::auth_file(home)),
            );
            let after = accounts::with_found(known, home, found.take(upto));
            forall|i: int| 0 <= i < after.len() ==> has_its_credentials(#[trigger] after[i], stored)
        }),
    decreases upto,
{
    let found = accounts::identities_at(home, stored::content_of(stored, paths::auth_file(home)));
    let after = accounts::with_found(known, home, found.take(upto));
    if upto > 0 {
        lemma_more_load(known, stored, home, upto - 1);
        assert(found.take(upto).drop_last() =~= found.take(upto - 1));
        let before = accounts::with_found(known, home, found.take(upto - 1));
        lemma_found_loads(stored, home, upto - 1);
        assert(found.take(upto).last() == found[upto - 1]);
        assert forall|i: int| 0 <= i < after.len() implies has_its_credentials(
            #[trigger] after[i],
            stored,
        ) by {
            if i < before.len() {
                assert(after[i] == before[i]);
            }
        }
    }
}

/// Accounts found in directories have their credentials.
proof fn lemma_accounts_load(homes: Seq<PathView>, stored: StoredView)
    requires
        forall|i: int|
            0 <= i < homes.len() ==> directory_has_distinct_ids(stored, #[trigger] homes[i]),
    ensures
        forall|i: int|
            0 <= i < accounts::accounts_in(homes, stored).len() ==> has_its_credentials(
                #[trigger] accounts::accounts_in(homes, stored)[i],
                stored,
            ),
    decreases homes.len(),
{
    if homes.len() > 0 {
        let before = homes.drop_last();
        let home = homes.last();
        assert forall|i: int| 0 <= i < before.len() implies directory_has_distinct_ids(
            stored,
            #[trigger] before[i],
        ) by {
            assert(before[i] == homes[i]);
        }
        lemma_accounts_load(before, stored);
        assert(directory_has_distinct_ids(stored, homes[homes.len() - 1]));
        let found = accounts::identities_at(
            home,
            stored::content_of(stored, paths::auth_file(home)),
        );
        assert(found.take(found.len() as int) =~= found);
        lemma_more_load(
            accounts::accounts_in(before, stored),
            stored,
            home,
            found.len() as int,
        );
    }
}

/// Every account that is found is the account of the credentials that its source stands for, where
/// no two credentials in a pool have the same number.
pub proof fn found_accounts_have_their_credentials(stored: StoredView, at: int)
    requires
        paths::configured_directories(stored.configured_home) matches Some(homes) ==> forall|i: int|
            0 <= i < homes.len() ==> directory_has_distinct_ids(stored, #[trigger] homes[i]),
        0 <= at < in_sequence(accounts::all_accounts(stored)).len(),
    ensures
        has_its_credentials(in_sequence(accounts::all_accounts(stored))[at], stored),
{
    match accounts::listed_accounts(stored) {
        Some(listed) => {
            let homes = paths::configured_directories(stored.configured_home)->0;
            let found = accounts::accounts_in(homes, stored);
            lemma_accounts_load(homes, stored);
            assert(has_its_credentials(found[at], stored));
            assert(accounts::source_identity(CodexSourceView::Standard, stored)
                == auth::standard_identity(stored));
            assert(in_sequence(accounts::first_as_default(listed)) =~= listed);
        },
        None => {
            assert(accounts::source_identity(CodexSourceView::Standard, stored)
                == auth::standard_identity(stored));
        },
    }
}

/// Where the directories that the setting lists hold accounts, these are the accounts that are found,
/// with the directories in which they were found.
pub proof fn no_listed_account_is_lost(stored: StoredView, homes: Seq<PathView>, at: int)
    requires
        paths::configured_directories(stored.configured_home) == Some(homes),
        0 <= at < accounts::accounts_in(homes, stored).len(),
    ensures
        in_sequence(accounts::all_accounts(stored)).len() == accounts::accounts_in(
            homes,
            stored,
        ).len(),
        in_sequence(accounts::all_accounts(stored))[at].identity == accounts::accounts_in(
            homes,
            stored,
        )[at].identity,
        in_sequence(accounts::all_accounts(stored))[at].session_roots == accounts::accounts_in(
            homes,
            stored,
        )[at].session_roots,
{
    let listed = accounts::listed_accounts(stored)->0;
    assert(in_sequence(accounts::first_as_default(listed)) =~= listed);
}

/// Whether a setting is one directory, written out without blanks around it and without a `~`.
pub open spec fn is_one_written_directory(value: Seq<char>) -> bool {
    &&& value.len() > 0
    &&& value[0] != '~'
    &&& text::trimmed(value) == value
    &&& forall|i: int| 0 <= i < value.len() ==> #[trigger] value[i] != ','
}

/// The one directory that is written out is the one that the setting lists.
proof fn lemma_one_written_directory(value: Seq<char>)
    requires
        is_one_written_directory(value),
    ensures
        paths::configured_directories(Some(value)) == Some(seq![paths::written_path(value)]),
{
    let none = Seq::<char>::empty();
    pointers::lemma_split_tail(none, value, ',');
    assert(none + value =~= value);
    let pieces = text::split_at_each(value, ',');
    assert(text::split_at_each(none, ',') =~= seq![none]);
    assert(pieces =~= seq![value]);
    assert(pieces.drop_last() =~= Seq::<Seq<char>>::empty());
    reveal_with_fuel(paths::entries_of, 2);
    assert(paths::entries_of(pieces) =~= seq![value]);
    reveal_strlit("~");
    reveal_strlit("~/");
    reveal_strlit("~\\");
    assert("~"@[0] == '~' && "~/"@[0] == '~' && "~\\"@[0] == '~');
    assert(paths::expanded(value) == paths::written_path(value));
    assert(paths::configured_directories(Some(value))->0 =~= seq![paths::written_path(value)]);
}

/// The account that the credentials in a directory belong to, where its file keeps no pool of them.
pub open spec fn account_kept_in(stored: StoredView, directory: PathView) -> Option<Seq<char>> {
    let file = paths::auth_file(directory);
    match stored::content_of(stored, file) {
        Some(content) => match json::json_from_text(content) {
            Some(document) => if accounts::keeps_pool(document) {
                None
            } else {
                match auth::state_in(auth::AuthSourceView::File(file), document) {
                    Some(state) => auth::identity_of(state),
                    None => None,
                }
            },
            None => None,
        },
        None => None,
    }
}

/// A single directory that is written out is a standard place: where it holds an account outside a
/// pool, that account is the only one found, the standard places are its source, and its sessions
/// are logged in the directory.
pub proof fn a_single_directory_is_a_standard_place(stored: StoredView, value: Seq<char>)
    requires
        stored.configured_home == Some(value),
        is_one_written_directory(value),
        account_kept_in(stored, paths::written_path(value)) is Some,
    ensures
        accounts::all_accounts(stored) == (DiscoveredAllView {
            default_account: Some(
                DiscoveredView {
                    identity: accounts::stamp_of(
                        account_kept_in(stored, paths::written_path(value))->0,
                    ),
                    auth_source: CodexSourceView::Standard,
                    session_roots: seq![paths::written_path(value)],
                },
            ),
            accounts: Seq::empty(),
        }),
{
    lemma_one_written_directory(value);
    let directory = paths::written_path(value);
    let homes = seq![directory];
    let file = paths::auth_file(directory);
    let document = json::json_from_text(stored::content_of(stored, file)->0)->0;
    let state = auth::state_in(auth::AuthSourceView::File(file), document)->0;
    let identity = auth::identity_of(state)->0;
    let identities = accounts::identities_at(directory, stored::content_of(stored, file));
    assert(homes.drop_last() =~= Seq::<PathView>::empty());
    assert(identities.drop_last() =~= Seq::<FoundView>::empty());
    reveal_with_fuel(accounts::accounts_in, 2);
    reveal_with_fuel(accounts::with_found, 2);
    let found = accounts::accounts_in(homes, stored);
    assert(found.len() == 1);
    let files = paths::standard_auth_files(stored.configured_home);
    assert(files.drop_last() =~= Seq::<PathView>::empty());
    reveal_with_fuel(auth::states_at, 2);
    let in_file = auth::states_at(stored, files);
    assert(in_file =~= seq![state]);
    assert(in_file.drop_last() =~= Seq::<AuthView>::empty());
    reveal_with_fuel(auth::first_identity, 3);
    assert(auth::first_identity(in_file) == Some(identity));
    if let Some(kept) = auth::keychain_state(stored.keychain) {
        assert(in_file.push(kept).drop_last() =~= in_file);
    }
    assert(auth::standard_identity(stored) == Some(identity));
    let listed = accounts::listed_accounts(stored)->0;
    assert(listed.drop_first() =~= Seq::empty());
}

} // verus!
