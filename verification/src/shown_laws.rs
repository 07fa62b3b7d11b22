//! How the accounts that are shown relate to those that were found and to what is on record.
use vstd::prelude::*;

use crate::account_laws;
use crate::accounts::{DiscoveredAllView, DiscoveredView};
use crate::digest;
use crate::naming;
use crate::reconcile;
use crate::reconcile::{AccountView, DiscoveryView, RecordView};
use crate::text;

verus! {

/// Whether a shown account is one that was found: the same account, with the same source of
/// credentials and the same directories of sessions.
pub open spec fn shows(account: AccountView, found: DiscoveredView) -> bool {
    &&& account.identity == found.identity
    &&& account.auth_source == found.auth_source
    &&& account.session_roots == found.session_roots
}

/// Whether one of the accounts shows a found one.
pub open spec fn is_shown(accounts: Seq<AccountView>, found: DiscoveredView) -> bool {
    exists|i: int| 0 <= i < accounts.len() && shows(#[trigger] accounts[i], found)
}

/// Whether an account shows one of those found.
pub open spec fn was_found(account: AccountView, found: Seq<DiscoveredView>) -> bool {
    exists|j: int| 0 <= j < found.len() && shows(account, #[trigger] found[j])
}

/// Whether what is shown is what was found: the default account as the default account, and the
/// others, as many as there are, in the order of their numbers.
pub open spec fn shows_what_was_found(shown: DiscoveryView, found: DiscoveredAllView) -> bool {
    &&& shown.default_account is Some == found.default_account is Some
    &&& shown.default_account matches Some(account) ==> shows(account, found.default_account->0)
    &&& shown.accounts.len() == found.accounts.len()
    &&& forall|i: int|
        0 <= i < shown.accounts.len() ==> was_found(#[trigger] shown.accounts[i], found.accounts)
    &&& forall|j: int|
        0 <= j < found.accounts.len() ==> is_shown(shown.accounts, #[trigger] found.accounts[j])
    &&& forall|i: int, j: int|
        0 <= i < j < shown.accounts.len() ==> !text::comes_before(
            (#[trigger] shown.accounts[j]).id,
            (#[trigger] shown.accounts[i]).id,
        )
}

/// What is shown is what was found: the default account is the default account, every other account
/// is shown, and each keeps its identity, its source of credentials and its directories of sessions.
/// The other accounts are in the order of their numbers.
pub proof fn what_is_shown_was_found(found: DiscoveredAllView, records: Seq<RecordView>)
    requires
        reconcile::all_reconciled(found, records) is Some,
    ensures
        shows_what_was_found(reconcile::all_reconciled(found, records)->0, found),
{
    let shown = reconcile::all_reconciled(found, records)->0;
    let out = lemma_numbered_others(found, records);
    account_laws::ordering_keeps_the_accounts(out);
    assert forall|i: int| 0 <= i < shown.accounts.len() implies was_found(
        #[trigger] shown.accounts[i],
        found.accounts,
    ) by {
        assert(shown.accounts.contains(shown.accounts[i]));
        assert(out.contains(shown.accounts[i]));
        let k = choose|k: int| 0 <= k < out.len() && out[k] == shown.accounts[i];
        assert(shows(out[k], found.accounts[k]));
    }
    assert forall|j: int| 0 <= j < found.accounts.len() implies is_shown(
        shown.accounts,
        #[trigger] found.accounts[j],
    ) by {
        assert(out.contains(out[j]));
        assert(shown.accounts.contains(out[j]));
        let k = choose|k: int| 0 <= k < shown.accounts.len() && shown.accounts[k] == out[j];
        assert(shows(shown.accounts[k], found.accounts[j]));
    }
}

/// The other accounts with their numbers, before they are ordered.
proof fn lemma_numbered_others(found: DiscoveredAllView, records: Seq<RecordView>) -> (out: Seq<
    AccountView,
>)
    requires
        reconcile::all_reconciled(found, records) is Some,
    ensures
        ({
            let shown = reconcile::all_reconciled(found, records)->0;
            let taken = reconcile::taken_with_default(records, shown.default_account);
            &&& reconcile::default_numbered(found, records) == Some(shown.default_account)
            &&& reconcile::all_numbered(found.accounts, records, taken) == Some(out)
            &&& shown.accounts == reconcile::ordered(out)
            &&& out.len() == found.accounts.len()
            &&& forall|i: int|
                0 <= i < out.len() ==> #[trigger] out[i] == reconcile::numbered(
                    found.accounts[i],
                    out[i].id,
                    records,
                ) && reconcile::chosen_id(
                    found.accounts[i].identity,
                    records,
                    taken.union(reconcile::ids_of(out.take(i))),
                    false,
                ) == Some(out[i].id)
        }),
{
    let shown = reconcile::all_reconciled(found, records)->0;
    let taken = reconcile::taken_with_default(records, shown.default_account);
    account_laws::lemma_numbered(found.accounts, records, taken);
    reconcile::all_numbered(found.accounts, records, taken)->0
}

/// Whether the record at `at` is the last one of its account.
pub open spec fn is_last_record(records: Seq<RecordView>, at: int) -> bool {
    &&& 0 <= at < records.len()
    &&& forall|j: int|
        at < j < records.len() ==> (#[trigger] records[j]).identity != records[at].identity
}

/// Whether nothing is on record of an account.
pub open spec fn has_no_record(records: Seq<RecordView>, identity: Seq<char>) -> bool {
    forall|k: int| 0 <= k < records.len() ==> (#[trigger] records[k]).identity != identity
}

/// Whether the last record of some account has the number.
pub open spec fn is_number_on_record(records: Seq<RecordView>, id: Seq<char>) -> bool {
    exists|k: int| is_last_record(records, k) && (#[trigger] records[k]).provider_id == id
}

/// What is on record of an account, by its last record.
proof fn lemma_last_record(records: Seq<RecordView>, identity: Seq<char>)
    ensures
        forall|k: int|
            is_last_record(records, k) && (#[trigger] records[k]).identity == identity
                ==> reconcile::record_of(records, identity) == Some(records[k]),
        has_no_record(records, identity) == (reconcile::record_of(records, identity) is None),
        forall|id: Seq<char>|
            #![trigger is_number_on_record(records, id)]
            is_number_on_record(records, id) == reconcile::numbers_on_record(records).contains(id),
    decreases records.len(),
{
    assert forall|k: int|
        is_last_record(records, k) && (#[trigger] records[k]).identity
            == identity implies reconcile::record_of(records, identity) == Some(records[k]) by {
        assert(reconcile::is_record_of(records, identity, k));
        reconcile::lemma_record(records, identity, k);
    }
    if !has_no_record(records, identity) {
        let k = lemma_some_last_record(records, identity, records.len() as int);
        assert(reconcile::is_record_of(records, identity, k));
    } else if reconcile::record_of(records, identity) is Some {
        let k = choose|k: int| reconcile::is_record_of(records, identity, k);
        assert(records[k].identity != identity);
    }
    assert forall|id: Seq<char>|
        #![trigger is_number_on_record(records, id)]
        is_number_on_record(records, id) == reconcile::numbers_on_record(records).contains(id) by {
        if is_number_on_record(records, id) {
            let k = choose|k: int|
                is_last_record(records, k) && (#[trigger] records[k]).provider_id == id;
            assert(reconcile::counts(records, k) && records[k].provider_id == id);
        }
        if reconcile::is_on_record(records, id) {
            let k = choose|k: int|
                reconcile::counts(records, k) && (#[trigger] records[k]).provider_id == id;
            assert(is_last_record(records, k) && records[k].provider_id == id);
        }
    }
}

/// One of the records of an account is its last.
proof fn lemma_some_last_record(records: Seq<RecordView>, identity: Seq<char>, upto: int) -> (at:
    int)
    requires
        0 <= upto <= records.len(),
        forall|j: int| upto <= j < records.len() ==> (#[trigger] records[j]).identity != identity,
        !has_no_record(records, identity),
    ensures
        is_last_record(records, at),
        records[at].identity == identity,
    decreases upto,
{
    if upto > 0 && records[upto - 1].identity == identity {
        upto - 1
    } else if upto > 0 {
        lemma_some_last_record(records, identity, upto - 1)
    } else {
        0
    }
}

/// An account with a record keeps the number and the label of its last record, and one without has
/// no label. An account is shown as the product where it has the default number, as the product
/// with its label where it has one, and by its number otherwise.
pub proof fn the_last_record_decides(
    found: DiscoveredAllView,
    records: Seq<RecordView>,
    account: AccountView,
)
    requires
        reconcile::all_reconciled(found, records) is Some,
        ({
            let shown = reconcile::all_reconciled(found, records)->0;
            shown.default_account == Some(account) || shown.accounts.contains(account)
        }),
    ensures
        forall|k: int|
            is_last_record(records, k) && (#[trigger] records[k]).identity == account.identity
                ==> account.id == records[k].provider_id && account.label == records[k].label,
        has_no_record(records, account.identity) ==> account.label is None,
        account.id == "codex"@ ==> account.display_name == "Codex"@,
        account.id != "codex"@ ==> (match account.label {
            Some(label) if text::trimmed(label).len() > 0 => account.display_name == "Codex — "@
                + text::trimmed(label),
            _ => account.display_name == account.id,
        }),
{
    let shown = reconcile::all_reconciled(found, records)->0;
    let out = lemma_numbered_others(found, records);
    account_laws::ordering_keeps_the_accounts(out);
    lemma_last_record(records, account.identity);
    if shown.default_account != Some(account) {
        assert(out.contains(account));
        let k = choose|k: int| 0 <= k < out.len() && out[k] == account;
        assert(out[k] == reconcile::numbered(found.accounts[k], out[k].id, records));
    }
}

/// The number that an account gets where nothing stands against it: `codex@` and the first eight
/// characters of its stamp.
pub open spec fn plain_number(identity: Seq<char>) -> Seq<char> {
    "codex@"@ + identity.take(8)
}

/// Whether a stamp is one of at least eight characters of ASCII.
pub open spec fn is_stamp(identity: Seq<char>) -> bool {
    vstd::utf8::is_ascii_chars(identity) && identity.len() >= 8
}

/// The first number that is tried for an account.
proof fn lemma_first_number(identity: Seq<char>)
    requires
        is_stamp(identity),
    ensures
        naming::account_id_for(identity, 0) == plain_number(identity),
        plain_number(identity) != "codex"@,
        plain_number(identity).len() == 14,
{
    naming::lemma_ascii_has_eight_bytes(identity);
    reveal_strlit("codex@");
    reveal_strlit("codex");
    assert(plain_number(identity).len() == 14);
}

/// A default account without a record gets the default number, unless that is on record; it then
/// gets the number of its stamp, unless that is on record too.
pub proof fn a_new_default_account_gets_the_default_number(
    found: DiscoveredAllView,
    records: Seq<RecordView>,
)
    requires
        reconcile::all_reconciled(found, records) is Some,
        found.default_account is Some,
        has_no_record(records, found.default_account->0.identity),
    ensures
        ({
            let identity = found.default_account->0.identity;
            let account = reconcile::all_reconciled(found, records)->0.default_account->0;
            &&& !is_number_on_record(records, "codex"@) ==> account.id == "codex"@
            &&& is_number_on_record(records, "codex"@) && is_stamp(identity)
                && !is_number_on_record(records, plain_number(identity)) ==> account.id
                == plain_number(identity)
            &&& !is_number_on_record(records, account.id)
        }),
{
    let account = found.default_account->0;
    let shown = reconcile::all_reconciled(found, records)->0.default_account->0;
    lemma_last_record(records, account.identity);
    assert(is_number_on_record(records, "codex"@) == reconcile::numbers_on_record(
        records,
    ).contains("codex"@));
    assert(is_number_on_record(records, shown.id) == reconcile::numbers_on_record(
        records,
    ).contains(shown.id));
    if !is_number_on_record(records, "codex"@) {
        account_laws::the_default_account_gets_the_default_number(found, records);
    }
    account_laws::lemma_chosen_is_free(
        account.identity,
        records,
        reconcile::numbers_on_record(records),
        !reconcile::has_default_number(found.accounts, records),
    );
    if is_stamp(account.identity) {
        lemma_first_number(account.identity);
        assert(is_number_on_record(records, plain_number(account.identity))
            == reconcile::numbers_on_record(records).contains(plain_number(account.identity)));
    }
}

/// Another account without a record gets the number of its stamp, where that is not on record and
/// no other account shown has it; and in any case a number that is not on record, made with
/// `codex@`.
pub proof fn another_new_account_gets_the_number_of_its_stamp(
    found: DiscoveredAllView,
    records: Seq<RecordView>,
    account: AccountView,
)
    requires
        reconcile::all_reconciled(found, records) is Some,
        reconcile::all_reconciled(found, records)->0.accounts.contains(account),
        has_no_record(records, account.identity),
    ensures
        ({
            let shown = reconcile::all_reconciled(found, records)->0;
            let number = plain_number(account.identity);
            &&& "codex@"@.is_prefix_of(account.id)
            &&& !is_number_on_record(records, account.id)
            &&& is_stamp(account.identity) && !is_number_on_record(records, number)
                && account.id != number ==> (shown.default_account matches Some(first) && first.id
                == number) || exists|i: int|
                0 <= i < shown.accounts.len() && (#[trigger] shown.accounts[i]).id == number
        }),
{
    let shown = reconcile::all_reconciled(found, records)->0;
    let out = lemma_numbered_others(found, records);
    let numbers = reconcile::numbers_on_record(records);
    let taken = reconcile::taken_with_default(records, shown.default_account);
    account_laws::ordering_keeps_the_accounts(out);
    lemma_last_record(records, account.identity);
    assert(out.contains(account));
    let k = choose|k: int| 0 <= k < out.len() && out[k] == account;
    assert(out[k] == reconcile::numbered(found.accounts[k], out[k].id, records));
    let occupied = taken.union(reconcile::ids_of(out.take(k)));
    account_laws::lemma_chosen_is_free(account.identity, records, occupied, false);
    naming::lemma_first_free_prefix(account.identity, occupied, 0);
    assert(is_number_on_record(records, account.id) == numbers.contains(account.id));
    let number = plain_number(account.identity);
    if is_stamp(account.identity) && !is_number_on_record(records, number) && account.id != number {
        lemma_first_number(account.identity);
        assert(is_number_on_record(records, number) == numbers.contains(number));
        assert(occupied.contains(number));
        if !taken.contains(number) {
            let ids = out.take(k).map_values(|one: AccountView| one.id);
            assert(ids.to_set().contains(number));
            let m = choose|m: int| 0 <= m < ids.len() && ids[m] == number;
            assert(out[m].id == number);
            assert(out.contains(out[m]));
            assert(shown.accounts.contains(out[m]));
            let i = choose|i: int| 0 <= i < shown.accounts.len() && shown.accounts[i] == out[m];
            assert(shown.accounts[i].id == number);
        }
    }
}

/// Whether the number of its stamp is free for an account, or it has a record.
pub open spec fn can_get_plain_number(account: DiscoveredView, records: Seq<RecordView>) -> bool {
    ||| !has_no_record(records, account.identity)
    ||| is_stamp(account.identity) && !is_number_on_record(records, plain_number(account.identity))
}

/// Whether an account has the number of its stamp, the default number or one on record.
spec fn has_known_number(account: AccountView, records: Seq<RecordView>) -> bool {
    ||| reconcile::numbers_on_record(records).contains(account.id)
    ||| account.id == "codex"@
    ||| account.id == plain_number(account.identity)
}

/// One more account can get the number of its stamp.
proof fn lemma_number_stays_free(
    before: Seq<AccountView>,
    records: Seq<RecordView>,
    taken: Set<Seq<char>>,
    account: DiscoveredView,
)
    requires
        is_stamp(account.identity),
        has_no_record(records, account.identity),
        !is_number_on_record(records, plain_number(account.identity)),
        !taken.contains(plain_number(account.identity)),
        forall|i: int|
            0 <= i < before.len() ==> has_known_number(#[trigger] before[i], records)
                && plain_number(before[i].identity) != plain_number(account.identity),
    ensures
        reconcile::chosen_id(
            account.identity,
            records,
            taken.union(reconcile::ids_of(before)),
            false,
        ) == Some(plain_number(account.identity)),
{
    let number = plain_number(account.identity);
    let occupied = taken.union(reconcile::ids_of(before));
    lemma_first_number(account.identity);
    lemma_last_record(records, account.identity);
    assert(is_number_on_record(records, number) == reconcile::numbers_on_record(records).contains(
        number,
    ));
    if occupied.contains(number) {
        let ids = before.map_values(|one: AccountView| one.id);
        assert(ids.to_set().contains(number));
        let m = choose|m: int| 0 <= m < ids.len() && ids[m] == number;
        assert(before[m].id == number);
        assert(has_known_number(before[m], records));
    }
}

/// All accounts get numbers, where each has a record or the number of its stamp is free for it.
proof fn lemma_all_get_numbers(
    found: Seq<DiscoveredView>,
    records: Seq<RecordView>,
    taken: Set<Seq<char>>,
)
    requires
        forall|i: int| 0 <= i < found.len() ==> can_get_plain_number(#[trigger] found[i], records),
        forall|i: int|
            0 <= i < found.len() && has_no_record(records, (#[trigger] found[i]).identity)
                ==> !taken.contains(plain_number(found[i].identity)),
        forall|i: int, j: int|
            0 <= i < j < found.len() ==> plain_number((#[trigger] found[i]).identity)
                != plain_number((#[trigger] found[j]).identity),
    ensures
        reconcile::all_numbered(found, records, taken) matches Some(out) && out.len() == found.len()
            && forall|i: int|
            0 <= i < out.len() ==> has_known_number(#[trigger] out[i], records) && out[i].identity
                == found[i].identity,
    decreases found.len(),
{
    if found.len() > 0 {
        let first = found.drop_last();
        let account = found.last();
        assert(account == found[found.len() - 1]);
        assert forall|i: int| 0 <= i < first.len() implies can_get_plain_number(
            #[trigger] first[i],
            records,
        ) && (has_no_record(records, first[i].identity) ==> !taken.contains(
            plain_number(first[i].identity),
        )) by {
            assert(first[i] == found[i]);
        }
        assert forall|i: int, j: int| 0 <= i < j < first.len() implies plain_number(
            (#[trigger] first[i]).identity,
        ) != plain_number((#[trigger] first[j]).identity) by {
            assert(first[i] == found[i] && first[j] == found[j]);
        }
        lemma_all_get_numbers(first, records, taken);
        let before = reconcile::all_numbered(first, records, taken)->0;
        lemma_last_record(records, account.identity);
        if has_no_record(records, account.identity) {
            assert(can_get_plain_number(account, records));
            assert forall|i: int| 0 <= i < before.len() implies has_known_number(
                #[trigger] before[i],
                records,
            ) && plain_number(before[i].identity) != plain_number(account.identity) by {
                assert(found[i] == first[i]);
                assert(plain_number(found[i].identity) != plain_number(
                    found[found.len() - 1].identity,
                ));
            }
            lemma_number_stays_free(before, records, taken, account);
        } else {
            account_laws::lemma_record_number(records, account.identity);
        }
        let out = reconcile::all_numbered(found, records, taken)->0;
        assert forall|i: int| 0 <= i < out.len() implies has_known_number(
            #[trigger] out[i],
            records,
        ) && out[i].identity == found[i].identity by {
            if i < before.len() {
                assert(out[i] == before[i]);
                assert(found[i] == first[i]);
            }
        }
    }
}

/// The default account gets a number, where it has a record or the number of its stamp is free.
proof fn lemma_default_gets_number(found: DiscoveredAllView, records: Seq<RecordView>)
    requires
        found.default_account matches Some(account) ==> can_get_plain_number(account, records),
    ensures
        reconcile::default_numbered(found, records) is Some,
        reconcile::default_numbered(found, records)->0 matches Some(shown)
            ==> found.default_account is Some && shown.identity
            == found.default_account->0.identity && has_known_number(shown, records),
{
    if let Some(account) = found.default_account {
        lemma_last_record(records, account.identity);
        if has_no_record(records, account.identity) {
            lemma_first_number(account.identity);
            let number = plain_number(account.identity);
            assert(is_number_on_record(records, number) == reconcile::numbers_on_record(
                records,
            ).contains(number));
        } else {
            account_laws::lemma_record_number(records, account.identity);
        }
    }
}

/// The number of another stamp stays free beside the default account.
proof fn lemma_default_leaves_number(
    found: DiscoveredAllView,
    records: Seq<RecordView>,
    number: Seq<char>,
)
    requires
        found.default_account matches Some(account) ==> can_get_plain_number(account, records)
            && plain_number(account.identity) != number,
        number != "codex"@,
        !is_number_on_record(records, number),
    ensures
        !reconcile::taken_with_default(
            records,
            reconcile::default_numbered(found, records)->0,
        ).contains(number),
{
    lemma_default_gets_number(found, records);
    lemma_last_record(records, number);
    assert(is_number_on_record(records, number) == reconcile::numbers_on_record(records).contains(
        number,
    ));
}

/// Accounts are shown: where no two stamps start alike and every account has a record or finds the
/// number of its stamp free, all accounts get their numbers.
pub proof fn accounts_with_free_numbers_are_shown(
    found: DiscoveredAllView,
    records: Seq<RecordView>,
)
    requires
        ({
            let all = account_laws::in_sequence(found);
            &&& forall|i: int|
                0 <= i < all.len() ==> can_get_plain_number(#[trigger] all[i], records)
            &&& forall|i: int, j: int|
                0 <= i < j < all.len() ==> plain_number((#[trigger] all[i]).identity)
                    != plain_number((#[trigger] all[j]).identity)
        }),
    ensures
        reconcile::all_reconciled(found, records) is Some,
{
    let all = account_laws::in_sequence(found);
    if found.default_account is Some {
        assert(all[0] == found.default_account->0);
    }
    lemma_default_gets_number(found, records);
    let default_account = reconcile::default_numbered(found, records)->0;
    let taken = reconcile::taken_with_default(records, default_account);
    let skipped: int = if found.default_account is Some {
        1
    } else {
        0
    };
    assert forall|i: int| 0 <= i < found.accounts.len() implies can_get_plain_number(
        #[trigger] found.accounts[i],
        records,
    ) && (has_no_record(records, found.accounts[i].identity) ==> !taken.contains(
        plain_number(found.accounts[i].identity),
    )) by {
        let one = found.accounts[i];
        assert(all[i + skipped] == one);
        assert(can_get_plain_number(all[i + skipped], records));
        if has_no_record(records, one.identity) {
            lemma_first_number(one.identity);
            if found.default_account is Some {
                assert(plain_number(all[0].identity) != plain_number(all[i + 1].identity));
            }
            lemma_default_leaves_number(found, records, plain_number(one.identity));
        }
    }
    assert forall|i: int, j: int| 0 <= i < j < found.accounts.len() implies plain_number(
        (#[trigger] found.accounts[i]).identity,
    ) != plain_number((#[trigger] found.accounts[j]).identity) by {
        assert(all[i + skipped] == found.accounts[i]);
        assert(all[j + skipped] == found.accounts[j]);
    }
    lemma_all_get_numbers(found.accounts, records, taken);
}

/// The number of an account with salt: `codex@` and the first eight hexadecimal digits of the digest
/// of its stamp, a colon and the salt.
pub open spec fn salted_number(identity: Seq<char>, salt: nat) -> Seq<char> {
    "codex@"@ + digest::hex_text(
        digest::sha256_digest(
            vstd::utf8::encode_utf8(identity + seq![':'] + text::decimal(salt)),
        ),
    ).take(8)
}

/// The number of an account with that salt, where no salt is none.
pub open spec fn number_with_salt(identity: Seq<char>, salt: nat) -> Seq<char> {
    if salt == 0 {
        plain_number(identity)
    } else {
        salted_number(identity, salt)
    }
}

/// Whether a digest has at least four bytes.
pub open spec fn is_long_digest(identity: Seq<char>, salt: nat) -> bool {
    digest::sha256_digest(
        vstd::utf8::encode_utf8(identity + seq![':'] + text::decimal(salt)),
    ).len() >= 4
}

/// Where the number of a stamp is taken, salts are tried from one upwards: the first whose number is
/// free gives the number.
pub proof fn the_first_free_salt_gives_the_number(
    identity: Seq<char>,
    occupied: Set<Seq<char>>,
    salt: nat,
)
    requires
        is_stamp(identity),
        salt <= u64::MAX,
        forall|n: nat| 0 < n <= salt ==> #[trigger] is_long_digest(identity, n),
        forall|n: nat| n < salt ==> occupied.contains(#[trigger] number_with_salt(identity, n)),
        !occupied.contains(number_with_salt(identity, salt)),
    ensures
        naming::first_free(identity, occupied, 0) == Some(number_with_salt(identity, salt)),
{
    lemma_salts(identity, occupied, 0, salt);
}

/// Salts are tried one after another.
proof fn lemma_salts(identity: Seq<char>, occupied: Set<Seq<char>>, from: nat, salt: nat)
    requires
        is_stamp(identity),
        from <= salt <= u64::MAX,
        forall|n: nat| 0 < n <= salt ==> #[trigger] is_long_digest(identity, n),
        forall|n: nat| n < salt ==> occupied.contains(#[trigger] number_with_salt(identity, n)),
        !occupied.contains(number_with_salt(identity, salt)),
    ensures
        naming::first_free(identity, occupied, from) == Some(number_with_salt(identity, salt)),
    decreases salt - from,
{
    if from == 0 {
        lemma_first_number(identity);
    } else {
        assert(is_long_digest(identity, from));
        reveal_strlit(":");
        assert(":"@ =~= seq![':']);
        let hex = digest::hex_text(
            digest::sha256_digest(
                vstd::utf8::encode_utf8(identity + seq![':'] + text::decimal(from)),
            ),
        );
        digest::lemma_hex_text_ascii(
            digest::sha256_digest(
                vstd::utf8::encode_utf8(identity + seq![':'] + text::decimal(from)),
            ),
        );
        naming::lemma_ascii_has_eight_bytes(hex);
    }
    assert(naming::account_id_for(identity, from) == number_with_salt(identity, from));
    if from < salt {
        assert(occupied.contains(number_with_salt(identity, from)));
        lemma_salts(identity, occupied, from + 1, salt);
    }
}

} // verus!
