//! How accounts are numbered and shown.
use vstd::prelude::*;

use crate::digest;
use crate::text;

verus! {

/// Whether the first eight bytes of a text can be cut off.
pub open spec fn has_eight_bytes(stamp: Seq<char>) -> bool {
    vstd::utf8::is_char_boundary(vstd::utf8::encode_utf8(stamp), 8)
}

/// The first eight bytes of a text.
pub open spec fn first_eight_bytes(stamp: Seq<char>) -> Seq<char> {
    vstd::utf8::decode_utf8(vstd::utf8::encode_utf8(stamp).subrange(0, 8))
}

/// The characters of an account number that is made of a stamp.
pub const ACCOUNT_ID_LENGTH: usize = 14;

/// The stamp that an account number is made of: that of the account, or with salt a digest of both.
pub open spec fn salted(stamp: Seq<char>, salt: nat) -> Seq<char> {
    if salt == 0 {
        stamp
    } else {
        digest::sha256_text(vstd::utf8::encode_utf8(stamp + ":"@ + text::decimal(salt)))
    }
}

/// The account number that a stamp gives with that salt.
pub open spec fn account_id_for(stamp: Seq<char>, salt: nat) -> Seq<char> {
    "codex@"@ + first_eight_bytes(salted(stamp, salt))
}

/// The first account number of a stamp that is not taken, from that salt on.
pub open spec fn first_free(stamp: Seq<char>, occupied: Set<Seq<char>>, salt: nat) -> Option<
    Seq<char>,
>
    decreases u64::MAX + 1 - salt,
{
    if salt > u64::MAX {
        None
    } else if occupied.contains(account_id_for(stamp, salt)) {
        first_free(stamp, occupied, salt + 1)
    } else {
        Some(account_id_for(stamp, salt))
    }
}

/// The texts of a list as a set.
pub open spec fn text_set(list: Seq<String>) -> Set<Seq<char>> {
    text::texts(list).to_set()
}

/// The first eight bytes of a text.
fn cut_to_eight_bytes(stamp: &str) -> (out: String)
    requires
        has_eight_bytes(stamp@),
    ensures
        out@ == first_eight_bytes(stamp@),
{
    let (first, _) = stamp.split_at(8);
    proof {
        vstd::utf8::encode_utf8_decode_utf8(first@);
    }
    first.to_owned()
}

/// The account number that a stamp gives with that salt.
fn candidate(stamp: &str, salt: u64) -> (id: String)
    requires
        has_eight_bytes(stamp@),
    ensures
        id@ == account_id_for(stamp@, salt as nat),
        vstd::utf8::is_ascii_chars(stamp@) ==> id@.len() == ACCOUNT_ID_LENGTH,
{
    proof {
        reveal_strlit("codex@");
        if vstd::utf8::is_ascii_chars(stamp@) {
            vstd::utf8::is_ascii_chars_encode_utf8(stamp@);
            vstd::utf8::encode_utf8_valid_utf8(stamp@);
            lemma_ascii_has_eight_bytes(stamp@);
        }
    }
    let first = if salt == 0 {
        cut_to_eight_bytes(stamp)
    } else {
        let source = text::joined(
            text::joined(stamp, ":").as_str(),
            text::decimal_text(salt).as_str(),
        );
        let digest = digest::sha256_hex(source.as_str().as_bytes());
        proof {
            lemma_ascii_has_eight_bytes(digest@);
        }
        cut_to_eight_bytes(digest.as_str())
    };
    text::joined("codex@", first.as_str())
}

/// Eight characters of ASCII are eight bytes.
pub proof fn lemma_ascii_has_eight_bytes(stamp: Seq<char>)
    requires
        vstd::utf8::is_ascii_chars(stamp),
        stamp.len() >= 8,
    ensures
        has_eight_bytes(stamp),
        first_eight_bytes(stamp) == stamp.take(8),
{
    let bytes = vstd::utf8::encode_utf8(stamp);
    vstd::utf8::is_ascii_chars_encode_utf8(stamp);
    vstd::utf8::encode_utf8_valid_utf8(stamp);
    assert(bytes.len() == stamp.len());
    if stamp.len() == 8 {
        vstd::utf8::is_char_boundary_start_end_of_seq(bytes);
    } else {
        assert(bytes[8] == stamp[8] as u8);
        vstd::utf8::utf8_byte_ranges_bitwise(bytes[8]);
        vstd::utf8::is_char_boundary_iff_not_is_continuation_byte(bytes, 8);
    }
    let first = stamp.take(8);
    assert(vstd::utf8::is_ascii_chars(first));
    vstd::utf8::is_ascii_chars_encode_utf8(first);
    assert(vstd::utf8::encode_utf8(first) =~= bytes.subrange(0, 8));
    vstd::utf8::encode_utf8_decode_utf8(first);
}

/// The first salt whose account number is not taken.
fn free_salt(stamp: &str, occupied: &Vec<String>) -> (salt: Option<u64>)
    requires
        has_eight_bytes(stamp@),
    ensures
        match salt {
            Some(inner) => first_free(stamp@, text_set(occupied@), 0) == Some(
                account_id_for(stamp@, inner as nat),
            ),
            None => first_free(stamp@, text_set(occupied@), 0) is None,
        },
{
    let mut salt: u64 = 0;
    loop
        invariant
            has_eight_bytes(stamp@),
            first_free(stamp@, text_set(occupied@), 0) == first_free(
                stamp@,
                text_set(occupied@),
                salt as nat,
            ),
        decreases u64::MAX - salt,
    {
        let id = candidate(stamp, salt);
        if !text::is_listed(occupied, id.as_str()) {
            return Some(salt);
        }
        if salt == u64::MAX {
            assert(first_free(stamp@, text_set(occupied@), salt as nat + 1) is None);
            return None;
        }
        salt += 1;
    }
}

/// An account number that is not taken: the first in the order of salts.
pub fn allocate_account_id(identity_stamp: &str, occupied: &Vec<String>) -> (id: String)
    requires
        has_eight_bytes(identity_stamp@),
        first_free(identity_stamp@, text_set(occupied@), 0) is Some,
    ensures
        first_free(identity_stamp@, text_set(occupied@), 0) == Some(id@),
        !text_set(occupied@).contains(id@),
        vstd::utf8::is_ascii_chars(identity_stamp@) ==> id@.len() == ACCOUNT_ID_LENGTH,
{
    proof {
        lemma_first_free_is_free(identity_stamp@, text_set(occupied@), 0);
    }
    match free_salt(identity_stamp, occupied) {
        Some(salt) => candidate(identity_stamp, salt),
        None => String::new(),
    }
}

/// An account number that is not taken, where there is one.
pub fn try_allocate_account_id(identity_stamp: &str, occupied: &Vec<String>) -> (id: Option<String>)
    requires
        has_eight_bytes(identity_stamp@),
    ensures
        text::string_view(id) == first_free(identity_stamp@, text_set(occupied@), 0),
        id is Some && vstd::utf8::is_ascii_chars(identity_stamp@) ==> id->0@.len()
            == ACCOUNT_ID_LENGTH,
{
    match free_salt(identity_stamp, occupied) {
        Some(_) => Some(allocate_account_id(identity_stamp, occupied)),
        None => None,
    }
}

/// What is allocated was not taken.
pub proof fn lemma_first_free_is_free(stamp: Seq<char>, occupied: Set<Seq<char>>, salt: nat)
    ensures
        first_free(stamp, occupied, salt) matches Some(id) ==> !occupied.contains(id),
    decreases u64::MAX + 1 - salt,
{
    if salt <= u64::MAX && occupied.contains(account_id_for(stamp, salt)) {
        lemma_first_free_is_free(stamp, occupied, salt + 1);
    }
}

/// What is allocated starts with the name of the product.
pub proof fn lemma_first_free_prefix(stamp: Seq<char>, occupied: Set<Seq<char>>, salt: nat)
    ensures
        first_free(stamp, occupied, salt) matches Some(id) ==> "codex@"@.is_prefix_of(id),
    decreases u64::MAX + 1 - salt,
{
    if salt <= u64::MAX {
        let id = account_id_for(stamp, salt);
        assert("codex@"@ =~= id.subrange(0, "codex@"@.len() as int));
        lemma_first_free_prefix(stamp, occupied, salt + 1);
    }
}

/// The name under which an account is shown: that of the product for the default number, the label
/// behind it where there is one, or else the number.
pub open spec fn display_name(label: Option<Seq<char>>, id: Seq<char>) -> Seq<char> {
    if id == "codex"@ {
        "Codex"@
    } else {
        match label {
            Some(inner) if text::trimmed(inner).len() > 0 => "Codex — "@ + text::trimmed(inner),
            _ => id,
        }
    }
}

/// The name under which an account is shown.
pub fn account_display_name_for_id(label: Option<&str>, id: &str) -> (name: String)
    ensures
        name@ == display_name(text::text_view(label), id@),
{
    if text::same_text(id, "codex") {
        return "Codex".to_owned();
    }
    if let Some(inner) = label {
        let trimmed = text::trim(inner);
        if !text::is_empty_text(trimmed.as_str()) {
            return text::joined("Codex — ", trimmed.as_str());
        }
    }
    id.to_owned()
}

} // verus!
