//! What holds of documents, of pointers into them and of the numbers in them.
use vstd::prelude::*;

use crate::json;
use crate::json::{JsonNumber, JsonView};
use crate::pointers;
use crate::text;

verus! {

/// A member is found under its name alone, and in objects alone.
pub proof fn members_are_found_by_name(members: Map<Seq<char>, JsonView>, name: Seq<char>, value: JsonView)
    ensures
        json::member(JsonView::Object(members.insert(name, value)), name) == Some(value),
        forall|other: Seq<char>|
            other != name ==> #[trigger] json::member(
                JsonView::Object(members.insert(name, value)),
                other,
            ) == json::member(JsonView::Object(members), other),
        json::member(JsonView::Object(Map::empty()), name) is None,
        !(value is Object) ==> json::member(value, name) is None,
        json::member_of(None, name) is None,
        json::member_of(Some(value), name) == json::member(value, name),
{
}

/// Texts are read as they are, and nothing else is read as a text.
pub proof fn only_texts_are_texts(value: JsonView, content: Seq<char>)
    ensures
        (json::text_in(Some(value)) == Some(content)) == (value == JsonView::Text(content)),
        json::text_in(None) is None,
{
}

/// Integers are read as they are: unsigned ones where they are not negative, signed ones where they
/// fit. Doubles and other values are no integers.
pub proof fn integers_are_read_as_they_are(value: JsonView, n: u64, m: i64)
    ensures
        (json::u64_in(Some(value)) == Some(n)) == (value == JsonView::Number(
            JsonNumber::PosInt(n),
        )),
        (json::i64_in(Some(value)) == Some(m)) == (value == JsonView::Number(
            JsonNumber::NegInt(m),
        ) || (m >= 0 && value == JsonView::Number(JsonNumber::PosInt(m as u64)))),
        json::u64_in(None) is None,
        json::i64_in(None) is None,
{
}

/// Whole numbers of seconds up to 2^53 are compared exactly.
pub proof fn whole_seconds_are_compared_exactly(value: u64, negative: i64, bound: int)
    requires
        -0x20_0000_0000_0000 < bound < 0x20_0000_0000_0000,
    ensures
        value < 0x20_0000_0000_0000 ==> json::number_at_least(JsonNumber::PosInt(value), bound) == (
        value >= bound),
        -0x20_0000_0000_0000 < negative < 0x20_0000_0000_0000 ==> json::number_at_least(
            JsonNumber::NegInt(negative),
            bound,
        ) == (negative >= bound),
{
    lemma_small_double(bound);
    if value < 0x20_0000_0000_0000 {
        lemma_small_double(value as int);
    }
    if -0x20_0000_0000_0000 < negative < 0x20_0000_0000_0000 {
        lemma_small_double(negative as int);
    }
}

/// A small integer is a double.
proof fn lemma_small_double(value: int)
    requires
        -0x20_0000_0000_0000 < value < 0x20_0000_0000_0000,
    ensures
        json::as_double(value) == value,
{
    let size: nat = if value < 0 {
        (-value) as nat
    } else {
        value as nat
    };
    assert(json::double_step(size) == 1);
    assert(size / 1 == size && size % 1 == 0);
    assert(size * 1 == size);
}

/// A pointer through names leads from member to member, and the empty pointer to the whole.
pub proof fn a_pointer_leads_from_member_to_member(
    document: JsonView,
    first: Seq<char>,
    second: Seq<char>,
)
    requires
        pointers::is_plain(first),
        pointers::is_plain(second),
    ensures
        json::pointed(document, Seq::empty()) == Some(document),
        json::pointed(document, seq!['/'] + first) == json::member(document, first),
        json::pointed(document, seq!['/'] + first + seq!['/'] + second) == json::member_of(
            json::member(document, first),
            second,
        ),
{
    pointers::lemma_pointed_one(document, seq!['/'] + first, first);
    pointers::lemma_pointed_two(
        document,
        seq!['/'] + first + seq!['/'] + second,
        first,
        second,
    );
}

/// Putting a text into a document changes the member that the first name leads to and no other: it
/// becomes the text, or, where there are more names, what comes of putting the text into it or into
/// a new object. It can be done where the document is an object and the rest can be done.
pub proof fn putting_a_text_changes_one_member(
    document: JsonView,
    names: Seq<Seq<char>>,
    value: Seq<char>,
)
    requires
        names.len() > 0,
    ensures
        ({
            let changed = json::with_text_at(document, names, value);
            let inner = match json::member(document, names[0]) {
                Some(child) => child,
                None => JsonView::Object(Map::empty()),
            };
            &&& changed is Some == (document is Object && (names.len() == 1 || json::with_text_at(
                inner,
                names.drop_first(),
                value,
            ) is Some))
            &&& changed matches Some(after) ==> {
                &&& after is Object
                &&& names.len() == 1 ==> json::member(after, names[0]) == Some(
                    JsonView::Text(value),
                )
                &&& names.len() > 1 ==> json::member(after, names[0]) == json::with_text_at(
                    inner,
                    names.drop_first(),
                    value,
                )
                &&& forall|other: Seq<char>|
                    other != names[0] ==> #[trigger] json::member(after, other) == json::member(
                        document,
                        other,
                    )
            }
        }),
        json::with_text_at(document, Seq::empty(), value) is None,
{
}

/// Decimal digits are written from the highest to the lowest.
pub proof fn numbers_are_written_in_decimal_digits(n: nat, digit: nat)
    requires
        digit < 10,
    ensures
        text::decimal(digit).len() == 1,
        text::decimal(digit)[0] as int == 48 + digit,
        n > 0 ==> text::decimal(10 * n + digit) == text::decimal(n) + text::decimal(digit),
{
    if n > 0 {
        assert((10 * n + digit) / 10 == n);
        assert((10 * n + digit) % 10 == digit);
        assert(text::decimal(10 * n + digit) =~= text::decimal(n) + text::decimal(digit));
    }
}

} // verus!
