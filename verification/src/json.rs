//! JSON documents: what they hold, how they are read from text, and how members are looked up and
//! replaced.
use vstd::arithmetic::power2;
use vstd::prelude::*;

use crate::text;

verus! {

/// What a JSON number is, as the parser keeps it: an unsigned integer, a negative integer, or a double
/// carried by its IEEE 754 bit pattern.
#[derive(Debug, Clone, Copy, PartialEq, Eq, Structural)]
pub enum JsonNumber {
    PosInt(u64),
    NegInt(i64),
    Float(u64),
}

/// A JSON document.
#[derive(Debug)]
pub enum Json {
    Null,
    Bool(bool),
    /// A number as the parser holds it, to be written as it was read.
    Number(serde_json::Number),
    Text(String),
    List(Vec<Json>),
    /// The members of an object; where a name occurs twice the later member counts.
    Object(Vec<Member>),
}

/// One member of a JSON object.
#[derive(Debug)]
pub struct Member {
    pub key: String,
    pub value: Json,
}

/// What a JSON document holds.
pub enum JsonView {
    Null,
    Bool(bool),
    Number(JsonNumber),
    Text(Seq<char>),
    List(Seq<JsonView>),
    Object(Map<Seq<char>, JsonView>),
}

/// What `json` holds.
pub open spec fn json_view(json: Json) -> JsonView
    decreases json,
{
    match json {
        Json::Null => JsonView::Null,
        Json::Bool(flag) => JsonView::Bool(flag),
        Json::Number(number) => JsonView::Number(number_contents(number)),
        Json::Text(text) => JsonView::Text(text@),
        Json::List(items) => JsonView::List(list_view(items@)),
        Json::Object(members) => JsonView::Object(object_view(members@)),
    }
}

/// What the items of a list hold.
pub open spec fn list_view(items: Seq<Json>) -> Seq<JsonView>
    decreases items,
{
    if items.len() == 0 {
        Seq::empty()
    } else {
        list_view(items.drop_last()).push(json_view(items.last()))
    }
}

/// What the members of an object hold, by name.
pub open spec fn object_view(members: Seq<Member>) -> Map<Seq<char>, JsonView>
    decreases members,
{
    if members.len() == 0 {
        Map::empty()
    } else {
        object_view(members.drop_last()).insert(
            members.last().key@,
            json_view(members.last().value),
        )
    }
}

impl View for Json {
    type V = JsonView;

    open spec fn view(&self) -> JsonView {
        json_view(*self)
    }
}

/// What was found, as a view.
pub open spec fn found(json: Option<&Json>) -> Option<JsonView> {
    match json {
        Some(inner) => Some(inner@),
        None => None,
    }
}

/// What was read, as a view.
pub open spec fn read(json: Option<Json>) -> Option<JsonView> {
    match json {
        Some(inner) => Some(inner@),
        None => None,
    }
}

/// `serde_json::Value`, a parsed JSON value.
#[verifier::external_type_specification]
#[verifier::external_body]
pub struct ExValue(serde_json::Value);

/// `serde_json::Number`, a parsed JSON number.
#[verifier::external_type_specification]
#[verifier::external_body]
pub struct ExNumber(serde_json::Number);

/// `serde_json::Map`, the members of a parsed JSON object.
#[verifier::external_type_specification]
#[verifier::external_body]
#[verifier::reject_recursive_types(K)]
#[verifier::reject_recursive_types(V)]
pub struct ExValueMap<K, V>(serde_json::Map<K, V>);

/// What a parsed value holds.
pub uninterp spec fn value_contents(value: serde_json::Value) -> JsonView;

/// What a parsed number holds.
pub uninterp spec fn number_contents(number: serde_json::Number) -> JsonNumber;

/// What the members of a parsed object hold, by name.
pub uninterp spec fn map_contents(
    members: serde_json::Map<String, serde_json::Value>,
) -> Map<Seq<char>, JsonView>;

/// What `serde_json::from_str` makes of a text: the value, or nothing where it reports an error.
pub uninterp spec fn json_from_text(text: Seq<char>) -> Option<JsonView>;

/// What `serde_json::from_slice` makes of bytes: the value, or nothing where it reports an error.
pub uninterp spec fn json_from_bytes(bytes: Seq<u8>) -> Option<JsonView>;

/// What was parsed, as a view.
pub open spec fn parsed(value: Option<serde_json::Value>) -> Option<JsonView> {
    match value {
        Some(inner) => Some(value_contents(inner)),
        None => None,
    }
}

/// The deepest nesting that the parser reads.
pub const READABLE_DEPTH: u8 = 127;

/// Whether lists and objects are nested at most `depth` deep in the document.
pub open spec fn nested_within(json: JsonView, depth: nat) -> bool
    decreases depth,
{
    match json {
        JsonView::List(items) => depth > 0 && forall|i: int|
            0 <= i < items.len() ==> nested_within(#[trigger] items[i], (depth - 1) as nat),
        JsonView::Object(members) => depth > 0 && forall|key: Seq<char>|
            members.contains_key(key) ==> nested_within(
                #[trigger] members[key],
                (depth - 1) as nat,
            ),
        _ => true,
    }
}

/// Whether a document is nested no deeper than the parser reads.
pub open spec fn is_readable(json: JsonView) -> bool {
    nested_within(json, READABLE_DEPTH as nat)
}

/// Whether what was read is nested no deeper than the parser reads.
pub open spec fn read_is_readable(json: Option<Json>) -> bool {
    json matches Some(inner) ==> is_readable(inner@)
}

/// Whether a text starts with a digit and a letter that cannot stand behind one.
pub open spec fn is_broken_number(text: Seq<char>) -> bool {
    &&& text.len() >= 2
    &&& '0' <= text[0] <= '9'
    &&& 'a' <= text[1] <= 'd' || 'f' <= text[1] <= 'z'
}

/// `serde_json::from_str` to a `Value`. Its result, with the error left out, is a function of the
/// text alone. It reports an error where lists and objects are nested too deep, and where a text
/// starts with a digit and a letter that is not an exponent's. A carriage return at the end of the
/// text is white space and makes no difference.
#[verifier::external_body]
fn value_from_text(text: &str) -> (value: Option<serde_json::Value>)
    ensures
        parsed(value) == json_from_text(text@),
        value matches Some(inner) ==> is_readable(value_contents(inner)),
        is_broken_number(text@) ==> value is None,
        text@.len() > 0 && text@.last() == '\r' ==> parsed(value) == json_from_text(
            text@.drop_last(),
        ),
{
    serde_json::from_str(text).ok()
}

/// `serde_json::from_slice` to a `Value`. Its result, with the error left out, is a function of the
/// bytes alone: of the bytes of a text it is what `serde_json::from_str` makes of that text. It
/// reports an error where lists and objects are nested too deep.
#[verifier::external_body]
fn value_from_bytes(bytes: &[u8]) -> (value: Option<serde_json::Value>)
    ensures
        parsed(value) == json_from_bytes(bytes@),
        value matches Some(inner) ==> is_readable(value_contents(inner)),
        vstd::utf8::valid_utf8(bytes@) ==> parsed(value) == json_from_text(
            vstd::utf8::decode_utf8(bytes@),
        ),
{
    serde_json::from_slice(bytes).ok()
}

/// The variant of a parsed value, with its fields.
pub enum ValueNode {
    Null,
    Bool(bool),
    Number(serde_json::Number),
    Text(String),
    List(Vec<serde_json::Value>),
    Object(serde_json::Map<String, serde_json::Value>),
}

/// Whether `node` has the variant and the fields of a value that holds `contents`.
pub open spec fn opens(node: ValueNode, contents: JsonView) -> bool {
    match contents {
        JsonView::Null => node is Null,
        JsonView::Bool(flag) => node matches ValueNode::Bool(inner) && inner == flag,
        JsonView::Number(number) => node matches ValueNode::Number(inner) && number_contents(inner)
            == number,
        JsonView::Text(text) => node matches ValueNode::Text(inner) && inner@ == text,
        JsonView::List(items) => {
            &&& node matches ValueNode::List(inner)
            &&& inner@.len() == items.len()
            &&& forall|i: int| 0 <= i < items.len() ==> value_contents(#[trigger] inner@[i]) == items[i]
        },
        JsonView::Object(members) => node matches ValueNode::Object(inner) && map_contents(inner)
            == members,
    }
}

/// The variants of `serde_json::Value`. Opening a value yields the fields it holds.
#[verifier::external_body]
fn open_value(value: serde_json::Value) -> (node: ValueNode)
    ensures
        opens(node, value_contents(value)),
{
    match value {
        serde_json::Value::Null => ValueNode::Null,
        serde_json::Value::Bool(flag) => ValueNode::Bool(flag),
        serde_json::Value::Number(number) => ValueNode::Number(number),
        serde_json::Value::String(text) => ValueNode::Text(text),
        serde_json::Value::Array(items) => ValueNode::List(items),
        serde_json::Value::Object(members) => ValueNode::Object(members),
    }
}

/// The names of the listed members.
spec fn entry_keys(entries: Seq<(String, serde_json::Value)>) -> Seq<Seq<char>> {
    entries.map_values(|entry: (String, serde_json::Value)| entry.0@)
}

/// `serde_json::Map::into_iter` lists every member once, under its name.
#[verifier::external_body]
fn map_entries(members: serde_json::Map<String, serde_json::Value>) -> (entries: Vec<
    (String, serde_json::Value),
>)
    ensures
        map_contents(members).dom() == entry_keys(entries@).to_set(),
        entry_keys(entries@).no_duplicates(),
        forall|i: int|
            0 <= i < entries@.len() ==> map_contents(members)[(#[trigger] entries@[i]).0@]
                == value_contents(entries@[i].1),
{
    members.into_iter().collect()
}

/// `serde_json::Number::as_u64` yields the number where it is kept as an unsigned integer.
#[verifier::external_body]
fn number_as_u64(number: &serde_json::Number) -> (value: Option<u64>)
    ensures
        value == (match number_contents(*number) {
            JsonNumber::PosInt(inner) => Some(inner),
            _ => None,
        }),
{
    number.as_u64()
}

/// `serde_json::Number::as_i64` yields the number where it is kept as an integer that fits.
#[verifier::external_body]
fn number_as_i64(number: &serde_json::Number) -> (value: Option<i64>)
    ensures
        value == number_i64(number_contents(*number)),
{
    number.as_i64()
}

/// `serde_json::Number::as_f64`, by its bit pattern: always present, and the number itself where it
/// is kept as a double. Of an integer the nearest double is left unsaid.
#[verifier::external_body]
fn number_as_double(number: &serde_json::Number) -> (bits: Option<u64>)
    ensures
        bits is Some,
        number_contents(*number) matches JsonNumber::Float(inner) ==> bits == Some(inner),
{
    number.as_f64().map(|value| value.to_bits())
}

/// The number as a signed integer, where it is an integer that fits.
pub open spec fn number_i64(number: JsonNumber) -> Option<i64> {
    match number {
        JsonNumber::PosInt(value) => if value <= i64::MAX {
            Some(value as i64)
        } else {
            None
        },
        JsonNumber::NegInt(value) => Some(value),
        JsonNumber::Float(_) => None,
    }
}

/// `serde_json::Number::clone` holds the same number.
#[verifier::external_body]
pub(crate) fn copy_number(number: &serde_json::Number) -> (copy: serde_json::Number)
    ensures
        number_contents(copy) == number_contents(*number),
{
    number.clone()
}

/// What a number is.
fn read_number(number: &serde_json::Number) -> (out: JsonNumber)
    ensures
        out == number_contents(*number),
{
    if let Some(value) = number_as_u64(number) {
        return JsonNumber::PosInt(value);
    }
    if let Some(value) = number_as_i64(number) {
        return JsonNumber::NegInt(value);
    }
    match number_as_double(number) {
        Some(bits) => JsonNumber::Float(bits),
        None => JsonNumber::Float(0),
    }
}

/// The items of a list, one by one.
pub proof fn lemma_list_view(items: Seq<Json>)
    ensures
        list_view(items).len() == items.len(),
        forall|i: int| 0 <= i < items.len() ==> #[trigger] list_view(items)[i] == items[i]@,
    decreases items.len(),
{
    if items.len() > 0 {
        lemma_list_view(items.drop_last());
    }
}

/// The value in the library's own form.
fn import(value: serde_json::Value) -> (json: Json)
    ensures
        json@ == value_contents(value),
    decreases value_contents(value),
{
    let ghost contents = value_contents(value);
    match open_value(value) {
        ValueNode::Null => Json::Null,
        ValueNode::Bool(flag) => Json::Bool(flag),
        ValueNode::Number(number) => Json::Number(number),
        ValueNode::Text(text) => Json::Text(text),
        ValueNode::List(values) => {
            let ghost all = values@;
            let ghost views = contents->List_0;
            let mut items: Vec<Json> = Vec::new();
            for item in it: values
                invariant
                    contents == value_contents(value),
                    contents is List,
                    views == contents->List_0,
                    it.seq() == all,
                    all.len() == views.len(),
                    forall|i: int|
                        0 <= i < views.len() ==> value_contents(#[trigger] all[i]) == views[i],
                    list_view(items@) == views.take(it.index() as int),
            {
                proof {
                    assert(value_contents(all[it.index() as int]) == views[it.index() as int]);
                    assert(decreases_to!(contents => views));
                }
                let ghost before = items@;
                items.push(import(item));
                proof {
                    assert(items@.drop_last() =~= before);
                    assert(views.take(it.index() + 1) =~= views.take(it.index() as int).push(
                        views[it.index() as int],
                    ));
                }
            }
            assert(views.take(views.len() as int) =~= views);
            Json::List(items)
        },
        ValueNode::Object(inner) => {
            let ghost views = contents->Object_0;
            let entries = map_entries(inner);
            let ghost all = entries@;
            let mut members: Vec<Member> = Vec::new();
            for entry in it: entries
                invariant
                    contents == value_contents(value),
                    contents is Object,
                    views == contents->Object_0,
                    it.seq() == all,
                    views.dom() == entry_keys(all).to_set(),
                    entry_keys(all).no_duplicates(),
                    forall|i: int|
                        0 <= i < all.len() ==> views[(#[trigger] all[i]).0@] == value_contents(all[i].1),
                    members@.len() == it.index(),
                    object_view(members@) == views.restrict(
                        entry_keys(all).take(it.index() as int).to_set(),
                    ),
            {
                let ghost at = it.index() as int;
                let ghost keys = entry_keys(all);
                proof {
                    keys.unique_seq_to_set();
                    assert(keys.contains(keys[at]));
                    assert(views.dom().contains(all[at].0@));
                    assert(decreases_to!(contents => views));
                }
                let ghost before = members@;
                let (key, inner_value) = entry;
                members.push(Member { key, value: import(inner_value) });
                proof {
                    assert(members@.drop_last() =~= before);
                    lemma_take_one_more(keys, at);
                    assert(object_view(members@) =~= views.restrict(keys.take(at + 1).to_set()));
                }
            }
            proof {
                let keys = entry_keys(all);
                assert(keys.take(all.len() as int) =~= keys);
                assert(views.restrict(keys.to_set()) =~= views);
            }
            Json::Object(members)
        },
    }
}

/// Taking one more name adds that name to the names taken.
proof fn lemma_take_one_more(keys: Seq<Seq<char>>, at: int)
    requires
        0 <= at < keys.len(),
    ensures
        keys.take(at + 1).to_set() == keys.take(at).to_set().insert(keys[at]),
{
    assert(keys.take(at + 1) =~= keys.take(at).push(keys[at]));
    broadcast use vstd::seq_lib::group_seq_properties;
    assert(keys.take(at + 1).to_set() =~= keys.take(at).to_set().insert(keys[at]));
}

/// The member of that name, where the document is an object that has one.
pub open spec fn member(json: JsonView, key: Seq<char>) -> Option<JsonView> {
    match json {
        JsonView::Object(members) => if members.contains_key(key) {
            Some(members[key])
        } else {
            None
        },
        _ => None,
    }
}

/// The member of that name of a document that may be missing.
pub open spec fn member_of(json: Option<JsonView>, key: Seq<char>) -> Option<JsonView> {
    match json {
        Some(inner) => member(inner, key),
        None => None,
    }
}

/// The text, where there is a document and it is one.
pub open spec fn text_in(json: Option<JsonView>) -> Option<Seq<char>> {
    match json {
        Some(JsonView::Text(text)) => Some(text),
        _ => None,
    }
}

/// The unsigned integer, where there is a document and it is one.
pub open spec fn u64_in(json: Option<JsonView>) -> Option<u64> {
    match json {
        Some(JsonView::Number(JsonNumber::PosInt(value))) => Some(value),
        _ => None,
    }
}

/// The number, where there is a document and it is one.
pub open spec fn number_in(json: Option<JsonView>) -> Option<JsonNumber> {
    match json {
        Some(JsonView::Number(number)) => Some(number),
        _ => None,
    }
}

/// The signed integer, where there is a document and it is one.
pub open spec fn i64_in(json: Option<JsonView>) -> Option<i64> {
    match json {
        Some(JsonView::Number(number)) => number_i64(number),
        _ => None,
    }
}

/// The members that lie before `at` do not decide what a name stands for once a later one has it.
proof fn lemma_later_member(members: Seq<Member>, at: int, key: Seq<char>)
    requires
        0 <= at < members.len(),
        members[at].key@ == key,
        forall|i: int| at < i < members.len() ==> (#[trigger] members[i]).key@ != key,
    ensures
        object_view(members).contains_key(key),
        object_view(members)[key] == members[at].value@,
    decreases members.len(),
{
    if at < members.len() - 1 {
        let last = members.last();
        assert(members[members.len() - 1].key@ != key);
        lemma_later_member(members.drop_last(), at, key);
    }
}

/// A name that no member has stands for nothing.
proof fn lemma_no_member(members: Seq<Member>, key: Seq<char>)
    requires
        forall|i: int| 0 <= i < members.len() ==> (#[trigger] members[i]).key@ != key,
    ensures
        !object_view(members).contains_key(key),
    decreases members.len(),
{
    if members.len() > 0 {
        assert(members[members.len() - 1].key@ != key);
        lemma_no_member(members.drop_last(), key);
    }
}

/// Replacing the value of the deciding member replaces what its name stands for.
proof fn lemma_replace_member(members: Seq<Member>, at: int, new: Member)
    requires
        0 <= at < members.len(),
        new.key@ == members[at].key@,
        forall|i: int| at < i < members.len() ==> (#[trigger] members[i]).key@ != new.key@,
    ensures
        object_view(members.update(at, new)) == object_view(members).insert(new.key@, new.value@),
    decreases members.len(),
{
    let changed = members.update(at, new);
    if at == members.len() - 1 {
        assert(changed.drop_last() =~= members.drop_last());
        assert(object_view(changed) =~= object_view(members).insert(new.key@, new.value@));
    } else {
        assert(members[members.len() - 1].key@ != new.key@);
        lemma_replace_member(members.drop_last(), at, new);
        assert(changed.drop_last() =~= members.drop_last().update(at, new));
        assert(object_view(changed) =~= object_view(members).insert(new.key@, new.value@));
    }
}

/// The place of the member that decides what `key` stands for.
pub fn find_member(members: &Vec<Member>, key: &str) -> (at: Option<usize>)
    ensures
        match at {
            Some(i) => {
                &&& i < members@.len()
                &&& members@[i as int].key@ == key@
                &&& forall|j: int| i < j < members@.len() ==> (#[trigger] members@[j]).key@ != key@
                &&& object_view(members@).contains_key(key@)
                &&& object_view(members@)[key@] == members@[i as int].value@
            },
            None => !object_view(members@).contains_key(key@),
        },
{
    let mut i: usize = members.len();
    while i > 0
        invariant
            i <= members@.len(),
            forall|j: int| i <= j < members@.len() ==> (#[trigger] members@[j]).key@ != key@,
        decreases i,
    {
        i -= 1;
        if text::same_text(members[i].key.as_str(), key) {
            proof {
                lemma_later_member(members@, i as int, key@);
            }
            return Some(i);
        }
    }
    proof {
        lemma_no_member(members@, key@);
    }
    None
}

impl Json {
    /// Parses `text`.
    pub fn from_text(text: &str) -> (json: Option<Json>)
        ensures
            read(json) == json_from_text(text@),
            read_is_readable(json),
            is_broken_number(text@) ==> json is None,
            text@.len() > 0 && text@.last() == '\r' ==> read(json) == json_from_text(
                text@.drop_last(),
            ),
    {
        match value_from_text(text) {
            Some(value) => Some(import(value)),
            None => None,
        }
    }

    /// Parses `bytes`.
    pub fn from_bytes(bytes: &[u8]) -> (json: Option<Json>)
        ensures
            read(json) == json_from_bytes(bytes@),
            read_is_readable(json),
            vstd::utf8::valid_utf8(bytes@) ==> read(json) == json_from_text(
                vstd::utf8::decode_utf8(bytes@),
            ),
    {
        match value_from_bytes(bytes) {
            Some(value) => Some(import(value)),
            None => None,
        }
    }

    /// The member of that name, where this is an object that has one.
    pub fn get(&self, key: &str) -> (json: Option<&Json>)
        ensures
            found(json) == member(self@, key@),
    {
        match self {
            Json::Object(members) => match find_member(members, key) {
                Some(at) => Some(&members[at].value),
                None => None,
            },
            _ => None,
        }
    }

    /// The text, where this is one.
    pub fn as_text(&self) -> (text: Option<&str>)
        ensures
            text::text_view(text) == text_in(Some(self@)),
    {
        match self {
            Json::Text(text) => Some(text.as_str()),
            _ => None,
        }
    }

    /// The unsigned integer, where this is one.
    pub fn as_u64(&self) -> (value: Option<u64>)
        ensures
            value == u64_in(Some(self@)),
    {
        match self {
            Json::Number(number) => number_as_u64(number),
            _ => None,
        }
    }

    /// The signed integer, where this is one.
    pub fn as_i64(&self) -> (value: Option<i64>)
        ensures
            value == i64_in(Some(self@)),
    {
        match self {
            Json::Number(number) => number_as_i64(number),
            _ => None,
        }
    }

    /// The number, where this is one.
    pub fn as_number(&self) -> (value: Option<JsonNumber>)
        ensures
            value == number_in(Some(self@)),
    {
        match self {
            Json::Number(number) => Some(read_number(number)),
            _ => None,
        }
    }
}

/// The member of that name of a document that may be missing.
pub fn get_of<'a>(json: Option<&'a Json>, key: &str) -> (out: Option<&'a Json>)
    ensures
        found(out) == member_of(found(json), key@),
{
    match json {
        Some(inner) => inner.get(key),
        None => None,
    }
}

/// The text, where there is a document and it is one.
pub fn text_of_json<'a>(json: Option<&'a Json>) -> (out: Option<&'a str>)
    ensures
        text::text_view(out) == text_in(found(json)),
{
    match json {
        Some(inner) => inner.as_text(),
        None => None,
    }
}

/// The value at the end of a chain of names, where each parent is an object or is missing.
/// Missing parents are created as objects.
pub open spec fn with_text_at(json: JsonView, path: Seq<Seq<char>>, text: Seq<char>) -> Option<
    JsonView,
>
    decreases path.len(),
{
    match json {
        JsonView::Object(members) => if path.len() == 0 {
            None
        } else if path.len() == 1 {
            Some(JsonView::Object(members.insert(path[0], JsonView::Text(text))))
        } else {
            let child = if members.contains_key(path[0]) {
                members[path[0]]
            } else {
                JsonView::Object(Map::empty())
            };
            match with_text_at(child, path.drop_first(), text) {
                Some(changed) => Some(JsonView::Object(members.insert(path[0], changed))),
                None => None,
            }
        },
        _ => None,
    }
}

/// Puts `value` under `key` into the members of an object.
pub fn put_member(members: &mut Vec<Member>, key: &str, value: Json)
    ensures
        object_view(final(members)@) == object_view(old(members)@).insert(key@, value@),
{
    match find_member(members, key) {
        Some(at) => {
            let new = Member { key: key.to_owned(), value };
            proof {
                lemma_replace_member(members@, at as int, new);
            }
            members.set(at, new);
        },
        None => {
            let new = Member { key: key.to_owned(), value };
            let ghost before = members@;
            members.push(new);
            assert(members@.drop_last() =~= before);
        },
    }
}

/// Puts `text` at the end of the chain of names `path[from..]`. Where that cannot be done, the
/// document stays as it was.
pub fn put_text_at(json: &mut Json, path: &Vec<String>, from: usize, text: &str) -> (done: bool)
    requires
        from <= path@.len(),
    ensures
        match with_text_at(old(json)@, text::texts(path@).skip(from as int), text@) {
            Some(changed) => done && final(json)@ == changed,
            None => !done && final(json)@ == old(json)@,
        },
    decreases path@.len() - from,
{
    let ghost names = text::texts(path@).skip(from as int);
    match json {
        Json::Object(members) => {
            if from == path.len() {
                return false;
            }
            let key = path[from].as_str();
            assert(key@ == names[0]);
            if from + 1 == path.len() {
                put_member(members, key, Json::Text(text.to_owned()));
                return true;
            }
            assert(names.drop_first() =~= text::texts(path@).skip(from + 1));
            match find_member(members, key) {
                Some(at) => {
                    let ghost before = members@;
                    let done = put_text_at(&mut members[at].value, path, from + 1, text);
                    proof {
                        lemma_replace_member(before, at as int, members@[at as int]);
                        assert(members@ =~= before.update(at as int, members@[at as int]));
                        assert(object_view(before).insert(key@, before[at as int].value@)
                            =~= object_view(before));
                    }
                    done
                },
                None => {
                    let mut child = Json::Object(Vec::new());
                    assert(child@ == JsonView::Object(Map::empty()));
                    let done = put_text_at(&mut child, path, from + 1, text);
                    if done {
                        put_member(members, key, child);
                    }
                    done
                },
            }
        },
        _ => false,
    }
}

impl Json {
    /// A copy of this document.
    pub fn copy(&self) -> (json: Json)
        ensures
            json@ == self@,
        decreases self,
    {
        match self {
            Json::Null => Json::Null,
            Json::Bool(flag) => Json::Bool(*flag),
            Json::Number(number) => Json::Number(copy_number(number)),
            Json::Text(text) => Json::Text(text.clone()),
            Json::List(items) => {
                let mut out: Vec<Json> = Vec::new();
                let mut i: usize = 0;
                while i < items.len()
                    invariant
                        self matches Json::List(inner) && inner == items,
                        i <= items@.len(),
                        list_view(out@) == list_view(items@.take(i as int)),
                    decreases items@.len() - i,
                {
                    let ghost before = out@;
                    out.push(items[i].copy());
                    proof {
                        assert(out@.drop_last() =~= before);
                        assert(items@.take(i + 1).drop_last() =~= items@.take(i as int));
                    }
                    i += 1;
                }
                assert(items@.take(items@.len() as int) =~= items@);
                Json::List(out)
            },
            Json::Object(members) => {
                let mut out: Vec<Member> = Vec::new();
                let mut i: usize = 0;
                while i < members.len()
                    invariant
                        self matches Json::Object(inner) && inner == members,
                        i <= members@.len(),
                        object_view(out@) == object_view(members@.take(i as int)),
                    decreases members@.len() - i,
                {
                    let ghost before = out@;
                    let value = members[i].value.copy();
                    out.push(Member { key: members[i].key.clone(), value });
                    proof {
                        assert(out@.drop_last() =~= before);
                        assert(members@.take(i + 1).drop_last() =~= members@.take(i as int));
                    }
                    i += 1;
                }
                assert(members@.take(members@.len() as int) =~= members@);
                Json::Object(out)
            },
        }
    }
}

/// Whether two numbers count as equal. A double zero equals the negative double zero.
pub open spec fn same_number(left: JsonNumber, right: JsonNumber) -> bool {
    ||| left == right
    ||| left matches JsonNumber::Float(a) && right matches JsonNumber::Float(b) && is_double_zero(a)
        && is_double_zero(b)
}

/// Whether the bit pattern is that of a double zero, of either sign.
pub open spec fn is_double_zero(bits: u64) -> bool {
    bits == 0 || bits == 0x8000_0000_0000_0000
}

/// Whether two documents count as equal: the order of members does not matter.
pub open spec fn same_json(left: JsonView, right: JsonView) -> bool
    decreases left,
{
    match (left, right) {
        (JsonView::Number(a), JsonView::Number(b)) => same_number(a, b),
        (JsonView::List(a), JsonView::List(b)) => {
            &&& a.len() == b.len()
            &&& forall|i: int| 0 <= i < a.len() ==> same_json(#[trigger] a[i], b[i])
        },
        (JsonView::Object(a), JsonView::Object(b)) => {
            &&& a.dom() == b.dom()
            &&& a.dom().finite()
            &&& forall|key: Seq<char>|
                a.contains_key(key) ==> same_json(#[trigger] a[key], b[key])
        },
        _ => left == right,
    }
}

/// The names of an object's members are the names that stand in the list of members.
pub proof fn lemma_member_names(members: Seq<Member>)
    ensures
        object_view(members).dom().finite(),
        forall|key: Seq<char>|
            object_view(members).contains_key(key) ==> exists|i: int|
                0 <= i < members.len() && (#[trigger] members[i]).key@ == key,
        forall|i: int|
            0 <= i < members.len() ==> object_view(members).contains_key(
                (#[trigger] members[i]).key@,
            ),
    decreases members.len(),
{
    if members.len() > 0 {
        let before = members.drop_last();
        lemma_member_names(before);
        assert forall|key: Seq<char>| object_view(members).contains_key(key) implies exists|i: int|
            0 <= i < members.len() && (#[trigger] members[i]).key@ == key by {
            if object_view(before).contains_key(key) {
                let i = choose|i: int| 0 <= i < before.len() && (#[trigger] before[i]).key@ == key;
                assert(members[i].key@ == key);
            } else {
                assert(members[members.len() - 1].key@ == key);
            }
        }
        assert forall|i: int| 0 <= i < members.len() implies object_view(members).contains_key(
            (#[trigger] members[i]).key@,
        ) by {
            if i < before.len() {
                assert(before[i] == members[i]);
            }
        }
    }
}

impl Json {
    /// Whether two documents count as equal.
    pub fn same(&self, other: &Json) -> (same: bool)
        ensures
            same == same_json(self@, other@),
        decreases self,
    {
        match (self, other) {
            (Json::Null, Json::Null) => true,
            (Json::Bool(a), Json::Bool(b)) => *a == *b,
            (Json::Number(a), Json::Number(b)) => {
                let left = read_number(a);
                let right = read_number(b);
                if left == right {
                    return true;
                }
                match (left, right) {
                    (JsonNumber::Float(x), JsonNumber::Float(y)) => {
                        (x == 0 || x == 0x8000_0000_0000_0000) && (y == 0 || y
                            == 0x8000_0000_0000_0000)
                    },
                    _ => false,
                }
            },
            (Json::Text(a), Json::Text(b)) => text::same_text(a.as_str(), b.as_str()),
            (Json::List(a), Json::List(b)) => {
                proof {
                    lemma_list_view(a@);
                    lemma_list_view(b@);
                }
                if a.len() != b.len() {
                    return false;
                }
                let mut i: usize = 0;
                while i < a.len()
                    invariant
                        self matches Json::List(inner) && inner == a,
                        other matches Json::List(inner) && inner == b,
                        i <= a@.len() == b@.len(),
                        list_view(a@).len() == a@.len(),
                        list_view(b@).len() == b@.len(),
                        forall|j: int| 0 <= j < a@.len() ==> #[trigger] list_view(a@)[j] == a@[j]@,
                        forall|j: int| 0 <= j < b@.len() ==> #[trigger] list_view(b@)[j] == b@[j]@,
                        forall|j: int|
                            0 <= j < i ==> same_json(#[trigger] list_view(a@)[j], list_view(b@)[j]),
                    decreases a@.len() - i,
                {
                    let same = a[i].same(&b[i]);
                    assert(list_view(a@)[i as int] == a@[i as int]@);
                    assert(list_view(b@)[i as int] == b@[i as int]@);
                    if !same {
                        return false;
                    }
                    i += 1;
                }
                true
            },
            (Json::Object(a), Json::Object(b)) => {
                let ghost left = object_view(a@);
                let ghost right = object_view(b@);
                proof {
                    lemma_member_names(a@);
                    lemma_member_names(b@);
                }
                let mut i: usize = 0;
                while i < b.len()
                    invariant
                        left == object_view(a@),
                        right == object_view(b@),
                        other matches Json::Object(inner) && inner == b,
                        self matches Json::Object(inner) && inner == a,
                        i <= b@.len(),
                        forall|j: int|
                            0 <= j < b@.len() ==> right.contains_key((#[trigger] b@[j]).key@),
                        forall|j: int| 0 <= j < i ==> left.contains_key((#[trigger] b@[j]).key@),
                    decreases b@.len() - i,
                {
                    if find_member(a, b[i].key.as_str()).is_none() {
                        assert(right.contains_key(b@[i as int].key@));
                        assert(left.dom() != right.dom());
                        return false;
                    }
                    i += 1;
                }
                let mut k: usize = 0;
                while k < a.len()
                    invariant
                        left == object_view(a@),
                        right == object_view(b@),
                        other matches Json::Object(inner) && inner == b,
                        self matches Json::Object(inner) && inner == a,
                        k <= a@.len(),
                        forall|j: int|
                            0 <= j < a@.len() ==> left.contains_key((#[trigger] a@[j]).key@),
                        forall|j: int|
                            0 <= j < k ==> right.contains_key((#[trigger] a@[j]).key@) && same_json(
                                left[a@[j].key@],
                                right[a@[j].key@],
                            ),
                    decreases a@.len() - k,
                {
                    let key = a[k].key.as_str();
                    assert(left.contains_key(a@[k as int].key@));
                    match (find_member(a, key), find_member(b, key)) {
                        (Some(x), Some(y)) => {
                            if !a[x].value.same(&b[y].value) {
                                assert(!same_json(left[key@], right[key@]));
                                return false;
                            }
                        },
                        _ => {
                            assert(left.dom() != right.dom());
                            return false;
                        },
                    }
                    k += 1;
                }
                proof {
                    assert forall|key: Seq<char>| left.contains_key(key) implies same_json(
                        #[trigger] left[key],
                        right[key],
                    ) && right.contains_key(key) by {
                        let j = choose|j: int| 0 <= j < a@.len() && (#[trigger] a@[j]).key@ == key;
                        assert(right.contains_key(a@[j].key@));
                    }
                    assert forall|key: Seq<char>| right.contains_key(key) implies left.contains_key(
                        key,
                    ) by {
                        let j = choose|j: int| 0 <= j < b@.len() && (#[trigger] b@[j]).key@ == key;
                        assert(left.contains_key(b@[j].key@));
                    }
                    assert(left.dom() =~= right.dom());
                }
                true
            },
            _ => false,
        }
    }
}

/// A reference token with `~1` read as `/` and `~0` as `~`.
pub open spec fn unescaped(token: Seq<char>) -> Seq<char>
    decreases token.len(),
{
    if token.len() == 0 {
        Seq::empty()
    } else if token.len() >= 2 && token[0] == '~' && token[1] == '1' {
        seq!['/'] + unescaped(token.skip(2))
    } else if token.len() >= 2 && token[0] == '~' && token[1] == '0' {
        seq!['~'] + unescaped(token.skip(2))
    } else {
        seq![token[0]] + unescaped(token.skip(1))
    }
}

/// What one reference token leads to: the member of that name, or the item at that decimal index.
pub open spec fn step(json: JsonView, token: Seq<char>) -> Option<JsonView> {
    match json {
        JsonView::List(items) => if exists|i: int|
            0 <= i < items.len() && #[trigger] text::decimal(i as nat) == token {
            let i = choose|i: int| 0 <= i < items.len() && #[trigger] text::decimal(i as nat) == token;
            Some(items[i])
        } else {
            None
        },
        _ => member(json, token),
    }
}

/// What a chain of reference tokens, still escaped, leads to.
pub open spec fn walk(json: JsonView, tokens: Seq<Seq<char>>) -> Option<JsonView>
    decreases tokens.len(),
{
    if tokens.len() == 0 {
        Some(json)
    } else {
        match step(json, unescaped(tokens[0])) {
            Some(inner) => walk(inner, tokens.drop_first()),
            None => None,
        }
    }
}

/// What a JSON pointer (RFC 6901) leads to: the empty pointer to the whole document, any other
/// through the tokens after each `/`.
pub open spec fn pointed(json: JsonView, pointer: Seq<char>) -> Option<JsonView> {
    if pointer.len() == 0 {
        Some(json)
    } else if pointer[0] != '/' {
        None
    } else {
        walk(json, text::split_at_each(pointer, '/').drop_first())
    }
}

/// Two numbers with the same decimal digits are the same.
pub proof fn lemma_decimal_injective(a: nat, b: nat)
    requires
        text::decimal(a) == text::decimal(b),
    ensures
        a == b,
    decreases a,
{
    lemma_decimal_len(a);
    lemma_decimal_len(b);
    assert(text::decimal(a).last() == text::decimal(b).last());
    assert(text::decimal(a).last() == text::digit_char(a % 10));
    assert(text::decimal(b).last() == text::digit_char(b % 10));
    assert(text::digit_char(a % 10) as u32 == 48 + a % 10);
    assert(text::digit_char(b % 10) as u32 == 48 + b % 10);
    if a >= 10 && b >= 10 {
        assert(text::decimal(a).drop_last() =~= text::decimal(a / 10));
        assert(text::decimal(b).drop_last() =~= text::decimal(b / 10));
        lemma_decimal_injective(a / 10, b / 10);
    }
}

/// Only numbers below ten have a single decimal digit.
proof fn lemma_decimal_len(a: nat)
    ensures
        text::decimal(a).len() >= 1,
        (text::decimal(a).len() == 1) == (a < 10),
    decreases a,
{
    if a >= 10 {
        lemma_decimal_len(a / 10);
    }
}

/// A reference token with `~1` read as `/` and `~0` as `~`.
fn unescape(token: &str) -> (out: String)
    ensures
        out@ == unescaped(token@),
{
    let chars = text::characters(token);
    let mut out = String::new();
    let mut i: usize = 0;
    assert(token@.skip(0) =~= token@);
    while i < chars.len()
        invariant
            chars@ == token@,
            i <= chars@.len(),
            out@ + unescaped(token@.skip(i as int)) == unescaped(token@),
        decreases chars@.len() - i,
    {
        let ghost rest = token@.skip(i as int);
        let ghost before = out@;
        if chars.len() - i >= 2 && chars[i] == '~' && chars[i + 1] == '1' {
            out.push('/');
            assert(rest.skip(2) =~= token@.skip(i + 2));
            assert(out@ + unescaped(rest.skip(2)) =~= before + unescaped(rest));
            i += 2;
        } else if chars.len() - i >= 2 && chars[i] == '~' && chars[i + 1] == '0' {
            out.push('~');
            assert(rest.skip(2) =~= token@.skip(i + 2));
            assert(out@ + unescaped(rest.skip(2)) =~= before + unescaped(rest));
            i += 2;
        } else {
            out.push(chars[i]);
            assert(rest.skip(1) =~= token@.skip(i + 1));
            assert(out@ + unescaped(rest.skip(1)) =~= before + unescaped(rest));
            i += 1;
        }
    }
    assert(out@ + unescaped(token@.skip(i as int)) =~= out@);
    out
}

impl Json {
    /// What one reference token leads to.
    fn step_into(&self, token: &str) -> (json: Option<&Json>)
        ensures
            found(json) == step(self@, token@),
    {
        match self {
            Json::List(items) => {
                let ghost views = list_view(items@);
                proof {
                    lemma_list_view(items@);
                }
                let mut i: usize = 0;
                while i < items.len()
                    invariant
                        self matches Json::List(inner) && inner == items,
                        views == list_view(items@),
                        views.len() == items@.len(),
                        forall|j: int| 0 <= j < items@.len() ==> #[trigger] views[j] == items@[j]@,
                        i <= items@.len(),
                        forall|j: int| 0 <= j < i ==> #[trigger] text::decimal(j as nat) != token@,
                    decreases items@.len() - i,
                {
                    let digits = text::decimal_text(i as u64);
                    if text::same_text(digits.as_str(), token) {
                        proof {
                            let at = i as int;
                            assert(0 <= at < views.len() && text::decimal(at as nat) == token@);
                            let k = choose|k: int|
                                0 <= k < views.len() && #[trigger] text::decimal(k as nat) == token@;
                            lemma_decimal_injective(k as nat, i as nat);
                            assert(views[i as int] == items@[i as int]@);
                        }
                        return Some(&items[i]);
                    }
                    i += 1;
                }
                None
            },
            _ => self.get(token),
        }
    }

    /// What a JSON pointer leads to.
    pub fn pointer(&self, pointer: &str) -> (json: Option<&Json>)
        ensures
            found(json) == pointed(self@, pointer@),
    {
        let chars = text::characters(pointer);
        if chars.len() == 0 {
            return Some(self);
        }
        if chars[0] != '/' {
            return None;
        }
        let tokens = text::split(pointer, '/');
        let ghost all = text::texts(tokens@);
        let mut here: &Json = self;
        let mut i: usize = 1;
        assert(all.skip(1) =~= all.drop_first());
        while i < tokens.len()
            invariant
                all == text::texts(tokens@),
                all == text::split_at_each(pointer@, '/'),
                pointer@.len() > 0,
                pointer@[0] == '/',
                1 <= i <= tokens@.len(),
                walk(self@, all.drop_first()) == walk(here@, all.skip(i as int)),
            decreases tokens@.len() - i,
        {
            let token = unescape(tokens[i].as_str());
            assert(all.skip(i as int)[0] == tokens@[i as int]@);
            assert(all.skip(i as int).drop_first() =~= all.skip(i + 1));
            match here.step_into(token.as_str()) {
                Some(inner) => {
                    here = inner;
                },
                None => {
                    return None;
                },
            }
            i += 1;
        }
        Some(here)
    }
}

/// The sign, the significand and the binary exponent of a double: its value is
/// `significand * 2^exponent`, negated where the sign bit is set.
pub open spec fn double_parts(bits: u64) -> (bool, int, int) {
    let field = bits / 0x10_0000_0000_0000 % 0x800;
    let fraction = bits % 0x10_0000_0000_0000;
    if field == 0 {
        (bits >= 0x8000_0000_0000_0000, fraction as int, -1074)
    } else {
        (bits >= 0x8000_0000_0000_0000, fraction + 0x10_0000_0000_0000, field - 1075)
    }
}

/// Whether the value of a finite double is at least `bound`.
pub open spec fn double_at_least(bits: u64, bound: int) -> bool {
    let (negative, significand, exponent) = double_parts(bits);
    let signed = if negative {
        -significand
    } else {
        significand
    };
    if exponent >= 0 {
        signed * power2::pow2(exponent as nat) >= bound
    } else {
        signed >= bound * power2::pow2((-exponent) as nat)
    }
}

/// How far apart the doubles lie next to an integer of this size: the first 2^53 integers are all
/// doubles, and each further power of two doubles the distance.
pub open spec fn double_step(size: nat) -> nat
    decreases size,
{
    if size < 0x20_0000_0000_0000 {
        1
    } else {
        2 * double_step(size / 2)
    }
}

/// The double next to an integer that is not negative, the even one where two are as near.
pub open spec fn nearest_double(size: nat) -> nat {
    let step = double_step(size);
    let whole = size / step;
    let rest = size % step;
    if 2 * rest > step || (2 * rest == step && whole % 2 == 1) {
        (whole + 1) * step
    } else {
        whole * step
    }
}

/// The value that an integer has once it is made a double.
pub open spec fn as_double(value: int) -> int {
    if value < 0 {
        -nearest_double((-value) as nat)
    } else {
        nearest_double(value as nat) as int
    }
}

/// Whether a number is at least `bound`, both taken as doubles.
pub open spec fn number_at_least(number: JsonNumber, bound: int) -> bool {
    match number {
        JsonNumber::PosInt(value) => as_double(value as int) >= as_double(bound),
        JsonNumber::NegInt(value) => as_double(value as int) >= as_double(bound),
        JsonNumber::Float(bits) => double_at_least(bits, as_double(bound)),
    }
}

/// The double next to an integer that is not negative, the even one where two are as near.
fn round_size(size: u128) -> (rounded: u128)
    requires
        size <= 0x1_0000_0000_0000_0000,
    ensures
        rounded == nearest_double(size as nat),
        size <= rounded + 0x1000,
        rounded <= size + 0x1000,
{
    let mut whole: u128 = size;
    let mut step: u128 = 1;
    while whole >= 0x20_0000_0000_0000
        invariant
            size <= 0x1_0000_0000_0000_0000,
            1 <= step <= 0x1000,
            whole == size / step,
            double_step(size as nat) == step * double_step(whole as nat),
        decreases whole,
    {
        proof {
            vstd::arithmetic::div_mod::lemma_fundamental_div_mod(size as int, step as int);
            assert(step <= 0x800) by (nonlinear_arith)
                requires
                    whole >= 0x20_0000_0000_0000,
                    step * whole <= 0x1_0000_0000_0000_0000,
            ;
            vstd::arithmetic::div_mod::lemma_div_denominator(size as int, step as int, 2);
            assert(step * double_step(whole as nat) == step * 2 * double_step((whole / 2) as nat))
                by (nonlinear_arith)
                requires
                    double_step(whole as nat) == 2 * double_step((whole / 2) as nat),
            ;
        }
        whole = whole / 2;
        step = step * 2;
    }
    let rest: u128 = size % step;
    proof {
        vstd::arithmetic::div_mod::lemma_fundamental_div_mod(size as int, step as int);
        assert(step * double_step(whole as nat) == step) by (nonlinear_arith)
            requires
                double_step(whole as nat) == 1,
        ;
        assert((whole + 1) * step == whole * step + step) by (nonlinear_arith);
        assert(step * whole == whole * step) by (nonlinear_arith);
    }
    if 2 * rest > step || (2 * rest == step && whole % 2 == 1) {
        (whole + 1) * step
    } else {
        whole * step
    }
}

/// The value that an integer has once it is made a double.
fn round_integer(value: i128) -> (rounded: i128)
    requires
        -0x1_0000_0000_0000_0000 <= value <= 0x1_0000_0000_0000_0000,
    ensures
        rounded == as_double(value as int),
        value - 0x1000 <= rounded <= value + 0x1000,
{
    if value < 0 {
        -(round_size((-value) as u128) as i128)
    } else {
        round_size(value as u128) as i128
    }
}

/// A power of two.
fn power_of_two(exponent: u32) -> (power: i128)
    requires
        exponent <= 64,
    ensures
        power == power2::pow2(exponent as nat),
        1 <= power <= 0x1_0000_0000_0000_0000,
        exponent <= 63 ==> power <= 0x8000_0000_0000_0000,
{
    let mut power: i128 = 1;
    let mut i: u32 = 0;
    proof {
        power2::lemma2_to64();
    }
    while i < exponent
        invariant
            i <= exponent <= 64,
            power == power2::pow2(i as nat),
            1 <= power,
            power2::pow2(64) == 0x1_0000_0000_0000_0000,
        decreases exponent - i,
    {
        proof {
            power2::lemma_pow2_unfold((i + 1) as nat);
            if i + 1 < 64 {
                power2::lemma_pow2_strictly_increases((i + 1) as nat, 64);
            }
        }
        power = power * 2;
        i += 1;
    }
    proof {
        power2::lemma2_to64();
        if exponent < 64 {
            power2::lemma_pow2_strictly_increases(exponent as nat, 64);
        }
        power2::lemma_pow2_unfold(64);
        if exponent < 63 {
            power2::lemma_pow2_strictly_increases(exponent as nat, 63);
        }
    }
    power
}

/// Whether the value of a finite double is at least `bound`.
fn double_reaches(bits: u64, bound: i128) -> (reaches: bool)
    requires
        -0x8000_0000_0000_1000 <= bound <= 0x8000_0000_0000_1000,
    ensures
        reaches == double_at_least(bits, bound as int),
{
    let field: u64 = bits / 0x10_0000_0000_0000 % 0x800;
    let fraction: u64 = bits % 0x10_0000_0000_0000;
    let significand: i128 = if field == 0 {
        fraction as i128
    } else {
        fraction as i128 + 0x10_0000_0000_0000
    };
    let exponent: i32 = if field == 0 {
        -1074
    } else {
        field as i32 - 1075
    };
    let signed: i128 = if bits >= 0x8000_0000_0000_0000 {
        -significand
    } else {
        significand
    };
    proof {
        power2::lemma2_to64();
    }
    if exponent >= 0 {
        if exponent <= 64 {
            let power = power_of_two(exponent as u32);
            assert(-0x20_0000_0000_0000 * 0x1_0000_0000_0000_0000 <= signed * power
                <= 0x20_0000_0000_0000 * 0x1_0000_0000_0000_0000) by (nonlinear_arith)
                requires
                    -0x20_0000_0000_0000 <= signed <= 0x20_0000_0000_0000,
                    1 <= power <= 0x1_0000_0000_0000_0000,
            ;
            signed * power >= bound
        } else {
            proof {
                let power = power2::pow2(exponent as nat);
                power2::lemma_pow2_strictly_increases(64, exponent as nat);
                assert(signed * power >= 0x1_0000_0000_0000_0000 || signed * power
                    <= -0x1_0000_0000_0000_0000) by (nonlinear_arith)
                    requires
                        signed >= 1 || signed <= -1,
                        power >= 0x1_0000_0000_0000_0000,
                ;
                assert(signed >= 1 ==> signed * power > 0) by (nonlinear_arith)
                    requires
                        power >= 1,
                ;
                assert(signed <= -1 ==> signed * power < 0) by (nonlinear_arith)
                    requires
                        power >= 1,
                ;
            }
            signed > 0
        }
    } else {
        if exponent >= -63 {
            let power = power_of_two((-exponent) as u32);
            assert(-0x8000_0000_0000_1000 * 0x8000_0000_0000_0000 <= bound * power
                <= 0x8000_0000_0000_1000 * 0x8000_0000_0000_0000) by (nonlinear_arith)
                requires
                    -0x8000_0000_0000_1000 <= bound <= 0x8000_0000_0000_1000,
                    1 <= power <= 0x8000_0000_0000_0000,
            ;
            signed >= bound * power
        } else {
            proof {
                let power = power2::pow2((-exponent) as nat);
                if exponent < -64 {
                    power2::lemma_pow2_strictly_increases(64, (-exponent) as nat);
                }
                assert(bound >= 1 ==> bound * power >= 0x1_0000_0000_0000_0000)
                    by (nonlinear_arith)
                    requires
                        power >= 0x1_0000_0000_0000_0000,
                ;
                assert(bound <= -1 ==> bound * power <= -0x1_0000_0000_0000_0000)
                    by (nonlinear_arith)
                    requires
                        power >= 0x1_0000_0000_0000_0000,
                ;
                assert(bound == 0 ==> bound * power == 0) by (nonlinear_arith);
            }
            if bound == 0 {
                signed >= 0
            } else {
                bound < 0
            }
        }
    }
}

impl JsonNumber {
    /// Whether this number is at least `bound`, both taken as doubles: beyond 2^53 an integer counts
    /// as the double next to it.
    pub fn at_least(self, bound: i64) -> (reaches: bool)
        ensures
            reaches == number_at_least(self, bound as int),
    {
        let wanted = round_integer(bound as i128);
        match self {
            JsonNumber::PosInt(value) => round_integer(value as i128) >= wanted,
            JsonNumber::NegInt(value) => round_integer(value as i128) >= wanted,
            JsonNumber::Float(bits) => double_reaches(bits, wanted),
        }
    }
}

} // verus!
