//! Writing JSON documents as text.
use vstd::prelude::*;

use crate::json;
use crate::json::{Json, JsonNumber, JsonView, ValueNode};

verus! {

/// Whether the number is an integer in the form the parser keeps integers in.
pub open spec fn is_integer(number: JsonNumber) -> bool {
    match number {
        JsonNumber::PosInt(_) => true,
        JsonNumber::NegInt(value) => value < 0,
        JsonNumber::Float(_) => false,
    }
}

/// Whether every number in the document is an integer.
pub open spec fn holds_integers(json: JsonView) -> bool
    decreases json,
{
    match json {
        JsonView::Number(number) => is_integer(number),
        JsonView::List(items) => forall|i: int|
            0 <= i < items.len() ==> holds_integers(#[trigger] items[i]),
        JsonView::Object(members) => {
            &&& members.dom().finite()
            &&& forall|key: Seq<char>|
                members.contains_key(key) ==> holds_integers(#[trigger] members[key])
        },
        _ => true,
    }
}

/// Whether every number in the document is an integer, so that the document is read again as it was
/// written.
pub fn has_only_integers(document: &Json) -> (only: bool)
    ensures
        only == holds_integers(document@),
    decreases document,
{
    match document {
        Json::List(items) => {
            let ghost view = document@;
            proof {
                json::lemma_list_view(items@);
            }
            let mut i: usize = 0;
            while i < items.len()
                invariant
                    document matches Json::List(inner) && inner == items,
                    view == JsonView::List(json::list_view(items@)),
                    json::list_view(items@).len() == items@.len(),
                    forall|j: int|
                        0 <= j < items@.len() ==> #[trigger] json::list_view(items@)[j]
                            == items@[j]@,
                    i <= items@.len(),
                    forall|j: int| 0 <= j < i ==> holds_integers(#[trigger] view->List_0[j]),
                    view == document@,
                decreases items@.len() - i,
            {
                assert(json::list_view(items@)[i as int] == items@[i as int]@);
                if !has_only_integers(&items[i]) {
                    assert(!holds_integers(view->List_0[i as int]));
                    return false;
                }
                i += 1;
            }
            true
        },
        Json::Object(members) => {
            let ghost view = document@;
            proof {
                json::lemma_member_names(members@);
            }
            let mut i: usize = 0;
            while i < members.len()
                invariant
                    document matches Json::Object(inner) && inner == members,
                    view == JsonView::Object(json::object_view(members@)),
                    view == document@,
                    forall|j: int|
                        0 <= j < members@.len() ==> view->Object_0.contains_key(
                            (#[trigger] members@[j]).key@,
                        ),
                    i <= members@.len(),
                    forall|j: int|
                        0 <= j < i ==> holds_integers(
                            view->Object_0[(#[trigger] members@[j]).key@],
                        ),
                decreases members@.len() - i,
            {
                assert(view->Object_0.contains_key(members@[i as int].key@));
                if let Some(at) = json::find_member(members, members[i].key.as_str()) {
                    if !has_only_integers(&members[at].value) {
                        assert(!holds_integers(view->Object_0[members@[i as int].key@]));
                        return false;
                    }
                }
                i += 1;
            }
            proof {
                assert forall|key: Seq<char>| view->Object_0.contains_key(key) implies
                    holds_integers(#[trigger] view->Object_0[key]) by {
                    let j = choose|j: int|
                        0 <= j < members@.len() && (#[trigger] members@[j]).key@ == key;
                    assert(holds_integers(view->Object_0[members@[j].key@]));
                }
            }
            true
        },
        _ => match document.as_number() {
            Some(JsonNumber::PosInt(_)) => true,
            Some(JsonNumber::NegInt(value)) => value < 0,
            Some(JsonNumber::Float(_)) => false,
            None => true,
        },
    }
}

/// What `serde_json::to_string_pretty` makes of a value.
pub uninterp spec fn pretty_json(json: JsonView) -> Seq<char>;

/// What `serde_json::to_string` makes of a value.
pub uninterp spec fn compact_json(json: JsonView) -> Seq<char>;

/// The variants of `serde_json::Value`. A value built from fields holds these.
#[verifier::external_body]
fn close_value(node: ValueNode) -> (value: serde_json::Value)
    ensures
        json::opens(node, json::value_contents(value)),
{
    match node {
        ValueNode::Null => serde_json::Value::Null,
        ValueNode::Bool(flag) => serde_json::Value::Bool(flag),
        ValueNode::Number(number) => serde_json::Value::Number(number),
        ValueNode::Text(text) => serde_json::Value::String(text),
        ValueNode::List(items) => serde_json::Value::Array(items),
        ValueNode::Object(members) => serde_json::Value::Object(members),
    }
}

/// `serde_json::Map::new` holds no members.
#[verifier::external_body]
fn empty_map() -> (members: serde_json::Map<String, serde_json::Value>)
    ensures
        json::map_contents(members) == (Map::<Seq<char>, JsonView>::empty()),
{
    serde_json::Map::new()
}

/// `serde_json::Map::insert` puts the value under the name, in place of what stood there.
#[verifier::external_body]
fn map_insert(
    members: &mut serde_json::Map<String, serde_json::Value>,
    key: String,
    value: serde_json::Value,
)
    ensures
        json::map_contents(*final(members)) == json::map_contents(*old(members)).insert(
            key@,
            json::value_contents(value),
        ),
{
    members.insert(key, value);
}

/// `serde_json::to_string_pretty` of a `Value`, which never reports an error. The text is a function
/// of what the value holds. Read again, by itself or with a line feed behind it, it yields that
/// value, where the value holds no doubles and is nested no deeper than the parser reads. What
/// becomes of doubles is left unsaid.
#[verifier::external_body]
fn value_to_pretty(value: &serde_json::Value) -> (text: Option<String>)
    ensures
        text is Some,
        text->0@ == pretty_json(json::value_contents(*value)),
        holds_integers(json::value_contents(*value)) && json::is_readable(
            json::value_contents(*value),
        ) ==> json::json_from_text(text->0@ + "\n"@) == Some(json::value_contents(*value)),
{
    serde_json::to_string_pretty(value).ok()
}

/// `serde_json::to_string` of a `Value`, which never reports an error. The text is a function of
/// what the value holds. Read again, it yields that value, where the value holds no doubles and is
/// nested no deeper than the parser reads. What becomes of doubles is left unsaid.
#[verifier::external_body]
fn value_to_compact(value: &serde_json::Value) -> (text: Option<String>)
    ensures
        text is Some,
        text->0@ == compact_json(json::value_contents(*value)),
        holds_integers(json::value_contents(*value)) && json::is_readable(
            json::value_contents(*value),
        ) ==> json::json_from_text(text->0@) == Some(json::value_contents(*value)),
{
    serde_json::to_string(value).ok()
}

/// The document as a parsed value.
fn export(document: &Json) -> (value: serde_json::Value)
    ensures
        json::value_contents(value) == document@,
    decreases document,
{
    match document {
        Json::Null => close_value(ValueNode::Null),
        Json::Bool(flag) => close_value(ValueNode::Bool(*flag)),
        Json::Number(number) => close_value(ValueNode::Number(json::copy_number(number))),
        Json::Text(text) => close_value(ValueNode::Text(text.clone())),
        Json::List(items) => {
            let ghost views = json::list_view(items@);
            proof {
                json::lemma_list_view(items@);
            }
            let mut out: Vec<serde_json::Value> = Vec::new();
            let mut i: usize = 0;
            while i < items.len()
                invariant
                    document matches Json::List(inner) && inner == items,
                    views == json::list_view(items@),
                    views.len() == items@.len(),
                    forall|j: int| 0 <= j < items@.len() ==> #[trigger] views[j] == items@[j]@,
                    i <= items@.len(),
                    out@.len() == i,
                    forall|j: int|
                        0 <= j < i ==> json::value_contents(#[trigger] out@[j]) == views[j],
                decreases items@.len() - i,
            {
                assert(views[i as int] == items@[i as int]@);
                out.push(export(&items[i]));
                i += 1;
            }
            let ghost built = out@;
            let value = close_value(ValueNode::List(out));
            let ghost contents = json::value_contents(value)->List_0;
            assert forall|j: int| 0 <= j < views.len() implies contents[j] == views[j] by {
                assert(json::value_contents(built[j]) == views[j]);
            }
            assert(contents =~= views);
            value
        },
        Json::Object(members) => {
            let mut out = empty_map();
            let mut i: usize = 0;
            assert(json::object_view(members@.take(0)) =~= Map::empty());
            while i < members.len()
                invariant
                    document matches Json::Object(inner) && inner == members,
                    i <= members@.len(),
                    json::map_contents(out) == json::object_view(members@.take(i as int)),
                decreases members@.len() - i,
            {
                assert(members@.take(i + 1).drop_last() =~= members@.take(i as int));
                map_insert(&mut out, members[i].key.clone(), export(&members[i].value));
                i += 1;
            }
            assert(members@.take(members@.len() as int) =~= members@);
            close_value(ValueNode::Object(out))
        },
    }
}

/// The text of a document as it is stored in a file: laid out over several lines, with a line feed
/// at the end. Where the document has no doubles and is nested no deeper than the parser reads,
/// reading the text yields the document.
pub fn file_text(document: &Json) -> (text: String)
    ensures
        text@ == pretty_json(document@) + "\n"@,
        holds_integers(document@) && json::is_readable(document@) ==> json::json_from_text(text@)
            == Some(document@),
{
    let value = export(document);
    match value_to_pretty(&value) {
        Some(mut text) => {
            let ghost before = text@;
            text.push('\n');
            proof {
                reveal_strlit("\n");
                assert(text@ =~= before + "\n"@);
            }
            text
        },
        None => String::new(),
    }
}

/// The text of a document on one line. Where the document has no doubles and is nested no deeper
/// than the parser reads, reading the text yields the document.
pub fn line_text(document: &Json) -> (text: String)
    ensures
        text@ == compact_json(document@),
        holds_integers(document@) && json::is_readable(document@) ==> json::json_from_text(text@)
            == Some(document@),
{
    let value = export(document);
    match value_to_compact(&value) {
        Some(text) => text,
        None => String::new(),
    }
}

/// Putting a text into a document leaves it writable and readable.
pub proof fn lemma_text_keeps_writable(
    json: JsonView,
    path: Seq<Seq<char>>,
    text: Seq<char>,
    depth: nat,
)
    requires
        json::with_text_at(json, path, text) is Some,
        holds_integers(json),
        json::nested_within(json, depth),
        path.len() <= depth,
    ensures
        holds_integers(json::with_text_at(json, path, text)->0),
        json::nested_within(json::with_text_at(json, path, text)->0, depth),
    decreases path.len(),
{
    let changed = json::with_text_at(json, path, text)->0;
    let members = json->Object_0;
    let below = (depth - 1) as nat;
    let child = if members.contains_key(path[0]) {
        members[path[0]]
    } else {
        JsonView::Object(Map::empty())
    };
    let put = if path.len() == 1 {
        JsonView::Text(text)
    } else {
        assert(holds_integers(child));
        assert(json::nested_within(child, below));
        lemma_text_keeps_writable(child, path.drop_first(), text, below);
        json::with_text_at(child, path.drop_first(), text)->0
    };
    assert(holds_integers(put));
    assert(json::nested_within(put, below));
    let after = members.insert(path[0], put);
    assert(changed == JsonView::Object(after));
    assert forall|key: Seq<char>| after.contains_key(key) implies holds_integers(
        #[trigger] changed->Object_0[key],
    ) && json::nested_within(changed->Object_0[key], below) by {
        if key != path[0] {
            assert(json->Object_0[key] == after[key]);
        }
    }
    assert(holds_integers(changed));
    assert(json::nested_within(changed, depth));
}

} // verus!
