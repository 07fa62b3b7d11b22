//! Pointers into documents whose names need no escapes.
use vstd::prelude::*;

use crate::auth;
use crate::json;
use crate::json::JsonView;
use crate::text;

verus! {

/// Whether a name can stand in a pointer as it is: it holds no slash and no tilde.
pub open spec fn needs_no_escape(name: Seq<char>) -> bool {
    forall|i: int| 0 <= i < name.len() ==> #[trigger] name[i] != '/' && name[i] != '~'
}

/// Whether a name can stand in a pointer as it is, and does not stand for a place in a list.
pub open spec fn is_plain(name: Seq<char>) -> bool {
    &&& name.len() > 0
    &&& !('0' <= name[0] <= '9')
    &&& needs_no_escape(name)
}

/// Characters other than the separator go to the last piece.
pub proof fn lemma_split_tail(head: Seq<char>, tail: Seq<char>, separator: char)
    requires
        forall|i: int| 0 <= i < tail.len() ==> #[trigger] tail[i] != separator,
    ensures
        text::split_at_each(head, separator).len() > 0,
        text::split_at_each(head + tail, separator) == text::split_at_each(
            head,
            separator,
        ).drop_last().push(text::split_at_each(head, separator).last() + tail),
    decreases tail.len(),
{
    text::lemma_split_nonempty(head, separator);
    let pieces = text::split_at_each(head, separator);
    if tail.len() == 0 {
        assert(head + tail =~= head);
        assert(pieces.last() + tail =~= pieces.last());
        assert(pieces.drop_last().push(pieces.last()) =~= pieces);
    } else {
        let all = head + tail;
        lemma_split_tail(head, tail.drop_last(), separator);
        assert(all.drop_last() =~= head + tail.drop_last());
        assert(tail[tail.len() - 1] != separator);
        let before = pieces.drop_last().push(pieces.last() + tail.drop_last());
        assert(before.drop_last() =~= pieces.drop_last());
        assert((pieces.last() + tail.drop_last()).push(tail.last()) =~= pieces.last() + tail);
    }
}

/// A name without escapes stands for itself.
pub proof fn lemma_unescaped_plain(token: Seq<char>)
    requires
        forall|i: int| 0 <= i < token.len() ==> #[trigger] token[i] != '~',
    ensures
        json::unescaped(token) == token,
    decreases token.len(),
{
    if token.len() > 0 {
        assert(token[0] != '~');
        let rest = token.skip(1);
        assert forall|i: int| 0 <= i < rest.len() implies #[trigger] rest[i] != '~' by {
            assert(rest[i] == token[i + 1]);
        }
        lemma_unescaped_plain(rest);
        assert(seq![token[0]] + rest =~= token);
    } else {
        assert(json::unescaped(token) =~= token);
    }
}

/// Decimal digits start with a digit.
pub proof fn lemma_decimal_start(n: nat)
    ensures
        text::decimal(n).len() > 0,
        '0' <= text::decimal(n)[0] <= '9',
    decreases n,
{
    if n >= 10 {
        lemma_decimal_start(n / 10);
    }
}

/// A plain name leads to the member of that name.
pub proof fn lemma_step_plain(json: JsonView, name: Seq<char>)
    requires
        is_plain(name),
    ensures
        json::step(json, json::unescaped(name)) == json::member(json, name),
{
    lemma_unescaped_plain(name);
    if json is List {
        let items = json->List_0;
        assert forall|i: int| 0 <= i < items.len() implies #[trigger] text::decimal(i as nat)
            != name by {
            lemma_decimal_start(i as nat);
        }
    }
}

/// The pieces of a pointer with one plain name.
pub proof fn lemma_one_name(pointer: Seq<char>, name: Seq<char>)
    requires
        is_plain(name),
        pointer == seq!['/'] + name,
    ensures
        text::split_at_each(pointer, '/') == seq![Seq::<char>::empty(), name],
{
    let slash = seq!['/'];
    reveal_with_fuel(text::split_at_each, 2);
    assert(slash.drop_last() =~= Seq::<char>::empty());
    assert(text::split_at_each(slash, '/') =~= seq![Seq::<char>::empty(), Seq::<char>::empty()]);
    lemma_split_tail(slash, name, '/');
    assert(Seq::<char>::empty() + name =~= name);
    assert(text::split_at_each(pointer, '/') =~= seq![Seq::<char>::empty(), name]);
}

/// The pieces of a pointer with two plain names.
pub proof fn lemma_two_names(pointer: Seq<char>, first: Seq<char>, second: Seq<char>)
    requires
        is_plain(first),
        is_plain(second),
        pointer == seq!['/'] + first + seq!['/'] + second,
    ensures
        text::split_at_each(pointer, '/') == seq![Seq::<char>::empty(), first, second],
{
    let head = seq!['/'] + first;
    let parent = head + seq!['/'];
    lemma_one_name(head, first);
    assert(parent.drop_last() =~= head);
    assert(text::split_at_each(parent, '/') =~= seq![
        Seq::<char>::empty(),
        first,
        Seq::<char>::empty(),
    ]);
    lemma_split_tail(parent, second, '/');
    assert(Seq::<char>::empty() + second =~= second);
    assert(text::split_at_each(pointer, '/') =~= seq![Seq::<char>::empty(), first, second]);
}

/// What a pointer with one plain name leads to.
pub proof fn lemma_pointed_one(json: JsonView, pointer: Seq<char>, name: Seq<char>)
    requires
        is_plain(name),
        pointer == seq!['/'] + name,
    ensures
        json::pointed(json, pointer) == json::member(json, name),
{
    lemma_one_name(pointer, name);
    let names = text::split_at_each(pointer, '/').drop_first();
    assert(names =~= seq![name]);
    lemma_step_plain(json, name);
    reveal_with_fuel(json::walk, 2);
}

/// What a pointer with two plain names leads to.
pub proof fn lemma_pointed_two(
    json: JsonView,
    pointer: Seq<char>,
    first: Seq<char>,
    second: Seq<char>,
)
    requires
        is_plain(first),
        is_plain(second),
        pointer == seq!['/'] + first + seq!['/'] + second,
    ensures
        json::pointed(json, pointer) == json::member_of(json::member(json, first), second),
{
    lemma_two_names(pointer, first, second);
    let names = text::split_at_each(pointer, '/').drop_first();
    assert(names =~= seq![first, second]);
    assert(names.drop_first() =~= seq![second]);
    lemma_step_plain(json, first);
    reveal_with_fuel(json::walk, 3);
    if let Some(inner) = json::member(json, first) {
        lemma_step_plain(inner, second);
    }
}

/// The pointer that leads through the names.
pub open spec fn pointer_through(names: Seq<Seq<char>>) -> Seq<char>
    decreases names.len(),
{
    if names.len() == 0 {
        Seq::empty()
    } else {
        pointer_through(names.drop_last()) + seq!['/'] + names.last()
    }
}

/// The pieces of a pointer that leads through names without escapes.
pub proof fn lemma_pieces(names: Seq<Seq<char>>)
    requires
        forall|i: int| 0 <= i < names.len() ==> needs_no_escape(#[trigger] names[i]),
    ensures
        text::split_at_each(pointer_through(names), '/') == seq![Seq::<char>::empty()] + names,
    decreases names.len(),
{
    let pointer = pointer_through(names);
    if names.len() == 0 {
        assert(text::split_at_each(pointer, '/') =~= seq![Seq::<char>::empty()] + names);
    } else {
        let before = names.drop_last();
        assert forall|i: int| 0 <= i < before.len() implies needs_no_escape(#[trigger] before[i]) by {
            assert(before[i] == names[i]);
        }
        lemma_pieces(before);
        let parent = pointer_through(before) + seq!['/'];
        assert(parent.drop_last() =~= pointer_through(before));
        assert(needs_no_escape(names[names.len() - 1]));
        lemma_split_tail(parent, names.last(), '/');
        assert(Seq::<char>::empty() + names.last() =~= names.last());
        assert(text::split_at_each(pointer, '/') =~= seq![Seq::<char>::empty()] + names);
    }
}

/// A text put at the end of a chain of names is found there by the pointer through them, whatever
/// the names are, so long as none holds a slash or a tilde. Where none is empty either, the names
/// are those that the pointer is taken to lead through when a text is put where it leads.
pub proof fn what_is_put_is_found(json: JsonView, names: Seq<Seq<char>>, value: Seq<char>)
    requires
        forall|i: int| 0 <= i < names.len() ==> needs_no_escape(#[trigger] names[i]),
        json::with_text_at(json, names, value) is Some,
    ensures
        json::pointed(json::with_text_at(json, names, value)->0, pointer_through(names)) == Some(
            JsonView::Text(value),
        ),
        (forall|i: int| 0 <= i < names.len() ==> (#[trigger] names[i]).len() > 0)
            ==> auth::pointer_names(pointer_through(names)) == names,
{
    lemma_pieces(names);
    let pointer = pointer_through(names);
    let pieces = text::split_at_each(pointer, '/');
    assert(pieces.drop_first() =~= names);
    assert(names.len() > 0);
    lemma_pointer_start(names);
    lemma_walk_put(json, names, value);
    if forall|i: int| 0 <= i < names.len() ==> (#[trigger] names[i]).len() > 0 {
        lemma_all_kept(names);
    }
}

/// Names that are not empty all stay where the empty ones are left out.
proof fn lemma_all_kept(names: Seq<Seq<char>>)
    requires
        forall|i: int| 0 <= i < names.len() ==> (#[trigger] names[i]).len() > 0,
    ensures
        names.filter(|name: Seq<char>| name.len() > 0) == names,
    decreases names.len(),
{
    reveal(Seq::filter);
    if names.len() > 0 {
        let before = names.drop_last();
        assert forall|i: int| 0 <= i < before.len() implies (#[trigger] before[i]).len() > 0 by {
            assert(before[i] == names[i]);
        }
        lemma_all_kept(before);
        assert(names[names.len() - 1].len() > 0);
        assert(before.push(names.last()) =~= names);
    }
}

/// A pointer through names starts with a separator.
proof fn lemma_pointer_start(names: Seq<Seq<char>>)
    requires
        names.len() > 0,
    ensures
        pointer_through(names).len() > 0,
        pointer_through(names)[0] == '/',
    decreases names.len(),
{
    if names.len() > 1 {
        lemma_pointer_start(names.drop_last());
    } else {
        assert(pointer_through(names.drop_last()) =~= Seq::<char>::empty());
    }
}

/// Walking through the names finds the text that was put there.
proof fn lemma_walk_put(json: JsonView, names: Seq<Seq<char>>, value: Seq<char>)
    requires
        forall|i: int| 0 <= i < names.len() ==> needs_no_escape(#[trigger] names[i]),
        json::with_text_at(json, names, value) is Some,
    ensures
        json::walk(json::with_text_at(json, names, value)->0, names) == Some(
            JsonView::Text(value),
        ),
    decreases names.len(),
{
    let changed = json::with_text_at(json, names, value)->0;
    assert(needs_no_escape(names[0]));
    lemma_unescaped_plain(names[0]);
    let rest = names.drop_first();
    if names.len() == 1 {
        assert(json::walk(JsonView::Text(value), rest) == Some(JsonView::Text(value)));
    } else {
        assert forall|i: int| 0 <= i < rest.len() implies needs_no_escape(#[trigger] rest[i]) by {
            assert(rest[i] == names[i + 1]);
        }
        let members = json->Object_0;
        let child = if members.contains_key(names[0]) {
            members[names[0]]
        } else {
            JsonView::Object(Map::empty())
        };
        lemma_walk_put(child, rest, value);
    }
}

} // verus!
