//! What holds of trimmed, split and ordered text.
use vstd::prelude::*;

use crate::pointers;
use crate::text;

verus! {

/// Whether a text holds a character.
pub open spec fn holds_char(whole: Seq<char>, c: char) -> bool {
    exists|i: int| 0 <= i < whole.len() && #[trigger] whole[i] == c
}

/// A text without the separator is one piece, and what follows a separator is split by itself.
pub proof fn pieces_end_at_separators(head: Seq<char>, tail: Seq<char>, separator: char)
    requires
        !holds_char(head, separator),
    ensures
        text::split_at_each(head, separator) == seq![head],
        text::split_at_each(head + seq![separator] + tail, separator) == seq![head]
            + text::split_at_each(tail, separator),
    decreases tail.len(),
{
    let none = Seq::<char>::empty();
    pointers::lemma_split_tail(none, head, separator);
    assert(none + head =~= head);
    assert(text::split_at_each(none, separator) =~= seq![none]);
    assert(text::split_at_each(head, separator) =~= seq![head]);
    let all = head + seq![separator] + tail;
    if tail.len() == 0 {
        assert(all =~= head.push(separator));
        assert(all.drop_last() =~= head);
        assert(text::split_at_each(tail, separator) =~= seq![none]);
        assert(text::split_at_each(all, separator) =~= seq![head] + seq![none]);
    } else {
        pieces_end_at_separators(head, tail.drop_last(), separator);
        assert(all.drop_last() =~= head + seq![separator] + tail.drop_last());
        text::lemma_split_nonempty(tail.drop_last(), separator);
        let before = text::split_at_each(tail.drop_last(), separator);
        assert((seq![head] + before).drop_last() =~= seq![head] + before.drop_last());
        assert(text::split_at_each(all, separator) =~= seq![head] + text::split_at_each(
            tail,
            separator,
        ));
    }
}

/// The pieces of a text behind one that ends in the separator.
proof fn lemma_split_behind(head: Seq<char>, tail: Seq<char>, separator: char)
    requires
        head.len() == 0 || head.last() == separator,
        !holds_char(tail, separator),
    ensures
        text::split_at_each(head, separator).last() == Seq::<char>::empty(),
        text::split_at_each(head, separator).len() > 0,
        text::split_at_each(head + tail, separator) == text::split_at_each(
            head,
            separator,
        ).drop_last().push(tail),
{
    text::lemma_split_nonempty(head, separator);
    pointers::lemma_split_tail(head, tail, separator);
    assert(Seq::<char>::empty() + tail =~= tail);
}

/// A line ends at a line feed, and a carriage return before it belongs to the end. The last line
/// may lack its end.
pub proof fn a_line_ends_at_a_line_feed(content: Seq<char>, line: Seq<char>)
    requires
        content.len() == 0 || content.last() == '\n',
        forall|i: int| 0 <= i < line.len() ==> #[trigger] line[i] != '\n',
    ensures
        text::lines_of(content + line.push('\n')) == text::lines_of(content).push(
            if line.len() > 0 && line.last() == '\r' {
                line.drop_last()
            } else {
                line
            },
        ),
        line.len() > 0 ==> text::lines_of(content + line) == text::lines_of(content).push(line),
{
    lemma_split_behind(content, line, '\n');
    let pieces = text::split_at_each(content, '\n');
    let open = text::split_at_each(content + line, '\n');
    let ended = content + line.push('\n');
    assert(ended.drop_last() =~= content + line);
    let closed = text::split_at_each(ended, '\n');
    assert(closed =~= open.push(Seq::empty()));
    assert(open.drop_last() =~= pieces.drop_last());
    assert(text::lines_of(content) =~= pieces.drop_last().map_values(
        |one: Seq<char>| text::without_return(one),
    ));
    assert(closed.drop_last() =~= open);
    assert(text::lines_of(ended) =~= text::lines_of(content).push(text::without_return(line)));
    if line.len() > 0 {
        assert(text::lines_of(content + line) =~= text::lines_of(content).push(line));
    }
}

/// Whether a text consists of white space.
pub open spec fn is_blank(whole: Seq<char>) -> bool {
    forall|i: int| 0 <= i < whole.len() ==> text::is_space(#[trigger] whole[i])
}

/// Leading white space is left out.
proof fn lemma_trim_start(blank: Seq<char>, rest: Seq<char>)
    requires
        is_blank(blank),
        rest.len() > 0 ==> !text::is_space(rest[0]),
    ensures
        text::trim_start(blank + rest) == rest,
    decreases blank.len(),
{
    let all = blank + rest;
    if blank.len() == 0 {
        assert(all =~= rest);
    } else {
        assert(text::is_space(blank[0]));
        assert(all.first() == blank[0]);
        let less = blank.drop_first();
        assert forall|i: int| 0 <= i < less.len() implies text::is_space(#[trigger] less[i]) by {
            assert(less[i] == blank[i + 1]);
        }
        lemma_trim_start(less, rest);
        assert(all.drop_first() =~= less + rest);
    }
}

/// Trailing white space is left out.
proof fn lemma_trim_end(rest: Seq<char>, blank: Seq<char>)
    requires
        is_blank(blank),
        rest.len() > 0 ==> !text::is_space(rest.last()),
    ensures
        text::trim_end(rest + blank) == rest,
    decreases blank.len(),
{
    let all = rest + blank;
    if blank.len() == 0 {
        assert(all =~= rest);
    } else {
        assert(text::is_space(blank[blank.len() - 1]));
        let less = blank.drop_last();
        assert forall|i: int| 0 <= i < less.len() implies text::is_space(#[trigger] less[i]) by {
            assert(less[i] == blank[i]);
        }
        lemma_trim_end(rest, less);
        assert(all.drop_last() =~= rest + less);
    }
}

/// Trimming takes away the white space around a text, all of it and nothing else.
pub proof fn trimming_leaves_the_core(before: Seq<char>, core: Seq<char>, after: Seq<char>)
    requires
        is_blank(before),
        is_blank(after),
        core.len() > 0 ==> !text::is_space(core[0]) && !text::is_space(core.last()),
    ensures
        text::trimmed(before + core + after) == core,
{
    if core.len() > 0 {
        assert(before + core + after =~= before + (core + after));
        lemma_trim_start(before, core + after);
        lemma_trim_end(core, after);
    } else {
        let blank = before + after;
        assert forall|i: int| 0 <= i < blank.len() implies text::is_space(#[trigger] blank[i]) by {
            if i >= before.len() {
                assert(blank[i] == after[i - before.len()]);
            }
        }
        assert(before + core + after =~= blank);
        assert(blank + core =~= blank);
        lemma_trim_start(blank, core);
    }
}

/// The blanks of ASCII are white space, and no other character up to `~` is.
pub proof fn these_are_blanks(c: char)
    requires
        c <= '~',
    ensures
        text::is_space(c) == (c == ' ' || c == '\t' || c == '\n' || c == '\u{b}' || c == '\u{c}'
            || c == '\r'),
{
}

/// Small letters: capitals of ASCII are turned into their small letters, and every other character
/// stays.
pub proof fn capitals_become_small_letters(whole: Seq<char>, at: int)
    requires
        0 <= at < whole.len(),
    ensures
        text::lower(whole).len() == whole.len(),
        'A' <= whole[at] <= 'Z' ==> text::lower(whole)[at] as int == whole[at] as int + 32,
        !('A' <= whole[at] <= 'Z') ==> text::lower(whole)[at] == whole[at],
{
}

/// Texts are ordered by the first character in which they differ, and a text comes before those
/// that go on from it.
pub proof fn the_first_difference_orders_texts(
    common: Seq<char>,
    left: Seq<char>,
    right: Seq<char>,
)
    requires
        right.len() > 0,
        left.len() > 0 ==> left[0] < right[0],
    ensures
        text::comes_before(common + left, common + right),
        !text::comes_before(common + right, common + left),
    decreases common.len(),
{
    if common.len() == 0 {
        assert(common + left =~= left);
        assert(common + right =~= right);
    } else {
        let rest = common.drop_first();
        the_first_difference_orders_texts(rest, left, right);
        assert((common + left).drop_first() =~= rest + left);
        assert((common + right).drop_first() =~= rest + right);
    }
}

} // verus!
