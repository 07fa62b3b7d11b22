//! Text as a sequence of characters: trimming, splitting and searching.
use vstd::prelude::*;

verus! {

/// `String::push` appends one character.
pub assume_specification[ String::push ](buffer: &mut String, c: char)
    ensures
        final(buffer)@ == old(buffer)@.push(c),
;

/// The Unicode `White_Space` characters.
pub open spec fn is_space(c: char) -> bool {
    ||| '\u{9}' <= c <= '\u{d}'
    ||| c == ' '
    ||| c == '\u{85}'
    ||| c == '\u{a0}'
    ||| c == '\u{1680}'
    ||| '\u{2000}' <= c <= '\u{200a}'
    ||| c == '\u{2028}'
    ||| c == '\u{2029}'
    ||| c == '\u{202f}'
    ||| c == '\u{205f}'
    ||| c == '\u{3000}'
}

/// `text` without its leading white space.
pub open spec fn trim_start(text: Seq<char>) -> Seq<char>
    decreases text.len(),
{
    if text.len() > 0 && is_space(text.first()) {
        trim_start(text.drop_first())
    } else {
        text
    }
}

/// `text` without its trailing white space.
pub open spec fn trim_end(text: Seq<char>) -> Seq<char>
    decreases text.len(),
{
    if text.len() > 0 && is_space(text.last()) {
        trim_end(text.drop_last())
    } else {
        text
    }
}

/// `text` without the white space around it.
pub open spec fn trimmed(text: Seq<char>) -> Seq<char> {
    trim_end(trim_start(text))
}

/// Whether `needle` stands somewhere in `text`.
pub open spec fn contains_text(text: Seq<char>, needle: Seq<char>) -> bool {
    exists|at: int| occurs_at(text, needle, at)
}

/// Whether `needle` stands in `text` at `at`.
pub open spec fn occurs_at(text: Seq<char>, needle: Seq<char>, at: int) -> bool {
    0 <= at && at + needle.len() <= text.len() && text.subrange(at, at + needle.len()) == needle
}

/// The pieces of `text` between the occurrences of `separator`.
pub open spec fn split_at_each(text: Seq<char>, separator: char) -> Seq<Seq<char>>
    decreases text.len(),
{
    if text.len() == 0 {
        seq![Seq::empty()]
    } else {
        let before = split_at_each(text.drop_last(), separator);
        if text.last() == separator {
            before.push(Seq::empty())
        } else {
            before.drop_last().push(before.last().push(text.last()))
        }
    }
}

/// There is always a piece.
pub proof fn lemma_split_nonempty(whole: Seq<char>, separator: char)
    ensures
        split_at_each(whole, separator).len() > 0,
    decreases whole.len(),
{
    if whole.len() > 0 {
        lemma_split_nonempty(whole.drop_last(), separator);
    }
}

/// Whether the white space test holds of `c`.
pub fn is_white_space(c: char) -> (space: bool)
    ensures
        space == is_space(c),
{
    ('\u{9}' <= c && c <= '\u{d}') || c == ' ' || c == '\u{85}' || c == '\u{a0}' || c == '\u{1680}'
        || ('\u{2000}' <= c && c <= '\u{200a}') || c == '\u{2028}' || c == '\u{2029}' || c
        == '\u{202f}' || c == '\u{205f}' || c == '\u{3000}'
}

/// The characters of `text`.
pub fn characters(text: &str) -> (chars: Vec<char>)
    ensures
        chars@ == text@,
{
    let mut chars: Vec<char> = Vec::new();
    for c in it: text.chars()
        invariant
            chars@ == it.seq().take(it.index() as int),
            it.seq() == text@,
    {
        chars.push(c);
    }
    chars
}

/// The text made of `chars[from..to]`.
pub fn text_of(chars: &Vec<char>, from: usize, to: usize) -> (text: String)
    requires
        from <= to <= chars@.len(),
    ensures
        text@ == chars@.subrange(from as int, to as int),
{
    let mut text = String::new();
    let mut i: usize = from;
    while i < to
        invariant
            from <= i <= to <= chars@.len(),
            text@ == chars@.subrange(from as int, i as int),
        decreases to - i,
    {
        text.push(chars[i]);
        i += 1;
    }
    text
}

/// A line without the carriage return that ends it, if one does.
pub open spec fn without_return(line: Seq<char>) -> Seq<char> {
    if line.len() > 0 && line.last() == '\r' {
        line.drop_last()
    } else {
        line
    }
}

/// The lines of `text`. A line ends at a line feed or at a carriage return and line feed; the end
/// of the last line may be missing.
pub open spec fn lines_of(text: Seq<char>) -> Seq<Seq<char>> {
    let pieces = split_at_each(text, '\n');
    let ended = pieces.drop_last().map_values(|line: Seq<char>| without_return(line));
    if pieces.last().len() == 0 {
        ended
    } else {
        ended.push(pieces.last())
    }
}

/// What follows `prefix` in `text`, if `text` starts with it.
pub open spec fn after_prefix(text: Seq<char>, prefix: Seq<char>) -> Option<Seq<char>> {
    if prefix.is_prefix_of(text) {
        Some(text.skip(prefix.len() as int))
    } else {
        None
    }
}

/// `c` with an ASCII capital turned into its small letter.
pub open spec fn lower_char(c: char) -> char {
    if 'A' <= c <= 'Z' {
        ((c as u32 + 32) as u32) as char
    } else {
        c
    }
}

/// `text` with its ASCII capitals turned into small letters.
pub open spec fn lower(text: Seq<char>) -> Seq<char> {
    text.map_values(|c: char| lower_char(c))
}

/// The text views of a list of strings.
pub open spec fn texts(list: Seq<String>) -> Seq<Seq<char>> {
    list.map_values(|text: String| text@)
}

/// What an optional text holds.
pub open spec fn text_view(text: Option<&str>) -> Option<Seq<char>> {
    match text {
        Some(inner) => Some(inner@),
        None => None,
    }
}

/// What an optional string holds.
pub open spec fn string_view(text: Option<String>) -> Option<Seq<char>> {
    match text {
        Some(inner) => Some(inner@),
        None => None,
    }
}

/// The character for a digit.
pub open spec fn digit_char(digit: nat) -> char {
    (('0' as u32 + digit) as u32) as char
}

/// The decimal digits of `n`.
pub open spec fn decimal(n: nat) -> Seq<char>
    decreases n,
{
    if n < 10 {
        seq![digit_char(n)]
    } else {
        decimal(n / 10).push(digit_char(n % 10))
    }
}

/// A piece of text is a piece of itself from its start to its end.
proof fn lemma_whole(text: Seq<char>)
    ensures
        text.subrange(0, text.len() as int) == text,
{
}

/// `text` without the white space around it.
pub fn trim(text: &str) -> (out: String)
    ensures
        out@ == trimmed(text@),
{
    let chars = characters(text);
    let mut from: usize = 0;
    proof {
        lemma_whole(text@);
    }
    while from < chars.len() && is_white_space(chars[from])
        invariant
            chars@ == text@,
            from <= chars@.len(),
            trim_start(text@) == trim_start(text@.subrange(from as int, text@.len() as int)),
        decreases chars@.len() - from,
    {
        proof {
            let rest = text@.subrange(from as int, text@.len() as int);
            assert(rest.drop_first() == text@.subrange(from + 1, text@.len() as int));
        }
        from += 1;
    }
    let ghost start = text@.subrange(from as int, text@.len() as int);
    let mut to: usize = chars.len();
    while to > from && is_white_space(chars[to - 1])
        invariant
            chars@ == text@,
            from <= to <= chars@.len(),
            trim_end(start) == trim_end(text@.subrange(from as int, to as int)),
        decreases to,
    {
        proof {
            let rest = text@.subrange(from as int, to as int);
            assert(rest.drop_last() == text@.subrange(from as int, to - 1));
        }
        to -= 1;
    }
    text_of(&chars, from, to)
}

/// Whether two texts hold the same characters.
pub fn same_text(left: &str, right: &str) -> (same: bool)
    ensures
        same == (left@ == right@),
{
    let left_chars = characters(left);
    let right_chars = characters(right);
    if left_chars.len() != right_chars.len() {
        return false;
    }
    let mut i: usize = 0;
    while i < left_chars.len()
        invariant
            left_chars@ == left@,
            right_chars@ == right@,
            left@.len() == right@.len(),
            i <= left@.len(),
            forall|j: int| 0 <= j < i ==> left@[j] == right@[j],
        decreases left@.len() - i,
    {
        if left_chars[i] != right_chars[i] {
            return false;
        }
        i += 1;
    }
    assert(left@ =~= right@);
    true
}

/// Whether `needle` stands in `text` at `at`.
fn stands_at(text: &Vec<char>, needle: &Vec<char>, at: usize) -> (found: bool)
    requires
        at + needle@.len() <= text@.len(),
    ensures
        found == occurs_at(text@, needle@, at as int),
{
    let len: usize = text.len();
    let mut i: usize = 0;
    while i < needle.len()
        invariant
            len == text@.len(),
            at + needle@.len() <= len,
            i <= needle@.len(),
            forall|j: int| 0 <= j < i ==> text@[at + j] == needle@[j],
        decreases needle@.len() - i,
    {
        if text[at + i] != needle[i] {
            proof {
                let part = text@.subrange(at as int, at + needle@.len());
                assert(part[i as int] == text@[at + i]);
            }
            return false;
        }
        i += 1;
    }
    assert(text@.subrange(at as int, at + needle@.len()) =~= needle@);
    true
}

/// Whether `needle` stands somewhere in the text whose characters are `text`.
pub fn holds(text: &Vec<char>, needle: &str) -> (found: bool)
    ensures
        found == contains_text(text@, needle@),
{
    let needle_chars = characters(needle);
    if needle_chars.len() > text.len() {
        return false;
    }
    let last: usize = text.len() - needle_chars.len();
    let mut at: usize = 0;
    loop
        invariant
            needle_chars@ == needle@,
            needle@.len() + last == text@.len(),
            at <= last,
            forall|i: int| 0 <= i < at ==> !occurs_at(text@, needle@, i),
        decreases last - at,
    {
        if stands_at(text, &needle_chars, at) {
            return true;
        }
        if at == last {
            assert forall|i: int| !occurs_at(text@, needle@, i) by {
                if i == at {
                }
            }
            return false;
        }
        at += 1;
    }
}

/// The pieces of `text` between the occurrences of `separator`.
pub fn split(text: &str, separator: char) -> (pieces: Vec<String>)
    ensures
        texts(pieces@) == split_at_each(text@, separator),
        pieces@.len() > 0,
{
    let chars = characters(text);
    let mut pieces: Vec<String> = Vec::new();
    let mut current = String::new();
    let mut i: usize = 0;
    proof {
        assert(text@.take(0) =~= Seq::<char>::empty());
        assert(texts(pieces@).push(current@) =~= split_at_each(text@.take(0), separator));
    }
    while i < chars.len()
        invariant
            chars@ == text@,
            i <= chars@.len(),
            texts(pieces@).push(current@) == split_at_each(text@.take(i as int), separator),
        decreases chars@.len() - i,
    {
        let ghost before = texts(pieces@);
        let ghost piece = current@;
        proof {
            assert(text@.take(i + 1).drop_last() =~= text@.take(i as int));
            assert(before.push(piece).drop_last() =~= before);
        }
        if chars[i] == separator {
            pieces.push(current);
            current = String::new();
            assert(texts(pieces@) =~= before.push(piece));
            assert(current@ =~= Seq::<char>::empty());
        } else {
            current.push(chars[i]);
        }
        i += 1;
    }
    let ghost before = texts(pieces@);
    pieces.push(current);
    proof {
        assert(text@.take(text@.len() as int) =~= text@);
        assert(texts(pieces@) =~= before.push(current@));
    }
    pieces
}

/// The lines of `text`.
pub fn lines(text: &str) -> (out: Vec<String>)
    ensures
        texts(out@) == lines_of(text@),
{
    let pieces = split(text, '\n');
    let ghost cut = split_at_each(text@, '\n');
    let last: usize = pieces.len() - 1;
    let mut out: Vec<String> = Vec::new();
    let mut i: usize = 0;
    while i < last
        invariant
            texts(pieces@) == cut,
            last + 1 == pieces@.len(),
            i <= last,
            texts(out@) == cut.take(i as int).map_values(|line: Seq<char>| without_return(line)),
        decreases last - i,
    {
        let chars = characters(pieces[i].as_str());
        let end: usize = if chars.len() > 0 && chars[chars.len() - 1] == '\r' {
            chars.len() - 1
        } else {
            chars.len()
        };
        let line = text_of(&chars, 0, end);
        proof {
            assert(cut[i as int] == pieces@[i as int]@);
            assert(line@ =~= without_return(cut[i as int]));
        }
        let ghost before = texts(out@);
        out.push(line);
        i += 1;
        proof {
            assert(texts(out@) =~= before.push(line@));
            assert(cut.take(i as int) =~= cut.take(i - 1).push(cut[i - 1]));
            assert(texts(out@) =~= cut.take(i as int).map_values(
                |line: Seq<char>| without_return(line),
            ));
        }
    }
    let ghost ended = texts(out@);
    proof {
        assert(cut.take(last as int) =~= cut.drop_last());
        assert(cut.last() == pieces@[last as int]@);
    }
    if !pieces[last].as_str().is_empty() {
        out.push(pieces[last].clone());
        assert(texts(out@) =~= ended.push(cut.last()));
    }
    out
}

/// What follows `prefix` in `text`, if `text` starts with it.
pub fn strip_prefix(text: &str, prefix: &str) -> (rest: Option<String>)
    ensures
        rest is Some <==> after_prefix(text@, prefix@) is Some,
        rest matches Some(found) ==> after_prefix(text@, prefix@) == Some(found@),
{
    let chars = characters(text);
    let start = characters(prefix);
    if start.len() > chars.len() {
        return None;
    }
    let starts = stands_at(&chars, &start, 0);
    proof {
        if prefix@.is_prefix_of(text@) {
            assert(text@.subrange(0, prefix@.len() as int) =~= prefix@);
        }
    }
    if starts {
        Some(text_of(&chars, start.len(), chars.len()))
    } else {
        None
    }
}

/// `c` with an ASCII capital turned into its small letter.
fn lower_ascii_char(c: char) -> (out: char)
    ensures
        out == lower_char(c),
{
    if 'A' <= c && c <= 'Z' {
        let code: u8 = c as u8;
        let small: u8 = code + 32;
        small as char
    } else {
        c
    }
}

/// `text` with its ASCII capitals turned into small letters.
pub fn ascii_lowercase(text: &str) -> (out: String)
    ensures
        out@ == lower(text@),
{
    let chars = characters(text);
    let mut out = String::new();
    let mut i: usize = 0;
    while i < chars.len()
        invariant
            chars@ == text@,
            i <= chars@.len(),
            out@ == lower(text@.take(i as int)),
        decreases chars@.len() - i,
    {
        out.push(lower_ascii_char(chars[i]));
        i += 1;
        assert(out@ =~= lower(text@.take(i as int)));
    }
    assert(text@.take(text@.len() as int) =~= text@);
    out
}

/// The text of one piece after another.
pub fn joined(left: &str, right: &str) -> (out: String)
    ensures
        out@ == left@ + right@,
{
    let mut out = left.to_owned();
    out.append(right);
    out
}

/// The decimal digits of `n`.
pub fn decimal_text(n: u64) -> (out: String)
    ensures
        out@ == decimal(n as nat),
    decreases n,
{
    let digit: u8 = (n % 10) as u8;
    let mut out = if n < 10 {
        String::new()
    } else {
        decimal_text(n / 10)
    };
    let code: u8 = 48 + digit;
    out.push(code as char);
    proof {
        if n < 10 {
            assert(out@ =~= decimal(n as nat));
        }
    }
    out
}

/// Whether `text` has no characters.
pub fn is_empty_text(text: &str) -> (blank: bool)
    ensures
        blank == (text@.len() == 0),
{
    characters(text).len() == 0
}

/// Copies of the texts.
pub fn copies(list: &Vec<String>) -> (out: Vec<String>)
    ensures
        texts(out@) == texts(list@),
{
    let mut out: Vec<String> = Vec::new();
    let mut i: usize = 0;
    while i < list.len()
        invariant
            i <= list@.len(),
            out@.len() == i,
            forall|j: int| 0 <= j < i ==> (#[trigger] out@[j])@ == list@[j]@,
        decreases list@.len() - i,
    {
        out.push(list[i].clone());
        i += 1;
    }
    assert(texts(out@) =~= texts(list@));
    out
}

/// Whether two lists hold the same texts.
pub fn same_texts(left: &Vec<String>, right: &Vec<String>) -> (same: bool)
    ensures
        same == (texts(left@) == texts(right@)),
{
    assert(texts(left@).len() == left@.len() && texts(right@).len() == right@.len());
    if left.len() != right.len() {
        return false;
    }
    let mut i: usize = 0;
    while i < left.len()
        invariant
            i <= left@.len() == right@.len(),
            forall|j: int| 0 <= j < i ==> (#[trigger] left@[j])@ == right@[j]@,
        decreases left@.len() - i,
    {
        if !same_text(left[i].as_str(), right[i].as_str()) {
            assert(texts(left@)[i as int] != texts(right@)[i as int]);
            return false;
        }
        i += 1;
    }
    assert(texts(left@) =~= texts(right@));
    true
}

/// A copy of an optional text.
pub fn copy_of(text: &Option<String>) -> (out: Option<String>)
    ensures
        string_view(out) == string_view(*text),
{
    match text {
        Some(inner) => Some(inner.clone()),
        None => None,
    }
}

/// An optional text, borrowed.
pub fn borrowed(text: &Option<String>) -> (out: Option<&str>)
    ensures
        text_view(out) == string_view(*text),
{
    match text {
        Some(inner) => Some(inner.as_str()),
        None => None,
    }
}

/// Whether a list holds a text.
pub fn is_listed(list: &Vec<String>, wanted: &str) -> (listed: bool)
    ensures
        listed == texts(list@).contains(wanted@),
{
    let mut i: usize = 0;
    while i < list.len()
        invariant
            i <= list@.len(),
            forall|j: int| 0 <= j < i ==> (#[trigger] list@[j])@ != wanted@,
        decreases list@.len() - i,
    {
        if same_text(list[i].as_str(), wanted) {
            assert(texts(list@)[i as int] == wanted@);
            return true;
        }
        i += 1;
    }
    proof {
        if texts(list@).contains(wanted@) {
            let j = choose|j: int| 0 <= j < texts(list@).len() && texts(list@)[j] == wanted@;
            assert(list@[j]@ == wanted@);
        }
    }
    false
}

/// Whether a text comes before another in the order of their characters.
pub open spec fn comes_before(left: Seq<char>, right: Seq<char>) -> bool
    decreases left.len(),
{
    if right.len() == 0 {
        false
    } else if left.len() == 0 {
        true
    } else if left[0] != right[0] {
        left[0] < right[0]
    } else {
        comes_before(left.drop_first(), right.drop_first())
    }
}

/// Whether a text comes before another in the order of their characters.
pub fn is_before(left: &str, right: &str) -> (before: bool)
    ensures
        before == comes_before(left@, right@),
{
    let left_chars = characters(left);
    let right_chars = characters(right);
    let mut i: usize = 0;
    assert(left@.skip(0) =~= left@ && right@.skip(0) =~= right@);
    while i < left_chars.len() && i < right_chars.len()
        invariant
            left_chars@ == left@,
            right_chars@ == right@,
            i <= left@.len(),
            i <= right@.len(),
            comes_before(left@, right@) == comes_before(
                left@.skip(i as int),
                right@.skip(i as int),
            ),
        decreases left@.len() - i,
    {
        assert(left@.skip(i as int)[0] == left@[i as int]);
        assert(right@.skip(i as int)[0] == right@[i as int]);
        if left_chars[i] != right_chars[i] {
            return left_chars[i] < right_chars[i];
        }
        assert(left@.skip(i as int).drop_first() =~= left@.skip(i + 1));
        assert(right@.skip(i as int).drop_first() =~= right@.skip(i + 1));
        i += 1;
    }
    i < right_chars.len()
}

/// The order of texts is total.
pub proof fn lemma_order_total(left: Seq<char>, right: Seq<char>)
    ensures
        comes_before(left, right) || comes_before(right, left) || left == right,
        !(comes_before(left, right) && comes_before(right, left)),
        !comes_before(left, left),
    decreases left.len(),
{
    if left.len() > 0 && right.len() > 0 {
        lemma_order_total(left.drop_first(), right.drop_first());
        if left[0] == right[0] && left.drop_first() == right.drop_first() {
            assert(left =~= seq![left[0]] + left.drop_first());
            assert(right =~= seq![right[0]] + right.drop_first());
        }
    } else if left.len() == 0 && right.len() == 0 {
        assert(left =~= right);
    }
    if left.len() > 0 {
        lemma_order_total(left.drop_first(), left.drop_first());
    }
}

/// The order of texts is transitive.
pub proof fn lemma_order_transitive(left: Seq<char>, middle: Seq<char>, right: Seq<char>)
    requires
        comes_before(left, middle),
        comes_before(middle, right),
    ensures
        comes_before(left, right),
    decreases left.len(),
{
    if left.len() > 0 && left[0] == middle[0] && middle[0] == right[0] {
        lemma_order_transitive(left.drop_first(), middle.drop_first(), right.drop_first());
    }
}

} // verus!
