//! Text as sequences of characters: the splitting, trimming, padding and
//! number formatting that the rest of the library is stated over.

use vstd::prelude::*;

verus! {

/// `String::push` of the standard library appends the given character to the
/// end of the string and changes nothing else.
pub assume_specification[ String::push ](s: &mut String, ch: char)
    ensures
        final(s)@ == old(s)@.push(ch),
;

// ---- models ------------------------------------------------------------------

/// The character contents of a list of strings.
pub open spec fn texts(list: Seq<String>) -> Seq<Seq<char>> {
    list.map_values(|s: String| s@)
}

/// The characters with the Unicode `White_Space` property.
pub open spec fn is_white_space(c: char) -> bool {
    ||| '\u{9}' <= c <= '\u{d}'
    ||| c == ' '
    ||| c == '\u{85}'
    ||| c == '\u{a0}'
    ||| c == '\u{1680}'
    ||| '\u{2000}' <= c <= '\u{200a}'
    ||| c == '\u{2028}'
    ||| c == '\u{2029}'
    ||| c == '\u{202f}'
    ||| c == '\u{205f}'
    ||| c == '\u{3000}'
}

/// `text` without its leading white space.
pub open spec fn trim_start(text: Seq<char>) -> Seq<char>
    decreases text.len(),
{
    if text.len() > 0 && is_white_space(text[0]) {
        trim_start(text.drop_first())
    } else {
        text
    }
}

/// `text` without its trailing white space.
pub open spec fn trim_end(text: Seq<char>) -> Seq<char>
    decreases text.len(),
{
    if text.len() > 0 && is_white_space(text.last()) {
        trim_end(text.drop_last())
    } else {
        text
    }
}

/// `text` without white space at either end.
pub open spec fn trimmed(text: Seq<char>) -> Seq<char> {
    trim_end(trim_start(text))
}

/// The pieces of `text` between the items that `cut` selects. There is one
/// piece more than there are such items.
pub open spec fn pieces<A>(text: Seq<A>, cut: spec_fn(A) -> bool) -> Seq<Seq<A>>
    decreases text.len(),
{
    if text.len() == 0 {
        seq![Seq::<A>::empty()]
    } else {
        let before = pieces(text.drop_last(), cut);
        if cut(text.last()) {
            before.push(Seq::<A>::empty())
        } else {
            before.drop_last().push(before.last().push(text.last()))
        }
    }
}

/// Selects one item.
pub open spec fn only<A>(separator: A) -> spec_fn(A) -> bool {
    |item: A| item == separator
}

/// Selects white space.
pub open spec fn white_space() -> spec_fn(char) -> bool {
    |c: char| is_white_space(c)
}

/// Selects what is not empty.
pub open spec fn not_empty() -> spec_fn(Seq<char>) -> bool {
    |part: Seq<char>| part.len() > 0
}

/// Selects what names something other than the directory itself.
pub open spec fn names_something() -> spec_fn(Seq<char>) -> bool {
    |part: Seq<char>| part.len() > 0 && part != seq!['.']
}

/// The pieces of `text` between the occurrences of `separator`.
pub open spec fn split_at_char(text: Seq<char>, separator: char) -> Seq<Seq<char>> {
    pieces(text, only(separator))
}

/// `line` without one carriage return at its end.
pub open spec fn without_carriage_return(line: Seq<char>) -> Seq<char> {
    if line.len() > 0 && line.last() == '\r' {
        line.drop_last()
    } else {
        line
    }
}

/// The lines of `text`. A line ends in a line feed, with or without a
/// carriage return before it; the last line may go without its line feed.
pub open spec fn lines_of(text: Seq<char>) -> Seq<Seq<char>> {
    let parts = split_at_char(text, '\n');
    let ended = parts.drop_last().map_values(|line: Seq<char>| without_carriage_return(line));
    if parts.last().len() == 0 {
        ended
    } else {
        ended.push(parts.last())
    }
}

/// The items of `parts`, one after the other, with `separator` between them.
pub open spec fn joined(parts: Seq<Seq<char>>, separator: Seq<char>) -> Seq<char>
    decreases parts.len(),
{
    if parts.len() == 0 {
        Seq::empty()
    } else if parts.len() == 1 {
        parts[0]
    } else {
        joined(parts.drop_last(), separator) + separator + parts.last()
    }
}

/// The words of `text`: what stands between its runs of white space.
pub open spec fn words_of(text: Seq<char>) -> Seq<Seq<char>> {
    pieces(text, white_space()).filter(not_empty())
}

/// True if `text` begins with `prefix`.
pub open spec fn begins_with(text: Seq<char>, prefix: Seq<char>) -> bool {
    prefix.len() <= text.len() && text.take(prefix.len() as int) == prefix
}

/// The first `count` characters of `text`, or all of it where it is shorter.
pub open spec fn head(text: Seq<char>, count: nat) -> Seq<char> {
    if text.len() <= count {
        text
    } else {
        text.take(count as int)
    }
}

/// `text` cut to at most `max` characters, the last of them an ellipsis
/// where something was cut.
pub open spec fn truncated(text: Seq<char>, max: nat) -> Seq<char> {
    if text.len() <= max {
        text
    } else if max == 0 {
        seq!['…']
    } else {
        text.take(max - 1).push('…')
    }
}

/// `count` times the character `c`.
pub open spec fn repeated(c: char, count: nat) -> Seq<char> {
    Seq::new(count, |i: int| c)
}

/// How many characters `text` lacks to be `width` wide.
pub open spec fn missing(text: Seq<char>, width: nat) -> nat {
    if text.len() < width {
        (width - text.len()) as nat
    } else {
        0
    }
}

/// `text` filled up with blanks at its end.
pub open spec fn left_aligned(text: Seq<char>, width: nat) -> Seq<char> {
    text + repeated(' ', missing(text, width))
}

/// `text` filled up with blanks at its front.
pub open spec fn right_aligned(text: Seq<char>, width: nat) -> Seq<char> {
    repeated(' ', missing(text, width)) + text
}

pub open spec fn is_digit(c: char) -> bool {
    '0' <= c <= '9'
}

/// The character for a number below ten.
pub open spec fn digit_char(d: nat) -> char {
    (48 + d) as char
}

/// The decimal notation of `n`.
pub open spec fn decimal(n: nat) -> Seq<char>
    decreases n,
{
    if n < 10 {
        seq![digit_char(n)]
    } else {
        decimal(n / 10).push(digit_char(n % 10))
    }
}

/// The decimal notation of `n`, with a zero before it where it has one digit.
pub open spec fn two_digits(n: nat) -> Seq<char> {
    if n < 10 {
        seq!['0'] + decimal(n)
    } else {
        decimal(n)
    }
}

pub open spec fn all_digits(text: Seq<char>) -> bool {
    forall|i: int| 0 <= i < text.len() ==> is_digit(#[trigger] text[i])
}

/// The number that a sequence of digits stands for.
pub open spec fn digits_value(text: Seq<char>) -> nat
    decreases text.len(),
{
    if text.len() == 0 {
        0
    } else {
        digits_value(text.drop_last()) * 10 + (text.last() as nat - '0' as nat) as nat
    }
}

/// The number that one or more digits stand for; no other text is a number.
pub open spec fn natural(text: Seq<char>) -> Option<nat> {
    if text.len() > 0 && all_digits(text) {
        Some(digits_value(text))
    } else {
        None
    }
}

/// The number that `text` stands for in unsigned notation: digits, after a
/// plus sign or nothing.
pub open spec fn unsigned_number(text: Seq<char>) -> Option<nat> {
    if text.len() > 0 && text[0] == '+' {
        natural(text.drop_first())
    } else {
        natural(text)
    }
}

/// The number that `text` stands for in signed notation: digits, after a
/// sign or nothing.
pub open spec fn signed_number(text: Seq<char>) -> Option<int> {
    if text.len() > 0 && text[0] == '-' {
        match natural(text.drop_first()) {
            Some(n) => Some(-n),
            None => None,
        }
    } else {
        match unsigned_number(text) {
            Some(n) => Some(n as int),
            None => None,
        }
    }
}

/// The components of a `/`-separated path, without the empty ones and those
/// that stand for the directory itself.
pub open spec fn path_components(path: Seq<char>) -> Seq<Seq<char>> {
    split_at_char(path, '/').filter(names_something())
}

/// The last component of a path, unless it is missing or names the parent.
pub open spec fn last_component(path: Seq<char>) -> Option<Seq<char>> {
    let parts = path_components(path);
    if parts.len() == 0 || parts.last() == seq!['.', '.'] {
        None
    } else {
        Some(parts.last())
    }
}

// ---- characters and comparison ------------------------------------------------

/// The characters of `text`.
pub fn chars_of(text: &str) -> (chars: Vec<char>)
    ensures
        chars@ == text@,
{
    let mut chars: Vec<char> = Vec::new();
    for c in it: text.chars()
        invariant
            it.seq() == text@,
            chars@ == it.seq().take(it.index() as int),
    {
        chars.push(c);
    }
    chars
}

/// The string made of `chars[from..to]`.
pub fn string_of(chars: &Vec<char>, from: usize, to: usize) -> (text: String)
    requires
        from <= to <= chars@.len(),
    ensures
        text@ == chars@.subrange(from as int, to as int),
{
    let mut text = String::new();
    let mut i: usize = from;
    while i < to
        invariant
            from <= i <= to <= chars@.len(),
            text@ == chars@.subrange(from as int, i as int),
        decreases to - i,
    {
        text.push(chars[i]);
        i += 1;
        assert(chars@.subrange(from as int, i as int) == chars@.subrange(
            from as int,
            i - 1,
        ).push(chars@[i - 1]));
    }
    text
}

/// True if both hold the same characters.
pub fn same_text(a: &str, b: &str) -> (same: bool)
    ensures
        same == (a@ == b@),
{
    let mut rest = b.chars();
    for c in it: a.chars()
        invariant
            it.seq() == a@,
            it.index() <= b@.len(),
            vstd::std_specs::iter::IteratorSpec::remaining(&rest) == b@.skip(it.index() as int),
            a@.take(it.index() as int) == b@.take(it.index() as int),
    {
        let ghost i = it.index() as int;
        assert(c == a@[i]);
        match rest.next() {
            Some(d) => {
                assert(d == b@[i]);
                if c != d {
                    return false;
                }
                assert(a@.take(i + 1) == a@.take(i).push(c));
                assert(b@.take(i + 1) == b@.take(i).push(d));
                assert(b@.skip(i).drop_first() == b@.skip(i + 1));
            },
            None => {
                return false;
            },
        }
    }
    assert(a@.take(a@.len() as int) == a@);
    match rest.next() {
        Some(_) => false,
        None => {
            assert(b@.take(a@.len() as int) == b@);
            true
        },
    }
}

// ---- white space and splitting -------------------------------------------------

/// True for the characters with the Unicode `White_Space` property.
pub fn is_space(c: char) -> (space: bool)
    ensures
        space == is_white_space(c),
{
    ('\u{9}' <= c && c <= '\u{d}') || c == ' ' || c == '\u{85}' || c == '\u{a0}' || c == '\u{1680}' || (
    '\u{2000}' <= c && c <= '\u{200a}') || c == '\u{2028}' || c == '\u{2029}' || c == '\u{202f}' || c
        == '\u{205f}' || c == '\u{3000}'
}

/// `text` without white space at either end.
pub fn trim(text: &str) -> (inner: String)
    ensures
        inner@ == trimmed(text@),
{
    let chars = chars_of(text);
    let mut from: usize = 0;
    assert(chars@.skip(0) == chars@);
    while from < chars.len() && is_space(chars[from])
        invariant
            from <= chars@.len(),
            trim_start(chars@.skip(from as int)) == trim_start(chars@),
        decreases chars@.len() - from,
    {
        assert(chars@.skip(from as int).drop_first() == chars@.skip(from + 1));
        from += 1;
    }
    let ghost inner = chars@.skip(from as int);
    assert(trim_start(chars@) == inner);
    let mut to: usize = chars.len();
    assert(chars@.subrange(from as int, to as int) == inner);
    while from < to && is_space(chars[to - 1])
        invariant
            from <= to <= chars@.len(),
            trim_end(chars@.subrange(from as int, to as int)) == trim_end(inner),
        decreases to,
    {
        assert(chars@.subrange(from as int, to as int).drop_last() == chars@.subrange(
            from as int,
            to - 1,
        ));
        to -= 1;
    }
    string_of(&chars, from, to)
}

pub proof fn lemma_pieces_not_empty<A>(text: Seq<A>, cut: spec_fn(A) -> bool)
    ensures
        pieces(text, cut).len() > 0,
    decreases text.len(),
{
    if text.len() > 0 {
        lemma_pieces_not_empty(text.drop_last(), cut);
    }
}

/// Splitting one item more adds to the last piece or begins a new one.
pub proof fn lemma_pieces_step<A>(text: Seq<A>, cut: spec_fn(A) -> bool, i: int)
    requires
        0 <= i < text.len(),
    ensures
        pieces(text.take(i), cut).len() > 0,
        pieces(text.take(i + 1), cut) == if cut(text[i]) {
            pieces(text.take(i), cut).push(Seq::<A>::empty())
        } else {
            pieces(text.take(i), cut).drop_last().push(
                pieces(text.take(i), cut).last().push(text[i]),
            )
        },
{
    lemma_pieces_not_empty(text.take(i), cut);
    assert(text.take(i + 1).drop_last() == text.take(i));
}

/// True if `cut` selects nothing in the text.
pub open spec fn uncut<A>(text: Seq<A>, cut: spec_fn(A) -> bool) -> bool {
    forall|i: int| 0 <= i < text.len() ==> !cut(#[trigger] text[i])
}

/// A text in which nothing is selected is one piece.
pub proof fn lemma_one_piece<A>(text: Seq<A>, cut: spec_fn(A) -> bool)
    requires
        uncut(text, cut),
    ensures
        pieces(text, cut) == seq![text],
    decreases text.len(),
{
    if text.len() > 0 {
        let front = text.drop_last();
        assert forall|i: int| 0 <= i < front.len() implies !cut(#[trigger] front[i]) by {
            assert(front[i] == text[i]);
        }
        lemma_one_piece(front, cut);
        assert(!cut(text[text.len() - 1]));
        assert(front.push(text.last()) == text);
        assert(seq![front].drop_last() == Seq::<Seq<A>>::empty());
        assert(Seq::<Seq<A>>::empty().push(text) == seq![text]);
    } else {
        assert(text == Seq::<A>::empty());
    }
}

/// What stands before the first item that is selected is the first piece.
pub proof fn lemma_first_piece<A>(first: Seq<A>, item: A, rest: Seq<A>, cut: spec_fn(A) -> bool)
    requires
        uncut(first, cut),
        cut(item),
    ensures
        pieces(first.push(item) + rest, cut) == seq![first] + pieces(rest, cut),
    decreases rest.len(),
{
    let text = first.push(item) + rest;
    if rest.len() == 0 {
        assert(text.drop_last() == first);
        lemma_one_piece(first, cut);
        assert(seq![first].push(Seq::<A>::empty()) == seq![first] + pieces(rest, cut));
    } else {
        lemma_first_piece(first, item, rest.drop_last(), cut);
        lemma_pieces_not_empty(rest.drop_last(), cut);
        assert(text.drop_last() == first.push(item) + rest.drop_last());
        assert(text.last() == rest.last());
        let earlier = pieces(rest.drop_last(), cut);
        assert((seq![first] + earlier).drop_last() == seq![first] + earlier.drop_last());
        assert((seq![first] + earlier).last() == earlier.last());
        assert(pieces(text, cut) == seq![first] + pieces(rest, cut));
    }
}

/// What stands after the last item that is selected is the last piece.
pub proof fn lemma_last_piece<A>(text: Seq<A>, item: A, last: Seq<A>, cut: spec_fn(A) -> bool)
    requires
        cut(item),
        uncut(last, cut),
    ensures
        pieces(text.push(item) + last, cut) == pieces(text, cut).push(last),
    decreases last.len(),
{
    let whole = text.push(item) + last;
    if last.len() == 0 {
        assert(whole == text.push(item));
        assert(whole.drop_last() == text);
        assert(last == Seq::<A>::empty());
    } else {
        let shorter = last.drop_last();
        assert forall|i: int| 0 <= i < shorter.len() implies !cut(#[trigger] shorter[i]) by {
            assert(shorter[i] == last[i]);
        }
        lemma_last_piece(text, item, shorter, cut);
        assert(whole.drop_last() == text.push(item) + shorter);
        assert(!cut(last[last.len() - 1]));
        let parts = pieces(text, cut);
        assert(parts.push(shorter).drop_last() == parts);
        assert(shorter.push(last.last()) == last);
    }
}

/// Texts that were joined are split again, where the separator is in none of
/// them.
pub proof fn lemma_joined_splits(parts: Seq<Seq<char>>, separator: char)
    requires
        parts.len() > 0,
        forall|i: int| 0 <= i < parts.len() ==> uncut(#[trigger] parts[i], only(separator)),
    ensures
        split_at_char(joined(parts, seq![separator]), separator) == parts,
    decreases parts.len(),
{
    let cut = only(separator);
    if parts.len() == 1 {
        lemma_one_piece(parts[0], cut);
        assert(seq![parts[0]] == parts);
    } else {
        let fewer = parts.drop_last();
        assert forall|i: int| 0 <= i < fewer.len() implies uncut(#[trigger] fewer[i], cut) by {
            assert(fewer[i] == parts[i]);
        }
        lemma_joined_splits(fewer, separator);
        assert(uncut(parts[parts.len() - 1], cut));
        let front = joined(fewer, seq![separator]);
        lemma_last_piece(front, separator, parts.last(), cut);
        assert(joined(parts, seq![separator]) == front.push(separator) + parts.last());
        assert(fewer.push(parts.last()) == parts);
    }
}

/// Nothing is selected in texts that are joined, where nothing is in any of
/// them and not the separator.
pub proof fn lemma_joined_is_uncut(
    parts: Seq<Seq<char>>,
    separator: char,
    cut: spec_fn(char) -> bool,
)
    requires
        !cut(separator),
        forall|i: int| 0 <= i < parts.len() ==> uncut(#[trigger] parts[i], cut),
    ensures
        uncut(joined(parts, seq![separator]), cut),
    decreases parts.len(),
{
    if parts.len() > 0 {
        assert(uncut(parts[parts.len() - 1], cut));
    }
    if parts.len() > 1 {
        let fewer = parts.drop_last();
        assert forall|i: int| 0 <= i < fewer.len() implies uncut(#[trigger] fewer[i], cut) by {
            assert(fewer[i] == parts[i]);
        }
        lemma_joined_is_uncut(fewer, separator, cut);
    }
}

/// The pieces of `text` between the occurrences of `separator`.
pub fn split_char(text: &str, separator: char) -> (parts: Vec<String>)
    ensures
        texts(parts@) == split_at_char(text@, separator),
        parts@.len() > 0,
{
    let ghost cut = only(separator);
    let mut parts: Vec<String> = Vec::new();
    let mut current = String::new();
    assert(texts(parts@).push(current@) == pieces(text@.take(0), cut));
    for c in it: text.chars()
        invariant
            it.seq() == text@,
            cut == only(separator),
            texts(parts@).push(current@) == pieces(text@.take(it.index() as int), cut),
    {
        let ghost before = texts(parts@);
        proof {
            lemma_pieces_step(text@, cut, it.index() as int);
            assert(before.push(current@).drop_last() == before);
        }
        if c == separator {
            parts.push(current);
            assert(texts(parts@) == before.push(parts@.last()@));
            current = String::new();
        } else {
            current.push(c);
        }
    }
    assert(text@.take(text@.len() as int) == text@);
    let ghost before = texts(parts@);
    parts.push(current);
    assert(texts(parts@) == before.push(parts@.last()@));
    parts
}

/// What filtering makes of one item more.
pub proof fn lemma_filter_push<A>(items: Seq<A>, item: A, keep: spec_fn(A) -> bool)
    ensures
        items.push(item).filter(keep) == if keep(item) {
            items.filter(keep).push(item)
        } else {
            items.filter(keep)
        },
{
    reveal(Seq::filter);
    assert(items.push(item).drop_last() == items);
}

/// The lines of `text`.
pub fn lines(text: &str) -> (lines: Vec<String>)
    ensures
        texts(lines@) == lines_of(text@),
{
    let parts = split_char(text, '\n');
    let ghost all = split_at_char(text@, '\n');
    let ended: usize = parts.len() - 1;
    let mut lines: Vec<String> = Vec::new();
    for i in 0..ended
        invariant
            ended == parts@.len() - 1,
            texts(parts@) == all,
            texts(lines@) == all.take(i as int).map_values(
                |line: Seq<char>| without_carriage_return(line),
            ),
    {
        let chars = chars_of(parts[i].as_str());
        assert(all[i as int] == parts@[i as int]@);
        let ghost before = texts(lines@);
        let count: usize = chars.len();
        let line = if count > 0 && chars[count - 1] == '\r' {
            assert(chars@.drop_last() == chars@.subrange(0, count - 1));
            string_of(&chars, 0, count - 1)
        } else {
            assert(chars@ == chars@.subrange(0, count as int));
            string_of(&chars, 0, count)
        };
        lines.push(line);
        assert(texts(lines@) == before.push(without_carriage_return(all[i as int])));
        assert(all.take(i + 1) == all.take(i as int).push(all[i as int]));
        assert(texts(lines@) == all.take(i + 1).map_values(
            |line: Seq<char>| without_carriage_return(line),
        ));
    }
    assert(all.drop_last() == all.take(ended as int));
    let last = parts[ended].clone();
    assert(all.last() == last@);
    let ghost before = texts(lines@);
    if !last.as_str().is_empty() {
        lines.push(last);
        assert(texts(lines@) == before.push(last@));
    }
    lines
}

/// The words of `text`, with one blank between each two.
pub fn squeeze(text: &str) -> (words: String)
    ensures
        words@ == joined(words_of(text@), seq![' ']),
{
    let ghost cut = white_space();
    let ghost keep = not_empty();
    let mut words: Vec<String> = Vec::new();
    let mut current = String::new();
    assert(pieces(text@.take(0), cut) == seq![Seq::<char>::empty()]);
    assert(pieces(text@.take(0), cut).drop_last() == Seq::<Seq<char>>::empty());
    reveal(Seq::filter);
    for c in it: text.chars()
        invariant
            it.seq() == text@,
            cut == white_space(),
            keep == not_empty(),
            pieces(text@.take(it.index() as int), cut).len() > 0,
            current@ == pieces(text@.take(it.index() as int), cut).last(),
            texts(words@) == pieces(text@.take(it.index() as int), cut).drop_last().filter(keep),
    {
        let ghost before = texts(words@);
        let ghost parts = pieces(text@.take(it.index() as int), cut);
        proof {
            lemma_pieces_step(text@, cut, it.index() as int);
            lemma_filter_push(parts.drop_last(), parts.last(), keep);
            assert(parts.drop_last().push(parts.last()) == parts);
            assert(parts.push(Seq::<char>::empty()).drop_last() == parts);
            assert(parts.drop_last().push(parts.last().push(c)).drop_last() == parts.drop_last());
        }
        if is_space(c) {
            if !current.as_str().is_empty() {
                words.push(current);
                assert(texts(words@) == before.push(parts.last()));
            }
            current = String::new();
        } else {
            current.push(c);
        }
    }
    assert(text@.take(text@.len() as int) == text@);
    let ghost parts = pieces(text@, cut);
    let ghost before = texts(words@);
    proof {
        lemma_filter_push(parts.drop_last(), parts.last(), keep);
        assert(parts.drop_last().push(parts.last()) == parts);
    }
    if !current.as_str().is_empty() {
        words.push(current);
        assert(texts(words@) == before.push(parts.last()));
    }
    proof {
        reveal_strlit(" ");
        assert(" "@ == seq![' ']);
    }
    join(&words, " ")
}

/// The strings of `parts`, one after the other, with `separator` between them.
pub fn join(parts: &Vec<String>, separator: &str) -> (text: String)
    ensures
        text@ == joined(texts(parts@), separator@),
{
    let ghost all = texts(parts@);
    let mut text = String::new();
    for i in 0..parts.len()
        invariant
            all == texts(parts@),
            text@ == joined(all.take(i as int), separator@),
    {
        if i > 0 {
            text.append(separator);
        }
        text.append(parts[i].as_str());
        assert(all.take(i + 1).drop_last() == all.take(i as int));
        assert(all.take(i + 1).last() == parts@[i as int]@);
    }
    assert(all.take(all.len() as int) == all);
    text
}

// ---- prefixes, cuts and columns -----------------------------------------------

/// True if `text` begins with `prefix`.
pub fn starts_with(text: &str, prefix: &str) -> (yes: bool)
    ensures
        yes == begins_with(text@, prefix@),
{
    let chars = chars_of(text);
    let wanted = chars_of(prefix);
    if wanted.len() > chars.len() {
        return false;
    }
    for i in 0..wanted.len()
        invariant
            wanted@.len() <= chars@.len(),
            wanted@ == prefix@,
            chars@ == text@,
            forall|j: int| 0 <= j < i ==> wanted@[j] == chars@[j],
    {
        if wanted[i] != chars[i] {
            assert(text@.take(prefix@.len() as int)[i as int] != prefix@[i as int]);
            return false;
        }
    }
    assert(text@.take(prefix@.len() as int) == prefix@);
    true
}

/// The first `count` characters of `text`, or all of it where it is shorter.
pub fn first_chars(text: &str, count: usize) -> (start: String)
    ensures
        start@ == head(text@, count as nat),
{
    let chars = chars_of(text);
    if chars.len() <= count {
        assert(chars@.subrange(0, chars@.len() as int) == chars@);
        string_of(&chars, 0, chars.len())
    } else {
        string_of(&chars, 0, count)
    }
}

/// The first eight characters of an identifier.
pub fn short_id(id: &str) -> (short: String)
    ensures
        short@ == head(id@, 8),
{
    first_chars(id, 8)
}

/// `text` cut to at most `max` characters, the last of them an ellipsis
/// where something was cut. The ellipsis itself is kept where `max` is zero.
pub fn truncate(text: &str, max: usize) -> (short: String)
    ensures
        short@ == truncated(text@, max as nat),
{
    let chars = chars_of(text);
    if chars.len() <= max {
        assert(chars@.subrange(0, chars@.len() as int) == chars@);
        string_of(&chars, 0, chars.len())
    } else {
        let keep: usize = if max == 0 {
            0
        } else {
            max - 1
        };
        let mut short = string_of(&chars, 0, keep);
        short.push('…');
        assert(short@ == truncated(text@, max as nat));
        short
    }
}

/// `count` times the character `c`.
pub fn repeat_char(c: char, count: usize) -> (text: String)
    ensures
        text@ == repeated(c, count as nat),
{
    let mut text = String::new();
    for i in 0..count
        invariant
            text@ == repeated(c, i as nat),
    {
        text.push(c);
        assert(repeated(c, (i + 1) as nat) == repeated(c, i as nat).push(c));
    }
    text
}

/// How many characters `text` lacks to be `width` wide.
fn blanks_missing(text: &str, width: usize) -> (count: usize)
    ensures
        count == missing(text@, width as nat),
{
    let length: usize = chars_of(text).len();
    if length < width {
        width - length
    } else {
        0
    }
}

/// `text` filled up with blanks at its end.
pub fn pad_end(text: &str, width: usize) -> (padded: String)
    ensures
        padded@ == left_aligned(text@, width as nat),
{
    let blanks = repeat_char(' ', blanks_missing(text, width));
    let mut padded = String::new();
    padded.append(text);
    padded.append(blanks.as_str());
    padded
}

/// `text` filled up with blanks at its front.
pub fn pad_start(text: &str, width: usize) -> (padded: String)
    ensures
        padded@ == right_aligned(text@, width as nat),
{
    let mut padded = repeat_char(' ', blanks_missing(text, width));
    padded.append(text);
    padded
}

// ---- numbers ------------------------------------------------------------------

/// The character for a number below ten.
pub fn digit(d: u8) -> (c: char)
    requires
        d < 10,
    ensures
        c == digit_char(d as nat),
{
    (48u8 + d) as char
}

/// The decimal notation of `n`.
pub fn decimal_text(n: u64) -> (text: String)
    ensures
        text@ == decimal(n as nat),
    decreases n,
{
    if n < 10 {
        let mut text = String::new();
        text.push(digit(n as u8));
        assert(text@ == seq![digit_char(n as nat)]);
        text
    } else {
        let mut text = decimal_text(n / 10);
        text.push(digit((n % 10) as u8));
        text
    }
}

/// The decimal notation of `n`, with a zero before it where it has one digit.
pub fn two_digit_text(n: u64) -> (text: String)
    ensures
        text@ == two_digits(n as nat),
{
    let mut text = String::new();
    if n < 10 {
        text.push('0');
    }
    let digits = decimal_text(n);
    text.append(digits.as_str());
    assert(text@ == two_digits(n as nat));
    text
}

/// The number that the digits `chars[from..]` stand for, up to `limit`.
fn parse_digits(chars: &Vec<char>, from: usize, limit: u64) -> (number: Option<u64>)
    requires
        from <= chars@.len(),
        9 <= limit,
    ensures
        match natural(chars@.skip(from as int)) {
            Some(n) => number == if n <= limit {
                Some(n as u64)
            } else {
                None
            },
            None => number is None,
        },
{
    let ghost digits = chars@.skip(from as int);
    if from == chars.len() {
        return None;
    }
    let mut number: u64 = 0;
    let mut fits: bool = true;
    let mut i: usize = from;
    while i < chars.len()
        invariant
            from <= i <= chars@.len(),
            9 <= limit,
            digits == chars@.skip(from as int),
            forall|j: int| 0 <= j < i - from ==> is_digit(#[trigger] digits[j]),
            fits ==> number <= limit && number == digits_value(digits.take(i - from)),
            !fits ==> digits_value(digits.take(i - from)) > limit,
        decreases chars@.len() - i,
    {
        let c = chars[i];
        assert(digits[i - from] == c);
        if !('0' <= c && c <= '9') {
            return None;
        }
        proof {
            let done = digits.take(i - from + 1);
            assert(done.drop_last() == digits.take(i - from));
            assert(digits_value(done) == digits_value(digits.take(i - from)) * 10 + (c as nat
                - '0' as nat));
        }
        if fits {
            let d: u64 = (c as u32 - '0' as u32) as u64;
            if number > (limit - d) / 10 {
                fits = false;
            } else {
                number = number * 10 + d;
            }
        }
        i += 1;
    }
    assert(digits.take(i - from) == digits);
    if fits {
        Some(number)
    } else {
        None
    }
}

/// The number in `text`, in unsigned notation, where it fits.
pub fn parse_u64(text: &str) -> (number: Option<u64>)
    ensures
        number == match unsigned_number(text@) {
            Some(n) => if n <= u64::MAX {
                Some(n as u64)
            } else {
                None
            },
            None => None,
        },
{
    let chars = chars_of(text);
    if chars.len() > 0 && chars[0] == '+' {
        assert(chars@.skip(1) == chars@.drop_first());
        parse_digits(&chars, 1, u64::MAX)
    } else {
        assert(chars@.skip(0) == chars@);
        parse_digits(&chars, 0, u64::MAX)
    }
}

/// The number in `text`, in signed notation, where it fits.
pub fn parse_i64(text: &str) -> (number: Option<i64>)
    ensures
        number == match signed_number(text@) {
            Some(n) => if i64::MIN <= n <= i64::MAX {
                Some(n as i64)
            } else {
                None
            },
            None => None,
        },
{
    let chars = chars_of(text);
    let magnitude: Option<u64> = if chars.len() > 0 && chars[0] == '-' {
        assert(chars@.skip(1) == chars@.drop_first());
        parse_digits(&chars, 1, 0x8000_0000_0000_0000)
    } else {
        parse_u64(text)
    };
    match magnitude {
        None => None,
        Some(n) => {
            if chars[0] == '-' {
                Some((-(n as i128)) as i64)
            } else if n <= 0x7fff_ffff_ffff_ffff {
                Some(n as i64)
            } else {
                None
            }
        },
    }
}

// ---- paths --------------------------------------------------------------------

/// The components of a `/`-separated path.
pub fn components(path: &str) -> (parts: Vec<String>)
    ensures
        texts(parts@) == path_components(path@),
{
    let pieces = split_char(path, '/');
    let ghost all = split_at_char(path@, '/');
    let mut parts: Vec<String> = Vec::new();
    proof {
        reveal(Seq::filter);
        reveal_strlit(".");
        assert("."@ == seq!['.']);
        assert(all.take(0).filter(names_something()) == Seq::<Seq<char>>::empty());
    }
    for i in 0..pieces.len()
        invariant
            all == texts(pieces@),
            "."@ == seq!['.'],
            texts(parts@) == all.take(i as int).filter(names_something()),
    {
        let ghost before = texts(parts@);
        proof {
            lemma_filter_push(all.take(i as int), all[i as int], names_something());
            assert(all.take(i + 1) == all.take(i as int).push(all[i as int]));
            assert(all[i as int] == pieces@[i as int]@);
        }
        if !pieces[i].as_str().is_empty() && !same_text(pieces[i].as_str(), ".") {
            let part = pieces[i].clone();
            parts.push(part);
            assert(texts(parts@) == before.push(part@));
        }
    }
    assert(all.take(all.len() as int) == all);
    parts
}

/// The last component of a path, unless it is missing or names the parent.
pub fn file_name(path: &str) -> (name: Option<String>)
    ensures
        match name {
            Some(name) => last_component(path@) == Some(name@),
            None => last_component(path@) is None,
        },
{
    let parts = components(path);
    let ghost all = path_components(path@);
    proof {
        reveal_strlit("..");
        assert(".."@ == seq!['.', '.']);
    }
    let count: usize = parts.len();
    assert(count == all.len());
    if count == 0 {
        return None;
    }
    let last = parts[count - 1].clone();
    assert(all.last() == last@);
    if same_text(last.as_str(), "..") {
        None
    } else {
        Some(last)
    }
}

// ---- alphabetical order -------------------------------------------------------

/// True if `a` comes before `b` alphabetically, character by character.
pub open spec fn text_before(a: Seq<char>, b: Seq<char>) -> bool
    decreases a.len(),
{
    if b.len() == 0 {
        false
    } else if a.len() == 0 {
        true
    } else if a[0] != b[0] {
        a[0] < b[0]
    } else {
        text_before(a.drop_first(), b.drop_first())
    }
}

/// The alphabetical order is strict and total.
pub proof fn text_order_laws(a: Seq<char>, b: Seq<char>, c: Seq<char>)
    ensures
        !text_before(a, a),
        text_before(a, b) ==> !text_before(b, a),
        text_before(a, b) && text_before(b, c) ==> text_before(a, c),
        a == b || text_before(a, b) || text_before(b, a),
    decreases a.len() + b.len() + c.len(),
{
    if a.len() > 0 && b.len() > 0 && c.len() > 0 {
        text_order_laws(a.drop_first(), b.drop_first(), c.drop_first());
        if a[0] == b[0] && a.drop_first() == b.drop_first() {
            assert(a == seq![a[0]] + a.drop_first());
            assert(b == seq![b[0]] + b.drop_first());
        }
    } else if a.len() > 0 && b.len() > 0 {
        text_order_laws(a.drop_first(), b.drop_first(), c);
        if a[0] == b[0] && a.drop_first() == b.drop_first() {
            assert(a == seq![a[0]] + a.drop_first());
            assert(b == seq![b[0]] + b.drop_first());
        }
    } else if a.len() > 0 {
        text_order_laws(a.drop_first(), b, c);
    } else if b.len() == 0 {
        assert(a == b);
    }
}

/// True if `a` comes before `b` alphabetically.
pub fn sorts_before_text(a: &str, b: &str) -> (yes: bool)
    ensures
        yes == text_before(a@, b@),
{
    let left = chars_of(a);
    let right = chars_of(b);
    let mut i: usize = 0;
    assert(left@.skip(0) == left@);
    assert(right@.skip(0) == right@);
    while i < left.len() && i < right.len()
        invariant
            left@ == a@,
            right@ == b@,
            i <= left@.len(),
            i <= right@.len(),
            text_before(left@, right@) == text_before(left@.skip(i as int), right@.skip(i as int)),
        decreases left@.len() - i,
    {
        assert(left@.skip(i as int)[0] == left@[i as int]);
        assert(right@.skip(i as int)[0] == right@[i as int]);
        assert(left@.skip(i as int).drop_first() == left@.skip(i + 1));
        assert(right@.skip(i as int).drop_first() == right@.skip(i + 1));
        if left[i] != right[i] {
            return left[i] < right[i];
        }
        i += 1;
    }
    i < right.len()
}

// ---- laws ---------------------------------------------------------------------

/// A text that is cut has exactly the length to which it is cut (but for the
/// ellipsis that stays where that is zero), and cutting it once more changes
/// nothing.
pub proof fn truncation_is_short(text: Seq<char>, max: nat)
    ensures
        truncated(text, max).len() <= if max == 0 {
            1
        } else {
            max
        },
        text.len() > max > 0 ==> truncated(text, max).len() == max,
        truncated(truncated(text, max), max) == truncated(text, max),
{
}

/// A text that is filled up is as wide as asked, unless it was wider before.
pub proof fn alignment_fills_the_column(text: Seq<char>, width: nat)
    ensures
        text.len() <= width ==> left_aligned(text, width).len() == width,
        text.len() <= width ==> right_aligned(text, width).len() == width,
        text.len() > width ==> left_aligned(text, width) == text,
        text.len() > width ==> right_aligned(text, width) == text,
{
    assert(repeated(' ', 0) == Seq::<char>::empty());
    assert(text + Seq::<char>::empty() == text);
    assert(Seq::<char>::empty() + text == text);
}

/// The decimal notation of a number, with its sign where it is negative.
pub open spec fn signed_decimal(n: int) -> Seq<char> {
    if n < 0 {
        seq!['-'] + decimal((-n) as nat)
    } else {
        decimal(n as nat)
    }
}

/// A number that was printed reads back as it was.
pub proof fn printed_numbers_read_back(n: nat, signed: int)
    ensures
        unsigned_number(decimal(n)) == Some(n),
        signed_number(signed_decimal(signed)) == Some(signed),
{
    lemma_decimal_digits(n);
    if signed < 0 {
        lemma_decimal_digits((-signed) as nat);
        assert(signed_decimal(signed).drop_first() == decimal((-signed) as nat));
    } else {
        lemma_decimal_digits(signed as nat);
        assert(is_digit(decimal(signed as nat)[0]));
    }
    assert(is_digit(decimal(n)[0]));
}

/// The decimal notation of a number consists of digits.
pub proof fn lemma_decimal_digits(n: nat)
    ensures
        decimal(n).len() > 0,
        all_digits(decimal(n)),
        digits_value(decimal(n)) == n,
    decreases n,
{
    if n < 10 {
        assert(decimal(n).drop_last() == Seq::<char>::empty());
        assert(digits_value(Seq::<char>::empty()) == 0);
    } else {
        lemma_decimal_digits(n / 10);
        let front = decimal(n / 10);
        assert(decimal(n).drop_last() == front);
        assert forall|i: int| 0 <= i < decimal(n).len() implies is_digit(
            #[trigger] decimal(n)[i],
        ) by {
            if i < front.len() {
                assert(decimal(n)[i] == front[i]);
            }
        }
    }
}


/// True if there is nothing but white space in the text.
pub open spec fn is_blank(text: Seq<char>) -> bool {
    forall|i: int| 0 <= i < text.len() ==> is_white_space(#[trigger] text[i])
}

/// Trimming takes off the white space around a text, and nothing of the text.
pub proof fn trimming_takes_off_white_space(before: Seq<char>, inner: Seq<char>, after: Seq<char>)
    requires
        is_blank(before),
        is_blank(after),
        inner.len() > 0 ==> !is_white_space(inner[0]) && !is_white_space(inner.last()),
    ensures
        trimmed(before + inner + after) == inner,
{
    assert(before + inner + after == before + (inner + after));
    lemma_trim_start(before, inner + after);
    if inner.len() == 0 {
        assert(inner + after == after + Seq::<char>::empty());
        lemma_trim_start(after, Seq::empty());
        assert(trimmed(before + inner + after) == inner);
    } else {
        assert((inner + after)[0] == inner[0]);
        lemma_trim_end(inner, after);
    }
}

proof fn lemma_trim_start(before: Seq<char>, text: Seq<char>)
    requires
        is_blank(before),
    ensures
        trim_start(before + text) == trim_start(text),
    decreases before.len(),
{
    if before.len() == 0 {
        assert(before + text == text);
    } else {
        assert(is_white_space(before[0]));
        let rest = before.drop_first();
        assert forall|i: int| 0 <= i < rest.len() implies is_white_space(#[trigger] rest[i]) by {
            assert(rest[i] == before[i + 1]);
        }
        lemma_trim_start(rest, text);
        assert((before + text).drop_first() == rest + text);
    }
}

proof fn lemma_trim_end(text: Seq<char>, after: Seq<char>)
    requires
        is_blank(after),
    ensures
        trim_end(text + after) == trim_end(text),
    decreases after.len(),
{
    if after.len() == 0 {
        assert(text + after == text);
    } else {
        assert(is_white_space(after[after.len() - 1]));
        let rest = after.drop_last();
        assert forall|i: int| 0 <= i < rest.len() implies is_white_space(#[trigger] rest[i]) by {
            assert(rest[i] == after[i]);
        }
        lemma_trim_end(text, rest);
        assert((text + after).drop_last() == text + rest);
    }
}

/// The start of a text is what it begins with, whatever follows.
pub proof fn heads_are_prefixes(start: Seq<char>, rest: Seq<char>, more: nat)
    ensures
        head(start + rest, start.len()) == start,
        head(start, start.len() + more) == start,
        begins_with(start + rest, start),
{
    assert((start + rest).take(start.len() as int) == start);
}

/// A text begins with a prefix exactly if it is the prefix and something more.
pub proof fn prefixes_leave_a_rest(text: Seq<char>, prefix: Seq<char>)
    ensures
        begins_with(text, prefix) <==> exists|rest: Seq<char>| #[trigger] (prefix + rest) == text,
{
    if begins_with(text, prefix) {
        assert(prefix + text.skip(prefix.len() as int) == text);
    }
    assert forall|rest: Seq<char>| #[trigger] (prefix + rest) == text implies begins_with(
        text,
        prefix,
    ) by {
        heads_are_prefixes(prefix, rest, 0);
    }
}

/// A text that is too long keeps all characters but those for which there is no
/// room beside the ellipsis; a text that fits is kept whole.
pub proof fn truncation_keeps_the_start(kept: Seq<char>, more: Seq<char>, room: nat)
    requires
        more.len() >= 2,
    ensures
        truncated(kept + more, kept.len() + 1) == kept.push('…'),
        truncated(kept, kept.len() + room) == kept,
{
    assert((kept + more).take(kept.len() as int) == kept);
}

/// The columns that are filled up begin, or end, with their text; the rest is
/// blanks.
pub proof fn alignment_adds_blanks_only(text: Seq<char>, blanks: nat)
    ensures
        left_aligned(text, text.len() + blanks) == text + Seq::new(blanks, |i: int| ' '),
        right_aligned(text, text.len() + blanks) == Seq::new(blanks, |i: int| ' ') + text,
{
    assert(repeated(' ', blanks) == Seq::new(blanks, |i: int| ' '));
}

/// A number below a hundred takes two digits that stand for it.
pub proof fn two_digits_stand_for_the_number(n: nat)
    requires
        n < 100,
    ensures
        two_digits(n).len() == 2,
        all_digits(two_digits(n)),
        digits_value(two_digits(n)) == n,
{
    lemma_decimal_digits(n);
    let text = two_digits(n);
    if n < 10 {
        assert(text.drop_last() == seq!['0']);
        assert(seq!['0'].drop_last() == Seq::<char>::empty());
        assert(digits_value(Seq::<char>::empty()) == 0);
        assert(seq!['0'].last() == '0');
        assert(digits_value(seq!['0']) == 0);
    } else {
        lemma_decimal_digits(n / 10);
        assert(decimal(n / 10).len() == 1);
    }
}

/// White space ends a word and begins none; what stands behind white space,
/// without any in it, is a word of its own.
pub proof fn words_stand_between_white_space(text: Seq<char>, gap: char, word: Seq<char>)
    requires
        is_white_space(gap),
        word.len() > 0,
        uncut(word, white_space()),
    ensures
        words_of(text.push(gap)) == words_of(text),
        words_of(text.push(gap) + word) == words_of(text).push(word),
        words_of(word) == seq![word],
{
    let cut = white_space();
    let keep = not_empty();
    let parts = pieces(text, cut);
    assert(text.push(gap).drop_last() == text);
    lemma_filter_push(parts, Seq::<char>::empty(), keep);
    lemma_last_piece(text, gap, word, cut);
    lemma_filter_push(parts, word, keep);
    lemma_one_piece(word, cut);
    lemma_filter_push(Seq::<Seq<char>>::empty(), word, keep);
    assert(Seq::<Seq<char>>::empty().push(word) == seq![word]);
    reveal(Seq::filter);
    assert(Seq::<Seq<char>>::empty().filter(keep) == Seq::<Seq<char>>::empty());
}

/// A line is what stands before a line feed, with or without a carriage return
/// before it; the last line may go without one. `text` is what stands before
/// the line.
pub proof fn lines_end_in_line_feeds(text: Seq<char>, line: Seq<char>)
    requires
        text.len() == 0 || text.last() == '\n',
        uncut(line, only('\n')),
        line.len() > 0 ==> line.last() != '\r',
    ensures
        lines_of(text + line.push('\n')) == lines_of(text).push(line),
        lines_of(text + line.push('\r').push('\n')) == lines_of(text).push(line),
        line.len() > 0 ==> lines_of(text + line) == lines_of(text).push(line),
        lines_of(Seq::empty()) == Seq::<Seq<char>>::empty(),
{
    let returned = line.push('\r');
    assert forall|i: int| 0 <= i < returned.len() implies !only('\n')(
        #[trigger] returned[i],
    ) by {
        if i < line.len() {
            assert(returned[i] == line[i]);
        }
    }
    lemma_lines_after(text, line);
    lemma_lines_after(text, returned);
    assert(returned.drop_last() == line);
    lemma_one_piece(Seq::<char>::empty(), only('\n'));
    assert(pieces(Seq::<char>::empty(), only('\n')).drop_last() == Seq::<Seq<char>>::empty());
    assert(lines_of(Seq::empty()) == Seq::<Seq<char>>::empty());
}

proof fn lemma_lines_after(text: Seq<char>, line: Seq<char>)
    requires
        text.len() == 0 || text.last() == '\n',
        uncut(line, only('\n')),
    ensures
        lines_of(text + line.push('\n')) == lines_of(text).push(without_carriage_return(line)),
        line.len() > 0 ==> lines_of(text + line) == lines_of(text).push(line),
{
    let cut = only('\n');
    let strip = |line: Seq<char>| without_carriage_return(line);
    let earlier = if text.len() == 0 {
        Seq::<Seq<char>>::empty()
    } else {
        pieces(text.drop_last(), cut)
    };
    if text.len() == 0 {
        assert(text + line == line);
        lemma_one_piece(line, cut);
        assert(pieces(text, cut) == seq![Seq::<char>::empty()]);
    } else {
        assert(text.drop_last().push('\n') == text);
        lemma_last_piece(text.drop_last(), '\n', line, cut);
    }
    assert(pieces(text, cut) == earlier.push(Seq::<char>::empty()));
    assert(pieces(text + line, cut) == earlier.push(line));
    assert((text + line.push('\n')).drop_last() == text + line);
    assert(pieces(text + line.push('\n'), cut) == earlier.push(line).push(Seq::<char>::empty()));
    assert(earlier.push(Seq::<char>::empty()).drop_last() == earlier);
    assert(earlier.push(line).drop_last() == earlier);
    assert(earlier.push(line).push(Seq::<char>::empty()).drop_last() == earlier.push(line));
    assert(earlier.push(line).map_values(strip) == earlier.map_values(strip).push(strip(line)));
    assert(lines_of(text) == earlier.map_values(strip));
}

/// Texts compare by their first difference; a text comes before what it begins.
pub proof fn the_first_difference_decides(
    shared: Seq<char>,
    a: char,
    b: char,
    rest: Seq<char>,
    other: Seq<char>,
)
    requires
        a < b,
    ensures
        text_before(shared.push(a) + rest, shared.push(b) + other),
        text_before(shared, shared.push(a) + rest),
    decreases shared.len(),
{
    let x = shared.push(a) + rest;
    let y = shared.push(b) + other;
    if shared.len() > 0 {
        let fewer = shared.drop_first();
        the_first_difference_decides(fewer, a, b, rest, other);
        assert(x.drop_first() == fewer.push(a) + rest);
        assert(y.drop_first() == fewer.push(b) + other);
        assert(x[0] == shared[0]);
        assert(y[0] == shared[0]);
    } else {
        assert(x[0] == a);
        assert(y[0] == b);
    }
}

/// The last component of a path is the name behind its last slash.
pub proof fn files_are_named_behind_the_last_slash(dir: Seq<char>, name: Seq<char>)
    requires
        name.len() > 0,
        uncut(name, only('/')),
        name != seq!['.'],
    ensures
        path_components(dir.push('/') + name) == path_components(dir).push(name),
        path_components(name) == seq![name],
        name != seq!['.', '.'] ==> last_component(dir.push('/') + name) == Some(name),
        name != seq!['.', '.'] ==> last_component(name) == Some(name),
{
    let cut = only('/');
    let keep = names_something();
    lemma_last_piece(dir, '/', name, cut);
    lemma_filter_push(pieces(dir, cut), name, keep);
    lemma_one_piece(name, cut);
    lemma_filter_push(Seq::<Seq<char>>::empty(), name, keep);
    assert(Seq::<Seq<char>>::empty().push(name) == seq![name]);
    reveal(Seq::filter);
    assert(Seq::<Seq<char>>::empty().filter(keep) == Seq::<Seq<char>>::empty());
}

/// A list that is joined holds its items in their order, with the separator
/// between each two.
pub proof fn joining_appends(parts: Seq<Seq<char>>, part: Seq<char>, separator: Seq<char>)
    ensures
        joined(seq![part], separator) == part,
        parts.len() > 0 ==> joined(parts.push(part), separator) == joined(parts, separator)
            + separator + part,
{
    assert(parts.push(part).drop_last() == parts);
}

/// The decimal notation grows by one digit for each factor of ten, and has no
/// zero in front but for zero itself; digits stand for numbers the same way.
pub proof fn numbers_grow_by_digits(n: nat, d: nat, digits: Seq<char>, c: char)
    requires
        d < 10,
        '0' <= c <= '9',
    ensures
        decimal(d).len() == 1 && decimal(d)[0] as int == 0x30 + d,
        n > 0 ==> decimal(10 * n + d) == decimal(n).push(decimal(d)[0]),
        n > 0 ==> decimal(n)[0] != '0',
        digits_value(Seq::empty()) == 0,
        digits_value(digits.push(c)) == 10 * digits_value(digits) + (c as int - 0x30),
    decreases n,
{
    assert(digits.push(c).drop_last() == digits);
    if n > 0 {
        assert((10 * n + d) / 10 == n);
        assert((10 * n + d) % 10 == d);
        if n >= 10 {
            numbers_grow_by_digits(n / 10, d, digits, c);
            lemma_decimal_digits(n / 10);
        }
    }
}

/// A number may have a plus sign, a signed one a minus sign; nothing and texts
/// with anything but digits are no numbers.
pub proof fn numbers_are_digits_with_a_sign(n: nat, before: Seq<char>, c: char, after: Seq<char>)
    requires
        !('0' <= c <= '9'),
    ensures
        unsigned_number(seq!['+'] + decimal(n)) == Some(n),
        unsigned_number(seq!['-'] + decimal(n)) is None,
        signed_number(seq!['+'] + decimal(n)) == Some(n as int),
        signed_number(seq!['-'] + decimal(n)) == Some(-n),
        unsigned_number(Seq::empty()) is None,
        signed_number(Seq::empty()) is None,
        before.len() > 0 ==> unsigned_number(before + (seq![c] + after)) is None,
        before.len() > 0 ==> signed_number(before + (seq![c] + after)) is None,
        c != '+' ==> unsigned_number(seq![c] + after) is None,
{
    lemma_decimal_digits(n);
    assert((seq!['+'] + decimal(n)).drop_first() == decimal(n));
    assert((seq!['-'] + decimal(n)).drop_first() == decimal(n));
    assert(!is_digit((seq!['-'] + decimal(n))[0]));
    let text = before + (seq![c] + after);
    if before.len() > 0 {
        assert(text[before.len() as int] == c);
        assert(text.drop_first()[before.len() - 1] == c);
        assert(!is_digit(text[before.len() as int]));
        assert(!is_digit(text.drop_first()[before.len() - 1]));
    }
    assert(!is_digit((seq![c] + after)[0]));
}

/// White space is what Unicode says: the blank, the controls from the tab to the
/// carriage return, and the spaces and separators beyond ASCII.
pub proof fn white_space_by_its_code(c: char)
    ensures
        is_white_space(c) <==> {
            let code = c as int;
            ||| code == 0x20
            ||| 9 <= code <= 13
            ||| code == 0x85
            ||| code == 0xa0
            ||| code == 0x1680
            ||| 0x2000 <= code <= 0x200a
            ||| code == 0x2028
            ||| code == 0x2029
            ||| code == 0x202f
            ||| code == 0x205f
            ||| code == 0x3000
        },
{
}

/// Slashes in a row, and components that stand for the directory itself, do not
/// matter; the parent of a directory names no file.
pub proof fn empty_components_do_not_matter(dir: Seq<char>)
    ensures
        path_components(dir.push('/')) == path_components(dir),
        path_components(dir.push('/').push('.')) == path_components(dir),
        last_component(dir.push('/')) == last_component(dir),
        last_component(dir.push('/') + seq!['.', '.']) is None,
{
    let cut = only('/');
    let keep = names_something();
    let here = seq!['.'];
    let up = seq!['.', '.'];
    lemma_last_piece(dir, '/', Seq::empty(), cut);
    lemma_filter_push(pieces(dir, cut), Seq::empty(), keep);
    assert(dir.push('/') + Seq::<char>::empty() == dir.push('/'));
    assert(uncut(here, cut));
    lemma_last_piece(dir, '/', here, cut);
    lemma_filter_push(pieces(dir, cut), here, keep);
    assert(dir.push('/') + here == dir.push('/').push('.'));
    assert(uncut(up, cut));
    assert(up.len() == 2 && here.len() == 1);
    files_are_named_behind_the_last_slash(dir, up);
    assert(path_components(dir).push(up).last() == up);
}

} // verus!
