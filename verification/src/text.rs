//! Text as sequences of characters: lines, words and prefixes.
use vstd::prelude::*;

verus! {

/// `String::push` appends a character to the end of a string.
pub assume_specification[ String::push ](s: &mut String, c: char)
    ensures
        final(s)@ == old(s)@.push(c),
;

/// The characters of `s`.
pub fn chars_of(s: &str) -> (chars: Vec<char>)
    ensures
        chars@ == s@,
{
    let mut chars: Vec<char> = Vec::new();
    for c in iter: s.chars()
        invariant
            chars@ == s@.take(iter.index() as int),
            iter.seq() == s@,
    {
        chars.push(c);
        assert(s@.take(iter.index() + 1) =~= s@.take(iter.index() as int).push(c));
    }
    assert(s@.take(s@.len() as int) =~= s@);
    chars
}

/// The string with the characters of `chars`.
pub fn string_of(chars: &[char]) -> (s: String)
    ensures
        s@ == chars@,
{
    let mut s: String = String::new();
    let mut i: usize = 0;
    while i < chars.len()
        invariant
            i <= chars@.len(),
            s@ == chars@.take(i as int),
        decreases chars.len() - i,
    {
        s.push(chars[i]);
        i += 1;
        assert(chars@.take(i as int) =~= chars@.take(i - 1).push(chars@[i - 1]));
    }
    assert(chars@.take(i as int) =~= chars@);
    s
}

/// The characters from `from`, inclusive, to `to`, exclusive.
pub fn slice_of(chars: &[char], from: usize, to: usize) -> (part: Vec<char>)
    requires
        from <= to <= chars@.len(),
    ensures
        part@ == chars@.subrange(from as int, to as int),
{
    let mut part: Vec<char> = Vec::new();
    let mut i: usize = from;
    while i < to
        invariant
            from <= i <= to <= chars@.len(),
            part@ == chars@.subrange(from as int, i as int),
        decreases to - i,
    {
        part.push(chars[i]);
        i += 1;
        assert(chars@.subrange(from as int, i as int) =~= chars@.subrange(
            from as int,
            i - 1,
        ).push(chars@[i - 1]));
    }
    part
}

/// The two sequences are equal.
pub fn same_chars(a: &[char], b: &[char]) -> (same: bool)
    ensures
        same == (a@ == b@),
{
    if a.len() != b.len() {
        return false;
    }
    let mut i: usize = 0;
    while i < a.len()
        invariant
            i <= a@.len() == b@.len(),
            forall|j: int| 0 <= j < i ==> a@[j] == b@[j],
        decreases a.len() - i,
    {
        if a[i] != b[i] {
            return false;
        }
        i += 1;
    }
    assert(a@ =~= b@);
    true
}

/// The characters are those of the string.
pub fn is_text(chars: &[char], text: &str) -> (same: bool)
    ensures
        same == (chars@ == text@),
{
    let text_chars: Vec<char> = chars_of(text);
    same_chars(chars, text_chars.as_slice())
}

/// `text` begins with `prefix`.
pub open spec fn starts_with(text: Seq<char>, prefix: Seq<char>) -> bool {
    prefix.len() <= text.len() && text.take(prefix.len() as int) == prefix
}

/// What follows `prefix` in `text`, if `text` begins with it.
pub open spec fn after_prefix(text: Seq<char>, prefix: Seq<char>) -> Option<Seq<char>> {
    if starts_with(text, prefix) {
        Some(text.skip(prefix.len() as int))
    } else {
        None
    }
}

/// `part` stands in `text` at `place`.
pub open spec fn stands_at(text: Seq<char>, part: Seq<char>, place: int) -> bool {
    0 <= place <= text.len() && starts_with(text.skip(place), part)
}

/// The first place of `part` in `text`, if there is one.
pub open spec fn first_place(text: Seq<char>, part: Seq<char>) -> Option<int> {
    if exists|i: int| stands_at(text, part, i) {
        Some(
            choose|i: int|
                stands_at(text, part, i) && forall|j: int| 0 <= j < i ==> !stands_at(text, part, j),
        )
    } else {
        None
    }
}

/// What stands before and after the first place of `part` in `text`.
pub open spec fn split_at_first(text: Seq<char>, part: Seq<char>) -> Option<
    (Seq<char>, Seq<char>),
> {
    match first_place(text, part) {
        Some(place) => Some((text.take(place), text.skip(place + part.len()))),
        None => None,
    }
}

proof fn lemma_first_place(text: Seq<char>, part: Seq<char>, place: int)
    requires
        stands_at(text, part, place),
        forall|j: int| 0 <= j < place ==> !stands_at(text, part, j),
    ensures
        first_place(text, part) == Some(place),
{
    let found = choose|i: int|
        stands_at(text, part, i) && forall|j: int| 0 <= j < i ==> !stands_at(text, part, j);
    assert(stands_at(text, part, found) && forall|j: int|
        0 <= j < found ==> !stands_at(text, part, j));
    if found < place {
        assert(!stands_at(text, part, found));
    } else if place < found {
        assert(!stands_at(text, part, place));
    }
}

fn part_stands_at(text: &[char], part: &[char], place: usize) -> (stands: bool)
    requires
        place <= text@.len(),
    ensures
        stands == stands_at(text@, part@, place as int),
{
    if part.len() > text.len() - place {
        return false;
    }
    let ghost tail = text@.skip(place as int);
    let mut i: usize = 0;
    while i < part.len()
        invariant
            i <= part@.len(),
            place + part.len() <= text.len(),
            tail == text@.skip(place as int),
            forall|j: int| 0 <= j < i ==> tail[j] == part@[j],
        decreases part.len() - i,
    {
        if text[place + i] != part[i] {
            assert(tail[i as int] != part@[i as int]);
            assert(tail.take(part@.len() as int)[i as int] == tail[i as int]);
            return false;
        }
        i += 1;
    }
    assert(tail.take(part@.len() as int) =~= part@);
    true
}

/// What follows `prefix` in `text`, if `text` begins with it.
pub fn strip_prefix(text: &[char], prefix: &str) -> (rest: Option<Vec<char>>)
    ensures
        match rest {
            Some(rest) => after_prefix(text@, prefix@) == Some(rest@),
            None => after_prefix(text@, prefix@) is None,
        },
{
    let prefix_chars: Vec<char> = chars_of(prefix);
    assert(text@.skip(0) =~= text@);
    if part_stands_at(text, prefix_chars.as_slice(), 0) {
        let rest: Vec<char> = slice_of(text, prefix_chars.len(), text.len());
        assert(rest@ =~= text@.skip(prefix@.len() as int));
        Some(rest)
    } else {
        None
    }
}

/// `text` begins with `prefix`.
pub fn has_prefix(text: &[char], prefix: &str) -> (begins: bool)
    ensures
        begins == starts_with(text@, prefix@),
{
    let prefix_chars: Vec<char> = chars_of(prefix);
    assert(text@.skip(0) =~= text@);
    part_stands_at(text, prefix_chars.as_slice(), 0)
}

/// What stands before and after the first place of `part` in `text`.
pub fn split_once(text: &[char], part: &str) -> (halves: Option<(Vec<char>, Vec<char>)>)
    ensures
        match halves {
            Some((before, after)) => split_at_first(text@, part@) == Some((before@, after@)),
            None => split_at_first(text@, part@) is None,
        },
{
    let part_chars: Vec<char> = chars_of(part);
    let mut place: usize = 0;
    while place <= text.len()
        invariant
            part_chars@ == part@,
            place <= text@.len() + 1,
            forall|j: int| 0 <= j < place ==> !stands_at(text@, part@, j),
        decreases text.len() + 1 - place,
    {
        if part_stands_at(text, part_chars.as_slice(), place) {
            proof {
                lemma_first_place(text@, part@, place as int);
            }
            let before: Vec<char> = slice_of(text, 0, place);
            let after: Vec<char> = slice_of(text, place + part_chars.len(), text.len());
            assert(before@ =~= text@.take(place as int));
            assert(after@ =~= text@.skip(place + part@.len()));
            return Some((before, after));
        }
        if place == text.len() {
            assert forall|i: int| !stands_at(text@, part@, i) by {}
            return None;
        }
        place += 1;
    }
    None
}

/// `c` is white space by the Unicode property of that name.
pub open spec fn is_space(c: char) -> bool {
    ||| '\u{9}' <= c <= '\u{d}'
    ||| c == '\u{20}'
    ||| c == '\u{85}'
    ||| c == '\u{a0}'
    ||| c == '\u{1680}'
    ||| '\u{2000}' <= c <= '\u{200a}'
    ||| c == '\u{2028}'
    ||| c == '\u{2029}'
    ||| c == '\u{202f}'
    ||| c == '\u{205f}'
    ||| c == '\u{3000}'
}

/// `c` is white space.
pub fn is_white_space(c: char) -> (space: bool)
    ensures
        space == is_space(c),
{
    ('\u{9}' <= c && c <= '\u{d}') || c == '\u{20}' || c == '\u{85}' || c == '\u{a0}' || c
        == '\u{1680}' || ('\u{2000}' <= c && c <= '\u{200a}') || c == '\u{2028}' || c == '\u{2029}'
        || c == '\u{202f}' || c == '\u{205f}' || c == '\u{3000}'
}

/// The text without white space at its start.
pub open spec fn trim_start(text: Seq<char>) -> Seq<char>
    decreases text.len(),
{
    if text.len() > 0 && is_space(text[0]) {
        trim_start(text.skip(1))
    } else {
        text
    }
}

/// The text without white space at its end.
pub open spec fn trim_end(text: Seq<char>) -> Seq<char>
    decreases text.len(),
{
    if text.len() > 0 && is_space(text.last()) {
        trim_end(text.drop_last())
    } else {
        text
    }
}

/// The text without white space at its start and end.
pub open spec fn trimmed(text: Seq<char>) -> Seq<char> {
    trim_end(trim_start(text))
}

/// The text without white space at its start and end.
pub fn trim(text: &[char]) -> (result: Vec<char>)
    ensures
        result@ == trimmed(text@),
{
    let mut from: usize = 0;
    assert(text@.skip(0) =~= text@);
    while from < text.len() && is_white_space(text[from])
        invariant
            from <= text@.len(),
            trim_start(text@.skip(from as int)) == trim_start(text@),
        decreases text.len() - from,
    {
        assert(text@.skip(from as int).skip(1) =~= text@.skip(from + 1));
        from += 1;
    }
    let mut to: usize = text.len();
    let ghost started = text@.skip(from as int);
    assert(trim_start(text@) == started);
    assert(text@.subrange(from as int, to as int) =~= started);
    while to > from && is_white_space(text[to - 1])
        invariant
            from <= to <= text@.len(),
            trim_end(text@.subrange(from as int, to as int)) == trim_end(started),
        decreases to,
    {
        assert(text@.subrange(from as int, to as int).drop_last() =~= text@.subrange(
            from as int,
            to - 1,
        ));
        to -= 1;
    }
    slice_of(text, from, to)
}

/// How many characters stand before the first white space.
pub open spec fn word_len(text: Seq<char>) -> nat
    decreases text.len(),
{
    if text.len() == 0 || is_space(text[0]) {
        0
    } else {
        1 + word_len(text.skip(1))
    }
}

/// The words of the text: its longest parts without white space, in order.
pub open spec fn words(text: Seq<char>) -> Seq<Seq<char>>
    decreases text.len(),
{
    if text.len() == 0 {
        Seq::empty()
    } else if is_space(text[0]) {
        words(text.skip(1))
    } else {
        proof {
            lemma_word_is_within(text);
        }
        seq![text.take(word_len(text) as int)] + words(text.skip(word_len(text) as int))
    }
}

/// The first word ends within the text.
pub proof fn lemma_word_is_within(text: Seq<char>)
    ensures
        word_len(text) <= text.len(),
    decreases text.len(),
{
    if text.len() > 0 && !is_space(text[0]) {
        lemma_word_is_within(text.skip(1));
    }
}

/// The views of texts.
pub open spec fn texts(parts: Seq<Vec<char>>) -> Seq<Seq<char>> {
    Seq::new(parts.len(), |i: int| parts[i]@)
}

proof fn lemma_word_len(text: Seq<char>, n: int)
    requires
        0 <= n <= text.len(),
        forall|i: int| 0 <= i < n ==> !is_space(#[trigger] text[i]),
        n == text.len() || is_space(text[n]),
    ensures
        word_len(text) == n,
    decreases n,
{
    if n > 0 {
        assert(!is_space(text[0]));
        let rest = text.skip(1);
        assert forall|i: int| 0 <= i < n - 1 implies !is_space(#[trigger] rest[i]) by {
            assert(rest[i] == text[i + 1]);
        }
        lemma_word_len(rest, n - 1);
    }
}

/// The words of the text.
pub fn split_words(text: &[char]) -> (parts: Vec<Vec<char>>)
    ensures
        texts(parts@) == words(text@),
{
    let mut parts: Vec<Vec<char>> = Vec::new();
    let mut from: usize = 0;
    assert(text@.skip(0) =~= text@);
    assert(texts(parts@) + words(text@) =~= words(text@));
    while from < text.len()
        invariant
            from <= text@.len(),
            texts(parts@) + words(text@.skip(from as int)) == words(text@),
        decreases text.len() - from,
    {
        let ghost tail = text@.skip(from as int);
        if is_white_space(text[from]) {
            assert(tail.skip(1) =~= text@.skip(from + 1));
            from += 1;
        } else {
            let mut to: usize = from + 1;
            while to < text.len() && !is_white_space(text[to])
                invariant
                    from < to <= text@.len(),
                    forall|i: int| from <= i < to ==> !is_space(#[trigger] text@[i]),
                decreases text.len() - to,
            {
                to += 1;
            }
            proof {
                assert forall|i: int| 0 <= i < to - from implies !is_space(#[trigger] tail[i]) by {
                    assert(tail[i] == text@[from + i]);
                }
                lemma_word_len(tail, to - from);
                assert(tail.take(to - from) =~= text@.subrange(from as int, to as int));
                assert(tail.skip(to - from) =~= text@.skip(to as int));
            }
            let ghost before = texts(parts@);
            let word: Vec<char> = slice_of(text, from, to);
            parts.push(word);
            assert(texts(parts@) =~= before.push(word@));
            assert(texts(parts@) + words(text@.skip(to as int)) =~= before + words(tail));
            from = to;
        }
    }
    assert(words(text@.skip(from as int)) =~= Seq::<Seq<char>>::empty());
    assert(texts(parts@) =~= words(text@));
    parts
}

/// How many characters stand before the first line feed.
pub open spec fn line_len(text: Seq<char>) -> nat
    decreases text.len(),
{
    if text.len() == 0 || text[0] == '\n' {
        0
    } else {
        1 + line_len(text.skip(1))
    }
}

/// The line without a carriage return at its end.
pub open spec fn without_carriage_return(line: Seq<char>) -> Seq<char> {
    if line.len() > 0 && line.last() == '\r' {
        line.drop_last()
    } else {
        line
    }
}

/// The lines of the text, without their ends: a line feed, or a carriage return and a line feed.
/// The last line needs no end.
pub open spec fn lines(text: Seq<char>) -> Seq<Seq<char>>
    decreases text.len(),
{
    let n = line_len(text) as int;
    if text.len() == 0 {
        Seq::empty()
    } else if n >= text.len() {
        seq![text]
    } else {
        seq![without_carriage_return(text.take(n))] + lines(text.skip(n + 1))
    }
}

proof fn lemma_line_len(text: Seq<char>, n: int)
    requires
        0 <= n <= text.len(),
        forall|i: int| 0 <= i < n ==> #[trigger] text[i] != '\n',
        n == text.len() || text[n] == '\n',
    ensures
        line_len(text) == n,
    decreases n,
{
    if n > 0 {
        assert(text[0] != '\n');
        let rest = text.skip(1);
        assert forall|i: int| 0 <= i < n - 1 implies #[trigger] rest[i] != '\n' by {
            assert(rest[i] == text[i + 1]);
        }
        lemma_line_len(rest, n - 1);
    }
}

/// The lines of the text, without their ends.
pub fn split_lines(text: &[char]) -> (parts: Vec<Vec<char>>)
    ensures
        texts(parts@) == lines(text@),
{
    let mut parts: Vec<Vec<char>> = Vec::new();
    let mut from: usize = 0;
    assert(text@.skip(0) =~= text@);
    assert(texts(parts@) + lines(text@) =~= lines(text@));
    while from < text.len()
        invariant
            from <= text@.len(),
            texts(parts@) + lines(text@.skip(from as int)) == lines(text@),
        decreases text.len() - from,
    {
        let ghost tail = text@.skip(from as int);
        let mut to: usize = from;
        while to < text.len() && text[to] != '\n'
            invariant
                from <= to <= text@.len(),
                forall|i: int| from <= i < to ==> #[trigger] text@[i] != '\n',
            decreases text.len() - to,
        {
            to += 1;
        }
        proof {
            assert forall|i: int| 0 <= i < to - from implies #[trigger] tail[i] != '\n' by {
                assert(tail[i] == text@[from + i]);
            }
            assert(to < text@.len() ==> tail[to - from] == '\n');
            lemma_line_len(tail, to - from);
        }
        let ghost before = texts(parts@);
        if to == text.len() {
            let line: Vec<char> = slice_of(text, from, to);
            assert(line@ =~= tail);
            parts.push(line);
            assert(texts(parts@) =~= before.push(line@));
            assert(lines(text@.skip(to as int)) =~= Seq::<Seq<char>>::empty());
            assert(texts(parts@) + lines(text@.skip(to as int)) =~= before + lines(tail));
            from = to;
        } else {
            let mut end: usize = to;
            assert(tail.take(to - from) =~= text@.subrange(from as int, to as int));
            if end > from && text[end - 1] == '\r' {
                end -= 1;
                assert(tail.take(to - from).drop_last() =~= text@.subrange(
                    from as int,
                    end as int,
                ));
            }
            let line: Vec<char> = slice_of(text, from, end);
            assert(line@ == without_carriage_return(tail.take(to - from)));
            parts.push(line);
            assert(texts(parts@) =~= before.push(line@));
            assert(tail.skip(to - from + 1) =~= text@.skip(to + 1));
            assert(texts(parts@) + lines(text@.skip(to + 1)) =~= before + lines(tail));
            from = to + 1;
        }
    }
    assert(lines(text@.skip(from as int)) =~= Seq::<Seq<char>>::empty());
    assert(texts(parts@) =~= lines(text@));
    parts
}

/// The character, in lower case if it is an ASCII capital.
pub open spec fn lower_char(c: char) -> char {
    if 'A' <= c <= 'Z' {
        (c as u8 + 32) as char
    } else {
        c
    }
}

/// The text with its ASCII capitals in lower case.
pub open spec fn lowered(text: Seq<char>) -> Seq<char> {
    Seq::new(text.len(), |i: int| lower_char(text[i]))
}

fn lower(c: char) -> (low: char)
    ensures
        low == lower_char(c),
{
    if 'A' <= c && c <= 'Z' {
        (c as u8 + 32) as char
    } else {
        c
    }
}

/// The text with its ASCII capitals in lower case.
pub fn to_lower(text: &[char]) -> (low: Vec<char>)
    ensures
        low@ == lowered(text@),
{
    let mut low: Vec<char> = Vec::new();
    let mut i: usize = 0;
    while i < text.len()
        invariant
            i <= text@.len(),
            low@ == lowered(text@.take(i as int)),
        decreases text.len() - i,
    {
        low.push(lower(text[i]));
        i += 1;
        assert(low@ =~= lowered(text@.take(i as int)));
    }
    assert(text@.take(i as int) =~= text@);
    low
}

/// The texts are equal but for the case of ASCII letters.
pub fn same_ignoring_case(a: &[char], b: &[char]) -> (same: bool)
    ensures
        same == (lowered(a@) == lowered(b@)),
{
    if a.len() != b.len() {
        assert(lowered(a@).len() != lowered(b@).len());
        return false;
    }
    let mut i: usize = 0;
    while i < a.len()
        invariant
            i <= a@.len() == b@.len(),
            forall|j: int| 0 <= j < i ==> lower_char(a@[j]) == lower_char(b@[j]),
        decreases a.len() - i,
    {
        if lower(a[i]) != lower(b[i]) {
            assert(lowered(a@)[i as int] != lowered(b@)[i as int]);
            return false;
        }
        i += 1;
    }
    assert(lowered(a@) =~= lowered(b@));
    true
}

/// A decimal digit.
pub open spec fn digit_of(value: nat) -> char {
    (('0' as nat) + value) as char
}

/// A number in decimal digits, without leading zeros.
pub open spec fn decimal(number: nat) -> Seq<char>
    decreases number,
{
    if number < 10 {
        seq![digit_of(number)]
    } else {
        decimal(number / 10).push(digit_of(number % 10))
    }
}

fn digit(value: u64) -> (c: char)
    requires
        value < 10,
    ensures
        c == digit_of(value as nat),
{
    if value == 0 {
        '0'
    } else if value == 1 {
        '1'
    } else if value == 2 {
        '2'
    } else if value == 3 {
        '3'
    } else if value == 4 {
        '4'
    } else if value == 5 {
        '5'
    } else if value == 6 {
        '6'
    } else if value == 7 {
        '7'
    } else if value == 8 {
        '8'
    } else {
        '9'
    }
}

/// Appends a number in decimal digits.
pub fn push_decimal(chars: &mut Vec<char>, number: u64)
    ensures
        final(chars)@ == old(chars)@ + decimal(number as nat),
    decreases number,
{
    if number >= 10 {
        push_decimal(chars, number / 10);
    }
    chars.push(digit(number % 10));
    assert(chars@ =~= old(chars)@ + decimal(number as nat));
}

/// Appends a text.
pub fn push_text(chars: &mut Vec<char>, text: &str)
    ensures
        final(chars)@ == old(chars)@ + text@,
{
    let mut more: Vec<char> = chars_of(text);
    chars.append(&mut more);
}

/// What stands before a part that does not occur earlier, and what stands after it, is what a text
/// splits into at that part.
pub proof fn law_text_splits_at_the_first_place(
    before: Seq<char>,
    part: Seq<char>,
    after: Seq<char>,
)
    requires
        forall|j: int|
            0 <= j < before.len() ==> !((before + part + after).skip(j).take(
                part.len() as int,
            ) == part && j + part.len() <= (before + part + after).len()),
    ensures
        split_at_first(before + part + after, part) == Some((before, after)),
{
    let text = before + part + after;
    let place = before.len() as int;
    assert(text.skip(place).take(part.len() as int) =~= part);
    assert(stands_at(text, part, place));
    assert forall|j: int| 0 <= j < place implies !stands_at(text, part, j) by {
        if stands_at(text, part, j) {
            assert(text.skip(j).take(part.len() as int) == part);
        }
    }
    lemma_first_place(text, part, place);
    assert(text.take(place) =~= before);
    assert(text.skip(place + part.len()) =~= after);
}

/// A text splits at a single character where that character stands first.
pub proof fn law_text_splits_at_the_first_character(
    before: Seq<char>,
    c: char,
    after: Seq<char>,
)
    requires
        !before.contains(c),
    ensures
        split_at_first(before + seq![c] + after, seq![c]) == Some((before, after)),
{
    let text = before + seq![c] + after;
    assert forall|j: int| 0 <= j < before.len() implies !(text.skip(j).take(
        seq![c].len() as int,
    ) == seq![c] && j + seq![c].len() <= text.len()) by {
        if text.skip(j).take(1) == seq![c] {
            assert(text.skip(j).take(1)[0] == text[j]);
            assert(before[j] == c);
        }
    }
    law_text_splits_at_the_first_place(before, seq![c], after);
}

/// What a text splits into makes up the text again, and a text in which the part stands anywhere
/// does split.
pub proof fn law_split_text_is_put_together_again(text: Seq<char>, part: Seq<char>, place: int)
    ensures
        split_at_first(text, part) matches Some((before, after)) ==> text == before + part + after,
        0 <= place && place + part.len() <= text.len() && text.subrange(
            place,
            place + part.len(),
        ) == part ==> split_at_first(text, part) is Some,
{
    if 0 <= place && place + part.len() <= text.len() && text.subrange(place, place + part.len())
        == part {
        assert(text.skip(place).take(part.len() as int) =~= text.subrange(
            place,
            place + part.len(),
        ));
        assert(stands_at(text, part, place));
    }
    if exists|i: int| stands_at(text, part, i) {
        let i = choose|i: int| stands_at(text, part, i);
        let first = lemma_least_place(text, part, i);
        lemma_first_place(text, part, first);
        assert(text.skip(first).take(part.len() as int) == part);
        assert(text =~= text.take(first) + text.skip(first).take(part.len() as int) + text.skip(
            first + part.len(),
        ));
    }
}

proof fn lemma_least_place(text: Seq<char>, part: Seq<char>, place: int) -> (first: int)
    requires
        stands_at(text, part, place),
    ensures
        stands_at(text, part, first),
        forall|j: int| 0 <= j < first ==> !stands_at(text, part, j),
    decreases place,
{
    if exists|j: int| 0 <= j < place && stands_at(text, part, j) {
        let j = choose|j: int| 0 <= j < place && stands_at(text, part, j);
        lemma_least_place(text, part, j)
    } else {
        place
    }
}

/// What follows a prefix is what is put behind it, and a text that has the prefix is the prefix and
/// what follows it.
pub proof fn law_prefix_is_taken_off(prefix: Seq<char>, rest: Seq<char>, text: Seq<char>)
    ensures
        after_prefix(prefix + rest, prefix) == Some(rest),
        starts_with(prefix + rest, prefix),
        after_prefix(text, prefix) is Some <==> starts_with(text, prefix),
        after_prefix(text, prefix) matches Some(behind) ==> text == prefix + behind,
{
    assert((prefix + rest).take(prefix.len() as int) =~= prefix);
    assert((prefix + rest).skip(prefix.len() as int) =~= rest);
    if starts_with(text, prefix) {
        assert(text =~= text.take(prefix.len() as int) + text.skip(prefix.len() as int));
    }
}

/// White space is trimmed from both ends, and nothing else is.
pub proof fn law_only_outer_space_is_trimmed(
    before: Seq<char>,
    text: Seq<char>,
    after: Seq<char>,
)
    requires
        forall|i: int| 0 <= i < before.len() ==> is_space(#[trigger] before[i]),
        forall|i: int| 0 <= i < after.len() ==> is_space(#[trigger] after[i]),
        text.len() > 0,
        !is_space(text[0]),
        !is_space(text.last()),
    ensures
        trimmed(before + text + after) == text,
{
    lemma_trim_start(before, text + after);
    assert(before + text + after =~= before + (text + after));
    assert((text + after)[0] == text[0]);
    lemma_trim_end(text, after);
}

/// Nothing is left of a text of white space.
pub proof fn law_space_is_trimmed_away(text: Seq<char>)
    requires
        forall|i: int| 0 <= i < text.len() ==> is_space(#[trigger] text[i]),
    ensures
        trimmed(text).len() == 0,
{
    lemma_trim_start(text, Seq::empty());
    assert(text + Seq::<char>::empty() =~= text);
}

proof fn lemma_trim_start(before: Seq<char>, text: Seq<char>)
    requires
        forall|i: int| 0 <= i < before.len() ==> is_space(#[trigger] before[i]),
        text.len() == 0 || !is_space(text[0]),
    ensures
        trim_start(before + text) == text,
    decreases before.len(),
{
    if before.len() > 0 {
        assert(is_space(before[0]));
        assert((before + text)[0] == before[0]);
        assert((before + text).skip(1) =~= before.skip(1) + text);
        assert forall|i: int| 0 <= i < before.skip(1).len() implies is_space(
            #[trigger] before.skip(1)[i],
        ) by {
            assert(before.skip(1)[i] == before[i + 1]);
        }
        lemma_trim_start(before.skip(1), text);
    } else {
        assert(before + text =~= text);
    }
}

proof fn lemma_trim_end(text: Seq<char>, after: Seq<char>)
    requires
        forall|i: int| 0 <= i < after.len() ==> is_space(#[trigger] after[i]),
        text.len() == 0 || !is_space(text.last()),
    ensures
        trim_end(text + after) == text,
    decreases after.len(),
{
    if after.len() > 0 {
        assert(is_space(after[after.len() - 1]));
        assert((text + after).last() == after.last());
        assert((text + after).drop_last() =~= text + after.drop_last());
        lemma_trim_end(text, after.drop_last());
    } else {
        assert(text + after =~= text);
    }
}

/// The words of a text are parted by white space, however much of it.
pub proof fn law_words_are_parted_by_space(word: Seq<char>, space: char, rest: Seq<char>)
    requires
        word.len() > 0,
        forall|i: int| 0 <= i < word.len() ==> !is_space(#[trigger] word[i]),
        is_space(space),
    ensures
        words(seq![space] + rest) == words(rest),
        words(word) == seq![word],
        words(word + seq![space] + rest) == seq![word] + words(rest),
{
    reveal_with_fuel(words, 2);
    assert((seq![space] + rest).skip(1) =~= rest);
    assert((seq![space] + rest)[0] == space);
    lemma_word_len(word, word.len() as int);
    assert(!is_space(word[0]));
    assert(word.take(word.len() as int) =~= word);
    assert(word.skip(word.len() as int) =~= Seq::<char>::empty());
    assert(words(word) =~= seq![word]);
    let text = word + seq![space] + rest;
    assert forall|i: int| 0 <= i < word.len() implies !is_space(#[trigger] text[i]) by {
        assert(text[i] == word[i]);
    }
    assert(text[word.len() as int] == space);
    assert(text[0] == word[0]);
    lemma_word_len(text, word.len() as int);
    assert(text.take(word.len() as int) =~= word);
    assert(text.skip(word.len() as int) =~= seq![space] + rest);
}

/// A line ends at a line feed, or at a carriage return and a line feed, and what follows is split
/// into lines by itself. The last line needs no end.
pub proof fn law_lines_end_at_line_feeds(line: Seq<char>, rest: Seq<char>)
    requires
        !line.contains('\n'),
    ensures
        line.len() == 0 || line.last() != '\r' ==> lines(line + seq!['\n'] + rest) == seq![line]
            + lines(rest),
        lines(line + seq!['\r', '\n'] + rest) == seq![line] + lines(rest),
        line.len() > 0 ==> lines(line) == seq![line],
        lines(Seq::empty()).len() == 0,
{
    let plain = line + seq!['\n'] + rest;
    let n = line.len() as int;
    assert forall|i: int| 0 <= i < n implies #[trigger] plain[i] != '\n' by {
        assert(plain[i] == line[i]);
    }
    assert(plain[n] == '\n');
    lemma_line_len(plain, n);
    assert(plain.take(n) =~= line);
    assert(plain.skip(n + 1) =~= rest);
    let returned = line + seq!['\r', '\n'] + rest;
    assert forall|i: int| 0 <= i < n + 1 implies #[trigger] returned[i] != '\n' by {
        if i < n {
            assert(returned[i] == line[i]);
        } else {
            assert(returned[i] == '\r');
        }
    }
    assert(returned[n + 1] == '\n');
    lemma_line_len(returned, n + 1);
    assert(returned.take(n + 1) =~= line.push('\r'));
    assert(returned.take(n + 1).drop_last() =~= line);
    assert(returned.skip(n + 2) =~= rest);
    if n > 0 {
        assert forall|i: int| 0 <= i < n implies #[trigger] line[i] != '\n' by {
            assert(line.contains(line[i]));
        }
        lemma_line_len(line, n);
    }
}

/// ASCII capitals become the small letters at the same place of the alphabet, and every other
/// character stays.
pub proof fn law_capitals_become_small(text: Seq<char>, i: int)
    requires
        0 <= i < text.len(),
    ensures
        lowered(text).len() == text.len(),
        'A' <= text[i] <= 'Z' ==> lowered(text)[i] as u32 - 'a' as u32 == text[i] as u32
            - 'A' as u32,
        !('A' <= text[i] <= 'Z') ==> lowered(text)[i] == text[i],
        lowered(lowered(text)) == lowered(text),
{
    assert forall|c: char| #[trigger] lower_char(lower_char(c)) == lower_char(c) by {}
    assert(lowered(lowered(text)) =~= lowered(text));
}

/// The number that decimal digits stand for.
pub open spec fn number_of(digits: Seq<char>) -> int
    decreases digits.len(),
{
    if digits.len() == 0 {
        0
    } else {
        10 * number_of(digits.drop_last()) + (digits.last() as int - '0' as int)
    }
}

/// The decimal digits of a number stand for it, are digits, and begin with 0 only for 0 itself.
pub proof fn law_decimal_digits_stand_for_the_number(number: nat)
    ensures
        number_of(decimal(number)) == number,
        decimal(number).len() > 0,
        forall|i: int| 0 <= i < decimal(number).len() ==> '0' <= #[trigger] decimal(number)[i] <= '9',
        decimal(number)[0] == '0' <==> number == 0,
    decreases number,
{
    reveal_with_fuel(number_of, 2);
    if number >= 10 {
        law_decimal_digits_stand_for_the_number(number / 10);
        let front = decimal(number / 10);
        assert(decimal(number).drop_last() =~= front);
        assert(decimal(number)[0] == front[0]);
        assert forall|i: int| 0 <= i < decimal(number).len() implies '0'
            <= #[trigger] decimal(number)[i] <= '9' by {
            if i < front.len() {
                assert(decimal(number)[i] == front[i]);
            }
        }
    } else {
        assert(decimal(number).drop_last() =~= Seq::<char>::empty());
    }
}

} // verus!
