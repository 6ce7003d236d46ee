//! Text primitives over sequences of characters.

use vstd::prelude::*;
use vstd::utf8::{decode_utf8, valid_utf8};

verus! {

/// `String::push`: appends the character at the end of the string.
pub assume_specification[ String::push ](string: &mut String, ch: char)
    ensures
        final(string)@ == old(string)@.push(ch),
;

/// What `String::from_utf8_lossy` makes of bytes that are not valid UTF-8: each
/// ill-formed run becomes a replacement character.
pub uninterp spec fn replaced_text(bytes: Seq<u8>) -> Seq<char>;

/// The text of a byte string, with ill-formed runs replaced.
pub open spec fn lossy_text(bytes: Seq<u8>) -> Seq<char> {
    if valid_utf8(bytes) {
        decode_utf8(bytes)
    } else {
        replaced_text(bytes)
    }
}

/// Calls `String::from_utf8_lossy`: bytes that are valid UTF-8 come back as the text
/// they encode, and the text for any others depends on the bytes alone.
#[verifier::external_body]
pub(crate) fn utf8_lossy(bytes: &[u8]) -> (text: String)
    ensures
        valid_utf8(bytes@) ==> text@ == decode_utf8(bytes@),
        !valid_utf8(bytes@) ==> text@ == replaced_text(bytes@),
{
    String::from_utf8_lossy(bytes).into_owned()
}

/// The lower-case form of an ASCII letter; every other character is its own.
pub open spec fn ascii_lower_char(c: char) -> char {
    if 'A' <= c <= 'Z' {
        ((c as u32) + 32) as char
    } else {
        c
    }
}

/// Every character in its ASCII lower-case form.
pub open spec fn ascii_lower(text: Seq<char>) -> Seq<char> {
    text.map_values(|c: char| ascii_lower_char(c))
}

/// The text without the longest run of `mark` at its end.
pub open spec fn trim_end_mark(text: Seq<char>, mark: char) -> Seq<char>
    decreases text.len(),
{
    if text.len() > 0 && text.last() == mark {
        trim_end_mark(text.drop_last(), mark)
    } else {
        text
    }
}

/// The text with every backslash turned into a slash.
pub open spec fn forward_slashes(text: Seq<char>) -> Seq<char> {
    text.map_values(
        |c: char|
            if c == '\\' {
                '/'
            } else {
                c
            },
    )
}

/// Whether a character has the Unicode property `White_Space`.
pub open spec fn is_space(c: char) -> bool {
    ||| 0x09 <= c as u32 <= 0x0d
    ||| c as u32 == 0x20
    ||| c as u32 == 0x85
    ||| c as u32 == 0xa0
    ||| c as u32 == 0x1680
    ||| 0x2000 <= c as u32 <= 0x200a
    ||| 0x2028 <= c as u32 <= 0x2029
    ||| c as u32 == 0x202f
    ||| c as u32 == 0x205f
    ||| c as u32 == 0x3000
}

/// Whether a text holds nothing but white space.
pub open spec fn is_blank(text: Seq<char>) -> bool {
    forall|i: int| 0 <= i < text.len() ==> is_space(#[trigger] text[i])
}

/// The text without the white space at its end.
pub open spec fn trim_end_space(text: Seq<char>) -> Seq<char>
    decreases text.len(),
{
    if text.len() > 0 && is_space(text.last()) {
        trim_end_space(text.drop_last())
    } else {
        text
    }
}

/// The text without the white space at its start.
pub open spec fn trim_start_space(text: Seq<char>) -> Seq<char>
    decreases text.len(),
{
    if text.len() > 0 && is_space(text.first()) {
        trim_start_space(text.drop_first())
    } else {
        text
    }
}

/// The text without the white space at either end.
pub open spec fn trim_space(text: Seq<char>) -> Seq<char> {
    trim_start_space(trim_end_space(text))
}

/// The pieces of a text between the marks, in order; there is one more piece than
/// there are marks.
pub open spec fn split_text(text: Seq<char>, mark: char) -> Seq<Seq<char>>
    decreases text.len(),
{
    if text.len() == 0 {
        seq![seq![]]
    } else {
        let before = split_text(text.drop_last(), mark);
        if text.last() == mark {
            before.push(seq![])
        } else {
            before.drop_last().push(before.last().push(text.last()))
        }
    }
}

/// A split text has at least one piece.
pub proof fn lemma_split_nonempty(text: Seq<char>, mark: char)
    ensures
        split_text(text, mark).len() > 0,
    decreases text.len(),
{
    if text.len() > 0 {
        lemma_split_nonempty(text.drop_last(), mark);
    }
}

/// The texts that a vector of strings holds.
pub open spec fn texts_of(strings: Seq<String>) -> Seq<Seq<char>> {
    strings.map_values(|string: String| string@)
}

/// The characters of a string.
pub fn chars_of(text: &str) -> (chars: Vec<char>)
    ensures
        chars@ == text@,
{
    let mut chars: Vec<char> = Vec::new();
    for c in it: text.chars()
        invariant
            it.seq() == text@,
            chars@ == text@.take(it.index() as int),
    {
        chars.push(c);
    }
    chars
}

/// The ASCII lower-case form of one character.
pub fn lower_char(c: char) -> (lower: char)
    ensures
        lower == ascii_lower_char(c),
{
    if 'A' <= c && c <= 'Z' {
        ((c as u8) + 32) as char
    } else {
        c
    }
}

/// The text in its ASCII lower-case form.
pub fn lowercase(text: &str) -> (lower: String)
    ensures
        lower@ == ascii_lower(text@),
{
    let mut lower = String::new();
    for c in it: text.chars()
        invariant
            it.seq() == text@,
            lower@ == ascii_lower(text@.take(it.index() as int)),
    {
        let ghost done = it.index();
        lower.push(lower_char(c));
        assert(text@.take(done + 1) == text@.take(done as int).push(c));
        assert(lower@ == ascii_lower(text@.take(done + 1)));
    }
    assert(text@.take(text@.len() as int) == text@);
    lower
}

/// The text with every backslash turned into a slash.
pub fn with_forward_slashes(text: &str) -> (slashed: String)
    ensures
        slashed@ == forward_slashes(text@),
{
    let mut slashed = String::new();
    for c in it: text.chars()
        invariant
            it.seq() == text@,
            slashed@ == forward_slashes(text@.take(it.index() as int)),
    {
        let ghost done = it.index();
        slashed.push(
            if c == '\\' {
                '/'
            } else {
                c
            },
        );
        assert(text@.take(done + 1) == text@.take(done as int).push(c));
        assert(slashed@ == forward_slashes(text@.take(done + 1)));
    }
    assert(text@.take(text@.len() as int) == text@);
    slashed
}

/// The characters from `start` up to `end`, as a string.
pub fn sub_text(chars: &[char], start: usize, end: usize) -> (part: String)
    requires
        start <= end <= chars@.len(),
    ensures
        part@ == chars@.subrange(start as int, end as int),
{
    let mut part = String::new();
    for i in start..end
        invariant
            start <= i <= end <= chars@.len(),
            part@ == chars@.subrange(start as int, i as int),
    {
        part.push(chars[i]);
    }
    part
}

/// The text without the longest run of `mark` at its end.
pub fn trim_end_matches(text: &str, mark: char) -> (trimmed: String)
    ensures
        trimmed@ == trim_end_mark(text@, mark),
{
    let chars = chars_of(text);
    let mut end: usize = chars.len();
    assert(text@.take(end as int) == text@);
    while end > 0 && chars[end - 1] == mark
        invariant
            chars@ == text@,
            end <= chars@.len(),
            trim_end_mark(text@.take(end as int), mark) == trim_end_mark(text@, mark),
        decreases end,
    {
        assert(text@.take(end as int).drop_last() == text@.take(end - 1));
        end -= 1;
    }
    assert(text@.take(end as int) == text@.subrange(0, end as int));
    sub_text(chars.as_slice(), 0, end)
}

/// Whether a character has the Unicode property `White_Space`.
pub fn is_whitespace(c: char) -> (yes: bool)
    ensures
        yes == is_space(c),
{
    let code = c as u32;
    0x09 <= code && code <= 0x0d || code == 0x20 || code == 0x85 || code == 0xa0 || code == 0x1680
        || 0x2000 <= code && code <= 0x200a || 0x2028 <= code && code <= 0x2029 || code == 0x202f
        || code == 0x205f || code == 0x3000
}

/// Whether a text holds nothing but white space.
pub fn blank(text: &str) -> (yes: bool)
    ensures
        yes == is_blank(text@),
{
    let chars = chars_of(text);
    for i in 0..chars.len()
        invariant
            chars@ == text@,
            forall|j: int| 0 <= j < i ==> is_space(#[trigger] text@[j]),
    {
        if !is_whitespace(chars[i]) {
            assert(!is_space(text@[i as int]));
            return false;
        }
    }
    true
}

/// The text without the white space at either end.
pub fn trim(text: &str) -> (trimmed: String)
    ensures
        trimmed@ == trim_space(text@),
{
    let chars = chars_of(text);
    let mut end: usize = chars.len();
    assert(text@.take(end as int) == text@);
    while end > 0 && is_whitespace(chars[end - 1])
        invariant
            chars@ == text@,
            end <= chars@.len(),
            trim_end_space(text@.take(end as int)) == trim_end_space(text@),
        decreases end,
    {
        assert(text@.take(end as int).drop_last() == text@.take(end - 1));
        end -= 1;
    }
    let ghost kept = trim_end_space(text@);
    assert(kept == text@.subrange(0, end as int));
    let mut start: usize = 0;
    while start < end && is_whitespace(chars[start])
        invariant
            chars@ == text@,
            start <= end <= chars@.len(),
            kept == text@.subrange(0, end as int),
            trim_start_space(text@.subrange(start as int, end as int)) == trim_start_space(kept),
        decreases end - start,
    {
        assert(text@.subrange(start as int, end as int).drop_first() == text@.subrange(
            start + 1,
            end as int,
        ));
        start += 1;
    }
    sub_text(chars.as_slice(), start, end)
}

/// The pieces of a text between the marks, in order.
pub fn split(text: &str, mark: char) -> (pieces: Vec<String>)
    ensures
        texts_of(pieces@) == split_text(text@, mark),
{
    let chars = chars_of(text);
    let mut pieces: Vec<String> = Vec::new();
    let mut current = String::new();
    assert(texts_of(pieces@).push(current@) == split_text(text@.take(0), mark));
    for i in 0..chars.len()
        invariant
            chars@ == text@,
            texts_of(pieces@).push(current@) == split_text(text@.take(i as int), mark),
    {
        let ghost before = texts_of(pieces@);
        let ghost last = current@;
        proof {
            assert(text@.take(i + 1).drop_last() == text@.take(i as int));
            assert(before.push(last).drop_last() == before);
            assert(before.push(last).last() == last);
        }
        if chars[i] == mark {
            pieces.push(current);
            current = String::new();
            assert(texts_of(pieces@) == before.push(last));
        } else {
            current.push(chars[i]);
        }
    }
    assert(text@.take(text@.len() as int) == text@);
    let ghost before = texts_of(pieces@);
    pieces.push(current);
    assert(texts_of(pieces@) == before.push(current@));
    pieces
}

/// Whether the text ends with the suffix.
pub fn ends_with(text: &str, suffix: &str) -> (yes: bool)
    ensures
        yes == suffix@.is_suffix_of(text@),
{
    let chars = chars_of(text);
    let tail = chars_of(suffix);
    if tail.len() > chars.len() {
        return false;
    }
    let start: usize = chars.len() - tail.len();
    same_chars_from(chars.as_slice(), start, tail.as_slice())
}

/// Whether the characters from `start` on begin with `expected`.
pub fn same_chars_from(chars: &[char], start: usize, expected: &[char]) -> (same: bool)
    requires
        start + expected@.len() <= chars@.len(),
    ensures
        same == (chars@.subrange(start as int, start + expected@.len()) == expected@),
{
    let total: usize = chars.len();
    let ghost window = chars@.subrange(start as int, start + expected@.len());
    for i in 0..expected.len()
        invariant
            start + expected@.len() <= chars@.len() == total,
            window == chars@.subrange(start as int, start + expected@.len()),
            forall|j: int| 0 <= j < i ==> #[trigger] window[j] == expected@[j],
    {
        if chars[start + i] != expected[i] {
            assert(window[i as int] != expected@[i as int]);
            return false;
        }
        assert(window[i as int] == expected@[i as int]);
    }
    assert(window =~= expected@);
    true
}

/// Whether two texts are the same.
pub fn same_text(left: &str, right: &str) -> (same: bool)
    ensures
        same == (left@ == right@),
{
    let left_chars = chars_of(left);
    let right_chars = chars_of(right);
    if left_chars.len() != right_chars.len() {
        return false;
    }
    assert(left@.subrange(0, right@.len() as int) == left@);
    same_chars_from(left_chars.as_slice(), 0, right_chars.as_slice())
}

/// In lower case, the letters from `A` to `Z` are those from `a` to `z`, and every other
/// character is itself; no backslash stays where slashes are turned, and nothing else
/// changes.
pub proof fn law_characters_change_one_by_one(text: Seq<char>, i: int)
    requires
        0 <= i < text.len(),
    ensures
        ascii_lower(text).len() == text.len(),
        'A' <= text[i] <= 'Z' ==> ascii_lower(text)[i] as u32 == text[i] as u32 + 32,
        !('A' <= text[i] <= 'Z') ==> ascii_lower(text)[i] == text[i],
        forward_slashes(text).len() == text.len(),
        text[i] == '\\' ==> forward_slashes(text)[i] == '/',
        text[i] != '\\' ==> forward_slashes(text)[i] == text[i],
{
}

/// Marks at the end of a text are trimmed, as many as there are, and nothing else.
pub proof fn law_trimmed_marks(text: Seq<char>, marks: Seq<char>, mark: char)
    requires
        forall|i: int| 0 <= i < marks.len() ==> #[trigger] marks[i] == mark,
        text.len() > 0 ==> text.last() != mark,
    ensures
        trim_end_mark(text + marks, mark) == text,
    decreases marks.len(),
{
    if marks.len() == 0 {
        assert(text + marks =~= text);
    } else {
        assert((text + marks).last() == marks[marks.len() - 1]);
        assert((text + marks).drop_last() =~= text + marks.drop_last());
        law_trimmed_marks(text, marks.drop_last(), mark);
    }
}

/// A text that the mark is not in is one piece, and what follows a mark is one more.
pub proof fn law_split_pieces(text: Seq<char>, piece: Seq<char>, mark: char)
    requires
        !piece.contains(mark),
    ensures
        split_text(piece, mark) == seq![piece],
        split_text(text.push(mark) + piece, mark) == split_text(text, mark).push(piece),
    decreases piece.len(),
{
    let none = Seq::<Seq<char>>::empty();
    let before = split_text(text, mark);
    if piece.len() == 0 {
        assert(text.push(mark) + piece =~= text.push(mark));
        assert(text.push(mark).drop_last() =~= text);
        assert(piece =~= Seq::<char>::empty());
        assert(split_text(piece, mark) =~= seq![piece]);
    } else {
        let front = piece.drop_last();
        assert(!front.contains(mark)) by {
            if front.contains(mark) {
                let i = choose|i: int| 0 <= i < front.len() && front[i] == mark;
                assert(piece[i] == mark);
            }
        }
        law_split_pieces(text, front, mark);
        assert(piece.contains(piece[piece.len() - 1]));
        assert((text.push(mark) + piece).drop_last() =~= text.push(mark) + front);
        assert((text.push(mark) + piece).last() == piece.last());
        assert(before.push(front).drop_last() =~= before);
        assert(front.push(piece.last()) =~= piece);
        assert(seq![front].drop_last() =~= none);
        assert(none.push(piece) =~= seq![piece]);
    }
}

/// White space at the ends of a text is trimmed, as much as there is, and nothing else;
/// a text that is white space alone is trimmed to nothing.
pub proof fn law_trimmed_space(before: Seq<char>, text: Seq<char>, after: Seq<char>)
    requires
        is_blank(before),
        is_blank(after),
        text.len() > 0 ==> !is_space(text[0]) && !is_space(text.last()),
    ensures
        trim_space(before + text + after) == text,
        is_blank(before + after),
        trim_space(before + after).len() == 0,
{
    lemma_trim_after(before + text, after);
    if text.len() > 0 {
        assert((before + text).last() == text.last());
        assert(trim_end_space(before + text) =~= before + text);
        lemma_trim_before(before, text);
    } else {
        assert(before + text =~= before);
        lemma_trim_all(before);
    }
    assert forall|i: int| 0 <= i < (before + after).len() implies is_space(
        #[trigger] (before + after)[i],
    ) by {
        if i < before.len() {
            assert((before + after)[i] == before[i]);
        } else {
            assert((before + after)[i] == after[i - before.len()]);
        }
    }
    lemma_trim_all(before + after);
}

/// White space at the end goes first.
proof fn lemma_trim_after(text: Seq<char>, after: Seq<char>)
    requires
        is_blank(after),
    ensures
        trim_end_space(text + after) == trim_end_space(text),
    decreases after.len(),
{
    if after.len() == 0 {
        assert(text + after =~= text);
    } else {
        assert(is_space(after[after.len() - 1]));
        assert((text + after).last() == after[after.len() - 1]);
        assert((text + after).drop_last() =~= text + after.drop_last());
        lemma_trim_after(text, after.drop_last());
    }
}

/// White space at the start goes up to the first other character.
proof fn lemma_trim_before(before: Seq<char>, text: Seq<char>)
    requires
        is_blank(before),
        text.len() > 0,
        !is_space(text[0]),
    ensures
        trim_start_space(before + text) == text,
    decreases before.len(),
{
    if before.len() == 0 {
        assert(before + text =~= text);
    } else {
        assert(is_space(before[0]));
        assert((before + text).first() == before[0]);
        assert((before + text).drop_first() =~= before.drop_first() + text);
        assert forall|i: int| 0 <= i < before.drop_first().len() implies is_space(
            #[trigger] before.drop_first()[i],
        ) by {
            assert(before.drop_first()[i] == before[i + 1]);
        }
        lemma_trim_before(before.drop_first(), text);
    }
}

/// Nothing stays of white space.
proof fn lemma_trim_all(text: Seq<char>)
    requires
        is_blank(text),
    ensures
        trim_end_space(text).len() == 0,
        trim_space(text).len() == 0,
    decreases text.len(),
{
    if text.len() > 0 {
        assert(is_space(text[text.len() - 1]));
        lemma_trim_all(text.drop_last());
    }
}

} // verus!
