//! Text as sequences of characters: conversions, trimming and UTF-8 lengths.

use vstd::prelude::*;
use vstd::utf8::{encode_scalar, encode_utf8};

verus! {

/// `String::push` appends one character to the end of the text.
pub assume_specification[ String::push ](text: &mut String, character: char)
    ensures
        final(text)@ == old(text)@.push(character),
;

/// The characters with the Unicode `White_Space` property.
pub open spec fn is_space(c: char) -> bool {
    ||| '\u{9}' <= c <= '\u{d}'
    ||| c == ' '
    ||| c == '\u{85}'
    ||| c == '\u{a0}'
    ||| c == '\u{1680}'
    ||| '\u{2000}' <= c <= '\u{200a}'
    ||| c == '\u{2028}'
    ||| c == '\u{2029}'
    ||| c == '\u{202f}'
    ||| c == '\u{205f}'
    ||| c == '\u{3000}'
}

pub fn is_whitespace(c: char) -> (yes: bool)
    ensures
        yes == is_space(c),
{
    ('\u{9}' <= c && c <= '\u{d}') || c == ' ' || c == '\u{85}' || c == '\u{a0}' || c == '\u{1680}'
        || ('\u{2000}' <= c && c <= '\u{200a}') || c == '\u{2028}' || c == '\u{2029}' || c
        == '\u{202f}' || c == '\u{205f}' || c == '\u{3000}'
}

/// `s` without the spaces at its start.
pub open spec fn trim_start(s: Seq<char>) -> Seq<char>
    decreases s.len(),
{
    if s.len() > 0 && is_space(s[0]) {
        trim_start(s.subrange(1, s.len() as int))
    } else {
        s
    }
}

/// `s` without the spaces at its end.
pub open spec fn trim_end(s: Seq<char>) -> Seq<char>
    decreases s.len(),
{
    if s.len() > 0 && is_space(s[s.len() - 1]) {
        trim_end(s.subrange(0, s.len() - 1))
    } else {
        s
    }
}

/// `s` without the spaces at either end.
pub open spec fn trim(s: Seq<char>) -> Seq<char> {
    trim_end(trim_start(s))
}

/// The characters of a string, one by one.
pub fn chars_of(text: &str) -> (chars: Vec<char>)
    ensures
        chars@ == text@,
{
    let mut chars: Vec<char> = Vec::new();
    for c in it: text.chars()
        invariant
            chars@ == text@.take(it.index()),
            it.seq() == text@,
    {
        chars.push(c);
        assert(text@.take(it.index() + 1) == text@.take(it.index()).push(c));
    }
    assert(text@.take(text@.len() as int) == text@);
    chars
}

/// The string made of the characters in `chars`.
pub fn string_of(chars: &[char]) -> (text: String)
    ensures
        text@ == chars@,
{
    let mut text = String::new();
    let mut i: usize = 0;
    while i < chars.len()
        invariant
            i <= chars.len(),
            text@ == chars@.take(i as int),
        decreases chars.len() - i,
    {
        text.push(chars[i]);
        assert(chars@.take(i + 1) == chars@.take(i as int).push(chars@[i as int]));
        i += 1;
    }
    assert(chars@.take(chars@.len() as int) == chars@);
    text
}

/// The characters of `text` without the spaces at either end.
pub fn trimmed(text: &str) -> (chars: Vec<char>)
    ensures
        chars@ == trim(text@),
{
    let mut chars = chars_of(text);
    let ghost start = trim_start(text@);
    assert(chars@.subrange(0, chars@.len() as int) == text@);
    let mut skip: usize = 0;
    while skip < chars.len() && is_whitespace(chars[skip])
        invariant
            skip <= chars.len(),
            start == trim_start(chars@.subrange(skip as int, chars@.len() as int)),
        decreases chars.len() - skip,
    {
        let ghost rest = chars@.subrange(skip as int, chars@.len() as int);
        assert(rest.subrange(1, rest.len() as int) == chars@.subrange(
            skip + 1,
            chars@.len() as int,
        ));
        skip += 1;
    }
    let mut chars = chars.split_off(skip);
    assert(chars@ == start);
    while chars.len() > 0 && is_whitespace(chars[chars.len() - 1])
        invariant
            trim_end(start) == trim_end(chars@),
        decreases chars.len(),
    {
        let ghost before = chars@;
        chars.pop();
        assert(chars@ == before.subrange(0, before.len() - 1));
    }
    chars
}

/// The number of bytes that UTF-8 needs for a character.
pub open spec fn char_bytes(c: char) -> nat {
    if c <= '\u{7f}' {
        1
    } else if c <= '\u{7ff}' {
        2
    } else if c <= '\u{ffff}' {
        3
    } else {
        4
    }
}

/// The number of bytes that UTF-8 needs for a text.
pub open spec fn text_bytes(s: Seq<char>) -> nat
    decreases s.len(),
{
    if s.len() == 0 {
        0
    } else {
        text_bytes(s.drop_last()) + char_bytes(s.last())
    }
}

pub fn char_len(c: char) -> (len: usize)
    ensures
        len == char_bytes(c),
        1 <= len <= 4,
{
    if c <= '\u{7f}' {
        1
    } else if c <= '\u{7ff}' {
        2
    } else if c <= '\u{ffff}' {
        3
    } else {
        4
    }
}

/// The bytes of two texts in a row are the bytes of both together.
pub proof fn text_bytes_concat(a: Seq<char>, b: Seq<char>)
    ensures
        text_bytes(a + b) == text_bytes(a) + text_bytes(b),
    decreases b.len(),
{
    if b.len() == 0 {
        assert(a + b == a);
    } else {
        assert((a + b).drop_last() == a + b.drop_last());
        text_bytes_concat(a, b.drop_last());
    }
}

proof fn encode_utf8_push(s: Seq<char>, c: char)
    ensures
        encode_utf8(s.push(c)) == encode_utf8(s) + encode_scalar(c as u32),
    decreases s.len(),
{
    if s.len() == 0 {
        assert(s.push(c).drop_first() == Seq::<char>::empty());
        assert(encode_utf8(s.push(c).drop_first()) == Seq::<u8>::empty());
    } else {
        assert(s.push(c).drop_first() == s.drop_first().push(c));
        encode_utf8_push(s.drop_first(), c);
    }
}

proof fn encode_scalar_len(c: char)
    ensures
        encode_scalar(c as u32).len() == char_bytes(c),
{
    vstd::utf8::char_is_scalar(c);
}

/// `text_bytes` counts the bytes of the UTF-8 encoding.
pub proof fn text_bytes_is_encoded_len(s: Seq<char>)
    ensures
        text_bytes(s) == encode_utf8(s).len(),
    decreases s.len(),
{
    if s.len() > 0 {
        text_bytes_is_encoded_len(s.drop_last());
        assert(s.drop_last().push(s.last()) == s);
        encode_utf8_push(s.drop_last(), s.last());
        encode_scalar_len(s.last());
    }
}

/// The number of bytes of a string.
pub fn byte_len(text: &str) -> (len: usize)
    ensures
        len == text_bytes(text@),
{
    proof {
        text_bytes_is_encoded_len(text@);
    }
    text.as_bytes().len()
}

/// The longest end of `s` that needs at most `max_bytes` bytes.
pub open spec fn tail_within(s: Seq<char>, max_bytes: nat) -> Seq<char>
    decreases s.len(),
{
    if text_bytes(s) <= max_bytes || s.len() == 0 {
        s
    } else {
        tail_within(s.skip(1), max_bytes)
    }
}

/// The end that is kept is not too long.
pub proof fn tail_within_fits(s: Seq<char>, max_bytes: nat)
    ensures
        text_bytes(tail_within(s, max_bytes)) <= max_bytes,
    decreases s.len(),
{
    if text_bytes(s) > max_bytes && s.len() > 0 {
        tail_within_fits(s.skip(1), max_bytes);
    }
}

proof fn tail_within_skips(s: Seq<char>, max_bytes: nat, start: int)
    requires
        0 <= start <= s.len(),
        text_bytes(s.skip(start)) <= max_bytes,
        start > 0 ==> text_bytes(s.skip(start - 1)) > max_bytes,
    ensures
        tail_within(s, max_bytes) == s.skip(start),
    decreases s.len(),
{
    if start == 0 {
        assert(s.skip(0) == s);
    } else {
        assert(s == s.take(start - 1) + s.skip(start - 1));
        text_bytes_concat(s.take(start - 1), s.skip(start - 1));
        assert(s.skip(1).skip(start - 1) == s.skip(start));
        if start > 1 {
            assert(s.skip(1).skip(start - 2) == s.skip(start - 1));
        }
        tail_within_skips(s.skip(1), max_bytes, start - 1);
    }
}

/// Where the longest end of at most `max_bytes` bytes begins.
pub fn tail_start(chars: &Vec<char>, max_bytes: usize) -> (start: usize)
    ensures
        start <= chars.len(),
        chars@.skip(start as int) == tail_within(chars@, max_bytes as nat),
{
    let mut start: usize = chars.len();
    let mut kept: usize = 0;
    assert(chars@.skip(start as int) == Seq::<char>::empty());
    while start > 0 && char_len(chars[start - 1]) <= max_bytes - kept
        invariant
            start <= chars.len(),
            kept <= max_bytes,
            kept == text_bytes(chars@.skip(start as int)),
        decreases start,
    {
        proof {
            skip_one_more(chars@, start as int);
        }
        kept += char_len(chars[start - 1]);
        start -= 1;
    }
    proof {
        if start > 0 {
            skip_one_more(chars@, start as int);
        }
        tail_within_skips(chars@, max_bytes as nat, start as int);
    }
    start
}

proof fn skip_one_more(s: Seq<char>, start: int)
    requires
        0 < start <= s.len(),
    ensures
        text_bytes(s.skip(start - 1)) == char_bytes(s[start - 1]) + text_bytes(s.skip(start)),
{
    let c = s[start - 1];
    assert(s.skip(start - 1) == seq![c] + s.skip(start));
    text_bytes_concat(seq![c], s.skip(start));
    assert(text_bytes(seq![c]) == char_bytes(c)) by {
        reveal_with_fuel(text_bytes, 2);
    }
}

/// A number in decimal digits.
pub open spec fn decimal_text(n: nat) -> Seq<char>
    decreases n,
{
    let digit = ('0' as int + n % 10) as char;
    if n < 10 {
        seq![digit]
    } else {
        decimal_text(n / 10).push(digit)
    }
}

/// Writes a number in decimal digits.
pub fn decimal(n: u64) -> (text: String)
    ensures
        text@ == decimal_text(n as nat),
{
    let mut reversed: Vec<char> = Vec::new();
    let mut rest: u64 = n;
    let mut digit: char = ((rest % 10) as u8 + 0x30) as char;
    reversed.push(digit);
    rest = rest / 10;
    assert(n >= 10 ==> decimal_text(n as nat) == decimal_text(rest as nat) + reversed@.reverse());
    assert(n < 10 ==> decimal_text(n as nat) == reversed@.reverse());
    while rest > 0
        invariant
            rest > 0 ==> decimal_text(n as nat) == decimal_text(rest as nat) + reversed@.reverse(),
            rest == 0 ==> decimal_text(n as nat) == reversed@.reverse(),
        decreases rest,
    {
        let ghost before = reversed@;
        digit = ((rest % 10) as u8 + 0x30) as char;
        reversed.push(digit);
        proof {
            assert(reversed@.reverse() == seq![digit] + before.reverse());
            let digits = decimal_text(rest as nat);
            if rest >= 10 {
                assert(digits + before.reverse() == decimal_text((rest / 10) as nat) + (seq![digit]
                    + before.reverse()));
            }
        }
        rest = rest / 10;
    }
    string_of(crate::lists::reversed(reversed).as_slice())
}

/// Of a text that is too long, exactly as many characters are left out at its start as have to
/// be: with one more the rest would be too long.
pub proof fn the_longest_end_is_kept(s: Seq<char>, max_bytes: nat) -> (gone: int)
    requires
        encode_utf8(s).len() > max_bytes,
    ensures
        0 < gone <= s.len(),
        tail_within(s, max_bytes) == s.skip(gone),
        encode_utf8(s.skip(gone)).len() <= max_bytes,
        encode_utf8(s.skip(gone - 1)).len() > max_bytes,
    decreases s.len(),
{
    let rest = s.skip(1);
    text_bytes_is_encoded_len(s);
    text_bytes_is_encoded_len(rest);
    assert(s.skip(0) == s);
    if text_bytes(rest) <= max_bytes {
        reveal_with_fuel(tail_within, 2);
        1
    } else {
        let gone = the_longest_end_is_kept(rest, max_bytes);
        assert(rest.skip(gone) == s.skip(gone + 1));
        assert(rest.skip(gone - 1) == s.skip(gone));
        gone + 1
    }
}

/// A text that is short enough is kept whole.
pub proof fn a_short_text_is_kept(s: Seq<char>, max_bytes: nat)
    requires
        encode_utf8(s).len() <= max_bytes,
    ensures
        tail_within(s, max_bytes) == s,
{
    text_bytes_is_encoded_len(s);
}

proof fn start_is_trimmed(s: Seq<char>) -> (start: int)
    ensures
        0 <= start <= s.len(),
        trim_start(s) == s.skip(start),
        forall|i: int| 0 <= i < start ==> is_space(#[trigger] s[i]),
        start < s.len() ==> !is_space(s[start]),
    decreases s.len(),
{
    if s.len() > 0 && is_space(s[0]) {
        let rest = s.subrange(1, s.len() as int);
        let start = start_is_trimmed(rest);
        assert(rest.skip(start) == s.skip(start + 1));
        assert forall|i: int| 0 <= i < start + 1 implies is_space(#[trigger] s[i]) by {
            if i > 0 {
                assert(rest[i - 1] == s[i]);
            }
        }
        start + 1
    } else {
        assert(s.skip(0) == s);
        0
    }
}

proof fn end_is_trimmed(s: Seq<char>) -> (end: int)
    ensures
        0 <= end <= s.len(),
        trim_end(s) == s.take(end),
        forall|i: int| end <= i < s.len() ==> is_space(#[trigger] s[i]),
        end > 0 ==> !is_space(s[end - 1]),
    decreases s.len(),
{
    if s.len() > 0 && is_space(s[s.len() - 1]) {
        let rest = s.subrange(0, s.len() - 1);
        let end = end_is_trimmed(rest);
        assert(rest.take(end) == s.take(end));
        assert forall|i: int| end <= i < s.len() implies is_space(#[trigger] s[i]) by {
            if i < s.len() - 1 {
                assert(rest[i] == s[i]);
            }
        }
        end
    } else {
        assert(s.take(s.len() as int) == s);
        s.len() as int
    }
}

/// Trimming takes the spaces at both ends of a text, all of them and nothing else.
pub proof fn trimming_takes_the_spaces_at_both_ends(s: Seq<char>) -> (ends: (int, int))
    ensures
        0 <= ends.0 <= ends.1 <= s.len(),
        trim(s) == s.subrange(ends.0, ends.1),
        forall|i: int| 0 <= i < ends.0 || ends.1 <= i < s.len() ==> is_space(#[trigger] s[i]),
        ends.0 < ends.1 ==> !is_space(s[ends.0]) && !is_space(s[ends.1 - 1]),
{
    let start = start_is_trimmed(s);
    let rest = s.skip(start);
    let end = end_is_trimmed(rest);
    assert(rest.take(end) == s.subrange(start, start + end));
    assert forall|i: int| 0 <= i < start || start + end <= i < s.len() implies is_space(
        #[trigger] s[i],
    ) by {
        if i >= start + end {
            assert(rest[i - start] == s[i]);
        }
    }
    (start, start + end)
}

/// The spaces of ASCII are the tabulators, the line feed, the form feed, the carriage return and
/// the space itself; letters, digits and signs are none, whatever the language.
pub proof fn spaces_of_ascii(c: char)
    ensures
        c <= '\u{7f}' ==> is_space(c) == (c == '\t' || c == '\n' || c == '\u{b}' || c == '\u{c}'
            || c == '\r' || c == ' '),
        '\u{a1}' <= c <= '\u{167f}' ==> !is_space(c),
        c > '\u{3000}' ==> !is_space(c),
{
}

/// The number that decimal digits stand for.
pub open spec fn number_of(digits: Seq<char>) -> int {
    digits.fold_left(0int, |n: int, c: char| 10 * n + (c as int - '0' as int))
}

/// A number is written in digits that stand for it, without a zero in front.
pub proof fn decimal_digits_stand_for_the_number(n: nat)
    ensures
        number_of(decimal_text(n)) == n,
        forall|i: int|
            0 <= i < decimal_text(n).len() ==> '0' <= #[trigger] decimal_text(n)[i] <= '9',
        n > 0 ==> decimal_text(n)[0] != '0',
        n == 0 ==> decimal_text(n) == seq!['0'],
        decimal_text(n).len() > 0,
    decreases n,
{
    let text = decimal_text(n);
    let digit = ('0' as int + n % 10) as char;
    assert(text.last() == digit);
    if n < 10 {
        reveal_with_fuel(Seq::fold_left, 2);
        assert(text.drop_last() == Seq::<char>::empty());
    } else {
        decimal_digits_stand_for_the_number(n / 10);
        assert(text.drop_last() == decimal_text(n / 10));
        assert forall|i: int| 0 <= i < text.len() implies '0' <= #[trigger] text[i] <= '9' by {
            if i < text.len() - 1 {
                assert(text[i] == decimal_text(n / 10)[i]);
            }
        }
        assert(text[0] == decimal_text(n / 10)[0]);
    }
}

/// Beyond ASCII the spaces are those that Unicode lists, by their code points.
pub proof fn spaces_beyond_ascii(c: char)
    requires
        c as int >= 0x80,
    ensures
        is_space(c) <==> {
            ||| c as int == 0x85
            ||| c as int == 0xa0
            ||| c as int == 0x1680
            ||| 0x2000 <= c as int <= 0x200a
            ||| c as int == 0x2028
            ||| c as int == 0x2029
            ||| c as int == 0x202f
            ||| c as int == 0x205f
            ||| c as int == 0x3000
        },
{
}

} // verus!
