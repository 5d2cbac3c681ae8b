//! What is typed to be sent, and which bytes that is.

use vstd::prelude::*;
use vstd::utf8::encode_utf8;

use crate::chars::{is_space, text_bytes, text_bytes_is_encoded_len};
use crate::encoding::gbk_encoded;
use crate::formatting::hex::{hex_digit, hex_text};
use crate::formatting::input::{
    compact, hex_input, is_hex_digit, text_input, token_len, token_len_bounds, without_prefix,
};
use crate::model::{LineEnding, TextEncoding};

verus! {

/// The bytes of a text in an encoding.
pub open spec fn text_as_bytes(text: Seq<char>, encoding: TextEncoding) -> Seq<u8> {
    match encoding {
        TextEncoding::Utf8 => encode_utf8(text),
        TextEncoding::Gbk => gbk_encoded(text).0,
    }
}

/// The encoding has all characters of a text.
pub open spec fn can_be_encoded(text: Seq<char>, encoding: TextEncoding) -> bool {
    encoding == TextEncoding::Gbk ==> !gbk_encoded(text).1
}

/// What is sent with a line ending is the text as it is sent without one, and then the carriage
/// return, the line feed, or both in this order, in either encoding.
pub proof fn line_endings_come_behind_the_text(text: Seq<char>, encoding: TextEncoding)
    requires
        can_be_encoded(text, encoding),
        text_as_bytes(text, encoding).len() > 0,
    ensures
        ({
            let bytes = text_as_bytes(text, encoding);
            &&& text_input(text, encoding, LineEnding::Empty) == Ok::<Seq<u8>, Seq<char>>(bytes)
            &&& text_input(text, encoding, LineEnding::Cr) == Ok::<Seq<u8>, Seq<char>>(
                bytes.push(0x0D),
            )
            &&& text_input(text, encoding, LineEnding::Lf) == Ok::<Seq<u8>, Seq<char>>(
                bytes.push(0x0A),
            )
            &&& text_input(text, encoding, LineEnding::CrLf) == Ok::<Seq<u8>, Seq<char>>(
                bytes.push(0x0D).push(0x0A),
            )
        }),
{
    let bytes = text_as_bytes(text, encoding);
    assert(bytes + seq![] == bytes);
    assert(bytes + seq![0x0Du8] == bytes.push(0x0D));
    assert(bytes + seq![0x0Au8] == bytes.push(0x0A));
    assert(bytes + seq![0x0Du8, 0x0Au8] == bytes.push(0x0D).push(0x0A));
}

/// An empty line can be sent if it has an ending; without one there is nothing to send. What the
/// encoding lacks characters for is refused.
pub proof fn what_cannot_be_sent(text: Seq<char>, encoding: TextEncoding, ending: LineEnding)
    ensures
        !can_be_encoded(text, encoding) ==> text_input(text, encoding, ending) == Err::<
            Seq<u8>,
            Seq<char>,
        >("文本包含 GBK 无法表示的字符"@),
        can_be_encoded(text, encoding) && text_as_bytes(text, encoding).len() == 0 ==> match ending {
            LineEnding::Empty => text_input(text, encoding, ending) == Err::<Seq<u8>, Seq<char>>(
                "请输入要发送的数据"@,
            ),
            LineEnding::Cr => text_input(text, encoding, ending) == Ok::<Seq<u8>, Seq<char>>(
                seq![0x0D],
            ),
            LineEnding::Lf => text_input(text, encoding, ending) == Ok::<Seq<u8>, Seq<char>>(
                seq![0x0A],
            ),
            LineEnding::CrLf => text_input(text, encoding, ending) == Ok::<Seq<u8>, Seq<char>>(
                seq![0x0D, 0x0A],
            ),
        },
        text_input(text, encoding, ending) is Ok <==> can_be_encoded(text, encoding) && (
        text_as_bytes(text, encoding).len() > 0 || ending != LineEnding::Empty),
{
    let bytes = text_as_bytes(text, encoding);
    if bytes.len() == 0 {
        assert(bytes + seq![0x0Du8] == seq![0x0Du8]);
        assert(bytes + seq![0x0Au8] == seq![0x0Au8]);
        assert(bytes + seq![0x0Du8, 0x0Au8] == seq![0x0Du8, 0x0Au8]);
    }
}

/// The sixteen digits, in order.
pub open spec fn digit_table() -> Seq<char> {
    seq!['0', '1', '2', '3', '4', '5', '6', '7', '8', '9', 'A', 'B', 'C', 'D', 'E', 'F']
}

/// The same with small letters.
pub open spec fn small_digit_table() -> Seq<char> {
    seq!['0', '1', '2', '3', '4', '5', '6', '7', '8', '9', 'a', 'b', 'c', 'd', 'e', 'f']
}

/// A digit stands for its place in the table, whether it is a capital or a small letter.
pub open spec fn stands_for(c: char, value: int) -> bool {
    0 <= value < 16 && (digit_table()[value] == c || small_digit_table()[value] == c)
}

/// Every digit stands for its number.
pub proof fn digits_stand_for(c: char)
    requires
        is_hex_digit(c),
    ensures
        stands_for(c, crate::formatting::input::digit_value(c)),
{
    let (a, b) = (digit_table(), small_digit_table());
    assert(a[0] == '0' && a[1] == '1' && a[2] == '2' && a[3] == '3');
    assert(a[4] == '4' && a[5] == '5' && a[6] == '6' && a[7] == '7');
    assert(a[8] == '8' && a[9] == '9' && a[10] == 'A' && a[11] == 'B');
    assert(a[12] == 'C' && a[13] == 'D' && a[14] == 'E' && a[15] == 'F');
    assert(b[10] == 'a' && b[11] == 'b' && b[12] == 'c' && b[13] == 'd');
    assert(b[14] == 'e' && b[15] == 'f');
    let value = c as int;
    assert('0' as int == 48 && '9' as int == 57 && 'A' as int == 65 && 'a' as int == 97);
    assert(value == 48 || value == 49 || value == 50 || value == 51 || value == 52 || value == 53
        || value == 54 || value == 55 || value == 56 || value == 57 || value == 65 || value == 66
        || value == 67 || value == 68 || value == 69 || value == 70 || value == 97 || value == 98
        || value == 99 || value == 100 || value == 101 || value == 102);
}

proof fn digit_shows(value: int)
    requires
        0 <= value < 16,
    ensures
        hex_digit(value) == digit_table()[value],
{
    let a = digit_table();
    assert(a[0] == '0' && a[1] == '1' && a[2] == '2' && a[3] == '3');
    assert(a[4] == '4' && a[5] == '5' && a[6] == '6' && a[7] == '7');
    assert(a[8] == '8' && a[9] == '9' && a[10] == 'A' && a[11] == 'B');
    assert(a[12] == 'C' && a[13] == 'D' && a[14] == 'E' && a[15] == 'F');
    assert(value == 0 || value == 1 || value == 2 || value == 3 || value == 4 || value == 5 || value
        == 6 || value == 7 || value == 8 || value == 9 || value == 10 || value == 11 || value == 12
        || value == 13 || value == 14 || value == 15);
}

/// A text without an `x` is read as its characters that are no spaces.
proof fn compact_drops_spaces(s: Seq<char>)
    requires
        forall|i: int| 0 <= i < s.len() ==> #[trigger] s[i] != 'x' && s[i] != 'X',
    ensures
        compact(s) == s.filter(|c: char| !is_space(c)),
    decreases s.len(),
{
    let kept = |c: char| !is_space(c);
    if s.len() > 0 {
        let rest = s.skip(1);
        assert forall|i: int| 0 <= i < rest.len() implies #[trigger] rest[i] != 'x' && rest[i]
            != 'X' by {
            assert(rest[i] == s[i + 1]);
        }
        filter_first(s, kept);
        if is_space(s[0]) {
            compact_drops_spaces(rest);
        } else {
            token_len_bounds(s);
            let n = token_len(s);
            let token = s.take(n);
            let tail = s.skip(n);
            assert forall|i: int| 0 <= i < tail.len() implies #[trigger] tail[i] != 'x' && tail[i]
                != 'X' by {
                assert(tail[i] == s[i + n]);
            }
            compact_drops_spaces(tail);
            if token.len() >= 2 {
                assert(token[1] == s[1]);
            }
            assert(without_prefix(token) == token);
            all_kept(token, kept);
            assert(token + tail == s);
            filter_concat(token, tail, kept);
        }
    } else {
        reveal(Seq::filter);
    }
}

proof fn filter_concat(a: Seq<char>, b: Seq<char>, kept: spec_fn(char) -> bool)
    ensures
        (a + b).filter(kept) == a.filter(kept) + b.filter(kept),
    decreases b.len(),
{
    reveal(Seq::filter);
    if b.len() == 0 {
        assert(a + b == a);
        assert(a.filter(kept) + b.filter(kept) == a.filter(kept));
    } else {
        assert((a + b).drop_last() == a + b.drop_last());
        filter_concat(a, b.drop_last(), kept);
        assert((a + b).filter(kept) == a.filter(kept) + b.filter(kept));
    }
}

proof fn filter_first(s: Seq<char>, kept: spec_fn(char) -> bool)
    requires
        s.len() > 0,
    ensures
        !kept(s[0]) ==> s.filter(kept) == s.skip(1).filter(kept),
{
    reveal(Seq::filter);
    assert(seq![s[0]] + s.skip(1) == s);
    filter_concat(seq![s[0]], s.skip(1), kept);
    assert(seq![s[0]].drop_last() == Seq::<char>::empty());
    reveal_with_fuel(Seq::filter, 2);
    if !kept(s[0]) {
        assert(seq![s[0]].filter(kept) == Seq::<char>::empty());
        assert(Seq::<char>::empty() + s.skip(1).filter(kept) == s.skip(1).filter(kept));
    }
}

proof fn all_kept(s: Seq<char>, kept: spec_fn(char) -> bool)
    requires
        forall|i: int| 0 <= i < s.len() ==> kept(#[trigger] s[i]),
    ensures
        s.filter(kept) == s,
    decreases s.len(),
{
    reveal(Seq::filter);
    if s.len() > 0 {
        let before = s.drop_last();
        assert forall|i: int| 0 <= i < before.len() implies kept(#[trigger] before[i]) by {
            assert(before[i] == s[i]);
        }
        all_kept(before, kept);
        assert(kept(s[s.len() - 1]));
        assert(before.push(s.last()) == s);
    }
}

/// The digits of an input: all that is not a space.
pub open spec fn digits_of(input: Seq<char>) -> Seq<char> {
    input.filter(|c: char| !is_space(c))
}

/// HEX input is read two digits at a time, the first of which counts sixteenfold; spaces do not
/// matter, nor do capitals.
pub proof fn two_digits_are_a_byte(input: Seq<char>)
    requires
        forall|i: int| 0 <= i < input.len() ==> #[trigger] input[i] != 'x' && input[i] != 'X',
        digits_of(input).len() > 0,
        digits_of(input).len() % 2 == 0,
        forall|i: int|
            0 <= i < digits_of(input).len() ==> is_hex_digit(#[trigger] digits_of(input)[i]),
    ensures
        ({
            let digits = digits_of(input);
            let result = hex_input(input);
            &&& result matches Ok(bytes) && bytes.len() * 2 == digits.len()
            &&& forall|i: int|
                0 <= i < result->Ok_0.len() ==> stands_for(
                    digits[2 * i],
                    #[trigger] result->Ok_0[i] as int / 16,
                ) && stands_for(digits[2 * i + 1], result->Ok_0[i] as int % 16)
        }),
{
    compact_drops_spaces(input);
    let digits = digits_of(input);
    one_byte_each(digits);
    let bytes = hex_input(input)->Ok_0;
    assert forall|i: int| 0 <= i < bytes.len() implies stands_for(
        digits[2 * i],
        #[trigger] bytes[i] as int / 16,
    ) && stands_for(digits[2 * i + 1], bytes[i] as int % 16) by {
        digits_stand_for(digits[2 * i]);
        digits_stand_for(digits[2 * i + 1]);
    }
}

proof fn one_byte_each(s: Seq<char>)
    requires
        forall|i: int| 0 <= i < s.len() ==> is_hex_digit(#[trigger] s[i]),
    ensures
        text_bytes(s) == s.len(),
    decreases s.len(),
{
    if s.len() > 0 {
        let before = s.drop_last();
        assert forall|i: int| 0 <= i < before.len() implies is_hex_digit(#[trigger] before[i]) by {
            assert(before[i] == s[i]);
        }
        one_byte_each(before);
        assert(is_hex_digit(s[s.len() - 1]));
    }
}

/// Of HEX input nothing is sent that is not made of pairs of digits: the user is told whether
/// there are none, an odd number of them, or something else among them.
pub proof fn faulty_hex_is_refused(input: Seq<char>)
    requires
        forall|i: int| 0 <= i < input.len() ==> #[trigger] input[i] != 'x' && input[i] != 'X',
    ensures
        ({
            let digits = digits_of(input);
            let sound = forall|i: int| 0 <= i < digits.len() ==> is_hex_digit(#[trigger] digits[i]);
            &&& digits.len() == 0 ==> hex_input(input) == Err::<Seq<u8>, Seq<char>>(
                "请输入要发送的 HEX 数据"@,
            )
            &&& digits.len() > 0 && encode_utf8(digits).len() % 2 == 1 ==> hex_input(input)
                == Err::<Seq<u8>, Seq<char>>("HEX 字符数量必须为偶数"@)
            &&& digits.len() > 0 && encode_utf8(digits).len() % 2 == 0 && !sound ==> hex_input(
                input,
            ) == Err::<Seq<u8>, Seq<char>>("HEX 数据只能包含 0-9、A-F 和空格"@)
            &&& digits.len() > 0 && encode_utf8(digits).len() % 2 == 0 && sound ==> hex_input(
                input,
            ) is Ok
        }),
{
    compact_drops_spaces(input);
    text_bytes_is_encoded_len(digits_of(input));
}

/// A token may have `0x` or `0X` in front of it, which adds nothing.
pub proof fn a_prefix_adds_nothing(token: Seq<char>, x: char)
    requires
        x == 'x' || x == 'X',
        forall|i: int| 0 <= i < token.len() ==> !is_space(#[trigger] token[i]),
        !(token.len() >= 2 && token[0] == '0' && (token[1] == 'x' || token[1] == 'X')),
    ensures
        hex_input(seq!['0', x] + token) == hex_input(token),
{
    let s = seq!['0', x] + token;
    token_len_bounds(s);
    token_len_bounds(token);
    assert forall|i: int| 0 <= i < s.len() implies !is_space(#[trigger] s[i]) by {
        if i >= 2 {
            assert(s[i] == token[i - 2]);
        }
    }
    assert(token_len(s) == s.len());
    assert(s.take(s.len() as int) == s);
    assert(s.skip(s.len() as int) == Seq::<char>::empty());
    assert(without_prefix(s) == token);
    assert(compact(Seq::<char>::empty()) == Seq::<char>::empty());
    assert(token + Seq::<char>::empty() == token);
    assert(compact(s) == token);
    if token.len() > 0 {
        assert(token_len(token) == token.len());
        assert(token.take(token.len() as int) == token);
        assert(token.skip(token.len() as int) == Seq::<char>::empty());
        assert(compact(token) == token);
    }
}

/// A HEX row shows each byte by two digits, the one that counts sixteenfold first, with a space
/// between bytes.
pub proof fn hex_rows_show_the_bytes(bytes: Seq<u8>)
    ensures
        bytes.len() > 0 ==> hex_text(bytes).len() == 3 * bytes.len() - 1,
        bytes.len() == 0 ==> hex_text(bytes).len() == 0,
        forall|i: int|
            0 <= i < bytes.len() ==> hex_text(bytes)[3 * i] == digit_table()[#[trigger] bytes[i]
                as int / 16] && hex_text(bytes)[3 * i + 1] == digit_table()[bytes[i] as int % 16]
                && (i + 1 < bytes.len() ==> hex_text(bytes)[3 * i + 2] == ' '),
    decreases bytes.len(),
{
    if bytes.len() > 0 {
        let before = bytes.drop_last();
        hex_rows_show_the_bytes(before);
        let last = bytes.last() as int;
        digit_shows(last / 16);
        digit_shows(last % 16);
        let (text, some) = (hex_text(bytes), hex_text(before));
        assert forall|i: int| 0 <= i < bytes.len() implies text[3 * i] == digit_table()[
        #[trigger] bytes[i] as int / 16] && text[3 * i + 1] == digit_table()[bytes[i] as int % 16]
            && (i + 1 < bytes.len() ==> text[3 * i + 2] == ' ') by {
            if i < before.len() {
                assert(before[i] == bytes[i]);
                assert(text[3 * i] == some[3 * i]);
                assert(text[3 * i + 1] == some[3 * i + 1]);
                if i + 1 < before.len() {
                    assert(text[3 * i + 2] == some[3 * i + 2]);
                }
            }
        }
    }
}

} // verus!
