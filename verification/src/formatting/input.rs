//! What the user types to send, as bytes.

use vstd::prelude::*;
use vstd::utf8::encode_utf8;

use crate::chars::{char_len, chars_of, is_space, is_whitespace, text_bytes};
use crate::encoding::{encodable, gbk_encode, gbk_encoded};
use crate::formatting::hex::{hex_digit, hex_text};
use crate::model::{line_ending_bytes, LineEnding, SendMode, TextEncoding};

verus! {

/// The number of characters before the first space.
pub open spec fn token_len(s: Seq<char>) -> int
    decreases s.len(),
{
    if s.len() == 0 || is_space(s[0]) {
        0
    } else {
        1 + token_len(s.skip(1))
    }
}

/// A token without the `0x` in front of it.
pub open spec fn without_prefix(token: Seq<char>) -> Seq<char> {
    if token.len() >= 2 && token[0] == '0' && (token[1] == 'x' || token[1] == 'X') {
        token.skip(2)
    } else {
        token
    }
}

/// The tokens of a text in a row, each without the `0x` in front of it.
pub open spec fn compact(s: Seq<char>) -> Seq<char>
    decreases s.len(),
{
    if s.len() == 0 {
        Seq::empty()
    } else if is_space(s[0]) {
        compact(s.skip(1))
    } else {
        proof {
            token_len_bounds(s);
        }
        without_prefix(s.take(token_len(s))) + compact(s.skip(token_len(s)))
    }
}

pub proof fn token_len_bounds(s: Seq<char>)
    ensures
        0 <= token_len(s) <= s.len(),
        s.len() > 0 && !is_space(s[0]) ==> token_len(s) > 0,
        forall|i: int| 0 <= i < token_len(s) ==> !is_space(#[trigger] s[i]),
        token_len(s) < s.len() ==> is_space(s[token_len(s)]),
    decreases s.len(),
{
    if s.len() > 0 && !is_space(s[0]) {
        token_len_bounds(s.skip(1));
        assert forall|i: int| 0 <= i < token_len(s) implies !is_space(#[trigger] s[i]) by {
            if i > 0 {
                assert(s.skip(1)[i - 1] == s[i]);
            }
        }
    }
}

pub open spec fn is_hex_digit(c: char) -> bool {
    '0' <= c <= '9' || 'a' <= c <= 'f' || 'A' <= c <= 'F'
}

/// The number that a HEX digit stands for.
pub open spec fn digit_value(c: char) -> int {
    if c <= '9' {
        c as int - '0' as int
    } else if c <= 'F' {
        c as int - 'A' as int + 10
    } else {
        c as int - 'a' as int + 10
    }
}

/// The bytes that pairs of HEX digits stand for.
pub open spec fn digit_bytes(digits: Seq<char>) -> Seq<u8> {
    Seq::new(
        digits.len() / 2,
        |i: int| (digit_value(digits[2 * i]) * 16 + digit_value(digits[2 * i + 1])) as u8,
    )
}

/// The outcome of reading HEX input.
pub open spec fn hex_input(input: Seq<char>) -> Result<Seq<u8>, Seq<char>> {
    let digits = compact(input);
    if digits.len() == 0 {
        Err("请输入要发送的 HEX 数据"@)
    } else if text_bytes(digits) % 2 != 0 {
        Err("HEX 字符数量必须为偶数"@)
    } else if exists|i: int| 0 <= i < digits.len() && !is_hex_digit(#[trigger] digits[i]) {
        Err("HEX 数据只能包含 0-9、A-F 和空格"@)
    } else {
        Ok(digit_bytes(digits))
    }
}

/// The outcome of encoding text input.
pub open spec fn text_input(
    input: Seq<char>,
    encoding: TextEncoding,
    line_ending: LineEnding,
) -> Result<Seq<u8>, Seq<char>> {
    let bytes = match encoding {
        TextEncoding::Utf8 => encode_utf8(input),
        TextEncoding::Gbk => gbk_encoded(input).0,
    } + line_ending_bytes(line_ending);
    if encoding == TextEncoding::Gbk && gbk_encoded(input).1 {
        Err("文本包含 GBK 无法表示的字符"@)
    } else if bytes.len() == 0 {
        Err("请输入要发送的数据"@)
    } else {
        Ok(bytes)
    }
}

/// The contents of a result.
pub open spec fn result_view(result: Result<Vec<u8>, String>) -> Result<Seq<u8>, Seq<char>> {
    match result {
        Ok(bytes) => Ok(bytes@),
        Err(message) => Err(message@),
    }
}

pub fn parse_send_input(
    input: &str,
    mode: SendMode,
    encoding: TextEncoding,
    line_ending: LineEnding,
) -> (result: Result<Vec<u8>, String>)
    requires
        mode == SendMode::Text ==> encodable(input@, encoding),
    ensures
        result_view(result) == match mode {
            SendMode::Text => text_input(input@, encoding, line_ending),
            SendMode::Hex => hex_input(input@),
        },
{
    match mode {
        SendMode::Text => encode_text(input, encoding, line_ending),
        SendMode::Hex => parse_hex(input),
    }
}

/// The tokens in a row, each without the `0x` in front of it.
fn compacted(input: &str) -> (digits: Vec<char>)
    ensures
        digits@ == compact(input@),
{
    let chars = chars_of(input);
    let mut digits: Vec<char> = Vec::new();
    let mut i: usize = 0;
    assert(chars@.skip(0) == chars@);
    while i < chars.len()
        invariant
            i <= chars.len(),
            compact(chars@) == digits@ + compact(chars@.skip(i as int)),
        decreases chars.len() - i,
    {
        let ghost rest = chars@.skip(i as int);
        if is_whitespace(chars[i]) {
            assert(rest.skip(1) == chars@.skip(i + 1));
            i += 1;
        } else {
            let end: usize = token_end(&chars, i);
            let ghost token = rest.take(end - i);
            assert(rest.skip(end - i) == chars@.skip(end as int));
            let prefixed = end - i >= 2 && chars[i] == '0' && (chars[i + 1] == 'x' || chars[i + 1]
                == 'X');
            let start: usize = if prefixed {
                i + 2
            } else {
                i
            };
            let ghost before = digits@;
            let ghost stripped = without_prefix(token);
            assert(stripped == chars@.subrange(start as int, end as int));
            let mut k: usize = start;
            while k < end
                invariant
                    start <= k <= end <= chars.len(),
                    digits@ == before + chars@.subrange(start as int, k as int),
                decreases end - k,
            {
                digits.push(chars[k]);
                assert(chars@.subrange(start as int, k + 1) == chars@.subrange(
                    start as int,
                    k as int,
                ).push(chars@[k as int]));
                k += 1;
            }
            proof {
                token_len_bounds(rest);
                assert(before + (stripped + compact(chars@.skip(end as int))) == before + stripped
                    + compact(chars@.skip(end as int)));
            }
            i = end;
        }
    }
    assert(compact(chars@.skip(i as int)) == Seq::<char>::empty());
    assert(digits@ + Seq::<char>::empty() == digits@);
    digits
}

/// Where the token that begins at `start` ends.
fn token_end(chars: &Vec<char>, start: usize) -> (end: usize)
    requires
        start < chars.len(),
        !is_space(chars@[start as int]),
    ensures
        start < end <= chars.len(),
        end - start == token_len(chars@.skip(start as int)),
{
    let mut end: usize = start;
    let ghost rest = chars@.skip(start as int);
    while end < chars.len() && !is_whitespace(chars[end])
        invariant
            start <= end <= chars.len(),
            rest == chars@.skip(start as int),
            token_len(rest) == end - start + token_len(chars@.skip(end as int)),
        decreases chars.len() - end,
    {
        assert(chars@.skip(end as int).skip(1) == chars@.skip(end + 1));
        end += 1;
    }
    proof {
        token_len_bounds(rest);
    }
    end
}

proof fn digits_have_one_byte(s: Seq<char>)
    requires
        forall|i: int| 0 <= i < s.len() ==> is_hex_digit(#[trigger] s[i]),
    ensures
        text_bytes(s) == s.len(),
    decreases s.len(),
{
    if s.len() > 0 {
        digits_have_one_byte(s.drop_last());
    }
}

pub(crate) fn digit_number(c: char) -> (value: u8)
    requires
        is_hex_digit(c),
    ensures
        value == digit_value(c),
        value < 16,
{
    if c <= '9' {
        (c as u32 - '0' as u32) as u8
    } else if c <= 'F' {
        (c as u32 - 'A' as u32 + 10) as u8
    } else {
        (c as u32 - 'a' as u32 + 10) as u8
    }
}

/// Reads HEX digits, two for each byte, with spaces and `0x` prefixes in between.
pub fn parse_hex(input: &str) -> (result: Result<Vec<u8>, String>)
    ensures
        result_view(result) == hex_input(input@),
{
    let digits = compacted(input);
    if digits.is_empty() {
        return Err("请输入要发送的 HEX 数据".to_owned());
    }
    let mut odd = false;
    let mut all_digits = true;
    let mut i: usize = 0;
    while i < digits.len()
        invariant
            i <= digits.len(),
            odd == (text_bytes(digits@.take(i as int)) % 2 != 0),
            all_digits == (forall|k: int| 0 <= k < i ==> is_hex_digit(#[trigger] digits@[k])),
        decreases digits.len() - i,
    {
        let c = digits[i];
        assert(digits@.take(i + 1).drop_last() == digits@.take(i as int));
        let len: usize = char_len(c);
        if len == 1 || len == 3 {
            odd = !odd;
        }
        let is_digit = ('0' <= c && c <= '9') || ('a' <= c && c <= 'f') || ('A' <= c && c <= 'F');
        all_digits = all_digits && is_digit;
        i += 1;
    }
    assert(digits@.take(i as int) == digits@);
    if odd {
        return Err("HEX 字符数量必须为偶数".to_owned());
    }
    if !all_digits {
        return Err("HEX 数据只能包含 0-9、A-F 和空格".to_owned());
    }
    proof {
        digits_have_one_byte(digits@);
    }
    let mut bytes: Vec<u8> = Vec::new();
    let mut i: usize = 0;
    while i < digits.len()
        invariant
            i <= digits.len(),
            i % 2 == 0,
            digits@.len() % 2 == 0,
            forall|k: int| 0 <= k < digits@.len() ==> is_hex_digit(#[trigger] digits@[k]),
            bytes@ == digit_bytes(digits@.take(i as int)),
        decreases digits.len() - i,
    {
        let ghost before = bytes@;
        let byte: u8 = digit_number(digits[i]) * 16 + digit_number(digits[i + 1]);
        bytes.push(byte);
        assert(bytes@ == digit_bytes(digits@.take(i + 2)));
        i += 2;
    }
    assert(digits@.take(i as int) == digits@);
    Ok(bytes)
}

/// Encodes text and ends the line.
pub fn encode_text(input: &str, encoding: TextEncoding, line_ending: LineEnding) -> (result: Result<
    Vec<u8>,
    String,
>)
    requires
        encodable(input@, encoding),
    ensures
        result_view(result) == text_input(input@, encoding, line_ending),
        result matches Ok(bytes) ==> bytes@ == match encoding {
            TextEncoding::Utf8 => encode_utf8(input@),
            TextEncoding::Gbk => gbk_encoded(input@).0,
        } + match line_ending {
            LineEnding::Empty => seq![],
            LineEnding::Cr => seq![0x0Du8],
            LineEnding::Lf => seq![0x0Au8],
            LineEnding::CrLf => seq![0x0Du8, 0x0Au8],
        },
{
    let mut bytes = match encoding {
        TextEncoding::Utf8 => vstd::slice::slice_to_vec(input.as_bytes()),
        TextEncoding::Gbk => {
            let (encoded, had_errors) = gbk_encode(input);
            if had_errors {
                return Err("文本包含 GBK 无法表示的字符".to_owned());
            }
            encoded
        },
    };
    let mut ending = line_ending.bytes();
    bytes.append(&mut ending);
    if bytes.is_empty() {
        return Err("请输入要发送的数据".to_owned());
    }
    Ok(bytes)
}

/// A text of HEX digits alone is its own compact form.
proof fn compact_of_digits(s: Seq<char>)
    requires
        forall|i: int| 0 <= i < s.len() ==> is_hex_digit(#[trigger] s[i]),
    ensures
        compact(s) == s,
{
    if s.len() > 0 {
        token_len_bounds(s);
        assert(token_len(s) == s.len()) by {
            if token_len(s) < s.len() {
                assert(is_hex_digit(s[token_len(s)]));
            }
        }
        assert(s.take(s.len() as int) == s);
        assert(compact(s.skip(s.len() as int)) == Seq::<char>::empty());
        assert(s.len() >= 2 ==> is_hex_digit(s[1]));
        assert(without_prefix(s) + Seq::<char>::empty() == s);
    }
}

/// A space separates tokens: what stands on either side of it is read on its own.
pub proof fn spaces_separate_tokens(a: Seq<char>, space: char, b: Seq<char>)
    requires
        is_space(space),
    ensures
        compact(a + seq![space] + b) == compact(a) + compact(b),
    decreases a.len(),
{
    let s = a + seq![space] + b;
    if a.len() == 0 {
        assert(s.skip(1) == b);
        assert(compact(a) + compact(b) == compact(b));
    } else if is_space(a[0]) {
        assert(s.skip(1) == a.skip(1) + seq![space] + b);
        spaces_separate_tokens(a.skip(1), space, b);
    } else {
        token_len_with_space(a, space, b);
        token_len_bounds(a);
        let n = token_len(a);
        assert(s.take(n) == a.take(n));
        assert(s.skip(n) == a.skip(n) + seq![space] + b);
        spaces_separate_tokens(a.skip(n), space, b);
        let first = without_prefix(a.take(n));
        assert(first + (compact(a.skip(n)) + compact(b)) == first + compact(a.skip(n)) + compact(
            b,
        ));
    }
}

proof fn token_len_with_space(a: Seq<char>, space: char, b: Seq<char>)
    requires
        is_space(space),
    ensures
        token_len(a + seq![space] + b) == token_len(a),
    decreases a.len(),
{
    let s = a + seq![space] + b;
    if a.len() > 0 && !is_space(a[0]) {
        assert(s.skip(1) == a.skip(1) + seq![space] + b);
        token_len_with_space(a.skip(1), space, b);
    }
}

/// Digits mean the same with a space between them and without.
pub proof fn spaces_between_digits_do_not_matter(a: Seq<char>, space: char, b: Seq<char>)
    requires
        is_space(space),
        forall|i: int| 0 <= i < a.len() ==> is_hex_digit(#[trigger] a[i]),
        forall|i: int| 0 <= i < b.len() ==> is_hex_digit(#[trigger] b[i]),
    ensures
        hex_input(a + seq![space] + b) == hex_input(a + b),
{
    spaces_separate_tokens(a, space, b);
    compact_of_digits(a);
    compact_of_digits(b);
    compact_of_digits(a + b);
}

proof fn compact_of_hex_text(bytes: Seq<u8>)
    ensures
        ({
            let digits = compact(hex_text(bytes));
            &&& digits.len() == 2 * bytes.len()
            &&& forall|i: int| 0 <= i < digits.len() ==> is_hex_digit(#[trigger] digits[i])
            &&& digit_bytes(digits) == bytes
        }),
    decreases bytes.len(),
{
    if bytes.len() == 0 {
        assert(digit_bytes(Seq::<char>::empty()) == bytes);
    } else {
        let last = bytes.last();
        let pair = seq![hex_digit(last as int / 16), hex_digit(last as int % 16)];
        hex_digit_reads_back(last as int / 16);
        hex_digit_reads_back(last as int % 16);
        compact_of_digits(pair);
        compact_of_hex_text(bytes.drop_last());
        let before = compact(hex_text(bytes.drop_last()));
        if bytes.len() == 1 {
            assert(hex_text(bytes) == pair);
            assert(bytes.drop_last() == Seq::<u8>::empty());
            assert(before == Seq::<char>::empty());
            assert(compact(hex_text(bytes)) == before + pair);
        } else {
            assert(hex_text(bytes) == hex_text(bytes.drop_last()) + seq![' '] + pair);
            spaces_separate_tokens(hex_text(bytes.drop_last()), ' ', pair);
        }
        let digits = before + pair;
        assert forall|i: int| 0 <= i < bytes.len() implies #[trigger] digit_bytes(digits)[i]
            == bytes[i] by {
            if i < bytes.len() - 1 {
                assert(digit_bytes(before)[i] == bytes.drop_last()[i]);
            }
        }
        assert(digit_bytes(digits) == bytes);
    }
}

proof fn hex_digit_reads_back(value: int)
    requires
        0 <= value < 16,
    ensures
        is_hex_digit(hex_digit(value)),
        digit_value(hex_digit(value)) == value,
{
}

/// The text of a HEX row can be sent back: it reads as the bytes that it shows.
pub proof fn hex_rows_read_back(bytes: Seq<u8>)
    requires
        bytes.len() > 0,
    ensures
        hex_input(hex_text(bytes)) == Ok::<Seq<u8>, Seq<char>>(bytes),
{
    compact_of_hex_text(bytes);
    digits_have_one_byte(compact(hex_text(bytes)));
}

} // verus!
