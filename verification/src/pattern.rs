//! Regular expressions.

use vstd::prelude::*;

use crate::chars::{char_bytes, text_bytes};

verus! {

/// A compiled expression of `regex`.
#[verifier::external_type_specification]
#[verifier::external_body]
pub struct ExRegex(regex::Regex);

/// The expression that a regular expression was compiled from.
pub uninterp spec fn regex_source(regex: regex::Regex) -> Seq<char>;

/// Whether a regular expression was compiled to ignore case.
pub uninterp spec fn regex_ignores_case(regex: regex::Regex) -> bool;

/// The byte ranges that `Regex::find_iter` yields for an expression in a text.
pub uninterp spec fn found_ranges(source: Seq<char>, ignore_case: bool, text: Seq<char>) -> Seq<
    (usize, usize),
>;

/// Compiling an expression can fail for this reason.
pub uninterp spec fn regex_refused(source: Seq<char>, ignore_case: bool, reason: Seq<char>) -> bool;

/// A character that means something of its own in an expression.
pub open spec fn is_meta(c: char) -> bool {
    ||| c == '\\' || c == '.' || c == '+' || c == '*' || c == '?' || c == '(' || c == ')'
    ||| c == '|' || c == '[' || c == ']' || c == '{' || c == '}' || c == '^' || c == '$'
    ||| c == '#' || c == '&' || c == '-' || c == '~'
}

/// The expression that matches a text literally: a backslash stands before each character that
/// would mean something of its own.
pub open spec fn regex_escaped(text: Seq<char>) -> Seq<char>
    decreases text.len(),
{
    if text.len() == 0 {
        Seq::empty()
    } else {
        let before = regex_escaped(text.drop_last());
        if is_meta(text.last()) {
            before.push('\\').push(text.last())
        } else {
            before.push(text.last())
        }
    }
}

/// A byte offset that lies between two characters of a text or at one of its ends.
pub open spec fn is_boundary(text: Seq<char>, offset: int) -> bool {
    exists|n: int| 0 <= n <= text.len() && offset == #[trigger] text_bytes(text.take(n))
}

/// Ranges within a text that begin and end between characters and do not overlap.
pub open spec fn ranges_in_order(text: Seq<char>, ranges: Seq<(usize, usize)>) -> bool {
    &&& forall|i: int|
        0 <= i < ranges.len() ==> {
            &&& (#[trigger] ranges[i]).0 <= ranges[i].1 <= text_bytes(text)
            &&& is_boundary(text, ranges[i].0 as int)
            &&& is_boundary(text, ranges[i].1 as int)
        }
    &&& forall|i: int, j: int|
        0 <= i < j < ranges.len() ==> (#[trigger] ranges[i]).1 <= (#[trigger] ranges[j]).0
}

/// The occurrences of `word` in `text`, from the left and without overlap. `at` is the byte
/// offset of `text`.
pub open spec fn occurrences(word: Seq<char>, text: Seq<char>, at: int) -> Seq<(usize, usize)>
    decreases text.len(),
{
    if word.len() == 0 || text.len() < word.len() {
        Seq::empty()
    } else if text.take(word.len() as int) == word {
        let end = at + text_bytes(word);
        seq![(at as usize, end as usize)] + occurrences(word, text.skip(word.len() as int), end)
    } else {
        occurrences(word, text.skip(1), at + char_bytes(text[0]))
    }
}

/// An expression matches a word literally, with regard to case.
pub open spec fn is_literal(source: Seq<char>, ignore_case: bool, word: Seq<char>) -> bool {
    !ignore_case && word.len() > 0 && source == regex_escaped(word)
}

/// The byte ranges of the successive matches of an expression in a text. A word that is escaped
/// and looked for with regard to case is found where it occurs.
pub open spec fn regex_ranges(source: Seq<char>, ignore_case: bool, text: Seq<char>) -> Seq<
    (usize, usize),
> {
    if exists|word: Seq<char>| #[trigger] is_literal(source, ignore_case, word) {
        let word = choose|word: Seq<char>| #[trigger] is_literal(source, ignore_case, word);
        occurrences(word, text, 0)
    } else {
        found_ranges(source, ignore_case, text)
    }
}

/// Different texts are escaped to different expressions.
proof fn escaping_loses_nothing(a: Seq<char>, b: Seq<char>)
    requires
        regex_escaped(a) == regex_escaped(b),
    ensures
        a == b,
    decreases a.len(),
{
    if a.len() == 0 || b.len() == 0 {
        assert(a.len() > 0 ==> regex_escaped(a).len() > 0);
        assert(b.len() > 0 ==> regex_escaped(b).len() > 0);
        assert(a == b);
    } else {
        let (x, y) = (regex_escaped(a.drop_last()), regex_escaped(b.drop_last()));
        assert(regex_escaped(a).last() == a.last());
        assert(regex_escaped(b).last() == b.last());
        let rest = regex_escaped(a).drop_last();
        if is_meta(a.last()) {
            assert(rest.drop_last() == x);
            assert(rest.drop_last() == y);
        } else {
            assert(rest == x);
            assert(rest == y);
        }
        escaping_loses_nothing(a.drop_last(), b.drop_last());
        assert(a == a.drop_last().push(a.last()));
        assert(b == b.drop_last().push(b.last()));
    }
}

/// A word that is escaped and looked for with regard to case is found where it occurs.
pub proof fn words_are_found_where_they_occur(word: Seq<char>, text: Seq<char>)
    requires
        word.len() > 0,
    ensures
        regex_ranges(regex_escaped(word), false, text) == occurrences(word, text, 0),
{
    let source = regex_escaped(word);
    assert(is_literal(source, false, word));
    let chosen = choose|other: Seq<char>| #[trigger] is_literal(source, false, other);
    escaping_loses_nothing(chosen, word);
}

/// `Regex::clone` gives the same expression again.
pub assume_specification[ <regex::Regex as Clone>::clone ](regex: &regex::Regex) -> (copy:
    regex::Regex)
    ensures
        regex_source(copy) == regex_source(*regex),
        regex_ignores_case(copy) == regex_ignores_case(*regex),
;

/// `regex::escape` puts a backslash before each meta character, and changes nothing else.
#[verifier::external_body]
pub(crate) fn escape(text: &str) -> (source: String)
    ensures
        source@ == regex_escaped(text@),
{
    regex::escape(text)
}

/// `RegexBuilder::build` either compiles the expression or says why it cannot. Whether it can is
/// not stated: whether the compiled expression exceeds the size limit depends on the machine.
#[verifier::external_body]
pub(crate) fn compile(source: &str, ignore_case: bool) -> (result: Result<regex::Regex, String>)
    ensures
        result matches Ok(regex) ==> regex_source(regex) == source@ && regex_ignores_case(regex)
            == ignore_case,
        result matches Err(reason) ==> regex_refused(source@, ignore_case, reason@),
{
    regex::RegexBuilder::new(source)
        .case_insensitive(ignore_case)
        .build()
        .map_err(|error| error.to_string())
}

/// `Regex::find_iter` yields the successive matches, which do not overlap and consist of whole
/// characters. They depend on the expression and the text alone. An escaped text that is not to
/// ignore case matches where it occurs.
#[verifier::external_body]
pub(crate) fn find_ranges(regex: &regex::Regex, text: &str) -> (ranges: Vec<(usize, usize)>)
    ensures
        (forall|word: Seq<char>|
            !#[trigger] is_literal(regex_source(*regex), regex_ignores_case(*regex), word))
            ==> ranges@ == found_ranges(regex_source(*regex), regex_ignores_case(*regex), text@),
        forall|word: Seq<char>| #[trigger]
            is_literal(regex_source(*regex), regex_ignores_case(*regex), word) ==> ranges@
                == occurrences(word, text@, 0),
        ranges_in_order(text@, ranges@),
{
    regex.find_iter(text).map(|found| (found.start(), found.end())).collect()
}

/// `Regex::is_match` tells whether there is a match at all.
#[verifier::external_body]
pub(crate) fn is_match(regex: &regex::Regex, text: &str) -> (found: bool)
    ensures
        found == (regex_ranges(
            regex_source(*regex),
            regex_ignores_case(*regex),
            text@,
        ).len() > 0),
{
    regex.is_match(text)
}

/// Letters, digits, spaces, control characters and all that is beyond ASCII stand for themselves
/// in an expression; of the signs only a few do.
pub proof fn signs_are_escaped(text: Seq<char>, c: char)
    ensures
        ({
            let before = regex_escaped(text);
            let sign = {
                ||| 0x21 <= c as int <= 0x2f
                ||| 0x3a <= c as int <= 0x40
                ||| 0x5b <= c as int <= 0x60
                ||| 0x7b <= c as int <= 0x7e
            };
            let harmless = {
                ||| c == '!' || c == '"' || c == '%' || c == '\'' || c == ',' || c == '/'
                ||| c == ':' || c == ';' || c == '<' || c == '=' || c == '>' || c == '@'
                ||| c == '_' || c == '`'
            };
            regex_escaped(text.push(c)) == if sign && !harmless {
                before + seq!['\\', c]
            } else {
                before + seq![c]
            }
        }),
        regex_escaped(Seq::empty()).len() == 0,
{
    assert(text.push(c).drop_last() == text);
}

} // verus!
