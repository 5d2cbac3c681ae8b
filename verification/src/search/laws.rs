//! What a search finds, said of the rows and the places in them.

use vstd::prelude::*;
use vstd::utf8::encode_utf8;

use crate::chars::{text_bytes, text_bytes_concat, text_bytes_is_encoded_len};
use crate::formatting::rows::{shown_text, RowView};
use crate::pattern::{
    occurrences, regex_escaped, regex_ranges, words_are_found_where_they_occur,
};
use crate::search::{
    all_matches, as_ints, asked_query, match_views, proper_matches, row_matches, rows_of,
    within_capacity, MatchView, Query, SearchDisplayOptions, SearchIndex,
};

verus! {

/// The expression of a query finds this range in a row as it is shown.
pub open spec fn finds(query: Query, row: RowView, start: int, end: int) -> bool {
    let ranges = regex_ranges(
        query.source,
        query.ignore_case,
        shown_text(row, query.timestamps, query.format),
    );
    exists|k: int|
        0 <= k < ranges.len() && (#[trigger] ranges[k]).0 as int == start && ranges[k].1 as int
            == end
}

proof fn ranges_are_listed(ranges: Seq<(usize, usize)>, row: int, found: MatchView)
    ensures
        proper_matches(ranges, row).contains(found) <==> found.row == row && found.start
            != found.end && exists|k: int|
            0 <= k < ranges.len() && (#[trigger] ranges[k]).0 as int == found.start
                && ranges[k].1 as int == found.end,
    decreases ranges.len(),
{
    let all = proper_matches(ranges, row);
    if ranges.len() > 0 {
        let rest = ranges.drop_last();
        ranges_are_listed(rest, row, found);
        let before = proper_matches(rest, row);
        let (start, end) = ranges.last();
        let last = MatchView { row, start: start as int, end: end as int };
        assert(ranges[ranges.len() - 1] == (start, end));
        if before.contains(found) {
            let k = choose|k: int|
                0 <= k < rest.len() && (#[trigger] rest[k]).0 as int == found.start
                    && rest[k].1 as int == found.end;
            assert(ranges[k] == rest[k]);
            let i = choose|i: int| 0 <= i < before.len() && before[i] == found;
            assert(all[i] == found);
        }
        if start != end {
            assert(all[before.len() as int] == last);
        }
        if all.contains(found) {
            let i = choose|i: int| 0 <= i < all.len() && all[i] == found;
            if i < before.len() {
                assert(before[i] == found);
            } else {
                assert(found == last);
            }
        }
        if found.row == row && found.start != found.end && (exists|k: int|
            0 <= k < ranges.len() && (#[trigger] ranges[k]).0 as int == found.start
                && ranges[k].1 as int == found.end) {
            let k = choose|k: int|
                0 <= k < ranges.len() && (#[trigger] ranges[k]).0 as int == found.start
                    && ranges[k].1 as int == found.end;
            if k < rest.len() {
                assert(rest[k] == ranges[k]);
            } else {
                assert(found == last);
            }
        }
    }
}

/// A place is listed if and only if the expression finds it in its row as the row is shown, and
/// it is not empty: wherever in the row it is, and whatever else is found there.
pub proof fn what_is_found_is_listed(
    query: Query,
    rows: Seq<RowView>,
    offset: int,
    found: MatchView,
)
    ensures
        all_matches(query, rows, offset).contains(found) <==> {
            &&& offset <= found.row < offset + rows.len()
            &&& found.start != found.end
            &&& finds(query, rows[found.row - offset], found.start, found.end)
        },
    decreases rows.len(),
{
    if rows.len() > 0 {
        let row = offset + rows.len() - 1;
        let before = all_matches(query, rows.drop_last(), offset);
        let last = row_matches(query, rows.last(), row);
        let all = all_matches(query, rows, offset);
        assert(all == before + last);
        what_is_found_is_listed(query, rows.drop_last(), offset, found);
        ranges_are_listed(
            regex_ranges(
                query.source,
                query.ignore_case,
                shown_text(rows.last(), query.timestamps, query.format),
            ),
            row,
            found,
        );
        if offset <= found.row < row {
            assert(rows.drop_last()[found.row - offset] == rows[found.row - offset]);
        }
        if all.contains(found) {
            let i = choose|i: int| 0 <= i < all.len() && all[i] == found;
            if i < before.len() {
                assert(before[i] == found);
            } else {
                assert(last[i - before.len()] == found);
            }
        }
        if before.contains(found) {
            let i = choose|i: int| 0 <= i < before.len() && before[i] == found;
            assert(all[i] == found);
        }
        if last.contains(found) {
            let i = choose|i: int| 0 <= i < last.len() && last[i] == found;
            assert(all[before.len() + i] == found);
        }
    }
}

/// The word stands at this character of the text.
pub open spec fn stands_at(word: Seq<char>, text: Seq<char>, n: int) -> bool {
    0 <= n && n + word.len() <= text.len() && text.subrange(n, n + word.len()) == word
}

/// The range of bytes that the word takes if it stands at a character of the text.
pub open spec fn byte_place(word: Seq<char>, text: Seq<char>, n: int) -> (int, int) {
    (
        encode_utf8(text.take(n)).len() as int,
        (encode_utf8(text.take(n)).len() + encode_utf8(word).len()) as int,
    )
}

/// A range is listed among the occurrences of a word.
pub open spec fn is_listed(ranges: Seq<(usize, usize)>, place: (int, int)) -> bool {
    exists|k: int|
        0 <= k < ranges.len() && (#[trigger] ranges[k]).0 as int == place.0 && ranges[k].1 as int
            == place.1
}

/// The occurrences of a word behind the first `from` characters of a text.
spec fn listed_from(word: Seq<char>, text: Seq<char>, from: int) -> Seq<(usize, usize)> {
    occurrences(word, text.skip(from), text_bytes(text.take(from)) as int)
}

proof fn word_is_taken(word: Seq<char>, text: Seq<char>, from: int)
    requires
        word.len() > 0,
        stands_at(word, text, from),
        text_bytes(text) <= usize::MAX,
    ensures
        ({
            let place = byte_place(word, text, from);
            &&& listed_from(word, text, from) == seq![(place.0 as usize, place.1 as usize)]
                + listed_from(word, text, from + word.len())
            &&& 0 <= place.0 <= place.1 <= usize::MAX
        }),
{
    let rest = text.skip(from);
    let next = from + word.len();
    assert(rest.take(word.len() as int) == text.subrange(from, next));
    assert(text.take(from) + word == text.take(next));
    text_bytes_concat(text.take(from), word);
    text_bytes_is_encoded_len(text.take(from));
    text_bytes_is_encoded_len(word);
    assert(text.take(next) + text.skip(next) == text);
    text_bytes_concat(text.take(next), text.skip(next));
    assert(rest.skip(word.len() as int) == text.skip(next));
}

proof fn word_is_passed(word: Seq<char>, text: Seq<char>, from: int)
    requires
        word.len() > 0,
        0 <= from,
        from + word.len() <= text.len(),
        !stands_at(word, text, from),
    ensures
        listed_from(word, text, from) == listed_from(word, text, from + 1),
{
    let rest = text.skip(from);
    assert(rest.take(word.len() as int) == text.subrange(from, from + word.len()));
    assert(rest.skip(1) == text.skip(from + 1));
    assert(text.take(from + 1) == text.take(from).push(text[from]));
    assert(text.take(from + 1).drop_last() == text.take(from));
}

/// Where a word occurs behind the first `from` characters of a text: at the place of a listed
/// range, or where one overlaps it.
proof fn word_is_listed(word: Seq<char>, text: Seq<char>, from: int, n: int) -> (m: int)
    requires
        word.len() > 0,
        0 <= from <= n,
        stands_at(word, text, n),
        text_bytes(text) <= usize::MAX,
    ensures
        from <= m <= n < m + word.len(),
        stands_at(word, text, m),
        is_listed(listed_from(word, text, from), byte_place(word, text, m)),
    decreases text.len() - from,
{
    let ranges = listed_from(word, text, from);
    if stands_at(word, text, from) {
        word_is_taken(word, text, from);
        let next = from + word.len();
        if n < next {
            let place = byte_place(word, text, from);
            assert(ranges[0] == (place.0 as usize, place.1 as usize));
            from
        } else {
            let m = word_is_listed(word, text, next, n);
            let tail = listed_from(word, text, next);
            let place = byte_place(word, text, m);
            let k = choose|k: int|
                0 <= k < tail.len() && (#[trigger] tail[k]).0 as int == place.0
                    && tail[k].1 as int == place.1;
            assert(ranges[k + 1] == tail[k]);
            m
        }
    } else {
        word_is_passed(word, text, from);
        word_is_listed(word, text, from + 1, n)
    }
}

/// What is listed is a place where the word stands.
proof fn listed_is_word(word: Seq<char>, text: Seq<char>, from: int, k: int) -> (m: int)
    requires
        word.len() > 0,
        0 <= from <= text.len(),
        text_bytes(text) <= usize::MAX,
        0 <= k < listed_from(word, text, from).len(),
    ensures
        from <= m,
        stands_at(word, text, m),
        listed_from(word, text, from)[k].0 as int == byte_place(word, text, m).0,
        listed_from(word, text, from)[k].1 as int == byte_place(word, text, m).1,
    decreases text.len() - from,
{
    let ranges = listed_from(word, text, from);
    assert(from + word.len() <= text.len());
    if stands_at(word, text, from) {
        word_is_taken(word, text, from);
        let next = from + word.len();
        let place = byte_place(word, text, from);
        if k == 0 {
            assert(ranges[0] == (place.0 as usize, place.1 as usize));
            from
        } else {
            assert(ranges[k] == listed_from(word, text, next)[k - 1]);
            listed_is_word(word, text, next, k - 1)
        }
    } else {
        word_is_passed(word, text, from);
        listed_is_word(word, text, from + 1, k)
    }
}

/// There are occurrences of a word if and only if it stands somewhere.
pub proof fn word_is_somewhere(word: Seq<char>, text: Seq<char>)
    requires
        word.len() > 0,
        text_bytes(text) <= usize::MAX,
    ensures
        occurrences(word, text, 0).len() > 0 <==> exists|n: int| #[trigger]
            stands_at(word, text, n),
{
    assert(text.skip(0) == text);
    assert(text_bytes(text.take(0)) == 0);
    if occurrences(word, text, 0).len() > 0 {
        let m = listed_is_word(word, text, 0, 0);
        assert(stands_at(word, text, m));
    }
    if exists|n: int| #[trigger] stands_at(word, text, n) {
        let n = choose|n: int| #[trigger] stands_at(word, text, n);
        let m = word_is_listed(word, text, 0, n);
        assert(is_listed(occurrences(word, text, 0), byte_place(word, text, m)));
    }
}

/// The text of a row as a search sees it.
pub open spec fn searched_text(query: Query, row: RowView) -> Seq<char> {
    shown_text(row, query.timestamps, query.format)
}

/// Looking for a word as it stands, with regard to case, lists every place in every row where
/// it stands, unless a place that is listed overlaps it from the left.
pub proof fn every_word_is_found(
    word: Seq<char>,
    options: SearchDisplayOptions<'_>,
    rows: Seq<RowView>,
    row: int,
    n: int,
) -> (m: int)
    requires
        word.len() > 0,
        0 <= row < rows.len(),
        encode_utf8(searched_text(asked_query(word, true, false, options), rows[row])).len()
            <= usize::MAX,
        stands_at(word, searched_text(asked_query(word, true, false, options), rows[row]), n),
    ensures
        ({
            let query = asked_query(word, true, false, options);
            let text = searched_text(query, rows[row]);
            let place = byte_place(word, text, m);
            &&& m <= n < m + word.len()
            &&& stands_at(word, text, m)
            &&& all_matches(query, rows, 0).contains(
                MatchView { row, start: place.0, end: place.1 },
            )
        }),
{
    let query = asked_query(word, true, false, options);
    let text = searched_text(query, rows[row]);
    text_bytes_is_encoded_len(text);
    text_bytes_is_encoded_len(word);
    assert(text.skip(0) == text);
    assert(text_bytes(text.take(0)) == 0);
    let m = word_is_listed(word, text, 0, n);
    let place = byte_place(word, text, m);
    words_are_found_where_they_occur(word, text);
    assert(word == word.drop_last().push(word.last()));
    assert(text_bytes(word) > 0);
    what_is_found_is_listed(query, rows, 0, MatchView { row, start: place.0, end: place.1 });
    m
}

/// Looking for a word as it stands, with regard to case, lists nothing but places where it
/// stands.
pub proof fn only_the_word_is_found(
    word: Seq<char>,
    options: SearchDisplayOptions<'_>,
    rows: Seq<RowView>,
    found: MatchView,
) -> (m: int)
    requires
        word.len() > 0,
        all_matches(asked_query(word, true, false, options), rows, 0).contains(found),
        0 <= found.row < rows.len() ==> encode_utf8(
            searched_text(asked_query(word, true, false, options), rows[found.row]),
        ).len() <= usize::MAX,
    ensures
        0 <= found.row < rows.len(),
        ({
            let text = searched_text(asked_query(word, true, false, options), rows[found.row]);
            &&& stands_at(word, text, m)
            &&& (found.start, found.end) == byte_place(word, text, m)
        }),
{
    let query = asked_query(word, true, false, options);
    what_is_found_is_listed(query, rows, 0, found);
    let text = searched_text(query, rows[found.row]);
    text_bytes_is_encoded_len(text);
    words_are_found_where_they_occur(word, text);
    assert(text.skip(0) == text);
    assert(text_bytes(text.take(0)) == 0);
    let ranges = occurrences(word, text, 0);
    let k = choose|k: int|
        0 <= k < ranges.len() && (#[trigger] ranges[k]).0 as int == found.start
            && ranges[k].1 as int == found.end;
    listed_is_word(word, text, 0, k)
}

/// A search is for the expression as it was typed, or for the typed text itself, and it regards
/// case if it was asked to.
pub proof fn a_search_is_for_what_was_asked(
    typed: Seq<char>,
    case_sensitive: bool,
    options: SearchDisplayOptions<'_>,
)
    ensures
        asked_query(typed, case_sensitive, true, options).source == typed,
        asked_query(typed, case_sensitive, true, options).ignore_case == !case_sensitive,
        asked_query(typed, case_sensitive, false, options).source == regex_escaped(typed),
        asked_query(typed, case_sensitive, false, options).ignore_case == !case_sensitive,
        forall|row: RowView| #[trigger]
            searched_text(asked_query(typed, case_sensitive, false, options), row)
                == searched_text(asked_query(typed, case_sensitive, true, options), row),
        !options.timestamps ==> forall|row: RowView| #[trigger]
            searched_text(asked_query(typed, case_sensitive, false, options), row) == row.text,
{
}

/// An index is full with a hundred thousand matches; up to there none is left out.
pub proof fn the_first_matches_are_kept(matches: Seq<MatchView>)
    ensures
        matches.len() <= 100_000 ==> within_capacity(matches) == matches,
        matches.len() > 100_000 ==> {
            &&& within_capacity(matches).len() == 100_000
            &&& forall|i: int|
                0 <= i < 100_000 ==> #[trigger] within_capacity(matches)[i] == matches[i]
        },
{
}

/// A row is among the rows of matches if and only if one of the matches is in it.
pub proof fn rows_of_holds(matches: Seq<MatchView>, row: int)
    ensures
        rows_of(matches).contains(row) <==> exists|i: int|
            0 <= i < matches.len() && (#[trigger] matches[i]).row == row,
        matches.len() > 0 ==> rows_of(matches).len() > 0 && rows_of(matches).last()
            == matches.last().row,
    decreases matches.len(),
{
    if matches.len() > 0 {
        let rest = matches.drop_last();
        rows_of_holds(rest, row);
        let before = rows_of(rest);
        let all = rows_of(matches);
        if before.contains(row) {
            let k = choose|k: int| 0 <= k < before.len() && before[k] == row;
            assert(all[k] == row);
            let i = choose|i: int| 0 <= i < rest.len() && (#[trigger] rest[i]).row == row;
            assert(matches[i].row == row);
        }
        if matches.last().row == row {
            assert(matches[matches.len() - 1].row == row);
            assert(all[all.len() - 1] == row);
        }
        if all.contains(row) && !before.contains(row) {
            let k = choose|k: int| 0 <= k < all.len() && all[k] == row;
            if k < before.len() {
                assert(before[k] == row);
            }
        }
        if exists|i: int| 0 <= i < matches.len() && (#[trigger] matches[i]).row == row {
            let i = choose|i: int| 0 <= i < matches.len() && (#[trigger] matches[i]).row == row;
            if i < rest.len() {
                assert(rest[i].row == row);
            }
        }
    } else if rows_of(matches).contains(row) {
        assert(false);
    }
}

/// A row is among the rows with matches, which are all that a filter leaves, if and only if there
/// is a match in it.
pub proof fn rows_with_matches_are_listed(index: SearchIndex, row: usize)
    requires
        index.wf(),
    ensures
        index.matched_rows@.contains(row) <==> exists|i: int|
            0 <= i < index.matches@.len() && (#[trigger] index.matches@[i]).row_index == row,
{
    let views = match_views(index.matches@);
    rows_of_holds(views, row as int);
    let rows = as_ints(index.matched_rows@);
    if index.matched_rows@.contains(row) {
        let k = choose|k: int| 0 <= k < index.matched_rows@.len() && index.matched_rows@[k] == row;
        assert(rows[k] == row as int);
        let i = choose|i: int| 0 <= i < views.len() && (#[trigger] views[i]).row == row as int;
        assert(index.matches@[i].row_index == row);
    }
    if exists|i: int| 0 <= i < index.matches@.len() && (#[trigger] index.matches@[i]).row_index
        == row {
        let i = choose|i: int|
            0 <= i < index.matches@.len() && (#[trigger] index.matches@[i]).row_index == row;
        assert(views[i].row == row as int);
        let k = choose|k: int| 0 <= k < rows.len() && rows[k] == row as int;
        assert(index.matched_rows@[k] == row);
    }
}

} // verus!
