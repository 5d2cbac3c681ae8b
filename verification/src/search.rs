//! Search in the rows on display.

use std::ops::Range;

use vstd::prelude::*;

use crate::chars::text_bytes;
use crate::formatting::rows::{
    display_text, row_views, shown_text, FormattedRow, RowView,
};
use crate::pattern::{
    compile, escape, find_ranges, is_boundary, occurrences, ranges_in_order, regex_escaped,
    regex_ignores_case, regex_ranges, regex_refused, regex_source,
    words_are_found_where_they_occur,
};
use crate::terminal::formatter::{update_applied, UpdateView};

pub mod laws;

verus! {

pub const MAX_SEARCH_MATCHES: usize = 100_000;

/// A place where the query was found: a row, and a range of bytes in its text as shown.
#[derive(Debug, PartialEq, Eq)]
pub struct SearchMatch {
    pub row_index: usize,
    pub byte_range: Range<usize>,
}

/// All places where the query was found.
#[derive(Debug, Clone)]
pub struct SearchIndex {
    pub matches: Vec<SearchMatch>,
    pub matched_rows: Vec<usize>,
    pub error: Option<String>,
    pub truncated: bool,
}

#[derive(Debug)]
pub struct SearchMatcher {
    matcher: regex::Regex,
}

/// How rows are shown.
#[derive(Debug, Clone, Copy)]
pub struct SearchDisplayOptions<'a> {
    pub timestamps: bool,
    pub timestamp_format: &'a str,
}

impl<'a> SearchDisplayOptions<'a> {
    pub fn new(timestamps: bool, timestamp_format: &'a str) -> (options: Self)
        ensures
            options.timestamps == timestamps,
            options.timestamp_format@ == timestamp_format@,
    {
        SearchDisplayOptions { timestamps, timestamp_format }
    }
}

/// What is searched for and how rows are shown.
pub struct Query {
    pub source: Seq<char>,
    pub ignore_case: bool,
    pub timestamps: bool,
    pub format: Seq<char>,
}

/// What a match holds.
pub struct MatchView {
    pub row: int,
    pub start: int,
    pub end: int,
}

impl Clone for SearchMatch {
    fn clone(&self) -> (copy: Self)
        ensures
            copy == *self,
    {
        SearchMatch {
            row_index: self.row_index,
            byte_range: Range { start: self.byte_range.start, end: self.byte_range.end },
        }
    }
}

impl Clone for SearchMatcher {
    fn clone(&self) -> (copy: Self)
        ensures
            copy.source() == self.source(),
            copy.ignores_case() == self.ignores_case(),
    {
        SearchMatcher { matcher: self.matcher.clone() }
    }
}

impl View for SearchMatch {
    type V = MatchView;

    open spec fn view(&self) -> MatchView {
        MatchView {
            row: self.row_index as int,
            start: self.byte_range.start as int,
            end: self.byte_range.end as int,
        }
    }
}

pub open spec fn match_views(matches: Seq<SearchMatch>) -> Seq<MatchView> {
    Seq::new(matches.len(), |i: int| matches[i]@)
}

/// The ranges that are not empty, as matches in a row.
pub open spec fn proper_matches(ranges: Seq<(usize, usize)>, row: int) -> Seq<MatchView>
    decreases ranges.len(),
{
    if ranges.len() == 0 {
        Seq::empty()
    } else {
        let before = proper_matches(ranges.drop_last(), row);
        let (start, end) = ranges.last();
        if start == end {
            before
        } else {
            before.push(MatchView { row, start: start as int, end: end as int })
        }
    }
}

/// The matches in one row.
pub open spec fn row_matches(query: Query, text: RowView, row: int) -> Seq<MatchView> {
    proper_matches(
        regex_ranges(
            query.source,
            query.ignore_case,
            shown_text(text, query.timestamps, query.format),
        ),
        row,
    )
}

/// The matches in a list of rows, of which the first one is the row `offset`.
pub open spec fn all_matches(query: Query, rows: Seq<RowView>, offset: int) -> Seq<MatchView>
    decreases rows.len(),
{
    if rows.len() == 0 {
        Seq::empty()
    } else {
        all_matches(query, rows.drop_last(), offset) + row_matches(
            query,
            rows.last(),
            offset + rows.len() - 1,
        )
    }
}

/// The rows that matches are in, each one once.
pub open spec fn rows_of(matches: Seq<MatchView>) -> Seq<int>
    decreases matches.len(),
{
    if matches.len() == 0 {
        Seq::empty()
    } else {
        let before = rows_of(matches.drop_last());
        if before.len() > 0 && before.last() == matches.last().row {
            before
        } else {
            before.push(matches.last().row)
        }
    }
}

/// Matches in the order of their rows.
pub open spec fn in_row_order(matches: Seq<MatchView>) -> bool {
    forall|i: int, j: int|
        0 <= i <= j < matches.len() ==> (#[trigger] matches[i]).row <= (#[trigger] matches[j]).row
}

/// Matches that are not empty, of which those in one row follow one another without overlap.
pub open spec fn are_apart(matches: Seq<MatchView>) -> bool {
    &&& forall|i: int|
        0 <= i < matches.len() ==> 0 <= (#[trigger] matches[i]).start < matches[i].end
    &&& forall|i: int, j: int|
        0 <= i < j < matches.len() && (#[trigger] matches[i]).row == (#[trigger] matches[j]).row
            ==> matches[i].end <= matches[j].start
}

/// A match lies within one of the rows as they are shown, and begins and ends between
/// characters. The first one is the row `offset`.
pub open spec fn lies_in(found: MatchView, query: Query, rows: Seq<RowView>, offset: int) -> bool {
    &&& offset <= found.row < offset + rows.len()
    &&& {
        let text = shown_text(rows[found.row - offset], query.timestamps, query.format);
        &&& found.end <= text_bytes(text)
        &&& is_boundary(text, found.start)
        &&& is_boundary(text, found.end)
    }
}

pub open spec fn all_lie_in(matches: Seq<MatchView>, query: Query, rows: Seq<RowView>) -> bool {
    forall|i: int| 0 <= i < matches.len() ==> lies_in(#[trigger] matches[i], query, rows, 0)
}

/// A query that looks for a word, letter by letter.
pub open spec fn looks_for(query: Query, word: Seq<char>) -> bool {
    query.source == regex_escaped(word) && !query.ignore_case && word.len() > 0
}

/// The places of a word in one row as it is shown.
pub open spec fn row_occurrences(word: Seq<char>, query: Query, text: RowView, row: int) -> Seq<
    MatchView,
> {
    proper_matches(
        occurrences(word, shown_text(text, query.timestamps, query.format), 0),
        row,
    )
}

/// The places of a word in a list of rows, of which the first one is the row `offset`.
pub open spec fn all_occurrences(
    word: Seq<char>,
    query: Query,
    rows: Seq<RowView>,
    offset: int,
) -> Seq<MatchView>
    decreases rows.len(),
{
    if rows.len() == 0 {
        Seq::empty()
    } else {
        all_occurrences(word, query, rows.drop_last(), offset) + row_occurrences(
            word,
            query,
            rows.last(),
            offset + rows.len() - 1,
        )
    }
}

pub open spec fn as_ints(rows: Seq<usize>) -> Seq<int> {
    Seq::new(rows.len(), |i: int| rows[i] as int)
}

/// The expression to search for.
pub open spec fn search_source(query: Seq<char>, regex_mode: bool) -> Seq<char> {
    if regex_mode {
        query
    } else {
        regex_escaped(query)
    }
}

/// The expression to search for was refused, and the message says why.
pub open spec fn search_fails(
    query: Seq<char>,
    case_sensitive: bool,
    regex_mode: bool,
    message: Seq<char>,
) -> bool {
    exists|reason: Seq<char>|
        {
            &&& message == #[trigger] ("正则表达式无效："@ + reason)
            &&& regex_refused(search_source(query, regex_mode), !case_sensitive, reason)
        }
}

impl SearchMatcher {
    /// The expression that is searched for.
    pub closed spec fn source(self) -> Seq<char> {
        regex_source(self.matcher)
    }

    pub closed spec fn ignores_case(self) -> bool {
        regex_ignores_case(self.matcher)
    }

    /// The query of this matcher on rows that are shown in this way.
    pub open spec fn query(self, options: SearchDisplayOptions<'_>) -> Query {
        Query {
            source: self.source(),
            ignore_case: self.ignores_case(),
            timestamps: options.timestamps,
            format: options.timestamp_format@,
        }
    }

    /// A matcher for a query, or `None` for an empty one. Whether an expression compiles is up
    /// to the regular expression library.
    pub fn new(query: &str, case_sensitive: bool, regex_mode: bool) -> (result: Result<
        Option<Self>,
        String,
    >)
        ensures
            query@.len() == 0 ==> result matches Ok(None),
            query@.len() > 0 ==> match result {
                Ok(matcher) => matcher matches Some(matcher) && matcher.source() == search_source(
                    query@,
                    regex_mode,
                ) && matcher.ignores_case() == !case_sensitive,
                Err(message) => search_fails(query@, case_sensitive, regex_mode, message@),
            },
    {
        if query.is_empty() {
            return Ok(None);
        }
        let source = if regex_mode {
            query.to_owned()
        } else {
            escape(query)
        };
        let compiled = compile(source.as_str(), !case_sensitive);
        let ghost outcome = compiled;
        let result = Self::from_compiled(compiled);
        assert(outcome matches Err(reason) ==> result matches Err(message) && message@
            == "正则表达式无效："@ + reason@);
        result
    }

    /// A matcher from what came of compiling its expression.
    pub fn from_compiled(compiled: Result<regex::Regex, String>) -> (result: Result<
        Option<Self>,
        String,
    >)
        ensures
            match compiled {
                Ok(regex) => result matches Ok(Some(matcher)) && matcher.source() == regex_source(
                    regex,
                ) && matcher.ignores_case() == regex_ignores_case(regex),
                Err(reason) => result matches Err(message) && message@ == "正则表达式无效："@
                    + reason@,
            },
    {
        match compiled {
            Ok(matcher) => Ok(Some(SearchMatcher { matcher })),
            Err(reason) => {
                let mut message = "正则表达式无效：".to_owned();
                message.append(reason.as_str());
                Err(message)
            },
        }
    }
}

/// The number of matches in rows before `row`.
fn matches_before(matches: &Vec<SearchMatch>, row: usize) -> (count: usize)
    requires
        in_row_order(match_views(matches@)),
    ensures
        count <= matches@.len(),
        forall|i: int| 0 <= i < count ==> (#[trigger] matches@[i]).row_index < row,
        forall|i: int| count <= i < matches@.len() ==> (#[trigger] matches@[i]).row_index >= row,
{
    let mut low: usize = 0;
    let mut high: usize = matches.len();
    while low < high
        invariant
            low <= high <= matches@.len(),
            in_row_order(match_views(matches@)),
            forall|i: int| 0 <= i < low ==> (#[trigger] matches@[i]).row_index < row,
            forall|i: int| high <= i < matches@.len() ==> (#[trigger] matches@[i]).row_index >= row,
        decreases high - low,
    {
        let middle: usize = low + (high - low) / 2;
        let ghost views = match_views(matches@);
        assert(forall|i: int| 0 <= i < views.len() ==> (#[trigger] matches@[i]).row_index == views[i].row);
        if matches[middle].row_index < row {
            low = middle + 1;
        } else {
            high = middle;
        }
    }
    low
}

/// The number of listed rows before `row`.
fn rows_before(rows: &Vec<usize>, row: usize) -> (count: usize)
    requires
        forall|i: int, j: int| 0 <= i <= j < rows@.len() ==> rows@[i] <= rows@[j],
    ensures
        count <= rows@.len(),
        forall|i: int| 0 <= i < count ==> rows@[i] < row,
        forall|i: int| count <= i < rows@.len() ==> rows@[i] >= row,
{
    let mut low: usize = 0;
    let mut high: usize = rows.len();
    while low < high
        invariant
            low <= high <= rows@.len(),
            forall|i: int, j: int| 0 <= i <= j < rows@.len() ==> rows@[i] <= rows@[j],
            forall|i: int| 0 <= i < low ==> rows@[i] < row,
            forall|i: int| high <= i < rows@.len() ==> rows@[i] >= row,
        decreases high - low,
    {
        let middle: usize = low + (high - low) / 2;
        if rows[middle] < row {
            low = middle + 1;
        } else {
            high = middle;
        }
    }
    low
}

/// The matches in rows from `first` on, counted anew from there.
pub open spec fn matches_from(matches: Seq<MatchView>, first: int) -> Seq<MatchView>
    decreases matches.len(),
{
    if matches.len() == 0 {
        Seq::empty()
    } else {
        let before = matches_from(matches.drop_last(), first);
        let last = matches.last();
        if last.row >= first {
            before.push(MatchView { row: last.row - first, ..last })
        } else {
            before
        }
    }
}

/// The matches in rows before `end`.
pub open spec fn matches_below(matches: Seq<MatchView>, end: int) -> Seq<MatchView>
    decreases matches.len(),
{
    if matches.len() == 0 {
        Seq::empty()
    } else {
        let before = matches_below(matches.drop_last(), end);
        if matches.last().row < end {
            before.push(matches.last())
        } else {
            before
        }
    }
}

/// The matches in one row.
pub open spec fn matches_at(matches: Seq<MatchView>, row: int) -> Seq<MatchView>
    decreases matches.len(),
{
    if matches.len() == 0 {
        Seq::empty()
    } else {
        let before = matches_at(matches.drop_last(), row);
        if matches.last().row == row {
            before.push(matches.last())
        } else {
            before
        }
    }
}

/// Matches in order, of which those from `start` to `end` are in one row.
pub proof fn matches_at_are_together(matches: Seq<MatchView>, row: int, start: int, end: int)
    requires
        0 <= start <= end <= matches.len(),
        forall|i: int| 0 <= i < start ==> (#[trigger] matches[i]).row < row,
        forall|i: int| start <= i < matches.len() ==> (#[trigger] matches[i]).row >= row,
        forall|i: int|
            0 <= i < matches.len() ==> (start <= i < end <==> (#[trigger] matches[i]).row == row),
    ensures
        matches_at(matches, row) == matches.subrange(start, end),
        matches_below(matches, row).len() == start,
    decreases matches.len(),
{
    if matches.len() > 0 {
        let before = matches.drop_last();
        let last = matches.len() - 1;
        assert(forall|i: int| 0 <= i < before.len() ==> before[i] == matches[i]);
        let (s, e) = (
            if start > last {
                last
            } else {
                start
            },
            if end > last {
                last
            } else {
                end
            },
        );
        assert(matches[last] == matches.last());
        matches_at_are_together(before, row, s, e);
        if end > last && start <= last {
            assert(before.subrange(start, last).push(matches.last()) == matches.subrange(
                start,
                end,
            ));
        } else {
            assert(before.subrange(s, e) == matches.subrange(start, end));
        }
    } else {
        assert(matches.subrange(start, end) == Seq::<MatchView>::empty());
    }
}

/// At most as many matches as an index may hold.
pub open spec fn within_capacity(matches: Seq<MatchView>) -> Seq<MatchView> {
    if matches.len() > MAX_SEARCH_MATCHES {
        matches.take(MAX_SEARCH_MATCHES as int)
    } else {
        matches
    }
}

impl Default for SearchIndex {
    fn default() -> (index: Self)
        ensures
            index.wf(),
            index.matches@.len() == 0,
            index.error is None,
            !index.truncated,
    {
        let index = SearchIndex {
            matches: Vec::new(),
            matched_rows: Vec::new(),
            error: None,
            truncated: false,
        };
        assert(match_views(index.matches@) =~= Seq::<MatchView>::empty());
        assert(as_ints(index.matched_rows@) =~= Seq::<int>::empty());
        index
    }
}

proof fn rows_of_last(matches: Seq<MatchView>)
    ensures
        matches.len() > 0 ==> rows_of(matches).len() > 0 && rows_of(matches).last()
            == matches.last().row,
{
}

proof fn rows_of_below(matches: Seq<MatchView>, high: int)
    requires
        forall|i: int| 0 <= i < matches.len() ==> (#[trigger] matches[i]).row < high,
    ensures
        forall|i: int| 0 <= i < rows_of(matches).len() ==> #[trigger] rows_of(matches)[i] < high,
    decreases matches.len(),
{
    if matches.len() > 0 {
        let before = matches.drop_last();
        assert forall|i: int| 0 <= i < before.len() implies (#[trigger] before[i]).row < high by {
            assert(before[i] == matches[i]);
        }
        rows_of_below(before, high);
        assert(matches[matches.len() - 1].row < high);
        let rows = rows_of(before);
        assert forall|i: int| 0 <= i < rows_of(matches).len() implies #[trigger] rows_of(matches)[i]
            < high by {
            if i < rows.len() {
                assert(rows_of(matches)[i] == rows[i]);
            }
        }
    }
}

proof fn rows_of_above(matches: Seq<MatchView>, low: int)
    requires
        forall|i: int| 0 <= i < matches.len() ==> (#[trigger] matches[i]).row >= low,
    ensures
        forall|i: int| 0 <= i < rows_of(matches).len() ==> #[trigger] rows_of(matches)[i] >= low,
    decreases matches.len(),
{
    if matches.len() > 0 {
        let before = matches.drop_last();
        assert forall|i: int| 0 <= i < before.len() implies (#[trigger] before[i]).row >= low by {
            assert(before[i] == matches[i]);
        }
        rows_of_above(before, low);
        assert(matches[matches.len() - 1].row >= low);
        let rows = rows_of(before);
        assert forall|i: int| 0 <= i < rows_of(matches).len() implies #[trigger] rows_of(matches)[i]
            >= low by {
            if i < rows.len() {
                assert(rows_of(matches)[i] == rows[i]);
            }
        }
    }
}

/// The rows of matches in order are in order, without repetition.
pub proof fn rows_of_increase(matches: Seq<MatchView>)
    requires
        in_row_order(matches),
    ensures
        forall|i: int, j: int|
            0 <= i < j < rows_of(matches).len() ==> rows_of(matches)[i] < rows_of(matches)[j],
    decreases matches.len(),
{
    if matches.len() > 0 {
        let before = matches.drop_last();
        let row = matches.last().row;
        rows_of_increase(before);
        rows_of_last(before);
        assert forall|i: int| 0 <= i < before.len() implies (#[trigger] before[i]).row < row + 1 by {
            assert(matches[i].row <= matches[matches.len() - 1].row);
        }
        rows_of_below(before, row + 1);
        let rows = rows_of(before);
        assert forall|i: int, j: int| 0 <= i < j < rows_of(matches).len() implies rows_of(
            matches,
        )[i] < rows_of(matches)[j] by {
            assert(rows_of(matches)[i] == rows[i]);
            if j < rows.len() {
                assert(rows_of(matches)[j] == rows[j]);
            } else {
                assert(rows[i] < row + 1);
                if i < rows.len() - 1 {
                    assert(rows[i] < rows[rows.len() - 1]);
                }
            }
        }
    }
}

/// Matches in earlier rows and matches in later ones are in the rows of either.
proof fn rows_of_concat(a: Seq<MatchView>, b: Seq<MatchView>, border: int)
    requires
        forall|i: int| 0 <= i < a.len() ==> (#[trigger] a[i]).row < border,
        forall|i: int| 0 <= i < b.len() ==> (#[trigger] b[i]).row >= border,
    ensures
        rows_of(a + b) == rows_of(a) + rows_of(b),
    decreases b.len(),
{
    if b.len() == 0 {
        assert(a + b == a);
        assert(rows_of(a) + rows_of(b) == rows_of(a));
    } else {
        assert((a + b).drop_last() == a + b.drop_last());
        rows_of_concat(a, b.drop_last(), border);
        rows_of_last(a);
        rows_of_last(b.drop_last());
        if b.len() == 1 {
            assert(rows_of(b.drop_last()) == Seq::<int>::empty());
            assert(rows_of(a) + Seq::<int>::empty() == rows_of(a));
        }
        assert(rows_of(a + b) == rows_of(a) + rows_of(b));
    }
}

/// Matches that are in order split at a row.
proof fn matches_split(matches: Seq<MatchView>, count: int, row: int)
    requires
        0 <= count <= matches.len(),
        forall|i: int| 0 <= i < count ==> (#[trigger] matches[i]).row < row,
        forall|i: int| count <= i < matches.len() ==> (#[trigger] matches[i]).row >= row,
    ensures
        matches_below(matches, row) == matches.take(count),
        matches_from(matches, row) == Seq::new(
            (matches.len() - count) as nat,
            |i: int| MatchView { row: matches[count + i].row - row, ..matches[count + i] },
        ),
        rows_of(matches) == rows_of(matches.take(count)) + rows_of(matches.skip(count)),
        forall|i: int|
            0 <= i < rows_of(matches.take(count)).len() ==> #[trigger] rows_of(
                matches.take(count),
            )[i] < row,
        forall|i: int|
            0 <= i < rows_of(matches.skip(count)).len() ==> #[trigger] rows_of(
                matches.skip(count),
            )[i] >= row,
    decreases matches.len(),
{
    let (head, tail) = (matches.take(count), matches.skip(count));
    assert(head + tail == matches);
    rows_of_concat(head, tail, row);
    rows_of_below(head, row);
    rows_of_above(tail, row);
    if matches.len() > 0 {
        let rest = matches.drop_last();
        if count < matches.len() {
            matches_split(rest, count, row);
            assert(rest.take(count) == head);
        } else {
            matches_split(rest, count - 1, row);
            assert(rest.take(count - 1).push(matches.last()) == head);
        }
    }
    assert(matches_from(matches, row) == Seq::new(
        (matches.len() - count) as nat,
        |i: int| MatchView { row: matches[count + i].row - row, ..matches[count + i] },
    ));
}

/// Counting rows from a later one counts the rows of matches from there, too.
proof fn rows_of_shifted(matches: Seq<MatchView>, first: int)
    ensures
        rows_of(Seq::new(matches.len(), |i: int| MatchView { row: matches[i].row - first, ..matches[i] }))
            == Seq::new(rows_of(matches).len(), |i: int| rows_of(matches)[i] - first),
    decreases matches.len(),
{
    let shifted = Seq::new(
        matches.len(),
        |i: int| MatchView { row: matches[i].row - first, ..matches[i] },
    );
    let rows = Seq::new(rows_of(matches).len(), |i: int| rows_of(matches)[i] - first);
    if matches.len() > 0 {
        let before = matches.drop_last();
        rows_of_shifted(before, first);
        assert(shifted.drop_last() == Seq::new(
            before.len(),
            |i: int| MatchView { row: before[i].row - first, ..before[i] },
        ));
        assert(rows_of(shifted) == rows);
    } else {
        assert(rows_of(shifted) == rows);
    }
}

impl SearchIndex {
    /// The matches are in the order of their rows and do not overlap, and the list of rows agrees
    /// with them.
    pub open spec fn wf(self) -> bool {
        &&& in_row_order(match_views(self.matches@))
        &&& are_apart(match_views(self.matches@))
        &&& as_ints(self.matched_rows@) == rows_of(match_views(self.matches@))
        &&& !self.truncated ==> self.matches@.len() < MAX_SEARCH_MATCHES
        &&& self.matches@.len() <= MAX_SEARCH_MATCHES
    }

    /// The number of matches before a row, and the matches in it.
    pub fn matches_for_row(&self, row_index: usize) -> (result: (usize, &[SearchMatch]))
        requires
            self.wf(),
        ensures
            ({
                let (start, found) = (result.0 as int, result.1@);
                &&& start + found.len() <= self.matches@.len()
                &&& found == self.matches@.subrange(start, start + found.len())
                &&& forall|i: int|
                    0 <= i < self.matches@.len() ==> (start <= i < start + found.len() <==> (
                    #[trigger] self.matches@[i]).row_index == row_index)
                &&& forall|i: int|
                    0 <= i < start ==> (#[trigger] self.matches@[i]).row_index < row_index
                &&& forall|i: int|
                    start <= i < self.matches@.len() ==> (#[trigger] self.matches@[i]).row_index
                        >= row_index
                &&& forall|i: int|
                    0 <= i < found.len() ==> (#[trigger] found[i]).byte_range.start
                        < found[i].byte_range.end
            }),
    {
        let start: usize = matches_before(&self.matches, row_index);
        let end: usize = if row_index == usize::MAX {
            self.matches.len()
        } else {
            matches_before(&self.matches, row_index + 1)
        };
        proof {
            if start > end {
                assert(self.matches@[end as int].row_index >= row_index + 1);
            }
        }
        let found = vstd::slice::slice_subrange(self.matches.as_slice(), start, end);
        proof {
            let views = match_views(self.matches@);
            assert forall|i: int| 0 <= i < found@.len() implies (
            #[trigger] found@[i]).byte_range.start < found@[i].byte_range.end by {
                assert(found@[i]@ == views[start + i]);
            }
        }
        (start, found)
    }

    /// The number of rows with a match among the first `total_rows` rows.
    pub fn matched_row_count(&self, total_rows: usize) -> (count: usize)
        requires
            self.wf(),
        ensures
            count <= self.matched_rows@.len(),
            forall|i: int| 0 <= i < count ==> self.matched_rows@[i] < total_rows,
            forall|i: int|
                count <= i < self.matched_rows@.len() ==> self.matched_rows@[i] >= total_rows,
    {
        proof {
            self.rows_are_sorted();
        }
        rows_before(&self.matched_rows, total_rows)
    }

    proof fn rows_are_sorted(self)
        requires
            self.wf(),
        ensures
            forall|i: int, j: int|
                0 <= i <= j < self.matched_rows@.len() ==> self.matched_rows@[i]
                    <= self.matched_rows@[j],
    {
        let rows = rows_of(match_views(self.matches@));
        rows_of_increase(match_views(self.matches@));
        assert forall|i: int, j: int| 0 <= i <= j < self.matched_rows@.len() implies
            self.matched_rows@[i] <= self.matched_rows@[j] by {
            assert(rows[i] == self.matched_rows@[i]);
            assert(rows[j] == self.matched_rows@[j]);
        }
    }

    /// Forgets the matches in the first rows, which have left the display.
    fn remove_rows(&mut self, count: usize)
        requires
            old(self).wf(),
        ensures
            final(self).wf(),
            match_views(final(self).matches@) == matches_from(
                match_views(old(self).matches@),
                count as int,
            ),
            final(self).error == old(self).error,
            final(self).truncated == old(self).truncated,
    {
        let ghost views = match_views(self.matches@);
        let ghost rows = rows_of(views);
        let first: usize = matches_before(&self.matches, count);
        proof {
            self.rows_are_sorted();
            matches_split(views, first as int, count as int);
        }
        let first_row: usize = rows_before(&self.matched_rows, count);
        let ghost row_list = as_ints(self.matched_rows@);
        let ghost before_rows = self.matched_rows@;
        let mut matches = self.matches.split_off(first);
        let mut matched_rows = self.matched_rows.split_off(first_row);
        let ghost kept = views.skip(first as int);
        proof {
            let head = rows_of(views.take(first as int));
            assert(row_list == rows);
            assert(rows.len() == head.len() + rows_of(kept).len());
            assert(first_row == head.len()) by {
                let at = first_row as int;
                if first_row < head.len() {
                    assert(rows[at] == head[at]);
                    assert(row_list[at] == before_rows[at]);
                } else if first_row > head.len() {
                    let tail = rows_of(kept);
                    let border = head.len() as int;
                    assert(rows[border] == tail[0]);
                    assert(row_list[border] == before_rows[border]);
                }
            }
            assert(as_ints(matched_rows@) =~= row_list.skip(first_row as int));
            assert(as_ints(matched_rows@) =~= rows_of(kept));
            assert(match_views(matches@) == kept);
            rows_of_shifted(kept, count as int);
        }
        let mut i: usize = 0;
        while i < matches.len()
            invariant
                i <= matches@.len(),
                matches@.len() == kept.len(),
                forall|k: int| 0 <= k < kept.len() ==> (#[trigger] kept[k]).row >= count,
                forall|k: int|
                    0 <= k < i ==> (#[trigger] matches@[k])@ == (MatchView {
                        row: kept[k].row - count,
                        ..kept[k]
                    }),
                forall|k: int| i <= k < kept.len() ==> (#[trigger] matches@[k])@ == kept[k],
            decreases matches@.len() - i,
        {
            let item = &matches[i];
            assert(item@ == kept[i as int]);
            let shifted = SearchMatch {
                row_index: item.row_index - count,
                byte_range: Range { start: item.byte_range.start, end: item.byte_range.end },
            };
            matches.set(i, shifted);
            i += 1;
        }
        let ghost kept_rows = rows_of(kept);
        let mut i: usize = 0;
        while i < matched_rows.len()
            invariant
                i <= matched_rows@.len(),
                matched_rows@.len() == kept_rows.len(),
                forall|k: int| 0 <= k < kept_rows.len() ==> (#[trigger] kept_rows[k]) >= count,
                forall|k: int|
                    0 <= k < i ==> (#[trigger] matched_rows@[k]) as int == kept_rows[k] - count,
                forall|k: int|
                    i <= k < kept_rows.len() ==> (#[trigger] matched_rows@[k]) as int
                        == kept_rows[k],
            decreases matched_rows@.len() - i,
        {
            let row: usize = matched_rows[i];
            assert(row as int == kept_rows[i as int]);
            matched_rows.set(i, row - count);
            i += 1;
        }
        self.matches = matches;
        self.matched_rows = matched_rows;
        proof {
            let shifted = Seq::new(
                kept.len(),
                |k: int| MatchView { row: kept[k].row - count, ..kept[k] },
            );
            assert(match_views(self.matches@) =~= shifted);
            assert(shifted =~= matches_from(views, count as int));
            assert forall|i: int, j: int|
                0 <= i < j < shifted.len() && (#[trigger] shifted[i]).row == (
                #[trigger] shifted[j]).row implies shifted[i].end <= shifted[j].start by {
                assert(views[first + i].row == views[first + j].row);
            }
            assert forall|i: int| 0 <= i < shifted.len() implies 0 <= (
            #[trigger] shifted[i]).start < shifted[i].end by {
                assert(shifted[i].start == views[first + i].start);
            }
            assert(as_ints(self.matched_rows@) =~= Seq::new(
                kept_rows.len(),
                |k: int| kept_rows[k] - count,
            ));
        }
    }

    /// Forgets the matches from a row on.
    fn clip_rows(&mut self, end: usize)
        requires
            old(self).wf(),
        ensures
            final(self).wf(),
            match_views(final(self).matches@) == matches_below(
                match_views(old(self).matches@),
                end as int,
            ),
            final(self).error == old(self).error,
            final(self).truncated == old(self).truncated,
    {
        let ghost views = match_views(self.matches@);
        let ghost rows = rows_of(views);
        let count: usize = matches_before(&self.matches, end);
        proof {
            self.rows_are_sorted();
            matches_split(views, count as int, end as int);
        }
        let row_count: usize = rows_before(&self.matched_rows, end);
        proof {
            let head = rows_of(views.take(count as int));
            let row_list = as_ints(self.matched_rows@);
            assert(row_list == rows);
            assert(rows.len() == head.len() + rows_of(views.skip(count as int)).len());
            assert(row_count == head.len()) by {
                let at = row_count as int;
                if row_count < head.len() {
                    assert(rows[at] == head[at]);
                    assert(row_list[at] == self.matched_rows@[at]);
                } else if row_count > head.len() {
                    let tail = rows_of(views.skip(count as int));
                    let border = head.len() as int;
                    assert(rows[border] == tail[0]);
                    assert(row_list[border] == self.matched_rows@[border]);
                }
            }
        }
        self.matches.truncate(count);
        self.matched_rows.truncate(row_count);
        proof {
            let head = rows_of(views.take(count as int));
            assert(match_views(self.matches@) =~= views.take(count as int));
            assert(as_ints(self.matched_rows@) =~= rows.take(row_count as int));
            assert(as_ints(self.matched_rows@) =~= head);
        }
    }
}

proof fn proper_matches_in_row(ranges: Seq<(usize, usize)>, row: int)
    ensures
        forall|i: int|
            0 <= i < proper_matches(ranges, row).len() ==> (#[trigger] proper_matches(
                ranges,
                row,
            )[i]).row == row,
    decreases ranges.len(),
{
    if ranges.len() > 0 {
        let before = proper_matches(ranges.drop_last(), row);
        proper_matches_in_row(ranges.drop_last(), row);
        let all = proper_matches(ranges, row);
        assert forall|i: int| 0 <= i < all.len() implies (#[trigger] all[i]).row == row by {
            if i < before.len() {
                assert(all[i] == before[i]);
            }
        }
    }
}

proof fn all_matches_rows(query: Query, rows: Seq<RowView>, offset: int)
    ensures
        in_row_order(all_matches(query, rows, offset)),
        forall|i: int|
            0 <= i < all_matches(query, rows, offset).len() ==> offset <= (#[trigger] all_matches(
                query,
                rows,
                offset,
            )[i]).row < offset + rows.len(),
    decreases rows.len(),
{
    if rows.len() > 0 {
        let row = offset + rows.len() - 1;
        let before = all_matches(query, rows.drop_last(), offset);
        all_matches_rows(query, rows.drop_last(), offset);
        let text = shown_text(rows.last(), query.timestamps, query.format);
        let ranges = regex_ranges(query.source, query.ignore_case, text);
        proper_matches_in_row(ranges, row);
        let all = all_matches(query, rows, offset);
        assert forall|i: int| 0 <= i < all.len() implies offset <= (#[trigger] all[i]).row < offset
            + rows.len() by {
            if i < before.len() {
                assert(all[i] == before[i]);
            } else {
                assert(all[i] == proper_matches(ranges, row)[i - before.len()]);
            }
        }
        assert forall|i: int, j: int| 0 <= i <= j < all.len() implies (#[trigger] all[i]).row <= (
        #[trigger] all[j]).row by {
            if j < before.len() {
                assert(all[i] == before[i] && all[j] == before[j]);
            } else {
                assert(all[j] == proper_matches(ranges, row)[j - before.len()]);
                if i < before.len() {
                    assert(all[i] == before[i]);
                } else {
                    assert(all[i] == proper_matches(ranges, row)[i - before.len()]);
                }
            }
        }
    }
}

/// An index with one more match at its end.
proof fn index_push(index: SearchIndex, matches: Seq<MatchView>, found: MatchView)
    requires
        in_row_order(match_views(index.matches@)),
        as_ints(index.matched_rows@) == rows_of(match_views(index.matches@)),
        forall|i: int|
            0 <= i < index.matches@.len() ==> (#[trigger] index.matches@[i]).row_index
                <= found.row,
        matches == match_views(index.matches@).push(found),
    ensures
        in_row_order(matches),
        ({
            let rows = as_ints(index.matched_rows@);
            let known = rows.len() > 0 && rows.last() == found.row;
            rows_of(matches) == if known {
                rows
            } else {
                rows.push(found.row)
            }
        }),
{
    assert(matches.drop_last() == match_views(index.matches@));
    let views = match_views(index.matches@);
    assert forall|i: int, j: int| 0 <= i <= j < matches.len() implies (#[trigger] matches[i]).row <= (
    #[trigger] matches[j]).row by {
        if i < views.len() {
            assert(views[i].row == index.matches@[i].row_index);
        }
        if j < views.len() {
            assert(views[i].row <= views[j].row);
        }
    }
}

impl SearchIndex {
    /// Adds a match at the end.
    fn push_match(&mut self, row_index: usize, start: usize, end: usize)
        requires
            old(self).wf(),
            !old(self).truncated,
            forall|i: int|
                0 <= i < old(self).matches@.len() ==> (#[trigger] old(self).matches@[i]).row_index
                    <= row_index,
            start < end,
            forall|i: int|
                0 <= i < old(self).matches@.len() && (#[trigger] old(self).matches@[i]).row_index
                    == row_index ==> old(self).matches@[i].byte_range.end <= start,
        ensures
            final(self).wf(),
            match_views(final(self).matches@) == match_views(old(self).matches@).push(
                MatchView { row: row_index as int, start: start as int, end: end as int },
            ),
            final(self).error == old(self).error,
            final(self).truncated == (final(self).matches@.len() >= MAX_SEARCH_MATCHES),
    {
        let ghost found = MatchView {
            row: row_index as int,
            start: start as int,
            end: end as int,
        };
        let ghost before = match_views(self.matches@);
        proof {
            index_push(*self, before.push(found), found);
        }
        let count: usize = self.matched_rows.len();
        let ghost rows = as_ints(self.matched_rows@);
        if count == 0 || self.matched_rows[count - 1] != row_index {
            self.matched_rows.push(row_index);
            assert(as_ints(self.matched_rows@) =~= rows.push(row_index as int));
        }
        self.matches.push(SearchMatch { row_index, byte_range: Range { start, end } });
        assert(match_views(self.matches@) =~= before.push(found));
        proof {
            let views = match_views(self.matches@);
            assert forall|i: int, j: int|
                0 <= i < j < views.len() && (#[trigger] views[i]).row == (
                #[trigger] views[j]).row implies views[i].end <= views[j].start by {
                assert(views[i] == before[i]);
                assert(old(self).matches@[i]@ == before[i]);
            }
        }
        if self.matches.len() >= MAX_SEARCH_MATCHES {
            self.truncated = true;
        }
    }

    /// Adds the matches in one row, as far as there is room.
    fn append_row(
        &mut self,
        row: &FormattedRow,
        row_index: usize,
        matcher: &SearchMatcher,
        options: SearchDisplayOptions<'_>,
    )
        requires
            old(self).wf(),
            !old(self).truncated,
            forall|i: int|
                0 <= i < old(self).matches@.len() ==> (#[trigger] old(self).matches@[i]).row_index
                    < row_index,
        ensures
            final(self).wf(),
            final(self).error == old(self).error,
            ({
                let all = match_views(old(self).matches@) + row_matches(
                    matcher.query(options),
                    row@,
                    row_index as int,
                );
                &&& match_views(final(self).matches@) == within_capacity(all)
                &&& final(self).truncated == (all.len() >= MAX_SEARCH_MATCHES)
                &&& forall|i: int|
                    0 <= i < final(self).matches@.len() ==> (
                    #[trigger] final(self).matches@[i]).row_index <= row_index
            }),
            forall|i: int|
                old(self).matches@.len() <= i < final(self).matches@.len() ==> lies_in(
                    (#[trigger] final(self).matches@[i])@,
                    matcher.query(options),
                    seq![row@],
                    row_index as int,
                ),
    {
        let text = display_text(row, options.timestamps, options.timestamp_format);
        let ranges = find_ranges(&matcher.matcher, text.as_str());
        let ghost before = match_views(self.matches@);
        let ghost row_int = row_index as int;
        let ghost query = matcher.query(options);
        let mut i: usize = 0;
        assert(before + proper_matches(ranges@.take(0), row_int) =~= before);
        while i < ranges.len() && !self.truncated
            invariant
                i <= ranges@.len(),
                self.wf(),
                self.error == old(self).error,
                row_int == row_index,
                ranges_in_order(text@, ranges@),
                text@ == shown_text(row@, query.timestamps, query.format),
                forall|k: int, j: int|
                    0 <= k < self.matches@.len() && i <= j < ranges@.len() && (
                    #[trigger] self.matches@[k]).row_index == row_index
                        ==> self.matches@[k].byte_range.end <= (#[trigger] ranges@[j]).0,
                before.len() <= self.matches@.len(),
                forall|k: int|
                    before.len() <= k < self.matches@.len() ==> lies_in(
                        (#[trigger] self.matches@[k])@,
                        query,
                        seq![row@],
                        row_int,
                    ),
                match_views(self.matches@) == before + proper_matches(
                    ranges@.take(i as int),
                    row_int,
                ),
                self.truncated == (self.matches@.len() >= MAX_SEARCH_MATCHES),
                forall|k: int|
                    0 <= k < self.matches@.len() ==> (#[trigger] self.matches@[k]).row_index
                        <= row_index,
            decreases ranges@.len() - i,
        {
            let (start, end) = ranges[i];
            let ghost done = proper_matches(ranges@.take(i as int), row_int);
            assert(ranges@.take(i + 1).drop_last() == ranges@.take(i as int));
            if start != end {
                let ghost matches_before_push = self.matches@;
                self.push_match(row_index, start, end);
                proof {
                    let found = MatchView { row: row_int, start: start as int, end: end as int };
                    assert(before + done.push(found) =~= (before + done).push(found));
                    assert forall|k: int| 0 <= k < self.matches@.len() implies {
                        &&& (#[trigger] self.matches@[k]).row_index <= row_index
                        &&& k < matches_before_push.len() ==> self.matches@[k]@
                            == matches_before_push[k]@
                        &&& k == matches_before_push.len() ==> self.matches@[k]@ == found
                    } by {
                        let views = match_views(self.matches@);
                        assert(views[k] == self.matches@[k]@);
                        if k < matches_before_push.len() {
                            assert(views[k] == match_views(matches_before_push)[k]);
                            assert(matches_before_push[k].row_index <= row_index);
                        }
                    }
                    assert(ranges@[i as int] == (start, end));
                    assert(lies_in(found, query, seq![row@], row_int));
                    assert forall|k: int, j: int|
                        0 <= k < self.matches@.len() && i + 1 <= j < ranges@.len() && (
                        #[trigger] self.matches@[k]).row_index == row_index implies
                        self.matches@[k].byte_range.end <= (#[trigger] ranges@[j]).0 by {
                        if k < matches_before_push.len() {
                            assert(matches_before_push[k].byte_range.end <= ranges@[j].0);
                        } else {
                            assert(ranges@[i as int].1 <= ranges@[j].0);
                        }
                    }
                    assert forall|k: int| before.len() <= k < self.matches@.len() implies lies_in(
                        (#[trigger] self.matches@[k])@,
                        query,
                        seq![row@],
                        row_int,
                    ) by {
                        if k < matches_before_push.len() {
                            assert(lies_in(matches_before_push[k]@, query, seq![row@], row_int));
                        }
                    }
                }
            }
            i += 1;
        }
        proof {
            let all = before + proper_matches(ranges@, row_int);
            if self.truncated {
                proper_matches_prefix(ranges@, i as int, row_int);
                let some = before + proper_matches(ranges@.take(i as int), row_int);
                assert(all.take(some.len() as int) =~= some);
            } else {
                assert(ranges@.take(i as int) == ranges@);
            }
        }
    }
}

proof fn proper_matches_prefix(ranges: Seq<(usize, usize)>, n: int, row: int)
    requires
        0 <= n <= ranges.len(),
    ensures
        ({
            let (some, all) = (proper_matches(ranges.take(n), row), proper_matches(ranges, row));
            some.len() <= all.len() && some == all.take(some.len() as int)
        }),
    decreases ranges.len(),
{
    let (some, all) = (proper_matches(ranges.take(n), row), proper_matches(ranges, row));
    if n == ranges.len() {
        assert(ranges.take(n) == ranges);
        assert(all.take(all.len() as int) == all);
    } else {
        assert(ranges.drop_last().take(n) == ranges.take(n));
        proper_matches_prefix(ranges.drop_last(), n, row);
        let before = proper_matches(ranges.drop_last(), row);
        assert(all.take(some.len() as int) == before.take(some.len() as int));
    }
}

proof fn all_matches_prefix(query: Query, rows: Seq<RowView>, n: int, offset: int)
    requires
        0 <= n <= rows.len(),
    ensures
        ({
            let (some, all) = (
                all_matches(query, rows.take(n), offset),
                all_matches(query, rows, offset),
            );
            some.len() <= all.len() && some == all.take(some.len() as int)
        }),
    decreases rows.len(),
{
    let (some, all) = (
        all_matches(query, rows.take(n), offset),
        all_matches(query, rows, offset),
    );
    if n == rows.len() {
        assert(rows.take(n) == rows);
        assert(all.take(all.len() as int) == all);
    } else {
        assert(rows.drop_last().take(n) == rows.take(n));
        all_matches_prefix(query, rows.drop_last(), n, offset);
        let before = all_matches(query, rows.drop_last(), offset);
        assert(all.take(some.len() as int) == before.take(some.len() as int));
    }
}

/// Adds the matches in rows that follow those in the index, as far as there is room.
fn append_matches(
    index: &mut SearchIndex,
    rows: &[FormattedRow],
    row_offset: usize,
    matcher: &SearchMatcher,
    display_options: SearchDisplayOptions<'_>,
)
    requires
        old(index).wf(),
        !old(index).truncated,
        row_offset + rows@.len() <= usize::MAX,
        forall|i: int|
            0 <= i < old(index).matches@.len() ==> (#[trigger] old(index).matches@[i]).row_index
                < row_offset,
    ensures
        final(index).wf(),
        final(index).error == old(index).error,
        ({
            let all = match_views(old(index).matches@) + all_matches(
                matcher.query(display_options),
                row_views(rows@),
                row_offset as int,
            );
            &&& match_views(final(index).matches@) == within_capacity(all)
            &&& final(index).truncated == (all.len() >= MAX_SEARCH_MATCHES)
        }),
        forall|i: int|
            old(index).matches@.len() <= i < final(index).matches@.len() ==> lies_in(
                (#[trigger] final(index).matches@[i])@,
                matcher.query(display_options),
                row_views(rows@),
                row_offset as int,
            ),
{
    let ghost query = matcher.query(display_options);
    let ghost views = row_views(rows@);
    let ghost before = match_views(index.matches@);
    let ghost offset = row_offset as int;
    assert(before + all_matches(query, views.take(0), offset) =~= before);
    let mut i: usize = 0;
    while i < rows.len() && !index.truncated
        invariant
            i <= rows@.len(),
            row_offset + rows@.len() <= usize::MAX,
            query == matcher.query(display_options),
            views == row_views(rows@),
            offset == row_offset,
            index.wf(),
            index.error == old(index).error,
            ({
                let all = before + all_matches(query, views.take(i as int), offset);
                &&& match_views(index.matches@) == within_capacity(all)
                &&& index.truncated == (all.len() >= MAX_SEARCH_MATCHES)
            }),
            forall|k: int|
                0 <= k < index.matches@.len() ==> (#[trigger] index.matches@[k]).row_index
                    < row_offset + i,
            before.len() <= index.matches@.len(),
            forall|k: int|
                before.len() <= k < index.matches@.len() ==> lies_in(
                    (#[trigger] index.matches@[k])@,
                    query,
                    views,
                    offset,
                ),
        decreases rows@.len() - i,
    {
        let ghost old_matches = index.matches@;
        let ghost done = all_matches(query, views.take(i as int), offset);
        let ghost found = row_matches(query, views[i as int], offset + i);
        proof {
            assert(views.take(i + 1).drop_last() == views.take(i as int));
            assert(before + (done + found) =~= before + done + found);
        }
        index.append_row(&rows[i], row_offset + i, matcher, display_options);
        proof {
            let all = before + done + found;
            let new = match_views(index.matches@);
            assert(match_views(old_matches) == before + done);
            assert forall|k: int| before.len() <= k < index.matches@.len() implies lies_in(
                (#[trigger] index.matches@[k])@,
                query,
                views,
                offset,
            ) by {
                assert(new[k] == index.matches@[k]@);
                if k < old_matches.len() {
                    assert(new[k] == match_views(old_matches)[k]);
                    assert(lies_in(old_matches[k]@, query, views, offset));
                } else {
                    assert(lies_in(new[k], query, seq![views[i as int]], offset + i));
                }
            }
        }
        i += 1;
    }
    proof {
        let all = before + all_matches(query, views, offset);
        if index.truncated {
            all_matches_prefix(query, views, i as int, offset);
            let some = before + all_matches(query, views.take(i as int), offset);
            assert(all.take(some.len() as int) =~= some);
            assert(within_capacity(all) =~= within_capacity(some));
        } else {
            assert(views.take(i as int) == views);
        }
    }
}

pub fn search_rows_with_matcher(
    rows: &[FormattedRow],
    matcher: &SearchMatcher,
    display_options: SearchDisplayOptions<'_>,
) -> (index: SearchIndex)
    ensures
        index.wf(),
        index.error is None,
        ({
            let all = all_matches(matcher.query(display_options), row_views(rows@), 0);
            &&& match_views(index.matches@) == within_capacity(all)
            &&& index.truncated == (all.len() >= MAX_SEARCH_MATCHES)
        }),
        all_lie_in(
            match_views(index.matches@),
            matcher.query(display_options),
            row_views(rows@),
        ),
{
    let mut index = SearchIndex::default();
    assert(match_views(index.matches@) =~= Seq::<MatchView>::empty());
    assert(rows@.len() == rows.len());
    append_matches(&mut index, rows, 0, matcher, display_options);
    proof {
        let all = all_matches(matcher.query(display_options), row_views(rows@), 0);
        assert(Seq::<MatchView>::empty() + all =~= all);
        let query = matcher.query(display_options);
        let views = match_views(index.matches@);
        assert forall|i: int| 0 <= i < views.len() implies lies_in(
            #[trigger] views[i],
            query,
            row_views(rows@),
            0,
        ) by {
            assert(views[i] == index.matches@[i]@);
        }
    }
    index
}

/// What a search is for, and how rows are shown.
pub open spec fn asked_query(
    query: Seq<char>,
    case_sensitive: bool,
    regex_mode: bool,
    options: SearchDisplayOptions<'_>,
) -> Query {
    Query {
        source: search_source(query, regex_mode),
        ignore_case: !case_sensitive,
        timestamps: options.timestamps,
        format: options.timestamp_format@,
    }
}

/// Searches rows for a query. A text that is looked for as it stands, with regard to case, is
/// found wherever it occurs, from the left and without overlap. An expression that does not
/// compile is reported in the index.
pub fn search_rows(
    rows: &[FormattedRow],
    query: &str,
    case_sensitive: bool,
    regex_mode: bool,
    display_options: SearchDisplayOptions<'_>,
) -> (index: SearchIndex)
    ensures
        index.wf(),
        query@.len() == 0 ==> index.matches@.len() == 0 && index.error is None
            && !index.truncated,
        query@.len() > 0 ==> match index.error {
            Some(message) => {
                &&& index.matches@.len() == 0
                &&& !index.truncated
                &&& search_fails(query@, case_sensitive, regex_mode, message@)
            },
            None => {
                let asked = asked_query(query@, case_sensitive, regex_mode, display_options);
                let all = all_matches(asked, row_views(rows@), 0);
                let words = all_occurrences(query@, asked, row_views(rows@), 0);
                &&& match_views(index.matches@) == within_capacity(all)
                &&& index.truncated == (all.len() >= MAX_SEARCH_MATCHES)
                &&& all_lie_in(match_views(index.matches@), asked, row_views(rows@))
                &&& case_sensitive && !regex_mode ==> match_views(index.matches@)
                    == within_capacity(words) && index.truncated == (words.len()
                    >= MAX_SEARCH_MATCHES)
            },
        },
{
    match SearchMatcher::new(query, case_sensitive, regex_mode) {
        Ok(Some(matcher)) => {
            proof {
                if case_sensitive && !regex_mode {
                    words_are_found(query@, matcher.query(display_options), row_views(rows@), 0);
                }
            }
            search_rows_with_matcher(rows, &matcher, display_options)
        },
        Ok(None) => SearchIndex::default(),
        Err(error) => {
            let mut index = SearchIndex::default();
            index.error = Some(error);
            index
        },
    }
}

impl SearchIndex {
    /// Follows a change of the display: rows have left at the start and at the end, and `rows`
    /// were added.
    pub fn apply_display_update(
        &mut self,
        old_row_count: usize,
        remove_prefix: usize,
        replace_tail: usize,
        rows: &[FormattedRow],
        matcher: &SearchMatcher,
        display_options: SearchDisplayOptions<'_>,
    )
        requires
            old(self).wf(),
            remove_prefix <= old_row_count,
            replace_tail <= old_row_count - remove_prefix,
            old_row_count - remove_prefix - replace_tail + rows@.len() <= usize::MAX,
        ensures
            final(self).wf(),
            final(self).error == old(self).error,
            ({
                let append_start = old_row_count - remove_prefix - replace_tail;
                let kept = matches_below(
                    matches_from(match_views(old(self).matches@), remove_prefix as int),
                    append_start,
                );
                let all = kept + all_matches(
                    matcher.query(display_options),
                    row_views(rows@),
                    append_start,
                );
                if old(self).truncated {
                    match_views(final(self).matches@) == kept && final(self).truncated
                } else {
                    &&& match_views(final(self).matches@) == within_capacity(all)
                    &&& final(self).truncated == (all.len() >= MAX_SEARCH_MATCHES)
                }
            }),
            forall|shown: Seq<RowView>|
                shown.len() == old_row_count && #[trigger] all_lie_in(
                    match_views(old(self).matches@),
                    matcher.query(display_options),
                    shown,
                ) ==> all_lie_in(
                    match_views(final(self).matches@),
                    matcher.query(display_options),
                    update_applied(
                        shown,
                        UpdateView {
                            remove_prefix: remove_prefix as int,
                            replace_tail: replace_tail as int,
                            rows: row_views(rows@),
                        },
                    ),
                ),
    {
        let append_start: usize = old_row_count - remove_prefix - replace_tail;
        let ghost first = match_views(self.matches@);
        self.remove_rows(remove_prefix);
        self.clip_rows(append_start);
        proof {
            let kept = match_views(self.matches@);
            matches_below_rows(matches_from(first, remove_prefix as int), append_start as int);
            assert forall|i: int| 0 <= i < self.matches@.len() implies (
            #[trigger] self.matches@[i]).row_index < append_start by {
                assert(kept[i].row == self.matches@[i].row_index);
            }
        }
        let ghost kept = match_views(self.matches@);
        if !self.truncated {
            append_matches(self, rows, append_start, matcher, display_options);
        }
        proof {
            let query = matcher.query(display_options);
            let update = UpdateView {
                remove_prefix: remove_prefix as int,
                replace_tail: replace_tail as int,
                rows: row_views(rows@),
            };
            let views = match_views(self.matches@);
            assert(kept.len() <= views.len());
            assert forall|shown: Seq<RowView>|
                shown.len() == old_row_count && #[trigger] all_lie_in(
                    first,
                    query,
                    shown,
                ) implies all_lie_in(views, query, update_applied(shown, update)) by {
                kept_matches_lie_in(first, query, shown, update);
                let after = update_applied(shown, update);
                assert forall|i: int| 0 <= i < views.len() implies lies_in(
                    #[trigger] views[i],
                    query,
                    after,
                    0,
                ) by {
                    if i < kept.len() {
                        assert(views[i] == kept[i]);
                    } else {
                        assert(views[i] == self.matches@[i]@);
                        assert(lies_in(views[i], query, update.rows, append_start as int));
                        assert(after[views[i].row] == update.rows[views[i].row - append_start]);
                    }
                }
            }
        }
    }
}

/// What is kept of matches in the rows on display lies in the rows that stay.
proof fn kept_matches_lie_in(
    matches: Seq<MatchView>,
    query: Query,
    shown: Seq<RowView>,
    update: UpdateView,
)
    requires
        0 <= update.remove_prefix,
        0 <= update.replace_tail,
        update.remove_prefix + update.replace_tail <= shown.len(),
        all_lie_in(matches, query, shown),
    ensures
        all_lie_in(
            matches_below(
                matches_from(matches, update.remove_prefix),
                shown.len() - update.remove_prefix - update.replace_tail,
            ),
            query,
            update_applied(shown, update),
        ),
    decreases matches.len(),
{
    let append_start = shown.len() - update.remove_prefix - update.replace_tail;
    if matches.len() > 0 {
        let before = matches.drop_last();
        let last = matches[matches.len() - 1];
        assert forall|i: int| 0 <= i < before.len() implies lies_in(
            #[trigger] before[i],
            query,
            shown,
            0,
        ) by {
            assert(before[i] == matches[i]);
        }
        kept_matches_lie_in(before, query, shown, update);
        let from = matches_from(before, update.remove_prefix);
        if last.row >= update.remove_prefix {
            let moved = MatchView { row: last.row - update.remove_prefix, ..last };
            assert(from.push(moved).drop_last() == from);
            assert(lies_in(last, query, shown, 0));
            if moved.row < append_start {
                let after = update_applied(shown, update);
                assert(after[moved.row] == shown[last.row]);
                assert(lies_in(moved, query, after, 0));
            }
        }
    }
}

proof fn matches_below_rows(matches: Seq<MatchView>, end: int)
    ensures
        forall|i: int|
            0 <= i < matches_below(matches, end).len() ==> (#[trigger] matches_below(
                matches,
                end,
            )[i]).row < end,
    decreases matches.len(),
{
    if matches.len() > 0 {
        let before = matches_below(matches.drop_last(), end);
        matches_below_rows(matches.drop_last(), end);
        let all = matches_below(matches, end);
        assert forall|i: int| 0 <= i < all.len() implies (#[trigger] all[i]).row < end by {
            if i < before.len() {
                assert(all[i] == before[i]);
            }
        }
    }
}

proof fn all_matches_concat(query: Query, a: Seq<RowView>, b: Seq<RowView>, offset: int)
    ensures
        all_matches(query, a + b, offset) == all_matches(query, a, offset) + all_matches(
            query,
            b,
            offset + a.len(),
        ),
    decreases b.len(),
{
    if b.len() == 0 {
        assert(a + b == a);
        assert(all_matches(query, a, offset) + Seq::<MatchView>::empty() == all_matches(
            query,
            a,
            offset,
        ));
    } else {
        assert((a + b).drop_last() == a + b.drop_last());
        all_matches_concat(query, a, b.drop_last(), offset);
        let (x, y) = (
            all_matches(query, a, offset),
            all_matches(query, b.drop_last(), offset + a.len()),
        );
        let z = row_matches(query, b.last(), offset + a.len() + b.len() - 1);
        assert(x + y + z == x + (y + z));
    }
}

proof fn matches_below_concat(a: Seq<MatchView>, b: Seq<MatchView>, end: int)
    ensures
        matches_below(a + b, end) == matches_below(a, end) + matches_below(b, end),
    decreases b.len(),
{
    if b.len() == 0 {
        assert(a + b == a);
    } else {
        assert((a + b).drop_last() == a + b.drop_last());
        matches_below_concat(a, b.drop_last(), end);
    }
    assert(matches_below(a + b, end) == matches_below(a, end) + matches_below(b, end));
}

proof fn matches_from_concat(a: Seq<MatchView>, b: Seq<MatchView>, first: int)
    ensures
        matches_from(a + b, first) == matches_from(a, first) + matches_from(b, first),
    decreases b.len(),
{
    if b.len() == 0 {
        assert(a + b == a);
    } else {
        assert((a + b).drop_last() == a + b.drop_last());
        matches_from_concat(a, b.drop_last(), first);
    }
    assert(matches_from(a + b, first) == matches_from(a, first) + matches_from(b, first));
}

proof fn matches_in_one_row(ranges: Seq<(usize, usize)>, row: int, border: int)
    ensures
        matches_below(proper_matches(ranges, row), border) == if row < border {
            proper_matches(ranges, row)
        } else {
            Seq::empty()
        },
        matches_from(proper_matches(ranges, row), border) == if row >= border {
            proper_matches(ranges, row - border)
        } else {
            Seq::empty()
        },
    decreases ranges.len(),
{
    if ranges.len() > 0 {
        matches_in_one_row(ranges.drop_last(), row, border);
        let (start, end) = ranges.last();
        if start != end {
            let before = proper_matches(ranges.drop_last(), row);
            let found = MatchView { row, start: start as int, end: end as int };
            assert(before.push(found).drop_last() == before);
        }
    }
}

/// The matches in some of the first rows are the matches below the row after them.
proof fn all_matches_below(query: Query, rows: Seq<RowView>, end: int)
    requires
        0 <= end <= rows.len(),
    ensures
        matches_below(all_matches(query, rows, 0), end) == all_matches(query, rows.take(end), 0),
    decreases rows.len(),
{
    if rows.len() > 0 {
        let row = rows.len() - 1;
        let before = all_matches(query, rows.drop_last(), 0);
        let ranges = regex_ranges(
            query.source,
            query.ignore_case,
            shown_text(rows.last(), query.timestamps, query.format),
        );
        matches_below_concat(before, proper_matches(ranges, row), end);
        matches_in_one_row(ranges, row, end);
        if end == rows.len() {
            all_matches_below(query, rows.drop_last(), end - 1);
            all_matches_rows(query, rows.drop_last(), 0);
            all_below(before, end);
            assert(rows.take(end) == rows);
        } else {
            all_matches_below(query, rows.drop_last(), end);
            assert(rows.drop_last().take(end) == rows.take(end));
            assert(matches_below(before, end) + Seq::<MatchView>::empty() == matches_below(
                before,
                end,
            ));
        }
    } else {
        assert(rows.take(end) == rows);
    }
}

proof fn all_below(matches: Seq<MatchView>, end: int)
    requires
        forall|i: int| 0 <= i < matches.len() ==> (#[trigger] matches[i]).row < end,
    ensures
        matches_below(matches, end) == matches,
    decreases matches.len(),
{
    if matches.len() > 0 {
        let before = matches.drop_last();
        assert forall|i: int| 0 <= i < before.len() implies (#[trigger] before[i]).row < end by {
            assert(before[i] == matches[i]);
        }
        all_below(before, end);
        assert(matches[matches.len() - 1].row < end);
        assert(before.push(matches.last()) == matches);
    }
}

/// The matches in the rows from one on are the matches from that row on.
proof fn all_matches_from(query: Query, rows: Seq<RowView>, first: int)
    requires
        0 <= first <= rows.len(),
    ensures
        matches_from(all_matches(query, rows, 0), first) == all_matches(query, rows.skip(first), 0),
    decreases rows.len(),
{
    if rows.len() == first {
        assert(rows.skip(first) == Seq::<RowView>::empty());
        all_matches_rows(query, rows, 0);
        none_from(all_matches(query, rows, 0), first);
    } else {
        let row = rows.len() - 1;
        let before = all_matches(query, rows.drop_last(), 0);
        let ranges = regex_ranges(
            query.source,
            query.ignore_case,
            shown_text(rows.last(), query.timestamps, query.format),
        );
        matches_from_concat(before, proper_matches(ranges, row), first);
        matches_in_one_row(ranges, row, first);
        all_matches_from(query, rows.drop_last(), first);
        assert(rows.drop_last().skip(first) == rows.skip(first).drop_last());
    }
}

proof fn none_from(matches: Seq<MatchView>, first: int)
    requires
        forall|i: int| 0 <= i < matches.len() ==> (#[trigger] matches[i]).row < first,
    ensures
        matches_from(matches, first) == Seq::<MatchView>::empty(),
    decreases matches.len(),
{
    if matches.len() > 0 {
        let before = matches.drop_last();
        assert forall|i: int| 0 <= i < before.len() implies (#[trigger] before[i]).row < first by {
            assert(before[i] == matches[i]);
        }
        none_from(before, first);
        assert(matches[matches.len() - 1].row < first);
    }
}

/// Following the display row by row finds what searching the whole display anew finds.
pub proof fn search_follows_the_display(query: Query, shown: Seq<RowView>, update: UpdateView)
    requires
        0 <= update.remove_prefix <= shown.len(),
        0 <= update.replace_tail <= shown.len() - update.remove_prefix,
    ensures
        ({
            let append_start = shown.len() - update.remove_prefix - update.replace_tail;
            let kept = matches_below(
                matches_from(all_matches(query, shown, 0), update.remove_prefix),
                append_start,
            );
            kept + all_matches(query, update.rows, append_start) == all_matches(
                query,
                update_applied(shown, update),
                0,
            )
        }),
{
    let append_start = shown.len() - update.remove_prefix - update.replace_tail;
    let rest = shown.skip(update.remove_prefix);
    all_matches_from(query, shown, update.remove_prefix);
    all_matches_below(query, rest, append_start);
    all_matches_concat(query, rest.take(append_start), update.rows, 0);
}

/// A search for a word as it stands, with regard to case, finds exactly the places where the word
/// occurs in the rows as they are shown, from the left and without overlap.
pub proof fn words_are_found(word: Seq<char>, query: Query, rows: Seq<RowView>, offset: int)
    requires
        looks_for(query, word),
    ensures
        all_matches(query, rows, offset) == all_occurrences(word, query, rows, offset),
    decreases rows.len(),
{
    if rows.len() > 0 {
        words_are_found(word, query, rows.drop_last(), offset);
        words_are_found_where_they_occur(
            word,
            shown_text(rows.last(), query.timestamps, query.format),
        );
    }
}

/// The matches in a list of rows are in the order of the rows, and each one is in one of them.
pub proof fn matches_are_in_order(query: Query, rows: Seq<RowView>)
    ensures
        in_row_order(all_matches(query, rows, 0)),
        forall|i: int|
            0 <= i < all_matches(query, rows, 0).len() ==> 0 <= (#[trigger] all_matches(
                query,
                rows,
                0,
            )[i]).row < rows.len(),
{
    all_matches_rows(query, rows, 0);
}

} // verus!
