//! A row on display, cut where its matches begin and end.

use vstd::prelude::*;

use crate::chars::{char_bytes, char_len, chars_of, text_bytes};
use crate::pattern::is_boundary;
use crate::search::{match_views, MatchView, SearchMatch};

verus! {

#[derive(Debug, Clone, Copy, PartialEq, Eq, Structural)]
pub enum SegmentKind {
    Plain,
    Match,
    SelectedMatch,
}

/// A part of a row, by its first byte and the byte after its last.
#[derive(Debug, Clone, Copy, PartialEq, Eq, Structural)]
pub struct RowSegment {
    pub start: usize,
    pub end: usize,
    pub kind: SegmentKind,
}

/// A row that is cut so far.
#[verifier::ext_equal]
pub struct CutView {
    pub cursor: int,
    pub segments: Seq<RowSegment>,
}

pub open spec fn segment(start: int, end: int, kind: SegmentKind) -> RowSegment {
    RowSegment { start: start as usize, end: end as usize, kind }
}

/// A match that can be shown after what is shown already.
pub open spec fn fits(text: Seq<char>, cursor: int, found: MatchView) -> bool {
    cursor <= found.start && found.end <= text_bytes(text) && is_boundary(text, found.start)
        && is_boundary(text, found.end)
}

/// Cuts a row at one more match, unless it lies within one before or outside the row.
pub open spec fn cut_once(
    cut: CutView,
    text: Seq<char>,
    found: MatchView,
    selected: bool,
) -> CutView {
    if fits(text, cut.cursor, found) {
        let before = if cut.cursor < found.start {
            cut.segments.push(segment(cut.cursor, found.start, SegmentKind::Plain))
        } else {
            cut.segments
        };
        let kind = if selected {
            SegmentKind::SelectedMatch
        } else {
            SegmentKind::Match
        };
        CutView {
            cursor: found.end,
            segments: before.push(segment(found.start, found.end, kind)),
        }
    } else {
        cut
    }
}

/// A row cut at matches, of which the first has the number `offset`.
pub open spec fn cut_at(
    text: Seq<char>,
    matches: Seq<MatchView>,
    offset: int,
    selected: Option<usize>,
) -> CutView
    decreases matches.len(),
{
    if matches.len() == 0 {
        CutView { cursor: 0, segments: Seq::empty() }
    } else {
        cut_once(
            cut_at(text, matches.drop_last(), offset, selected),
            text,
            matches.last(),
            selected is Some && selected->0 == offset + matches.len() - 1,
        )
    }
}

/// All parts of a row. An empty row has one empty part.
pub open spec fn parts_of(
    text: Seq<char>,
    matches: Seq<MatchView>,
    offset: int,
    selected: Option<usize>,
) -> Seq<RowSegment> {
    let cut = cut_at(text, matches, offset, selected);
    if cut.cursor < text_bytes(text) || text.len() == 0 {
        cut.segments.push(segment(cut.cursor, text_bytes(text) as int, SegmentKind::Plain))
    } else {
        cut.segments
    }
}

proof fn take_bytes(text: Seq<char>, k: int)
    requires
        0 <= k < text.len(),
    ensures
        text_bytes(text.take(k + 1)) == text_bytes(text.take(k)) + char_bytes(text[k]),
{
    assert(text.take(k + 1).drop_last() == text.take(k));
}

proof fn take_bytes_grow(text: Seq<char>, j: int, k: int)
    requires
        0 <= j <= k <= text.len(),
    ensures
        text_bytes(text.take(j)) + (k - j) <= text_bytes(text.take(k)),
        text_bytes(text.take(k)) <= text_bytes(text),
    decreases text.len() - j + k - j,
{
    if j < k {
        take_bytes(text, j);
        take_bytes_grow(text, j + 1, k);
    } else if k < text.len() {
        take_bytes(text, k);
        take_bytes_grow(text, k + 1, k + 1);
    } else {
        assert(text.take(k) == text);
    }
}

/// The character that begins at a byte, looked for from the character `from` on, which begins
/// at the byte `offset`.
fn char_at_byte(chars: &Vec<char>, from: usize, offset: usize, at: usize) -> (place: Option<usize>)
    requires
        from <= chars@.len(),
        offset == text_bytes(chars@.take(from as int)),
        offset <= at <= text_bytes(chars@),
        text_bytes(chars@) <= usize::MAX,
    ensures
        match place {
            Some(place) => place <= chars@.len() && text_bytes(chars@.take(place as int)) == at,
            None => !is_boundary(chars@, at as int),
        },
{
    let mut k: usize = from;
    let mut begin: usize = offset;
    proof {
        assert forall|j: int| 0 <= j < k implies #[trigger] text_bytes(chars@.take(j)) < at by {
            take_bytes_grow(chars@, j, k as int);
        }
    }
    while k < chars.len() && begin < at
        invariant
            k <= chars@.len(),
            begin == text_bytes(chars@.take(k as int)),
            text_bytes(chars@) <= usize::MAX,
            forall|j: int| 0 <= j < k ==> #[trigger] text_bytes(chars@.take(j)) < at,
        decreases chars.len() - k,
    {
        proof {
            take_bytes(chars@, k as int);
            take_bytes_grow(chars@, k + 1, k + 1);
            assert forall|j: int| 0 <= j < k + 1 implies #[trigger] text_bytes(
                chars@.take(j),
            ) < at by {
                take_bytes_grow(chars@, j, k as int);
            }
        }
        begin = begin + char_len(chars[k]);
        k += 1;
    }
    if begin == at {
        Some(k)
    } else {
        proof {
            if begin < at {
                assert(chars@.take(k as int) == chars@);
            }
            assert forall|j: int| 0 <= j <= chars@.len() implies #[trigger] text_bytes(
                chars@.take(j),
            ) != at by {
                if j < k {
                } else {
                    take_bytes_grow(chars@, k as int, j);
                }
            }
        }
        None
    }
}

/// Cuts a row where its matches begin and end. `match_offset` is the number of the first of them
/// among all matches.
pub fn row_segments(
    text: &str,
    match_offset: usize,
    row_matches: &[SearchMatch],
    selected_match: Option<usize>,
) -> (segments: Vec<RowSegment>)
    requires
        match_offset + row_matches@.len() <= usize::MAX,
        forall|i: int|
            0 <= i < row_matches@.len() ==> (#[trigger] row_matches@[i]).byte_range.start
                <= row_matches@[i].byte_range.end,
    ensures
        segments@ == parts_of(
            text@,
            match_views(row_matches@),
            match_offset as int,
            selected_match,
        ),
{
    let len: usize = crate::chars::byte_len(text);
    let chars = chars_of(text);
    let ghost matches = match_views(row_matches@);
    let mut segments: Vec<RowSegment> = Vec::new();
    let mut cursor: usize = 0;
    let mut cursor_char: usize = 0;
    assert(text@.take(0) == Seq::<char>::empty());
    assert(matches.take(0) == Seq::<MatchView>::empty());
    let mut i: usize = 0;
    while i < row_matches.len()
        invariant
            i <= row_matches.len(),
            len == text_bytes(text@),
            chars@ == text@,
            matches == match_views(row_matches@),
            match_offset + row_matches@.len() <= usize::MAX,
            forall|k: int|
                0 <= k < row_matches@.len() ==> (#[trigger] row_matches@[k]).byte_range.start
                    <= row_matches@[k].byte_range.end,
            cursor_char <= chars@.len(),
            cursor == text_bytes(chars@.take(cursor_char as int)),
            cursor <= len,
            (CutView { cursor: cursor as int, segments: segments@ }) == cut_at(
                text@,
                matches.take(i as int),
                match_offset as int,
                selected_match,
            ),
        decreases row_matches.len() - i,
    {
        let start: usize = row_matches[i].byte_range.start;
        let end: usize = row_matches[i].byte_range.end;
        let ghost found = matches[i as int];
        proof {
            assert(matches.take(i + 1).drop_last() == matches.take(i as int));
            assert(matches.take(i + 1).last() == found);
            assert(found.start == start && found.end == end);
        }
        let selected = match selected_match {
            Some(selected) => selected == match_offset + i,
            None => false,
        };
        if start >= cursor && end <= len {
            if let Some(start_char) = char_at_byte(&chars, cursor_char, cursor, start) {
                if let Some(end_char) = char_at_byte(&chars, start_char, start, end) {
                    assert(is_boundary(text@, start as int));
                    assert(is_boundary(text@, end as int));
                    if cursor < start {
                        segments.push(
                            RowSegment { start: cursor, end: start, kind: SegmentKind::Plain },
                        );
                    }
                    segments.push(
                        RowSegment {
                            start,
                            end,
                            kind: if selected {
                                SegmentKind::SelectedMatch
                            } else {
                                SegmentKind::Match
                            },
                        },
                    );
                    cursor = end;
                    cursor_char = end_char;
                }
            }
        }
        i += 1;
    }
    assert(matches.take(i as int) == matches);
    if cursor < len || text.is_empty() {
        segments.push(RowSegment { start: cursor, end: len, kind: SegmentKind::Plain });
    }
    segments
}

/// Parts follow one another from the start of the row up to `end`.
pub open spec fn parts_reach(parts: Seq<RowSegment>, end: int) -> bool
    decreases parts.len(),
{
    if parts.len() == 0 {
        end == 0
    } else {
        parts.last().end == end && parts.last().start <= end && parts_reach(
            parts.drop_last(),
            parts.last().start as int,
        )
    }
}

proof fn cut_reaches_cursor(
    text: Seq<char>,
    matches: Seq<MatchView>,
    offset: int,
    selected: Option<usize>,
)
    requires
        text_bytes(text) <= usize::MAX,
        forall|i: int|
            0 <= i < matches.len() ==> 0 <= (#[trigger] matches[i]).start <= matches[i].end,
    ensures
        ({
            let cut = cut_at(text, matches, offset, selected);
            0 <= cut.cursor <= text_bytes(text) && parts_reach(cut.segments, cut.cursor)
        }),
    decreases matches.len(),
{
    if matches.len() > 0 {
        cut_reaches_cursor(text, matches.drop_last(), offset, selected);
        let before = cut_at(text, matches.drop_last(), offset, selected);
        let found = matches[matches.len() - 1];
        if fits(text, before.cursor, found) {
            let after = cut_at(text, matches, offset, selected);
            let middle = if before.cursor < found.start {
                before.segments.push(segment(before.cursor, found.start, SegmentKind::Plain))
            } else {
                before.segments
            };
            if before.cursor < found.start {
                assert(middle.drop_last() == before.segments);
            }
            assert(parts_reach(middle, found.start));
            assert(after.segments.drop_last() == middle);
        }
    }
}

/// The parts of a row make up the whole row, without gaps and overlaps, whatever the matches are.
pub proof fn parts_make_up_the_row(
    text: Seq<char>,
    matches: Seq<MatchView>,
    offset: int,
    selected: Option<usize>,
)
    requires
        text_bytes(text) <= usize::MAX,
        forall|i: int|
            0 <= i < matches.len() ==> 0 <= (#[trigger] matches[i]).start <= matches[i].end,
    ensures
        parts_reach(parts_of(text, matches, offset, selected), text_bytes(text) as int),
{
    cut_reaches_cursor(text, matches, offset, selected);
    let cut = cut_at(text, matches, offset, selected);
    let parts = parts_of(text, matches, offset, selected);
    if cut.cursor < text_bytes(text) || text.len() == 0 {
        assert(parts.drop_last() == cut.segments);
    }
}

/// Matches that follow one another in a text without overlap, between characters.
pub open spec fn are_places_in(matches: Seq<MatchView>, text: Seq<char>) -> bool {
    &&& forall|i: int|
        0 <= i < matches.len() ==> 0 <= (#[trigger] matches[i]).start < matches[i].end
            && matches[i].end <= text_bytes(text) && is_boundary(text, matches[i].start)
            && is_boundary(text, matches[i].end)
    &&& forall|i: int, j: int|
        0 <= i < j < matches.len() ==> (#[trigger] matches[i]).end <= (#[trigger] matches[j]).start
}

/// A part of a row is a match, which is marked as selected if it is the selected one.
pub open spec fn marks(
    part: RowSegment,
    matches: Seq<MatchView>,
    i: int,
    offset: int,
    selected: Option<usize>,
) -> bool {
    &&& part.start as int == matches[i].start
    &&& part.end as int == matches[i].end
    &&& part.kind == if selected is Some && selected->0 as int == offset + i {
        SegmentKind::SelectedMatch
    } else {
        SegmentKind::Match
    }
}

proof fn cuts_mark_the_matches(
    text: Seq<char>,
    matches: Seq<MatchView>,
    offset: int,
    selected: Option<usize>,
)
    requires
        text_bytes(text) <= usize::MAX,
        are_places_in(matches, text),
    ensures
        ({
            let cut = cut_at(text, matches, offset, selected);
            &&& cut.cursor == if matches.len() == 0 {
                0
            } else {
                matches.last().end
            }
            &&& forall|i: int|
                0 <= i < matches.len() ==> #[trigger] is_marked(
                    cut.segments,
                    matches,
                    i,
                    offset,
                    selected,
                )
            &&& forall|k: int|
                0 <= k < cut.segments.len() && (#[trigger] cut.segments[k]).kind
                    != SegmentKind::Plain ==> is_match(
                    cut.segments[k],
                    matches,
                    offset,
                    selected,
                )
        }),
    decreases matches.len(),
{
    if matches.len() > 0 {
        let before = matches.drop_last();
        let last = matches.len() - 1;
        assert forall|i: int| 0 <= i < before.len() implies 0 <= (#[trigger] before[i]).start
            < before[i].end && before[i].end <= text_bytes(text) && is_boundary(
            text,
            before[i].start,
        ) && is_boundary(text, before[i].end) by {
            assert(before[i] == matches[i]);
        }
        assert forall|i: int, j: int| 0 <= i < j < before.len() implies (#[trigger] before[i]).end
            <= (#[trigger] before[j]).start by {
            assert(matches[i].end <= matches[j].start);
        }
        cuts_mark_the_matches(text, before, offset, selected);
        let some = cut_at(text, before, offset, selected);
        let all = cut_at(text, matches, offset, selected);
        let found = matches.last();
        assert(matches[last] == found);
        if before.len() > 0 {
            assert(matches[last - 1].end <= matches[last].start);
            assert(before.last() == matches[last - 1]);
        }
        assert(fits(text, some.cursor, found));
        let n = all.segments.len() - 1;
        assert(marks(all.segments[n], matches, last, offset, selected));
        assert(forall|k: int| 0 <= k < some.segments.len() ==> all.segments[k] == some.segments[k]);
        assert forall|i: int| 0 <= i < matches.len() implies #[trigger] is_marked(
            all.segments,
            matches,
            i,
            offset,
            selected,
        ) by {
            if i < last {
                assert(is_marked(some.segments, before, i, offset, selected));
                let k = choose|k: int|
                    0 <= k < some.segments.len() && marks(
                        #[trigger] some.segments[k],
                        before,
                        i,
                        offset,
                        selected,
                    );
                assert(marks(all.segments[k], matches, i, offset, selected));
            }
        }
        assert forall|k: int|
            0 <= k < all.segments.len() && (#[trigger] all.segments[k]).kind
                != SegmentKind::Plain implies is_match(
            all.segments[k],
            matches,
            offset,
            selected,
        ) by {
            if k < some.segments.len() {
                assert(some.segments[k] == all.segments[k]);
                assert(is_match(some.segments[k], before, offset, selected));
                let i = choose|i: int|
                    0 <= i < before.len() && #[trigger] marks(
                        some.segments[k],
                        before,
                        i,
                        offset,
                        selected,
                    );
                assert(marks(all.segments[k], matches, i, offset, selected));
            } else if k == n {
                assert(marks(all.segments[k], matches, last, offset, selected));
            }
        }
    }
}

/// One of the parts is this match.
pub open spec fn is_marked(
    parts: Seq<RowSegment>,
    matches: Seq<MatchView>,
    i: int,
    offset: int,
    selected: Option<usize>,
) -> bool {
    exists|k: int|
        0 <= k < parts.len() && marks(#[trigger] parts[k], matches, i, offset, selected)
}

/// A part is one of the matches.
pub open spec fn is_match(
    part: RowSegment,
    matches: Seq<MatchView>,
    offset: int,
    selected: Option<usize>,
) -> bool {
    exists|i: int| 0 <= i < matches.len() && #[trigger] marks(part, matches, i, offset, selected)
}

/// Every match in a row is a part of its own, the selected one marked as such; all that is marked
/// is a match.
pub proof fn matches_are_marked(
    text: Seq<char>,
    matches: Seq<MatchView>,
    offset: int,
    selected: Option<usize>,
)
    requires
        text_bytes(text) <= usize::MAX,
        are_places_in(matches, text),
    ensures
        ({
            let parts = parts_of(text, matches, offset, selected);
            &&& forall|i: int|
                0 <= i < matches.len() ==> #[trigger] is_marked(
                    parts,
                    matches,
                    i,
                    offset,
                    selected,
                )
            &&& forall|k: int|
                0 <= k < parts.len() && (#[trigger] parts[k]).kind != SegmentKind::Plain
                    ==> is_match(parts[k], matches, offset, selected)
        }),
{
    cuts_mark_the_matches(text, matches, offset, selected);
    let cut = cut_at(text, matches, offset, selected);
    let parts = parts_of(text, matches, offset, selected);
    assert(forall|k: int| 0 <= k < cut.segments.len() ==> parts[k] == cut.segments[k]);
    assert forall|i: int| 0 <= i < matches.len() implies #[trigger] is_marked(
        parts,
        matches,
        i,
        offset,
        selected,
    ) by {
        assert(is_marked(cut.segments, matches, i, offset, selected));
        let k = choose|k: int|
            0 <= k < cut.segments.len() && marks(
                #[trigger] cut.segments[k],
                matches,
                i,
                offset,
                selected,
            );
        assert(marks(parts[k], matches, i, offset, selected));
    }
    assert forall|k: int|
        0 <= k < parts.len() && (#[trigger] parts[k]).kind != SegmentKind::Plain implies is_match(
        parts[k],
        matches,
        offset,
        selected,
    ) by {
        if k < cut.segments.len() {
            assert(cut.segments[k] == parts[k]);
        }
    }
}

} // verus!
