//! What holds of the display and its search as a whole.

use vstd::prelude::*;

use crate::formatting::display::DisplayFormatter;
use crate::pane::{
    bounded_update, followed_index, place_of, rows_below, IndexView, MatcherView, PaneView,
};
use crate::search::laws::rows_of_holds;
use crate::search::{
    all_matches, in_row_order, rows_of, rows_of_increase, search_follows_the_display,
    within_capacity, MAX_SEARCH_MATCHES,
};
use crate::task_state::next_revision;
use crate::terminal::formatter::{update_applied, UpdateView};

verus! {

/// A search goes on with the data: where the matches were those of all rows, they are so again
/// after any change of the rows, as far as the index can hold them, and a selected match is one
/// of them.
pub proof fn matches_follow_the_rows(
    pane: PaneView,
    formatter: DisplayFormatter,
    update: UpdateView,
    generation: u64,
    timestamps: bool,
    format: Seq<char>,
    now: u64,
)
    requires
        pane.index_generation == Some(pane.generation),
        pane.matcher is Some,
        !pane.index.truncated,
        pane.index.matches == all_matches(pane.matcher->0.query(timestamps, format), pane.rows, 0),
        update.remove_prefix >= 0,
        update.replace_tail >= 0,
    ensures
        ({
            let after = pane.updated(formatter, update, generation, timestamps, format, now);
            let all = all_matches(pane.matcher->0.query(timestamps, format), after.rows, 0);
            &&& after.rows == update_applied(pane.rows, update)
            &&& after.index_generation == Some(after.generation)
            &&& after.index.matches == within_capacity(all)
            &&& after.index.truncated == (all.len() >= MAX_SEARCH_MATCHES)
            &&& after.selected is Some ==> after.selected->0 < after.index.matches.len()
        }),
{
    reveal(PaneView::updated);
    reveal(followed_index);
    let bounded = bounded_update(update, pane.rows.len() as int);
    let query = pane.matcher->0.query(timestamps, format);
    search_follows_the_display(query, pane.rows, bounded);
    let rest = pane.rows.skip(bounded.remove_prefix);
    assert(update_applied(pane.rows, bounded) =~= update_applied(pane.rows, update));
}

/// From a selected match forward and back again one comes to the same match.
pub proof fn navigation_goes_back(pane: PaneView)
    requires
        pane.index_current(),
        !pane.search_busy(),
        pane.selected is Some,
        pane.selected->0 < pane.index.matches.len() <= MAX_SEARCH_MATCHES,
    ensures
        pane.navigated(true).navigated(false).selected == pane.selected,
        pane.navigated(false).navigated(true).selected == pane.selected,
{
    let count = pane.index.matches.len() as int;
    let current = pane.selected->0 as int;
    assert((current + 1) % count == if current + 1 == count {
        0
    } else {
        current + 1
    }) by (nonlinear_arith)
        requires
            0 <= current < count,
    ;
    let back = if current > 0 {
        current - 1
    } else {
        count - 1
    };
    assert((back + 1) % count == current) by (nonlinear_arith)
        requires
            0 <= current < count,
            back == if current > 0 {
                current - 1
            } else {
                count - 1
            },
    ;
}

/// While the display is paused, rows that were made for it are not shown.
pub proof fn paused_display_takes_no_rows(pane: PaneView, revision: u64)
    requires
        pane.paused,
    ensures
        !pane.display.wanted(revision, !pane.paused),
        pane.display.finished(revision, !pane.paused).full_rebuild,
{
}

/// Rows that were in the making when the display was invalidated, as by clearing it, are not
/// shown.
pub proof fn invalidated_display_takes_no_old_rows(pane: PaneView, may_apply: bool)
    ensures
        !pane.display.invalidated().wanted(pane.display.revision, may_apply),
        next_revision(pane.display.revision) != pane.display.revision,
{
}

proof fn rows_below_holds(rows: Seq<int>, end: int)
    requires
        forall|i: int, j: int| 0 <= i < j < rows.len() ==> rows[i] < rows[j],
    ensures
        rows_below(rows, end).len() <= rows.len(),
        rows_below(rows, end) == rows.take(rows_below(rows, end).len() as int),
        forall|i: int|
            0 <= i < rows.len() ==> (#[trigger] rows[i] < end <==> i < rows_below(rows, end).len()),
    decreases rows.len(),
{
    if rows.len() > 0 && rows.last() >= end {
        let before = rows.drop_last();
        rows_below_holds(before, end);
        assert(before.take(rows_below(before, end).len() as int) == rows.take(
            rows_below(before, end).len() as int,
        ));
        assert forall|i: int| 0 <= i < rows.len() implies (#[trigger] rows[i] < end <==> i
            < rows_below(rows, end).len()) by {
            if i < before.len() {
                assert(before[i] == rows[i]);
            }
        }
    } else {
        assert(rows.take(rows.len() as int) == rows);
        assert forall|i: int| 0 <= i < rows.len() implies #[trigger] rows[i] < end by {
            if i < rows.len() - 1 {
                assert(rows[i] < rows[rows.len() - 1]);
            }
        }
    }
}

/// A filter shows exactly the rows with a match, in their order; without a filter all rows are
/// shown.
pub proof fn a_filter_shows_the_rows_with_matches(pane: PaneView, row: int)
    requires
        in_row_order(pane.index.matches),
        0 <= row < pane.rows.len(),
    ensures
        ({
            let shown = pane.visible_rows();
            let has_match = exists|i: int|
                0 <= i < pane.index.matches.len() && (#[trigger] pane.index.matches[i]).row == row;
            let filtering = pane.filter && pane.query.len() > 0 && pane.index_generation == Some(
                pane.generation,
            ) && pane.index.error is None;
            &&& filtering ==> (shown.contains(row) <==> has_match)
            &&& !filtering ==> shown.contains(row)
            &&& forall|i: int, j: int| 0 <= i < j < shown.len() ==> shown[i] < shown[j]
            &&& forall|i: int| 0 <= i < shown.len() ==> #[trigger] shown[i] < pane.rows.len()
        }),
{
    let shown = pane.visible_rows();
    if pane.filtering() {
        let rows = rows_of(pane.index.matches);
        rows_of_increase(pane.index.matches);
        rows_of_holds(pane.index.matches, row);
        rows_below_holds(rows, pane.rows.len() as int);
        if rows.contains(row) {
            let k = choose|k: int| 0 <= k < rows.len() && rows[k] == row;
            assert(rows[k] < pane.rows.len());
            assert(shown[k] == row);
        }
        if shown.contains(row) {
            let k = choose|k: int| 0 <= k < shown.len() && shown[k] == row;
            assert(rows[k] == row);
        }
        assert forall|i: int| 0 <= i < shown.len() implies #[trigger] shown[i]
            < pane.rows.len() by {
            assert(rows[i] < pane.rows.len());
        }
    } else {
        assert(shown[row] == row);
    }
}

/// Going forward selects the match behind the selected one, and the first behind the last; going
/// back the one before it, and the last before the first. The row of the match comes into sight.
pub proof fn navigation_goes_match_by_match(pane: PaneView)
    requires
        pane.query.len() > 0,
        pane.index_generation == Some(pane.generation),
        !pane.search.running(),
        !pane.search.pending(),
        pane.selected is Some,
        pane.selected->0 < pane.index.matches.len() <= 100_000,
        forall|i: int|
            0 <= i < pane.index.matches.len() ==> 0 <= (#[trigger] pane.index.matches[i]).row
                <= usize::MAX,
    ensures
        ({
            let (here, count) = (pane.selected->0 as int, pane.index.matches.len() as int);
            let (next, before) = (pane.navigated(true), pane.navigated(false));
            &&& next.selected is Some
            &&& next.selected->0 == if here == count - 1 {
                0
            } else {
                here + 1
            }
            &&& before.selected is Some
            &&& before.selected->0 == if here == 0 {
                count - 1
            } else {
                here - 1
            }
            &&& !pane.filter ==> next.scroll_row is Some && next.scroll_row->0
                == pane.index.matches[next.selected->0 as int].row
            &&& !pane.filter ==> before.scroll_row is Some && before.scroll_row->0
                == pane.index.matches[before.selected->0 as int].row
            &&& next.rows == pane.rows
            &&& next.index == pane.index
        }),
{
    let (here, count) = (pane.selected->0 as int, pane.index.matches.len() as int);
    if here == count - 1 {
        assert(count % count == 0) by (nonlinear_arith)
            requires
                count > 0,
        ;
    } else {
        assert((here + 1) % count == here + 1) by (nonlinear_arith)
            requires
                0 <= here,
                here + 1 < count,
        ;
    }
    let next = pane.navigated(true).selected->0 as int;
    let before = pane.navigated(false).selected->0 as int;
    assert(0 <= pane.index.matches[next].row <= usize::MAX);
    assert(0 <= pane.index.matches[before].row <= usize::MAX);
}

/// The place of a row among those that are shown is where it stands in their list.
pub proof fn rows_have_their_places(rows: Seq<int>, row: int)
    requires
        rows.len() <= usize::MAX,
    ensures
        match place_of(rows, row) {
            Some(place) => place < rows.len() && rows[place as int] == row,
            None => !rows.contains(row),
        },
    decreases rows.len(),
{
    if rows.len() > 0 && rows.last() != row {
        let before = rows.drop_last();
        rows_have_their_places(before, row);
        if rows.contains(row) {
            let i = choose|i: int| 0 <= i < rows.len() && rows[i] == row;
            assert(before[i] == row);
        }
    } else if rows.len() > 0 {
        assert(rows[rows.len() - 1] == row);
    }
}

/// A result that is wanted is shown as it came. A new search selects its first match, and one
/// that was only brought up to date keeps its selection, as far as there is a match for it.
pub proof fn results_are_shown_as_they_came(
    pane: PaneView,
    revision: u64,
    generation: u64,
    index: IndexView,
    now: u64,
)
    requires
        pane.search.wanted(revision, generation, pane.generation),
        index.matches.len() <= 100_000,
    ensures
        ({
            let after = pane.search_finished(revision, generation, index, now);
            &&& after.index == index
            &&& after.index_generation == Some(generation)
            &&& after.rows == pane.rows
            &&& after.query == pane.query
            &&& index.error is Some || index.matches.len() == 0 ==> after.selected is None
            &&& index.error is None && index.matches.len() > 0 && pane.search.reset_selection
                ==> after.selected == Some(0usize)
            &&& index.error is None && index.matches.len() > 0 && !pane.search.reset_selection ==> {
                &&& pane.selected is None ==> after.selected is None
                &&& pane.selected matches Some(selected) ==> after.selected == Some(
                    if selected < index.matches.len() {
                        selected
                    } else {
                        (index.matches.len() - 1) as usize
                    },
                )
            }
        }),
{
}

/// What has arrived is shown eighty milliseconds after the display was last made, and at once if
/// it has to be made anew.
pub proof fn arrivals_are_shown_soon(pane: PaneView, now: u64)
    requires
        now >= pane.display.last_started,
    ensures
        pane.display.full_rebuild ==> pane.format_wait(now) is None,
        !pane.display.full_rebuild ==> match pane.format_wait(now) {
            Some(wait) => now + wait == pane.display.last_started + 80,
            None => now >= pane.display.last_started + 80,
        },
{
}

/// A paused display, one that is being made and one that is being searched are left alone; any
/// other follows as soon as something has arrived.
pub proof fn a_display_follows_unless_it_is_held(pane: PaneView, store_generation: u64)
    ensures
        pane.paused ==> pane.format_blocked(store_generation),
        pane.search.running() ==> pane.format_blocked(store_generation),
        !pane.paused && !(pane.display.phase is Running) && !pane.search.running() ==> (
        pane.format_blocked(store_generation) <==> store_generation == pane.generation
            && !pane.display.full_rebuild),
{
}

/// A new query is looked for with what was asked, a hundred and twenty milliseconds after it was
/// typed; an empty one finds nothing and waits for nothing; an expression that is refused is told
/// of.
pub proof fn queries_are_searched_for_after_a_pause(
    pane: PaneView,
    matcher: MatcherView,
    error: Seq<char>,
    reset: bool,
    now: u64,
    later: u64,
)
    requires
        now <= u64::MAX - 120,
        !pane.search.running(),
        now <= later,
    ensures
        ({
            let after = pane.search_requested(Ok(Some(matcher)), reset, now);
            &&& after.matcher == Some(matcher)
            &&& after.index_generation is None
            &&& after.search.ready(later) <==> later >= now + 120
            &&& reset ==> after.index.matches.len() == 0 && after.selected is None
            &&& !reset ==> after.index == pane.index && after.selected == pane.selected
            &&& after.rows == pane.rows
        }),
        ({
            let after = pane.search_requested(Ok(None), reset, now);
            &&& after.matcher is None
            &&& after.index.matches.len() == 0
            &&& after.index.error is None
            &&& after.index_generation == Some(pane.generation)
            &&& !after.search.pending()
        }),
        ({
            let after = pane.search_requested(Err(error), reset, now);
            &&& after.matcher is None
            &&& after.index.matches.len() == 0
            &&& after.index.error == Some(error)
            &&& after.index_generation == Some(pane.generation)
            &&& after.selected is None
            &&& !after.search.pending()
        }),
{
}

/// The row of the selected match is shown: its own place, or its place among the rows that a
/// filter leaves. While the matches are out of date no row is looked for, and nothing else changes.
pub proof fn the_selected_match_is_brought_in_sight(pane: PaneView)
    ensures
        ({
            let after = pane.with_selected_in_sight();
            &&& after == (PaneView { scroll_row: after.scroll_row, ..pane })
            &&& !pane.index_current() ==> after.scroll_row is None
            &&& pane.index_current() && pane.selected is None ==> after == pane
            &&& pane.index_current() && pane.selected is Some && pane.selected->0
                < pane.index.matches.len() && !pane.filter ==> after.scroll_row == Some(
                pane.index.matches[pane.selected->0 as int].row as usize,
            )
            &&& pane.index_current() && pane.selected is Some && pane.selected->0
                < pane.index.matches.len() && pane.filter ==> after.scroll_row == place_of(
                rows_of(pane.index.matches),
                pane.index.matches[pane.selected->0 as int].row,
            )
        }),
        pane.query.len() == 0 ==> pane.index_current(),
        pane.query.len() > 0 ==> (pane.index_current() <==> pane.index_generation == Some(
            pane.generation,
        )),
{
}

/// When the rows are made anew, the matches are looked for again: until they are found, none are
/// taken for those of the new rows. Without a query there is nothing to find.
pub proof fn new_rows_are_searched_anew(pane: PaneView, now: u64)
    ensures
        ({
            let after = pane.searched_anew(now);
            &&& pane.query.len() == 0 ==> after.index.matches.len() == 0 && after.index.error
                is None && after.index_generation == Some(pane.generation)
                && !after.search.pending()
            &&& pane.query.len() > 0 && pane.matcher is Some ==> !after.index_current()
                && after.search.pending() && after.index == pane.index
            &&& pane.query.len() > 0 && pane.matcher is None ==> after.index == pane.index
                && after.search == pane.search && (after.index_current() <==> pane.index.error
                is Some)
            &&& after.rows == pane.rows
            &&& after.generation == pane.generation
            &&& after.query == pane.query
            &&& after.matcher == pane.matcher
            &&& after.selected == pane.selected
            &&& after.filter == pane.filter
            &&& after.paused == pane.paused
        }),
{
}

/// A match that is still there stays selected; one that is gone gives way to the last match, and
/// without matches none is selected.
pub proof fn the_selection_stays_within_the_matches(pane: PaneView)
    ensures
        ({
            let (count, after) = (pane.index.matches.len(), pane.with_bounded_selection());
            &&& count == 0 ==> after.selected is None && after.scroll_row is None
            &&& count > 0 && pane.selected is None ==> after == pane
            &&& count > 0 && pane.selected is Some && pane.selected->0 < count ==> after == pane
            &&& count > 0 && count <= usize::MAX && pane.selected is Some && pane.selected->0
                >= count ==> after.selected == Some((count - 1) as usize)
            &&& after == (PaneView {
                selected: after.selected,
                scroll_row: after.scroll_row,
                ..pane
            })
        }),
{
}

} // verus!
