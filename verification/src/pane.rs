//! The received data on display: when rows are made, how the search follows them, and what is
//! shown. Times are milliseconds on one steady clock.

use std::sync::Arc;

use vstd::prelude::*;

use crate::formatting::display::{
    display_snapshot_limit, followed, DisplayFormatter, DisplayUpdate, RowState,
    MAX_DISPLAY_INCREMENT_BYTES,
};
use crate::formatting::rows::{row_views, FormattedRow, RowView};
use crate::model::{ReceiveMode, TextEncoding};
use crate::pane::segments::{parts_of, row_segments, RowSegment};
use crate::search::{
    all_lie_in, all_matches, as_ints, match_views, matches_at, matches_at_are_together, matches_below, matches_from, rows_of,
    search_fails, search_rows_with_matcher, search_source, within_capacity, MatchView, Query, SearchDisplayOptions, SearchIndex,
    SearchMatch, SearchMatcher, MAX_SEARCH_MATCHES,
};
use crate::store::{total_bytes, ReceiveCursor, ReceiveSnapshot, ReceiveStore, StoreView};
use crate::task_state::{
    elapsed, time_left, DisplayPhase, DisplayTaskState, DisplayTaskView, SearchPhase,
    SearchTaskState, SearchTaskView,
};
use crate::terminal::formatter::{update_applied, UpdateView};

pub mod laws;
pub mod segments;
pub mod status;

verus! {

pub const FORMAT_DEBOUNCE: u64 = 80;

pub const SEARCH_DEBOUNCE: u64 = 120;

/// What an index says.
#[verifier::ext_equal]
pub struct IndexView {
    pub matches: Seq<MatchView>,
    pub error: Option<Seq<char>>,
    pub truncated: bool,
}

pub open spec fn index_view(index: SearchIndex) -> IndexView {
    IndexView {
        matches: match_views(index.matches@),
        error: match index.error {
            Some(error) => Some(error@),
            None => None,
        },
        truncated: index.truncated,
    }
}

pub open spec fn empty_index() -> IndexView {
    IndexView { matches: Seq::empty(), error: None, truncated: false }
}

/// What a matcher looks for.
#[verifier::ext_equal]
pub struct MatcherView {
    pub source: Seq<char>,
    pub ignore_case: bool,
}

impl MatcherView {
    pub open spec fn query(self, timestamps: bool, format: Seq<char>) -> Query {
        Query { source: self.source, ignore_case: self.ignore_case, timestamps, format }
    }
}

pub open spec fn matcher_view(matcher: Option<SearchMatcher>) -> Option<MatcherView> {
    match matcher {
        Some(matcher) => Some(
            MatcherView { source: matcher.source(), ignore_case: matcher.ignores_case() },
        ),
        None => None,
    }
}

/// The place to show next.
#[derive(Debug, Clone, Copy, PartialEq, Eq, Structural)]
pub enum ScrollTo {
    Bottom,
    Row(usize),
}

pub struct ReceivePane {
    pub query: String,
    pub case_sensitive: bool,
    pub regex_mode: bool,
    rows: Arc<Vec<FormattedRow>>,
    generation: u64,
    formatter: Option<DisplayFormatter>,
    display: DisplayTaskState,
    paused: bool,
    scroll_bottom: bool,
    filter: bool,
    search: SearchTaskState,
    matcher: Option<SearchMatcher>,
    index: SearchIndex,
    index_generation: Option<u64>,
    selected: Option<usize>,
    scroll_row: Option<usize>,
}

#[verifier::ext_equal]
pub struct PaneView {
    pub query: Seq<char>,
    pub case_sensitive: bool,
    pub regex_mode: bool,
    pub rows: Seq<RowView>,
    pub generation: u64,
    pub formatter: Option<DisplayFormatter>,
    pub display: DisplayTaskView,
    pub paused: bool,
    pub scroll_bottom: bool,
    pub filter: bool,
    pub search: SearchTaskView,
    pub matcher: Option<MatcherView>,
    pub index: IndexView,
    pub index_generation: Option<u64>,
    pub selected: Option<usize>,
    pub scroll_row: Option<usize>,
}

/// Where a row stands among others.
pub open spec fn place_of(rows: Seq<int>, row: int) -> Option<usize>
    decreases rows.len(),
{
    if rows.len() == 0 {
        None
    } else if rows.last() == row {
        Some((rows.len() - 1) as usize)
    } else {
        place_of(rows.drop_last(), row)
    }
}

/// The first ones of rows in order, as far as they are before `end`.
pub open spec fn rows_below(rows: Seq<int>, end: int) -> Seq<int>
    decreases rows.len(),
{
    if rows.len() > 0 && rows.last() >= end {
        rows_below(rows.drop_last(), end)
    } else {
        rows
    }
}

/// An index after a change of the display.
#[verifier::opaque]
pub open spec fn followed_index(
    index: IndexView,
    query: Query,
    row_count: int,
    update: UpdateView,
) -> IndexView {
    let append_start = row_count - update.remove_prefix - update.replace_tail;
    let kept = matches_below(matches_from(index.matches, update.remove_prefix), append_start);
    let all = kept + all_matches(query, update.rows, append_start);
    if index.truncated {
        IndexView { matches: kept, ..index }
    } else {
        IndexView {
            matches: within_capacity(all),
            truncated: all.len() >= MAX_SEARCH_MATCHES,
            ..index
        }
    }
}

/// An update that removes no more rows than there are.
pub open spec fn bounded_update(update: UpdateView, row_count: int) -> UpdateView {
    let remove_prefix = if update.remove_prefix < row_count {
        update.remove_prefix
    } else {
        row_count
    };
    let rest = row_count - remove_prefix;
    UpdateView {
        remove_prefix,
        replace_tail: if update.replace_tail < rest {
            update.replace_tail
        } else {
            rest
        },
        ..update
    }
}

impl PaneView {
    /// The matches that are known are those of the rows on display.
    pub open spec fn index_current(self) -> bool {
        self.query.len() == 0 || self.index_generation == Some(self.generation)
    }

    pub open spec fn search_busy(self) -> bool {
        self.search.running() || self.search.pending()
    }

    /// The row to show of the selected match, as far as one is to be shown.
    pub open spec fn with_selected_in_sight(self) -> PaneView {
        if !self.index_current() {
            PaneView { scroll_row: None, ..self }
        } else if self.selected is Some && self.selected->0 < self.index.matches.len() {
            let row = self.index.matches[self.selected->0 as int].row;
            PaneView {
                scroll_row: if self.filter {
                    place_of(rows_of(self.index.matches), row)
                } else {
                    Some(row as usize)
                },
                ..self
            }
        } else {
            self
        }
    }

    /// A selection that is still there.
    pub open spec fn with_bounded_selection(self) -> PaneView {
        if self.index.matches.len() == 0 {
            PaneView { selected: None, scroll_row: None, ..self }
        } else if self.selected is Some && self.selected->0 >= self.index.matches.len() {
            PaneView { selected: Some((self.index.matches.len() - 1) as usize), ..self }
        } else {
            self
        }
    }

    /// Nothing is to be formatted now.
    pub open spec fn format_blocked(self, store_generation: u64) -> bool {
        self.paused || self.display.phase == DisplayPhase::Running || self.search.running() || (
        store_generation == self.generation && !self.display.full_rebuild)
    }

    /// How long formatting has to wait.
    pub open spec fn format_wait(self, now: u64) -> Option<u64> {
        if self.display.full_rebuild {
            None
        } else {
            time_left(FORMAT_DEBOUNCE, elapsed(self.display.last_started, now))
        }
    }

    /// What has arrived can be added to the rows on display.
    pub open spec fn can_follow(
        self,
        store: StoreView,
        mode: ReceiveMode,
        encoding: TextEncoding,
    ) -> bool {
        &&& !self.display.full_rebuild
        &&& self.formatter matches Some(formatter) && formatter.inner().mode == mode
            && formatter.inner().encoding == encoding && match store.position_of(
            formatter.inner().cursor,
        ) {
            Some(start) => total_bytes(store.chunks.skip(start)) <= MAX_DISPLAY_INCREMENT_BYTES,
            None => false,
        }
    }

    /// The display after an update of its rows.
    #[verifier::opaque]
    pub open spec fn updated(
        self,
        formatter: DisplayFormatter,
        update: UpdateView,
        generation: u64,
        timestamps: bool,
        format: Seq<char>,
        now: u64,
    ) -> PaneView {
        let rows = update_applied(self.rows, update);
        let changed = PaneView {
            rows,
            generation,
            formatter: Some(formatter),
            display: self.display.applied(now),
            ..self
        };
        if self.index_generation == Some(self.generation) {
            PaneView {
                index: match self.matcher {
                    Some(matcher) => followed_index(
                        self.index,
                        matcher.query(timestamps, format),
                        self.rows.len() as int,
                        bounded_update(update, self.rows.len() as int),
                    ),
                    None => self.index,
                },
                index_generation: Some(generation),
                ..changed
            }.with_bounded_selection()
        } else {
            changed
        }
    }

    /// The display once it shows rows that were made anew.
    pub open spec fn rebuilt(
        self,
        rows: Seq<RowView>,
        formatter: DisplayFormatter,
        generation: u64,
        now: u64,
    ) -> PaneView {
        PaneView {
            rows,
            generation,
            formatter: Some(formatter),
            ..self
        }.searched_anew(now)
    }

    /// The search starts again, as the rows have changed.
    pub open spec fn searched_anew(self, now: u64) -> PaneView {
        if self.query.len() == 0 {
            PaneView {
                index: empty_index(),
                index_generation: Some(self.generation),
                search: self.search.cancelled(),
                ..self
            }
        } else if self.matcher is Some {
            PaneView {
                index_generation: None,
                search: self.search.requested_anew(now),
                ..self
            }
        } else {
            PaneView {
                index_generation: if self.index.error is Some {
                    Some(self.generation)
                } else {
                    None
                },
                ..self
            }
        }
    }

    /// The user has changed what is searched for.
    pub open spec fn search_requested(
        self,
        compiled: Result<Option<MatcherView>, Seq<char>>,
        reset_selection: bool,
        now: u64,
    ) -> PaneView {
        let cleared = if reset_selection {
            PaneView { index: empty_index(), selected: None, scroll_row: None, ..self }
        } else {
            self
        };
        match compiled {
            Ok(Some(matcher)) => PaneView {
                matcher: Some(matcher),
                index_generation: None,
                search: self.search.requested(SEARCH_DEBOUNCE, reset_selection, now),
                ..cleared
            },
            Ok(None) => PaneView {
                matcher: None,
                index: empty_index(),
                index_generation: Some(self.generation),
                search: self.search.cancelled(),
                ..cleared
            },
            Err(error) => PaneView {
                matcher: None,
                index: IndexView { error: Some(error), ..empty_index() },
                index_generation: Some(self.generation),
                search: self.search.cancelled(),
                selected: None,
                scroll_row: None,
                ..cleared
            },
        }
    }

    /// A search result has come.
    pub open spec fn search_finished(
        self,
        revision: u64,
        generation: u64,
        index: IndexView,
        now: u64,
    ) -> PaneView {
        let finished = self.search.finished(
            revision,
            generation,
            self.generation,
            self.matcher is Some,
            now,
        );
        if self.search.wanted(revision, generation, self.generation) {
            let shown = PaneView {
                index,
                index_generation: Some(generation),
                search: SearchTaskView { reset_selection: false, ..finished },
                ..self
            };
            if index.error is Some || index.matches.len() == 0 {
                PaneView { selected: None, scroll_row: None, ..shown }
            } else if self.search.reset_selection {
                PaneView { selected: Some(0), ..shown }.with_selected_in_sight()
            } else {
                shown.with_bounded_selection()
            }
        } else if self.search.running() && revision == self.search.revision && self.matcher is Some {
            PaneView { index_generation: None, search: finished, ..self }
        } else {
            PaneView { search: finished, ..self }
        }
    }

    /// Only rows with matches are shown.
    pub open spec fn filtering(self) -> bool {
        self.filter && self.query.len() > 0 && self.index_current() && self.index.error is None
    }

    /// The rows that are shown, by their places on display.
    pub open spec fn visible_rows(self) -> Seq<int> {
        if self.filtering() {
            rows_below(rows_of(self.index.matches), self.rows.len() as int)
        } else {
            Seq::new(self.rows.len(), |i: int| i)
        }
    }

    /// The selection moves to the next match or the one before, round and round.
    pub open spec fn navigated(self, forward: bool) -> PaneView {
        let count = self.index.matches.len();
        if !self.index_current() || self.search_busy() || count == 0 {
            self
        } else {
            let current = match self.selected {
                Some(selected) => selected as int,
                None => 0,
            };
            let next = if forward {
                (current + 1) % (count as int)
            } else if current > 0 {
                current - 1
            } else {
                count - 1
            };
            PaneView { selected: Some(next as usize), ..self }.with_selected_in_sight()
        }
    }
}

/// What formatting asks for now.
pub enum FormatStep {
    Idle,
    /// It is not time yet.
    Wait(u64),
    /// The rows on display were brought up to date.
    Applied,
    /// Rows have to be made anew from a snapshot.
    Rebuild { revision: u64, snapshot: ReceiveSnapshot },
}

/// A search to run beside the display.
pub struct SearchJob {
    rows: Arc<Vec<FormattedRow>>,
    matcher: SearchMatcher,
    timestamps: bool,
    timestamp_format: String,
    revision: u64,
    generation: u64,
}

impl SearchJob {
    pub closed spec fn rows(self) -> Seq<RowView> {
        row_views(self.rows@)
    }

    pub closed spec fn query(self) -> Query {
        Query {
            source: self.matcher.source(),
            ignore_case: self.matcher.ignores_case(),
            timestamps: self.timestamps,
            format: self.timestamp_format@,
        }
    }

    pub closed spec fn run_of(self) -> (u64, u64) {
        (self.revision, self.generation)
    }

    /// The revision and the generation that the result belongs to.
    pub fn identity(&self) -> (run: (u64, u64))
        ensures
            run == self.run_of(),
    {
        (self.revision, self.generation)
    }

    pub fn run(&self) -> (index: SearchIndex)
        ensures
            index.wf(),
            index.error is None,
            match_views(index.matches@) == within_capacity(
                all_matches(self.query(), self.rows(), 0),
            ),
            index.truncated == (all_matches(self.query(), self.rows(), 0).len()
                >= MAX_SEARCH_MATCHES),
            all_lie_in(match_views(index.matches@), self.query(), self.rows()),
    {
        let options = SearchDisplayOptions::new(self.timestamps, self.timestamp_format.as_str());
        assert(self.matcher.query(options) == self.query());
        search_rows_with_matcher(self.rows.as_slice(), &self.matcher, options)
    }
}

/// What searching asks for now.
pub enum SearchStep {
    Idle,
    /// It is not time yet.
    Wait(u64),
    Run(SearchJob),
}

/// `Arc::try_unwrap`: gives the rows if nobody else holds them, or the same pointer back.
#[verifier::external_body]
fn unshared(rows: Arc<Vec<FormattedRow>>) -> (result: Result<
    Vec<FormattedRow>,
    Arc<Vec<FormattedRow>>,
>)
    ensures
        match result {
            Ok(inner) => inner@ == rows@,
            Err(shared) => shared@ == rows@,
        },
{
    Arc::try_unwrap(rows)
}

fn copied_rows(rows: &Vec<FormattedRow>) -> (copy: Vec<FormattedRow>)
    ensures
        row_views(copy@) == row_views(rows@),
{
    let mut copy: Vec<FormattedRow> = Vec::new();
    let mut i: usize = 0;
    while i < rows.len()
        invariant
            i <= rows.len(),
            copy@.len() == i,
            forall|k: int| 0 <= k < i ==> (#[trigger] copy@[k])@ == rows@[k]@,
        decreases rows.len() - i,
    {
        copy.push(rows[i].clone());
        i += 1;
    }
    assert(row_views(copy@) =~= row_views(rows@));
    copy
}

/// Rows of which some have left at the start and at the end, with others added.
fn updated_rows(
    rows: Arc<Vec<FormattedRow>>,
    remove_prefix: usize,
    replace_tail: usize,
    added: Vec<FormattedRow>,
) -> (result: Arc<Vec<FormattedRow>>)
    requires
        remove_prefix + replace_tail <= rows@.len(),
    ensures
        row_views(result@) == row_views(rows@).subrange(
            remove_prefix as int,
            rows@.len() - replace_tail,
        ) + row_views(added@),
{
    let ghost before = row_views(rows@);
    let mut all = match unshared(rows) {
        Ok(rows) => rows,
        Err(shared) => copied_rows(&shared),
    };
    assert(row_views(all@) == before);
    assert(row_views(all@).len() == all@.len());
    let mut rest = all.split_off(remove_prefix);
    assert(row_views(rest@) =~= before.skip(remove_prefix as int));
    assert(rest@.len() == before.len() - remove_prefix) by {
        assert(row_views(rest@).len() == rest@.len());
    }
    let kept: usize = rest.len() - replace_tail;
    rest.truncate(kept);
    assert(row_views(rest@) =~= before.subrange(
        remove_prefix as int,
        before.len() - replace_tail,
    ));
    let ghost middle = rest@;
    let mut added = added;
    let ghost new = added@;
    rest.append(&mut added);
    assert(row_views(rest@) =~= row_views(middle) + row_views(new));
    Arc::new(rest)
}

/// The display has followed a store.
pub open spec fn pane_followed(
    before: PaneView,
    after: PaneView,
    store: StoreView,
    timestamps: bool,
    format: Seq<char>,
    now: u64,
    update: UpdateView,
) -> bool {
    let formatter = before.formatter->0;
    let start = store.position_of(formatter.inner().cursor)->0;
    &&& after.formatter is Some
    &&& followed(
        formatter,
        after.formatter->0,
        ReceiveCursor { stream_id: store.stream_id, next_sequence: store.next_sequence },
        store.first_sequence(),
        store.chunks.skip(start),
        update,
    )
    &&& after == before.updated(
        after.formatter->0,
        update,
        store.generation,
        timestamps,
        format,
        now,
    )
}

/// Some update has made the display follow a store.
pub open spec fn has_followed(
    before: PaneView,
    after: PaneView,
    store: StoreView,
    timestamps: bool,
    format: Seq<char>,
    now: u64,
) -> bool {
    exists|update: UpdateView| #[trigger]
        pane_followed(before, after, store, timestamps, format, now, update)
}

/// How a matcher came out.
pub open spec fn compiled_view(compiled: Result<Option<SearchMatcher>, String>) -> Result<
    Option<MatcherView>,
    Seq<char>,
> {
    match compiled {
        Ok(matcher) => Ok(matcher_view(matcher)),
        Err(error) => Err(error@),
    }
}

impl ReceivePane {
    pub closed spec fn inner(self) -> PaneView {
        PaneView {
            query: self.query@,
            case_sensitive: self.case_sensitive,
            regex_mode: self.regex_mode,
            rows: row_views(self.rows@),
            generation: self.generation,
            formatter: self.formatter,
            display: self.display.inner(),
            paused: self.paused,
            scroll_bottom: self.scroll_bottom,
            filter: self.filter,
            search: self.search.inner(),
            matcher: matcher_view(self.matcher),
            index: index_view(self.index),
            index_generation: self.index_generation,
            selected: self.selected,
            scroll_row: self.scroll_row,
        }
    }

    /// All parts are in order, and nothing is to be searched for without a matcher.
    pub closed spec fn wf(self) -> bool {
        &&& self.index.wf()
        &&& self.formatter matches Some(formatter) ==> formatter.wf()
        &&& self.search.inner().pending() ==> self.matcher is Some
        &&& self.selected matches Some(selected) ==> selected < MAX_SEARCH_MATCHES
    }

    /// A selected match has a number that an index can hold.
    pub proof fn selection_is_bounded(self)
        requires
            self.wf(),
        ensures
            self.inner().selected is Some ==> self.inner().selected->0 < MAX_SEARCH_MATCHES,
            self.inner().index.matches.len() <= MAX_SEARCH_MATCHES,
    {
        assert(self.inner().index.matches.len() == self.index.matches@.len());
    }

    pub fn new(now: u64) -> (pane: Self)
        ensures
            pane.wf(),
            pane.inner() == (PaneView {
                query: Seq::empty(),
                case_sensitive: false,
                regex_mode: false,
                rows: Seq::empty(),
                generation: u64::MAX,
                formatter: None,
                display: DisplayTaskView {
                    revision: 0,
                    phase: DisplayPhase::Idle,
                    full_rebuild: true,
                    last_started: elapsed(FORMAT_DEBOUNCE, now),
                },
                paused: false,
                scroll_bottom: false,
                filter: false,
                search: SearchTaskView {
                    revision: 0,
                    phase: SearchPhase::Idle,
                    reset_selection: false,
                },
                matcher: None,
                index: empty_index(),
                index_generation: None,
                selected: None,
                scroll_row: None,
            }),
    {
        let pane = ReceivePane {
            query: String::new(),
            case_sensitive: false,
            regex_mode: false,
            rows: Arc::new(Vec::new()),
            generation: u64::MAX,
            formatter: None,
            display: DisplayTaskState::new(FORMAT_DEBOUNCE, now),
            paused: false,
            scroll_bottom: false,
            filter: false,
            search: SearchTaskState::new(),
            matcher: None,
            index: SearchIndex::default(),
            index_generation: None,
            selected: None,
            scroll_row: None,
        };
        assert(pane.inner().rows =~= Seq::<RowView>::empty());
        assert(pane.inner().index =~= empty_index());
        pane
    }

    pub fn rows(&self) -> (rows: &Vec<FormattedRow>)
        ensures
            row_views(rows@) == self.inner().rows,
    {
        &self.rows
    }

    /// The generation of the buffer that the rows were made from.
    pub fn generation(&self) -> (generation: u64)
        ensures
            generation == self.inner().generation,
    {
        self.generation
    }

    pub fn is_paused(&self) -> (paused: bool)
        ensures
            paused == self.inner().paused,
    {
        self.paused
    }

    pub fn is_formatting(&self) -> (formatting: bool)
        ensures
            formatting == (self.inner().display.phase == DisplayPhase::Running),
    {
        self.display.is_running()
    }

    /// The display waits for the store, whether anything has arrived or not.
    pub fn needs_store(&self) -> (needed: bool)
        ensures
            needed == !self.inner().format_blocked(self.inner().generation),
    {
        !self.paused && !self.display.is_running() && !self.search.is_running()
            && self.display.needs_full_rebuild()
    }

    pub fn is_filter_set(&self) -> (filter: bool)
        ensures
            filter == self.inner().filter,
    {
        self.filter
    }

    pub fn index(&self) -> (index: &SearchIndex)
        requires
            self.wf(),
        ensures
            index.wf(),
            index_view(*index) == self.inner().index,
    {
        &self.index
    }

    /// The selected match, while the matches are those of the rows on display.
    pub fn selected_match(&self) -> (selected: Option<usize>)
        ensures
            selected == if self.inner().index_current() {
                self.inner().selected
            } else {
                None
            },
    {
        if self.search_index_is_current() {
            self.selected
        } else {
            None
        }
    }

    pub fn is_search_busy(&self) -> (busy: bool)
        ensures
            busy == self.inner().search_busy(),
    {
        self.search.is_busy()
    }

    /// The terminal cursor, if it is on a row that is shown.
    pub fn terminal_cursor(&self, mode: ReceiveMode) -> (cursor: Option<(usize, usize)>)
        ensures
            match self.inner().formatter {
                Some(formatter) => match formatter.inner().state {
                    RowState::Terminal(state) => match cursor {
                        Some(cursor) => mode == ReceiveMode::Terminal && cursor.0
                            == state.screen.cursor_row && cursor.1 == state.screen.cursor_col
                            && state.screen.cursor_row < state.screen.rendered_len(),
                        None => mode != ReceiveMode::Terminal || state.screen.cursor_row
                            >= state.screen.rendered_len(),
                    },
                    _ => cursor is None,
                },
                None => cursor is None,
            },
    {
        if mode != ReceiveMode::Terminal {
            return None;
        }
        match &self.formatter {
            Some(formatter) => formatter.terminal_cursor(),
            None => None,
        }
    }

    pub fn invalidate_format(&mut self)
        requires
            old(self).wf(),
        ensures
            final(self).wf(),
            final(self).inner() == (PaneView {
                display: old(self).inner().display.invalidated(),
                ..old(self).inner()
            }),
    {
        self.display.invalidate();
    }

    /// Stops or goes on showing what arrives.
    pub fn toggle_pause(&mut self)
        requires
            old(self).wf(),
        ensures
            final(self).wf(),
            final(self).inner() == (PaneView {
                paused: !old(self).inner().paused,
                display: old(self).inner().display.invalidated(),
                ..old(self).inner()
            }),
    {
        self.paused = !self.paused;
        self.display.invalidate();
    }

    pub fn scroll_to_bottom(&mut self)
        requires
            old(self).wf(),
        ensures
            final(self).wf(),
            final(self).inner() == (PaneView { scroll_bottom: true, ..old(self).inner() }),
    {
        self.scroll_bottom = true;
    }

    /// The place to show next; asked for once. The bottom comes before a match.
    pub fn take_scroll(&mut self) -> (scroll: Option<ScrollTo>)
        requires
            old(self).wf(),
        ensures
            final(self).wf(),
            ({
                let before = old(self).inner();
                if before.scroll_bottom {
                    scroll == Some(ScrollTo::Bottom) && final(self).inner() == (PaneView {
                        scroll_bottom: false,
                        ..before
                    })
                } else {
                    &&& scroll == match before.scroll_row {
                        Some(row) => Some(ScrollTo::Row(row)),
                        None => None,
                    }
                    &&& final(self).inner() == (PaneView { scroll_row: None, ..before })
                }
            }),
    {
        if self.scroll_bottom {
            self.scroll_bottom = false;
            return Some(ScrollTo::Bottom);
        }
        match self.scroll_row {
            Some(row) => {
                self.scroll_row = None;
                Some(ScrollTo::Row(row))
            },
            None => None,
        }
    }

    /// Brings the display up to date with the store, or tells what has to be done for that.
    pub fn maybe_start_format(
        &mut self,
        store: &ReceiveStore,
        mode: ReceiveMode,
        encoding: TextEncoding,
        timestamps: bool,
        timestamp_format: &str,
        now: u64,
    ) -> (step: FormatStep)
        requires
            old(self).wf(),
            store.wf(),
        ensures
            final(self).wf(),
            ({
                let before = old(self).inner();
                let after = final(self).inner();
                if before.format_blocked(store.inner().generation) {
                    step is Idle && after == before
                } else if before.format_wait(now) is Some {
                    step == FormatStep::Wait(before.format_wait(now)->0) && after == before
                } else if before.can_follow(store.inner(), mode, encoding) {
                    step is Applied && has_followed(
                        before,
                        after,
                        store.inner(),
                        timestamps,
                        timestamp_format@,
                        now,
                    )
                } else {
                    &&& step matches FormatStep::Rebuild { revision, snapshot } && revision
                        == before.display.revision && store.inner().is_tail(
                        snapshot,
                        match mode {
                            ReceiveMode::Hex => 1_600_000,
                            _ => 16_777_216,
                        },
                    )
                    &&& after == (PaneView { display: before.display.started(now), ..before })
                }
            }),
    {
        let ghost before = self.inner();
        if self.paused || self.display.is_running() || self.search.is_running() {
            return FormatStep::Idle;
        }
        if store.generation() == self.generation && !self.display.needs_full_rebuild() {
            return FormatStep::Idle;
        }
        if let Some(wait) = self.display.debounce_remaining(FORMAT_DEBOUNCE, now) {
            return FormatStep::Wait(wait);
        }
        if !self.display.needs_full_rebuild() && self.follow_store(
            store,
            mode,
            encoding,
            timestamps,
            timestamp_format,
            now,
        ) {
            return FormatStep::Applied;
        }
        assert(self.inner() == before);
        let snapshot = store.tail_snapshot(display_snapshot_limit(mode));
        let revision: u64 = self.display.start(now);
        FormatStep::Rebuild { revision, snapshot }
    }

    /// Adds what has arrived to the rows on display, if that can be done.
    fn follow_store(
        &mut self,
        store: &ReceiveStore,
        mode: ReceiveMode,
        encoding: TextEncoding,
        timestamps: bool,
        timestamp_format: &str,
        now: u64,
    ) -> (applied: bool)
        requires
            old(self).wf(),
            store.wf(),
            !old(self).inner().display.full_rebuild,
        ensures
            final(self).wf(),
            applied == old(self).inner().can_follow(store.inner(), mode, encoding),
            !applied ==> final(self).inner() == old(self).inner(),
            applied ==> has_followed(
                old(self).inner(),
                final(self).inner(),
                store.inner(),
                timestamps,
                timestamp_format@,
                now,
            ),
    {
        let ghost before = self.inner();
        let taken = match self.formatter.take() {
            Some(formatter) => formatter,
            None => return false,
        };
        let mut formatter = taken;
        if formatter.is_compatible(mode, encoding) {
            let delta = store.delta_since_bounded(formatter.cursor(), MAX_DISPLAY_INCREMENT_BYTES);
            if let Ok(update) = formatter.apply_delta(&delta) {
                let ghost change = update@;
                let ghost after = formatter;
                let ghost without = self.inner();
                self.apply_display_update(formatter, update, timestamps, timestamp_format, now);
                proof {
                    updated_ignores_formatter(
                        before,
                        without,
                        after,
                        change,
                        store.inner().generation,
                        timestamps,
                        timestamp_format@,
                        now,
                    );
                    assert(pane_followed(
                        before,
                        self.inner(),
                        store.inner(),
                        timestamps,
                        timestamp_format@,
                        now,
                        change,
                    ));
                }
                return true;
            }
        }
        self.formatter = Some(formatter);
        false
    }

    /// Changes the rows on display, and the matches with them.
    fn apply_display_update(
        &mut self,
        formatter: DisplayFormatter,
        update: DisplayUpdate,
        timestamps: bool,
        timestamp_format: &str,
        now: u64,
    )
        requires
            old(self).wf(),
            formatter.wf(),
        ensures
            final(self).wf(),
            final(self).inner() == old(self).inner().updated(
                formatter,
                update@,
                update.generation,
                timestamps,
                timestamp_format@,
                now,
            ),
            final(self).inner().formatter == Some(formatter),
    {
        let search_was_current = match self.index_generation {
            Some(generation) => generation == self.generation,
            None => false,
        };
        self.exchange_rows(update, search_was_current, timestamps, timestamp_format);
        self.formatter = Some(formatter);
        self.display.mark_applied(now);
        if search_was_current {
            self.clamp_search_selection();
        }
        proof {
            reveal(PaneView::updated);
        }
    }

    /// The numbers of rows to remove at the start and at the end, of those that there are.
    fn bounded_counts(update: &DisplayUpdate, row_count: usize) -> (counts: (usize, usize))
        ensures
            bounded_update(update@, row_count as int) == (UpdateView {
                remove_prefix: counts.0 as int,
                replace_tail: counts.1 as int,
                ..update@
            }),
            counts.0 + counts.1 <= row_count,
    {
        let remove_prefix: usize = if update.remove_prefix < row_count {
            update.remove_prefix
        } else {
            row_count
        };
        let rest: usize = row_count - remove_prefix;
        let replace_tail: usize = if update.replace_tail < rest {
            update.replace_tail
        } else {
            rest
        };
        (remove_prefix, replace_tail)
    }

    /// Changes the rows on display, and the matches if they are those of the old rows.
    fn exchange_rows(
        &mut self,
        update: DisplayUpdate,
        search_was_current: bool,
        timestamps: bool,
        timestamp_format: &str,
    )
        requires
            old(self).wf(),
        ensures
            final(self).wf(),
            ({
                let before = old(self).inner();
                final(self).inner() == PaneView {
                    rows: update_applied(before.rows, update@),
                    generation: update.generation,
                    index: if search_was_current && before.matcher is Some {
                        followed_index(
                            before.index,
                            before.matcher->0.query(timestamps, timestamp_format@),
                            before.rows.len() as int,
                            bounded_update(update@, before.rows.len() as int),
                        )
                    } else {
                        before.index
                    },
                    index_generation: if search_was_current {
                        Some(update.generation)
                    } else {
                        before.index_generation
                    },
                    ..before
                }
            }),
    {
        let ghost before = self.inner();
        let ghost change = update@;
        assert(before.rows.len() == self.rows@.len());
        let old_row_count: usize = self.rows.len();
        let (remove_prefix, replace_tail) = Self::bounded_counts(&update, old_row_count);
        let generation: u64 = update.generation;
        self.replace_rows(remove_prefix, replace_tail, update.rows);
        proof {
            bounded_update_applied(before.rows, change);
            assert(update_applied(before.rows, change).skip(
                old_row_count - remove_prefix - replace_tail,
            ) =~= change.rows);
        }
        if search_was_current {
            self.follow_index(
                old_row_count,
                remove_prefix,
                replace_tail,
                timestamps,
                timestamp_format,
            );
            self.index_generation = Some(generation);
        }
        self.generation = generation;
    }

    /// Removes rows at the start and at the end, and adds others.
    fn replace_rows(&mut self, remove_prefix: usize, replace_tail: usize, added: Vec<FormattedRow>)
        requires
            old(self).wf(),
            remove_prefix + replace_tail <= old(self).inner().rows.len(),
        ensures
            final(self).wf(),
            final(self).inner() == (PaneView {
                rows: old(self).inner().rows.subrange(
                    remove_prefix as int,
                    old(self).inner().rows.len() - replace_tail,
                ) + row_views(added@),
                ..old(self).inner()
            }),
    {
        assert(self.inner().rows.len() == self.rows@.len());
        let mut rows: Arc<Vec<FormattedRow>> = Arc::new(Vec::new());
        std::mem::swap(&mut rows, &mut self.rows);
        self.rows = updated_rows(rows, remove_prefix, replace_tail, added);
    }

    /// Finds the matches in the rows that were added.
    fn follow_index(
        &mut self,
        old_row_count: usize,
        remove_prefix: usize,
        replace_tail: usize,
        timestamps: bool,
        timestamp_format: &str,
    )
        requires
            old(self).wf(),
            remove_prefix + replace_tail <= old_row_count,
            old_row_count - remove_prefix - replace_tail <= old(self).inner().rows.len(),
        ensures
            final(self).wf(),
            final(self).inner() == (PaneView {
                index: match old(self).inner().matcher {
                    Some(matcher) => followed_index(
                        old(self).inner().index,
                        matcher.query(timestamps, timestamp_format@),
                        old_row_count as int,
                        UpdateView {
                            remove_prefix: remove_prefix as int,
                            replace_tail: replace_tail as int,
                            rows: old(self).inner().rows.skip(
                                old_row_count - remove_prefix - replace_tail,
                            ),
                        },
                    ),
                    None => old(self).inner().index,
                },
                ..old(self).inner()
            }),
    {
        if let Some(matcher) = &self.matcher {
            let ghost before = self.inner();
            let append_start: usize = old_row_count - remove_prefix - replace_tail;
            assert(before.rows.len() == self.rows@.len());
            let added = vstd::slice::slice_subrange(
                self.rows.as_slice(),
                append_start,
                self.rows.len(),
            );
            assert(row_views(added@) =~= before.rows.skip(append_start as int));
            self.index.apply_display_update(
                old_row_count,
                remove_prefix,
                replace_tail,
                added,
                matcher,
                SearchDisplayOptions::new(timestamps, timestamp_format),
            );
            proof {
                reveal(followed_index);
            }
            assert(index_view(self.index) =~= followed_index(
                before.index,
                before.matcher->0.query(timestamps, timestamp_format@),
                old_row_count as int,
                UpdateView {
                    remove_prefix: remove_prefix as int,
                    replace_tail: replace_tail as int,
                    rows: before.rows.skip(append_start as int),
                },
            ));
        }
    }

    fn clamp_search_selection(&mut self)
        requires
            old(self).wf(),
        ensures
            final(self).wf(),
            final(self).inner() == old(self).inner().with_bounded_selection(),
    {
        let ghost before = self.inner();
        assert(before.index.matches.len() == self.index.matches@.len());
        let count: usize = self.index.matches.len();
        if count == 0 {
            self.selected = None;
            self.scroll_row = None;
        } else if let Some(selected) = self.selected {
            if selected >= count {
                self.selected = Some(count - 1);
            }
        }
        assert(self.inner() =~= before.with_bounded_selection());
    }

    /// Takes in rows that were made anew. They are shown unless the display has changed meanwhile.
    pub fn finish_format(
        &mut self,
        revision: u64,
        generation: u64,
        rows: Vec<FormattedRow>,
        formatter: DisplayFormatter,
        now: u64,
    )
        requires
            old(self).wf(),
            formatter.wf(),
        ensures
            final(self).wf(),
            ({
                let before = old(self).inner();
                let finished = PaneView {
                    display: before.display.finished(revision, !before.paused),
                    ..before
                };
                final(self).inner() == if before.display.wanted(revision, !before.paused) {
                    finished.rebuilt(row_views(rows@), formatter, generation, now)
                } else {
                    finished
                }
            }),
    {
        let ghost before = self.inner();
        let current = self.display.finish(revision, !self.paused);
        if current {
            let ghost finished = self.inner();
            let ghost new_rows = row_views(rows@);
            self.rows = Arc::new(rows);
            self.generation = generation;
            self.formatter = Some(formatter);
            self.request_search_for_display(now);
            assert(self.inner() =~= finished.rebuilt(new_rows, formatter, generation, now));
        }
    }

    fn request_search_for_display(&mut self, now: u64)
        requires
            old(self).wf(),
        ensures
            final(self).wf(),
            final(self).inner() == old(self).inner().searched_anew(now),
    {
        let ghost before = self.inner();
        self.index_generation = None;
        if self.query.as_str().is_empty() {
            self.index = SearchIndex::default();
            self.search.cancel();
            self.index_generation = Some(self.generation);
            assert(index_view(self.index) =~= empty_index());
        } else if self.matcher.is_some() {
            self.search.request_anew(now);
        } else if self.index.error.is_some() {
            self.index_generation = Some(self.generation);
        }
        assert(self.inner() =~= before.searched_anew(now));
    }

    /// The search starts anew, as the user has changed what is searched for. Whether an
    /// expression compiles is up to the regular expression library.
    pub fn request_search(&mut self, reset_selection: bool, now: u64)
        requires
            old(self).wf(),
            now + SEARCH_DEBOUNCE <= u64::MAX,
        ensures
            final(self).wf(),
            requested_with_some_matcher(old(self).inner(), final(self).inner(), reset_selection, now),
            old(self).inner().query.len() == 0 ==> final(self).inner()
                == old(self).inner().search_requested(Ok(None), reset_selection, now),
    {
        let compiled = SearchMatcher::new(
            self.query.as_str(),
            self.case_sensitive,
            self.regex_mode,
        );
        let ghost view = compiled_view(compiled);
        self.use_matcher(compiled, reset_selection, now);
        assert(self.inner() == old(self).inner().search_requested(view, reset_selection, now));
    }

    /// The search starts anew with a matcher, or tells why there is none.
    pub fn use_matcher(
        &mut self,
        compiled: Result<Option<SearchMatcher>, String>,
        reset_selection: bool,
        now: u64,
    )
        requires
            old(self).wf(),
            now + SEARCH_DEBOUNCE <= u64::MAX,
        ensures
            final(self).wf(),
            final(self).inner() == old(self).inner().search_requested(
                compiled_view(compiled),
                reset_selection,
                now,
            ),
    {
        let ghost before = self.inner();
        let ghost view = compiled_view(compiled);
        self.index_generation = None;
        if reset_selection {
            self.index = SearchIndex::default();
            self.selected = None;
            self.scroll_row = None;
            assert(index_view(self.index) =~= empty_index());
        }
        match compiled {
            Ok(Some(matcher)) => {
                self.matcher = Some(matcher);
                self.search.request_debounced(SEARCH_DEBOUNCE, reset_selection, now);
            },
            Ok(None) => {
                self.matcher = None;
                self.search.cancel();
                self.index = SearchIndex::default();
                self.index_generation = Some(self.generation);
                assert(index_view(self.index) =~= empty_index());
            },
            Err(error) => {
                self.matcher = None;
                self.search.cancel();
                let mut index = SearchIndex::default();
                index.error = Some(error);
                self.index = index;
                self.index_generation = Some(self.generation);
                self.selected = None;
                self.scroll_row = None;
                assert(index_view(self.index) =~= IndexView {
                    error: Some(error@),
                    ..empty_index()
                });
            },
        }
        assert(self.inner() =~= before.search_requested(view, reset_selection, now));
    }

    /// Starts the search that is due.
    pub fn maybe_start_search(&mut self, timestamps: bool, timestamp_format: &str, now: u64) -> (step:
        SearchStep)
        requires
            old(self).wf(),
        ensures
            final(self).wf(),
            ({
                let before = old(self).inner();
                let after = final(self).inner();
                let blocked = before.query.len() == 0 || before.display.phase
                    == DisplayPhase::Running;
                if !blocked && before.search.ready(now) {
                    &&& after == (PaneView {
                        search: before.search.started(before.generation, now),
                        ..before
                    })
                    &&& before.matcher is Some
                    &&& step matches SearchStep::Run(job) && job.rows() == before.rows
                        && job.query() == before.matcher->0.query(timestamps, timestamp_format@)
                        && job.run_of() == (before.search.revision, before.generation)
                } else {
                    &&& after == before
                    &&& match step {
                        SearchStep::Wait(wait) => !blocked && before.search.phase is Debouncing
                            && wait == before.search.phase->not_before - now,
                        SearchStep::Idle => blocked || !(before.search.phase is Debouncing),
                        SearchStep::Run(_) => false,
                    }
                }
            }),
    {
        let ghost before = self.inner();
        if self.query.as_str().is_empty() || self.display.is_running() {
            return SearchStep::Idle;
        }
        if let Some(wait) = self.search.debounce_remaining(now) {
            return SearchStep::Wait(wait);
        }
        if !self.search.is_pending() || self.search.is_running() {
            return SearchStep::Idle;
        }
        let matcher = match &self.matcher {
            Some(matcher) => matcher.clone(),
            None => return SearchStep::Idle,
        };
        match self.search.start(self.generation, now) {
            Some((revision, generation)) => SearchStep::Run(
                SearchJob {
                    rows: self.rows.clone(),
                    matcher,
                    timestamps,
                    timestamp_format: timestamp_format.to_owned(),
                    revision,
                    generation,
                },
            ),
            None => SearchStep::Idle,
        }
    }

    /// Takes in a search result, if it is still wanted.
    pub fn finish_search(&mut self, revision: u64, generation: u64, index: SearchIndex, now: u64)
        requires
            old(self).wf(),
            index.wf(),
        ensures
            final(self).wf(),
            final(self).inner() == old(self).inner().search_finished(
                revision,
                generation,
                index_view(index),
                now,
            ),
    {
        let ghost before = self.inner();
        let ghost found = index_view(index);
        let was_running = self.search.is_running();
        let same_request = was_running && self.search.is_revision(revision);
        let current = self.search.finish(
            revision,
            generation,
            self.generation,
            self.matcher.is_some(),
            now,
        );
        if current {
            self.index = index;
            self.index_generation = Some(generation);
            assert(found.matches.len() == self.index.matches@.len());
            let reset = self.search.take_reset_selection();
            if self.index.error.is_some() || self.index.matches.len() == 0 {
                self.selected = None;
                self.scroll_row = None;
            } else if reset {
                self.selected = Some(0);
                self.queue_selected_search_scroll();
            } else {
                self.clamp_search_selection();
            }
        } else if same_request && self.matcher.is_some() {
            self.index_generation = None;
        }
        assert(self.inner() =~= before.search_finished(revision, generation, found, now));
    }

    /// The matches that are known are those of the rows on display.
    pub fn search_index_is_current(&self) -> (current: bool)
        ensures
            current == self.inner().index_current(),
    {
        self.query.as_str().is_empty() || match self.index_generation {
            Some(generation) => generation == self.generation,
            None => false,
        }
    }

    fn place_in(rows: &Vec<usize>, row: usize) -> (place: Option<usize>)
        ensures
            place == place_of(as_ints(rows@), row as int),
    {
        let ghost all = as_ints(rows@);
        let mut i: usize = rows.len();
        assert(all.take(i as int) == all);
        while i > 0
            invariant
                i <= rows.len(),
                all == as_ints(rows@),
                place_of(all, row as int) == place_of(all.take(i as int), row as int),
            decreases i,
        {
            assert(all.take(i as int).drop_last() == all.take(i - 1));
            assert(all.take(i as int).last() == rows@[i - 1] as int);
            if rows[i - 1] == row {
                return Some(i - 1);
            }
            i -= 1;
        }
        None
    }

    fn queue_selected_search_scroll(&mut self)
        requires
            old(self).wf(),
        ensures
            final(self).wf(),
            final(self).inner() == old(self).inner().with_selected_in_sight(),
    {
        let ghost before = self.inner();
        assert(before.index.matches.len() == self.index.matches@.len());
        if !self.search_index_is_current() {
            self.scroll_row = None;
            return ;
        }
        if let Some(selected) = self.selected {
            if selected < self.index.matches.len() {
                let row: usize = self.index.matches[selected].row_index;
                assert(before.index.matches[selected as int].row == row);
                self.scroll_row = if self.filter {
                    Self::place_in(&self.index.matched_rows, row)
                } else {
                    Some(row)
                };
            }
        }
        assert(self.inner() =~= before.with_selected_in_sight());
    }

    /// Shows only rows with matches, or all of them again.
    pub fn toggle_filter(&mut self)
        requires
            old(self).wf(),
        ensures
            final(self).wf(),
            final(self).inner() == (PaneView {
                filter: !old(self).inner().filter,
                ..old(self).inner()
            }).with_selected_in_sight(),
    {
        self.filter = !self.filter;
        self.queue_selected_search_scroll();
    }

    /// Selects the next match or the one before.
    pub fn navigate_search(&mut self, forward: bool)
        requires
            old(self).wf(),
        ensures
            final(self).wf(),
            final(self).inner() == old(self).inner().navigated(forward),
    {
        let ghost before = self.inner();
        assert(before.index.matches.len() == self.index.matches@.len());
        if !self.search_index_is_current() || self.search.is_busy() {
            return ;
        }
        let count: usize = self.index.matches.len();
        if count == 0 {
            return ;
        }
        let current: usize = match self.selected {
            Some(selected) => selected,
            None => 0,
        };
        let next: usize = if forward {
            (current + 1) % count
        } else if current > 0 {
            current - 1
        } else {
            count - 1
        };
        self.selected = Some(next);
        self.queue_selected_search_scroll();
        assert(self.inner() =~= before.navigated(forward));
    }

    /// Empties the display. The store was emptied and has a new generation.
    pub fn clear_receive(&mut self, generation: u64)
        requires
            old(self).wf(),
        ensures
            final(self).wf(),
            final(self).inner() == (PaneView {
                rows: Seq::empty(),
                generation,
                formatter: None,
                display: old(self).inner().display.invalidated(),
                search: old(self).inner().search.cancelled(),
                index: empty_index(),
                index_generation: Some(generation),
                selected: None,
                scroll_row: None,
                ..old(self).inner()
            }),
    {
        self.display.invalidate();
        self.rows = Arc::new(Vec::new());
        self.generation = generation;
        self.formatter = None;
        self.search.cancel();
        self.index = SearchIndex::default();
        self.index_generation = Some(generation);
        self.selected = None;
        self.scroll_row = None;
        assert(self.inner().rows =~= Seq::<RowView>::empty());
        assert(self.inner().index =~= empty_index());
    }

    /// Only rows with matches are shown.
    pub fn is_filtering(&self) -> (filtering: bool)
        ensures
            filtering == self.inner().filtering(),
    {
        self.filter && !self.query.as_str().is_empty() && self.search_index_is_current()
            && self.index.error.is_none()
    }

    /// The number of rows that are shown.
    pub fn visible_row_count(&self) -> (count: usize)
        requires
            self.wf(),
        ensures
            count == self.inner().visible_rows().len(),
    {
        assert(self.inner().rows.len() == self.rows@.len());
        if self.is_filtering() {
            let count = self.index.matched_row_count(self.rows.len());
            proof {
                rows_below_count(as_ints(self.index.matched_rows@), self.rows@.len() as int, count as int);
            }
            count
        } else {
            self.rows.len()
        }
    }

    /// The place on display of a row that is shown.
    pub fn visible_row(&self, at: usize) -> (row: Option<usize>)
        requires
            self.wf(),
        ensures
            match row {
                Some(row) => at < self.inner().visible_rows().len() && row
                    == self.inner().visible_rows()[at as int],
                None => at >= self.inner().visible_rows().len(),
            },
    {
        let count = self.visible_row_count();
        if at >= count {
            return None;
        }
        if self.is_filtering() {
            proof {
                rows_below_prefix(as_ints(self.index.matched_rows@), self.rows@.len() as int);
            }
            Some(self.index.matched_rows[at])
        } else {
            Some(at)
        }
    }
}

impl ReceivePane {
    /// A row that is shown with this text, cut where its matches begin and end.
    pub fn row_parts(&self, row_index: usize, text: &str) -> (parts: Vec<RowSegment>)
        requires
            self.wf(),
        ensures
            parts@ == self.inner().row_parts(row_index as int, text@),
    {
        let ghost matches = self.inner().index.matches;
        if !self.search_index_is_current() {
            let none: Vec<SearchMatch> = Vec::new();
            assert(match_views(none@) =~= Seq::<MatchView>::empty());
            return row_segments(text, 0, none.as_slice(), None);
        }
        let (offset, found) = self.index.matches_for_row(row_index);
        proof {
            let (start, end) = (offset as int, offset + found@.len());
            assert(matches.len() == self.index.matches@.len());
            assert(forall|i: int|
                0 <= i < matches.len() ==> (#[trigger] matches[i]).row
                    == self.index.matches@[i].row_index);
            matches_at_are_together(matches, row_index as int, start, end);
            assert(match_views(found@) =~= matches.subrange(start, end));
        }
        row_segments(text, offset, found, self.selected_match())
    }
}

impl PaneView {
    /// The parts of a row that is shown with this text.
    pub open spec fn row_parts(self, row: int, text: Seq<char>) -> Seq<RowSegment> {
        if self.index_current() {
            parts_of(
                text,
                matches_at(self.index.matches, row),
                matches_below(self.index.matches, row).len() as int,
                self.selected,
            )
        } else {
            parts_of(text, Seq::empty(), 0, None)
        }
    }
}

/// An update brings its own formatter.
proof fn updated_ignores_formatter(
    pane: PaneView,
    other: PaneView,
    formatter: DisplayFormatter,
    update: UpdateView,
    generation: u64,
    timestamps: bool,
    format: Seq<char>,
    now: u64,
)
    requires
        other == (PaneView { formatter: None, ..pane }),
    ensures
        pane.updated(formatter, update, generation, timestamps, format, now) == other.updated(
            formatter,
            update,
            generation,
            timestamps,
            format,
            now,
        ),
{
    reveal(PaneView::updated);
}

/// An update that removes too much removes all there is.
proof fn bounded_update_applied(shown: Seq<RowView>, update: UpdateView)
    requires
        update.remove_prefix >= 0,
        update.replace_tail >= 0,
    ensures
        ({
            let bounded = bounded_update(update, shown.len() as int);
            update_applied(shown, update) == shown.subrange(
                bounded.remove_prefix,
                shown.len() - bounded.replace_tail,
            ) + update.rows
        }),
{
    let bounded = bounded_update(update, shown.len() as int);
    let rest = shown.skip(bounded.remove_prefix);
    assert(rest.take(rest.len() - bounded.replace_tail) =~= shown.subrange(
        bounded.remove_prefix,
        shown.len() - bounded.replace_tail,
    ));
}

proof fn rows_below_prefix(rows: Seq<int>, end: int)
    ensures
        rows_below(rows, end).len() <= rows.len(),
        forall|i: int| 0 <= i < rows_below(rows, end).len() ==> #[trigger] rows_below(rows, end)[i]
            == rows[i],
    decreases rows.len(),
{
    if rows.len() > 0 && rows.last() >= end {
        rows_below_prefix(rows.drop_last(), end);
    }
}

proof fn rows_below_count(rows: Seq<int>, end: int, count: int)
    requires
        0 <= count <= rows.len(),
        forall|i: int| 0 <= i < count ==> #[trigger] rows[i] < end,
        forall|i: int| count <= i < rows.len() ==> #[trigger] rows[i] >= end,
    ensures
        rows_below(rows, end).len() == count,
    decreases rows.len(),
{
    if count < rows.len() {
        assert(rows[rows.len() - 1] >= end);
        rows_below_count(rows.drop_last(), end, count);
    } else if rows.len() > 0 {
        assert(rows[rows.len() - 1] < end);
    }
}

/// The search was started anew with what the regular expression library made of the query.
pub open spec fn requested_with_some_matcher(
    before: PaneView,
    after: PaneView,
    reset_selection: bool,
    now: u64,
) -> bool {
    exists|compiled: Result<Option<MatcherView>, Seq<char>>|
        after == #[trigger] before.search_requested(compiled, reset_selection, now)
            && fits_query(before, compiled)
}

/// A matcher, or an error, is what can come of the query.
pub open spec fn fits_query(
    pane: PaneView,
    compiled: Result<Option<MatcherView>, Seq<char>>,
) -> bool {
    match compiled {
        Ok(None) => pane.query.len() == 0,
        Ok(Some(matcher)) => pane.query.len() > 0 && matcher == MatcherView {
            source: search_source(pane.query, pane.regex_mode),
            ignore_case: !pane.case_sensitive,
        },
        Err(message) => pane.query.len() > 0 && search_fails(
            pane.query,
            pane.case_sensitive,
            pane.regex_mode,
            message,
        ),
    }
}

} // verus!
