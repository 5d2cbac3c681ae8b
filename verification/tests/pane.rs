use escom::formatting::DisplayFormatter;
use escom::formatting::DEFAULT_TIMESTAMP_FORMAT;
use escom::model::{ReceiveMode, TextEncoding};
use escom::pane::segments::{row_segments, RowSegment, SegmentKind};
use escom::pane::status::SearchStatus;
use escom::pane::{FormatStep, ReceivePane, ScrollTo, SearchStep};
use escom::search::{SearchMatch, SearchMatcher};
use escom::store::{ReceiveSnapshot, ReceiveStore};
use escom::timestamp::Timestamp;

const NOW: u64 = 50_000;
const FORMAT: &str = DEFAULT_TIMESTAMP_FORMAT;

fn received_at() -> Timestamp {
    Timestamp::new(1_785_499_200, 0, 0).unwrap()
}

fn start_format(pane: &mut ReceivePane, store: &ReceiveStore, now: u64) -> FormatStep {
    pane.maybe_start_format(
        store,
        ReceiveMode::Text,
        TextEncoding::Utf8,
        false,
        FORMAT,
        now,
    )
}

fn finish_format(pane: &mut ReceivePane, revision: u64, snapshot: &ReceiveSnapshot, now: u64) {
    let (formatter, rows) =
        DisplayFormatter::rebuild(snapshot, ReceiveMode::Text, TextEncoding::Utf8);
    pane.finish_format(revision, snapshot.generation, rows, formatter, now);
}

fn rebuild(pane: &mut ReceivePane, store: &ReceiveStore, now: u64) {
    let FormatStep::Rebuild { revision, snapshot } = start_format(pane, store, now) else {
        panic!("rows have to be made anew");
    };
    finish_format(pane, revision, &snapshot, now);
}

fn search(pane: &mut ReceivePane, query: &str, now: u64) {
    pane.query = query.to_owned();
    pane.request_search(true, now);
    let SearchStep::Run(job) = pane.maybe_start_search(false, FORMAT, now + 120) else {
        panic!("the search is due");
    };
    let (revision, generation) = job.identity();
    let index = job.run();
    drop(job);
    pane.finish_search(revision, generation, index, now + 120);
}

fn texts(pane: &ReceivePane) -> Vec<String> {
    pane.rows().iter().map(|row| row.text.clone()).collect()
}

fn shown(text: &str) -> (ReceivePane, ReceiveStore) {
    let mut store = ReceiveStore::new(1 << 20);
    store.append(received_at(), text.as_bytes().to_vec());
    let mut pane = ReceivePane::new(NOW);
    rebuild(&mut pane, &store, NOW);
    (pane, store)
}

#[test]
fn display_is_built_then_followed() {
    let (mut pane, mut store) = shown("one\ntwo");
    assert_eq!(texts(&pane), ["one", "two"]);
    assert!(!pane.is_formatting());
    assert!(matches!(
        start_format(&mut pane, &store, NOW + 1),
        FormatStep::Idle
    ));
    store.append(received_at(), b"!\nthree".to_vec());
    assert!(matches!(
        start_format(&mut pane, &store, NOW + 30),
        FormatStep::Wait(50)
    ));
    assert!(matches!(
        start_format(&mut pane, &store, NOW + 80),
        FormatStep::Applied
    ));
    assert_eq!(texts(&pane), ["one", "two!", "three"]);
}

#[test]
fn changed_modes_build_the_display_anew() {
    let (mut pane, store) = shown("one");
    assert!(!pane.needs_store());
    pane.invalidate_format();
    assert!(pane.needs_store());
    let FormatStep::Rebuild { revision, snapshot } = start_format(&mut pane, &store, NOW + 200)
    else {
        panic!("rows have to be made anew");
    };
    assert!(pane.is_formatting());
    assert!(!pane.needs_store());
    pane.invalidate_format();
    finish_format(&mut pane, revision, &snapshot, NOW + 200);
    assert!(!pane.is_formatting());
    rebuild(&mut pane, &store, NOW + 400);
    assert_eq!(texts(&pane), ["one"]);
}

#[test]
fn paused_displays_stay_as_they_are() {
    let (mut pane, mut store) = shown("one");
    pane.toggle_pause();
    assert!(pane.is_paused());
    store.append(received_at(), b"\ntwo".to_vec());
    assert!(matches!(
        start_format(&mut pane, &store, NOW + 500),
        FormatStep::Idle
    ));
    assert_eq!(texts(&pane), ["one"]);
    pane.toggle_pause();
    rebuild(&mut pane, &store, NOW + 1_000);
    assert_eq!(texts(&pane), ["one", "two"]);
    assert_eq!(pane.placeholder(), None);
}

#[test]
fn matches_are_found_selected_and_followed() {
    let (mut pane, mut store) = shown("ab\nx\naba\n");
    search(&mut pane, "a", NOW);
    assert!(pane.search_index_is_current());
    assert_eq!(pane.index().matches.len(), 3);
    assert_eq!(pane.selected_match(), Some(0));
    assert_eq!(pane.search_status().text(), "1/3");
    assert!(matches!(pane.take_scroll(), Some(ScrollTo::Row(0))));
    assert!(pane.take_scroll().is_none());

    pane.navigate_search(true);
    assert_eq!(pane.selected_match(), Some(1));
    assert!(matches!(pane.take_scroll(), Some(ScrollTo::Row(2))));
    pane.navigate_search(false);
    pane.navigate_search(false);
    assert_eq!(pane.selected_match(), Some(2));
    pane.navigate_search(true);
    assert_eq!(pane.selected_match(), Some(0));

    assert!(pane.can_filter());
    assert!(!pane.is_filtering());
    pane.navigate_search(true);
    pane.toggle_filter();
    assert!(pane.is_filter_set());
    assert!(pane.is_filtering());
    assert_eq!(pane.visible_row_count(), 2);
    assert_eq!(pane.visible_row(1), Some(2));
    assert!(matches!(pane.take_scroll(), Some(ScrollTo::Row(1))));

    store.append(received_at(), b"aa\n".to_vec());
    assert!(matches!(
        start_format(&mut pane, &store, NOW + 500),
        FormatStep::Applied
    ));
    assert_eq!(pane.index().matches.len(), 5);
    assert_eq!(pane.search_status().text(), "2/5");
    assert!(pane.can_navigate());
}

#[test]
fn searches_that_are_out_of_date_run_again() {
    let (mut pane, store) = shown("ab\nx\naba\n");
    pane.query = "a".to_owned();
    pane.request_search(true, NOW);
    assert!(pane.is_search_busy());
    assert!(matches!(pane.search_status(), SearchStatus::Busy));
    assert_eq!(pane.search_status().text(), "搜索中…");
    assert!(matches!(
        pane.maybe_start_search(false, FORMAT, NOW + 20),
        SearchStep::Wait(100)
    ));
    let SearchStep::Run(job) = pane.maybe_start_search(false, FORMAT, NOW + 120) else {
        panic!("the search is due");
    };
    let (revision, generation) = job.identity();
    pane.query = "x".to_owned();
    pane.request_search(true, NOW + 130);
    pane.finish_search(revision, generation, job.run(), NOW + 140);
    assert!(pane.is_search_busy());
    let SearchStep::Run(job) = pane.maybe_start_search(false, FORMAT, NOW + 250) else {
        panic!("the search is due");
    };
    let (revision, generation) = job.identity();
    pane.finish_search(revision, generation, job.run(), NOW + 250);
    assert_eq!(pane.search_status().text(), "1/1");
    drop(store);
}

#[test]
fn searches_tell_what_is_wrong() {
    let (mut pane, _store) = shown("ab");
    assert_eq!(pane.search_status().text(), "—");
    pane.query = "(".to_owned();
    pane.regex_mode = true;
    pane.request_search(true, NOW);
    assert_eq!(pane.search_status().text(), "表达式错误");
    assert!(!pane.can_filter());
    assert!(!pane.can_navigate());
    pane.query = "(".to_owned();
    pane.use_matcher(Err("bad".to_owned()), true, NOW);
    assert_eq!(pane.index().error.as_deref(), Some("bad"));
    pane.use_matcher(SearchMatcher::new("b", false, false), true, NOW);
    assert!(pane.is_search_busy());
    pane.query = String::new();
    pane.request_search(true, NOW);
    assert!(!pane.is_search_busy());
    assert!(matches!(pane.search_status(), SearchStatus::Unused));
}

#[test]
fn rows_held_by_a_search_are_not_changed() {
    let (mut pane, mut store) = shown("ab\n");
    pane.query = "a".to_owned();
    pane.request_search(true, NOW);
    let SearchStep::Run(job) = pane.maybe_start_search(false, FORMAT, NOW + 120) else {
        panic!("the search is due");
    };
    let (revision, generation) = job.identity();
    let index = job.run();
    pane.finish_search(revision, generation, index, NOW + 120);
    store.append(received_at(), b"a\n".to_vec());
    assert!(matches!(
        start_format(&mut pane, &store, NOW + 400),
        FormatStep::Applied
    ));
    assert_eq!(texts(&pane), ["ab", "a"]);
    assert_eq!(job.run().matches.len(), 1);
    assert_eq!(pane.index().matches.len(), 2);
}

#[test]
fn cleared_displays_are_empty() {
    let (mut pane, mut store) = shown("ab\n");
    search(&mut pane, "a", NOW);
    store.clear();
    pane.clear_receive(store.generation());
    assert!(pane.rows().is_empty());
    assert!(pane.index().matches.is_empty());
    assert_eq!(pane.selected_match(), None);
    assert_eq!(pane.placeholder(), Some("什么都没有哦 ˘o˘ ᶻᶻᶻ"));
    pane.toggle_pause();
    assert_eq!(pane.placeholder(), Some("显示被暂停啦 >_<"));
}

#[test]
fn filters_without_matches_say_so() {
    let (mut pane, _store) = shown("ab\n");
    search(&mut pane, "z", NOW);
    pane.toggle_filter();
    assert_eq!(pane.visible_row_count(), 0);
    assert_eq!(pane.visible_row(0), None);
    assert_eq!(pane.placeholder(), Some("没有匹配的接收数据"));
    assert_eq!(pane.search_status().text(), "0/0");
    pane.scroll_to_bottom();
    assert!(matches!(pane.take_scroll(), Some(ScrollTo::Bottom)));
}

#[test]
fn terminal_displays_have_a_cursor() {
    let mut store = ReceiveStore::new(1024);
    store.append(received_at(), b"ab\r\ncd\x1b[D".to_vec());
    let mut pane = ReceivePane::new(NOW);
    let FormatStep::Rebuild { revision, snapshot } = pane.maybe_start_format(
        &store,
        ReceiveMode::Terminal,
        TextEncoding::Utf8,
        false,
        FORMAT,
        NOW,
    ) else {
        panic!("rows have to be made anew");
    };
    let (formatter, rows) =
        DisplayFormatter::rebuild(&snapshot, ReceiveMode::Terminal, TextEncoding::Utf8);
    pane.finish_format(revision, snapshot.generation, rows, formatter, NOW);
    assert_eq!(pane.terminal_cursor(ReceiveMode::Terminal), Some((1, 1)));
    assert_eq!(pane.terminal_cursor(ReceiveMode::Text), None);
}

fn found(start: usize, end: usize) -> SearchMatch {
    SearchMatch {
        row_index: 0,
        byte_range: start..end,
    }
}

fn part(start: usize, end: usize, kind: SegmentKind) -> RowSegment {
    RowSegment { start, end, kind }
}

#[test]
fn receive_row_layout_combines_rule_and_search_highlights() {
    assert_eq!(
        row_segments("ERROR ready", 0, &[found(0, 5)], Some(0)),
        [
            part(0, 5, SegmentKind::SelectedMatch),
            part(5, 11, SegmentKind::Plain)
        ]
    );
}

#[test]
fn rows_are_cut_at_their_matches() {
    assert_eq!(
        row_segments("", 0, &[], None),
        [part(0, 0, SegmentKind::Plain)]
    );
    assert_eq!(
        row_segments("中a中", 7, &[found(3, 4), found(4, 7)], Some(8)),
        [
            part(0, 3, SegmentKind::Plain),
            part(3, 4, SegmentKind::Match),
            part(4, 7, SegmentKind::SelectedMatch)
        ]
    );
    assert_eq!(
        row_segments("中a", 0, &[found(1, 4), found(0, 3), found(2, 3), found(3, 9)], None),
        [
            part(0, 3, SegmentKind::Match),
            part(3, 4, SegmentKind::Plain)
        ]
    );
}

#[test]
fn rebuilt_rows_do_not_hasten_a_search() {
    let (mut pane, store) = shown("one\ntwo");
    pane.query = "t".to_owned();
    pane.request_search(true, NOW + 1_000);
    pane.invalidate_format();
    rebuild(&mut pane, &store, NOW + 1_010);
    assert!(matches!(
        pane.maybe_start_search(false, FORMAT, NOW + 1_020),
        SearchStep::Wait(100)
    ));
    assert!(matches!(
        pane.maybe_start_search(false, FORMAT, NOW + 1_120),
        SearchStep::Run(_)
    ));
}

#[test]
fn the_display_cuts_its_rows() {
    let (mut pane, _store) = shown("one two\nthree\ntwo");
    search(&mut pane, "two", NOW + 1_000);
    let part = |start: usize, end: usize, kind: SegmentKind| RowSegment { start, end, kind };
    assert_eq!(
        pane.row_parts(0, "one two"),
        [
            part(0, 4, SegmentKind::Plain),
            part(4, 7, SegmentKind::SelectedMatch)
        ]
    );
    assert_eq!(pane.row_parts(1, "three"), [part(0, 5, SegmentKind::Plain)]);
    assert_eq!(pane.row_parts(2, "two"), [part(0, 3, SegmentKind::Match)]);
    pane.query = "other".to_owned();
    pane.request_search(true, NOW + 2_000);
    assert_eq!(pane.row_parts(2, "two"), [part(0, 3, SegmentKind::Plain)]);
}
