use escom::formatting::{FormattedRow, DEFAULT_TIMESTAMP_FORMAT};
use escom::search::{
    search_rows, search_rows_with_matcher, SearchDisplayOptions, SearchMatcher,
};
use escom::timestamp::Timestamp;

fn display_options() -> SearchDisplayOptions<'static> {
    SearchDisplayOptions::new(false, DEFAULT_TIMESTAMP_FORMAT)
}

fn row(text: &str) -> FormattedRow {
    FormattedRow {
        received_at: Timestamp::new(1_785_499_200, 0, 0).unwrap(),
        text: text.to_owned(),
    }
}

#[test]
fn literal_search_is_case_insensitive_by_default() {
    let rows = vec![row("Ready READY"), row("idle"), row("ready")];
    let index = search_rows(&rows, "ready", false, false, display_options());

    assert_eq!(index.matches.len(), 3);
    assert_eq!(index.matched_rows, [0, 2]);
    let (offset, matches) = index.matches_for_row(0);
    assert_eq!(offset, 0);
    assert_eq!(matches.len(), 2);
    assert_eq!(matches[0].byte_range, 0..5);
}

#[test]
fn regex_search_and_errors_are_reported() {
    let rows = vec![row("value=12"), row("value=x")];
    let index = search_rows(&rows, r"value=\d+", true, true, display_options());
    assert_eq!(index.matched_rows, [0]);

    let invalid = search_rows(&rows, "(", true, true, display_options());
    assert!(invalid.error.is_some());
    assert!(invalid.matches.is_empty());
}

#[test]
fn incremental_update_shifts_rows_and_indexes_appended_matches() {
    let matcher = SearchMatcher::new("ready", false, false).unwrap().unwrap();
    let initial = vec![row("ready 0"), row("idle"), row("ready 2")];
    let mut index = search_rows_with_matcher(&initial, &matcher, display_options());

    index.apply_display_update(3, 1, 0, &[row("ready 3")], &matcher, display_options());
    assert_eq!(index.matched_rows, [1, 2]);
    assert_eq!(
        index
            .matches
            .iter()
            .map(|item| item.row_index)
            .collect::<Vec<_>>(),
        [1, 2]
    );
}

#[test]
fn incremental_update_replaces_tail_matches() {
    let matcher = SearchMatcher::new("ok", false, false).unwrap().unwrap();
    let initial = vec![row("first"), row("not yet")];
    let mut index = search_rows_with_matcher(&initial, &matcher, display_options());

    index.apply_display_update(2, 0, 1, &[row("now ok")], &matcher, display_options());
    assert_eq!(index.matched_rows, [1]);
    assert_eq!(index.matches[0].byte_range, 4..6);
}

#[test]
fn words_are_found_where_they_stand() {
    let rows = vec![row("a.a.a b"), row("axa"), row("A.A")];
    let index = search_rows(&rows, "a.a", true, false, display_options());
    assert_eq!(index.matched_rows, [0]);
    assert_eq!(index.matches.len(), 1);
    assert_eq!(index.matches[0].byte_range, 0..3);
    let letters = search_rows(&rows, "a", true, false, display_options());
    assert_eq!(
        letters
            .matches
            .iter()
            .map(|found| (found.row_index, found.byte_range.start))
            .collect::<Vec<_>>(),
        [(0, 0), (0, 2), (0, 4), (1, 0), (1, 2)]
    );
    let odd = vec![row(r"1+1=2 (sure) [x] {y} ^$ #&-~ \ | ?*")];
    for word in [
        "1+1", "(sure)", "[x]", "{y}", "^$", "#&-~", r"\", "|", "?*",
    ] {
        let index = search_rows(&odd, word, true, false, display_options());
        assert_eq!(index.matches.len(), 1, "{word}");
    }
}

#[test]
fn rows_without_matches_have_matches_before_them() {
    let rows = vec![row("x x"), row("-"), row("x"), row("-")];
    let index = search_rows(&rows, "x", true, false, display_options());
    assert_eq!(index.matches_for_row(1).0, 2);
    assert!(index.matches_for_row(1).1.is_empty());
    assert_eq!(index.matches_for_row(3).0, 3);
    assert_eq!(index.matches_for_row(2).1.len(), 1);
}

#[test]
fn refused_expressions_say_why() {
    let Err(message) = SearchMatcher::new("(", true, true) else {
        panic!("the expression is incomplete");
    };
    assert!(message.starts_with("正则表达式无效："));
    assert!(message.len() > "正则表达式无效：".len());
    assert!(SearchMatcher::new("(", true, false).is_ok());
}
