use escom::task_state::{DisplayTaskState, SearchTaskState};

const NOW: u64 = 50_000;

#[test]
fn display_invalidation_during_run_rejects_the_old_result() {
    let mut state = DisplayTaskState::new(0, NOW);
    let revision = state.start(NOW);
    state.invalidate();

    assert!(!state.finish(revision, true));
    assert!(state.needs_full_rebuild());
    assert!(!state.is_running());
}

#[test]
fn search_request_during_run_is_debounced_then_rerun() {
    let mut state = SearchTaskState::new();
    state.request_now(NOW);
    let (revision, generation) = state.start(4, NOW).unwrap();
    state.request_debounced(1_000, true, NOW);

    assert!(state.is_running());
    assert!(state.is_pending());
    assert!(!state.finish(revision, generation, generation, true, NOW));
    assert!(!state.is_running());
    assert!(state.is_pending());
    assert!(state.debounce_remaining(NOW).is_some());
}

#[test]
fn cancelling_while_running_discards_the_result_without_a_rerun() {
    let mut state = SearchTaskState::new();
    state.request_now(NOW);
    let (revision, generation) = state.start(8, NOW).unwrap();
    state.cancel();

    assert!(!state.finish(revision, generation, generation, false, NOW));
    assert!(!state.is_busy());
    assert!(!state.take_reset_selection());
}

#[test]
fn generation_change_requeues_the_current_search_immediately() {
    let mut state = SearchTaskState::new();
    state.request_now(NOW);
    let (revision, generation) = state.start(3, NOW).unwrap();

    assert!(!state.finish(revision, generation, 4, true, NOW));
    assert!(state.is_pending());
    assert!(state.debounce_remaining(NOW).is_none());
    assert_eq!(state.start(4, NOW), Some((revision, 4)));
}

#[test]
fn abort_returns_the_search_state_to_idle() {
    let mut state = SearchTaskState::new();
    state.request_now(NOW);
    let (revision, generation) = state.start(5, NOW).unwrap();

    state.abort(revision, generation);

    assert!(!state.is_busy());
}
