use hyprhist::event_history::{EventHistory, EventStatus, HistorySize};

fn new_history(size: usize) -> EventHistory<i32> {
    EventHistory::new(HistorySize::try_from(size).expect("size must be non-zero"))
}

fn manual_history(events: Vec<EventStatus<i32>>, cursor: usize) -> EventHistory<i32> {
    let max_size = HistorySize::try_from(events.len().max(1)).expect("size must be non-zero");
    EventHistory::from_entries(max_size, events, cursor).expect("cursor must lie within the entries")
}

#[test]
fn adds_under_max_size() {
    let mut history = new_history(3);
    history.add(1);
    history.add(2);

    assert_eq!(history.len(), 2);
    assert_eq!(history.cursor(), 1);
    assert!(matches!(history.entry(0), Some(EventStatus::Active(1))));
    assert!(matches!(history.entry(1), Some(EventStatus::Active(2))));
}

#[test]
fn adds_beyond_max_size_evict_oldest() {
    let mut history = new_history(3);
    history.add(1);
    history.add(2);
    history.add(3);

    history.add(4);

    assert_eq!(history.len(), 3);
    assert!(matches!(history.entry(0), Some(EventStatus::Active(2))));
    assert!(matches!(history.entry(1), Some(EventStatus::Active(3))));
    assert!(matches!(history.entry(2), Some(EventStatus::Active(4))));
    assert_eq!(history.cursor(), 2);
}

#[test]
fn append_at_head_moves_cursor_to_new_event() {
    let mut history = new_history(4);
    history.add(1);
    history.add(2);
    assert_eq!(history.cursor(), 1);

    let added = history.add(3);

    assert!(matches!(added, Some(&3)));
    assert_eq!(history.cursor(), 2);
    assert!(matches!(history.entry(2), Some(EventStatus::Active(3))));
}

#[test]
fn detached_cursor_truncates_and_appends() {
    let mut history = new_history(5);
    history.add(1);
    history.add(2);
    history.add(3);
    history.add(4);

    assert!(history.set_cursor(2));
    let added = history.add(6);

    assert!(matches!(added, Some(&6)));
    assert_eq!(history.len(), 4);
    assert!(matches!(history.entry(0), Some(EventStatus::Active(1))));
    assert!(matches!(history.entry(1), Some(EventStatus::Active(2))));
    assert!(matches!(history.entry(2), Some(EventStatus::Active(3))));
    assert!(matches!(history.entry(3), Some(EventStatus::Active(6))));
    assert_eq!(history.cursor(), 3);
}

#[test]
fn contiguous_duplicates_are_ignored() {
    let mut history = new_history(3);
    assert!(history.add(1).is_some());
    assert!(history.add(1).is_none());

    assert_eq!(history.len(), 1);
    assert!(matches!(history.entry(0), Some(EventStatus::Active(1))));
}

#[test]
fn ignored_events_are_skipped_and_removed_from_set() {
    let mut history = new_history(3);
    history.ignore(5);

    assert!(history.add(5).is_none());
    assert!(!history.is_ignored(&5));
    assert!(history.is_empty());
}

#[test]
fn forward_moves_cursor_when_not_at_head() {
    let mut history = new_history(4);
    history.add(1);
    history.add(2);
    history.add(3);
    assert!(history.set_cursor(1));

    let result = history.forward();

    assert!(matches!(result, Some(&3)));
    assert_eq!(history.cursor(), 2);
}

#[test]
fn forward_does_not_move_at_head() {
    let mut history = new_history(3);
    history.add(1);
    history.add(2);
    history.add(3);
    assert!(history.set_cursor(history.len() - 1));

    let result = history.forward();

    assert!(result.is_none());
    assert_eq!(history.cursor(), history.len() - 1);
}

#[test]
fn forward_skips_inactive_and_deleted_events() {
    let mut history = manual_history(
        vec![
            EventStatus::Active(1),
            EventStatus::Inactive(2),
            EventStatus::Active(3),
        ],
        0,
    );

    let result = history.forward();

    assert!(matches!(result, Some(&3)));
    assert_eq!(history.cursor(), 2);

    let mut history_deleted = manual_history(
        vec![
            EventStatus::Active(1),
            EventStatus::Deleted,
            EventStatus::Active(3),
        ],
        0,
    );
    let result_deleted = history_deleted.forward();

    assert!(matches!(result_deleted, Some(&3)));
    assert_eq!(history_deleted.cursor(), 2);
}

#[test]
fn forward_stops_when_only_inactive_ahead() {
    let mut history = manual_history(vec![EventStatus::Active(1), EventStatus::Inactive(2)], 0);

    let result = history.forward();

    assert!(result.is_none());
    assert_eq!(history.cursor(), 0);
}

#[test]
fn forward_stops_when_only_deleted_ahead() {
    let mut history = manual_history(vec![EventStatus::Active(1), EventStatus::Deleted], 0);

    let result = history.forward();

    assert!(result.is_none());
    assert_eq!(history.cursor(), 0);
}

#[test]
fn forward_adds_new_cursor_item_to_ignore_set() {
    let mut history = new_history(3);
    history.add(1);
    history.add(2);
    history.add(3);
    assert!(history.set_cursor(1));
    history.clear_ignored();

    let result = history.forward();

    assert!(matches!(result, Some(&3)));
    assert!(history.is_ignored(&3));
}

#[test]
fn forward_skips_duplicate_active_entries() {
    let mut history = manual_history(
        vec![
            EventStatus::Active(1),
            EventStatus::Active(2),
            EventStatus::Active(2),
            EventStatus::Active(3),
        ],
        1,
    );

    let result = history.forward();

    assert!(matches!(result, Some(&3)));
    assert_eq!(history.cursor(), 3);
}

#[test]
fn backward_moves_cursor_when_not_at_start() {
    let mut history = new_history(4);
    history.add(1);
    history.add(2);
    history.add(3);
    assert!(history.set_cursor(2));

    let result = history.backward();

    assert!(matches!(result, Some(&2)));
    assert_eq!(history.cursor(), 1);
}

#[test]
fn backward_does_not_move_at_start() {
    let mut history = new_history(2);
    history.add(1);
    assert!(history.set_cursor(0));

    let result = history.backward();

    assert!(result.is_none());
    assert_eq!(history.cursor(), 0);
}

#[test]
fn backward_skips_inactive_and_deleted_events() {
    let mut history = manual_history(
        vec![
            EventStatus::Active(1),
            EventStatus::Inactive(2),
            EventStatus::Active(3),
        ],
        2,
    );

    let result = history.backward();

    assert!(matches!(result, Some(&1)));
    assert_eq!(history.cursor(), 0);

    let mut history_deleted = manual_history(
        vec![
            EventStatus::Active(1),
            EventStatus::Deleted,
            EventStatus::Active(3),
        ],
        2,
    );
    let result_deleted = history_deleted.backward();

    assert!(matches!(result_deleted, Some(&1)));
    assert_eq!(history_deleted.cursor(), 0);
}

#[test]
fn backward_stops_when_only_inactive_behind() {
    let mut history = manual_history(
        vec![
            EventStatus::Inactive(1),
            EventStatus::Inactive(2),
            EventStatus::Active(3),
        ],
        2,
    );

    let result = history.backward();

    assert!(result.is_none());
    assert_eq!(history.cursor(), 2);
}

#[test]
fn backward_stops_when_only_deleted_behind() {
    let mut history = manual_history(
        vec![
            EventStatus::Deleted,
            EventStatus::Deleted,
            EventStatus::Active(3),
        ],
        2,
    );

    let result = history.backward();

    assert!(result.is_none());
    assert_eq!(history.cursor(), 2);
}

#[test]
fn backward_adds_new_cursor_item_to_ignore_set() {
    let mut history = new_history(3);
    history.add(1);
    history.add(2);
    history.add(3);
    assert!(history.set_cursor(2));
    history.clear_ignored();

    let result = history.backward();

    assert!(matches!(result, Some(&2)));
    assert!(history.is_ignored(&2));
}

#[test]
fn backward_skips_duplicate_active_entries() {
    let mut history = manual_history(
        vec![
            EventStatus::Active(1),
            EventStatus::Active(2),
            EventStatus::Active(2),
            EventStatus::Active(3),
        ],
        2,
    );

    let result = history.backward();

    assert!(matches!(result, Some(&1)));
    assert_eq!(history.cursor(), 0);
}

#[test]
fn remove_deletes_single_event() {
    let mut history = manual_history(
        vec![
            EventStatus::Active(1),
            EventStatus::Active(2),
            EventStatus::Active(3),
        ],
        0,
    );

    history.remove(&2);

    assert!(matches!(history.entry(0), Some(EventStatus::Active(1))));
    assert!(matches!(history.entry(1), Some(EventStatus::Deleted)));
    assert!(matches!(history.entry(2), Some(EventStatus::Active(3))));
}

#[test]
fn remove_deletes_multiple_events() {
    let mut history = manual_history(
        vec![
            EventStatus::Active(1),
            EventStatus::Active(2),
            EventStatus::Active(3),
            EventStatus::Active(2),
        ],
        0,
    );

    history.remove(&2);

    assert!(matches!(history.entry(0), Some(EventStatus::Active(1))));
    assert!(matches!(history.entry(1), Some(EventStatus::Deleted)));
    assert!(matches!(history.entry(2), Some(EventStatus::Active(3))));
    assert!(matches!(history.entry(3), Some(EventStatus::Deleted)));
}

#[test]
fn remove_does_not_move_cursor_when_not_on_removed_idx() {
    let mut history = manual_history(
        vec![
            EventStatus::Active(1),
            EventStatus::Active(2),
            EventStatus::Active(3),
        ],
        0,
    );

    history.remove(&2);

    assert_eq!(history.cursor(), 0);
}

#[test]
fn remove_moves_cursor_to_previous_active_when_on_removed_idx() {
    let mut history = manual_history(
        vec![
            EventStatus::Active(1),
            EventStatus::Active(2),
            EventStatus::Active(3),
        ],
        1,
    );

    history.remove(&2);

    assert_eq!(history.cursor(), 0);
}

#[test]
fn remove_moves_cursor_to_next_active_when_no_previous_active() {
    let mut history = manual_history(vec![EventStatus::Active(1), EventStatus::Active(2)], 0);

    history.remove(&1);

    assert_eq!(history.cursor(), 1);
}

#[test]
fn remove_moves_cursor_to_last_inactive_when_no_active_exists() {
    let mut history = manual_history(
        vec![
            EventStatus::Active(1),
            EventStatus::Inactive(2),
            EventStatus::Inactive(3),
        ],
        0,
    );

    history.remove(&1);

    assert_eq!(history.cursor(), 2);
}

#[test]
fn remove_moves_cursor_to_zero_when_no_active_or_inactive_remain() {
    let mut history = manual_history(
        vec![
            EventStatus::Active(1),
            EventStatus::Deleted,
            EventStatus::Deleted,
        ],
        0,
    );

    history.remove(&1);

    assert_eq!(history.cursor(), 0);
}

#[test]
fn deactivate_deactivates_single_event() {
    let mut history = manual_history(
        vec![
            EventStatus::Active(1),
            EventStatus::Active(2),
            EventStatus::Active(3),
        ],
        0,
    );

    history.deactivate(&2);

    assert!(matches!(history.entry(0), Some(EventStatus::Active(1))));
    assert!(matches!(history.entry(1), Some(EventStatus::Inactive(2))));
    assert!(matches!(history.entry(2), Some(EventStatus::Active(3))));
}

#[test]
fn deactivate_deactivates_multiple_events() {
    let mut history = manual_history(
        vec![
            EventStatus::Active(1),
            EventStatus::Active(2),
            EventStatus::Active(3),
            EventStatus::Active(2),
        ],
        0,
    );

    history.deactivate(&2);

    assert!(matches!(history.entry(0), Some(EventStatus::Active(1))));
    assert!(matches!(history.entry(1), Some(EventStatus::Inactive(2))));
    assert!(matches!(history.entry(2), Some(EventStatus::Active(3))));
    assert!(matches!(history.entry(3), Some(EventStatus::Inactive(2))));
}

#[test]
fn deactivate_does_not_move_cursor_when_not_on_deactivated_idx() {
    let mut history = manual_history(
        vec![
            EventStatus::Active(1),
            EventStatus::Active(2),
            EventStatus::Active(3),
        ],
        0,
    );

    history.deactivate(&2);

    assert_eq!(history.cursor(), 0);
}

#[test]
fn deactivate_moves_cursor_to_previous_active_when_on_deactivated_idx() {
    let mut history = manual_history(
        vec![
            EventStatus::Active(1),
            EventStatus::Active(2),
            EventStatus::Active(3),
        ],
        1,
    );

    history.deactivate(&2);

    assert_eq!(history.cursor(), 0);
}

#[test]
fn deactivate_moves_cursor_to_next_active_when_no_previous_active() {
    let mut history = manual_history(vec![EventStatus::Active(1), EventStatus::Active(2)], 0);

    history.deactivate(&1);

    assert_eq!(history.cursor(), 1);
}

#[test]
fn deactivate_moves_cursor_to_last_inactive_when_no_active_exists() {
    let mut history = manual_history(
        vec![
            EventStatus::Active(1),
            EventStatus::Inactive(2),
            EventStatus::Deleted,
        ],
        0,
    );

    history.deactivate(&1);

    assert_eq!(history.cursor(), 1);
}

#[test]
fn deactivate_moves_cursor_to_zero_when_no_active_or_inactive_remain() {
    let mut history = manual_history(vec![EventStatus::Active(1)], 0);

    history.deactivate(&1);

    assert_eq!(history.cursor(), 0);
}

#[test]
fn activate_activates_single_event() {
    let mut history = manual_history(
        vec![
            EventStatus::Inactive(1),
            EventStatus::Active(2),
            EventStatus::Active(3),
        ],
        1,
    );

    let _ = history.activate(&1);

    assert!(matches!(history.entry(0), Some(EventStatus::Active(1))));
    assert!(matches!(history.entry(1), Some(EventStatus::Active(2))));
    assert!(matches!(history.entry(2), Some(EventStatus::Active(3))));
}

#[test]
fn activate_activates_multiple_events() {
    let mut history = manual_history(
        vec![
            EventStatus::Inactive(1),
            EventStatus::Active(2),
            EventStatus::Inactive(1),
            EventStatus::Deleted,
            EventStatus::Inactive(3),
        ],
        1,
    );

    let _ = history.activate(&1);
    let _ = history.activate(&3);

    assert!(matches!(history.entry(0), Some(EventStatus::Active(1))));
    assert!(matches!(history.entry(1), Some(EventStatus::Active(2))));
    assert!(matches!(history.entry(2), Some(EventStatus::Active(1))));
    assert!(matches!(history.entry(3), Some(EventStatus::Deleted)));
    assert!(matches!(history.entry(4), Some(EventStatus::Active(3))));
}
