use sticky_notes::coordinator::{SaveCycle, Supervisor, FAILURE_THRESHOLD};
use sticky_notes::notes::{notes_for_save, Note};
use sticky_notes::registry::WindowRegistry;

fn note(label: &str, contents: &str) -> Note {
    Note {
        color: "#fff9b1".to_string(),
        contents: contents.to_string(),
        x: 0,
        y: 0,
        height: 250,
        width: 300,
        label: label.to_string(),
    }
}

#[test]
fn complete_cycle_collects_one_note_per_snapshotted_window() {
    let mut reg = WindowRegistry::new();
    let l1 = reg.register_pending();
    let l2 = reg.register_pending();
    reg.mark_ready(l1.clone());
    reg.mark_ready(l2.clone());
    let mut cycle = SaveCycle::begin(&reg);
    assert_eq!(cycle.expected_count(), 2);
    assert!(!cycle.is_complete());
    assert!(cycle.accept_response(&l2, note(&l2, "b")));
    assert!(cycle.accept_response(&l1, note(&l1, "a")));
    assert!(cycle.is_complete());
    let collected = cycle.finish();
    assert_eq!(collected.len(), 2);
}

#[test]
fn window_ready_after_snapshot_is_excluded() {
    let mut reg = WindowRegistry::new();
    let l1 = reg.register_pending();
    let l2 = reg.register_pending();
    reg.mark_ready(l1.clone());
    let mut cycle = SaveCycle::begin(&reg);
    // this window signals readiness only after the snapshot was taken
    reg.mark_ready(l2.clone());
    assert!(!cycle.accept_response(&l2, note(&l2, "late")));
    assert_eq!(cycle.expected_count(), 1);
    assert!(cycle.accept_response(&l1, note(&l1, "a")));
    assert!(cycle.is_complete());
    assert_eq!(cycle.finish().len(), 1);
}

#[test]
fn duplicate_response_is_discarded() {
    let mut reg = WindowRegistry::new();
    let l1 = reg.register_pending();
    let l2 = reg.register_pending();
    reg.mark_ready(l1.clone());
    reg.mark_ready(l2.clone());
    let mut cycle = SaveCycle::begin(&reg);
    assert!(cycle.accept_response(&l1, note(&l1, "a")));
    assert!(!cycle.accept_response(&l1, note(&l1, "a again")));
    assert_eq!(cycle.responded_count(), 1);
    assert!(!cycle.is_complete());
}

#[test]
fn response_after_timeout_is_not_persisted_and_next_cycle_is_clean() {
    let mut reg = WindowRegistry::new();
    let l1 = reg.register_pending();
    reg.mark_ready(l1.clone());
    let mut cycle = SaveCycle::begin(&reg);
    cycle.mark_timed_out();
    // the stale response is rejected and nothing of it is kept
    assert!(!cycle.accept_response(&l1, note(&l1, "stale")));
    assert_eq!(cycle.responded_count(), 0);
    // the next cycle starts from the registry alone and is unaffected
    let mut next = SaveCycle::begin(&reg);
    assert_eq!(next.responded_count(), 0);
    assert!(next.accept_response(&l1, note(&l1, "fresh")));
    let collected = next.finish();
    assert_eq!(collected.len(), 1);
    assert_eq!(collected[0].contents, "fresh");
}

#[test]
fn saved_notes_exclude_the_main_window() {
    let notes = vec![
        note("new_sticky_window_1", "a"),
        note("main", "control window"),
        note("new_sticky_window_2", "b"),
    ];
    let saved = notes_for_save(notes);
    assert_eq!(saved.len(), 2);
    assert_eq!(saved[0].label, "new_sticky_window_1");
    assert_eq!(saved[0].contents, "a");
    assert_eq!(saved[1].label, "new_sticky_window_2");
    assert_eq!(saved[1].contents, "b");
}

#[test]
fn saved_notes_with_only_main_are_empty() {
    let notes = vec![note("main", "control window")];
    assert_eq!(notes_for_save(notes).len(), 0);
}

#[test]
fn supervisor_restarts_after_three_consecutive_failures() {
    let mut sup = Supervisor::new(FAILURE_THRESHOLD);
    assert!(!sup.record_cycle(false));
    assert!(!sup.record_cycle(false));
    assert!(sup.record_cycle(false));
}

#[test]
fn supervisor_resets_on_success() {
    let mut sup = Supervisor::new(FAILURE_THRESHOLD);
    assert!(!sup.record_cycle(false));
    assert!(!sup.record_cycle(false));
    assert!(!sup.record_cycle(true));
    assert!(!sup.record_cycle(false));
    assert!(!sup.record_cycle(false));
    assert!(sup.record_cycle(false));
}

#[test]
fn empty_snapshot_completes_immediately() {
    let reg = WindowRegistry::new();
    let cycle = SaveCycle::begin(&reg);
    assert_eq!(cycle.expected_count(), 0);
    assert!(cycle.is_complete());
    assert_eq!(cycle.finish().len(), 0);
}

#[test]
fn supervisor_with_zero_threshold_restarts_on_first_failure() {
    let mut sup = Supervisor::new(0);
    assert!(sup.record_cycle(false));
}
