use sticky_notes::registry::{make_label, str_lt, WindowRegistry};

#[test]
fn labels_follow_the_counter() {
    assert_eq!(make_label(1), "new_sticky_window_1");
    assert_eq!(make_label(10), "new_sticky_window_10");
    assert_eq!(make_label(907), "new_sticky_window_907");
    assert_eq!(make_label(0), "new_sticky_window_0");
}

#[test]
fn allocations_are_distinct() {
    let mut reg = WindowRegistry::new();
    let mut seen: Vec<String> = Vec::new();
    for _ in 0..50 {
        let label = reg.register_pending();
        assert!(!seen.contains(&label));
        seen.push(label);
    }
}

#[test]
fn ready_labels_are_sorted_and_deduplicated() {
    let mut reg = WindowRegistry::new();
    let l1 = reg.register_pending();
    let l2 = reg.register_pending();
    let l3 = reg.register_pending();
    reg.mark_ready(l3.clone());
    reg.mark_ready(l1.clone());
    reg.mark_ready(l2.clone());
    // a duplicate readiness signal is a no-op
    reg.mark_ready(l1.clone());
    assert_eq!(reg.ready_labels(), vec![l1, l2, l3]);
}

#[test]
fn unregister_removes_only_the_given_label() {
    let mut reg = WindowRegistry::new();
    let l1 = reg.register_pending();
    let l2 = reg.register_pending();
    reg.mark_ready(l1.clone());
    reg.mark_ready(l2.clone());
    reg.unregister(&l1);
    assert!(!reg.is_ready(&l1));
    assert!(reg.is_ready(&l2));
    assert_eq!(reg.ready_count(), 1);
    // removing an absent label changes nothing
    reg.unregister(&"new_sticky_window_9".to_string());
    assert_eq!(reg.ready_count(), 1);
}

#[test]
fn registration_does_not_mark_ready() {
    let mut reg = WindowRegistry::new();
    let label = reg.register_pending();
    assert!(!reg.is_ready(&label));
    assert_eq!(reg.ready_count(), 0);
    reg.mark_ready(label.clone());
    assert!(reg.is_ready(&label));
    // a later allocation is never a label that is already ready
    let fresh = reg.register_pending();
    assert!(!reg.is_ready(&fresh));
}

#[test]
fn string_order_is_lexicographic() {
    assert!(str_lt("a", "b"));
    assert!(str_lt("a", "ab"));
    assert!(!str_lt("ab", "a"));
    assert!(!str_lt("a", "a"));
    assert!(str_lt("new_sticky_window_10", "new_sticky_window_2"));
}

#[test]
fn empty_registry_has_no_ready_labels() {
    let reg = WindowRegistry::new();
    assert_eq!(reg.ready_labels().len(), 0);
    assert_eq!(reg.allocation_count(), 0);
}
