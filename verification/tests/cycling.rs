use sticky_notes::cycling::{next_window_label, prev_window_label};

fn labels(names: &[&str]) -> Vec<String> {
    names.iter().map(|s| s.to_string()).collect()
}

#[test]
fn next_skips_the_main_window() {
    let ls = labels(&["main", "new_sticky_window_1", "new_sticky_window_2"]);
    let next = next_window_label(&ls, &"new_sticky_window_1".to_string());
    assert_eq!(next, Some("new_sticky_window_2".to_string()));
    // cycling from the last window wraps around, past the main window
    let wrapped = next_window_label(&ls, &"new_sticky_window_2".to_string());
    assert_eq!(wrapped, Some("new_sticky_window_1".to_string()));
}

#[test]
fn prev_skips_the_main_window() {
    let ls = labels(&["main", "new_sticky_window_1", "new_sticky_window_2"]);
    let prev = prev_window_label(&ls, &"new_sticky_window_2".to_string());
    assert_eq!(prev, Some("new_sticky_window_1".to_string()));
    // cycling back from the first window wraps to the last
    let wrapped = prev_window_label(&ls, &"new_sticky_window_1".to_string());
    assert_eq!(wrapped, Some("new_sticky_window_2".to_string()));
}

#[test]
fn single_note_window_cycles_to_itself() {
    let ls = labels(&["main", "new_sticky_window_1"]);
    let focused = "new_sticky_window_1".to_string();
    assert_eq!(next_window_label(&ls, &focused), Some(focused.clone()));
    assert_eq!(prev_window_label(&ls, &focused), Some(focused.clone()));
}

#[test]
fn unknown_focused_window_yields_nothing() {
    let ls = labels(&["main", "new_sticky_window_1"]);
    assert_eq!(next_window_label(&ls, &"new_sticky_window_9".to_string()), None);
    assert_eq!(prev_window_label(&ls, &"new_sticky_window_9".to_string()), None);
}

#[test]
fn only_main_window_yields_nothing() {
    let ls = labels(&["main"]);
    assert_eq!(next_window_label(&ls, &"main".to_string()), None);
    assert_eq!(prev_window_label(&ls, &"main".to_string()), None);
}
