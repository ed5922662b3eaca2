use sticky_notes::geometry::{snap_position, window_overlap, Position, SnapDirection, WindowRect};

fn rect(x: i32, y: i32, width: u32, height: u32) -> WindowRect {
    WindowRect { x, y, width, height }
}

#[test]
fn overlap_half_ranges() {
    // ranges [0,100) and [50,150): overlap 50 > 20
    assert!(window_overlap(0, 100, 50, 100));
}

#[test]
fn overlap_small_is_rejected() {
    // ranges [0,100) and [90,190): overlap 10 <= 20
    assert!(!window_overlap(0, 100, 90, 100));
}

#[test]
fn overlap_at_gap_boundary() {
    // exactly 20 pixels shared: not enough
    assert!(!window_overlap(0, 100, 80, 100));
    // 21 pixels shared: enough
    assert!(window_overlap(0, 100, 79, 100));
}

#[test]
fn overlap_touching_windows() {
    // merely touching ranges share nothing
    assert!(!window_overlap(0, 100, 100, 100));
}

#[test]
fn snap_left_against_touching_neighbor() {
    // one neighbor to the left whose right edge is 25 px away from the
    // focused window's left edge; snapping left closes that to the 20 px gap
    let focused = rect(125, 50, 200, 100);
    let others = vec![
        ("new_sticky_window_1".to_string(), rect(0, 0, 100, 200)),
        ("main".to_string(), rect(0, 0, 5000, 5000)),
    ];
    let p: Position = snap_position(focused, &"new_sticky_window_2".to_string(), &others, 1920, 1080, SnapDirection::Left);
    assert_eq!(p.x, 100 + 20);
    assert_eq!(p.y, 50);
}

#[test]
fn snap_left_without_neighbor_goes_to_monitor_edge() {
    let focused = rect(500, 50, 200, 100);
    let others: Vec<(String, WindowRect)> = Vec::new();
    let p = snap_position(focused, &"new_sticky_window_1".to_string(), &others, 1920, 1080, SnapDirection::Left);
    assert_eq!(p.x, 20);
    assert_eq!(p.y, 50);
}

#[test]
fn snap_right_without_neighbor_goes_to_monitor_edge() {
    let focused = rect(100, 50, 200, 100);
    let others: Vec<(String, WindowRect)> = Vec::new();
    let p = snap_position(focused, &"new_sticky_window_1".to_string(), &others, 1920, 1080, SnapDirection::Right);
    assert_eq!(p.x, 1920 - 200 - 20);
    assert_eq!(p.y, 50);
}

#[test]
fn snap_right_picks_nearest_neighbor() {
    let focused = rect(100, 0, 200, 100);
    let others = vec![
        ("new_sticky_window_1".to_string(), rect(600, 0, 100, 100)),
        ("new_sticky_window_2".to_string(), rect(400, 0, 100, 100)),
    ];
    let p = snap_position(focused, &"new_sticky_window_3".to_string(), &others, 1920, 1080, SnapDirection::Right);
    // nearest left edge on the right side is 400; gap subtracted
    assert_eq!(p.x, 400 - 20);
    assert_eq!(p.y, 0);
}

#[test]
fn snap_left_picks_nearest_neighbor() {
    let focused = rect(900, 0, 200, 100);
    let others = vec![
        ("new_sticky_window_1".to_string(), rect(0, 0, 100, 100)),
        ("new_sticky_window_2".to_string(), rect(300, 0, 100, 100)),
    ];
    let p = snap_position(focused, &"new_sticky_window_3".to_string(), &others, 1920, 1080, SnapDirection::Left);
    // nearest right edge on the left side is 400; gap added
    assert_eq!(p.x, 400 + 20);
}

#[test]
fn snap_up_and_down() {
    let focused = rect(50, 500, 100, 100);
    let others = vec![("new_sticky_window_1".to_string(), rect(50, 100, 100, 100))];
    let up = snap_position(focused, &"new_sticky_window_2".to_string(), &others, 1920, 1080, SnapDirection::Up);
    assert_eq!(up.y, 200 + 20);
    assert_eq!(up.x, 50);
    let down = snap_position(focused, &"new_sticky_window_2".to_string(), &others, 1920, 1080, SnapDirection::Down);
    // the only neighbor is above, so the monitor's bottom edge is used
    assert_eq!(down.y, 1080 - 100 - 20);
    assert_eq!(down.x, 50);
}

#[test]
fn snap_ignores_main_and_non_overlapping_windows() {
    let focused = rect(500, 500, 100, 100);
    let others = vec![
        // main window overlaps but never counts
        ("main".to_string(), rect(0, 500, 100, 100)),
        // overlaps vertically by only 10 px: filtered out
        ("new_sticky_window_1".to_string(), rect(0, 410, 100, 100)),
    ];
    let p = snap_position(focused, &"new_sticky_window_2".to_string(), &others, 1920, 1080, SnapDirection::Left);
    assert_eq!(p.x, 20);
}

#[test]
fn snap_ignores_the_focused_window_itself() {
    let focused = rect(500, 500, 100, 100);
    let others = vec![("new_sticky_window_2".to_string(), rect(0, 500, 100, 100))];
    let p = snap_position(focused, &"new_sticky_window_2".to_string(), &others, 1920, 1080, SnapDirection::Left);
    assert_eq!(p.x, 20);
}

#[test]
fn overlap_with_negative_coordinates() {
    // ranges [-100,100) and [-50,50): overlap 100 > 20
    assert!(window_overlap(-100, 200, -50, 100));
    // ranges [-200,-100) and [0,100) share nothing
    assert!(!window_overlap(-200, 100, 0, 100));
}
