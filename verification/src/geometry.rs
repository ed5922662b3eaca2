//! Window-snapping geometry: the overlap test between two pixel ranges and
//! the computation of a snapped window position.

use vstd::prelude::*;

verus! {

/// The fixed pixel gap: both the minimum overlap for a window to count as a
/// snapping neighbor and the margin left between snapped windows.
pub const GAP: i32 = 20;

/// Two half-open pixel ranges `[start_1, start_1 + len_1)` and
/// `[start_2, start_2 + len_2)` overlap by strictly more than the gap.
pub open spec fn spec_overlap(start_1: int, len_1: int, start_2: int, len_2: int) -> bool {
    let overlap_start = if start_1 >= start_2 {
        start_1
    } else {
        start_2
    };
    let overlap_end = if start_1 + len_1 <= start_2 + len_2 {
        start_1 + len_1
    } else {
        start_2 + len_2
    };
    overlap_end - overlap_start > GAP
}

/// Whether the ranges `[start_1, start_1 + len_1)` and `[start_2, start_2 + len_2)`
/// share more than `GAP` pixels. Windows that merely touch, or overlap by no
/// more than the gap, do not count as snapping neighbors.
pub fn window_overlap(start_1: i32, len_1: i32, start_2: i32, len_2: i32) -> (r: bool)
    ensures
        r == spec_overlap(start_1 as int, len_1 as int, start_2 as int, len_2 as int),
{
    overlap_ranges(start_1 as i64, len_1 as i64, start_2 as i64, len_2 as i64)
}

/// The overlap test on coordinates already widened past any `i32` range, so
/// that the sums and the difference cannot overflow.
fn overlap_ranges(start_1: i64, len_1: i64, start_2: i64, len_2: i64) -> (r: bool)
    requires
        -0x1_0000_0000_0000 <= start_1 + len_1 <= 0x1_0000_0000_0000,
        -0x1_0000_0000_0000 <= start_2 + len_2 <= 0x1_0000_0000_0000,
        -0x1_0000_0000_0000 <= start_1 <= 0x1_0000_0000_0000,
        -0x1_0000_0000_0000 <= start_2 <= 0x1_0000_0000_0000,
    ensures
        r == spec_overlap(start_1 as int, len_1 as int, start_2 as int, len_2 as int),
{
    let end_1: i64 = start_1 + len_1;
    let end_2: i64 = start_2 + len_2;

    let overlap_start: i64 = if start_1 >= start_2 {
        start_1
    } else {
        start_2
    };
    let overlap_end: i64 = if end_1 <= end_2 {
        end_1
    } else {
        end_2
    };
    overlap_end - overlap_start > GAP as i64
}

/// Outer geometry of one window: top-left corner and size, in physical pixels.
#[derive(Clone, Copy, PartialEq, Eq, Structural)]
pub struct WindowRect {
    pub x: i32,
    pub y: i32,
    pub width: u32,
    pub height: u32,
}

/// A window position, in physical pixels.
#[derive(Clone, Copy, PartialEq, Eq, Structural)]
pub struct Position {
    pub x: i32,
    pub y: i32,
}

/// The side of the focused window against which a snap is requested.
#[derive(Clone, Copy, PartialEq, Eq, Structural)]
pub enum SnapDirection {
    Up,
    Down,
    Left,
    Right,
}

/// The label that the main (control) window carries. The main window is never
/// a snapping neighbor and its note is never persisted.
pub open spec fn main_label() -> Seq<char> {
    "main"@
}

/// A window's coordinates are far enough from the `i32` limits that every
/// edge, widened by the gap, still fits in an `i32`.
pub open spec fn rect_bounded(w: WindowRect) -> bool {
    &&& i32::MIN + GAP <= w.x
    &&& i32::MIN + GAP <= w.y
    &&& w.x + w.width <= i32::MAX - GAP
    &&& w.y + w.height <= i32::MAX - GAP
}

/// Whether the window labelled `label` with geometry `w` is a snapping
/// neighbor of the focused window for the given direction: not the main
/// window, not the focused window itself, overlapping the focused window on
/// the perpendicular axis by more than the gap, and lying strictly on the
/// requested side.
pub open spec fn snap_candidate(
    flabel: Seq<char>,
    focused: WindowRect,
    direction: SnapDirection,
    label: Seq<char>,
    w: WindowRect,
) -> bool {
    &&& label != main_label()
    &&& label != flabel
    &&& match direction {
        SnapDirection::Left | SnapDirection::Right => spec_overlap(
            w.y as int,
            w.height as int,
            focused.y as int,
            focused.height as int,
        ),
        SnapDirection::Up | SnapDirection::Down => spec_overlap(
            w.x as int,
            w.width as int,
            focused.x as int,
            focused.width as int,
        ),
    }
    &&& match direction {
        SnapDirection::Left => w.x + w.width < focused.x,
        SnapDirection::Right => w.x > focused.x,
        SnapDirection::Up => w.y + w.height < focused.y,
        SnapDirection::Down => w.y > focused.y,
    }
}

/// The edge of a neighbor that the snap aligns against.
pub open spec fn snap_edge(direction: SnapDirection, w: WindowRect) -> int {
    match direction {
        SnapDirection::Left => w.x + w.width,
        SnapDirection::Right => w.x as int,
        SnapDirection::Up => w.y + w.height,
        SnapDirection::Down => w.y as int,
    }
}

/// `a` is a strictly nearer edge than `b` for the given direction.
pub open spec fn nearer_edge(direction: SnapDirection, a: int, b: int) -> bool {
    match direction {
        SnapDirection::Left | SnapDirection::Up => a > b,
        SnapDirection::Right | SnapDirection::Down => a < b,
    }
}

/// The snapped coordinate derived from a chosen neighbor edge: the gap is
/// left between the two windows.
pub open spec fn snapped_from(direction: SnapDirection, edge: int) -> int {
    match direction {
        SnapDirection::Left | SnapDirection::Up => edge + GAP,
        SnapDirection::Right | SnapDirection::Down => edge - GAP,
    }
}

/// The snapped coordinate when no neighbor qualifies: the monitor edge on the
/// requested side, with the gap applied the same way.
pub open spec fn snap_fallback(
    direction: SnapDirection,
    focused: WindowRect,
    monitor_width: int,
    monitor_height: int,
) -> int {
    match direction {
        SnapDirection::Left | SnapDirection::Up => GAP as int,
        SnapDirection::Right => monitor_width - focused.width - GAP,
        SnapDirection::Down => monitor_height - focused.height - GAP,
    }
}

/// The coordinate that a snap changes: `x` for Left/Right, `y` for Up/Down.
pub open spec fn snapped_coord(direction: SnapDirection, p: Position) -> int {
    match direction {
        SnapDirection::Left | SnapDirection::Right => p.x as int,
        SnapDirection::Up | SnapDirection::Down => p.y as int,
    }
}

/// Some window in `others` qualifies as a snapping neighbor.
pub open spec fn has_snap_candidate(
    flabel: Seq<char>,
    focused: WindowRect,
    direction: SnapDirection,
    others: Seq<(String, WindowRect)>,
) -> bool {
    exists|i: int|
        0 <= i < others.len() && snap_candidate(
            flabel,
            focused,
            direction,
            others[i].0@,
            others[i].1,
        )
}

/// Computes the position the focused window is moved to when snapped in the
/// given direction: against the nearest qualifying neighbor edge on that
/// side, or against the monitor edge when no neighbor qualifies. The
/// coordinate of the other axis is passed through unchanged.
pub fn snap_position(
    focused: WindowRect,
    focused_label: &String,
    others: &Vec<(String, WindowRect)>,
    monitor_width: u32,
    monitor_height: u32,
    direction: SnapDirection,
) -> (r: Position)
    requires
        focused.width <= monitor_width,
        focused.height <= monitor_height,
        monitor_width <= i32::MAX as u32,
        monitor_height <= i32::MAX as u32,
        forall|i: int| 0 <= i < others@.len() ==> rect_bounded(#[trigger] others@[i].1),
    ensures
        (direction == SnapDirection::Left || direction == SnapDirection::Right) ==> r.y
            == focused.y,
        (direction == SnapDirection::Up || direction == SnapDirection::Down) ==> r.x == focused.x,
        has_snap_candidate(focused_label@, focused, direction, others@) ==> (exists|i: int|
            0 <= i < others@.len() && snap_candidate(
                focused_label@,
                focused,
                direction,
                others@[i].0@,
                others@[i].1,
            ) && snapped_coord(direction, r) == snapped_from(
                direction,
                snap_edge(direction, others@[i].1),
            ) && (forall|j: int|
                0 <= j < others@.len() && snap_candidate(
                    focused_label@,
                    focused,
                    direction,
                    others@[j].0@,
                    others@[j].1,
                ) ==> !nearer_edge(
                    direction,
                    snap_edge(direction, #[trigger] others@[j].1),
                    snap_edge(direction, others@[i].1),
                ))),
        !has_snap_candidate(focused_label@, focused, direction, others@) ==> snapped_coord(
            direction,
            r,
        ) == snap_fallback(direction, focused, monitor_width as int, monitor_height as int),
{
    let main_s: String = "main".to_owned();
    let mut best: Option<i64> = None;
    let mut k: Option<usize> = None;
    let mut i: usize = 0;
    while i < others.len()
        invariant
            0 <= i <= others@.len(),
            focused.width <= monitor_width,
            focused.height <= monitor_height,
            monitor_width <= i32::MAX as u32,
            monitor_height <= i32::MAX as u32,
            forall|t: int| 0 <= t < others@.len() ==> rect_bounded(#[trigger] others@[t].1),
            main_s@ == main_label(),
            best is None <==> k is None,
            best is None ==> forall|j: int|
                0 <= j < i ==> !snap_candidate(
                    focused_label@,
                    focused,
                    direction,
                    (#[trigger] others@[j]).0@,
                    others@[j].1,
                ),
            best is Some ==> {
                let e = best->0 as int;
                &&& k is Some
                &&& 0 <= k->0 < i
                &&& snap_candidate(
                    focused_label@,
                    focused,
                    direction,
                    others@[k->0 as int].0@,
                    others@[k->0 as int].1,
                )
                &&& e == snap_edge(direction, others@[k->0 as int].1)
                &&& i32::MIN + GAP <= e <= i32::MAX - GAP
                &&& forall|j: int|
                    0 <= j < i && snap_candidate(
                        focused_label@,
                        focused,
                        direction,
                        (#[trigger] others@[j]).0@,
                        others@[j].1,
                    ) ==> !nearer_edge(direction, snap_edge(direction, others@[j].1), e)
            },
        decreases others@.len() - i,
    {
        let label = &others[i].0;
        let w = others[i].1;
        if !(*label == main_s) && !(*label == *focused_label) {
            let overlaps: bool = match direction {
                SnapDirection::Left | SnapDirection::Right => overlap_ranges(
                    w.y as i64,
                    w.height as i64,
                    focused.y as i64,
                    focused.height as i64,
                ),
                SnapDirection::Up | SnapDirection::Down => overlap_ranges(
                    w.x as i64,
                    w.width as i64,
                    focused.x as i64,
                    focused.width as i64,
                ),
            };
            if overlaps {
                let edge: i64 = match direction {
                    SnapDirection::Left => w.x as i64 + w.width as i64,
                    SnapDirection::Right => w.x as i64,
                    SnapDirection::Up => w.y as i64 + w.height as i64,
                    SnapDirection::Down => w.y as i64,
                };
                let eligible: bool = match direction {
                    SnapDirection::Left => edge < focused.x as i64,
                    SnapDirection::Right => edge > focused.x as i64,
                    SnapDirection::Up => edge < focused.y as i64,
                    SnapDirection::Down => edge > focused.y as i64,
                };
                if eligible {
                    let take: bool = match best {
                        Option::None => true,
                        Option::Some(b) => match direction {
                            SnapDirection::Left | SnapDirection::Up => edge > b,
                            SnapDirection::Right | SnapDirection::Down => edge < b,
                        },
                    };
                    if take {
                        best = Some(edge);
                        k = Some(i);
                    }
                }
            }
        }
        i = i + 1;
    }

    let coord: i32 = match best {
        Option::Some(e) => {
            let narrow: i32 = e as i32;
            match direction {
                SnapDirection::Left | SnapDirection::Up => narrow + GAP,
                SnapDirection::Right | SnapDirection::Down => narrow - GAP,
            }
        },
        Option::None => {
            match direction {
                SnapDirection::Left | SnapDirection::Up => GAP,
                SnapDirection::Right => (monitor_width - focused.width) as i32 - GAP,
                SnapDirection::Down => (monitor_height - focused.height) as i32 - GAP,
            }
        },
    };

    match direction {
        SnapDirection::Left | SnapDirection::Right => Position { x: coord, y: focused.y },
        SnapDirection::Up | SnapDirection::Down => Position { x: focused.x, y: coord },
    }
}

} // verus!
