//! Focus cycling: given the sorted list of window labels and the focused
//! window, pick the next or previous non-main window in cyclic order.

use vstd::prelude::*;
use crate::geometry::main_label;

verus! {

/// The views of a list of owned labels.
pub open spec fn label_views(labels: Seq<String>) -> Seq<Seq<char>> {
    labels.map_values(|s: String| s@)
}

/// The position of the first occurrence of `x` in `labels` at or after `i`.
pub open spec fn find_label_index(labels: Seq<Seq<char>>, x: Seq<char>, i: int) -> Option<int>
    decreases labels.len() - i,
{
    if i >= labels.len() {
        None
    } else if labels[i] == x {
        Some(i)
    } else {
        find_label_index(labels, x, i + 1)
    }
}

/// Wraps an index from `[0, 2 * len)` into `[0, len)`.
pub open spec fn wrap_index(i: int, len: int) -> int {
    if i >= len {
        i - len
    } else {
        i
    }
}

/// Wraps an index from `[-len, len)` into `[0, len)`.
pub open spec fn wrap_back_index(i: int, len: int) -> int {
    if i < 0 {
        i + len
    } else {
        i
    }
}

/// The first non-main label at cyclic offsets `d, d + 1, ..., len` after
/// position `k`; offset `len` is the focused window itself.
pub open spec fn scan_next(labels: Seq<Seq<char>>, k: int, d: int) -> Option<int>
    decreases labels.len() + 1 - d,
{
    if d < 1 || d > labels.len() {
        None
    } else {
        let idx = wrap_index(k + d, labels.len() as int);
        if labels[idx] != main_label() {
            Some(idx)
        } else {
            scan_next(labels, k, d + 1)
        }
    }
}

/// The first non-main label at cyclic offsets `d, d + 1, ..., len` before
/// position `k`; offset `len` is the focused window itself.
pub open spec fn scan_prev(labels: Seq<Seq<char>>, k: int, d: int) -> Option<int>
    decreases labels.len() + 1 - d,
{
    if d < 1 || d > labels.len() {
        None
    } else {
        let idx = wrap_back_index(k - d, labels.len() as int);
        if labels[idx] != main_label() {
            Some(idx)
        } else {
            scan_prev(labels, k, d + 1)
        }
    }
}

proof fn lemma_find_label_index_bounds(labels: Seq<Seq<char>>, x: Seq<char>, i: int)
    requires
        0 <= i,
    ensures
        find_label_index(labels, x, i) matches Some(k) ==> i <= k < labels.len(),
    decreases labels.len() - i,
{
    if i < labels.len() && labels[i] != x {
        lemma_find_label_index_bounds(labels, x, i + 1);
    }
}

/// The position of the focused label, scanning from the front.
fn find_index_exec(labels: &Vec<String>, x: &String) -> (r: Option<usize>)
    ensures
        find_label_index(label_views(labels@), x@, 0) is None ==> r is None,
        find_label_index(label_views(labels@), x@, 0) matches Some(k) ==> (r matches Some(kk)
            && kk == k),
{
    let mut i: usize = 0;
    while i < labels.len()
        invariant
            0 <= i <= labels@.len(),
            find_label_index(label_views(labels@), x@, 0) == find_label_index(
                label_views(labels@),
                x@,
                i as int,
            ),
        decreases labels@.len() - i,
    {
        if labels[i] == *x {
            proof {
                assert(label_views(labels@)[i as int] == x@);
            }
            return Some(i);
        }
        proof {
            assert(label_views(labels@)[i as int] != x@);
        }
        i = i + 1;
    }
    None
}

/// The label to focus when cycling forward: the first non-main label
/// strictly after the focused one in cyclic label order (the focused window
/// itself when no other non-main window exists). `None` when the focused
/// label is not listed, or every listed label is the main one.
pub fn next_window_label(labels: &Vec<String>, focused: &String) -> (r: Option<String>)
    requires
        labels@.len() < usize::MAX,
    ensures
        match find_label_index(label_views(labels@), focused@, 0) {
            Option::None => r is None,
            Option::Some(k) => match scan_next(label_views(labels@), k, 1) {
                Option::None => r is None,
                Option::Some(idx) => r matches Some(s) && s@ == label_views(labels@)[idx],
            },
        },
{
    let ghost ls = label_views(labels@);
    proof {
        lemma_find_label_index_bounds(ls, focused@, 0);
    }
    let found = find_index_exec(labels, focused);
    let k: usize = match found {
        Option::Some(kk) => kk,
        Option::None => {
            return None;
        },
    };
    let main_s: String = "main".to_owned();
    let n = labels.len();
    let mut d: usize = 1;
    let mut idx: usize = if k + 1 >= n {
        k + 1 - n
    } else {
        k + 1
    };
    while d <= n
        invariant
            ls == label_views(labels@),
            find_label_index(ls, focused@, 0) == Some(k as int),
            0 <= k < n,
            n == labels@.len(),
            n < usize::MAX,
            1 <= d <= n + 1,
            main_s@ == main_label(),
            d <= n ==> idx == wrap_index(k + d, n as int),
            scan_next(ls, k as int, 1) == scan_next(ls, k as int, d as int),
        decreases n + 1 - d,
    {
        if !(labels[idx] == main_s) {
            proof {
                assert(scan_next(ls, k as int, d as int) == Some(idx as int));
                assert(ls[idx as int] == labels@[idx as int]@);
            }
            return Some(labels[idx].clone());
        }
        d = d + 1;
        if d <= n {
            idx = if idx + 1 >= n {
                idx + 1 - n
            } else {
                idx + 1
            };
        }
    }
    None
}

/// The label to focus when cycling backward: the first non-main label
/// strictly before the focused one in cyclic label order (the focused
/// window itself when no other non-main window exists). `None` when the
/// focused label is not listed, or every listed label is the main one.
pub fn prev_window_label(labels: &Vec<String>, focused: &String) -> (r: Option<String>)
    requires
        labels@.len() < usize::MAX,
    ensures
        match find_label_index(label_views(labels@), focused@, 0) {
            Option::None => r is None,
            Option::Some(k) => match scan_prev(label_views(labels@), k, 1) {
                Option::None => r is None,
                Option::Some(idx) => r matches Some(s) && s@ == label_views(labels@)[idx],
            },
        },
{
    let ghost ls = label_views(labels@);
    proof {
        lemma_find_label_index_bounds(ls, focused@, 0);
    }
    let found = find_index_exec(labels, focused);
    let k: usize = match found {
        Option::Some(kk) => kk,
        Option::None => {
            return None;
        },
    };
    let main_s: String = "main".to_owned();
    let n = labels.len();
    let mut d: usize = 1;
    let mut idx: usize = if k == 0 {
        n - 1
    } else {
        k - 1
    };
    while d <= n
        invariant
            ls == label_views(labels@),
            find_label_index(ls, focused@, 0) == Some(k as int),
            0 <= k < n,
            n == labels@.len(),
            n < usize::MAX,
            1 <= d <= n + 1,
            main_s@ == main_label(),
            d <= n ==> idx == wrap_back_index(k - d, n as int),
            scan_prev(ls, k as int, 1) == scan_prev(ls, k as int, d as int),
        decreases n + 1 - d,
    {
        if !(labels[idx] == main_s) {
            proof {
                assert(scan_prev(ls, k as int, d as int) == Some(idx as int));
                assert(ls[idx as int] == labels@[idx as int]@);
            }
            return Some(labels[idx].clone());
        }
        d = d + 1;
        if d <= n {
            idx = if idx == 0 {
                n - 1
            } else {
                idx - 1
            };
        }
    }
    None
}

} // verus!
