//! The save-cycle rendezvous: one cycle snapshots the ready windows, accepts
//! exactly one response per snapshotted window, rejects stale and duplicate
//! responses, and either completes with all responses or fails as a whole.
//! A supervisor counts consecutive failed cycles and decides when the
//! application must restart.

use vstd::prelude::*;
use crate::notes::Note;
use crate::registry::{WindowRegistry, sorted_labels, lemma_sorted_labels_unique};

verus! {

/// The period of the background save loop, in milliseconds.
pub const SAVE_CYCLE_PERIOD_MILLIS: u64 = 500;

/// How long one window may take to answer a collect-request, in milliseconds.
pub const RESPONSE_TIMEOUT_MILLIS: u64 = 100;

/// How many consecutive failed save cycles are tolerated before the
/// supervisor asks for a restart.
pub const FAILURE_THRESHOLD: u32 = 2;

/// One save cycle: the snapshot of ready windows taken at cycle start, the
/// windows that have responded so far with their collected notes, and
/// whether the cycle has already failed by timeout.
pub struct SaveCycle {
    expected: Vec<String>,
    responded: Vec<String>,
    collected: Vec<Note>,
    timed_out: bool,
}

impl SaveCycle {
    /// The snapshot of ready-window labels this cycle waits on.
    pub closed spec fn expected_seq(self) -> Seq<Seq<char>> {
        self.expected@.map_values(|s: String| s@)
    }

    /// The labels that have responded, in arrival order.
    pub closed spec fn responded_seq(self) -> Seq<Seq<char>> {
        self.responded@.map_values(|s: String| s@)
    }

    /// The set of snapshotted labels.
    pub open spec fn expected_set(self) -> Set<Seq<char>> {
        self.expected_seq().to_set()
    }

    /// The set of labels that have responded.
    pub open spec fn responded_set(self) -> Set<Seq<char>> {
        self.responded_seq().to_set()
    }

    /// The notes collected so far, in arrival order.
    pub closed spec fn collected_seq(self) -> Seq<Note> {
        self.collected@
    }

    /// Whether this cycle has failed by timeout.
    pub closed spec fn spec_timed_out(self) -> bool {
        self.timed_out
    }

    /// Cycle invariant: the snapshot is sorted (hence duplicate-free), each
    /// response came from a distinct snapshotted window, and one note was
    /// collected per response.
    pub closed spec fn wf(self) -> bool {
        &&& sorted_labels(self.expected_seq())
        &&& (forall|i: int, j: int|
            0 <= i < j < self.responded_seq().len() ==> self.responded_seq()[i]
                != self.responded_seq()[j])
        &&& (forall|i: int|
            0 <= i < self.responded_seq().len() ==> self.expected_set().contains(
                #[trigger] self.responded_seq()[i],
            ))
        &&& self.collected_seq().len() == self.responded_seq().len()
    }

    /// Starts a cycle against the current registry: the snapshot is fixed
    /// here and windows becoming ready later are not part of this cycle.
    pub fn begin(registry: &WindowRegistry) -> (c: SaveCycle)
        requires
            registry.wf(),
        ensures
            c.wf(),
            c.expected_seq() == registry.ready_seq(),
            c.responded_seq() =~= Seq::<Seq<char>>::empty(),
            c.collected_seq() =~= Seq::<Note>::empty(),
            !c.spec_timed_out(),
    {
        proof {
            registry.lemma_wf_sorted();
        }
        let c = SaveCycle {
            expected: registry.ready_labels(),
            responded: Vec::new(),
            collected: Vec::new(),
            timed_out: false,
        };
        proof {
            assert(c.responded_seq() =~= Seq::<Seq<char>>::empty());
        }
        c
    }

    /// Number of windows in the snapshot.
    pub fn expected_count(&self) -> (n: usize)
        ensures
            n == self.expected_seq().len(),
    {
        self.expected.len()
    }

    /// Number of responses accepted so far.
    pub fn responded_count(&self) -> (n: usize)
        ensures
            n == self.responded_seq().len(),
    {
        self.responded.len()
    }

    /// Whether every snapshotted window has responded.
    pub fn is_complete(&self) -> (r: bool)
        ensures
            r == (self.responded_seq().len() == self.expected_seq().len()),
    {
        self.responded.len() == self.expected.len()
    }

    /// Offers one window's response to the cycle. The response is accepted
    /// exactly when the cycle has not timed out, the label belongs to the
    /// snapshot, and that window has not responded yet; otherwise — a stale
    /// response after a timeout, a window that became ready after the
    /// snapshot, or a duplicate — the cycle is left entirely unchanged.
    pub fn accept_response(&mut self, label: &String, note: Note) -> (accepted: bool)
        requires
            old(self).wf(),
        ensures
            final(self).wf(),
            accepted == (!old(self).spec_timed_out() && old(self).expected_set().contains(label@)
                && !old(self).responded_set().contains(label@)),
            accepted ==> final(self).responded_seq() == old(self).responded_seq().push(label@)
                && final(self).collected_seq() == old(self).collected_seq().push(note),
            !accepted ==> *final(self) == *old(self),
            final(self).expected_seq() == old(self).expected_seq(),
            final(self).spec_timed_out() == old(self).spec_timed_out(),
    {
        if self.timed_out {
            return false;
        }
        let in_expected = label_list_contains(&self.expected, label);
        if !in_expected {
            return false;
        }
        let already = label_list_contains(&self.responded, label);
        if already {
            return false;
        }
        let ghost old_responded = self.responded_seq();
        self.responded.push(label.clone());
        self.collected.push(note);
        proof {
            assert(final(self).responded_seq() =~= old_responded.push(label@));
            assert forall|i: int, j: int|
                0 <= i < j < final(self).responded_seq().len() implies (final(self).responded_seq()[
            i] != final(self).responded_seq()[j]) by {
                if j == final(self).responded_seq().len() - 1 {
                    assert(!old_responded.contains(label@));
                    assert(old_responded[i] != label@);
                }
            }
        }
        true
    }

    /// Fails the cycle: partial results are discarded and every response
    /// that arrives from now on is rejected.
    pub fn mark_timed_out(&mut self)
        requires
            old(self).wf(),
        ensures
            final(self).wf(),
            final(self).spec_timed_out(),
            final(self).expected_seq() == old(self).expected_seq(),
            final(self).responded_seq() =~= Seq::<Seq<char>>::empty(),
            final(self).collected_seq() =~= Seq::<Note>::empty(),
    {
        self.timed_out = true;
        self.responded = Vec::new();
        self.collected = Vec::new();
        proof {
            assert(final(self).responded_seq() =~= Seq::<Seq<char>>::empty());
        }
    }

    /// Hands out the collected notes of a successful cycle: exactly one note
    /// per window of the snapshot.
    pub fn finish(self) -> (notes: Vec<Note>)
        requires
            self.wf(),
            !self.spec_timed_out(),
            self.responded_seq().len() == self.expected_seq().len(),
        ensures
            notes@ == self.collected_seq(),
            notes@.len() == self.expected_seq().len(),
    {
        self.collected
    }

    /// Law: when a cycle is complete, the windows that responded are exactly
    /// the windows of the ready snapshot — every snapshotted window answered
    /// once, and nothing outside the snapshot contributed a note.
    pub proof fn lemma_complete_cycle_covers_snapshot(self)
        requires
            self.wf(),
            self.responded_seq().len() == self.expected_seq().len(),
        ensures
            self.responded_set() =~= self.expected_set(),
            self.collected_seq().len() == self.expected_seq().len(),
    {
        let r = self.responded_seq();
        let e = self.expected_seq();
        assert(r.no_duplicates());
        lemma_sorted_labels_unique(e);
        assert(e.no_duplicates());
        r.unique_seq_to_set();
        e.unique_seq_to_set();
        assert forall|x: Seq<char>| r.to_set().contains(x) implies e.to_set().contains(x) by {
            let idx = choose|idx: int| 0 <= idx < r.len() && r[idx] == x;
            assert(self.expected_set().contains(r[idx]));
        }
        assert(r.to_set().subset_of(e.to_set()));
        if !(r.to_set() =~= e.to_set()) {
            let x = choose|x: Seq<char>| e.to_set().contains(x) && !r.to_set().contains(x);
            assert(r.to_set().subset_of(e.to_set().remove(x)));
            vstd::set_lib::lemma_len_subset(r.to_set(), e.to_set().remove(x));
            assert(e.to_set().remove(x).len() == e.to_set().len() - 1);
        }
    }
}

/// Whether `label` occurs in the list, compared by contents.
fn label_list_contains(v: &Vec<String>, label: &String) -> (r: bool)
    ensures
        r == v@.map_values(|s: String| s@).contains(label@),
{
    let ghost views = v@.map_values(|s: String| s@);
    let mut i: usize = 0;
    while i < v.len()
        invariant
            0 <= i <= v@.len(),
            views == v@.map_values(|s: String| s@),
            forall|j: int| 0 <= j < i ==> (#[trigger] v@[j])@ != label@,
        decreases v@.len() - i,
    {
        if v[i] == *label {
            proof {
                assert(views[i as int] == label@);
            }
            return true;
        }
        i = i + 1;
    }
    proof {
        if views.contains(label@) {
            let idx = choose|idx: int| 0 <= idx < views.len() && views[idx] == label@;
            assert(v@[idx]@ == label@);
        }
    }
    false
}

/// Counts consecutive save-cycle failures and decides when the application
/// escalates to a full restart.
pub struct Supervisor {
    failures: u32,
    threshold: u32,
}

impl Supervisor {
    /// Consecutive failures recorded since the last success.
    pub closed spec fn spec_failures(self) -> int {
        self.failures as int
    }

    /// Failures tolerated before a restart is requested.
    pub closed spec fn spec_threshold(self) -> int {
        self.threshold as int
    }

    /// A fresh supervisor with no failure recorded.
    pub fn new(threshold: u32) -> (r: Self)
        ensures
            r.spec_failures() == 0,
            r.spec_threshold() == threshold as int,
    {
        Supervisor { failures: 0, threshold }
    }

    /// Records the outcome of one save cycle: a success resets the count, a
    /// failure increments it, and a restart is requested exactly when the
    /// count of consecutive failures exceeds the threshold.
    pub fn record_cycle(&mut self, success: bool) -> (restart: bool)
        ensures
            final(self).spec_threshold() == old(self).spec_threshold(),
            success ==> final(self).spec_failures() == 0 && !restart,
            !success ==> final(self).spec_failures() == if old(self).spec_failures() <= old(
                self,
            ).spec_threshold() && old(self).spec_failures() < u32::MAX {
                old(self).spec_failures() + 1
            } else {
                old(self).spec_failures()
            },
            restart == (final(self).spec_failures() > final(self).spec_threshold()),
    {
        if success {
            self.failures = 0;
            false
        } else {
            if self.failures <= self.threshold && self.failures < u32::MAX {
                self.failures = self.failures + 1;
            }
            self.failures > self.threshold
        }
    }
}

} // verus!
