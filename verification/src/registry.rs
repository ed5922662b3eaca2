//! The window registry: allocation of unique window labels from a
//! monotonically increasing counter, and the set of windows that have
//! signaled readiness, kept as a lexicographically sorted list.

use vstd::prelude::*;

verus! {

/// The character for one decimal digit.
pub open spec fn digit_char(d: int) -> char {
    if d == 0 {
        '0'
    } else if d == 1 {
        '1'
    } else if d == 2 {
        '2'
    } else if d == 3 {
        '3'
    } else if d == 4 {
        '4'
    } else if d == 5 {
        '5'
    } else if d == 6 {
        '6'
    } else if d == 7 {
        '7'
    } else if d == 8 {
        '8'
    } else {
        '9'
    }
}

/// The decimal digits of a nonnegative number, most significant first,
/// without leading zeros (a single zero for 0).
pub open spec fn decimal_digits(n: int) -> Seq<char>
    decreases n,
{
    if n < 10 {
        seq![digit_char(n)]
    } else {
        decimal_digits(n / 10).push(digit_char(n % 10))
    }
}

/// The label generated for the window with allocation number `n`.
pub open spec fn label_of(n: int) -> Seq<char> {
    "new_sticky_window_"@ + decimal_digits(n)
}

proof fn lemma_decimal_digits_len(n: int)
    requires
        0 <= n,
    ensures
        decimal_digits(n).len() >= 1,
        n >= 10 ==> decimal_digits(n).len() >= 2,
    decreases n,
{
    if n >= 10 {
        lemma_decimal_digits_len(n / 10);
    }
}

proof fn lemma_digit_char_injective(a: int, b: int)
    requires
        0 <= a < 10,
        0 <= b < 10,
        digit_char(a) == digit_char(b),
    ensures
        a == b,
{
}

/// Distinct nonnegative numbers have distinct decimal digit sequences.
proof fn lemma_decimal_digits_injective(a: int, b: int)
    requires
        0 <= a,
        0 <= b,
        decimal_digits(a) == decimal_digits(b),
    ensures
        a == b,
    decreases a,
{
    lemma_decimal_digits_len(a);
    lemma_decimal_digits_len(b);
    if a < 10 && b < 10 {
        assert(decimal_digits(a)[0] == digit_char(a));
        assert(decimal_digits(b)[0] == digit_char(b));
        lemma_digit_char_injective(a, b);
    } else if a < 10 {
        assert(decimal_digits(a).len() == 1);
        assert(decimal_digits(b).len() >= 2);
    } else if b < 10 {
        assert(decimal_digits(a).len() >= 2);
        assert(decimal_digits(b).len() == 1);
    } else {
        let da = decimal_digits(a);
        let db = decimal_digits(b);
        assert(da.last() == digit_char(a % 10));
        assert(db.last() == digit_char(b % 10));
        lemma_digit_char_injective(a % 10, b % 10);
        assert(da.drop_last() =~= decimal_digits(a / 10));
        assert(db.drop_last() =~= decimal_digits(b / 10));
        lemma_decimal_digits_injective(a / 10, b / 10);
    }
}

/// Distinct allocation numbers yield distinct window labels: labels are
/// never reused.
pub proof fn lemma_label_of_injective(a: int, b: int)
    requires
        0 <= a,
        0 <= b,
        label_of(a) == label_of(b),
    ensures
        a == b,
{
    let p = "new_sticky_window_"@;
    assert(decimal_digits(a) =~= label_of(a).skip(p.len() as int));
    assert(decimal_digits(b) =~= label_of(b).skip(p.len() as int));
    lemma_decimal_digits_injective(a, b);
}

/// Law: label allocation is collision-free — two different allocation
/// numbers never yield the same label, so windows created concurrently
/// (each allocation serialized under the registry's lock) get distinct
/// labels.
pub proof fn lemma_distinct_allocations(a: int, b: int)
    requires
        0 <= a,
        0 <= b,
        a != b,
    ensures
        label_of(a) != label_of(b),
{
    if label_of(a) == label_of(b) {
        lemma_label_of_injective(a, b);
    }
}

/// The decimal rendering of `n`, digit characters only.
fn decimal_string(n: u32) -> (r: String)
    ensures
        r@ == decimal_digits(n as int),
    decreases n,
{
    let d: u32 = n % 10;
    let c: &str = if d == 0 {
        "0"
    } else if d == 1 {
        "1"
    } else if d == 2 {
        "2"
    } else if d == 3 {
        "3"
    } else if d == 4 {
        "4"
    } else if d == 5 {
        "5"
    } else if d == 6 {
        "6"
    } else if d == 7 {
        "7"
    } else if d == 8 {
        "8"
    } else {
        "9"
    };
    proof {
        reveal_strlit("0");
        reveal_strlit("1");
        reveal_strlit("2");
        reveal_strlit("3");
        reveal_strlit("4");
        reveal_strlit("5");
        reveal_strlit("6");
        reveal_strlit("7");
        reveal_strlit("8");
        reveal_strlit("9");
        assert(c@ =~= seq![digit_char(d as int)]);
    }
    if n < 10 {
        c.to_owned()
    } else {
        let rest = decimal_string(n / 10);
        let r = rest.concat(c);
        proof {
            assert(r@ =~= decimal_digits((n / 10) as int).push(digit_char((n % 10) as int)));
        }
        r
    }
}

/// Builds the label for allocation number `n`.
pub fn make_label(n: u32) -> (r: String)
    ensures
        r@ == label_of(n as int),
{
    let digits = decimal_string(n);
    let prefix: String = "new_sticky_window_".to_owned();
    prefix.concat(digits.as_str())
}

/// Strict lexicographic order on character sequences, by scalar value.
pub open spec fn lex_lt(a: Seq<char>, b: Seq<char>) -> bool
    decreases a.len(),
{
    if b.len() == 0 {
        false
    } else if a.len() == 0 {
        true
    } else if a[0] == b[0] {
        lex_lt(a.drop_first(), b.drop_first())
    } else {
        (a[0] as u32) < (b[0] as u32)
    }
}

/// The order is connected: two sequences with neither below the other are
/// equal.
pub proof fn lemma_lex_lt_connected(a: Seq<char>, b: Seq<char>)
    requires
        !lex_lt(a, b),
        !lex_lt(b, a),
    ensures
        a == b,
    decreases a.len(),
{
    if a.len() == 0 || b.len() == 0 {
        assert(a =~= b);
    } else {
        assert(a[0] as u32 == b[0] as u32);
        vstd::utf8::char_u32_cast(a[0], a[0] as u32);
        vstd::utf8::char_u32_cast(b[0], b[0] as u32);
        assert(a[0] == b[0]);
        lemma_lex_lt_connected(a.drop_first(), b.drop_first());
        assert(a =~= seq![a[0]] + a.drop_first());
        assert(b =~= seq![b[0]] + b.drop_first());
    }
}

/// The order is irreflexive.
pub proof fn lemma_lex_lt_irreflexive(a: Seq<char>)
    ensures
        !lex_lt(a, a),
    decreases a.len(),
{
    if a.len() > 0 {
        lemma_lex_lt_irreflexive(a.drop_first());
    }
}

/// The order is transitive.
pub proof fn lemma_lex_lt_transitive(a: Seq<char>, b: Seq<char>, c: Seq<char>)
    requires
        lex_lt(a, b),
        lex_lt(b, c),
    ensures
        lex_lt(a, c),
    decreases a.len(),
{
    if c.len() == 0 || a.len() == 0 {
    } else if b.len() == 0 {
    } else {
        if a[0] == b[0] && b[0] == c[0] {
            lemma_lex_lt_transitive(a.drop_first(), b.drop_first(), c.drop_first());
        }
    }
}

proof fn lemma_lex_unfold_at(a: Seq<char>, b: Seq<char>, i: int)
    requires
        0 <= i < a.len(),
        i < b.len(),
    ensures
        lex_lt(a.skip(i), b.skip(i)) == if a[i] == b[i] {
            lex_lt(a.skip(i + 1), b.skip(i + 1))
        } else {
            (a[i] as u32) < (b[i] as u32)
        },
{
    let sa = a.skip(i);
    let sb = b.skip(i);
    assert(sa.len() > 0);
    assert(sb.len() > 0);
    assert(sa[0] == a[i]);
    assert(sb[0] == b[i]);
    assert(sa.drop_first() =~= a.skip(i + 1));
    assert(sb.drop_first() =~= b.skip(i + 1));
}

/// Compares two strings in the lexicographic order `lex_lt`.
pub fn str_lt(a: &str, b: &str) -> (r: bool)
    ensures
        r == lex_lt(a@, b@),
{
    let la = a.unicode_len();
    let lb = b.unicode_len();
    let mut i: usize = 0;
    proof {
        assert(a@.skip(0) =~= a@);
        assert(b@.skip(0) =~= b@);
    }
    while i < la && i < lb
        invariant
            la == a@.len(),
            lb == b@.len(),
            0 <= i <= la,
            i <= lb,
            lex_lt(a@, b@) == lex_lt(a@.skip(i as int), b@.skip(i as int)),
        decreases la - i,
    {
        let ca = a.get_char(i);
        let cb = b.get_char(i);
        proof {
            lemma_lex_unfold_at(a@, b@, i as int);
        }
        if (ca as u32) < (cb as u32) {
            return true;
        }
        if (ca as u32) > (cb as u32) {
            return false;
        }
        proof {
            assert(ca == cb);
        }
        i = i + 1;
    }
    proof {
        if i >= la {
            assert(a@.skip(i as int) =~= Seq::<char>::empty());
        }
        if i >= lb {
            assert(b@.skip(i as int) =~= Seq::<char>::empty());
        }
    }
    la < lb
}

/// A sequence of labels in strictly increasing lexicographic order.
pub open spec fn sorted_labels(s: Seq<Seq<char>>) -> bool {
    forall|i: int, j: int| 0 <= i < j < s.len() ==> lex_lt(#[trigger] s[i], #[trigger] s[j])
}

/// A strictly sorted label sequence holds no label twice.
pub proof fn lemma_sorted_labels_unique(s: Seq<Seq<char>>)
    requires
        sorted_labels(s),
    ensures
        forall|i: int, j: int| 0 <= i < j < s.len() ==> s[i] != s[j],
{
    assert forall|i: int, j: int| 0 <= i < j < s.len() implies s[i] != s[j] by {
        lemma_lex_lt_irreflexive(s[i]);
    }
}

/// `l` is a label that the allocation counter has already produced:
/// `label_of(m)` for some allocation number `1 <= m <= count`.
pub open spec fn allocated_label(l: Seq<char>, count: int) -> bool {
    exists|m: int| 1 <= m <= count && l == label_of(m)
}

/// Tracks which note windows exist: the allocation counter for fresh labels
/// and the lexicographically sorted list of labels that have signaled
/// readiness.
pub struct WindowRegistry {
    count: u32,
    ready: Vec<String>,
}

impl WindowRegistry {
    /// How many labels have been allocated so far.
    pub closed spec fn spec_count(self) -> int {
        self.count as int
    }

    /// The ready labels, in their stored (sorted) order.
    pub closed spec fn ready_seq(self) -> Seq<Seq<char>> {
        self.ready@.map_values(|s: String| s@)
    }

    /// The set of ready labels.
    pub open spec fn ready_set(self) -> Set<Seq<char>> {
        self.ready_seq().to_set()
    }

    /// The ready list is strictly sorted (hence duplicate-free), and every
    /// ready label was allocated by the counter: a label is in the ready set
    /// only between its ready signal and its removal, and both come after
    /// its allocation.
    pub closed spec fn wf(self) -> bool {
        &&& sorted_labels(self.ready_seq())
        &&& forall|i: int|
            0 <= i < self.ready_seq().len() ==> allocated_label(
                #[trigger] self.ready_seq()[i],
                self.spec_count(),
            )
    }

    /// An empty registry: no label allocated, no window ready.
    pub fn new() -> (r: Self)
        ensures
            r.wf(),
            r.spec_count() == 0,
            r.ready_seq() =~= Seq::<Seq<char>>::empty(),
    {
        WindowRegistry { count: 0, ready: Vec::new() }
    }

    /// Allocates the next window label by incrementing the counter. Labels
    /// are unique across the registry's lifetime (`lemma_label_of_injective`),
    /// so the fresh label cannot already be in the ready set: it enters the
    /// set only once the new window signals readiness.
    pub fn register_pending(&mut self) -> (label: String)
        requires
            old(self).wf(),
            old(self).spec_count() < u32::MAX,
        ensures
            final(self).wf(),
            final(self).spec_count() == old(self).spec_count() + 1,
            final(self).ready_seq() == old(self).ready_seq(),
            label@ == label_of(final(self).spec_count()),
            !final(self).ready_set().contains(label@),
            allocated_label(label@, final(self).spec_count()),
    {
        let ghost old_count = self.spec_count();
        self.count = self.count + 1;
        let label = make_label(self.count);
        proof {
            let new_count = self.spec_count();
            assert forall|i: int| 0 <= i < self.ready_seq().len() implies allocated_label(
                #[trigger] self.ready_seq()[i],
                new_count,
            ) by {
                let m = choose|m: int|
                    1 <= m <= old_count && self.ready_seq()[i] == label_of(m);
                assert(1 <= m <= new_count && self.ready_seq()[i] == label_of(m));
            }
            assert(!self.ready_set().contains(label@)) by {
                if self.ready_set().contains(label@) {
                    let i = choose|i: int|
                        0 <= i < self.ready_seq().len() && self.ready_seq()[i] == label@;
                    let m = choose|m: int|
                        1 <= m <= old_count && self.ready_seq()[i] == label_of(m);
                    lemma_label_of_injective(m, new_count);
                }
            }
            assert(allocated_label(label@, new_count)) by {
                assert(1 <= new_count <= new_count && label@ == label_of(new_count));
            }
        }
        label
    }

    /// How many labels have been allocated so far.
    pub fn allocation_count(&self) -> (n: u32)
        ensures
            n as int == self.spec_count(),
    {
        self.count
    }

    /// Number of ready windows.
    pub fn ready_count(&self) -> (n: usize)
        ensures
            n == self.ready_seq().len(),
    {
        self.ready.len()
    }

    /// A well-formed registry keeps its ready labels strictly sorted.
    pub proof fn lemma_wf_sorted(self)
        requires
            self.wf(),
        ensures
            sorted_labels(self.ready_seq()),
    {
    }

    /// A snapshot of the ready labels in sorted order, for deterministic
    /// iteration during a save cycle or window cycling.
    pub fn ready_labels(&self) -> (r: Vec<String>)
        ensures
            r@.map_values(|s: String| s@) == self.ready_seq(),
            self.wf() ==> sorted_labels(r@.map_values(|s: String| s@)),
    {
        let mut out: Vec<String> = Vec::new();
        let mut i: usize = 0;
        while i < self.ready.len()
            invariant
                0 <= i <= self.ready@.len(),
                out@.len() == i,
                forall|j: int| 0 <= j < i ==> (#[trigger] out@[j])@ == self.ready@[j]@,
            decreases self.ready@.len() - i,
        {
            let s: String = self.ready[i].clone();
            out.push(s);
            i = i + 1;
        }
        proof {
            assert(out@.map_values(|s: String| s@) =~= self.ready_seq());
        }
        out
    }

    /// Inserts `label` into the ready set; inserting a label already present
    /// leaves the registry unchanged. Only labels that the counter has
    /// produced can signal readiness: a window exists before it is ready.
    pub fn mark_ready(&mut self, label: String)
        requires
            old(self).wf(),
            allocated_label(label@, old(self).spec_count()),
        ensures
            final(self).wf(),
            final(self).spec_count() == old(self).spec_count(),
            final(self).ready_set() =~= old(self).ready_set().insert(label@),
            old(self).ready_set().contains(label@) ==> final(self).ready_seq() == old(
                self,
            ).ready_seq(),
    {
        let ghost old_ready = self.ready@;
        proof {
            assert forall|p: int, q: int| 0 <= p < q < old_ready.len() implies lex_lt(
                (#[trigger] old_ready[p])@,
                (#[trigger] old_ready[q])@,
            ) by {
                assert(old(self).ready_seq()[p] == old_ready[p]@);
                assert(old(self).ready_seq()[q] == old_ready[q]@);
            }
        }
        let mut i: usize = 0;
        while i < self.ready.len() && str_lt(self.ready[i].as_str(), label.as_str())
            invariant
                0 <= i <= self.ready@.len(),
                self.ready@ == old_ready,
                forall|j: int| 0 <= j < i ==> lex_lt((#[trigger] self.ready@[j])@, label@),
            decreases self.ready@.len() - i,
        {
            i = i + 1;
        }
        if i < self.ready.len() && self.ready[i] == label {
            proof {
                assert(old(self).ready_seq()[i as int] == label@);
                assert(old(self).ready_seq().contains(label@));
                assert(self.ready_set() =~= self.ready_set().insert(label@));
            }
            return ;
        }
        proof {
            if i < old_ready.len() {
                assert(!lex_lt(old_ready[i as int]@, label@));
                assert(old_ready[i as int]@ != label@);
                if !lex_lt(label@, old_ready[i as int]@) {
                    lemma_lex_lt_connected(old_ready[i as int]@, label@);
                }
                assert(lex_lt(label@, old_ready[i as int]@));
            }
            assert forall|j: int| i <= j < old_ready.len() implies lex_lt(
                label@,
                (#[trigger] old_ready[j])@,
            ) by {
                if j > i {
                    lemma_lex_lt_transitive(label@, old_ready[i as int]@, old_ready[j]@);
                }
            }
            assert forall|j: int| 0 <= j < old_ready.len() implies (#[trigger] old_ready[j])@
                != label@ by {
                lemma_lex_lt_irreflexive(label@);
            }
            assert(!old(self).ready_set().contains(label@)) by {
                if old(self).ready_set().contains(label@) {
                    let idx = choose|idx: int|
                        0 <= idx < old(self).ready_seq().len() && old(self).ready_seq()[idx]
                            == label@;
                    assert(old_ready[idx]@ == label@);
                }
            }
        }
        self.ready.insert(i, label);
        proof {
            let new_ready = self.ready@;
            assert(new_ready == old_ready.insert(i as int, label));
            assert forall|p: int, q: int| 0 <= p < q < new_ready.len() implies lex_lt(
                (#[trigger] new_ready[p])@,
                (#[trigger] new_ready[q])@,
            ) by {
                if q < i {
                    assert(new_ready[p] == old_ready[p]);
                    assert(new_ready[q] == old_ready[q]);
                } else if p < i && q == i {
                    assert(new_ready[p] == old_ready[p]);
                } else if p == i && q > i {
                    assert(new_ready[q] == old_ready[q - 1]);
                } else if p < i && q > i {
                    assert(new_ready[p] == old_ready[p]);
                    assert(new_ready[q] == old_ready[q - 1]);
                } else {
                    assert(new_ready[p] == old_ready[p - 1]);
                    assert(new_ready[q] == old_ready[q - 1]);
                }
            }
            assert forall|p: int, q: int| 0 <= p < q < final(self).ready_seq().len() implies
                lex_lt(
                #[trigger] final(self).ready_seq()[p],
                #[trigger] final(self).ready_seq()[q],
            ) by {
                assert(final(self).ready_seq()[p] == new_ready[p]@);
                assert(final(self).ready_seq()[q] == new_ready[q]@);
            }
            assert forall|t: int| 0 <= t < final(self).ready_seq().len() implies allocated_label(
                #[trigger] final(self).ready_seq()[t],
                final(self).spec_count(),
            ) by {
                if t < i {
                    assert(new_ready[t] == old_ready[t]);
                    assert(final(self).ready_seq()[t] == old(self).ready_seq()[t]);
                } else if t == i {
                    assert(final(self).ready_seq()[t] == label@);
                } else {
                    assert(new_ready[t] == old_ready[t - 1]);
                    assert(final(self).ready_seq()[t] == old(self).ready_seq()[t - 1]);
                }
            }
            assert forall|x: Seq<char>| final(self).ready_set().contains(x) implies old(
                self,
            ).ready_set().insert(label@).contains(x) by {
                let idx = choose|idx: int|
                    0 <= idx < final(self).ready_seq().len() && final(self).ready_seq()[idx] == x;
                if idx < i {
                    assert(new_ready[idx] == old_ready[idx]);
                    assert(old(self).ready_seq()[idx] == x);
                    assert(old(self).ready_seq().contains(x));
                } else if idx == i {
                    assert(x == label@);
                } else {
                    assert(new_ready[idx] == old_ready[idx - 1]);
                    assert(old(self).ready_seq()[idx - 1] == x);
                    assert(old(self).ready_seq().contains(x));
                }
            }
            assert forall|x: Seq<char>| old(self).ready_set().insert(label@).contains(x) implies
                final(self).ready_set().contains(x) by {
                if x == label@ {
                    assert(new_ready[i as int] == label);
                    assert(final(self).ready_seq()[i as int] == x);
                    assert(final(self).ready_seq().contains(x));
                } else {
                    let idx = choose|idx: int|
                        0 <= idx < old(self).ready_seq().len() && old(self).ready_seq()[idx] == x;
                    if idx < i {
                        assert(new_ready[idx] == old_ready[idx]);
                        assert(final(self).ready_seq()[idx] == x);
                    } else {
                        assert(new_ready[idx + 1] == old_ready[idx]);
                        assert(final(self).ready_seq()[idx + 1] == x);
                    }
                    assert(final(self).ready_seq().contains(x));
                }
            }
        }
    }

    /// Removes `label` from the ready set; removing an absent label leaves
    /// the registry unchanged.
    pub fn unregister(&mut self, label: &String)
        requires
            old(self).wf(),
        ensures
            final(self).wf(),
            final(self).spec_count() == old(self).spec_count(),
            final(self).ready_set() =~= old(self).ready_set().remove(label@),
    {
        let ghost old_ready = self.ready@;
        proof {
            assert forall|p: int, q: int| 0 <= p < q < old_ready.len() implies lex_lt(
                (#[trigger] old_ready[p])@,
                (#[trigger] old_ready[q])@,
            ) by {
                assert(old(self).ready_seq()[p] == old_ready[p]@);
                assert(old(self).ready_seq()[q] == old_ready[q]@);
            }
        }
        let mut i: usize = 0;
        while i < self.ready.len() && !(self.ready[i] == *label)
            invariant
                0 <= i <= self.ready@.len(),
                self.ready@ == old_ready,
                forall|j: int| 0 <= j < i ==> (#[trigger] self.ready@[j])@ != label@,
            decreases self.ready@.len() - i,
        {
            i = i + 1;
        }
        if i < self.ready.len() {
            proof {
                assert(old_ready[i as int]@ == label@);
                assert forall|j: int| 0 <= j < old_ready.len() && j != i implies (
                #[trigger] old_ready[j])@ != label@ by {
                    if j > i {
                        assert(lex_lt(old_ready[i as int]@, old_ready[j]@));
                        lemma_lex_lt_irreflexive(label@);
                    }
                }
            }
            self.ready.remove(i);
            proof {
                let new_ready = self.ready@;
                assert(new_ready == old_ready.remove(i as int));
                assert forall|p: int, q: int| 0 <= p < q < final(self).ready_seq().len() implies
                    lex_lt(
                    #[trigger] final(self).ready_seq()[p],
                    #[trigger] final(self).ready_seq()[q],
                ) by {
                    if q < i {
                        assert(new_ready[p] == old_ready[p]);
                        assert(new_ready[q] == old_ready[q]);
                    } else if p < i {
                        assert(new_ready[p] == old_ready[p]);
                        assert(new_ready[q] == old_ready[q + 1]);
                    } else {
                        assert(new_ready[p] == old_ready[p + 1]);
                        assert(new_ready[q] == old_ready[q + 1]);
                    }
                    assert(final(self).ready_seq()[p] == new_ready[p]@);
                    assert(final(self).ready_seq()[q] == new_ready[q]@);
                }
                assert forall|t: int| 0 <= t < final(self).ready_seq().len() implies
                    allocated_label(
                    #[trigger] final(self).ready_seq()[t],
                    final(self).spec_count(),
                ) by {
                    if t < i {
                        assert(new_ready[t] == old_ready[t]);
                        assert(final(self).ready_seq()[t] == old(self).ready_seq()[t]);
                    } else {
                        assert(new_ready[t] == old_ready[t + 1]);
                        assert(final(self).ready_seq()[t] == old(self).ready_seq()[t + 1]);
                    }
                }
                assert forall|x: Seq<char>| final(self).ready_set().contains(x) implies old(
                    self,
                ).ready_set().remove(label@).contains(x) by {
                    let idx = choose|idx: int|
                        0 <= idx < final(self).ready_seq().len() && final(self).ready_seq()[idx]
                            == x;
                    if idx < i {
                        assert(new_ready[idx] == old_ready[idx]);
                        assert(old(self).ready_seq()[idx] == x);
                    } else {
                        assert(new_ready[idx] == old_ready[idx + 1]);
                        assert(old(self).ready_seq()[idx + 1] == x);
                    }
                    assert(old(self).ready_seq().contains(x));
                }
                assert forall|x: Seq<char>| old(self).ready_set().remove(label@).contains(x)
                    implies final(self).ready_set().contains(x) by {
                    let idx = choose|idx: int|
                        0 <= idx < old(self).ready_seq().len() && old(self).ready_seq()[idx] == x;
                    if idx < i {
                        assert(new_ready[idx] == old_ready[idx]);
                        assert(final(self).ready_seq()[idx] == x);
                    } else if idx == i {
                        assert(x == label@);
                    } else {
                        assert(new_ready[idx - 1] == old_ready[idx]);
                        assert(final(self).ready_seq()[idx - 1] == x);
                    }
                    assert(final(self).ready_seq().contains(x));
                }
            }
        } else {
            proof {
                assert(!old(self).ready_set().contains(label@)) by {
                    if old(self).ready_set().contains(label@) {
                        let idx = choose|idx: int|
                            0 <= idx < old(self).ready_seq().len() && old(self).ready_seq()[idx]
                                == label@;
                        assert(old_ready[idx]@ == label@);
                    }
                }
                assert(final(self).ready_set() =~= old(self).ready_set().remove(label@));
            }
        }
    }

    /// Whether `label` is currently in the ready set.
    pub fn is_ready(&self, label: &String) -> (r: bool)
        ensures
            r == self.ready_set().contains(label@),
    {
        let mut i: usize = 0;
        while i < self.ready.len()
            invariant
                0 <= i <= self.ready@.len(),
                forall|j: int| 0 <= j < i ==> (#[trigger] self.ready@[j])@ != label@,
            decreases self.ready@.len() - i,
        {
            if self.ready[i] == *label {
                proof {
                    assert(self.ready_seq()[i as int] == label@);
                    assert(self.ready_seq().contains(label@));
                }
                return true;
            }
            i = i + 1;
        }
        proof {
            assert(!self.ready_set().contains(label@)) by {
                if self.ready_set().contains(label@) {
                    let idx = choose|idx: int|
                        0 <= idx < self.ready_seq().len() && self.ready_seq()[idx] == label@;
                    assert(self.ready@[idx]@ == label@);
                }
            }
        }
        false
    }
}

} // verus!
