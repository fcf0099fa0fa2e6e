//! Policies that pick the column to receive the next unit of width.
use vstd::prelude::*;

verus! {

/// Which column grows next: round robin from a cursor, the widest, or the narrowest.
#[derive(Clone, Copy, Debug, PartialEq, Eq, Structural)]
pub enum ColumnPeaker {
    PriorityNone { cursor: usize },
    PriorityMax,
    PriorityMin,
}

/// Index of the widest of the first `k` columns, the lowest index among equals (`k >= 1`).
pub open spec fn max_index_upto(w: Seq<usize>, k: nat) -> nat
    decreases k,
{
    if k <= 1 {
        0
    } else {
        let m = max_index_upto(w, (k - 1) as nat);
        if w[k - 1] > w[m as int] { (k - 1) as nat } else { m }
    }
}

/// Index of the narrowest of the first `k` columns, the lowest index among equals (`k >= 1`).
pub open spec fn min_index_upto(w: Seq<usize>, k: nat) -> nat
    decreases k,
{
    if k <= 1 {
        0
    } else {
        let m = min_index_upto(w, (k - 1) as nat);
        if w[k - 1] < w[m as int] { (k - 1) as nat } else { m }
    }
}

/// Column at which round robin goes on from `cursor` among `n` columns.
pub open spec fn round_robin_col(cursor: usize, n: nat) -> nat {
    if cursor < n { cursor as nat } else { 0 }
}

/// Cursor that round robin keeps after picking column `col` among `n` columns.
pub open spec fn round_robin_next(col: nat, n: nat) -> usize {
    if col + 1 < n { (col + 1) as usize } else { 0 }
}

impl ColumnPeaker {
    /// Round robin, starting at the first column.
    pub fn none() -> (p: ColumnPeaker)
        ensures
            p == (ColumnPeaker::PriorityNone { cursor: 0 }),
    {
        ColumnPeaker::PriorityNone { cursor: 0 }
    }

    /// The widest column first.
    pub fn max() -> (p: ColumnPeaker)
        ensures
            p == ColumnPeaker::PriorityMax,
    {
        ColumnPeaker::PriorityMax
    }

    /// The narrowest column first.
    pub fn min() -> (p: ColumnPeaker)
        ensures
            p == ColumnPeaker::PriorityMin,
    {
        ColumnPeaker::PriorityMin
    }

    /// The column picked for widths `w`, and the peaker's state after the pick.
    pub open spec fn peak_spec(self, w: Seq<usize>) -> (Option<usize>, ColumnPeaker) {
        if w.len() == 0 {
            (None, self)
        } else {
            match self {
                ColumnPeaker::PriorityNone { cursor } => {
                    let col = round_robin_col(cursor, w.len());
                    (Some(col as usize), ColumnPeaker::PriorityNone { cursor: round_robin_next(col, w.len()) })
                },
                ColumnPeaker::PriorityMax => (Some(max_index_upto(w, w.len()) as usize), self),
                ColumnPeaker::PriorityMin => (Some(min_index_upto(w, w.len()) as usize), self),
            }
        }
    }

    /// Picks the column that is to grow by one unit; `None` only when there is no column.
    pub fn peak(&mut self, widths: &Vec<usize>) -> (r: Option<usize>)
        ensures
            (r, *final(self)) == old(self).peak_spec(widths@),
    {
        let n = widths.len();
        if n == 0 {
            return None;
        }
        match *self {
            ColumnPeaker::PriorityNone { cursor } => {
                let col = if cursor < n { cursor } else { 0 };
                let next = if col + 1 < n { col + 1 } else { 0 };
                *self = ColumnPeaker::PriorityNone { cursor: next };
                Some(col)
            },
            ColumnPeaker::PriorityMax => {
                let mut m: usize = 0;
                let mut i: usize = 1;
                while i < n
                    invariant
                        1 <= i <= n,
                        n == widths@.len(),
                        m == max_index_upto(widths@, i as nat),
                        m < i,
                    decreases n - i,
                {
                    if widths[i] > widths[m] {
                        m = i;
                    }
                    i = i + 1;
                }
                Some(m)
            },
            ColumnPeaker::PriorityMin => {
                let mut m: usize = 0;
                let mut i: usize = 1;
                while i < n
                    invariant
                        1 <= i <= n,
                        n == widths@.len(),
                        m == min_index_upto(widths@, i as nat),
                        m < i,
                    decreases n - i,
                {
                    if widths[i] < widths[m] {
                        m = i;
                    }
                    i = i + 1;
                }
                Some(m)
            },
        }
    }
}

/// The picks of `k` calls in a row on widths `w` that do not change in between.
pub open spec fn peaks_of(p: ColumnPeaker, w: Seq<usize>, k: nat) -> Seq<Option<usize>>
    decreases k,
{
    if k == 0 {
        Seq::empty()
    } else {
        seq![p.peak_spec(w).0] + peaks_of(p.peak_spec(w).1, w, (k - 1) as nat)
    }
}

/// A pick is always one of the columns.
pub proof fn lemma_pick_in_range(p: ColumnPeaker, w: Seq<usize>)
    requires
        w.len() <= usize::MAX,
    ensures
        p.peak_spec(w).0 matches Some(i) ==> i < w.len(),
        w.len() >= 1 ==> p.peak_spec(w).0 is Some,
{
    if w.len() >= 1 {
        lemma_max_pick_is_widest(w, w.len());
        lemma_min_pick_is_narrowest(w, w.len());
    }
}

/// The widest-first pick is a widest column, and no column before it is as wide.
pub proof fn lemma_max_pick_is_widest(w: Seq<usize>, k: nat)
    requires
        1 <= k <= w.len(),
    ensures
        max_index_upto(w, k) < k,
        forall|j: int| 0 <= j < k ==> #[trigger] w[j] <= w[max_index_upto(w, k) as int],
        forall|j: int| 0 <= j < max_index_upto(w, k) ==> #[trigger] w[j] < w[max_index_upto(w, k) as int],
    decreases k,
{
    if k > 1 {
        lemma_max_pick_is_widest(w, (k - 1) as nat);
    }
}

/// The narrowest-first pick is a narrowest column, and no column before it is as narrow.
pub proof fn lemma_min_pick_is_narrowest(w: Seq<usize>, k: nat)
    requires
        1 <= k <= w.len(),
    ensures
        min_index_upto(w, k) < k,
        forall|j: int| 0 <= j < k ==> #[trigger] w[j] >= w[min_index_upto(w, k) as int],
        forall|j: int| 0 <= j < min_index_upto(w, k) ==> #[trigger] w[j] > w[min_index_upto(w, k) as int],
    decreases k,
{
    if k > 1 {
        lemma_min_pick_is_narrowest(w, (k - 1) as nat);
    }
}

/// Widest-first and narrowest-first pick the same column whenever the widths are the same,
/// and there is one such column only: the widest (narrowest) with the lowest index.
pub proof fn lemma_extreme_picks_unique(w: Seq<usize>, i: int)
    requires
        0 <= i < w.len(),
    ensures
        (forall|j: int| 0 <= j < w.len() ==> #[trigger] w[j] <= w[i])
            && (forall|j: int| 0 <= j < i ==> #[trigger] w[j] < w[i])
            ==> ColumnPeaker::PriorityMax.peak_spec(w).0 == Some(i as usize),
        (forall|j: int| 0 <= j < w.len() ==> #[trigger] w[j] >= w[i])
            && (forall|j: int| 0 <= j < i ==> #[trigger] w[j] > w[i])
            ==> ColumnPeaker::PriorityMin.peak_spec(w).0 == Some(i as usize),
{
    lemma_max_pick_is_widest(w, w.len());
    lemma_min_pick_is_narrowest(w, w.len());
}

proof fn lemma_round_robin_picks(c: usize, w: Seq<usize>, k: nat, i: int)
    requires
        c < w.len() <= usize::MAX,
        0 <= i < k <= w.len(),
    ensures
        peaks_of(ColumnPeaker::PriorityNone { cursor: c }, w, k)[i]
            == Some((if c + i < w.len() { c + i } else { c + i - w.len() }) as usize),
        peaks_of(ColumnPeaker::PriorityNone { cursor: c }, w, k).len() == k,
    decreases k,
{
    let p = ColumnPeaker::PriorityNone { cursor: c };
    let next = round_robin_next(c as nat, w.len());
    assert(p.peak_spec(w).1 == ColumnPeaker::PriorityNone { cursor: next });
    let rest = peaks_of(ColumnPeaker::PriorityNone { cursor: next }, w, (k - 1) as nat);
    assert(peaks_of(p, w, k) == seq![p.peak_spec(w).0] + rest);
    if k > 1 {
        lemma_round_robin_picks(next, w, (k - 1) as nat, if i > 0 { i - 1 } else { 0 });
    }
    if i > 0 {
        assert(peaks_of(p, w, k)[i] == rest[i - 1]);
    }
}

/// Round robin over `n` calls, `n` being the number of columns, picks every column exactly once.
pub proof fn lemma_round_robin_covers(c: usize, w: Seq<usize>)
    requires
        c < w.len() <= usize::MAX,
    ensures
        peaks_of(ColumnPeaker::PriorityNone { cursor: c }, w, w.len()).len() == w.len(),
        forall|col: usize| col < w.len()
            ==> #[trigger] peaks_of(ColumnPeaker::PriorityNone { cursor: c }, w, w.len()).contains(Some(col)),
        forall|i: int, j: int| 0 <= i < j < w.len()
            ==> #[trigger] peaks_of(ColumnPeaker::PriorityNone { cursor: c }, w, w.len())[i]
                != #[trigger] peaks_of(ColumnPeaker::PriorityNone { cursor: c }, w, w.len())[j],
{
    let n = w.len();
    let s = peaks_of(ColumnPeaker::PriorityNone { cursor: c }, w, n);
    lemma_round_robin_picks(c, w, n, 0);
    assert forall|col: usize| col < n implies #[trigger] s.contains(Some(col)) by {
        let i = if col >= c { col - c } else { col + n - c };
        lemma_round_robin_picks(c, w, n, i);
        assert(s[i] == Some(col));
    }
    assert forall|i: int, j: int| 0 <= i < j < n implies #[trigger] s[i] != #[trigger] s[j] by {
        lemma_round_robin_picks(c, w, n, i);
        lemma_round_robin_picks(c, w, n, j);
    }
}

} // verus!
