//! Height of each row, from the line counts and vertical padding of its cells.
use vstd::prelude::*;
use crate::grid::{GridConfig, Records};
use crate::text::line_count_of;

verus! {

/// Height of the cell at (`r`, `c`): its lines (at least one) plus top and bottom padding.
pub open spec fn cell_height_of(rec: &Records, cfg: &GridConfig, r: int, c: int) -> nat {
    let lines = line_count_of(rec.text(r, c));
    let lines = if lines < 1 { 1 } else { lines };
    (lines + cfg.padding(r, c).top + cfg.padding(r, c).bottom) as nat
}

/// Tallest of the first `k` cells of row `r` (0 when `k` is 0).
pub open spec fn row_height_upto(rec: &Records, cfg: &GridConfig, r: int, k: nat) -> nat
    decreases k,
{
    if k == 0 {
        0
    } else {
        let rest = row_height_upto(rec, cfg, r, (k - 1) as nat);
        let h = cell_height_of(rec, cfg, r, k - 1);
        if h > rest { h } else { rest }
    }
}

/// Height of row `r`: its tallest cell; a row without cells is still one line tall.
pub open spec fn row_height(rec: &Records, cfg: &GridConfig, r: int) -> nat {
    if rec.cols() == 0 { 1 } else { row_height_upto(rec, cfg, r, rec.cols()) }
}

/// Sum of the heights of the first `k` rows.
pub open spec fn heights_total_upto(rec: &Records, cfg: &GridConfig, k: nat) -> nat
    decreases k,
{
    if k == 0 {
        0
    } else {
        heights_total_upto(rec, cfg, (k - 1) as nat) + row_height(rec, cfg, k - 1)
    }
}

/// Sum of all row heights.
pub open spec fn heights_total(rec: &Records, cfg: &GridConfig) -> nat {
    heights_total_upto(rec, cfg, rec.rows())
}

/// Sum of a sequence of sizes.
pub open spec fn sum_of(s: Seq<usize>) -> nat
    decreases s.len(),
{
    if s.len() == 0 {
        0
    } else {
        sum_of(s.drop_last()) + s.last() as nat
    }
}

/// `h` holds, for each row of the grid, that row's height.
pub open spec fn estimated_from(h: Seq<usize>, rec: &Records, cfg: &GridConfig) -> bool {
    &&& h.len() == rec.rows()
    &&& forall|r: int| 0 <= r < h.len() ==> #[trigger] h[r] == row_height(rec, cfg, r)
}

/// Per-row heights of a grid.
#[derive(Debug, Default, Clone, PartialEq, Eq)]
pub struct HeightEstimator {
    heights: Vec<usize>,
}

impl View for HeightEstimator {
    type V = Seq<usize>;

    closed spec fn view(&self) -> Seq<usize> {
        self.heights@
    }
}

proof fn lemma_cell_le_row(rec: &Records, cfg: &GridConfig, r: int, c: int, k: nat)
    requires
        0 <= c < k,
    ensures
        cell_height_of(rec, cfg, r, c) <= row_height_upto(rec, cfg, r, k),
    decreases k,
{
    if c < k - 1 {
        lemma_cell_le_row(rec, cfg, r, c, (k - 1) as nat);
    }
}

/// Height of the cell at (`r`, `c`).
fn cell_height(rec: &Records, cfg: &GridConfig, r: usize, c: usize) -> (h: usize)
    requires
        rec.wf(),
        cfg.fits(rec.rows(), rec.cols()),
        r < rec.rows(),
        c < rec.cols(),
        cell_height_of(rec, cfg, r as int, c as int) <= usize::MAX,
    ensures
        h == cell_height_of(rec, cfg, r as int, c as int),
{
    let lines = rec.count_lines(r, c);
    let lines = if lines < 1 { 1 } else { lines };
    let padding = cfg.get_padding(r, c);
    lines + padding.top + padding.bottom
}

/// Heights of all rows, top to bottom.
fn build_heights(rec: &Records, cfg: &GridConfig) -> (hs: Vec<usize>)
    requires
        rec.wf(),
        cfg.fits(rec.rows(), rec.cols()),
        forall|r: int| 0 <= r < rec.rows() ==> #[trigger] row_height(rec, cfg, r) <= usize::MAX,
    ensures
        estimated_from(hs@, rec, cfg),
{
    let rows = rec.count_rows();
    let cols = rec.count_columns();
    let mut hs: Vec<usize> = Vec::new();
    let mut r: usize = 0;
    while r < rows
        invariant
            rec.wf(),
            cfg.fits(rec.rows(), rec.cols()),
            forall|i: int| 0 <= i < rec.rows() ==> #[trigger] row_height(rec, cfg, i) <= usize::MAX,
            rows == rec.rows(),
            cols == rec.cols(),
            r <= rows,
            hs@.len() == r,
            forall|i: int| 0 <= i < r ==> #[trigger] hs@[i] == row_height(rec, cfg, i),
        decreases rows - r,
    {
        assert(row_height(rec, cfg, r as int) <= usize::MAX);
        let mut best: usize = 0;
        let mut c: usize = 0;
        while c < cols
            invariant
                rec.wf(),
                cfg.fits(rec.rows(), rec.cols()),
                rows == rec.rows(),
                cols == rec.cols(),
                r < rows,
                c <= cols,
                row_height(rec, cfg, r as int) <= usize::MAX,
                best == row_height_upto(rec, cfg, r as int, c as nat),
            decreases cols - c,
        {
            proof {
                lemma_cell_le_row(rec, cfg, r as int, c as int, cols as nat);
            }
            let h = cell_height(rec, cfg, r, c);
            if h > best {
                best = h;
            }
            c = c + 1;
        }
        if cols == 0 {
            best = 1;
        }
        hs.push(best);
        r = r + 1;
    }
    hs
}

impl HeightEstimator {
    /// An estimator that holds no row yet.
    pub fn new() -> (e: HeightEstimator)
        ensures
            e@.len() == 0,
    {
        HeightEstimator { heights: Vec::new() }
    }

    /// Measures every row of the grid, replacing whatever was held before.
    pub fn estimate(&mut self, rec: &Records, cfg: &GridConfig)
        requires
            rec.wf(),
            cfg.fits(rec.rows(), rec.cols()),
            forall|r: int| 0 <= r < rec.rows() ==> #[trigger] row_height(rec, cfg, r) <= usize::MAX,
        ensures
            estimated_from(final(self)@, rec, cfg),
    {
        self.heights = build_heights(rec, cfg);
    }

    /// Height of row `row`, or `None` past the last row.
    pub fn get(&self, row: usize) -> (h: Option<usize>)
        ensures
            row < self@.len() ==> h == Some(self@[row as int]),
            row >= self@.len() ==> h is None,
    {
        if row < self.heights.len() {
            Some(self.heights[row])
        } else {
            None
        }
    }

    /// Sum of the heights of all rows.
    pub fn total(&self) -> (t: usize)
        requires
            sum_of(self@) <= usize::MAX,
        ensures
            t == sum_of(self@),
    {
        let mut t: usize = 0;
        let mut i: usize = 0;
        while i < self.heights.len()
            invariant
                i <= self.heights@.len(),
                sum_of(self.heights@) <= usize::MAX,
                t == sum_of(self.heights@.take(i as int)),
            decreases self.heights@.len() - i,
        {
            proof {
                assert(self.heights@.take(i + 1).drop_last() =~= self.heights@.take(i as int));
                lemma_sum_prefix(self.heights@, i + 1);
            }
            t = t + self.heights[i];
            i = i + 1;
        }
        proof {
            assert(self.heights@.take(i as int) =~= self.heights@);
        }
        t
    }
}

impl From<Vec<usize>> for HeightEstimator {
    fn from(heights: Vec<usize>) -> (e: HeightEstimator)
        ensures
            e@ == heights@,
    {
        HeightEstimator { heights }
    }
}

impl vstd::std_specs::convert::FromSpecImpl<Vec<usize>> for HeightEstimator {
    open spec fn obeys_from_spec() -> bool {
        false
    }

    open spec fn from_spec(v: Vec<usize>) -> HeightEstimator {
        arbitrary()
    }
}

/// The sum of a prefix never exceeds the sum of the whole sequence.
pub proof fn lemma_sum_prefix(s: Seq<usize>, k: int)
    requires
        0 <= k <= s.len(),
    ensures
        sum_of(s.take(k)) <= sum_of(s),
    decreases s.len() - k,
{
    if k < s.len() {
        lemma_sum_prefix(s, k + 1);
        assert(s.take(k + 1).drop_last() =~= s.take(k));
    } else {
        assert(s.take(k) =~= s);
    }
}

/// Every row of every grid is at least one line tall.
pub proof fn lemma_rows_at_least_one(h: Seq<usize>, rec: &Records, cfg: &GridConfig)
    requires
        estimated_from(h, rec, cfg),
    ensures
        forall|r: int| 0 <= r < h.len() ==> #[trigger] h[r] >= 1,
{
    assert forall|r: int| 0 <= r < h.len() implies #[trigger] h[r] >= 1 by {
        if rec.cols() > 0 {
            lemma_cell_le_row(rec, cfg, r, 0, rec.cols());
        }
    }
}

/// The sum of the estimated heights is the grid's total height.
pub proof fn lemma_total_is_sum(h: Seq<usize>, rec: &Records, cfg: &GridConfig)
    requires
        estimated_from(h, rec, cfg),
    ensures
        sum_of(h) == heights_total(rec, cfg),
{
    lemma_total_is_sum_upto(h, rec, cfg, h.len());
    assert(h.take(h.len() as int) =~= h);
}

proof fn lemma_total_is_sum_upto(h: Seq<usize>, rec: &Records, cfg: &GridConfig, k: nat)
    requires
        estimated_from(h, rec, cfg),
        k <= h.len(),
    ensures
        sum_of(h.take(k as int)) == heights_total_upto(rec, cfg, k),
    decreases k,
{
    if k > 0 {
        lemma_total_is_sum_upto(h, rec, cfg, (k - 1) as nat);
        assert(h.take(k as int).drop_last() =~= h.take(k - 1));
    }
}

/// Estimating the same grid twice gives the same heights.
pub proof fn lemma_estimate_deterministic(a: Seq<usize>, b: Seq<usize>, rec: &Records, cfg: &GridConfig)
    requires
        estimated_from(a, rec, cfg),
        estimated_from(b, rec, cfg),
    ensures
        a == b,
{
    assert(a =~= b);
}

} // verus!
