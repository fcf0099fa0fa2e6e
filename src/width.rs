//! Width of each column, from the rendered width and horizontal padding of its cells.
use vstd::prelude::*;
use crate::grid::{GridConfig, Records};
use crate::height::sum_of;
use crate::text::text_width_of;

verus! {

/// Width that the cell at (`r`, `c`) asks for: its widest line plus left and right padding.
pub open spec fn cell_width_of(rec: &Records, cfg: &GridConfig, r: int, c: int) -> nat {
    (text_width_of(rec.text(r, c)) + cfg.padding(r, c).left + cfg.padding(r, c).right) as nat
}

/// What row `r` asks of column `c`, scanning the row from column `col` on: a cell that starts
/// at `c` asks for its width; a column inside another cell's span asks for nothing.
pub open spec fn row_contrib(rec: &Records, cfg: &GridConfig, r: int, col: nat, c: int) -> nat
    decreases rec.cols() - col,
{
    if col >= rec.cols() || c < col {
        0
    } else if c == col {
        cell_width_of(rec, cfg, r, c)
    } else {
        let s = cfg.span(r, col as int, rec.cols() as int);
        if s >= 1 {
            row_contrib(rec, cfg, r, (col + s) as nat, c)
        } else {
            0
        }
    }
}

/// Widest that column `c` must be for the first `k` rows.
pub open spec fn col_width_upto(rec: &Records, cfg: &GridConfig, c: int, k: nat) -> nat
    decreases k,
{
    if k == 0 {
        0
    } else {
        let rest = col_width_upto(rec, cfg, c, (k - 1) as nat);
        let w = row_contrib(rec, cfg, (k - 1) as int, 0, c);
        if w > rest { w } else { rest }
    }
}

/// Width of column `c`.
pub open spec fn col_width(rec: &Records, cfg: &GridConfig, c: int) -> nat {
    col_width_upto(rec, cfg, c, rec.rows())
}

/// Sum of the widths of the first `k` columns.
pub open spec fn col_widths_sum(rec: &Records, cfg: &GridConfig, k: nat) -> nat
    decreases k,
{
    if k == 0 {
        0
    } else {
        col_widths_sum(rec, cfg, (k - 1) as nat) + col_width(rec, cfg, k - 1)
    }
}

/// Number of shown borders among `v[lo..hi]`.
pub open spec fn border_count(v: Seq<bool>, lo: int, hi: int) -> nat
    decreases hi - lo,
{
    if hi <= lo {
        0
    } else {
        border_count(v, lo, hi - 1) + if v[hi - 1] { 1nat } else { 0nat }
    }
}

/// Borders that render across a whole grid of `n` columns.
pub open spec fn all_borders(cfg: &GridConfig, n: nat) -> nat {
    border_count(cfg.verticals@, 0, n as int + 1)
}

/// Borders swallowed by a cell covering columns `from..to`: those strictly inside it.
pub open spec fn inner_borders(cfg: &GridConfig, from: int, to: int) -> nat {
    border_count(cfg.verticals@, from + 1, to)
}

/// Rendered width of the whole grid: its columns and the borders that render.
pub open spec fn grand_total(rec: &Records, cfg: &GridConfig) -> nat {
    col_widths_sum(rec, cfg, rec.cols()) + all_borders(cfg, rec.cols())
}

/// Sum of `w[lo..hi]`.
pub open spec fn range_sum(w: Seq<usize>, lo: int, hi: int) -> nat
    decreases hi - lo,
{
    if hi <= lo {
        0
    } else {
        range_sum(w, lo, hi - 1) + w[hi - 1] as nat
    }
}

/// `w` holds the width of every column of the grid.
pub open spec fn widths_of(w: Seq<usize>, rec: &Records, cfg: &GridConfig) -> bool {
    &&& w.len() == rec.cols()
    &&& forall|c: int| 0 <= c < w.len() ==> #[trigger] w[c] == col_width(rec, cfg, c)
}

proof fn lemma_contrib_le_col(rec: &Records, cfg: &GridConfig, r: int, c: int, k: nat)
    requires
        0 <= r < k,
    ensures
        row_contrib(rec, cfg, r, 0, c) <= col_width_upto(rec, cfg, c, k),
    decreases k,
{
    if r < k - 1 {
        lemma_contrib_le_col(rec, cfg, r, c, (k - 1) as nat);
    }
}

pub proof fn lemma_col_le_sum(rec: &Records, cfg: &GridConfig, c: int, k: nat)
    requires
        0 <= c < k,
    ensures
        col_width(rec, cfg, c) <= col_widths_sum(rec, cfg, k),
    decreases k,
{
    if c < k - 1 {
        lemma_col_le_sum(rec, cfg, c, (k - 1) as nat);
    }
}

proof fn lemma_sum_prefix_le(rec: &Records, cfg: &GridConfig, k: nat, n: nat)
    requires
        k <= n,
    ensures
        col_widths_sum(rec, cfg, k) <= col_widths_sum(rec, cfg, n),
    decreases n,
{
    if k < n {
        lemma_sum_prefix_le(rec, cfg, k, (n - 1) as nat);
    }
}

/// Borders of a sub-range are never more than those of a range around it.
pub proof fn lemma_border_count_mono(v: Seq<bool>, lo: int, hi: int, lo2: int, hi2: int)
    requires
        lo2 <= lo,
        hi <= hi2,
    ensures
        border_count(v, lo, hi) <= border_count(v, lo2, hi2),
    decreases hi2 - lo2,
{
    if lo >= hi {
    } else if hi < hi2 {
        lemma_border_count_mono(v, lo, hi, lo2, hi2 - 1);
    } else {
        lemma_border_count_split(v, lo2, lo, hi);
    }
}

/// Counting borders over `lo..hi` is counting over `lo..mid` and over `mid..hi`.
pub proof fn lemma_border_count_split(v: Seq<bool>, lo: int, mid: int, hi: int)
    requires
        lo <= mid <= hi,
    ensures
        border_count(v, lo, hi) == border_count(v, lo, mid) + border_count(v, mid, hi),
    decreases hi - mid,
{
    if mid < hi {
        lemma_border_count_split(v, lo, mid, hi - 1);
    }
}

/// Summing over `lo..hi` is summing over `lo..mid` and over `mid..hi`.
pub proof fn lemma_range_sum_split(w: Seq<usize>, lo: int, mid: int, hi: int)
    requires
        lo <= mid <= hi,
    ensures
        range_sum(w, lo, hi) == range_sum(w, lo, mid) + range_sum(w, mid, hi),
    decreases hi - mid,
{
    if mid < hi {
        lemma_range_sum_split(w, lo, mid, hi - 1);
    }
}

/// The sum over a prefix of `w` is the sum of that prefix.
pub proof fn lemma_range_sum_prefix(w: Seq<usize>, k: int)
    requires
        0 <= k <= w.len(),
    ensures
        range_sum(w, 0, k) == sum_of(w.take(k)),
    decreases k,
{
    if k > 0 {
        lemma_range_sum_prefix(w, k - 1);
        assert(w.take(k).drop_last() =~= w.take(k - 1));
    }
}

/// Column widths in order sum to the columns' total.
pub proof fn lemma_widths_sum(w: Seq<usize>, rec: &Records, cfg: &GridConfig, k: nat)
    requires
        widths_of(w, rec, cfg),
        k <= w.len(),
    ensures
        sum_of(w.take(k as int)) == col_widths_sum(rec, cfg, k),
    decreases k,
{
    if k > 0 {
        lemma_widths_sum(w, rec, cfg, (k - 1) as nat);
        assert(w.take(k as int).drop_last() =~= w.take(k - 1));
    }
}

/// Number of borders that render strictly between columns `from` and `to`.
pub fn count_borders(cfg: &GridConfig, from: usize, to: usize, count_columns: usize) -> (n: usize)
    requires
        cfg.verticals@.len() == count_columns + 1,
        from <= to <= count_columns,
    ensures
        n == inner_borders(cfg, from as int, to as int),
{
    if from >= to {
        return 0;
    }
    let mut n: usize = 0;
    let mut i: usize = from + 1;
    while i < to
        invariant
            from + 1 <= i <= to,
            to <= count_columns,
            cfg.verticals@.len() == count_columns + 1,
            n == border_count(cfg.verticals@, from + 1, i as int),
            n <= i,
        decreases to - i,
    {
        if cfg.has_vertical(i) {
            n = n + 1;
        }
        i = i + 1;
    }
    n
}

/// Number of borders that render across a grid of `count_columns` columns.
pub fn count_all_borders(cfg: &GridConfig, count_columns: usize) -> (n: usize)
    requires
        cfg.verticals@.len() == count_columns + 1,
    ensures
        n == all_borders(cfg, count_columns as nat),
{
    let mut n: usize = 0;
    let mut i: usize = 0;
    while i < cfg.verticals.len()
        invariant
            i <= cfg.verticals@.len(),
            cfg.verticals@.len() == count_columns + 1,
            n == border_count(cfg.verticals@, 0, i as int),
            n <= i,
        decreases cfg.verticals@.len() - i,
    {
        if cfg.has_vertical(i) {
            n = n + 1;
        }
        i = i + 1;
    }
    n
}

/// Widths of all columns and the grid's rendered width, or `None` when that width does not
/// fit in a `usize`.
pub fn widths_and_total(rec: &Records, cfg: &GridConfig) -> (res: Option<(Vec<usize>, usize)>)
    requires
        rec.wf(),
        cfg.fits(rec.rows(), rec.cols()),
    ensures
        res is None <==> grand_total(rec, cfg) > usize::MAX,
        res matches Some((w, t)) ==> {
            &&& widths_of(w@, rec, cfg)
            &&& t == grand_total(rec, cfg)
            &&& sum_of(w@) == col_widths_sum(rec, cfg, rec.cols())
        },
{
    let rows = rec.count_rows();
    let n = rec.count_columns();
    let mut widths: Vec<usize> = Vec::new();
    let mut c: usize = 0;
    while c < n
        invariant
            c <= n,
            widths@.len() == c,
            forall|j: int| 0 <= j < c ==> #[trigger] widths@[j] == 0,
        decreases n - c,
    {
        widths.push(0);
        c = c + 1;
    }
    let mut r: usize = 0;
    while r < rows
        invariant
            rec.wf(),
            cfg.fits(rec.rows(), rec.cols()),
            rows == rec.rows(),
            n == rec.cols(),
            r <= rows,
            widths@.len() == n,
            forall|j: int| 0 <= j < n ==> #[trigger] widths@[j] == col_width_upto(rec, cfg, j, r as nat),
        decreases rows - r,
    {
        let mut col: usize = 0;
        while col < n
            invariant
                rec.wf(),
                cfg.fits(rec.rows(), rec.cols()),
                rows == rec.rows(),
                n == rec.cols(),
                r < rows,
                col <= n,
                widths@.len() == n,
                forall|j: int| 0 <= j < col ==> #[trigger] widths@[j] == col_width_upto(rec, cfg, j, (r + 1) as nat),
                forall|j: int| col <= j < n ==> #[trigger] widths@[j] == col_width_upto(rec, cfg, j, r as nat),
                forall|j: int| col <= j < n ==> #[trigger] row_contrib(rec, cfg, r as int, 0, j) == row_contrib(rec, cfg, r as int, col as nat, j),
            decreases n - col,
        {
            let s = cfg.get_column_span(r, col, n);
            let text_w = rec.get_width(r, col);
            let p = cfg.get_padding(r, col);
            proof {
                lemma_contrib_le_col(rec, cfg, r as int, col as int, rows as nat);
                lemma_col_le_sum(rec, cfg, col as int, n as nat);
                assert(row_contrib(rec, cfg, r as int, col as nat, col as int) == cell_width_of(rec, cfg, r as int, col as int));
            }
            if p.left > usize::MAX - text_w || p.right > usize::MAX - text_w - p.left {
                return None;
            }
            let cw = text_w + p.left + p.right;
            proof {
                assert forall|j: int| col + s <= j < n implies #[trigger] row_contrib(rec, cfg, r as int, 0, j)
                    == row_contrib(rec, cfg, r as int, (col + s) as nat, j) by {
                    assert(row_contrib(rec, cfg, r as int, col as nat, j) == row_contrib(rec, cfg, r as int, (col + s) as nat, j));
                }
                assert forall|j: int| col < j < col + s implies #[trigger] row_contrib(rec, cfg, r as int, 0, j) == 0 by {
                    assert(row_contrib(rec, cfg, r as int, col as nat, j) == row_contrib(rec, cfg, r as int, (col + s) as nat, j));
                }
            }
            if cw > widths[col] {
                widths.set(col, cw);
            }
            col = col + s;
        }
        r = r + 1;
    }
    let borders = count_all_borders(cfg, n);
    let mut total: usize = 0;
    let mut k: usize = 0;
    while k < n
        invariant
            rec.wf(),
            rows == rec.rows(),
            n == rec.cols(),
            k <= n,
            widths_of(widths@, rec, cfg),
            total == col_widths_sum(rec, cfg, k as nat),
        decreases n - k,
    {
        if widths[k] > usize::MAX - total {
            proof {
                lemma_sum_prefix_le(rec, cfg, (k + 1) as nat, n as nat);
            }
            return None;
        }
        total = total + widths[k];
        k = k + 1;
    }
    if borders > usize::MAX - total {
        return None;
    }
    proof {
        lemma_widths_sum(widths@, rec, cfg, n as nat);
        assert(widths@.take(n as int) =~= widths@);
    }
    Some((widths, total + borders))
}

} // verus!
