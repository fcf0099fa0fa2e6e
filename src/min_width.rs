//! Growing a grid to a minimum width: cells are padded up to a width, one by one or by
//! spreading extra width over the columns.
use vstd::prelude::*;
use crate::grid::{Entity, GridConfig, Records, Table};
use crate::height::sum_of;
use crate::peaker::{
    lemma_extreme_picks_unique, lemma_max_pick_is_widest, lemma_min_pick_is_narrowest,
    lemma_pick_in_range, max_index_upto, min_index_upto,
    ColumnPeaker,
};
use crate::text::{increase_width, text_width_of, widen_text};
use crate::width::{
    all_borders, col_width, count_borders, grand_total, inner_borders, lemma_border_count_mono,
    lemma_col_le_sum, lemma_range_sum_prefix, lemma_range_sum_split, lemma_widths_sum, range_sum,
    widths_and_total, widths_of,
};

verus! {

/// Widths `w` after `steps` units of growth, each given to the column that `p` picks;
/// growth stops early when `p` picks nothing.
pub open spec fn grow(w: Seq<usize>, p: ColumnPeaker, steps: nat) -> Seq<usize>
    decreases steps,
{
    if steps == 0 {
        w
    } else {
        match p.peak_spec(w).0 {
            None => w,
            Some(i) => grow(w.update(i as int, (w[i as int] + 1) as usize), p.peak_spec(w).1, (steps - 1) as nat),
        }
    }
}

/// Width left for the content of the cell at (`r`, `col`) when the columns have widths `w`:
/// the columns it spans and the borders inside the span, less its own left and right padding,
/// and never below 0.
pub open spec fn content_width(rec: &Records, cfg: &GridConfig, w: Seq<usize>, r: int, col: int) -> usize {
    let s = cfg.span(r, col, rec.cols() as int);
    let span_width = range_sum(w, col, col + s) + inner_borders(cfg, col, col + s);
    let pad = cfg.padding(r, col).left + cfg.padding(r, col).right;
    (if span_width > pad { span_width - pad } else { 0 }) as usize
}

/// Content width planned for column `c` of row `r`, scanning the row from `col` on: a cell
/// that starts at `c` gets its content width; a column inside another cell's span gets none.
pub open spec fn plan_from(rec: &Records, cfg: &GridConfig, w: Seq<usize>, r: int, col: nat, c: int) -> Option<usize>
    decreases rec.cols() - col,
{
    if col >= rec.cols() || c < col {
        None
    } else if c == col {
        Some(content_width(rec, cfg, w, r, c))
    } else {
        let s = cfg.span(r, col as int, rec.cols() as int);
        if s >= 1 {
            plan_from(rec, cfg, w, r, (col + s) as nat, c)
        } else {
            None
        }
    }
}

/// Content width planned for the cell at (`r`, `c`) when the columns have widths `w`.
pub open spec fn planned(rec: &Records, cfg: &GridConfig, w: Seq<usize>, r: int, c: int) -> Option<usize> {
    plan_from(rec, cfg, w, r, 0, c)
}

/// Text `t` padded to rendered width `width` unless it is at least that wide already.
pub open spec fn widened(t: Seq<char>, width: usize, fill: char) -> Seq<char> {
    if text_width_of(t) < width {
        widen_text(t, width as nat, fill)
    } else {
        t
    }
}

/// Text that the cell at (`r`, `c`) gets from a plan of content widths.
pub open spec fn planned_text(rec: &Records, cfg: &GridConfig, w: Seq<usize>, r: int, c: int, fill: char) -> Seq<char> {
    match planned(rec, cfg, w, r, c) {
        Some(t) => widened(rec.text(r, c), t, fill),
        None => rec.text(r, c),
    }
}

/// The columns' widths as the grid stands.
pub open spec fn start_widths(rec: &Records, cfg: &GridConfig) -> Seq<usize> {
    Seq::new(rec.cols(), |c: int| col_width(rec, cfg, c) as usize)
}

/// Column widths that growing the grid to `width` aims at.
pub open spec fn target_widths(rec: &Records, cfg: &GridConfig, p: ColumnPeaker, width: usize) -> Seq<usize> {
    grow(start_widths(rec, cfg), p, (width - grand_total(rec, cfg)) as nat)
}

/// Text of the cell at (`r`, `c`) once the grid is grown to at least `width` with `fill`.
pub open spec fn grown_text(rec: &Records, cfg: &GridConfig, p: ColumnPeaker, width: usize, fill: char, r: int, c: int) -> Seq<char> {
    if rec.rows() == 0 || rec.cols() == 0 || grand_total(rec, cfg) >= width {
        rec.text(r, c)
    } else {
        planned_text(rec, cfg, target_widths(rec, cfg, p, width), r, c, fill)
    }
}

/// Pads cell contents so that they reach a minimum width; applied to a whole table it spreads
/// the missing width over the columns in the order that its peaker picks them.
#[derive(Debug, Clone, Copy)]
pub struct MinWidth {
    width: usize,
    fill: char,
    priority: ColumnPeaker,
}

impl MinWidth {
    pub closed spec fn width_spec(&self) -> usize {
        self.width
    }

    pub closed spec fn fill_spec(&self) -> char {
        self.fill
    }

    pub closed spec fn priority_spec(&self) -> ColumnPeaker {
        self.priority
    }

    /// A minimum width of `width`, filled with spaces, growing columns in round robin.
    pub fn new(width: usize) -> (m: MinWidth)
        ensures
            m.width_spec() == width,
            m.fill_spec() == ' ',
            m.priority_spec() == (ColumnPeaker::PriorityNone { cursor: 0 }),
    {
        MinWidth { width, fill: ' ', priority: ColumnPeaker::PriorityNone { cursor: 0 } }
    }

    /// Uses `c` to fill the space added to a line; an escape character cannot fill, as it
    /// would open no complete style sequence.
    pub fn fill_with(self, c: char) -> (m: MinWidth)
        requires
            c != '\x1b',
        ensures
            m.width_spec() == self.width_spec(),
            m.fill_spec() == c,
            m.priority_spec() == self.priority_spec(),
    {
        MinWidth { fill: c, ..self }
    }

    /// Uses `p` to pick the columns that grow when a whole table is widened.
    pub fn priority(self, p: ColumnPeaker) -> (m: MinWidth)
        ensures
            m.width_spec() == self.width_spec(),
            m.fill_spec() == self.fill_spec(),
            m.priority_spec() == p,
    {
        MinWidth { priority: p, ..self }
    }

    /// Pads every cell of `entity` whose text is narrower than the minimum width.
    pub fn change_cell(&self, table: &mut Table, entity: Entity)
        requires
            old(table).wf(),
            self.fill_spec() != '\x1b',
        ensures
            final(table).wf(),
            final(table).config == old(table).config,
            final(table).records.count_columns == old(table).records.count_columns,
            final(table).records.rows() == old(table).records.rows(),
            forall|r: int, c: int| 0 <= r < old(table).records.rows() && 0 <= c < old(table).records.cols()
                ==> #[trigger] final(table).records.text(r, c) == if entity.covers(r, c) {
                    widened(old(table).records.text(r, c), self.width_spec(), self.fill_spec())
                } else {
                    old(table).records.text(r, c)
                },
    {
        let (rows, cols) = table.shape();
        let ghost start = table.records;
        let mut r: usize = 0;
        while r < rows
            invariant
                table.wf(),
                table.config == old(table).config,
                start == old(table).records,
            self.fill != '\x1b',
                rows == start.rows(),
                cols == start.cols(),
                table.records.count_columns == start.count_columns,
                table.records.rows() == start.rows(),
                r <= rows,
                forall|i: int, j: int| 0 <= i < rows && 0 <= j < cols
                    ==> #[trigger] table.records.text(i, j) == if i < r && entity.covers(i, j) {
                        widened(start.text(i, j), self.width, self.fill)
                    } else {
                        start.text(i, j)
                    },
            decreases rows - r,
        {
            let mut c: usize = 0;
            while c < cols
                invariant
                    table.wf(),
                    table.config == old(table).config,
                    start == old(table).records,
            self.fill != '\x1b',
                    rows == start.rows(),
                    cols == start.cols(),
                    table.records.count_columns == start.count_columns,
                    table.records.rows() == start.rows(),
                    r < rows,
                    c <= cols,
                    forall|i: int, j: int| 0 <= i < rows && 0 <= j < cols
                        ==> #[trigger] table.records.text(i, j) == if (i < r || (i == r && j < c)) && entity.covers(i, j) {
                            widened(start.text(i, j), self.width, self.fill)
                        } else {
                            start.text(i, j)
                        },
                decreases cols - c,
            {
                let covered = match entity {
                    Entity::Global => true,
                    Entity::Column(ec) => ec == c,
                    Entity::Row(er) => er == r,
                    Entity::Cell(er, ec) => er == r && ec == c,
                };
                if covered {
                    widen_cell(table, r, c, self.width, self.fill);
                }
                c = c + 1;
            }
            r = r + 1;
        }
    }

    /// Grows the whole table until its rendered width reaches the minimum width: extra width
    /// goes to the columns one unit at a time, then cells are padded to their new widths.
    /// A table that is empty or already wide enough is left as it is; so is one whose
    /// rendered width does not even fit in a `usize`, as no requested width exceeds it.
    pub fn change(&self, table: &mut Table)
        requires
            old(table).wf(),
            self.fill_spec() != '\x1b',
        ensures
            final(table).wf(),
            final(table).config == old(table).config,
            final(table).records.count_columns == old(table).records.count_columns,
            final(table).records.rows() == old(table).records.rows(),
            forall|r: int, c: int| 0 <= r < old(table).records.rows() && 0 <= c < old(table).records.cols()
                ==> #[trigger] final(table).records.text(r, c) == grown_text(
                    &old(table).records, &old(table).config, self.priority_spec(), self.width_spec(), self.fill_spec(), r, c),
    {
        if table.is_empty() {
            return;
        }
        let width = self.width;
        match widths_and_total(&table.records, &table.config) {
            None => {},
            Some((widths, total_width)) => {
                if total_width >= width {
                    return;
                }
                proof {
                    assert(widths@ =~= start_widths(&table.records, &table.config));
                }
                increase_total_width(table, widths, total_width, width, self.priority, self.fill);
            },
        }
    }
}

/// Pads the cell at (`r`, `c`) to rendered width `width` unless it is that wide already.
fn widen_cell(table: &mut Table, r: usize, c: usize, width: usize, fill: char)
    requires
        old(table).wf(),
        fill != '\x1b',
        r < old(table).records.rows(),
        c < old(table).records.cols(),
    ensures
        final(table).wf(),
        final(table).config == old(table).config,
        final(table).records.count_columns == old(table).records.count_columns,
        final(table).records.rows() == old(table).records.rows(),
        final(table).records.text(r as int, c as int) == widened(old(table).records.text(r as int, c as int), width, fill),
        forall|i: int, j: int|
            0 <= i < old(table).records.rows() && 0 <= j < old(table).records.cols() && !(i == r && j == c)
                ==> #[trigger] final(table).records.text(i, j) == old(table).records.text(i, j),
{
    let cell_width = table.records.get_width(r, c);
    if cell_width >= width {
        return;
    }
    let content = increase_width(table.records.get_text(r, c), width, fill);
    table.records.set(r, c, content);
}

/// Grows the columns from `widths` (rendering `total_width` in all) to `expected_width` and
/// pads every cell to the content width that the new column widths leave it.
pub fn increase_total_width(
    table: &mut Table,
    widths: Vec<usize>,
    total_width: usize,
    expected_width: usize,
    priority: ColumnPeaker,
    fill: char,
)
    requires
        old(table).wf(),
        fill != '\x1b',
        widths@.len() == old(table).records.cols(),
        total_width <= expected_width,
        sum_of(widths@) + all_borders(&old(table).config, old(table).records.cols()) == total_width,
    ensures
        final(table).wf(),
        final(table).config == old(table).config,
        final(table).records.count_columns == old(table).records.count_columns,
        final(table).records.rows() == old(table).records.rows(),
        forall|r: int, c: int| 0 <= r < old(table).records.rows() && 0 <= c < old(table).records.cols()
            ==> #[trigger] final(table).records.text(r, c) == planned_text(
                &old(table).records, &old(table).config,
                grow(widths@, priority, (expected_width - total_width) as nat), r, c, fill),
{
    let ghost w = grow(widths@, priority, (expected_width - total_width) as nat);
    let ghost start = table.records;
    let plan = get_increase_total_width_list(&table.records, &table.config, widths, expected_width, total_width, priority);
    let (rows, cols) = table.shape();
    let mut r: usize = 0;
    while r < rows
        invariant
            table.wf(),
            table.config == old(table).config,
            start == old(table).records,
            fill != '\x1b',
            rows == start.rows(),
            cols == start.cols(),
            table.records.count_columns == start.count_columns,
            table.records.rows() == start.rows(),
            r <= rows,
            plan@.len() == rows,
            forall|i: int| 0 <= i < rows ==> #[trigger] plan@[i]@.len() == cols,
            forall|i: int, j: int| 0 <= i < rows && 0 <= j < cols
                ==> #[trigger] plan@[i]@[j] == planned(&start, &table.config, w, i, j),
            forall|i: int, j: int| 0 <= i < rows && 0 <= j < cols
                ==> #[trigger] table.records.text(i, j) == if i < r {
                    planned_text(&start, &table.config, w, i, j, fill)
                } else {
                    start.text(i, j)
                },
        decreases rows - r,
    {
        let mut c: usize = 0;
        while c < cols
            invariant
                table.wf(),
                table.config == old(table).config,
                start == old(table).records,
            fill != '\x1b',
                rows == start.rows(),
                cols == start.cols(),
                table.records.count_columns == start.count_columns,
                table.records.rows() == start.rows(),
                r < rows,
                c <= cols,
                plan@.len() == rows,
                forall|i: int| 0 <= i < rows ==> #[trigger] plan@[i]@.len() == cols,
                forall|i: int, j: int| 0 <= i < rows && 0 <= j < cols
                    ==> #[trigger] plan@[i]@[j] == planned(&start, &table.config, w, i, j),
                forall|i: int, j: int| 0 <= i < rows && 0 <= j < cols
                    ==> #[trigger] table.records.text(i, j) == if i < r || (i == r && j < c) {
                        planned_text(&start, &table.config, w, i, j, fill)
                    } else {
                        start.text(i, j)
                    },
            decreases cols - c,
        {
            match plan[r][c] {
                Some(content) => {
                    widen_cell(table, r, c, content, fill);
                },
                None => {},
            }
            c = c + 1;
        }
        r = r + 1;
    }
}

/// An item never exceeds the sum of its sequence.
proof fn lemma_item_le_sum(s: Seq<usize>, i: int)
    requires
        0 <= i < s.len(),
    ensures
        s[i] <= sum_of(s),
    decreases s.len(),
{
    if i < s.len() - 1 {
        lemma_item_le_sum(s.drop_last(), i);
    }
}

/// Replacing one item changes the sum by the difference.
proof fn lemma_sum_update(s: Seq<usize>, i: int, v: usize)
    requires
        0 <= i < s.len(),
    ensures
        sum_of(s.update(i, v)) + s[i] == sum_of(s) + v,
    decreases s.len(),
{
    if i == s.len() - 1 {
        assert(s.update(i, v).drop_last() =~= s.drop_last());
    } else {
        lemma_sum_update(s.drop_last(), i, v);
        assert(s.update(i, v).drop_last() =~= s.drop_last().update(i, v));
    }
}

/// Grows the columns from `widths` (rendering `total_width` in all) to `expected_width`, one
/// unit at a time as `peaker` picks them, and plans the content width of each cell that
/// starts a span.
pub fn get_increase_total_width_list(
    rec: &Records,
    cfg: &GridConfig,
    widths: Vec<usize>,
    expected_width: usize,
    total_width: usize,
    peaker: ColumnPeaker,
) -> (plan: Vec<Vec<Option<usize>>>)
    requires
        rec.wf(),
        cfg.fits(rec.rows(), rec.cols()),
        widths@.len() == rec.cols(),
        total_width <= expected_width,
        sum_of(widths@) + all_borders(cfg, rec.cols()) == total_width,
    ensures
        plan@.len() == rec.rows(),
        forall|r: int| 0 <= r < rec.rows() ==> #[trigger] plan@[r]@.len() == rec.cols(),
        forall|r: int, c: int| 0 <= r < rec.rows() && 0 <= c < rec.cols()
            ==> #[trigger] plan@[r]@[c] == planned(rec, cfg,
                grow(widths@, peaker, (expected_width - total_width) as nat), r, c),
{
    let ghost target = grow(widths@, peaker, (expected_width - total_width) as nat);
    let ghost borders = all_borders(cfg, rec.cols());
    let mut widths = widths;
    let mut peaker = peaker;
    let mut width = total_width;
    let mut exhausted = false;
    while width != expected_width && !exhausted
        invariant
            total_width <= width <= expected_width,
            widths@.len() == rec.cols(),
            sum_of(widths@) + borders == width,
            exhausted ==> widths@.len() == 0,
            grow(widths@, peaker, (expected_width - width) as nat) == target,
        decreases expected_width - width, if exhausted { 0int } else { 1int },
    {
        proof {
            lemma_pick_in_range(peaker, widths@);
        }
        match peaker.peak(&widths) {
            Some(col) => {
                proof {
                    lemma_item_le_sum(widths@, col as int);
                    lemma_sum_update(widths@, col as int, (widths@[col as int] + 1) as usize);
                }
                let grown = widths[col] + 1;
                widths.set(col, grown);
                width = width + 1;
            },
            None => {
                exhausted = true;
            },
        }
    }
    let rows = rec.count_rows();
    let n = rec.count_columns();
    proof {
        lemma_range_sum_prefix(widths@, n as int);
        assert(widths@.take(n as int) =~= widths@);
    }
    let mut plan: Vec<Vec<Option<usize>>> = Vec::new();
    let mut r: usize = 0;
    while r < rows
        invariant
            rec.wf(),
            cfg.fits(rec.rows(), rec.cols()),
            rows == rec.rows(),
            n == rec.cols(),
            widths@ == target,
            widths@.len() == n,
            range_sum(widths@, 0, n as int) + borders <= usize::MAX,
            borders == all_borders(cfg, rec.cols()),
            r <= rows,
            plan@.len() == r,
            forall|i: int| 0 <= i < r ==> #[trigger] plan@[i]@.len() == n,
            forall|i: int, j: int| 0 <= i < r && 0 <= j < n ==> #[trigger] plan@[i]@[j] == planned(rec, cfg, target, i, j),
        decreases rows - r,
    {
        let mut row: Vec<Option<usize>> = Vec::new();
        let mut k: usize = 0;
        while k < n
            invariant
                k <= n,
                row@.len() == k,
                forall|j: int| 0 <= j < k ==> #[trigger] row@[j] is None,
            decreases n - k,
        {
            row.push(None);
            k = k + 1;
        }
        let mut col: usize = 0;
        while col < n
            invariant
                rec.wf(),
                cfg.fits(rec.rows(), rec.cols()),
                rows == rec.rows(),
                n == rec.cols(),
                widths@ == target,
                widths@.len() == n,
                range_sum(widths@, 0, n as int) + borders <= usize::MAX,
                borders == all_borders(cfg, rec.cols()),
                r < rows,
                col <= n,
                row@.len() == n,
                forall|j: int| 0 <= j < col ==> #[trigger] row@[j] == planned(rec, cfg, target, r as int, j),
                forall|j: int| col <= j < n ==> #[trigger] row@[j] is None,
                forall|j: int| col <= j < n ==> #[trigger] planned(rec, cfg, target, r as int, j)
                    == plan_from(rec, cfg, target, r as int, col as nat, j),
            decreases n - col,
        {
            let s = cfg.get_column_span(r, col, n);
            let mut span_width: usize = 0;
            let mut i: usize = col;
            proof {
                lemma_range_sum_split(widths@, 0, col as int, (col + s) as int);
                lemma_range_sum_split(widths@, 0, (col + s) as int, n as int);
                lemma_border_count_mono(cfg.verticals@, col + 1, (col + s) as int, 0, n + 1);
            }
            while i < col + s
                invariant
                    col <= i <= col + s,
                    col + s <= n,
                    widths@.len() == n,
                    span_width == range_sum(widths@, col as int, i as int),
                    range_sum(widths@, col as int, (col + s) as int) <= usize::MAX,
                decreases col + s - i,
            {
                proof {
                    lemma_range_sum_split(widths@, col as int, (i + 1) as int, (col + s) as int);
                }
                span_width = span_width + widths[i];
                i = i + 1;
            }
            let inner = count_borders(cfg, col, col + s, n);
            let total = span_width + inner;
            let p = cfg.get_padding(r, col);
            let content = if p.left >= total {
                0
            } else if p.right >= total - p.left {
                0
            } else {
                total - p.left - p.right
            };
            proof {
                assert(plan_from(rec, cfg, target, r as int, col as nat, col as int) == Some(content));
                assert forall|j: int| col < j < n implies #[trigger] plan_from(rec, cfg, target, r as int, col as nat, j)
                    == plan_from(rec, cfg, target, r as int, (col + s) as nat, j) by {}
            }
            row.set(col, Some(content));
            col = col + s;
        }
        plan.push(row);
        r = r + 1;
    }
    plan
}

/// Growth by `steps` units over at least one column adds exactly `steps` to the widths' sum:
/// every peaker picks a column whenever there is one.
pub proof fn lemma_grow_adds_steps(w: Seq<usize>, p: ColumnPeaker, steps: nat)
    requires
        1 <= w.len() <= usize::MAX,
        sum_of(w) + steps <= usize::MAX,
    ensures
        grow(w, p, steps).len() == w.len(),
        sum_of(grow(w, p, steps)) == sum_of(w) + steps,
    decreases steps,
{
    if steps > 0 {
        lemma_pick_in_range(p, w);
        let i = p.peak_spec(w).0->0 as int;
        lemma_item_le_sum(w, i);
        lemma_sum_update(w, i, (w[i] + 1) as usize);
        lemma_grow_adds_steps(w.update(i, (w[i] + 1) as usize), p.peak_spec(w).1, (steps - 1) as nat);
    }
}

/// Growing a grid with at least one column to a width it lacks plans columns whose widths,
/// with the borders that render, add up to exactly that width.
pub proof fn lemma_target_reaches_width(rec: &Records, cfg: &GridConfig, p: ColumnPeaker, width: usize)
    requires
        rec.cols() >= 1,
        grand_total(rec, cfg) < width,
    ensures
        sum_of(target_widths(rec, cfg, p, width)) + all_borders(cfg, rec.cols()) == width,
        target_widths(rec, cfg, p, width).len() == rec.cols(),
{
    let w = start_widths(rec, cfg);
    assert forall|c: int| 0 <= c < w.len() implies #[trigger] w[c] == col_width(rec, cfg, c) by {
        lemma_col_le_sum(rec, cfg, c, rec.cols());
    }
    assert(widths_of(w, rec, cfg));
    lemma_widths_sum(w, rec, cfg, rec.cols());
    assert(w.take(rec.cols() as int) =~= w);
    lemma_grow_adds_steps(w, p, (width - grand_total(rec, cfg)) as nat);
}

/// A request that the grid's width already meets leaves every cell as it was.
pub proof fn lemma_wide_enough_unchanged(rec: &Records, cfg: &GridConfig, p: ColumnPeaker, width: usize, fill: char, r: int, c: int)
    requires
        grand_total(rec, cfg) >= width,
    ensures
        grown_text(rec, cfg, p, width, fill, r, c) == rec.text(r, c),
{
}

/// Widest-first growth gives every unit to the column that was widest at the start (the
/// lowest index among equals): it stays the widest as it grows.
pub proof fn lemma_grow_max_feeds_widest(w: Seq<usize>, steps: nat)
    requires
        1 <= w.len() <= usize::MAX,
        w[max_index_upto(w, w.len()) as int] + steps <= usize::MAX,
    ensures
        grow(w, ColumnPeaker::PriorityMax, steps) == w.update(
            max_index_upto(w, w.len()) as int,
            (w[max_index_upto(w, w.len()) as int] + steps) as usize,
        ),
    decreases steps,
{
    let m = max_index_upto(w, w.len()) as int;
    lemma_max_pick_is_widest(w, w.len());
    if steps > 0 {
        let w1 = w.update(m, (w[m] + 1) as usize);
        lemma_extreme_picks_unique(w1, m);
        lemma_max_pick_is_widest(w1, w1.len());
        assert(forall|j: int| 0 <= j < w1.len() ==> #[trigger] w1[j] <= w1[m]);
        assert(forall|j: int| 0 <= j < m ==> #[trigger] w1[j] < w1[m]);
        assert(max_index_upto(w1, w1.len()) == m);
        lemma_grow_max_feeds_widest(w1, (steps - 1) as nat);
        assert(w1.update(m, (w1[m] + (steps - 1)) as usize) =~= w.update(m, (w[m] + steps) as usize));
    } else {
        assert(w.update(m, w[m]) =~= w);
    }
}

proof fn lemma_grow_min_levels_from(w0: Seq<usize>, w: Seq<usize>, steps: nat)
    requires
        1 <= w.len() <= usize::MAX,
        w.len() == w0.len(),
        forall|c: int| 0 <= c < w.len() ==> #[trigger] w[c] >= w0[c],
        forall|c: int| 0 <= c < w.len() ==> #[trigger] w[c] + steps <= usize::MAX,
        forall|c: int, d: int| 0 <= c < w.len() && 0 <= d < w.len() && #[trigger] w[c] > w0[c]
            ==> w[c] <= #[trigger] w[d] + 1,
    ensures
        grow(w, ColumnPeaker::PriorityMin, steps).len() == w.len(),
        forall|c: int| 0 <= c < w.len() ==> #[trigger] grow(w, ColumnPeaker::PriorityMin, steps)[c] >= w0[c],
        forall|c: int, d: int| 0 <= c < w.len() && 0 <= d < w.len()
            && #[trigger] grow(w, ColumnPeaker::PriorityMin, steps)[c] > w0[c]
            ==> grow(w, ColumnPeaker::PriorityMin, steps)[c] <= #[trigger] grow(w, ColumnPeaker::PriorityMin, steps)[d] + 1,
    decreases steps,
{
    if steps > 0 {
        lemma_min_pick_is_narrowest(w, w.len());
        let m = min_index_upto(w, w.len()) as int;
        let w1 = w.update(m, (w[m] + 1) as usize);
        assert forall|c: int, d: int| 0 <= c < w1.len() && 0 <= d < w1.len() && #[trigger] w1[c] > w0[c]
            implies w1[c] <= #[trigger] w1[d] + 1 by {
            assert(w[d] >= w[m]);
            if c != m {
                assert(w[c] > w0[c]);
                assert(w[c] <= w[d] + 1);
            }
        }
        lemma_grow_min_levels_from(w0, w1, (steps - 1) as nat);
    }
}

/// Narrowest-first growth only ever grows a narrowest column: afterwards every column that
/// grew is at most one unit wider than any other column, and no column shrank.
pub proof fn lemma_grow_min_levels(w: Seq<usize>, steps: nat)
    requires
        1 <= w.len() <= usize::MAX,
        forall|c: int| 0 <= c < w.len() ==> #[trigger] w[c] + steps <= usize::MAX,
    ensures
        grow(w, ColumnPeaker::PriorityMin, steps).len() == w.len(),
        forall|c: int| 0 <= c < w.len() ==> #[trigger] grow(w, ColumnPeaker::PriorityMin, steps)[c] >= w[c],
        forall|c: int, d: int| 0 <= c < w.len() && 0 <= d < w.len()
            && #[trigger] grow(w, ColumnPeaker::PriorityMin, steps)[c] > w[c]
            ==> grow(w, ColumnPeaker::PriorityMin, steps)[c] <= #[trigger] grow(w, ColumnPeaker::PriorityMin, steps)[d] + 1,
{
    lemma_grow_min_levels_from(w, w, steps);
}

} // verus!
