//! The grid that estimation reads and redistribution writes: cell texts and their layout.
use vstd::prelude::*;
use crate::text::{ansi_safe, count_lines, line_count_of, text_width, text_width_of};

verus! {

/// Space around a cell's content, in lines (top, bottom) and columns (left, right).
#[derive(Clone, Copy, Debug, PartialEq, Eq, Structural)]
pub struct Padding {
    pub top: usize,
    pub bottom: usize,
    pub left: usize,
    pub right: usize,
}

impl Padding {
    /// Padding of the given sizes.
    pub fn new(left: usize, right: usize, top: usize, bottom: usize) -> (r: Padding)
        ensures
            r == (Padding { top, bottom, left, right }),
    {
        Padding { top, bottom, left, right }
    }

    /// No padding on any side.
    pub fn zero() -> (r: Padding)
        ensures
            r == (Padding { top: 0, bottom: 0, left: 0, right: 0 }),
    {
        Padding { top: 0, bottom: 0, left: 0, right: 0 }
    }
}

/// The positions an operation is aimed at.
#[derive(Clone, Copy, Debug, PartialEq, Eq, Structural)]
pub enum Entity {
    Global,
    Column(usize),
    Row(usize),
    Cell(usize, usize),
}

impl Entity {
    /// Whether position (`row`, `col`) is one of the entity's positions.
    pub open spec fn covers(self, row: int, col: int) -> bool {
        match self {
            Entity::Global => true,
            Entity::Column(c) => col == c,
            Entity::Row(r) => row == r,
            Entity::Cell(r, c) => row == r && col == c,
        }
    }
}

/// Cell texts, row by row; every row holds `count_columns` cells.
pub struct Records {
    pub cells: Vec<Vec<String>>,
    pub count_columns: usize,
}

impl Records {
    /// Every row holds exactly `count_columns` cells, and every escape character in a cell
    /// opens a complete style sequence.
    pub open spec fn wf(&self) -> bool {
        &&& forall|r: int| 0 <= r < self.cells@.len() ==> #[trigger] self.cells@[r]@.len() == self.count_columns
        &&& forall|r: int, c: int| 0 <= r < self.cells@.len() && 0 <= c < self.count_columns
            ==> #[trigger] ansi_safe(self.cells@[r]@[c]@)
    }

    pub open spec fn rows(&self) -> nat {
        self.cells@.len()
    }

    pub open spec fn cols(&self) -> nat {
        self.count_columns as nat
    }

    /// Text of the cell at (`r`, `c`).
    pub open spec fn text(&self, r: int, c: int) -> Seq<char> {
        self.cells@[r]@[c]@
    }

    /// Records over the given rows of cells.
    pub fn new(cells: Vec<Vec<String>>, count_columns: usize) -> (r: Records)
        requires
            forall|i: int| 0 <= i < cells@.len() ==> #[trigger] cells@[i]@.len() == count_columns,
            forall|i: int, j: int| 0 <= i < cells@.len() && 0 <= j < count_columns ==> #[trigger] ansi_safe(cells@[i]@[j]@),
        ensures
            r.wf(),
            r.cells@ == cells@,
            r.count_columns == count_columns,
    {
        Records { cells, count_columns }
    }

    pub fn count_rows(&self) -> (r: usize)
        ensures
            r == self.rows(),
    {
        self.cells.len()
    }

    pub fn count_columns(&self) -> (r: usize)
        ensures
            r == self.cols(),
    {
        self.count_columns
    }

    pub fn get_text(&self, r: usize, c: usize) -> (t: &str)
        requires
            self.wf(),
            r < self.rows(),
            c < self.cols(),
        ensures
            t@ == self.text(r as int, c as int),
    {
        self.cells[r][c].as_str()
    }

    /// Number of lines of the cell's text.
    pub fn count_lines(&self, r: usize, c: usize) -> (n: usize)
        requires
            self.wf(),
            r < self.rows(),
            c < self.cols(),
            line_count_of(self.text(r as int, c as int)) <= usize::MAX,
        ensures
            n == line_count_of(self.text(r as int, c as int)),
    {
        count_lines(self.cells[r][c].as_str())
    }

    /// Rendered width of the cell's text: its widest line.
    pub fn get_width(&self, r: usize, c: usize) -> (w: usize)
        requires
            self.wf(),
            r < self.rows(),
            c < self.cols(),
        ensures
            w == text_width_of(self.text(r as int, c as int)),
    {
        text_width(self.cells[r][c].as_str())
    }

    /// Replaces the cell's text; every other cell keeps its own.
    pub fn set(&mut self, r: usize, c: usize, text: String)
        requires
            old(self).wf(),
            r < old(self).rows(),
            c < old(self).cols(),
            ansi_safe(text@),
        ensures
            final(self).wf(),
            final(self).count_columns == old(self).count_columns,
            final(self).cells@.len() == old(self).cells@.len(),
            final(self).text(r as int, c as int) == text@,
            forall|i: int, j: int|
                0 <= i < final(self).rows() && 0 <= j < final(self).cols() && !(i == r && j == c)
                    ==> #[trigger] final(self).text(i, j) == old(self).text(i, j),
    {
        self.cells[r][c] = text;
        assert forall|i: int, j: int| 0 <= i < self.cells@.len() && 0 <= j < self.count_columns
            implies #[trigger] ansi_safe(self.cells@[i]@[j]@) by {
            if !(i == r && j == c) {
                assert(self.cells@[i]@[j] == old(self).cells@[i]@[j]);
            }
        }
    }
}

/// Layout of a grid: padding and column span of each cell, and which vertical borders render.
pub struct GridConfig {
    pub paddings: Vec<Vec<Padding>>,
    pub spans: Vec<Vec<usize>>,
    /// One entry per vertical border line: before the first column, between each two
    /// columns, and after the last.
    pub verticals: Vec<bool>,
}

impl GridConfig {
    /// The configuration describes a grid of `rows` by `cols` cells.
    pub open spec fn fits(&self, rows: nat, cols: nat) -> bool {
        &&& self.paddings@.len() == rows
        &&& self.spans@.len() == rows
        &&& self.verticals@.len() == cols + 1
        &&& forall|r: int| 0 <= r < rows ==> #[trigger] self.paddings@[r]@.len() == cols
        &&& forall|r: int| 0 <= r < rows ==> #[trigger] self.spans@[r]@.len() == cols
    }

    pub open spec fn padding(&self, r: int, c: int) -> Padding {
        self.paddings@[r]@[c]
    }

    /// Columns that the cell at (`r`, `c`) covers in a grid of `n` columns: a recorded span of
    /// 0 counts as 1, and a span that runs past the last column stops there.
    pub open spec fn span(&self, r: int, c: int, n: int) -> int {
        let s = self.spans@[r]@[c] as int;
        if s == 0 {
            1
        } else if c + s > n {
            n - c
        } else {
            s
        }
    }

    /// A grid of `rows` by `cols` cells without padding or spans, with every border shown.
    pub fn new(rows: usize, cols: usize) -> (g: GridConfig)
        requires
            cols < usize::MAX,
        ensures
            g.fits(rows as nat, cols as nat),
            forall|r: int, c: int| 0 <= r < rows && 0 <= c < cols ==> #[trigger] g.padding(r, c) == Padding::zero_spec(),
            forall|r: int, c: int| 0 <= r < rows && 0 <= c < cols ==> #[trigger] g.spans@[r]@[c] == 1,
            forall|i: int| 0 <= i <= cols ==> #[trigger] g.verticals@[i],
    {
        let mut paddings: Vec<Vec<Padding>> = Vec::new();
        let mut spans: Vec<Vec<usize>> = Vec::new();
        let mut r: usize = 0;
        while r < rows
            invariant
                r <= rows,
                paddings@.len() == r,
                spans@.len() == r,
                forall|i: int| 0 <= i < r ==> #[trigger] paddings@[i]@.len() == cols,
                forall|i: int| 0 <= i < r ==> #[trigger] spans@[i]@.len() == cols,
                forall|i: int, c: int| 0 <= i < r && 0 <= c < cols ==> #[trigger] paddings@[i]@[c] == Padding::zero_spec(),
                forall|i: int, c: int| 0 <= i < r && 0 <= c < cols ==> #[trigger] spans@[i]@[c] == 1,
            decreases rows - r,
        {
            let mut prow: Vec<Padding> = Vec::new();
            let mut srow: Vec<usize> = Vec::new();
            let mut c: usize = 0;
            while c < cols
                invariant
                    c <= cols,
                    prow@.len() == c,
                    srow@.len() == c,
                    forall|j: int| 0 <= j < c ==> #[trigger] prow@[j] == Padding::zero_spec(),
                    forall|j: int| 0 <= j < c ==> #[trigger] srow@[j] == 1,
                decreases cols - c,
            {
                prow.push(Padding::zero());
                srow.push(1);
                c = c + 1;
            }
            paddings.push(prow);
            spans.push(srow);
            r = r + 1;
        }
        let mut verticals: Vec<bool> = Vec::new();
        let mut i: usize = 0;
        while i <= cols
            invariant
                i <= cols + 1,
                cols < usize::MAX,
                verticals@.len() == i,
                forall|j: int| 0 <= j < i ==> #[trigger] verticals@[j],
            decreases cols + 1 - i,
        {
            verticals.push(true);
            i = i + 1;
        }
        GridConfig { paddings, spans, verticals }
    }

    pub fn get_padding(&self, r: usize, c: usize) -> (p: Padding)
        requires
            r < self.paddings@.len(),
            c < self.paddings@[r as int]@.len(),
        ensures
            p == self.padding(r as int, c as int),
    {
        self.paddings[r][c]
    }

    /// Columns covered by the cell at (`r`, `c`) in a grid of `n` columns.
    pub fn get_column_span(&self, r: usize, c: usize, n: usize) -> (s: usize)
        requires
            r < self.spans@.len(),
            c < self.spans@[r as int]@.len(),
            c < n,
        ensures
            s == self.span(r as int, c as int, n as int),
            1 <= s <= n - c,
    {
        let s = self.spans[r][c];
        if s == 0 {
            1
        } else if s > n - c {
            n - c
        } else {
            s
        }
    }

    /// Whether vertical border `i` renders.
    pub fn has_vertical(&self, i: usize) -> (b: bool)
        requires
            i < self.verticals@.len(),
        ensures
            b == self.verticals@[i as int],
    {
        self.verticals[i]
    }

    pub fn set_padding(&mut self, r: usize, c: usize, p: Padding)
        requires
            r < old(self).paddings@.len(),
            c < old(self).paddings@[r as int]@.len(),
        ensures
            final(self).paddings@.len() == old(self).paddings@.len(),
            final(self).paddings@[r as int]@ == old(self).paddings@[r as int]@.update(c as int, p),
            forall|i: int| 0 <= i < old(self).paddings@.len() && i != r ==> #[trigger] final(self).paddings@[i] == old(self).paddings@[i],
            final(self).spans == old(self).spans,
            final(self).verticals == old(self).verticals,
    {
        self.paddings[r].set(c, p);
    }

    pub fn set_span(&mut self, r: usize, c: usize, s: usize)
        requires
            r < old(self).spans@.len(),
            c < old(self).spans@[r as int]@.len(),
        ensures
            final(self).spans@.len() == old(self).spans@.len(),
            final(self).spans@[r as int]@ == old(self).spans@[r as int]@.update(c as int, s),
            forall|i: int| 0 <= i < old(self).spans@.len() && i != r ==> #[trigger] final(self).spans@[i] == old(self).spans@[i],
            final(self).paddings == old(self).paddings,
            final(self).verticals == old(self).verticals,
    {
        self.spans[r].set(c, s);
    }

    pub fn set_vertical(&mut self, i: usize, shown: bool)
        requires
            i < old(self).verticals@.len(),
        ensures
            final(self).verticals@ == old(self).verticals@.update(i as int, shown),
            final(self).paddings == old(self).paddings,
            final(self).spans == old(self).spans,
    {
        self.verticals.set(i, shown);
    }
}

impl Padding {
    pub open spec fn zero_spec() -> Padding {
        Padding { top: 0, bottom: 0, left: 0, right: 0 }
    }
}

/// Cell texts together with their layout.
pub struct Table {
    pub records: Records,
    pub config: GridConfig,
}

impl Table {
    pub open spec fn wf(&self) -> bool {
        &&& self.records.wf()
        &&& self.config.fits(self.records.rows(), self.records.cols())
    }

    pub fn new(records: Records, config: GridConfig) -> (t: Table)
        ensures
            t.records == records,
            t.config == config,
    {
        Table { records, config }
    }

    /// (rows, columns) of the grid.
    pub fn shape(&self) -> (s: (usize, usize))
        ensures
            s.0 == self.records.rows(),
            s.1 == self.records.cols(),
    {
        (self.records.count_rows(), self.records.count_columns())
    }

    /// The grid holds no cell.
    pub fn is_empty(&self) -> (b: bool)
        ensures
            b == (self.records.rows() == 0 || self.records.cols() == 0),
    {
        self.records.count_rows() == 0 || self.records.count_columns() == 0
    }
}

} // verus!
