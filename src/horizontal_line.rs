//! A horizontal split line of a table's border style.
use vstd::prelude::*;

verus! {

/// Characters of one border line: the line itself, its crossings with vertical lines, and its
/// two ends.
#[derive(Clone, Copy, Debug, PartialEq, Eq, Structural)]
pub struct Line {
    pub main: Option<char>,
    pub intersection: Option<char>,
    pub connector1: Option<char>,
    pub connector2: Option<char>,
}

impl Line {
    pub fn new(
        main: Option<char>,
        intersection: Option<char>,
        connector1: Option<char>,
        connector2: Option<char>,
    ) -> (l: Line)
        ensures
            l == (Line { main, intersection, connector1, connector2 }),
    {
        Line { main, intersection, connector1, connector2 }
    }

    /// A line with no character set.
    pub fn empty() -> (l: Line)
        ensures
            l == (Line { main: None, intersection: None, connector1: None, connector2: None }),
    {
        Line { main: None, intersection: None, connector1: None, connector2: None }
    }
}

/// A horizontal split line placed above row `index`.
#[derive(Clone, Copy, Debug, PartialEq, Eq, Structural)]
pub struct HorizontalLine {
    pub index: usize,
    pub line: Line,
}

impl HorizontalLine {
    /// A split line above row `index` drawn with `line`.
    pub fn new(index: usize, line: Line) -> (h: HorizontalLine)
        ensures
            h == (HorizontalLine { index, line }),
    {
        HorizontalLine { index, line }
    }

    /// Sets the horizontal character.
    pub fn main(self, c: Option<char>) -> (h: HorizontalLine)
        ensures
            h == (HorizontalLine { line: Line { main: c, ..self.line }, ..self }),
    {
        let mut h = self;
        h.line.main = c;
        h
    }

    /// Sets the character where the line crosses a vertical line.
    pub fn intersection(self, c: Option<char>) -> (h: HorizontalLine)
        ensures
            h == (HorizontalLine { line: Line { intersection: c, ..self.line }, ..self }),
    {
        let mut h = self;
        h.line.intersection = c;
        h
    }

    /// Sets the character at the left end.
    pub fn left(self, c: Option<char>) -> (h: HorizontalLine)
        ensures
            h == (HorizontalLine { line: Line { connector1: c, ..self.line }, ..self }),
    {
        let mut h = self;
        h.line.connector1 = c;
        h
    }

    /// Sets the character at the right end.
    pub fn right(self, c: Option<char>) -> (h: HorizontalLine)
        ensures
            h == (HorizontalLine { line: Line { connector2: c, ..self.line }, ..self }),
    {
        let mut h = self;
        h.line.connector2 = c;
        h
    }

    /// The horizontal character.
    pub fn get_split(&self) -> (c: Option<char>)
        ensures
            c == self.line.main,
    {
        self.line.main
    }

    /// The character where the line crosses a vertical line.
    pub fn get_intersection(&self) -> (c: Option<char>)
        ensures
            c == self.line.intersection,
    {
        self.line.intersection
    }

    /// The character at the left end.
    pub fn get_left(&self) -> (c: Option<char>)
        ensures
            c == self.line.connector1,
    {
        self.line.connector1
    }

    /// The character at the right end.
    pub fn get_right(&self) -> (c: Option<char>)
        ensures
            c == self.line.connector2,
    {
        self.line.connector2
    }
}

} // verus!
