use vstd::prelude::*;

verus! {

/// A position in the input text: the number of characters before it, its
/// line (counted from one) and its column (counted from zero).
#[derive(Clone, Copy, PartialEq, Eq, Debug, Structural)]
pub struct Marker {
    pub index: usize,
    pub line: usize,
    pub col: usize,
}

impl Marker {
    /// The position with these three numbers.
    pub fn new(index: usize, line: usize, col: usize) -> (m: Marker)
        ensures
            m == (Marker { index, line, col }),
    {
        Marker { index, line, col }
    }

    /// The number of characters before the position.
    pub fn index(&self) -> (i: usize)
        ensures
            i == self.index,
    {
        self.index
    }

    /// The line of the position, counted from one.
    pub fn line(&self) -> (l: usize)
        ensures
            l == self.line,
    {
        self.line
    }

    /// The column of the position, counted from zero.
    pub fn col(&self) -> (c: usize)
        ensures
            c == self.col,
    {
        self.col
    }
}

/// The single error kind of the library: where the input was refused, and why.
#[derive(PartialEq, Eq, Debug)]
pub struct ScanError {
    pub mark: Marker,
    pub info: String,
}

impl ScanError {
    /// The error at `loc` with the words `info`.
    pub fn new(loc: Marker, info: &str) -> (e: ScanError)
        ensures
            e.mark == loc,
            e.info@ == info@,
    {
        ScanError { mark: loc, info: info.to_owned() }
    }

    /// Where the input was refused.
    pub fn marker(&self) -> (m: &Marker)
        ensures
            *m == self.mark,
    {
        &self.mark
    }

    /// Why the input was refused.
    pub fn info(&self) -> (s: &str)
        ensures
            s@ == self.info@,
    {
        self.info.as_str()
    }
}

impl Clone for ScanError {
    fn clone(&self) -> (e: ScanError)
        ensures
            e == *self,
    {
        ScanError { mark: self.mark, info: self.info.clone() }
    }
}

} // verus!
