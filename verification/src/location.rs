use vstd::prelude::*;

verus! {

/// The mathematical model of a [`Location`]: a file name and a line and
/// column in it.
pub struct LocationView {
    pub file: Seq<char>,
    pub line: u32,
    pub column: u32,
}

/// The source code location where an exception frame was created.
pub struct Location {
    file: String,
    line: u32,
    column: u32,
}

impl View for Location {
    type V = LocationView;

    closed spec fn view(&self) -> LocationView {
        LocationView { file: self.file@, line: self.line, column: self.column }
    }
}

impl Location {
    /// A location in `file` at `line` and `column`.
    pub fn new(file: String, line: u32, column: u32) -> (r: Location)
        ensures
            r@ == (LocationView { file: file@, line, column }),
    {
        Location { file, line, column }
    }

    /// The name of the source file.
    pub fn file(&self) -> (r: &str)
        ensures
            r@ == self@.file,
    {
        self.file.as_str()
    }

    /// The line number.
    pub fn line(&self) -> (r: u32)
        ensures
            r == self@.line,
    {
        self.line
    }

    /// The column number.
    pub fn column(&self) -> (r: u32)
        ensures
            r == self@.column,
    {
        self.column
    }

    /// A copy of this location.
    pub fn duplicate(&self) -> (r: Location)
        ensures
            r@ == self@,
    {
        Location { file: self.file.clone(), line: self.line, column: self.column }
    }
}

} // verus!
