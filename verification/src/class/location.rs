use vstd::prelude::*;

verus! {

/// Place in the source text.
#[derive(Debug, PartialEq)]
pub struct Location {
    pub row: usize,
    pub column: usize,
    pub file: Option<String>,
}

impl Clone for Location {
    fn clone(&self) -> (copy: Self)
        ensures
            copy == *self,
    {
        Location {
            row: self.row,
            column: self.column,
            file: match &self.file {
                Some(name) => Some(name.clone()),
                None => None,
            },
        }
    }
}

impl Location {
    /// A place in the row `row` and the column `column` of the file `file`.
    pub fn new(row: usize, column: usize, file: Option<String>) -> (location: Self)
        ensures
            location == (Location { row, column, file }),
    {
        Location { row, column, file }
    }
}

} // verus!
