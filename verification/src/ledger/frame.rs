//! A data frame as the ledger tools hold it: named columns and rows of text
//! cells.

use vstd::prelude::*;

verus! {

/// Column names and rows of cells.
pub struct Frame {
    pub columns: Vec<String>,
    pub rows: Vec<Vec<String>>,
}

impl Frame {
    /// A frame with no column and no row.
    pub fn empty() -> (r: Frame)
        ensures
            r.columns@.len() == 0,
            r.rows@.len() == 0,
    {
        Frame { columns: Vec::new(), rows: Vec::new() }
    }

    /// Number of rows.
    pub fn height(&self) -> (r: usize)
        ensures
            r == self.rows@.len(),
    {
        self.rows.len()
    }

    /// Number of columns.
    pub fn width(&self) -> (r: usize)
        ensures
            r == self.columns@.len(),
    {
        self.columns.len()
    }
}

} // verus!
