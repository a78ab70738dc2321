//! Exporter — turns a `Table` into the bytes of one file format.

use vstd::prelude::*;
use crate::domain::table::Table;

verus! {

pub trait Exporter {
    /// Format identifier (file extension, e.g. "xlsx").
    fn format(&self) -> &str;

    /// Serialises `table` into the bytes of this format.
    fn export(&self, table: &Table) -> Vec<u8>;
}

} // verus!
