//! Records of the index tables and their SQL renderings.

use vstd::prelude::*;

pub mod document;
pub mod word;

verus! {

/// A record that can be written as SQL: a whole `INSERT` statement, one row
/// of a multi-row `VALUES` list, and the list of columns that row fills.
pub trait ToQuery {
    fn to_query(&self) -> String;

    fn to_mult_query(&self) -> String;

    fn fields(&self) -> String;
}

} // verus!
