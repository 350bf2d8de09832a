//! What a projection can be asked for.
use vstd::prelude::*;

verus! {

/// A column that a table can have besides the ones it always has.
#[derive(Clone, Copy, Debug, PartialEq, Eq, Hash, Structural)]
pub enum Column {
    State,
}

/// The choices of a projection.
#[derive(Clone, Debug, PartialEq, Eq)]
pub struct Config {
    /// Languages that get a table although the catalog has no text in them yet.
    pub new_language_codes: Vec<String>,
    /// The additional columns of each table.
    pub columns_in_output: Vec<Column>,
}

impl Config {
    /// Whether the tables have a column for the translation state.
    pub open spec fn with_state(self) -> bool {
        self.columns_in_output@.contains(Column::State)
    }

    /// Whether the tables have a column for the translation state.
    pub fn has_state_column(&self) -> (r: bool)
        ensures
            r == self.with_state(),
    {
        let mut i: usize = 0;
        while i < self.columns_in_output.len()
            invariant
                i <= self.columns_in_output.len(),
                forall|j: int| 0 <= j < i ==> self.columns_in_output@[j] != Column::State,
            decreases self.columns_in_output.len() - i,
        {
            if self.columns_in_output[i] == Column::State {
                return true;
            }
            i = i + 1;
        }
        false
    }
}

} // verus!
