use vstd::prelude::*;

use crate::error::Error;

verus! {

/// The terminal the tool asks its user through.
pub trait Terminal {
    fn select(&mut self, label: &str, items: &[String]) -> Result<Option<usize>, Error>;

    fn multi_select(&mut self, label: &str, items: &[String]) -> Result<Option<Vec<usize>>, Error>;
}

} // verus!
