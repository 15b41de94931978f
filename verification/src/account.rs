//! Accounts that carry metadata.
use vstd::prelude::*;

verus! {

/// Represents an [account](https://en.wikipedia.org/wiki/Account_(bookkeeping)).
pub struct Account<Meta> {
    pub metadata: Meta,
}

impl<Meta> Account<Meta> {
    /// Gets the metadata of the account.
    pub fn metadata(&self) -> (m: &Meta)
        ensures
            *m == self.metadata,
    {
        &self.metadata
    }
}

} // verus!
