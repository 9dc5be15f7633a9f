//! The ways in which a lookup fails.

use vstd::prelude::*;

use crate::models::RepositoryError;

verus! {

/// Why a lookup gave no answer. That an address is simply not known is no
/// failure and has no variant here.
#[derive(Debug, PartialEq, Eq)]
pub enum LookupError {
    /// The query is not the dotted-decimal text of an IPv4 host address.
    InvalidAddress,
    /// The store failed or could not be reached.
    Store(RepositoryError),
    /// No candidate record has a specificity descriptor that can be read.
    MalformedSpecificity,
}

} // verus!
