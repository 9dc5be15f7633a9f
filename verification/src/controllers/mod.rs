//! The operations that the library offers to a front end.

pub mod lookup;
pub mod query;
pub mod response;
pub mod theorems;
