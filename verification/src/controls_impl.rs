//! Ready-made controls.

pub mod paged_results;
pub mod txn;
