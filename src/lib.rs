//! The rules of the persistence layer of a message-sequencing service, over the rows that its
//! relational queries return: finding the canonical record of a message, refusing duplicate
//! content, cursor pagination by timestamp, resolving bundles kept on disk with a fallback to
//! the stored row, bundle file naming, and the batch plan of the offline migration of bundles
//! to disk. A reference model of the tables states what each query returns.

use vstd::prelude::*;

pub mod cursor;
pub mod error;
pub mod model;
pub mod store;
pub mod strings;
pub mod bytestore;
pub mod migration;
pub mod laws;
pub mod rows;

verus! {

} // verus!
