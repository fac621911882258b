//! Transaction-status bookkeeping for a database engine: a reference-counted
//! copy-on-write handle with a context-bearing teardown, a bounded cache of
//! open file handles, and the two-bit-per-transaction commit log built on
//! both.

pub mod access;
pub mod guc;
pub mod utils;

use vstd::prelude::*;

verus! {

/// The size of a block, and so of a page of the commit log, in bytes.
pub const KB_BLCKSZ: usize = 8192;

} // verus!
