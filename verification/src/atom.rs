//! The identifier handed out for an interned string.

use vstd::prelude::*;

verus! {

/// Strongly-typed atom id. The raw integer is public so that callers can use
/// it as an index into arrays or bitsets.
#[derive(Copy, Clone, PartialEq, Eq, Structural, Hash, Debug, PartialOrd, Ord)]
pub struct AtomId(pub u64);

} // verus!
