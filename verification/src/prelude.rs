//! Public re-exports for convenience.

pub use crate::atom::AtomId;
pub use crate::table::AtomTable;
