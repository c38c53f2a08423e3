//! A bidirectional string atom table: every distinct string gets a small
//! integer identifier, and both directions of the mapping can be queried.

pub mod atom;
pub mod model;
pub mod prelude;
pub mod stores;
pub mod table;
pub mod unwrap_dbg;

pub use crate::atom::AtomId;
pub use crate::table::AtomTable;
pub use crate::unwrap_dbg::UnwrapDbg;
