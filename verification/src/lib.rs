//! A read-only decoder for the on-disk page format of SQLite database
//! files: the 100-byte file header, fixed-size B-tree pages with their
//! typed cells, variable-length integers, per-row records, a page cache
//! served from an in-memory file image, and a cursor that walks a B-tree
//! from its root page to the rows it stores.

pub mod btree;
pub mod cursor;
pub mod errors;
pub mod bytes;
pub mod header;
pub mod overflow;
pub mod page;
pub mod pager;
pub mod record;
pub mod schema;
pub mod varint;

use vstd::prelude::*;

verus! {

} // verus!
