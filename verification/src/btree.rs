//! Fully decoded B-tree pages: cells whose payloads have been
//! reassembled from any overflow chain and decoded into records.

use vstd::prelude::*;

use crate::page::PageHeader;
use crate::record::{Record, SpecValue};

verus! {

/// A table leaf cell: a key and the row it stores.
#[derive(Debug, PartialEq)]
pub struct TableLeafCell {
    pub row_id: u64,
    pub record: Record,
    /// The first overflow page the payload continued on, if any.
    pub first_overflow_page: Option<u32>,
}

/// A table interior cell: a child pointer and the largest key in that
/// child's subtree.
#[derive(Debug, Clone, Copy, PartialEq, Eq, Structural)]
pub struct TableInteriorCell {
    pub left_child_page: u32,
    pub rowid: u64,
}

/// An index leaf cell: the indexed key as a record.
#[derive(Debug, PartialEq)]
pub struct IndexLeafCell {
    pub record: Record,
    /// The first overflow page the payload continued on, if any.
    pub first_overflow_page: Option<u32>,
}

/// An index interior cell: a child pointer and the key record that
/// separates it from the next child.
#[derive(Debug, PartialEq)]
pub struct IndexInteriorCell {
    pub left_child_page: u32,
    pub record: Record,
    /// The first overflow page the payload continued on, if any.
    pub first_overflow_page: Option<u32>,
}

/// One fully decoded cell, by page kind.
#[derive(Debug, PartialEq)]
pub enum BTreeCell {
    TableInteriorCell(TableInteriorCell),
    TableLeafCell(TableLeafCell),
    IndexInteriorCell(IndexInteriorCell),
    IndexLeafCell(IndexLeafCell),
}

/// The mathematical shape of a [`BTreeCell`].
pub enum SpecBTreeCell {
    TableInterior { left_child_page: u32, rowid: u64 },
    TableLeaf { row_id: u64, record: Seq<SpecValue>, first_overflow_page: Option<u32> },
    IndexInterior { left_child_page: u32, record: Seq<SpecValue>, first_overflow_page: Option<u32> },
    IndexLeaf { record: Seq<SpecValue>, first_overflow_page: Option<u32> },
}

impl View for BTreeCell {
    type V = SpecBTreeCell;

    open spec fn view(&self) -> SpecBTreeCell {
        match self {
            BTreeCell::TableInteriorCell(c) => SpecBTreeCell::TableInterior {
                left_child_page: c.left_child_page,
                rowid: c.rowid,
            },
            BTreeCell::TableLeafCell(c) => SpecBTreeCell::TableLeaf {
                row_id: c.row_id,
                record: c.record@,
                first_overflow_page: c.first_overflow_page,
            },
            BTreeCell::IndexInteriorCell(c) => SpecBTreeCell::IndexInterior {
                left_child_page: c.left_child_page,
                record: c.record@,
                first_overflow_page: c.first_overflow_page,
            },
            BTreeCell::IndexLeafCell(c) => SpecBTreeCell::IndexLeaf {
                record: c.record@,
                first_overflow_page: c.first_overflow_page,
            },
        }
    }
}

impl Clone for BTreeCell {
    /// Cloning keeps the cell's contents.
    fn clone(&self) -> (r: Self)
        ensures
            r@ == self@,
    {
        match self {
            BTreeCell::TableInteriorCell(c) => BTreeCell::TableInteriorCell(*c),
            BTreeCell::TableLeafCell(c) => BTreeCell::TableLeafCell(
                TableLeafCell {
                    row_id: c.row_id,
                    record: c.record.clone(),
                    first_overflow_page: c.first_overflow_page,
                },
            ),
            BTreeCell::IndexInteriorCell(c) => BTreeCell::IndexInteriorCell(
                IndexInteriorCell {
                    left_child_page: c.left_child_page,
                    record: c.record.clone(),
                    first_overflow_page: c.first_overflow_page,
                },
            ),
            BTreeCell::IndexLeafCell(c) => BTreeCell::IndexLeafCell(
                IndexLeafCell {
                    record: c.record.clone(),
                    first_overflow_page: c.first_overflow_page,
                },
            ),
        }
    }
}

/// One page, fully decoded: its header and its cells in cell-pointer
/// order, records reassembled and decoded.
#[derive(Debug, PartialEq)]
pub struct BTreePage {
    pub header: PageHeader,
    pub cells: Vec<BTreeCell>,
}

/// The mathematical shape of a [`BTreePage`].
pub struct SpecBTreePage {
    pub header: PageHeader,
    pub cells: Seq<SpecBTreeCell>,
}

impl View for BTreePage {
    type V = SpecBTreePage;

    open spec fn view(&self) -> SpecBTreePage {
        SpecBTreePage { header: self.header, cells: self.cells@.map_values(|c: BTreeCell| c@) }
    }
}

impl Clone for BTreePage {
    /// Cloning keeps the header and every cell.
    fn clone(&self) -> (r: Self)
        ensures
            r@ == self@,
    {
        let cells = self.cells.clone();
        proof {
            assert forall|i: int| 0 <= i < cells@.len() implies cells@[i]@ == self.cells@[i]@ by {
                assert(cloned::<BTreeCell>(self.cells@[i], cells@[i]));
            }
            assert(cells@.map_values(|c: BTreeCell| c@) =~= self.cells@.map_values(
                |c: BTreeCell| c@,
            ));
        }
        BTreePage { header: self.header, cells }
    }
}

} // verus!
