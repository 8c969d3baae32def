//! The cursor: walks a B-tree from its root page and produces its rows
//! in key order.
//!
//! Descent is depth first and leftmost first: on an interior page each
//! cell's child subtree is walked in cell order, then the right-most
//! child; a leaf page emits one row per cell, in cell order. Since the
//! format keeps both cell-pointer arrays and child links in key order,
//! the rows of a table B-tree come out in ascending key order.

use vstd::prelude::*;

use crate::btree::SpecBTreeCell;
use crate::errors::DBError;
use crate::header::DBHeader;
use crate::page::PageHeader;
use crate::pager::{spec_read_page_model, Pager};
use crate::record::{Record, SpecValue};

verus! {

/// One row a scan produces: the cell's key for table B-trees, absent
/// for index B-trees, and the decoded record.
#[derive(Debug, PartialEq)]
pub struct Row {
    pub row_id: Option<u64>,
    pub record: Record,
}

/// The mathematical shape of a [`Row`].
pub struct SpecRow {
    pub row_id: Option<u64>,
    pub record: Seq<SpecValue>,
}

impl View for Row {
    type V = SpecRow;

    open spec fn view(&self) -> SpecRow {
        SpecRow { row_id: self.row_id, record: self.record@ }
    }
}

/// The rows one leaf cell contributes: one for a leaf cell, none for a
/// cell of another kind, which a well-formed leaf page does not hold.
pub open spec fn spec_rows_of_cell(c: SpecBTreeCell) -> Seq<SpecRow> {
    match c {
        SpecBTreeCell::TableLeaf { row_id, record, .. } => seq![
            SpecRow { row_id: Some(row_id), record },
        ],
        SpecBTreeCell::IndexLeaf { record, .. } => seq![SpecRow { row_id: None, record }],
        _ => Seq::empty(),
    }
}

/// The rows of a leaf page's cells, in cell-pointer order.
pub open spec fn spec_leaf_rows(cells: Seq<SpecBTreeCell>) -> Seq<SpecRow>
    decreases cells.len(),
{
    if cells.len() == 0 {
        Seq::empty()
    } else {
        spec_rows_of_cell(cells[0]) + spec_leaf_rows(cells.drop_first())
    }
}

/// What scanning the B-tree rooted at `page` yields, with `fuel`
/// bounding the depth of the descent. A tree deeper than the number of
/// pages in the file must revisit a page, so running out of fuel means
/// a page number led back into the tree: out of range.
pub open spec fn spec_scan(img: Seq<u8>, h: DBHeader, page: nat, fuel: nat) -> Result<
    Seq<SpecRow>,
    DBError,
>
    decreases fuel, 0nat, 0nat,
{
    if fuel == 0 {
        Err(DBError::PageIndexOutOfRange)
    } else {
        match spec_read_page_model(img, h, page) {
            Err(e) => Err(e),
            Ok(p) => match p.header {
                PageHeader::LeafPageHeader(_) => Ok(spec_leaf_rows(p.cells)),
                PageHeader::InteriorPageHeader(ih) => {
                    match spec_scan_children(img, h, p.cells, (fuel - 1) as nat) {
                        Err(e) => Err(e),
                        Ok(rows) => match spec_scan(
                            img,
                            h,
                            ih.right_most_pointer as nat,
                            (fuel - 1) as nat,
                        ) {
                            Err(e) => Err(e),
                            Ok(last) => Ok(rows + last),
                        },
                    }
                },
            },
        }
    }
}

/// The rows of the subtrees an interior page's cells point to, in cell
/// order. A leaf cell here contributes nothing; a well-formed interior
/// page does not hold one.
pub open spec fn spec_scan_children(
    img: Seq<u8>,
    h: DBHeader,
    cells: Seq<SpecBTreeCell>,
    fuel: nat,
) -> Result<Seq<SpecRow>, DBError>
    decreases fuel, 1nat, cells.len(),
{
    if cells.len() == 0 {
        Ok(Seq::empty())
    } else {
        let first = match cells[0] {
            SpecBTreeCell::TableInterior { left_child_page, .. } => spec_scan(
                img,
                h,
                left_child_page as nat,
                fuel,
            ),
            SpecBTreeCell::IndexInterior { left_child_page, .. } => spec_scan(
                img,
                h,
                left_child_page as nat,
                fuel,
            ),
            _ => Ok(Seq::empty()),
        };
        match first {
            Err(e) => Err(e),
            Ok(rows) => match spec_scan_children(img, h, cells.drop_first(), fuel) {
                Err(e) => Err(e),
                Ok(rest) => Ok(rows + rest),
            },
        }
    }
}

/// The depth bound a scan starts with: more than the number of pages
/// the image holds, so it never cuts an acyclic descent short.
pub open spec fn spec_scan_fuel(img: Seq<u8>, h: DBHeader) -> nat
    recommends
        h.wf(),
{
    img.len() / (h.page_size as nat) + 1
}

/// A B-tree traversal. It borrows a pager per call and keeps no state
/// of its own: every scan walks afresh from the root it is given.
#[derive(Debug, Clone, Copy, PartialEq, Eq, Structural)]
pub struct Cursor;

impl Cursor {
    /// Walks the B-tree rooted at `root_page` and returns its rows,
    /// depth first, leftmost first: ascending key order for table
    /// B-trees.
    pub fn scan(pager: &mut Pager, root_page: usize) -> (r: Result<Vec<Row>, DBError>)
        requires
            old(pager).wf(),
        ensures
            final(pager).wf(),
            final(pager).image@ == old(pager).image@,
            final(pager).db_header == old(pager).db_header,
            match r {
                Ok(rows) => spec_scan(
                    old(pager).image@,
                    old(pager).db_header,
                    root_page as nat,
                    spec_scan_fuel(old(pager).image@, old(pager).db_header),
                ) == Ok::<Seq<SpecRow>, DBError>(rows@.map_values(|row: Row| row@)),
                Err(e) => spec_scan(
                    old(pager).image@,
                    old(pager).db_header,
                    root_page as nat,
                    spec_scan_fuel(old(pager).image@, old(pager).db_header),
                ) == Err::<Seq<SpecRow>, DBError>(e),
            },
    {
        let len = pager.image.len();
        let ps = pager.db_header.page_size as usize;
        proof {
            vstd::arithmetic::div_mod::lemma_div_is_ordered_by_denominator(len as int, 512, ps as int);
            vstd::arithmetic::div_mod::lemma_div_is_ordered(len as int, usize::MAX as int, 512);
        }
        let fuel = len / ps + 1;
        scan_rec(pager, root_page, fuel)
    }
}

/// One step of the descent: the rows below `page`, with `fuel` levels
/// of descent left.
#[verifier::rlimit(100)]
fn scan_rec(pager: &mut Pager, page: usize, fuel: usize) -> (r: Result<Vec<Row>, DBError>)
    requires
        old(pager).wf(),
    ensures
        final(pager).wf(),
        final(pager).image@ == old(pager).image@,
        final(pager).db_header == old(pager).db_header,
        match r {
            Ok(rows) => spec_scan(
                old(pager).image@,
                old(pager).db_header,
                page as nat,
                fuel as nat,
            ) == Ok::<Seq<SpecRow>, DBError>(rows@.map_values(|row: Row| row@)),
            Err(e) => spec_scan(
                old(pager).image@,
                old(pager).db_header,
                page as nat,
                fuel as nat,
            ) == Err::<Seq<SpecRow>, DBError>(e),
        },
    decreases fuel, 0nat,
{
    let ghost img = pager.image@;
    let ghost h = pager.db_header;
    if fuel == 0 {
        return Err(DBError::PageIndexOutOfRange);
    }
    let page_v = match pager.read_page(page) {
        Ok(p) => p,
        Err(e) => {
            return Err(e);
        },
    };
    let is_interior = match &page_v.header {
        PageHeader::LeafPageHeader(_) => false,
        PageHeader::InteriorPageHeader(_) => true,
    };
    if !is_interior {
        let ghost cells_spec = page_v.cells@.map_values(|c: crate::btree::BTreeCell| c@);
        let mut rows: Vec<Row> = Vec::new();
        let mut i: usize = 0;
        proof {
            assert(cells_spec.skip(0) =~= cells_spec);
            assert(Seq::<Row>::empty().map_values(|row: Row| row@) + spec_leaf_rows(cells_spec)
                =~= spec_leaf_rows(cells_spec));
        }
        while i < page_v.cells.len()
            invariant
                i <= page_v.cells@.len(),
                cells_spec == page_v.cells@.map_values(|c: crate::btree::BTreeCell| c@),
                rows@.map_values(|row: Row| row@) + spec_leaf_rows(cells_spec.skip(i as int))
                    =~= spec_leaf_rows(cells_spec),
            decreases page_v.cells@.len() - i,
        {
            proof {
                assert(cells_spec.skip(i as int)[0] == cells_spec[i as int]);
                assert(cells_spec[i as int] == page_v.cells@[i as int]@);
                assert(cells_spec.skip(i as int).drop_first() =~= cells_spec.skip(i + 1));
            }
            let ghost old_rows = rows@;
            match &page_v.cells[i] {
                crate::btree::BTreeCell::TableLeafCell(c) => {
                    rows.push(Row { row_id: Some(c.row_id), record: c.record.clone() });
                },
                crate::btree::BTreeCell::IndexLeafCell(c) => {
                    rows.push(Row { row_id: None, record: c.record.clone() });
                },
                crate::btree::BTreeCell::TableInteriorCell(_) => {},
                crate::btree::BTreeCell::IndexInteriorCell(_) => {},
            }
            proof {
                assert(rows@.map_values(|row: Row| row@) =~= old_rows.map_values(|row: Row| row@)
                    + spec_rows_of_cell(cells_spec[i as int]));
                assert(rows@.map_values(|row: Row| row@) + spec_leaf_rows(cells_spec.skip(i + 1))
                    =~= spec_leaf_rows(cells_spec));
            }
            i = i + 1;
        }
        proof {
            assert(cells_spec.skip(i as int) =~= Seq::<SpecBTreeCell>::empty());
            assert(rows@.map_values(|row: Row| row@) =~= spec_leaf_rows(cells_spec));
        }
        return Ok(rows);
    }

    // Interior page: walk each cell's child, then the right-most child.
    let right_most = match &page_v.header {
        PageHeader::InteriorPageHeader(ih) => ih.right_most_pointer,
        PageHeader::LeafPageHeader(_) => 0,
    };
    let mut rows = match scan_children(pager, &page_v.cells, fuel - 1) {
        Ok(s) => s,
        Err(e) => {
            return Err(e);
        },
    };
    let mut last = match scan_rec(pager, right_most as usize, fuel - 1) {
        Ok(s) => s,
        Err(e) => {
            return Err(e);
        },
    };
    let ghost before_last = rows@;
    let ghost last_map = last@.map_values(|row: Row| row@);
    rows.append(&mut last);
    proof {
        assert(rows@.map_values(|row: Row| row@) =~= before_last.map_values(|row: Row| row@)
            + last_map);
    }
    Ok(rows)
}

/// The rows of the subtrees the given interior cells point to, walked
/// in cell order with `fuel` levels of descent left for each.
#[verifier::rlimit(60)]
fn scan_children(pager: &mut Pager, cells: &Vec<crate::btree::BTreeCell>, fuel: usize) -> (r:
    Result<Vec<Row>, DBError>)
    requires
        old(pager).wf(),
    ensures
        final(pager).wf(),
        final(pager).image@ == old(pager).image@,
        final(pager).db_header == old(pager).db_header,
        match r {
            Ok(rows) => spec_scan_children(
                old(pager).image@,
                old(pager).db_header,
                cells@.map_values(|c: crate::btree::BTreeCell| c@),
                fuel as nat,
            ) == Ok::<Seq<SpecRow>, DBError>(rows@.map_values(|row: Row| row@)),
            Err(e) => spec_scan_children(
                old(pager).image@,
                old(pager).db_header,
                cells@.map_values(|c: crate::btree::BTreeCell| c@),
                fuel as nat,
            ) == Err::<Seq<SpecRow>, DBError>(e),
        },
    decreases fuel, 1nat,
{
    let ghost img = pager.image@;
    let ghost h = pager.db_header;
    let ghost cells_spec = cells@.map_values(|c: crate::btree::BTreeCell| c@);
    let mut rows: Vec<Row> = Vec::new();
    let mut i: usize = 0;
    proof {
        assert(cells_spec.skip(0) =~= cells_spec);
        match spec_scan_children(img, h, cells_spec, fuel as nat) {
            Ok(rest) => {
                assert(Seq::<Row>::empty().map_values(|row: Row| row@) + rest =~= rest);
            },
            Err(_) => {},
        }
    }
    while i < cells.len()
        invariant
            i <= cells@.len(),
            pager.wf(),
            pager.image@ == img,
            pager.db_header == h,
            img == old(pager).image@,
            h == old(pager).db_header,
            cells_spec == cells@.map_values(|c: crate::btree::BTreeCell| c@),
            match spec_scan_children(img, h, cells_spec.skip(i as int), fuel as nat) {
                Ok(rest) => spec_scan_children(img, h, cells_spec, fuel as nat) == Ok::<
                    Seq<SpecRow>,
                    DBError,
                >(rows@.map_values(|row: Row| row@) + rest),
                Err(e) => spec_scan_children(img, h, cells_spec, fuel as nat) == Err::<
                    Seq<SpecRow>,
                    DBError,
                >(e),
            },
        decreases cells@.len() - i,
    {
        proof {
            assert(cells_spec.skip(i as int)[0] == cells_spec[i as int]);
            assert(cells_spec[i as int] == cells@[i as int]@);
            assert(cells_spec.skip(i as int).drop_first() =~= cells_spec.skip(i + 1));
        }
        let child: Option<u32> = match &cells[i] {
            crate::btree::BTreeCell::TableInteriorCell(c) => Some(c.left_child_page),
            crate::btree::BTreeCell::IndexInteriorCell(c) => Some(c.left_child_page),
            crate::btree::BTreeCell::TableLeafCell(_) => None,
            crate::btree::BTreeCell::IndexLeafCell(_) => None,
        };
        let ghost old_rows = rows@;
        match child {
            Some(cp) => {
                let mut sub = match scan_rec(pager, cp as usize, fuel) {
                    Ok(s) => s,
                    Err(e) => {
                        return Err(e);
                    },
                };
                let ghost sub_map = sub@.map_values(|row: Row| row@);
                rows.append(&mut sub);
                proof {
                    assert(rows@.map_values(|row: Row| row@) =~= old_rows.map_values(
                        |row: Row| row@,
                    ) + sub_map);
                    match spec_scan_children(img, h, cells_spec.skip(i + 1), fuel as nat) {
                        Ok(rest2) => {
                            assert(old_rows.map_values(|row: Row| row@) + (sub_map + rest2)
                                =~= rows@.map_values(|row: Row| row@) + rest2);
                        },
                        Err(_) => {},
                    }
                }
            },
            None => {
                proof {
                    match spec_scan_children(img, h, cells_spec.skip(i + 1), fuel as nat) {
                        Ok(rest2) => {
                            assert(Seq::<SpecRow>::empty() + rest2 =~= rest2);
                        },
                        Err(_) => {},
                    }
                }
            },
        }
        i = i + 1;
    }
    proof {
        assert(cells_spec.skip(i as int) =~= Seq::<SpecBTreeCell>::empty());
        assert(rows@.map_values(|row: Row| row@) + Seq::<SpecRow>::empty() =~= rows@.map_values(
            |row: Row| row@,
        ));
    }
    Ok(rows)
}

} // verus!
