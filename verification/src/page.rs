//! The page codec: a page header, its cell-pointer array, and the raw
//! cells those pointers lead to.
//!
//! A page starts with an 8-byte header (12 for interior pages, whose
//! header ends with the right-most child pointer); page 1 is special in
//! that the 100-byte file header comes first. The cell-pointer array
//! follows the header, one 2-byte offset per cell, in key order. Cells
//! whose payload exceeds the page's local capacity keep only a prefix
//! here and continue on an overflow chain.

use vstd::prelude::*;

use crate::bytes::{copy_range, read_u16, read_u32, read_u8, spec_be16, spec_be32};
use crate::errors::DBError;
use crate::varint::{read_varint_at, spec_decode_varint};

verus! {

/// The four kinds of B-tree page, by the type byte that encodes them:
/// 2, 5, 10 and 13 respectively.
#[derive(Debug, Clone, Copy, PartialEq, Eq, Structural)]
pub enum PageType {
    IndexInterior,
    TableInterior,
    IndexLeaf,
    TableLeaf,
}

/// The kind a type byte denotes; any byte but 2, 5, 10 or 13 is
/// rejected.
pub open spec fn spec_page_type(b: u8) -> Result<PageType, DBError> {
    if b == 2 {
        Ok(PageType::IndexInterior)
    } else if b == 5 {
        Ok(PageType::TableInterior)
    } else if b == 10 {
        Ok(PageType::IndexLeaf)
    } else if b == 13 {
        Ok(PageType::TableLeaf)
    } else {
        Err(DBError::InvalidPageType(b))
    }
}

/// Whether pages of this kind carry a right-most child pointer.
pub open spec fn spec_is_interior(t: PageType) -> bool {
    t == PageType::IndexInterior || t == PageType::TableInterior
}

/// The byte that encodes each page kind on disk.
pub open spec fn spec_page_type_byte(t: PageType) -> u8 {
    match t {
        PageType::IndexInterior => 2,
        PageType::TableInterior => 5,
        PageType::IndexLeaf => 10,
        PageType::TableLeaf => 13,
    }
}

impl PageType {
    /// The byte that encodes this page kind on disk.
    pub fn type_byte(&self) -> (b: u8)
        ensures
            b == spec_page_type_byte(*self),
    {
        match self {
            PageType::IndexInterior => 2,
            PageType::TableInterior => 5,
            PageType::IndexLeaf => 10,
            PageType::TableLeaf => 13,
        }
    }
}

/// The header of a leaf page: 8 bytes.
#[derive(Debug, Clone, Copy, PartialEq, Eq, Structural)]
pub struct LeafPageHeader {
    pub page_type: PageType,
    /// Offset of the first freeblock on the page; 0 when there is none.
    pub first_freeblock: u16,
    /// How many cells the page holds.
    pub cell_count: u16,
    /// Where the cell content area starts.
    pub cell_content_offset: u16,
    /// How many fragmented free bytes lie within the content area.
    pub fragmented_bytes_count: u8,
}

/// The header of an interior page: 12 bytes, ending with the page
/// number of the right-most child.
#[derive(Debug, Clone, Copy, PartialEq, Eq, Structural)]
pub struct InteriorPageHeader {
    pub page_type: PageType,
    pub first_freeblock: u16,
    pub cell_count: u16,
    pub cell_content_offset: u16,
    pub fragmented_bytes_count: u8,
    /// The right-most child's page number, the last child in key order.
    pub right_most_pointer: u32,
}

/// A page header, leaf or interior.
#[derive(Debug, Clone, Copy, PartialEq, Eq, Structural)]
pub enum PageHeader {
    LeafPageHeader(LeafPageHeader),
    InteriorPageHeader(InteriorPageHeader),
}

impl PageHeader {
    /// How many cells the page holds.
    pub open spec fn spec_cell_count(&self) -> u16 {
        match self {
            PageHeader::LeafPageHeader(l) => l.cell_count,
            PageHeader::InteriorPageHeader(i) => i.cell_count,
        }
    }

    /// The page's kind.
    pub open spec fn spec_page_type(&self) -> PageType {
        match self {
            PageHeader::LeafPageHeader(l) => l.page_type,
            PageHeader::InteriorPageHeader(i) => i.page_type,
        }
    }

    /// How many cells the page holds.
    pub fn cell_count(&self) -> (c: u16)
        ensures
            c == self.spec_cell_count(),
    {
        match self {
            PageHeader::LeafPageHeader(l) => l.cell_count,
            PageHeader::InteriorPageHeader(i) => i.cell_count,
        }
    }

    /// The page's kind.
    pub fn page_type(&self) -> (t: PageType)
        ensures
            t == self.spec_page_type(),
    {
        match self {
            PageHeader::LeafPageHeader(l) => l.page_type,
            PageHeader::InteriorPageHeader(i) => i.page_type,
        }
    }
}

/// What parsing a page header at `off` yields: the header and the
/// offset just past it, where the cell-pointer array starts.
pub open spec fn spec_parse_page_header(s: Seq<u8>, off: int) -> Result<
    (PageHeader, int),
    DBError,
> {
    if off < 0 || off + 8 > s.len() {
        Err(DBError::TruncatedPage)
    } else {
        match spec_page_type(s[off]) {
            Err(e) => Err(e),
            Ok(pt) => if spec_is_interior(pt) {
                if off + 12 > s.len() {
                    Err(DBError::TruncatedPage)
                } else {
                    Ok(
                        (
                            PageHeader::InteriorPageHeader(
                                InteriorPageHeader {
                                    page_type: pt,
                                    first_freeblock: spec_be16(s, off + 1) as u16,
                                    cell_count: spec_be16(s, off + 3) as u16,
                                    cell_content_offset: spec_be16(s, off + 5) as u16,
                                    fragmented_bytes_count: s[off + 7],
                                    right_most_pointer: spec_be32(s, off + 8) as u32,
                                },
                            ),
                            off + 12,
                        ),
                    )
                }
            } else {
                Ok(
                    (
                        PageHeader::LeafPageHeader(
                            LeafPageHeader {
                                page_type: pt,
                                first_freeblock: spec_be16(s, off + 1) as u16,
                                cell_count: spec_be16(s, off + 3) as u16,
                                cell_content_offset: spec_be16(s, off + 5) as u16,
                                fragmented_bytes_count: s[off + 7],
                            },
                        ),
                        off + 8,
                    ),
                )
            },
        }
    }
}

/// Parses the page header at `*offset` and leaves `*offset` at the
/// start of the cell-pointer array.
///
/// The type byte must be 2, 5, 10 or 13; a header that would run past
/// the page fails as truncated. On failure the offset is not moved.
pub fn parse_page_header(buffer: &[u8], offset: &mut usize) -> (r: Result<PageHeader, DBError>)
    ensures
        match r {
            Ok(h) => spec_parse_page_header(buffer@, *old(offset) as int) == Ok::<
                (PageHeader, int),
                DBError,
            >((h, *final(offset) as int)) && *old(offset) < *final(offset) <= buffer@.len(),
            Err(e) => spec_parse_page_header(buffer@, *old(offset) as int) == Err::<
                (PageHeader, int),
                DBError,
            >(e) && *final(offset) == *old(offset),
        },
{
    let len = buffer.len();
    let start = *offset;
    if len < 8 || start > len - 8 {
        return Err(DBError::TruncatedPage);
    }
    let type_byte = buffer[start];
    let page_type = if type_byte == 2 {
        PageType::IndexInterior
    } else if type_byte == 5 {
        PageType::TableInterior
    } else if type_byte == 10 {
        PageType::IndexLeaf
    } else if type_byte == 13 {
        PageType::TableLeaf
    } else {
        return Err(DBError::InvalidPageType(type_byte));
    };

    let mut pos = start + 1;
    let first_freeblock = read_u16(buffer, &mut pos);
    let cell_count = read_u16(buffer, &mut pos);
    let cell_content_offset = read_u16(buffer, &mut pos);
    let fragmented_bytes_count = read_u8(buffer, &mut pos);

    if type_byte == 2 || type_byte == 5 {
        if len < 12 || start > len - 12 {
            return Err(DBError::TruncatedPage);
        }
        let right_most_pointer = read_u32(buffer, &mut pos);
        *offset = pos;
        Ok(
            PageHeader::InteriorPageHeader(
                InteriorPageHeader {
                    page_type,
                    first_freeblock,
                    cell_count,
                    cell_content_offset,
                    fragmented_bytes_count,
                    right_most_pointer,
                },
            ),
        )
    } else {
        *offset = pos;
        Ok(
            PageHeader::LeafPageHeader(
                LeafPageHeader {
                    page_type,
                    first_freeblock,
                    cell_count,
                    cell_content_offset,
                    fragmented_bytes_count,
                },
            ),
        )
    }
}

/// Reads the cell-pointer array: `cell_count` two-byte offsets from the
/// page start to each cell, in the page's key order.
pub fn get_cell_pointers(buffer: &[u8], offset: &mut usize, page_header: PageHeader) -> (v: Vec<
    u16,
>)
    requires
        *old(offset) + 2 * page_header.spec_cell_count() <= buffer@.len(),
    ensures
        v@.len() == page_header.spec_cell_count(),
        forall|i: int|
            0 <= i < v@.len() ==> v@[i] as nat == spec_be16(
                buffer@,
                *old(offset) + 2 * i,
            ),
        *final(offset) == *old(offset) + 2 * page_header.spec_cell_count(),
{
    let cell_count = page_header.cell_count();
    let mut v: Vec<u16> = Vec::new();
    let mut i: usize = 0;
    while i < cell_count as usize
        invariant
            i <= cell_count as usize,
            *offset == *old(offset) + 2 * i,
            *old(offset) + 2 * (cell_count as nat) <= buffer@.len(),
            v@.len() == i,
            forall|j: int|
                0 <= j < i ==> v@[j] as nat == spec_be16(buffer@, *old(offset) + 2 * j),
        decreases cell_count as usize - i,
    {
        let p = read_u16(buffer, offset);
        v.push(p);
        i = i + 1;
    }
    v
}

/// The most payload a cell may hold on the page itself.
pub open spec fn spec_max_local(usable: nat) -> nat
    recommends
        usable >= 257,
{
    (usable - 35) as nat
}

/// How much payload stays local when a cell overflows.
pub open spec fn spec_min_local(usable: nat) -> nat
    recommends
        usable >= 257,
{
    ((usable - 12) * 32 / 255 - 23) as nat
}

/// How many payload bytes stay on the page for a payload of `p` bytes.
pub open spec fn spec_local_len(usable: nat, p: nat) -> nat
    recommends
        usable >= 257,
{
    if p <= spec_max_local(usable) {
        p
    } else {
        spec_min_local(usable)
    }
}

/// A cell of a table leaf page: its key, the payload bytes stored on
/// the page, and the first overflow page when the payload continues
/// elsewhere.
#[derive(Debug, Clone, PartialEq)]
pub struct TableLeafCell {
    /// The full payload size, overflowed bytes included.
    pub payload_size: u64,
    pub row_id: u64,
    /// The payload bytes held on this page.
    pub payload: Vec<u8>,
    pub first_overflow_page: Option<u32>,
}

/// A cell of a table interior page: a child pointer and the largest
/// key in that child's subtree.
#[derive(Debug, Clone, Copy, PartialEq, Eq, Structural)]
pub struct TableInteriorCell {
    pub left_child_pointer: u32,
    pub row_id: u64,
}

/// A cell of an index leaf page: the indexed key's payload.
#[derive(Debug, Clone, PartialEq)]
pub struct IndexLeafCell {
    /// The full payload size, overflowed bytes included.
    pub size_including_overflow: u64,
    /// The payload bytes held on this page.
    pub payload: Vec<u8>,
    pub first_overflow_page: Option<u32>,
}

/// A cell of an index interior page: a child pointer and the key
/// payload that separates it from the next child.
#[derive(Debug, Clone, PartialEq)]
pub struct IndexInteriorCell {
    pub left_child_pointer: u32,
    /// The full payload size, overflowed bytes included.
    pub size_including_overflow: u64,
    /// The payload bytes held on this page.
    pub payload: Vec<u8>,
    pub first_overflow_page: Option<u32>,
}

/// One cell as the page codec reads it, payload still raw.
#[derive(Debug, Clone, PartialEq)]
pub enum PageCell {
    TableLeafCell(TableLeafCell),
    TableInteriorCell(TableInteriorCell),
    IndexLeafCell(IndexLeafCell),
    IndexInteriorCell(IndexInteriorCell),
}

/// The mathematical shape of a [`PageCell`].
pub enum SpecPageCell {
    TableLeaf { payload_size: u64, row_id: u64, payload: Seq<u8>, first_overflow_page: Option<u32> },
    TableInterior { left_child_pointer: u32, row_id: u64 },
    IndexLeaf { size_including_overflow: u64, payload: Seq<u8>, first_overflow_page: Option<u32> },
    IndexInterior {
        left_child_pointer: u32,
        size_including_overflow: u64,
        payload: Seq<u8>,
        first_overflow_page: Option<u32>,
    },
}

impl View for PageCell {
    type V = SpecPageCell;

    open spec fn view(&self) -> SpecPageCell {
        match self {
            PageCell::TableLeafCell(c) => SpecPageCell::TableLeaf {
                payload_size: c.payload_size,
                row_id: c.row_id,
                payload: c.payload@,
                first_overflow_page: c.first_overflow_page,
            },
            PageCell::TableInteriorCell(c) => SpecPageCell::TableInterior {
                left_child_pointer: c.left_child_pointer,
                row_id: c.row_id,
            },
            PageCell::IndexLeafCell(c) => SpecPageCell::IndexLeaf {
                size_including_overflow: c.size_including_overflow,
                payload: c.payload@,
                first_overflow_page: c.first_overflow_page,
            },
            PageCell::IndexInteriorCell(c) => SpecPageCell::IndexInterior {
                left_child_pointer: c.left_child_pointer,
                size_including_overflow: c.size_including_overflow,
                payload: c.payload@,
                first_overflow_page: c.first_overflow_page,
            },
        }
    }
}

/// A payload's layout on the page: the bytes that stay local and, when
/// it overflows, the first overflow page number read from the four
/// bytes after them.
pub open spec fn spec_payload_at(s: Seq<u8>, off: int, p: nat, usable: nat) -> Result<
    (Seq<u8>, Option<u32>),
    DBError,
>
    recommends
        usable >= 257,
{
    if p <= spec_max_local(usable) {
        if off + p > s.len() {
            Err(DBError::TruncatedPage)
        } else {
            Ok((s.subrange(off, off + p), None::<u32>))
        }
    } else {
        let local = spec_min_local(usable);
        if off + local + 4 > s.len() {
            Err(DBError::TruncatedPage)
        } else {
            Ok(
                (
                    s.subrange(off, off + local),
                    Some(spec_be32(s, off + local) as u32),
                ),
            )
        }
    }
}

/// What parsing one cell at `off` yields, by page kind.
pub open spec fn spec_parse_cell(s: Seq<u8>, t: PageType, off: int, usable: nat) -> Result<
    SpecPageCell,
    DBError,
>
    recommends
        usable >= 257,
{
    if off < 0 {
        Err(DBError::TruncatedPage)
    } else {
        match t {
            PageType::TableInterior => {
                if off + 4 > s.len() {
                    Err(DBError::TruncatedPage)
                } else {
                    match spec_decode_varint(s, off + 4) {
                        Err(_) => Err(DBError::TruncatedPage),
                        Ok(rid) => Ok(
                            SpecPageCell::TableInterior {
                                left_child_pointer: spec_be32(s, off) as u32,
                                row_id: rid.0 as u64,
                            },
                        ),
                    }
                }
            },
            PageType::TableLeaf => {
                match spec_decode_varint(s, off) {
                    Err(_) => Err(DBError::TruncatedPage),
                    Ok(p) => match spec_decode_varint(s, off + p.1) {
                        Err(_) => Err(DBError::TruncatedPage),
                        Ok(rid) => match spec_payload_at(s, off + p.1 + rid.1, p.0, usable) {
                            Err(e) => Err(e),
                            Ok(pl) => Ok(
                                SpecPageCell::TableLeaf {
                                    payload_size: p.0 as u64,
                                    row_id: rid.0 as u64,
                                    payload: pl.0,
                                    first_overflow_page: pl.1,
                                },
                            ),
                        },
                    },
                }
            },
            PageType::IndexLeaf => {
                match spec_decode_varint(s, off) {
                    Err(_) => Err(DBError::TruncatedPage),
                    Ok(p) => match spec_payload_at(s, off + p.1, p.0, usable) {
                        Err(e) => Err(e),
                        Ok(pl) => Ok(
                            SpecPageCell::IndexLeaf {
                                size_including_overflow: p.0 as u64,
                                payload: pl.0,
                                first_overflow_page: pl.1,
                            },
                        ),
                    },
                }
            },
            PageType::IndexInterior => {
                if off + 4 > s.len() {
                    Err(DBError::TruncatedPage)
                } else {
                    match spec_decode_varint(s, off + 4) {
                        Err(_) => Err(DBError::TruncatedPage),
                        Ok(p) => match spec_payload_at(s, off + 4 + p.1, p.0, usable) {
                            Err(e) => Err(e),
                            Ok(pl) => Ok(
                                SpecPageCell::IndexInterior {
                                    left_child_pointer: spec_be32(s, off) as u32,
                                    size_including_overflow: p.0 as u64,
                                    payload: pl.0,
                                    first_overflow_page: pl.1,
                                },
                            ),
                        },
                    }
                }
            },
        }
    }
}

/// Reads the local bytes of a payload of `p` bytes at `off`, and the
/// overflow page number that follows them when the payload overflows.
fn read_payload_at(buffer: &[u8], off: usize, p: u64, usable_size: u32) -> (r: Result<
    (Vec<u8>, Option<u32>),
    DBError,
>)
    requires
        257 <= usable_size <= 65536,
    ensures
        match r {
            Ok(pl) => spec_payload_at(buffer@, off as int, p as nat, usable_size as nat) == Ok::<
                (Seq<u8>, Option<u32>),
                DBError,
            >((pl.0@, pl.1)),
            Err(e) => spec_payload_at(buffer@, off as int, p as nat, usable_size as nat) == Err::<
                (Seq<u8>, Option<u32>),
                DBError,
            >(e),
        },
{
    let len = buffer.len();
    proof {
        vstd::arithmetic::div_mod::lemma_div_is_ordered(
            7840,
            (usable_size - 12) * 32,
            255,
        );
    }
    let max_local = (usable_size - 35) as u64;
    if p <= max_local {
        if p > len as u64 || off > len - (p as usize) {
            return Err(DBError::TruncatedPage);
        }
        let payload = copy_range(buffer, off, off + (p as usize));
        Ok((payload, None))
    } else {
        let local = ((usable_size - 12) * 32 / 255 - 23) as usize;
        if local + 4 > len || off > len - local - 4 {
            return Err(DBError::TruncatedPage);
        }
        let payload = copy_range(buffer, off, off + local);
        let mut pos = off + local;
        let next = read_u32(buffer, &mut pos);
        Ok((payload, Some(next)))
    }
}

/// Parses the cell that starts at `cell_offset`, according to the
/// page's kind. `usable_size` governs the local/overflow payload split.
pub fn parse_cell(buffer: &[u8], page_type: PageType, cell_offset: usize, usable_size: u32) -> (r:
    Result<PageCell, DBError>)
    requires
        257 <= usable_size <= 65536,
    ensures
        match r {
            Ok(c) => spec_parse_cell(buffer@, page_type, cell_offset as int, usable_size as nat)
                == Ok::<SpecPageCell, DBError>(c@),
            Err(e) => spec_parse_cell(buffer@, page_type, cell_offset as int, usable_size as nat)
                == Err::<SpecPageCell, DBError>(e),
        },
{
    let len = buffer.len();
    match page_type {
        PageType::TableInterior => {
            if len < 4 || cell_offset > len - 4 {
                return Err(DBError::TruncatedPage);
            }
            let mut pos = cell_offset;
            let left_child_pointer = read_u32(buffer, &mut pos);
            let row_id = match read_varint_at(buffer, pos) {
                Ok(p) => p.0,
                Err(_) => {
                    return Err(DBError::TruncatedPage);
                },
            };
            Ok(
                PageCell::TableInteriorCell(
                    TableInteriorCell { left_child_pointer, row_id },
                ),
            )
        },
        PageType::TableLeaf => {
            let (payload_size, n1) = match read_varint_at(buffer, cell_offset) {
                Ok(p) => p,
                Err(_) => {
                    return Err(DBError::TruncatedPage);
                },
            };
            let (row_id, n2) = match read_varint_at(buffer, cell_offset + n1) {
                Ok(p) => p,
                Err(_) => {
                    return Err(DBError::TruncatedPage);
                },
            };
            match read_payload_at(buffer, cell_offset + n1 + n2, payload_size, usable_size) {
                Ok((payload, first_overflow_page)) => Ok(
                    PageCell::TableLeafCell(
                        TableLeafCell { payload_size, row_id, payload, first_overflow_page },
                    ),
                ),
                Err(e) => Err(e),
            }
        },
        PageType::IndexLeaf => {
            let (size_including_overflow, n1) = match read_varint_at(buffer, cell_offset) {
                Ok(p) => p,
                Err(_) => {
                    return Err(DBError::TruncatedPage);
                },
            };
            match read_payload_at(buffer, cell_offset + n1, size_including_overflow, usable_size) {
                Ok((payload, first_overflow_page)) => Ok(
                    PageCell::IndexLeafCell(
                        IndexLeafCell { size_including_overflow, payload, first_overflow_page },
                    ),
                ),
                Err(e) => Err(e),
            }
        },
        PageType::IndexInterior => {
            if len < 4 || cell_offset > len - 4 {
                return Err(DBError::TruncatedPage);
            }
            let mut pos = cell_offset;
            let left_child_pointer = read_u32(buffer, &mut pos);
            let (size_including_overflow, n1) = match read_varint_at(buffer, pos) {
                Ok(p) => p,
                Err(_) => {
                    return Err(DBError::TruncatedPage);
                },
            };
            match read_payload_at(buffer, pos + n1, size_including_overflow, usable_size) {
                Ok((payload, first_overflow_page)) => Ok(
                    PageCell::IndexInteriorCell(
                        IndexInteriorCell {
                            left_child_pointer,
                            size_including_overflow,
                            payload,
                            first_overflow_page,
                        },
                    ),
                ),
                Err(e) => Err(e),
            }
        },
    }
}

/// The cells named by pointers `i..cell_count` of the cell-pointer
/// array at `ptr_off`, in array order.
pub open spec fn spec_parse_cells(
    s: Seq<u8>,
    t: PageType,
    usable: nat,
    ptr_off: int,
    i: int,
    cell_count: int,
) -> Result<Seq<SpecPageCell>, DBError>
    decreases cell_count - i,
{
    if i >= cell_count {
        Ok(Seq::empty())
    } else {
        let ptr = spec_be16(s, ptr_off + 2 * i);
        match spec_parse_cell(s, t, ptr as int, usable) {
            Err(e) => Err(e),
            Ok(c) => match spec_parse_cells(s, t, usable, ptr_off, i + 1, cell_count) {
                Err(e) => Err(e),
                Ok(rest) => Ok(seq![c] + rest),
            },
        }
    }
}

/// What parsing a whole page yields: its header and its cells in
/// cell-pointer order. Page 1 starts after the 100-byte file header.
pub open spec fn spec_parse_page(s: Seq<u8>, page_number: nat, usable: nat) -> Result<
    (PageHeader, Seq<SpecPageCell>),
    DBError,
>
    recommends
        usable >= 257,
{
    let hdr_off: int = if page_number == 1 {
        100
    } else {
        0
    };
    match spec_parse_page_header(s, hdr_off) {
        Err(e) => Err(e),
        Ok(h) => {
            let header = h.0;
            let ptr_off = h.1;
            if ptr_off + 2 * header.spec_cell_count() > s.len() {
                Err(DBError::TruncatedPage)
            } else {
                match spec_parse_cells(
                    s,
                    header.spec_page_type(),
                    usable,
                    ptr_off,
                    0,
                    header.spec_cell_count() as int,
                ) {
                    Err(e) => Err(e),
                    Ok(cells) => Ok((header, cells)),
                }
            }
        },
    }
}

/// Parses raw page bytes into the page's header and its cells, in
/// cell-pointer order. `page_number` decides where the page header
/// starts; `usable_size` governs the local/overflow payload split.
pub fn parse_page(buffer: &[u8], page_number: usize, usable_size: u32) -> (r: Result<
    (PageHeader, Vec<PageCell>),
    DBError,
>)
    requires
        257 <= usable_size <= 65536,
    ensures
        match r {
            Ok(p) => spec_parse_page(buffer@, page_number as nat, usable_size as nat) == Ok::<
                (PageHeader, Seq<SpecPageCell>),
                DBError,
            >((p.0, p.1@.map_values(|c: PageCell| c@))),
            Err(e) => spec_parse_page(buffer@, page_number as nat, usable_size as nat) == Err::<
                (PageHeader, Seq<SpecPageCell>),
                DBError,
            >(e),
        },
{
    let ghost s = buffer@;
    let len = buffer.len();
    let mut offset: usize = if page_number == 1 {
        100
    } else {
        0
    };
    let header = match parse_page_header(buffer, &mut offset) {
        Ok(h) => h,
        Err(e) => {
            return Err(e);
        },
    };
    let cell_count = header.cell_count();
    if (cell_count as usize) * 2 > len - offset {
        return Err(DBError::TruncatedPage);
    }
    let ghost ptr_off = offset as int;
    let pointers = get_cell_pointers(buffer, &mut offset, header);
    let page_type = header.page_type();

    let mut cells: Vec<PageCell> = Vec::new();
    let mut i: usize = 0;
    proof {
        match spec_parse_cells(s, page_type, usable_size as nat, ptr_off, 0, cell_count as int) {
            Ok(rest) => {
                assert(Seq::<PageCell>::empty().map_values(|c: PageCell| c@) + rest =~= rest);
            },
            Err(_) => {},
        }
    }
    while i < cell_count as usize
        invariant
            i <= cell_count as usize,
            s == buffer@,
            257 <= usable_size <= 65536,
            spec_parse_page_header(
                s,
                if page_number == 1 {
                    100int
                } else {
                    0int
                },
            ) == Ok::<(PageHeader, int), DBError>((header, ptr_off)),
            ptr_off + 2 * (cell_count as int) <= s.len(),
            page_type == header.spec_page_type(),
            cell_count == header.spec_cell_count(),
            pointers@.len() == cell_count as nat,
            forall|j: int|
                0 <= j < pointers@.len() ==> pointers@[j] as nat == spec_be16(s, ptr_off + 2 * j),
            cells@.len() == i,
            match spec_parse_cells(
                s,
                page_type,
                usable_size as nat,
                ptr_off,
                i as int,
                cell_count as int,
            ) {
                Ok(rest) => spec_parse_cells(
                    s,
                    page_type,
                    usable_size as nat,
                    ptr_off,
                    0,
                    cell_count as int,
                ) == Ok::<Seq<SpecPageCell>, DBError>(
                    cells@.map_values(|c: PageCell| c@) + rest,
                ),
                Err(e) => spec_parse_cells(
                    s,
                    page_type,
                    usable_size as nat,
                    ptr_off,
                    0,
                    cell_count as int,
                ) == Err::<Seq<SpecPageCell>, DBError>(e),
            },
        decreases cell_count as usize - i,
    {
        let ptr = pointers[i];
        let cell = match parse_cell(buffer, page_type, ptr as usize, usable_size) {
            Ok(c) => c,
            Err(e) => {
                return Err(e);
            },
        };
        let ghost old_cells = cells@;
        cells.push(cell);
        proof {
            match spec_parse_cells(
                s,
                page_type,
                usable_size as nat,
                ptr_off,
                i + 1,
                cell_count as int,
            ) {
                Ok(rest) => {
                    assert(old_cells.map_values(|c: PageCell| c@) + (seq![cell@] + rest)
                        =~= cells@.map_values(|c: PageCell| c@) + rest);
                },
                Err(_) => {},
            }
        }
        i = i + 1;
    }
    proof {
        assert(cells@.map_values(|c: PageCell| c@) + Seq::<SpecPageCell>::empty() =~= cells@
            .map_values(|c: PageCell| c@));
    }
    Ok((header, cells))
}

} // verus!
