use sqlite_pager::errors::DBError;
use sqlite_pager::page::{parse_page, parse_page_header, PageCell, PageHeader, PageType};

#[test]
fn page_type_7_rejected() {
    let buffer = [7u8, 0, 0, 0, 0, 0, 0, 0];
    let mut offset = 0usize;
    assert_eq!(
        parse_page_header(&buffer, &mut offset),
        Err(DBError::InvalidPageType(7))
    );
    assert_eq!(offset, 0);
}

#[test]
fn leaf_page_header_is_8_bytes() {
    let buffer = [13u8, 0x00, 0x20, 0x00, 0x02, 0x01, 0x90, 0x03];
    let mut offset = 0usize;
    let header = parse_page_header(&buffer, &mut offset).unwrap();
    assert_eq!(offset, 8);
    match header {
        PageHeader::LeafPageHeader(l) => {
            assert!(matches!(l.page_type, PageType::TableLeaf));
            assert_eq!(l.first_freeblock, 0x20);
            assert_eq!(l.cell_count, 2);
            assert_eq!(l.cell_content_offset, 0x190);
            assert_eq!(l.fragmented_bytes_count, 3);
        }
        other => panic!("expected leaf header, got {:?}", other),
    }
}

#[test]
fn interior_page_header_is_12_bytes() {
    let buffer = [5u8, 0, 0, 0, 1, 0x01, 0x00, 0, 0, 0, 0, 9];
    let mut offset = 0usize;
    let header = parse_page_header(&buffer, &mut offset).unwrap();
    assert_eq!(offset, 12);
    match header {
        PageHeader::InteriorPageHeader(i) => {
            assert!(matches!(i.page_type, PageType::TableInterior));
            assert_eq!(i.cell_count, 1);
            assert_eq!(i.right_most_pointer, 9);
        }
        other => panic!("expected interior header, got {:?}", other),
    }
}

// A table-leaf cell whose record holds one 8-bit integer.
fn small_leaf_cell(row_id: u8, value: u8) -> Vec<u8> {
    vec![3, row_id, 2, 1, value]
}

#[test]
fn table_leaf_page_cells_in_pointer_order() {
    let mut page = vec![0u8; 512];
    page[0] = 13; // table leaf
    page[3] = 0;
    page[4] = 2; // two cells
    page[5] = 0x01;
    page[6] = 0x90;
    // Cell pointers at offsets 8 and 10, deliberately not in offset order.
    page[8..10].copy_from_slice(&420u16.to_be_bytes());
    page[10..12].copy_from_slice(&400u16.to_be_bytes());
    page[420..425].copy_from_slice(&small_leaf_cell(5, 50));
    page[400..405].copy_from_slice(&small_leaf_cell(9, 90));

    let (header, cells) = parse_page(&page, 2, 512).unwrap();
    assert_eq!(header.cell_count(), 2);
    assert_eq!(cells.len(), 2);
    match &cells[0] {
        PageCell::TableLeafCell(c) => {
            assert_eq!(c.row_id, 5);
            assert_eq!(c.payload_size, 3);
            assert_eq!(c.payload, vec![2, 1, 50]);
            assert_eq!(c.first_overflow_page, None);
        }
        other => panic!("expected table leaf cell, got {:?}", other),
    }
    match &cells[1] {
        PageCell::TableLeafCell(c) => {
            assert_eq!(c.row_id, 9);
            assert_eq!(c.payload, vec![2, 1, 90]);
        }
        other => panic!("expected table leaf cell, got {:?}", other),
    }
}

#[test]
fn table_interior_cells_carry_child_and_key() {
    let mut page = vec![0u8; 512];
    page[0] = 5; // table interior
    page[4] = 1; // one cell
    page[8] = 0; // right-most pointer bytes 8..12 (zero here)
    page[12..14].copy_from_slice(&100u16.to_be_bytes());
    page[100..104].copy_from_slice(&7u32.to_be_bytes());
    page[104] = 42; // row id varint

    let (_, cells) = parse_page(&page, 2, 512).unwrap();
    match &cells[0] {
        PageCell::TableInteriorCell(c) => {
            assert_eq!(c.left_child_pointer, 7);
            assert_eq!(c.row_id, 42);
        }
        other => panic!("expected table interior cell, got {:?}", other),
    }
}

#[test]
fn truncated_page_rejected() {
    // Cell pointer array runs past the page end.
    let mut page = vec![0u8; 16];
    page[0] = 13;
    page[4] = 200; // claims 200 cells
    assert_eq!(parse_page(&page, 2, 512), Err(DBError::TruncatedPage));
}

#[test]
fn page_one_header_starts_after_file_header() {
    let mut page = vec![0u8; 512];
    page[100] = 13;
    page[104] = 1; // one cell
    page[108..110].copy_from_slice(&200u16.to_be_bytes());
    page[200..205].copy_from_slice(&small_leaf_cell(3, 30));
    let (header, cells) = parse_page(&page, 1, 512).unwrap();
    assert_eq!(header.cell_count(), 1);
    match &cells[0] {
        PageCell::TableLeafCell(c) => assert_eq!(c.row_id, 3),
        other => panic!("expected table leaf cell, got {:?}", other),
    }
}
