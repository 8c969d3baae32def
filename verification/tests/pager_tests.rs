use sqlite_pager::btree::BTreeCell;
use sqlite_pager::cursor::Cursor;
use sqlite_pager::errors::DBError;
use sqlite_pager::pager::Pager;
use sqlite_pager::record::Value;

const MAGIC: [u8; 16] = [
    0x53, 0x51, 0x4c, 0x69, 0x74, 0x65, 0x20, 0x66, 0x6f, 0x72, 0x6d, 0x61, 0x74, 0x20, 0x33,
    0x00,
];

// An image of `npages` 512-byte pages whose first 100 bytes hold a valid
// file header: page size 512, UTF-8 text.
fn blank_image(npages: usize) -> Vec<u8> {
    let mut image = vec![0u8; 512 * npages];
    image[..16].copy_from_slice(&MAGIC);
    image[16] = 0x02;
    image[17] = 0x00;
    image[59] = 1;
    image
}

// A table-leaf cell whose record holds one 8-bit integer.
fn small_leaf_cell(row_id: u8, value: u8) -> Vec<u8> {
    vec![3, row_id, 2, 1, value]
}

// Writes a table-leaf page at page `n` (1-based) with the given rows.
fn write_leaf_page(image: &mut Vec<u8>, n: usize, rows: &[(u8, u8)]) {
    let base = (n - 1) * 512;
    let hdr = base + if n == 1 { 100 } else { 0 };
    image[hdr] = 13;
    image[hdr + 3] = 0;
    image[hdr + 4] = rows.len() as u8;
    let mut cell_at = base + 400;
    for (i, &(row_id, value)) in rows.iter().enumerate() {
        let ptr = (cell_at - base) as u16;
        image[hdr + 8 + 2 * i..hdr + 10 + 2 * i].copy_from_slice(&ptr.to_be_bytes());
        image[cell_at..cell_at + 5].copy_from_slice(&small_leaf_cell(row_id, value));
        cell_at += 5;
    }
}

#[test]
fn read_page_decodes_a_leaf_page() {
    let mut image = blank_image(1);
    write_leaf_page(&mut image, 1, &[(5, 50)]);
    let mut pager = Pager::open(image).unwrap();
    assert_eq!(pager.db_header.page_size, 512);
    let page = pager.read_page(1).unwrap();
    assert_eq!(page.cells.len(), 1);
    match &page.cells[0] {
        BTreeCell::TableLeafCell(c) => {
            assert_eq!(c.row_id, 5);
            assert_eq!(c.record.values, vec![Value::Integer(50)]);
            assert_eq!(c.first_overflow_page, None);
        }
        other => panic!("expected table leaf cell, got {:?}", other),
    }
}

#[test]
fn cache_serves_repeat_reads_from_one_decode() {
    let mut image = blank_image(2);
    write_leaf_page(&mut image, 1, &[(1, 10)]);
    write_leaf_page(&mut image, 2, &[(2, 20)]);
    let mut pager = Pager::open(image).unwrap();
    assert_eq!(pager.page_cache.len(), 0);

    let first = pager.read_page(2).unwrap();
    assert_eq!(pager.page_cache.len(), 1);
    let second = pager.read_page(2).unwrap();
    let third = pager.read_page(2).unwrap();
    // One decode: the cache still holds exactly one entry, and every
    // call saw the same page contents.
    assert_eq!(pager.page_cache.len(), 1);
    assert_eq!(first, second);
    assert_eq!(second, third);

    pager.read_page(1).unwrap();
    assert_eq!(pager.page_cache.len(), 2);
}

#[test]
fn page_index_errors() {
    let image = blank_image(1);
    let mut pager = Pager::open(image).unwrap();
    assert_eq!(pager.read_page(0), Err(DBError::PageIndexOutOfRange));
    assert_eq!(pager.read_page(2), Err(DBError::TruncatedFile));
}

#[test]
fn bad_page_type_surfaces_from_read_page() {
    let mut image = blank_image(2);
    write_leaf_page(&mut image, 1, &[(1, 10)]);
    image[512] = 7; // page 2's type byte
    let mut pager = Pager::open(image).unwrap();
    assert_eq!(pager.read_page(2), Err(DBError::InvalidPageType(7)));
    assert_eq!(pager.page_cache.len(), 0);
}

#[test]
fn open_rejects_short_image() {
    match Pager::open(vec![0u8; 50]) {
        Err(e) => assert_eq!(e, DBError::TruncatedFile),
        Ok(_) => panic!("expected a truncated-file error"),
    }
}

#[test]
fn scan_leaf_rows_in_cell_order() {
    let mut image = blank_image(1);
    write_leaf_page(&mut image, 1, &[(5, 50), (9, 90), (42, 120)]);
    let mut pager = Pager::open(image).unwrap();
    let rows = Cursor::scan(&mut pager, 1).unwrap();
    let ids: Vec<Option<u64>> = rows.iter().map(|r| r.row_id).collect();
    assert_eq!(ids, vec![Some(5), Some(9), Some(42)]);
    assert_eq!(rows[0].record.values, vec![Value::Integer(50)]);
    assert_eq!(rows[2].record.values, vec![Value::Integer(120)]);
}

#[test]
fn scan_descends_interior_pages_left_to_right() {
    let mut image = blank_image(3);
    // Page 1: table interior, one cell pointing at page 2, right-most
    // child page 3.
    image[100] = 5;
    image[104] = 1; // one cell
    image[108..112].copy_from_slice(&3u32.to_be_bytes()); // right-most pointer
    image[112..114].copy_from_slice(&200u16.to_be_bytes());
    image[200..204].copy_from_slice(&2u32.to_be_bytes()); // left child
    image[204] = 9; // separating key
    write_leaf_page(&mut image, 2, &[(5, 50), (9, 90)]);
    write_leaf_page(&mut image, 3, &[(42, 120)]);

    let mut pager = Pager::open(image).unwrap();
    let rows = Cursor::scan(&mut pager, 1).unwrap();
    let ids: Vec<Option<u64>> = rows.iter().map(|r| r.row_id).collect();
    assert_eq!(ids, vec![Some(5), Some(9), Some(42)]);
}

#[test]
fn scan_reports_cycles_as_out_of_range() {
    let mut image = blank_image(2);
    // Page 1: interior page whose right-most child is page 1 itself.
    image[100] = 5;
    image[104] = 0; // no cells
    image[108..112].copy_from_slice(&1u32.to_be_bytes());
    let mut pager = Pager::open(image).unwrap();
    assert_eq!(
        Cursor::scan(&mut pager, 1),
        Err(DBError::PageIndexOutOfRange)
    );
}
