use sqlite_pager::errors::DBError;
use sqlite_pager::header::{parse_db_file_header, DBHeader, TextEncoding};

const MAGIC: [u8; 16] = [
    0x53, 0x51, 0x4c, 0x69, 0x74, 0x65, 0x20, 0x66, 0x6f, 0x72, 0x6d, 0x61, 0x74, 0x20, 0x33,
    0x00,
];

fn header_buffer(page_size_bytes: [u8; 2], encoding: u32) -> Vec<u8> {
    let mut buffer = vec![0u8; 100];
    buffer[..16].copy_from_slice(&MAGIC);
    buffer[16] = page_size_bytes[0];
    buffer[17] = page_size_bytes[1];
    buffer[56..60].copy_from_slice(&encoding.to_be_bytes());
    buffer
}

#[test]
fn header_page_size_4096_parses() {
    let buffer = header_buffer([0x10, 0x00], 1);
    let header = parse_db_file_header(&buffer).unwrap();
    assert_eq!(header.page_size, 4096);
    assert_eq!(header.text_encoding, TextEncoding::UTF8);
}

#[test]
fn header_page_size_100_rejected() {
    let buffer = header_buffer([0x00, 0x64], 1);
    assert_eq!(
        parse_db_file_header(&buffer),
        Err(DBError::InvalidPageSize(100))
    );
}

#[test]
fn header_page_size_sentinel_means_65536() {
    let buffer = header_buffer([0x00, 0x01], 1);
    let header = parse_db_file_header(&buffer).unwrap();
    assert_eq!(header.page_size, 65536);
}

#[test]
fn header_bad_magic_rejected() {
    let mut buffer = header_buffer([0x10, 0x00], 1);
    buffer[0] = b'X';
    match parse_db_file_header(&buffer) {
        Err(DBError::InvalidMagic(observed)) => {
            assert_eq!(observed.len(), 16);
            assert_eq!(observed[0], b'X');
            assert_eq!(&observed[1..], &MAGIC[1..]);
        }
        other => panic!("expected InvalidMagic, got {:?}", other),
    }
}

#[test]
fn header_bad_text_encoding_rejected() {
    let buffer = header_buffer([0x10, 0x00], 0);
    assert_eq!(
        parse_db_file_header(&buffer),
        Err(DBError::InvalidTextEncoding(0))
    );
    let buffer = header_buffer([0x10, 0x00], 4);
    assert_eq!(
        parse_db_file_header(&buffer),
        Err(DBError::InvalidTextEncoding(4))
    );
}

#[test]
fn header_fields_read_at_their_offsets() {
    let mut buffer = header_buffer([0x02, 0x00], 2);
    buffer[18] = 1; // write version
    buffer[19] = 2; // read version
    buffer[20] = 32; // reserved space
    buffer[24..28].copy_from_slice(&7u32.to_be_bytes()); // change counter
    buffer[28..32].copy_from_slice(&3u32.to_be_bytes()); // pages in file
    buffer[40..44].copy_from_slice(&11u32.to_be_bytes()); // schema cookie
    buffer[60..64].copy_from_slice(&99u32.to_be_bytes()); // user version
    buffer[96..100].copy_from_slice(&3049001u32.to_be_bytes());
    let header = parse_db_file_header(&buffer).unwrap();
    assert_eq!(header.page_size, 512);
    assert_eq!(header.write_version, 1);
    assert_eq!(header.read_version, 2);
    assert_eq!(header.reserved_space_size, 32);
    assert_eq!(header.file_change_counter, 7);
    assert_eq!(header.db_size_in_pages, 3);
    assert_eq!(header.schema_cookie, 11);
    assert_eq!(header.text_encoding, TextEncoding::UTF16le);
    assert_eq!(header.user_version, 99);
    assert_eq!(header.sqlite_version, 3049001);
    assert_eq!(header.usable_size(), 512 - 32);
}

#[test]
fn header_method_agrees_with_free_function() {
    let buffer = header_buffer([0x10, 0x00], 3);
    let a = DBHeader::parse_header(&buffer).unwrap();
    assert_eq!(a.page_size, 4096);
    assert_eq!(a.text_encoding, TextEncoding::UTF16be);
}
