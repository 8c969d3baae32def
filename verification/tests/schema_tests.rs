use sqlite_pager::errors::DBError;
use sqlite_pager::pager::Pager;
use sqlite_pager::schema::{
    parse_schema_page, read_sqlite_schema_cell_payload, ColumnType, Table,
};

const MAGIC: [u8; 16] = [
    0x53, 0x51, 0x4c, 0x69, 0x74, 0x65, 0x20, 0x66, 0x6f, 0x72, 0x6d, 0x61, 0x74, 0x20, 0x33,
    0x00,
];

// A one-page 512-byte image with a valid file header.
fn blank_image() -> Vec<u8> {
    let mut image = vec![0u8; 512];
    image[..16].copy_from_slice(&MAGIC);
    image[16] = 0x02;
    image[17] = 0x00;
    image[59] = 1;
    image
}

// A catalog-row payload: text, text, text, one-byte integer, text.
fn schema_payload(kind: &str, name: &str, table_name: &str, root: u8, sql: &str) -> Vec<u8> {
    let codes = [
        (13 + 2 * kind.len()) as u8,
        (13 + 2 * name.len()) as u8,
        (13 + 2 * table_name.len()) as u8,
        1,
        (13 + 2 * sql.len()) as u8,
    ];
    let mut payload = vec![(codes.len() + 1) as u8];
    payload.extend_from_slice(&codes);
    payload.extend_from_slice(kind.as_bytes());
    payload.extend_from_slice(name.as_bytes());
    payload.extend_from_slice(table_name.as_bytes());
    payload.push(root);
    payload.extend_from_slice(sql.as_bytes());
    payload
}

#[test]
fn schema_row_decodes_and_lowercases_sql() {
    let payload = schema_payload(
        "table",
        "Users",
        "Users",
        2,
        "CREATE TABLE Users(Id INTEGER)",
    );
    let mut offset = 0usize;
    let schema = read_sqlite_schema_cell_payload(&payload, &mut offset).unwrap();
    assert_eq!(schema.schema_type, "table");
    assert_eq!(schema.name, "Users");
    assert_eq!(schema.table_name, "Users");
    assert_eq!(schema.root_page, 2);
    assert_eq!(schema.sql, "create table users(id integer)");
    // The offset advanced past the record: header and all five values.
    assert_eq!(offset, payload.len());
}

#[test]
fn schema_row_found_mid_buffer() {
    let mut buffer = vec![0xAAu8; 64];
    let payload = schema_payload("index", "I1", "Users", 3, "CREATE INDEX I1 ON Users(Id)");
    buffer.extend_from_slice(&payload);
    let mut offset = 64usize;
    let schema = read_sqlite_schema_cell_payload(&buffer, &mut offset).unwrap();
    assert_eq!(schema.schema_type, "index");
    assert_eq!(schema.root_page, 3);
    assert_eq!(offset, 64 + payload.len());
}

#[test]
fn schema_row_offset_stops_after_fifth_value() {
    let payload = schema_payload("view", "V", "V", 4, "CREATE VIEW V AS SELECT 1");
    let record_len = payload.len();
    let mut buffer = payload;
    buffer.extend_from_slice(&[0xEE; 32]); // unrelated bytes after the record
    let mut offset = 0usize;
    let schema = read_sqlite_schema_cell_payload(&buffer, &mut offset).unwrap();
    assert_eq!(schema.schema_type, "view");
    assert_eq!(offset, record_len);
}

#[test]
fn schema_row_with_too_few_columns_rejected() {
    // A record of just two text values.
    let mut payload = vec![3u8, 13 + 2, 13 + 2];
    payload.extend_from_slice(b"ab");
    let mut offset = 0usize;
    assert_eq!(
        read_sqlite_schema_cell_payload(&payload, &mut offset),
        Err(DBError::InvalidPayloadEncoding)
    );
    assert_eq!(offset, 0);
}

#[test]
fn schema_row_with_wrong_column_kind_rejected() {
    // First column is an integer, not text.
    let mut payload = vec![6u8, 1, 23, 23, 1, 23];
    payload.push(1);
    payload.extend_from_slice(b"aaaaa");
    payload.extend_from_slice(b"bbbbb");
    payload.push(2);
    payload.extend_from_slice(b"ccccc");
    let mut offset = 0usize;
    assert_eq!(
        read_sqlite_schema_cell_payload(&payload, &mut offset),
        Err(DBError::InvalidPayloadEncoding)
    );
}

#[test]
fn schema_page_composes_catalog_rows() {
    let mut image = blank_image();
    image[100] = 13; // page 1: table leaf
    image[104] = 2; // two cells
    image[108..110].copy_from_slice(&300u16.to_be_bytes());
    image[110..112].copy_from_slice(&380u16.to_be_bytes());
    let rows = [
        (1u8, 300usize, schema_payload("table", "T1", "T1", 2, "CREATE TABLE T1(A)")),
        (2u8, 380usize, schema_payload("table", "T2", "T2", 3, "CREATE TABLE T2(B)")),
    ];
    for (row_id, at, payload) in rows.iter() {
        image[*at] = payload.len() as u8;
        image[at + 1] = *row_id;
        image[at + 2..at + 2 + payload.len()].copy_from_slice(payload);
    }

    let pager = Pager::open(image).unwrap();
    let (page_size, schemas) = parse_schema_page(&pager).unwrap();
    assert_eq!(page_size, 512);
    assert_eq!(schemas.len(), 2);
    assert_eq!(schemas[0].name, "T1");
    assert_eq!(schemas[0].root_page, 2);
    assert_eq!(schemas[0].sql, "create table t1(a)");
    assert_eq!(schemas[1].name, "T2");
    assert_eq!(schemas[1].root_page, 3);
    assert_eq!(schemas[1].sql, "create table t2(b)");
}

#[test]
fn schema_page_must_be_a_table_leaf() {
    let mut image = blank_image();
    image[100] = 5; // page 1: table interior
    let pager = Pager::open(image).unwrap();
    assert_eq!(parse_schema_page(&pager), Err(DBError::InvalidPageType(5)));
}

#[test]
fn master_table_shape() {
    let table = Table::get_master_table();
    assert_eq!(table.root_page, 1);
    assert_eq!(table.name, "sqlite_master");
    assert_eq!(table.columns.len(), 5);
    let names: Vec<&str> = table.columns.iter().map(|c| c.name.as_str()).collect();
    assert_eq!(names, vec!["type", "name", "table_name", "root_page", "sql"]);
    assert_eq!(table.columns[3].column_type, ColumnType::Integer);
    assert_eq!(table.columns[4].column_type, ColumnType::Text);
}
